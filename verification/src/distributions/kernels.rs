//! What the kernels of the distributions compute.
//!
//! A kernel is named by an opcode. One that works element by element is a formula of the
//! values its element reads; one that owns a row is a formula of the rows it reads. Both are
//! given here as mathematics, over the real numbers, and as the trees an executor evaluates.

use vstd::prelude::*;

use super::draws;
use super::families;
use super::formula;
use super::formula::{Calculus, Formula, Point, Slot, slot, times, whole};
use super::rng;
use super::rows;
use super::rows::Cell;
use super::simplex_rows;
use super::slopes;
use super::slopes::{Grad4, Slopes};
use super::triangular;
use super::triangular::Matrix;
use super::univariate;
use super::univariate::Kind;
use crate::meaning;
use crate::meaning::Model;
use crate::term::{Fused, Scalar};

verus! {

// -- elements ------------------------------------------------------------------------------

/// The family a code names.
pub open spec fn family(code: u32) -> Kind {
    choose|k: Kind| k.code_of() == code
}

pub proof fn lemma_family(k: Kind)
    ensures
        family(k.code_of()) == k,
        k.code_of() < 26,
{
    let j = family(k.code_of());
    assert(k.code_of() == k.code_of());
    univariate::law_codes_name_kinds(j, k);
    univariate::law_codes_name_kinds(k, k);
}

/// The derivative for one of the four slots: the value, then the three parameters.
pub open spec fn partial(s: Slopes, which: u8) -> real {
    if which == 0 {
        s.dx
    } else if which == 1 {
        s.da
    } else if which == 2 {
        s.db
    } else {
        s.dc
    }
}

/// Whether an opcode names a kernel that works element by element.
pub open spec fn is_elementwise(op: Fused) -> bool {
    match op {
        Fused::Density(code, _) => code < 26,
        Fused::DensityGrad(code, _, _) => code < 26,
        Fused::Summary(code, _) => code < 26,
        Fused::EntropyGrad(code, _) => code < 26,
        Fused::Draw(code, _, _) => code < 26 && family(code).is_lane_sampled(),
        Fused::DrawGrad(code, _, _, _) => code < 26 && family(code).is_reparameterised(),
        _ => false,
    }
}

/// What an elementwise kernel writes. The value and the parameters stand in their slots, the
/// gradient of an adjoint in `u`, and the uniform number of a draw in the value.
pub open spec fn element(m: Calculus, op: Fused, p: Point) -> real {
    match op {
        Fused::Density(code, which) => families::pointwise(m, family(code), which, p),
        Fused::DensityGrad(code, which, s) => p.u * partial(
            if which == univariate::ICDF {
                slopes::inverse_slopes(m, family(code), p)
            } else {
                slopes::score(m, family(code), p)
            },
            s,
        ),
        Fused::Summary(code, which) => if which == univariate::ENTROPY {
            families::entropy(m, family(code), p)
        } else {
            families::statistic(m, family(code), which, p)
        },
        Fused::EntropyGrad(code, s) => p.u * partial(
            slopes::entropy_slopes(m, family(code), p),
            s,
        ),
        Fused::Draw(code, _, _) => draws::lane_draw(m, family(code), p),
        Fused::DrawGrad(code, _, _, s) => p.u * partial(draws::path_slopes(m, family(code), p), s),
        _ => 0real,
    }
}

/// The gradient times one of four derivatives.
fn weighted(g: Grad4, which: u8) -> (r: Formula)
    ensures
        forall|m: Calculus, p: Point| #[trigger]
            formula::meaning(m, r, p) == p.u * partial(g.at(m, p), which),
{
    let Grad4 { dx, da, db, dc } = g;
    let d = if which == 0 {
        dx
    } else if which == 1 {
        da
    } else if which == 2 {
        db
    } else {
        dc
    };
    times(slot(Slot::U), d)
}

/// The formula an elementwise kernel evaluates, from its opcode; nothing for an opcode that
/// names no such kernel.
pub fn element_of(op: Fused) -> (r: Option<Formula>)
    ensures
        r is Some == is_elementwise(op),
        r matches Some(e) ==> forall|m: Calculus, p: Point| #[trigger]
            formula::meaning(m, e, p) == element(m, op, p),
{
    let code: u32 = match op {
        Fused::Density(c, _) => c,
        Fused::DensityGrad(c, _, _) => c,
        Fused::Summary(c, _) => c,
        Fused::EntropyGrad(c, _) => c,
        Fused::Draw(c, _, _) => c,
        Fused::DrawGrad(c, _, _, _) => c,
        _ => {
            return None;
        },
    };
    let kind: Kind = match families::kind_of(code) {
        Some(k) => k,
        None => {
            return None;
        },
    };
    proof {
        lemma_family(kind);
    }
    match op {
        Fused::Density(_, which) => Some(families::pointwise_of(kind, which)),
        Fused::DensityGrad(_, which, s) => if which == univariate::ICDF {
            Some(weighted(slopes::icdf_grad_of(kind), s))
        } else {
            Some(weighted(slopes::log_prob_grad_of(kind), s))
        },
        Fused::Summary(_, which) => if which == univariate::ENTROPY {
            Some(families::entropy_of(kind))
        } else {
            Some(families::moment_of(kind, which))
        },
        Fused::EntropyGrad(_, s) => Some(weighted(slopes::entropy_grad_of(kind), s)),
        Fused::Draw(_, _, _) => if kind.lane_sampled() {
            Some(draws::sample_from_bits_of(kind))
        } else {
            None
        },
        Fused::DrawGrad(_, _, _, s) => if kind.reparameterised() {
            Some(weighted(draws::rsample_grad_of(kind), s))
        } else {
            None
        },
        _ => None,
    }
}

// -- uniform numbers -----------------------------------------------------------------------

pub open spec fn low_word(n: int) -> u32 {
    (n % 0x1_0000_0000) as u32
}

pub open spec fn high_word(n: int) -> u32 {
    ((n / 0x1_0000_0000) % 0x1_0000_0000) as u32
}

/// The random word of an element under a seed.
pub open spec fn word_at(seed: u64, i: int) -> u32 {
    rng::lane_draw(
        low_word(i),
        high_word(i),
        0,
        low_word(seed as int),
        high_word(seed as int),
    )
}

/// The uniform number of an element: the midpoint of the cell its word picks, or the left edge
/// where zero may come up.
pub open spec fn uniform_at(half_open: bool, seed: u64, i: int) -> real {
    if half_open {
        rng::cell(word_at(seed, i)) as real / 8388608real
    } else {
        (2 * rng::cell(word_at(seed, i)) + 1) as real / 16777216real
    }
}

proof fn lemma_words(n: int, lo: u32, hi: u32)
    requires
        n == lo + rng::word() * hi,
    ensures
        low_word(n) == lo,
        high_word(n) == hi,
{
    let w = 0x1_0000_0000int;
    assert(n == hi * w + lo);
    vstd::arithmetic::div_mod::lemma_fundamental_div_mod_converse(n, w, hi as int, lo as int);
    vstd::arithmetic::div_mod::lemma_small_mod(hi as nat, w as nat);
}

/// The random word of an element under a seed.
pub fn draw_word(seed: u64, i: u64) -> (r: u32)
    ensures
        r == word_at(seed, i as int),
{
    let (lo, hi) = rng::words(i);
    let (key_lo, key_hi) = rng::words(seed);
    proof {
        lemma_words(i as int, lo, hi);
        lemma_words(seed as int, key_lo, key_hi);
    }
    rng::draw_lane(lo, hi, 0, key_lo, key_hi, true)
}

/// A uniform number lies between zero and one, and is zero only where it may be.
pub proof fn law_uniform_numbers_are_inside(half_open: bool, seed: u64, i: int)
    ensures
        0real <= uniform_at(half_open, seed, i) < 1real,
        !half_open ==> uniform_at(half_open, seed, i) > 0real,
{
    let c = rng::cell(word_at(seed, i));
    assert(0 <= c < 8388608);
}

// -- rows ----------------------------------------------------------------------------------

/// A matrix that lies row by row in a buffer.
pub open spec fn square(flat: Seq<real>, dim: nat) -> Seq<Seq<real>> {
    Seq::new(dim, |r: int| Seq::new(dim, |c: int| flat[r * dim + c]))
}

/// The entries of a square matrix, row by row.
pub open spec fn flattened(a: Seq<Seq<real>>, dim: nat) -> Seq<real> {
    Seq::new(dim * dim, |i: int| a[i / dim as int][i % dim as int])
}

/// A row with every entry multiplied by a number.
pub open spec fn sharpened(m: Model, s: Seq<real>, by: Scalar) -> Seq<real> {
    Seq::new(s.len(), |i: int| s[i] * meaning::scalar(m.f, by))
}

/// The solution of the system of a normal density for the distance from the mean.
pub open spec fn whitened(loc: Seq<real>, l: Seq<Seq<real>>, x: Seq<real>) -> Seq<real> {
    triangular::forward(l, triangular::minus(x, loc), x.len())
}

/// What a row kernel writes for the rows it reads, in the order of its operands. `n` is the
/// class for a kernel of one class, and the side of the matrix for a factorisation.
pub open spec fn row_result(m: Model, op: Fused, rs: Seq<Seq<real>>, n: nat) -> Seq<real> {
    match op {
        Fused::RowProbs => rows::probabilities(m, rs[0]),
        Fused::RowLogProb => seq![rs[0][n as int] - rows::log_total(m, rs[0])],
        Fused::RowLogProbGrad => Seq::new(
            rs[0].len(),
            |i: int|
                rs[1][0] * (meaning::indicator(i == n) - rows::probabilities(m, rs[0])[i]),
        ),
        Fused::RowEntropy => seq![rows::entropy(m, rs[0])],
        Fused::RowEntropyGrad => Seq::new(
            rs[0].len(),
            |i: int| rows::entropy_slope(m, rs[0], rs[1][0], i),
        ),
        Fused::RowDrawScore(_, by, _, _) => {
            let s = sharpened(m, rs[0], by);
            seq![s[n as int] - rows::log_total(m, s)]
        },
        Fused::Cholesky => flattened(triangular::factor(m, square(rs[0], n), n), n),
        Fused::MvnLogProb => seq![
            triangular::normal_density(m, rs[0], square(rs[1], rs[2].len()), rs[2]),
        ],
        Fused::MvnGrad(which) => {
            let l = square(rs[1], rs[2].len());
            let z = whitened(rs[0], l, rs[2]);
            let w = triangular::backward(l, z, rs[2].len());
            if which == 0 {
                Seq::new(rs[2].len(), |i: int| (-rs[3][0]) * w[i])
            } else if which == 1 {
                Seq::new(rs[2].len(), |i: int| rs[3][0] * w[i])
            } else {
                flattened(
                    Seq::new(
                        rs[2].len(),
                        |r: int|
                            Seq::new(
                                rs[2].len(),
                                |c: int| triangular::factor_slope(rs[3][0], w, z, l, r, c),
                            ),
                    ),
                    rs[2].len(),
                )
            }
        },
        Fused::MvnKl => seq![
            triangular::normal_divergence(
                m,
                rs[0],
                square(rs[1], rs[0].len()),
                rs[2],
                square(rs[3], rs[0].len()),
            ),
        ],
        Fused::DirichletLogProb => seq![simplex_rows::dirichlet_density(m, rs[0], rs[1])],
        Fused::DirichletGrad(which) => if which == 0 {
            Seq::new(
                rs[0].len(),
                |i: int| simplex_rows::value_slope(m, rs[0], rs[1], rs[2][0], i),
            )
        } else {
            Seq::new(
                rs[0].len(),
                |i: int| simplex_rows::conc_slope(m, rs[0], rs[1], rs[2][0], i),
            )
        },
        Fused::DirichletEntropy => seq![simplex_rows::dirichlet_entropy_of(m, rs[0])],
        Fused::DirichletEntropyGrad => Seq::new(
            rs[0].len(),
            |i: int| simplex_rows::entropy_slope(m, rs[0], rs[1][0], i),
        ),
        Fused::DirichletMoment(which) => if which == univariate::MEAN {
            Seq::new(rs[0].len(), |i: int| simplex_rows::mean_of_class(m, rs[0], i))
        } else if which == univariate::VARIANCE {
            Seq::new(rs[0].len(), |i: int| simplex_rows::variance_of_class(m, rs[0], i))
        } else {
            Seq::new(rs[0].len(), |i: int| simplex_rows::mode_of_class(m, rs[0], i))
        },
        Fused::MultinomialLogProb(trials) => seq![
            simplex_rows::multinomial_mass(m, trials, rs[0], rs[1]),
        ],
        _ => Seq::empty(),
    }
}

/// Whether an opcode names a kernel that owns a row, and rows of these lengths are ones it
/// reads.
pub open spec fn row_ready(op: Fused, lens: Seq<nat>, n: nat) -> bool {
    match op {
        Fused::RowProbs | Fused::RowEntropy => lens.len() == 1 && lens[0] > 0,
        Fused::RowLogProb | Fused::RowDrawScore(_, _, _, _) => lens.len() == 1 && n < lens[0],
        Fused::RowLogProbGrad => lens.len() == 2 && n < lens[0] && lens[1] == 1,
        Fused::RowEntropyGrad => lens.len() == 2 && lens[0] > 0 && lens[1] == 1,
        Fused::Cholesky => lens.len() == 1 && lens[0] == n * n,
        Fused::MvnLogProb => lens.len() == 3 && lens[0] == lens[2] && lens[1] == lens[2] * lens[2],
        Fused::MvnGrad(_) => lens.len() == 4 && lens[0] == lens[2] && lens[1] == lens[2] * lens[2]
            && lens[3] == 1,
        Fused::MvnKl => lens.len() == 4 && lens[2] == lens[0] && lens[1] == lens[0] * lens[0]
            && lens[3] == lens[0] * lens[0],
        Fused::DirichletLogProb | Fused::MultinomialLogProb(_) => lens.len() == 2 && lens[0]
            == lens[1],
        Fused::DirichletGrad(_) => lens.len() == 3 && lens[0] == lens[1] && lens[2] == 1,
        Fused::DirichletEntropy | Fused::DirichletMoment(_) => lens.len() == 1,
        Fused::DirichletEntropyGrad => lens.len() == 2 && lens[1] == 1,
        _ => false,
    }
}

/// The lengths of rows.
pub open spec fn lengths(rs: Seq<Vec<Cell>>) -> Seq<nat> {
    rs.map_values(|r: Vec<Cell>| r@.len())
}

/// A row of one entry.
fn alone(c: Cell) -> (r: Vec<Cell>)
    ensures
        r@ == seq![c],
        forall|m: Model| #[trigger] m.row(r@) == seq![m.of(*c)],
{
    let mut out: Vec<Cell> = Vec::new();
    out.push(c);
    proof {
        assert(out@ =~= seq![c]);
        assert forall|m: Model| #[trigger] m.row(out@) == seq![m.of(*c)] by {
            assert(m.row(out@) =~= seq![m.of(*c)]);
        }
    }
    out
}

pub(crate) proof fn lemma_square_bound(r: int, c: int, d: int)
    requires
        0 <= r < d,
        0 <= c < d,
    ensures
        0 <= r * d + c < d * d,
        (r * d + c) / d == r,
        (r * d + c) % d == c,
{
    assert(0 <= r * d + c < d * d) by (nonlinear_arith)
        requires
            0 <= r < d,
            0 <= c < d,
    ;
    vstd::arithmetic::div_mod::lemma_fundamental_div_mod_converse(r * d + c, d, r, c);
}

/// The matrix that lies in a row.
fn squared_up(flat: &Vec<Cell>, dim: usize) -> (r: Matrix)
    requires
        flat@.len() == dim * dim,
    ensures
        triangular::is_square(r@, dim as nat),
        forall|m: Model| #[trigger] triangular::grid(m, r@) == square(m.row(flat@), dim as nat),
{
    let out = triangular::matrix_at(flat, 0, dim);
    proof {
        assert forall|m: Model| #[trigger] triangular::grid(m, out@) == square(
            m.row(flat@),
            dim as nat,
        ) by {
            let s = square(m.row(flat@), dim as nat);
            assert forall|i: int| 0 <= i < dim implies triangular::grid(m, out@)[i] == s[i] by {
                assert forall|j: int| 0 <= j < dim implies m.row(out@[i]@)[j] == s[i][j] by {
                    lemma_square_bound(i, j, dim as int);
                    assert(out@[i]@[j] == flat@[0 + i * dim + j]);
                }
                assert(m.row(out@[i]@) =~= s[i]);
            }
            assert(triangular::grid(m, out@) =~= s);
        }
    }
    out
}

/// The entries of a matrix in one row.
fn flat_row(a: &Matrix, dim: usize, total: usize) -> (r: Vec<Cell>)
    requires
        triangular::is_square(a@, dim as nat),
        total == dim * dim,
    ensures
        r@.len() == total,
        forall|m: Model| #[trigger] m.row(r@) == flattened(triangular::grid(m, a@), dim as nat),
{
    let mut out: Vec<Cell> = Vec::new();
    let mut i: usize = 0;
    while i < total
        invariant
            i <= total,
            total == dim * dim,
            triangular::is_square(a@, dim as nat),
            out@.len() == i,
            forall|k: int|
                0 <= k < i ==> #[trigger] out@[k] == a@[k / dim as int]@[k % dim as int],
        decreases total - i,
    {
        proof {
            assert(dim > 0) by (nonlinear_arith)
                requires
                    i < dim * dim,
                    i >= 0,
                    dim >= 0,
            ;
            vstd::arithmetic::div_mod::lemma_div_pos_is_pos(i as int, dim as int);
            vstd::arithmetic::div_mod::lemma_multiply_divide_lt(
                i as int,
                dim as int,
                dim as int,
            );
        }
        out.push(a[i / dim][i % dim].clone());
        i += 1;
    }
    proof {
        assert forall|m: Model| #[trigger] m.row(out@) == flattened(
            triangular::grid(m, a@),
            dim as nat,
        ) by {
            let f = flattened(triangular::grid(m, a@), dim as nat);
            assert forall|k: int| 0 <= k < total implies m.row(out@)[k] == f[k] by {
                assert(dim > 0) by (nonlinear_arith)
                    requires
                        0 <= k < dim * dim,
                        dim >= 0,
                ;
                vstd::arithmetic::div_mod::lemma_div_pos_is_pos(k, dim as int);
                vstd::arithmetic::div_mod::lemma_multiply_divide_lt(k, dim as int, dim as int);
                assert(out@[k] == a@[k / dim as int]@[k % dim as int]);
                assert(triangular::grid(m, a@)[k / dim as int] == m.row(a@[k / dim as int]@));
            }
            assert(m.row(out@) =~= f);
        }
    }
    out
}

/// The row kernels of the distributions over classes.
fn class_row(op: Fused, rs: &Vec<Vec<Cell>>, n: usize) -> (r: Option<Vec<Cell>>)
    requires
        row_ready(op, lengths(rs@), n as nat),
    ensures
        r is Some == (op is RowProbs || op is RowLogProb || op is RowLogProbGrad
            || op is RowEntropy || op is RowEntropyGrad || op is RowDrawScore),
        r matches Some(v) ==> forall|m: Model| #[trigger]
            m.row(v@) == row_result(m, op, triangular::grid(m, rs@), n as nat),
{
    let ghost lens = lengths(rs@);
    match op {
        Fused::RowProbs => {
            assert(lens[0] == rs@[0]@.len());
            let v = rows::row_probs(&rs[0]);
            Some(v)
        },
        Fused::RowLogProb => {
            assert(lens[0] == rs@[0]@.len());
            Some(alone(rows::row_log_prob(&rs[0], n)))
        },
        Fused::RowLogProbGrad => {
            assert(lens[0] == rs@[0]@.len() && lens[1] == rs@[1]@.len());
            let v = rows::row_log_prob_grad(&rs[0], n, &rs[1][0]);
            proof {
                assert forall|m: Model| #[trigger]
                    m.row(v@) == row_result(m, op, triangular::grid(m, rs@), n as nat) by {
                    assert(m.row(rs@[1]@)[0] == m.of(*rs@[1]@[0]));
                    assert(m.row(v@) =~= row_result(m, op, triangular::grid(m, rs@), n as nat));
                }
            }
            Some(v)
        },
        Fused::RowEntropy => {
            assert(lens[0] == rs@[0]@.len());
            Some(alone(rows::row_entropy(&rs[0])))
        },
        Fused::RowEntropyGrad => {
            assert(lens[0] == rs@[0]@.len() && lens[1] == rs@[1]@.len());
            let v = rows::row_entropy_grad(&rs[0], &rs[1][0]);
            proof {
                assert forall|m: Model| #[trigger]
                    m.row(v@) == row_result(m, op, triangular::grid(m, rs@), n as nat) by {
                    assert(m.row(rs@[1]@)[0] == m.of(*rs@[1]@[0]));
                    assert(m.row(v@) =~= row_result(m, op, triangular::grid(m, rs@), n as nat));
                }
            }
            Some(v)
        },
        Fused::RowDrawScore(_, by, _, _) => {
            assert(lens[0] == rs@[0]@.len());
            let t = rows::tempered(&rs[0], by);
            proof {
                assert forall|m: Model| #[trigger] m.row(t@) == sharpened(m, m.row(rs@[0]@), by) by {
                    assert(m.row(t@) =~= sharpened(m, m.row(rs@[0]@), by));
                }
            }
            let v = alone(rows::row_log_prob(&t, n));
            proof {
                assert forall|m: Model| #[trigger]
                    m.row(v@) == row_result(m, op, triangular::grid(m, rs@), n as nat) by {
                    assert(m.row(t@) == sharpened(m, m.row(rs@[0]@), by));
                }
            }
            Some(v)
        },
        _ => None,
    }
}

/// The row kernels of the multivariate normal.
fn normal_row(op: Fused, rs: &Vec<Vec<Cell>>, n: usize) -> (r: Option<Vec<Cell>>)
    requires
        row_ready(op, lengths(rs@), n as nat),
    ensures
        r is Some == (op is Cholesky || op is MvnLogProb || op is MvnGrad || op is MvnKl),
        r matches Some(v) ==> forall|m: Model| #[trigger]
            m.row(v@) == row_result(m, op, triangular::grid(m, rs@), n as nat),
{
    let ghost lens = lengths(rs@);
    match op {
        Fused::Cholesky => {
            assert(lens[0] == rs@[0]@.len());
            let a = squared_up(&rs[0], n);
            let l = triangular::cholesky(&a);
            let v = flat_row(&l, n, rs[0].len());
            proof {
                assert forall|m: Model| #[trigger]
                    m.row(v@) == row_result(m, op, triangular::grid(m, rs@), n as nat) by {
                    assert(triangular::grid(m, a@) == square(m.row(rs@[0]@), n as nat));
                    assert(triangular::grid(m, l@) == triangular::factor(
                        m,
                        triangular::grid(m, a@),
                        n as nat,
                    ));
                }
            }
            Some(v)
        },
        Fused::MvnLogProb => {
            assert(lens[0] == rs@[0]@.len() && lens[1] == rs@[1]@.len() && lens[2]
                == rs@[2]@.len());
            let l = squared_up(&rs[1], rs[2].len());
            let v = alone(triangular::normal_log_prob(&rs[0], &l, &rs[2]));
            proof {
                assert forall|m: Model| #[trigger]
                    m.row(v@) == row_result(m, op, triangular::grid(m, rs@), n as nat) by {
                    assert(triangular::grid(m, l@) == square(m.row(rs@[1]@), rs@[2]@.len()));
                }
            }
            Some(v)
        },
        Fused::MvnGrad(which) => {
            assert(lens[0] == rs@[0]@.len() && lens[1] == rs@[1]@.len() && lens[2]
                == rs@[2]@.len() && lens[3] == rs@[3]@.len());
            let dim: usize = rs[2].len();
            let l = squared_up(&rs[1], dim);
            let (z, w) = triangular::normal_solves(&rs[0], &l, &rs[2]);
            let v = if which == 0 {
                triangular::normal_grad_vector(&w, &rs[3][0], true)
            } else if which == 1 {
                triangular::normal_grad_vector(&w, &rs[3][0], false)
            } else {
                let a = triangular::normal_grad_factor(&w, &z, &l, &rs[3][0]);
                let flat = flat_row(&a, dim, rs[1].len());
                proof {
                    assert forall|m: Model| #[trigger]
                        m.row(flat@) == row_result(m, op, triangular::grid(m, rs@), n as nat) by {
                        let want = Seq::new(
                            dim as nat,
                            |r: int|
                                Seq::new(
                                    dim as nat,
                                    |c: int|
                                        triangular::factor_slope(
                                            m.of(*rs@[3]@[0]),
                                            m.row(w@),
                                            m.row(z@),
                                            triangular::grid(m, l@),
                                            r,
                                            c,
                                        ),
                                ),
                        );
                        assert forall|r: int| 0 <= r < dim implies triangular::grid(m, a@)[r]
                            == want[r] by {
                            assert forall|c: int| 0 <= c < dim implies m.row(a@[r]@)[c]
                                == want[r][c] by {
                                assert(m.row(a@[r]@)[c] == triangular::factor_slope(
                                    m.of(*rs@[3]@[0]),
                                    m.row(w@),
                                    m.row(z@),
                                    triangular::grid(m, l@),
                                    r,
                                    c,
                                ));
                            }
                            assert(m.row(a@[r]@) =~= want[r]);
                        }
                        assert(triangular::grid(m, a@) =~= want);
                        assert(triangular::grid(m, l@) == square(m.row(rs@[1]@), dim as nat));
                        assert(m.row(z@) == whitened(
                            m.row(rs@[0]@),
                            triangular::grid(m, l@),
                            m.row(rs@[2]@),
                        ));
                        assert(m.row(w@) == triangular::backward(
                            triangular::grid(m, l@),
                            m.row(z@),
                            dim as nat,
                        ));
                        assert(m.row(rs@[3]@)[0] == m.of(*rs@[3]@[0]));
                        assert(triangular::grid(m, rs@)[0] == m.row(rs@[0]@));
                        assert(triangular::grid(m, rs@)[1] == m.row(rs@[1]@));
                        assert(triangular::grid(m, rs@)[2] == m.row(rs@[2]@));
                        assert(triangular::grid(m, rs@)[3] == m.row(rs@[3]@));
                        assert(m.row(flat@) == flattened(want, dim as nat));
                    }
                }
                flat
            };
            proof {
                if which == 0 || which == 1 {
                    assert forall|m: Model| #[trigger]
                        m.row(v@) == row_result(m, op, triangular::grid(m, rs@), n as nat) by {
                        assert(triangular::grid(m, l@) == square(m.row(rs@[1]@), dim as nat));
                        assert(m.row(z@) == whitened(
                            m.row(rs@[0]@),
                            triangular::grid(m, l@),
                            m.row(rs@[2]@),
                        ));
                        assert(m.row(rs@[3]@)[0] == m.of(*rs@[3]@[0]));
                        assert(m.row(v@) =~= row_result(
                            m,
                            op,
                            triangular::grid(m, rs@),
                            n as nat,
                        ));
                    }
                }
            }
            Some(v)
        },
        Fused::MvnKl => {
            assert(lens[0] == rs@[0]@.len() && lens[1] == rs@[1]@.len() && lens[2]
                == rs@[2]@.len() && lens[3] == rs@[3]@.len());
            let p = squared_up(&rs[1], rs[0].len());
            let q = squared_up(&rs[3], rs[0].len());
            let v = alone(triangular::normal_kl(&rs[0], &p, &rs[2], &q));
            proof {
                assert forall|m: Model| #[trigger]
                    m.row(v@) == row_result(m, op, triangular::grid(m, rs@), n as nat) by {
                    assert(triangular::grid(m, p@) == square(m.row(rs@[1]@), rs@[0]@.len()));
                    assert(triangular::grid(m, q@) == square(m.row(rs@[3]@), rs@[0]@.len()));
                }
            }
            Some(v)
        },
        _ => None,
    }
}

/// The row kernels of the distributions over a simplex.
fn simplex_row(op: Fused, rs: &Vec<Vec<Cell>>, n: usize) -> (r: Option<Vec<Cell>>)
    requires
        row_ready(op, lengths(rs@), n as nat),
    ensures
        r is Some == (op is DirichletLogProb || op is DirichletGrad || op is DirichletEntropy
            || op is DirichletEntropyGrad || op is DirichletMoment || op is MultinomialLogProb),
        r matches Some(v) ==> forall|m: Model| #[trigger]
            m.row(v@) == row_result(m, op, triangular::grid(m, rs@), n as nat),
{
    let ghost lens = lengths(rs@);
    match op {
        Fused::DirichletLogProb => {
            assert(lens[0] == rs@[0]@.len() && lens[1] == rs@[1]@.len());
            Some(alone(simplex_rows::dirichlet_log_prob(&rs[0], &rs[1])))
        },
        Fused::MultinomialLogProb(trials) => {
            assert(lens[0] == rs@[0]@.len() && lens[1] == rs@[1]@.len());
            Some(alone(simplex_rows::multinomial_log_prob(trials, &rs[0], &rs[1])))
        },
        Fused::DirichletGrad(which) => {
            assert(lens[0] == rs@[0]@.len() && lens[1] == rs@[1]@.len() && lens[2]
                == rs@[2]@.len());
            let v = if which == 0 {
                simplex_rows::dirichlet_grad_value(&rs[0], &rs[1], &rs[2][0])
            } else {
                simplex_rows::dirichlet_grad_conc(&rs[0], &rs[1], &rs[2][0])
            };
            proof {
                assert forall|m: Model| #[trigger]
                    m.row(v@) == row_result(m, op, triangular::grid(m, rs@), n as nat) by {
                    assert(m.row(rs@[2]@)[0] == m.of(*rs@[2]@[0]));
                    assert(m.row(v@) =~= row_result(m, op, triangular::grid(m, rs@), n as nat));
                }
            }
            Some(v)
        },
        Fused::DirichletEntropy => {
            assert(lens[0] == rs@[0]@.len());
            Some(alone(simplex_rows::dirichlet_entropy(&rs[0])))
        },
        Fused::DirichletEntropyGrad => {
            assert(lens[0] == rs@[0]@.len() && lens[1] == rs@[1]@.len());
            let v = simplex_rows::dirichlet_entropy_grad(&rs[0], &rs[1][0]);
            proof {
                assert forall|m: Model| #[trigger]
                    m.row(v@) == row_result(m, op, triangular::grid(m, rs@), n as nat) by {
                    assert(m.row(rs@[1]@)[0] == m.of(*rs@[1]@[0]));
                    assert(m.row(v@) =~= row_result(m, op, triangular::grid(m, rs@), n as nat));
                }
            }
            Some(v)
        },
        Fused::DirichletMoment(which) => {
            assert(lens[0] == rs@[0]@.len());
            let v = if which == univariate::MEAN {
                simplex_rows::dirichlet_mean(&rs[0])
            } else if which == univariate::VARIANCE {
                simplex_rows::dirichlet_variance(&rs[0])
            } else {
                simplex_rows::dirichlet_mode(&rs[0])
            };
            proof {
                assert forall|m: Model| #[trigger]
                    m.row(v@) == row_result(m, op, triangular::grid(m, rs@), n as nat) by {
                    assert(m.row(v@) =~= row_result(m, op, triangular::grid(m, rs@), n as nat));
                }
            }
            Some(v)
        },
        _ => None,
    }
}

fn ready(op: Fused, rs: &Vec<Vec<Cell>>, n: usize) -> (r: bool)
    ensures
        r == row_ready(op, lengths(rs@), n as nat),
{
    let ghost lens = lengths(rs@);
    let mut ls: Vec<usize> = Vec::new();
    let mut i: usize = 0;
    while i < rs.len()
        invariant
            i <= rs@.len(),
            ls@.len() == i,
            forall|k: int| 0 <= k < i ==> #[trigger] ls@[k] == rs@[k]@.len(),
        decreases rs@.len() - i,
    {
        ls.push(rs[i].len());
        i += 1;
    }
    proof {
        assert forall|k: int| 0 <= k < rs@.len() implies lens[k] == #[trigger] ls@[k] by {}
    }
    match op {
        Fused::RowProbs | Fused::RowEntropy => ls.len() == 1 && ls[0] > 0,
        Fused::RowLogProb | Fused::RowDrawScore(_, _, _, _) => ls.len() == 1 && n < ls[0],
        Fused::RowLogProbGrad => ls.len() == 2 && n < ls[0] && ls[1] == 1,
        Fused::RowEntropyGrad => ls.len() == 2 && ls[0] > 0 && ls[1] == 1,
        Fused::Cholesky => ls.len() == 1 && is_square_of(ls[0], n),
        Fused::MvnLogProb => ls.len() == 3 && ls[0] == ls[2] && is_square_of(ls[1], ls[2]),
        Fused::MvnGrad(_) => ls.len() == 4 && ls[0] == ls[2] && is_square_of(ls[1], ls[2])
            && ls[3] == 1,
        Fused::MvnKl => ls.len() == 4 && ls[2] == ls[0] && is_square_of(ls[1], ls[0])
            && is_square_of(ls[3], ls[0]),
        Fused::DirichletLogProb | Fused::MultinomialLogProb(_) => ls.len() == 2 && ls[0] == ls[1],
        Fused::DirichletGrad(_) => ls.len() == 3 && ls[0] == ls[1] && ls[2] == 1,
        Fused::DirichletEntropy | Fused::DirichletMoment(_) => ls.len() == 1,
        Fused::DirichletEntropyGrad => ls.len() == 2 && ls[1] == 1,
        _ => false,
    }
}

fn is_square_of(len: usize, side: usize) -> (r: bool)
    ensures
        r == (len == side * side),
{
    match side.checked_mul(side) {
        Some(n) => n == len,
        None => false,
    }
}

/// The terms a row kernel evaluates, from its opcode and the rows it reads; nothing where the
/// opcode names no row kernel or the rows do not fit it.
pub fn row_of(op: Fused, rs: &Vec<Vec<Cell>>, n: usize) -> (r: Option<Vec<Cell>>)
    ensures
        r is Some == row_ready(op, lengths(rs@), n as nat),
        r matches Some(v) ==> forall|m: Model| #[trigger]
            m.row(v@) == row_result(m, op, triangular::grid(m, rs@), n as nat),
{
    if !ready(op, rs, n) {
        return None;
    }
    if let Some(v) = class_row(op, rs, n) {
        return Some(v);
    }
    if let Some(v) = normal_row(op, rs, n) {
        return Some(v);
    }
    simplex_row(op, rs, n)
}

// -- classes -------------------------------------------------------------------------------

/// The first of the first `n` entries that no other exceeds.
pub open spec fn first_largest(s: Seq<real>, n: nat) -> nat
    decreases n,
{
    if n <= 1 {
        0
    } else {
        let before = first_largest(s, (n - 1) as nat);
        if s[n - 1] > s[before as int] {
            (n - 1) as nat
        } else {
            before
        }
    }
}

/// The class a row of sharpened logits draws: the first whose running weight passes the
/// uniform number's share of the total, or the most likely one.
pub open spec fn class_drawn(m: Model, greedy: bool, s: Seq<real>, u: real) -> nat {
    if greedy {
        first_largest(s, s.len())
    } else {
        let w = rows::weights(m, s);
        let held = Seq::new(
            s.len(),
            |i: int| rows::sum(w, (i + 1) as nat) <= u * rows::sum(w, s.len()),
        );
        let k = rows::past_last(held, s.len());
        if k < s.len() {
            k
        } else {
            (s.len() - 1) as nat
        }
    }
}

proof fn lemma_first_largest(s: Seq<real>, n: nat)
    requires
        0 < n <= s.len(),
    ensures
        first_largest(s, n) < n,
        forall|i: int| 0 <= i < n ==> #[trigger] s[i] <= s[first_largest(s, n) as int],
        forall|i: int| 0 <= i < first_largest(s, n) ==> #[trigger] s[i] < s[first_largest(s, n) as int],
    decreases n,
{
    if n > 1 {
        lemma_first_largest(s, (n - 1) as nat);
    }
}

/// A class that is drawn is one of the row. A greedy one is a most likely class, of several
/// the lowest, whatever the uniform number.
pub proof fn law_drawn_class_is_one_of_the_row(m: Model, greedy: bool, s: Seq<real>, u: real)
    requires
        s.len() > 0,
    ensures
        class_drawn(m, greedy, s, u) < s.len(),
        greedy ==> forall|i: int|
            0 <= i < s.len() ==> #[trigger] s[i] <= s[class_drawn(m, greedy, s, u) as int],
        greedy ==> forall|i: int|
            0 <= i < class_drawn(m, greedy, s, u) ==> #[trigger] s[i] < s[class_drawn(
                m,
                greedy,
                s,
                u,
            ) as int],
{
    if greedy {
        lemma_first_largest(s, s.len());
    }
}

} // verus!
