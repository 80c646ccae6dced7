//! The row kernels, as formulas.
//!
//! A row kernel owns one row of a tensor and walks it. Each function here takes the
//! entries of a row as terms and gives the terms of what the kernel writes, so that an
//! executor evaluates exactly these formulas; their contracts say what the formulas
//! are over the real numbers, under every interpretation of the entries.

use std::sync::Arc;

use vstd::prelude::*;

use crate::meaning;
use crate::meaning::Model;
use crate::term::{Binary, Dims, Scalar, Special, Term, Unary};

verus! {

/// One entry of a row.
pub type Cell = Arc<Term>;

pub(crate) fn un(op: Unary, a: &Cell) -> (r: Cell)
    ensures
        *r == crate::term::unary_term(op, **a),
        forall|m: Model| #[trigger] m.of(*r) == meaning::unary(m.f, op, m.of(**a)),
{
    Arc::new(Term::Unary(op, a.clone()))
}

pub(crate) fn bin(op: Binary, a: &Cell, b: &Cell) -> (r: Cell)
    ensures
        *r == crate::term::binary_term(op, **a, **b),
        forall|m: Model|
            #[trigger] m.of(*r) == meaning::binary(m.f, op, m.of(**a), m.of(**b)),
{
    Arc::new(Term::Binary(op, a.clone(), b.clone()))
}

/// A number as an entry.
pub fn number(s: Scalar) -> (r: Cell)
    ensures
        forall|m: Model| #[trigger] m.of(*r) == meaning::scalar(m.f, s),
{
    Arc::new(Term::Fill(s, Dims::Nil))
}

// -- over the reals ------------------------------------------------------------------------

/// The sum of the first `n` entries.
pub open spec fn sum(s: Seq<real>, n: nat) -> real
    decreases n,
{
    if n == 0 {
        0real
    } else {
        sum(s, (n - 1) as nat) + s[n - 1]
    }
}

/// The largest of the first `n` entries; the first of several that are equal.
pub open spec fn largest(s: Seq<real>, n: nat) -> real
    decreases n,
{
    if n <= 1 {
        s[0]
    } else if s[n - 1] > largest(s, (n - 1) as nat) {
        s[n - 1]
    } else {
        largest(s, (n - 1) as nat)
    }
}

/// The weights of a row: exponentials of the entries less the largest.
pub open spec fn weights(m: Model, s: Seq<real>) -> Seq<real> {
    Seq::new(s.len(), |i: int| (m.f.exp)(s[i] - largest(s, s.len())))
}

/// The logarithm of the sum of the exponentials of a row, computed so that no
/// exponential overflows.
pub open spec fn log_total(m: Model, s: Seq<real>) -> real {
    largest(s, s.len()) + (m.f.log)(sum(weights(m, s), s.len()))
}

/// The normalised probabilities of a row of logits.
pub open spec fn probabilities(m: Model, s: Seq<real>) -> Seq<real> {
    Seq::new(s.len(), |i: int| (m.f.exp)(s[i] - log_total(m, s)))
}

/// `p ln p` for every class, which is zero where the probability is.
pub open spec fn information(m: Model, s: Seq<real>) -> Seq<real> {
    Seq::new(
        s.len(),
        |i: int|
            if probabilities(m, s)[i] == 0real {
                0real
            } else {
                probabilities(m, s)[i] * (s[i] - log_total(m, s))
            },
    )
}

/// The entropy of a row of logits.
pub open spec fn entropy(m: Model, s: Seq<real>) -> real {
    -sum(information(m, s), s.len())
}

// -- categorical rows ------------------------------------------------------------------------

/// The largest entry of a row.
pub fn row_max(row: &Vec<Cell>) -> (r: Cell)
    requires
        row@.len() > 0,
    ensures
        forall|m: Model| #[trigger] m.of(*r) == largest(m.row(row@), row@.len()),
{
    let mut top = row[0].clone();
    let mut i: usize = 1;
    proof {
        assert forall|m: Model| #[trigger] m.of(*top) == largest(m.row(row@), 1) by {
            assert(m.row(row@)[0] == m.of(*row@[0]));
        }
    }
    while i < row.len()
        invariant
            1 <= i <= row@.len(),
            forall|m: Model| #[trigger] m.of(*top) == largest(m.row(row@), i as nat),
        decreases row@.len() - i,
    {
        let next = bin(Binary::Maximum, &row[i], &top);
        proof {
            assert forall|m: Model| #[trigger] m.of(*next) == largest(m.row(row@), i as nat + 1) by {
                assert(m.row(row@)[i as int] == m.of(*row@[i as int]));
                assert(m.of(*top) == largest(m.row(row@), i as nat));
            }
        }
        top = next;
        i += 1;
    }
    top
}

/// The sum of a row, from the left.
pub fn row_sum(row: &Vec<Cell>) -> (r: Cell)
    ensures
        forall|m: Model| #[trigger] m.of(*r) == sum(m.row(row@), row@.len()),
{
    let mut total = number(Scalar::Int(0));
    let mut i: usize = 0;
    while i < row.len()
        invariant
            i <= row@.len(),
            forall|m: Model| #[trigger] m.of(*total) == sum(m.row(row@), i as nat),
        decreases row@.len() - i,
    {
        let next = bin(Binary::Add, &total, &row[i]);
        proof {
            assert forall|m: Model| #[trigger] m.of(*next) == sum(m.row(row@), i as nat + 1) by {
                assert(m.row(row@)[i as int] == m.of(*row@[i as int]));
                assert(m.of(*total) == sum(m.row(row@), i as nat));
            }
        }
        total = next;
        i += 1;
    }
    total
}

/// The exponentials of a row less its largest entry.
fn row_weights(row: &Vec<Cell>, top: &Cell) -> (r: Vec<Cell>)
    requires
        row@.len() > 0,
        forall|m: Model| #[trigger] m.of(**top) == largest(m.row(row@), row@.len()),
    ensures
        r@.len() == row@.len(),
        forall|m: Model| #[trigger] m.row(r@) == weights(m, m.row(row@)),
{
    let mut out: Vec<Cell> = Vec::new();
    let mut i: usize = 0;
    while i < row.len()
        invariant
            i <= row@.len(),
            out@.len() == i,
            forall|m: Model| #[trigger] m.of(**top) == largest(m.row(row@), row@.len()),
            forall|m: Model, k: int|
                0 <= k < i ==> m.of(*#[trigger] out@[k]) == #[trigger] weights(m, m.row(row@))[k],
        decreases row@.len() - i,
    {
        let shifted = bin(Binary::Sub, &row[i], top);
        let w = un(Unary::Exp, &shifted);
        proof {
            assert forall|m: Model| m.of(*w) == #[trigger] weights(m, m.row(row@))[i as int] by {
                assert(m.row(row@)[i as int] == m.of(*row@[i as int]));
                assert(m.of(*shifted) == m.of(*row@[i as int]) - m.of(**top));
            }
        }
        out.push(w);
        i += 1;
    }
    proof {
        assert forall|m: Model| #[trigger] m.row(out@) == weights(m, m.row(row@)) by {
            assert(m.row(out@) =~= weights(m, m.row(row@)));
        }
    }
    out
}

/// The logarithm of the sum of the exponentials of a row.
pub fn row_log_total(row: &Vec<Cell>) -> (r: Cell)
    requires
        row@.len() > 0,
    ensures
        forall|m: Model| #[trigger] m.of(*r) == log_total(m, m.row(row@)),
{
    let top = row_max(row);
    let w = row_weights(row, &top);
    let total = row_sum(&w);
    let l = un(Unary::Log, &total);
    let r = bin(Binary::Add, &top, &l);
    proof {
        assert forall|m: Model| #[trigger] m.of(*r) == log_total(m, m.row(row@)) by {
            assert(m.row(w@) == weights(m, m.row(row@)));
            assert(m.of(*total) == sum(m.row(w@), w@.len()));
            assert(m.of(*l) == (m.f.log)(m.of(*total)));
            assert(m.of(*top) == largest(m.row(row@), row@.len()));
        }
    }
    r
}

/// A row of logits with every entry multiplied by a number.
pub fn tempered(row: &Vec<Cell>, by: Scalar) -> (r: Vec<Cell>)
    ensures
        r@.len() == row@.len(),
        forall|m: Model, i: int|
            0 <= i < row@.len() ==> #[trigger] m.row(r@)[i] == m.row(row@)[i] * meaning::scalar(
                m.f,
                by,
            ),
{
    let mut out: Vec<Cell> = Vec::new();
    let mut i: usize = 0;
    while i < row.len()
        invariant
            i <= row@.len(),
            out@.len() == i,
            forall|m: Model, k: int|
                0 <= k < i ==> #[trigger] m.of(*out@[k]) == m.of(*row@[k]) * meaning::scalar(m.f, by),
        decreases row@.len() - i,
    {
        out.push(un(Unary::MulScalar(by), &row[i]));
        i += 1;
    }
    out
}

/// The normalised probabilities of a row.
pub fn row_probs(row: &Vec<Cell>) -> (r: Vec<Cell>)
    requires
        row@.len() > 0,
    ensures
        r@.len() == row@.len(),
        forall|m: Model| #[trigger] m.row(r@) == probabilities(m, m.row(row@)),
{
    let lse = row_log_total(row);
    let mut out: Vec<Cell> = Vec::new();
    let mut i: usize = 0;
    while i < row.len()
        invariant
            i <= row@.len(),
            out@.len() == i,
            forall|m: Model| #[trigger] m.of(*lse) == log_total(m, m.row(row@)),
            forall|m: Model, k: int|
                0 <= k < i ==> m.of(*#[trigger] out@[k]) == #[trigger] probabilities(m, m.row(row@))[k],
        decreases row@.len() - i,
    {
        let shifted = bin(Binary::Sub, &row[i], &lse);
        let p = un(Unary::Exp, &shifted);
        proof {
            assert forall|m: Model| m.of(*p) == #[trigger] probabilities(m, m.row(row@))[i as int] by {
                assert(m.row(row@)[i as int] == m.of(*row@[i as int]));
                assert(m.of(*shifted) == m.of(*row@[i as int]) - m.of(*lse));
            }
        }
        out.push(p);
        i += 1;
    }
    proof {
        assert forall|m: Model| #[trigger] m.row(out@) == probabilities(m, m.row(row@)) by {
            assert(m.row(out@) =~= probabilities(m, m.row(row@)));
        }
    }
    out
}

/// The log-probability of one class, computed without ever forming a probability that
/// could round to zero.
pub fn row_log_prob(row: &Vec<Cell>, class: usize) -> (r: Cell)
    requires
        class < row@.len(),
    ensures
        forall|m: Model|
            #[trigger] m.of(*r) == m.row(row@)[class as int] - log_total(m, m.row(row@)),
{
    let top = row_max(row);
    let w = row_weights(row, &top);
    let total = row_sum(&w);
    let shifted = bin(Binary::Sub, &row[class], &top);
    let l = un(Unary::Log, &total);
    let r = bin(Binary::Sub, &shifted, &l);
    proof {
        assert forall|m: Model|
            #[trigger] m.of(*r) == m.row(row@)[class as int] - log_total(m, m.row(row@)) by {
            assert(m.row(row@)[class as int] == m.of(*row@[class as int]));
            assert(m.row(w@) == weights(m, m.row(row@)));
            assert(m.of(*total) == sum(m.row(w@), w@.len()));
            assert(m.of(*l) == (m.f.log)(m.of(*total)));
            assert(m.of(*shifted) == m.of(*row@[class as int]) - m.of(*top));
            assert(m.of(*top) == largest(m.row(row@), row@.len()));
        }
    }
    r
}

/// The adjoint of a log-probability: the gradient times the one-hot class less the
/// probabilities.
pub fn row_log_prob_grad(row: &Vec<Cell>, class: usize, g: &Cell) -> (r: Vec<Cell>)
    requires
        class < row@.len(),
    ensures
        r@.len() == row@.len(),
        forall|m: Model, i: int|
            0 <= i < row@.len() ==> #[trigger] m.row(r@)[i] == m.of(**g) * (meaning::indicator(
                i == class,
            ) - probabilities(m, m.row(row@))[i]),
{
    let probs = row_probs(row);
    let mut out: Vec<Cell> = Vec::new();
    let mut i: usize = 0;
    while i < row.len()
        invariant
            i <= row@.len(),
            class < row@.len(),
            out@.len() == i,
            probs@.len() == row@.len(),
            forall|m: Model, k: int|
                0 <= k < i ==> #[trigger] m.of(*out@[k]) == m.of(**g) * (meaning::indicator(
                    k == class,
                ) - m.of(*probs@[k])),
        decreases row@.len() - i,
    {
        let hit = number(
            Scalar::Int(
                if i == class {
                    1
                } else {
                    0
                },
            ),
        );
        let gap = bin(Binary::Sub, &hit, &probs[i]);
        let v = bin(Binary::Mul, g, &gap);
        proof {
            assert forall|m: Model|
                #[trigger] m.of(*v) == m.of(**g) * (meaning::indicator(i == class) - m.of(
                    *probs@[i as int],
                )) by {
                assert(m.of(*gap) == m.of(*hit) - m.of(*probs@[i as int]));
                assert(m.of(*hit) == meaning::indicator(i == class));
            }
        }
        out.push(v);
        i += 1;
    }
    proof {
        assert forall|m: Model, i: int| 0 <= i < row@.len() implies #[trigger] m.row(out@)[i]
            == m.of(**g) * (meaning::indicator(i == class) - probabilities(m, m.row(row@))[i]) by {
            assert(m.row(probs@)[i] == m.of(*probs@[i]));
            assert(m.row(probs@) == probabilities(m, m.row(row@)));
            assert(m.of(*out@[i]) == m.of(**g) * (meaning::indicator(i == class) - m.of(
                *probs@[i],
            )));
        }
    }
    out
}

/// The entries of a row less the logarithm of its total.
fn row_shifted(row: &Vec<Cell>) -> (r: Vec<Cell>)
    requires
        row@.len() > 0,
    ensures
        r@.len() == row@.len(),
        forall|m: Model, i: int|
            0 <= i < row@.len() ==> m.of(*#[trigger] r@[i]) == #[trigger] m.row(row@)[i] - log_total(
                m,
                m.row(row@),
            ),
{
    let lse = row_log_total(row);
    let mut out: Vec<Cell> = Vec::new();
    let mut i: usize = 0;
    while i < row.len()
        invariant
            i <= row@.len(),
            out@.len() == i,
            forall|m: Model| #[trigger] m.of(*lse) == log_total(m, m.row(row@)),
            forall|m: Model, k: int|
                0 <= k < i ==> m.of(*#[trigger] out@[k]) == #[trigger] m.row(row@)[k] - log_total(
                    m,
                    m.row(row@),
                ),
        decreases row@.len() - i,
    {
        let v = bin(Binary::Sub, &row[i], &lse);
        proof {
            assert forall|m: Model|
                m.of(*v) == #[trigger] m.row(row@)[i as int] - log_total(m, m.row(row@)) by {
                assert(m.of(*v) == m.of(*row@[i as int]) - m.of(*lse));
            }
        }
        out.push(v);
        i += 1;
    }
    out
}

/// The entropy of a row. A class whose probability is exactly zero contributes exactly
/// zero, the limit of `p ln p`.
pub fn row_entropy(row: &Vec<Cell>) -> (r: Cell)
    requires
        row@.len() > 0,
    ensures
        forall|m: Model| #[trigger] m.of(*r) == entropy(m, m.row(row@)),
{
    let probs = row_probs(row);
    let shifted = row_shifted(row);
    let mut terms: Vec<Cell> = Vec::new();
    let mut i: usize = 0;
    while i < row.len()
        invariant
            i <= row@.len(),
            terms@.len() == i,
            probs@.len() == row@.len(),
            shifted@.len() == row@.len(),
            forall|m: Model| #[trigger] m.row(probs@) == probabilities(m, m.row(row@)),
            forall|m: Model, k: int|
                0 <= k < row@.len() ==> m.of(*#[trigger] shifted@[k]) == #[trigger] m.row(row@)[k]
                    - log_total(m, m.row(row@)),
            forall|m: Model, k: int|
                0 <= k < i ==> m.of(*#[trigger] terms@[k]) == #[trigger] information(
                    m,
                    m.row(row@),
                )[k],
        decreases row@.len() - i,
    {
        let product = bin(Binary::Mul, &probs[i], &shifted[i]);
        let term = bin(Binary::Gated, &probs[i], &product);
        proof {
            assert forall|m: Model| m.of(*term) == #[trigger] information(m, m.row(row@))[i as int] by {
                assert(m.row(probs@)[i as int] == m.of(*probs@[i as int]));
                assert(m.row(probs@) == probabilities(m, m.row(row@)));
                assert(m.of(*product) == m.of(*probs@[i as int]) * m.of(*shifted@[i as int]));
                assert(m.of(*shifted@[i as int]) == m.row(row@)[i as int] - log_total(
                    m,
                    m.row(row@),
                ));
            }
        }
        terms.push(term);
        i += 1;
    }
    let total = row_sum(&terms);
    let r = un(Unary::Neg, &total);
    proof {
        assert forall|m: Model| #[trigger] m.of(*r) == entropy(m, m.row(row@)) by {
            assert(m.row(terms@) =~= information(m, m.row(row@)));
            assert(m.of(*total) == sum(m.row(terms@), terms@.len()));
        }
    }
    r
}

/// The adjoint of the entropy of a row: `-g p (ln p + H)`, and zero where the
/// probability is.
pub open spec fn entropy_slope(m: Model, s: Seq<real>, g: real, i: int) -> real {
    let p = probabilities(m, s)[i];
    if p == 0real {
        0real
    } else {
        (-g) * p * ((s[i] - log_total(m, s)) + entropy(m, s))
    }
}

pub fn row_entropy_grad(row: &Vec<Cell>, g: &Cell) -> (r: Vec<Cell>)
    requires
        row@.len() > 0,
    ensures
        r@.len() == row@.len(),
        forall|m: Model, i: int|
            0 <= i < row@.len() ==> #[trigger] m.row(r@)[i] == entropy_slope(
                m,
                m.row(row@),
                m.of(**g),
                i,
            ),
{
    let probs = row_probs(row);
    let shifted = row_shifted(row);
    let h = row_entropy(row);
    let down = un(Unary::Neg, g);
    let mut out: Vec<Cell> = Vec::new();
    let mut i: usize = 0;
    while i < row.len()
        invariant
            i <= row@.len(),
            out@.len() == i,
            probs@.len() == row@.len(),
            shifted@.len() == row@.len(),
            forall|m: Model| #[trigger] m.row(probs@) == probabilities(m, m.row(row@)),
            forall|m: Model| #[trigger] m.of(*h) == entropy(m, m.row(row@)),
            forall|m: Model| #[trigger] m.of(*down) == -m.of(**g),
            forall|m: Model, k: int|
                0 <= k < row@.len() ==> m.of(*#[trigger] shifted@[k]) == #[trigger] m.row(row@)[k]
                    - log_total(m, m.row(row@)),
            forall|m: Model, k: int|
                0 <= k < i ==> m.of(*#[trigger] out@[k]) == #[trigger] entropy_slope(
                    m,
                    m.row(row@),
                    m.of(**g),
                    k,
                ),
        decreases row@.len() - i,
    {
        let a = bin(Binary::Mul, &down, &probs[i]);
        let b = bin(Binary::Add, &shifted[i], &h);
        let product = bin(Binary::Mul, &a, &b);
        let v = bin(Binary::Gated, &probs[i], &product);
        proof {
            assert forall|m: Model|
                m.of(*v) == #[trigger] entropy_slope(m, m.row(row@), m.of(**g), i as int) by {
                assert(m.row(probs@)[i as int] == m.of(*probs@[i as int]));
                assert(m.row(probs@) == probabilities(m, m.row(row@)));
                assert(m.of(*shifted@[i as int]) == m.row(row@)[i as int] - log_total(
                    m,
                    m.row(row@),
                ));
                assert(m.of(*a) == m.of(*down) * m.of(*probs@[i as int]));
                assert(m.of(*b) == m.of(*shifted@[i as int]) + m.of(*h));
                assert(m.of(*product) == m.of(*a) * m.of(*b));
            }
        }
        out.push(v);
        i += 1;
    }
    proof {
        assert forall|m: Model, i: int| 0 <= i < row@.len() implies #[trigger] m.row(out@)[i]
            == entropy_slope(m, m.row(row@), m.of(**g), i) by {
            assert(m.of(*out@[i]) == entropy_slope(m, m.row(row@), m.of(**g), i));
        }
    }
    out
}

// -- choosing a class --------------------------------------------------------------------------

/// What an inverse distribution function compares: the running sums of a row's weights,
/// and a uniform number scaled by their total. Scaling the target costs one product
/// where normalising the weights would cost one quotient per class.
pub fn row_target(row: &Vec<Cell>, uniform: Scalar) -> (r: (Vec<Cell>, Cell))
    requires
        row@.len() > 0,
    ensures
        r.0@.len() == row@.len(),
        forall|m: Model, i: int|
            0 <= i < row@.len() ==> m.of(*#[trigger] r.0@[i]) == sum(
                #[trigger] weights(m, m.row(row@)),
                i as nat + 1,
            ),
        forall|m: Model|
            #[trigger] m.of(*r.1) == meaning::scalar(m.f, uniform) * sum(
                weights(m, m.row(row@)),
                row@.len(),
            ),
{
    let top = row_max(row);
    let w = row_weights(row, &top);
    let mut running: Vec<Cell> = Vec::new();
    let mut acc = number(Scalar::Int(0));
    let mut i: usize = 0;
    while i < w.len()
        invariant
            i <= w@.len(),
            w@.len() == row@.len(),
            running@.len() == i,
            forall|m: Model| #[trigger] m.row(w@) == weights(m, m.row(row@)),
            forall|m: Model| #[trigger] m.of(*acc) == sum(weights(m, m.row(row@)), i as nat),
            forall|m: Model, k: int|
                0 <= k < i ==> m.of(*#[trigger] running@[k]) == sum(
                    #[trigger] weights(m, m.row(row@)),
                    k as nat + 1,
                ),
        decreases w@.len() - i,
    {
        let next = bin(Binary::Add, &acc, &w[i]);
        proof {
            assert forall|m: Model|
                #[trigger] m.of(*next) == sum(weights(m, m.row(row@)), i as nat + 1) by {
                assert(m.row(w@)[i as int] == m.of(*w@[i as int]));
                assert(m.row(w@) == weights(m, m.row(row@)));
                assert(m.of(*acc) == sum(weights(m, m.row(row@)), i as nat));
            }
        }
        acc = next;
        running.push(acc.clone());
        i += 1;
    }
    let u = number(uniform);
    let target = bin(Binary::Mul, &u, &acc);
    (running, target)
}

/// The class an inverse distribution function chooses, from which running sums have
/// not passed the target: one past the last such, and the last class if there is none
/// beyond it. Every entry is looked at, so the walk does not depend on the answer.
pub open spec fn past_last(held: Seq<bool>, n: nat) -> nat
    decreases n,
{
    if n == 0 {
        0
    } else if held[n - 1] {
        n
    } else {
        past_last(held, (n - 1) as nat)
    }
}

pub fn chosen_class(held: &Vec<bool>) -> (r: usize)
    requires
        held@.len() > 0,
    ensures
        r == if past_last(held@, held@.len()) < held@.len() {
            past_last(held@, held@.len())
        } else {
            (held@.len() - 1) as nat
        },
{
    let n: usize = held.len();
    let mut chosen: usize = 0;
    let mut i: usize = 0;
    while i < n
        invariant
            i <= n,
            n == held@.len(),
            chosen == past_last(held@, i as nat),
            chosen <= i,
        decreases n - i,
    {
        if held[i] {
            chosen = i + 1;
        }
        i += 1;
    }
    // The running sums add in a different order from the total, and can fall a
    // rounding short of a target drawn just below one.
    if chosen >= n {
        n - 1
    } else {
        chosen
    }
}

/// When the running sums increase, so that the ones that have not passed the target
/// come first, the chosen class is the first that passes it.
pub proof fn law_chosen_class_is_the_first_to_pass(held: Seq<bool>, k: nat)
    requires
        k < held.len(),
        forall|i: int| 0 <= i < k ==> #[trigger] held[i],
        forall|i: int| k <= i < held.len() ==> !#[trigger] held[i],
    ensures
        past_last(held, held.len()) == k,
{
    lemma_past_last(held, k, held.len());
}

proof fn lemma_past_last(held: Seq<bool>, k: nat, n: nat)
    requires
        k <= n <= held.len(),
        forall|i: int| 0 <= i < k ==> #[trigger] held[i],
        forall|i: int| k <= i < held.len() ==> !#[trigger] held[i],
    ensures
        past_last(held, n) == k,
    decreases n,
{
    if n > k {
        lemma_past_last(held, k, (n - 1) as nat);
    }
}

/// The first of the first `n` single-precision numbers that no earlier one matches.
pub open spec fn leader(bits: Seq<u32>, n: nat) -> int
    decreases n,
{
    if n <= 1 {
        0
    } else {
        let before = leader(bits, (n - 1) as nat);
        if crate::single::below(bits[before], bits[n - 1]) {
            n - 1
        } else {
            before
        }
    }
}

/// The most likely class of a row of logits: the first of the largest.
pub fn greedy_class(bits: &Vec<u32>) -> (r: usize)
    requires
        bits@.len() > 0,
    ensures
        r < bits@.len(),
        r == leader(bits@, bits@.len()),
{
    let mut best: usize = 0;
    let mut i: usize = 1;
    while i < bits.len()
        invariant
            1 <= i <= bits@.len(),
            best < i,
            best == leader(bits@, i as nat),
        decreases bits@.len() - i,
    {
        if crate::single::lt(bits[best], bits[i]) {
            best = i;
        }
        i += 1;
    }
    best
}

/// Where every logit is a number, the greedy class is the first one that none exceeds.
pub proof fn law_greedy_class_is_the_first_maximum(bits: Seq<u32>)
    requires
        bits.len() > 0,
        forall|i: int| 0 <= i < bits.len() ==> !crate::single::is_nan(#[trigger] bits[i]),
    ensures
        ({
            let k = leader(bits, bits.len());
            &&& 0 <= k < bits.len()
            &&& forall|i: int|
                0 <= i < bits.len() ==> crate::single::at_most(#[trigger] bits[i], bits[k])
            &&& forall|i: int| 0 <= i < k ==> crate::single::below(#[trigger] bits[i], bits[k])
        }),
{
    lemma_leader(bits, bits.len());
}

proof fn lemma_leader(bits: Seq<u32>, n: nat)
    requires
        0 < n <= bits.len(),
        forall|i: int| 0 <= i < bits.len() ==> !crate::single::is_nan(#[trigger] bits[i]),
    ensures
        0 <= leader(bits, n) < n,
        forall|i: int| 0 <= i < n ==> crate::single::at_most(#[trigger] bits[i], bits[leader(bits, n)]),
        forall|i: int|
            0 <= i < leader(bits, n) ==> crate::single::below(#[trigger] bits[i], bits[leader(bits, n)]),
    decreases n,
{
    if n > 1 {
        lemma_leader(bits, (n - 1) as nat);
    }
}

pub(crate) proof fn lemma_sum_quotient(s: Seq<real>, t: Seq<real>, d: real, n: nat)
    requires
        n <= s.len(),
        n <= t.len(),
        d != 0real,
        forall|i: int| 0 <= i < n ==> #[trigger] t[i] == s[i] / d,
    ensures
        sum(t, n) == sum(s, n) / d,
    decreases n,
{
    if n > 0 {
        lemma_sum_quotient(s, t, d, (n - 1) as nat);
        let (a, b) = (sum(s, (n - 1) as nat), s[n - 1]);
        assert(t[n - 1] == s[n - 1] / d);
        assert(a / d + b / d == (a + b) / d) by (nonlinear_arith)
            requires
                d != 0real,
        ;
    } else {
        assert(0real / d == 0real) by (nonlinear_arith)
            requires
                d != 0real,
        ;
    }
}

/// The probabilities of a row sum to one, wherever dividing by the total is what
/// subtracting its logarithm does.
pub proof fn law_probabilities_sum_to_one(m: Model, s: Seq<real>)
    requires
        s.len() > 0,
        sum(weights(m, s), s.len()) != 0real,
        forall|i: int|
            0 <= i < s.len() ==> (m.f.exp)(#[trigger] s[i] - log_total(m, s)) == (m.f.exp)(
                s[i] - largest(s, s.len()),
            ) / sum(weights(m, s), s.len()),
    ensures
        sum(probabilities(m, s), s.len()) == 1real,
{
    let d = sum(weights(m, s), s.len());
    assert forall|i: int| 0 <= i < s.len() implies #[trigger] probabilities(m, s)[i] == weights(
        m,
        s,
    )[i] / d by {
        assert(s[i] == s[i]);
    }
    lemma_sum_quotient(weights(m, s), probabilities(m, s), d, s.len());
    assert(d / d == 1real) by (nonlinear_arith)
        requires
            d != 0real,
    ;
}

/// The number of classes among the first `n` whose probability is not zero.
pub open spec fn possible(m: Model, s: Seq<real>, n: nat) -> nat
    decreases n,
{
    if n == 0 {
        0
    } else {
        possible(m, s, (n - 1) as nat) + if probabilities(m, s)[n - 1] == 0real {
            0nat
        } else {
            1nat
        }
    }
}

/// An impossible class adds nothing to an entropy.
pub proof fn law_impossible_classes_add_nothing(m: Model, s: Seq<real>, i: int)
    requires
        0 <= i < s.len(),
        probabilities(m, s)[i] == 0real,
    ensures
        information(m, s)[i] == 0real,
        sum(information(m, s), (i + 1) as nat) == sum(information(m, s), i as nat),
{
}

/// What an exponential above its tangent says of every possible class, for a bound `top` on the
/// entropy whose exponential is the number of possible classes.
pub open spec fn spread_evenly(m: Model, s: Seq<real>, top: real) -> bool {
    &&& (m.f.exp)(-top) * (possible(m, s, s.len()) as int as real) == 1real
    &&& forall|t: real| #[trigger] (m.f.exp)(t) >= 1real + t
    &&& forall|i: int|
        0 <= i < s.len() && #[trigger] probabilities(m, s)[i] != 0real ==> {
            let l = s[i] - log_total(m, s);
            &&& probabilities(m, s)[i] > 0real
            &&& probabilities(m, s)[i] * (m.f.exp)(-l - top) == (m.f.exp)(-top)
        }
}

proof fn lemma_spread(m: Model, s: Seq<real>, top: real, n: nat)
    requires
        spread_evenly(m, s, top),
        n <= s.len(),
    ensures
        (m.f.exp)(-top) * (possible(m, s, n) as int as real) >= sum(probabilities(m, s), n) - sum(
            information(m, s),
            n,
        ) - top * sum(probabilities(m, s), n),
    decreases n,
{
    let e = (m.f.exp)(-top);
    if n == 0 {
        assert(e * 0real == 0real && top * 0real == 0real) by (nonlinear_arith);
    } else {
        let k = (n - 1) as nat;
        lemma_spread(m, s, top, k);
        let p = probabilities(m, s)[n - 1];
        let l = s[n - 1] - log_total(m, s);
        let (c, q) = (possible(m, s, k) as int as real, sum(probabilities(m, s), k));
        if p == 0real {
            assert(possible(m, s, n) == possible(m, s, k));
        } else {
            let t = -l - top;
            let x = (m.f.exp)(t);
            assert(x >= 1real + t);
            assert(p * x >= p + p * (-l) - p * top) by (nonlinear_arith)
                requires
                    p > 0real,
                    x >= 1real + t,
                    t == -l - top,
            ;
            assert(p * (-l) == -(p * l)) by (nonlinear_arith);
            assert(possible(m, s, n) as int as real == c + 1real);
            assert(e * (c + 1real) == e * c + e) by (nonlinear_arith);
            assert(top * (q + p) == top * q + p * top) by (nonlinear_arith);
        }
    }
}

/// An entropy is at most the logarithm of the number of possible classes.
pub proof fn law_entropy_is_at_most_the_log_of_the_possible(m: Model, s: Seq<real>, top: real)
    requires
        spread_evenly(m, s, top),
        sum(probabilities(m, s), s.len()) == 1real,
    ensures
        entropy(m, s) <= top,
{
    lemma_spread(m, s, top, s.len());
}

proof fn lemma_part_of_sum(s: Seq<real>, i: int, n: nat)
    requires
        0 <= i < n <= s.len(),
        forall|j: int| 0 <= j < s.len() ==> #[trigger] s[j] >= 0real,
    ensures
        s[i] <= sum(s, n),
        sum(s, n) >= 0real,
    decreases n,
{
    if i < n - 1 {
        lemma_part_of_sum(s, i, (n - 1) as nat);
    } else if n > 1 {
        lemma_part_of_sum(s, 0, (n - 1) as nat);
    } else {
        assert(sum(s, 0) == 0real);
    }
    assert(s[n - 1] >= 0real);
}

proof fn lemma_information_sign(m: Model, s: Seq<real>, n: nat)
    requires
        n <= s.len(),
        forall|i: int| 0 <= i < s.len() ==> #[trigger] information(m, s)[i] <= 0real,
    ensures
        sum(information(m, s), n) <= 0real,
    decreases n,
{
    if n > 0 {
        lemma_information_sign(m, s, (n - 1) as nat);
        assert(information(m, s)[n - 1] <= 0real);
    }
}

/// An entropy is never negative: an exponential is not negative, and passes one only above
/// zero.
pub proof fn law_entropy_is_not_negative(m: Model, s: Seq<real>)
    requires
        forall|t: real| #[trigger] (m.f.exp)(t) >= 0real,
        forall|t: real| t > 0real ==> #[trigger] (m.f.exp)(t) > 1real,
        sum(probabilities(m, s), s.len()) == 1real,
    ensures
        entropy(m, s) >= 0real,
{
    let p = probabilities(m, s);
    assert forall|j: int| 0 <= j < s.len() implies #[trigger] p[j] >= 0real by {}
    assert forall|i: int| 0 <= i < s.len() implies #[trigger] information(m, s)[i] <= 0real by {
        lemma_part_of_sum(p, i, s.len());
        let (q, l) = (p[i], s[i] - log_total(m, s));
        assert(l <= 0real);
        assert(q * l <= 0real) by (nonlinear_arith)
            requires
                q >= 0real,
                l <= 0real,
        ;
    }
    lemma_information_sign(m, s, s.len());
}

/// Where the parameters of a row begin: rows read the parameters cyclically.
pub fn row_base(row: usize, param_rows: usize, classes: usize) -> (r: usize)
    requires
        param_rows > 0,
        param_rows * classes <= usize::MAX,
    ensures
        r == (row as int % param_rows as int) * classes,
        classes > 0 ==> r + classes <= param_rows * classes,
{
    proof {
        let (q, p, c) = (row as int % param_rows as int, param_rows as int, classes as int);
        assert(0 <= q * c && q * c + c <= p * c) by (nonlinear_arith)
            requires
                0 <= q < p,
                c >= 0,
        ;
    }
    (row % param_rows) * classes
}

} // verus!
