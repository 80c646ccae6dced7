//! The kernels on triangular matrices, as formulas.
//!
//! One unit owns one matrix and walks its triangle. As for the row kernels, each
//! function takes entries as terms and gives the terms of what the kernel writes.

use std::sync::Arc;

use vstd::prelude::*;

use super::rows;
use super::rows::{Cell, bin, number, row_sum, un};
use crate::meaning;
use crate::meaning::Model;
use crate::term::{Binary, Scalar, Term, Unary};

verus! {

/// A matrix, row by row.
pub type Matrix = Vec<Vec<Cell>>;

/// What a matrix is.
pub open spec fn grid(m: Model, a: Seq<Vec<Cell>>) -> Seq<Seq<real>> {
    a.map_values(|v: Vec<Cell>| m.row(v@))
}

pub open spec fn is_square(a: Seq<Vec<Cell>>, dim: nat) -> bool {
    a.len() == dim && forall|i: int| 0 <= i < dim ==> (#[trigger] a[i])@.len() == dim
}

/// The sum of the products of the first `n` entries of two rows.
pub open spec fn dot(a: Seq<real>, b: Seq<real>, n: nat) -> real
    decreases n,
{
    if n == 0 {
        0real
    } else {
        dot(a, b, (n - 1) as nat) + a[n - 1] * b[n - 1]
    }
}

/// The first `n` entries of the solution of `L z = d` by forward substitution.
pub open spec fn forward(l: Seq<Seq<real>>, d: Seq<real>, n: nat) -> Seq<real>
    decreases n,
{
    if n == 0 {
        Seq::empty()
    } else {
        let z = forward(l, d, (n - 1) as nat);
        z.push((d[n - 1] - dot(l[n - 1], z, (n - 1) as nat)) / l[n - 1][n - 1])
    }
}

/// The sum over the entries of a suffix `w`, which starts at row `from`, of the
/// products with column `c`.
pub open spec fn below_dot(l: Seq<Seq<real>>, w: Seq<real>, c: int, from: int, n: nat) -> real
    decreases n,
{
    if n == 0 {
        0real
    } else {
        below_dot(l, w, c, from, (n - 1) as nat) + l[from + n - 1][c] * w[n - 1]
    }
}

/// The last `k` entries of the solution of the transposed system by back substitution.
pub open spec fn backward(l: Seq<Seq<real>>, z: Seq<real>, k: nat) -> Seq<real>
    decreases k,
{
    if k == 0 {
        Seq::empty()
    } else {
        let w = backward(l, z, (k - 1) as nat);
        let i = l.len() - k;
        seq![(z[i] - below_dot(l, w, i, i + 1, (k - 1) as nat)) / l[i][i]] + w
    }
}

proof fn lemma_forward_len(l: Seq<Seq<real>>, d: Seq<real>, n: nat)
    ensures
        forward(l, d, n).len() == n,
    decreases n,
{
    if n > 0 {
        lemma_forward_len(l, d, (n - 1) as nat);
    }
}

proof fn lemma_backward_len(l: Seq<Seq<real>>, z: Seq<real>, k: nat)
    ensures
        backward(l, z, k).len() == k,
    decreases k,
{
    if k > 0 {
        lemma_backward_len(l, z, (k - 1) as nat);
    }
}

/// Forward substitution reads nothing above the diagonal.
pub(crate) proof fn lemma_forward_reads_the_triangle(
    l: Seq<Seq<real>>,
    other: Seq<Seq<real>>,
    d: Seq<real>,
    n: nat,
)
    requires
        n <= l.len(),
        n <= other.len(),
        forall|i: int, j: int| 0 <= j <= i < n ==> #[trigger] l[i][j] == #[trigger] other[i][j],
    ensures
        forward(l, d, n) == forward(other, d, n),
    decreases n,
{
    if n > 0 {
        let m = (n - 1) as nat;
        lemma_forward_reads_the_triangle(l, other, d, m);
        lemma_dots_agree(
            l[n - 1],
            forward(l, d, m),
            other[n - 1],
            forward(other, d, m),
            m,
        );
        assert(l[n - 1][n - 1] == other[n - 1][n - 1]);
    }
}

/// `acc` less the products of the first `n` entries of two rows.
fn less_dot(start: &Cell, a: &Vec<Cell>, b: &Vec<Cell>, n: usize) -> (r: Cell)
    requires
        n <= a@.len(),
        n <= b@.len(),
    ensures
        forall|m: Model|
            #[trigger] m.of(*r) == m.of(**start) - dot(m.row(a@), m.row(b@), n as nat),
{
    let mut acc = start.clone();
    let mut j: usize = 0;
    while j < n
        invariant
            j <= n,
            n <= a@.len(),
            n <= b@.len(),
            forall|m: Model|
                #[trigger] m.of(*acc) == m.of(**start) - dot(m.row(a@), m.row(b@), j as nat),
        decreases n - j,
    {
        let product = bin(Binary::Mul, &a[j], &b[j]);
        let next = bin(Binary::Sub, &acc, &product);
        proof {
            assert forall|m: Model|
                #[trigger] m.of(*next) == m.of(**start) - dot(m.row(a@), m.row(b@), j as nat + 1) by {
                assert(m.row(a@)[j as int] == m.of(*a@[j as int]));
                assert(m.row(b@)[j as int] == m.of(*b@[j as int]));
                assert(m.of(*product) == m.of(*a@[j as int]) * m.of(*b@[j as int]));
                assert(m.of(*acc) == m.of(**start) - dot(m.row(a@), m.row(b@), j as nat));
            }
        }
        acc = next;
        j += 1;
    }
    acc
}

/// `L z = d` by forward substitution. Only the triangle of `l` is read.
pub fn solve_lower(l: &Matrix, d: &Vec<Cell>) -> (r: Vec<Cell>)
    requires
        is_square(l@, d@.len()),
    ensures
        r@.len() == d@.len(),
        forall|m: Model| #[trigger] m.row(r@) == forward(grid(m, l@), m.row(d@), d@.len()),
{
    let dim: usize = d.len();
    let mut z: Vec<Cell> = Vec::new();
    let mut i: usize = 0;
    proof {
        assert forall|m: Model| #[trigger] m.row(z@) == forward(grid(m, l@), m.row(d@), 0) by {
            assert(m.row(z@) =~= Seq::<real>::empty());
        }
    }
    while i < dim
        invariant
            i <= dim,
            dim == d@.len(),
            is_square(l@, dim as nat),
            z@.len() == i,
            forall|m: Model| #[trigger] m.row(z@) == forward(grid(m, l@), m.row(d@), i as nat),
        decreases dim - i,
    {
        let acc = less_dot(&d[i], &l[i], &z, i);
        let v = bin(Binary::Div, &acc, &l[i][i]);
        let ghost before = z@;
        z.push(v);
        proof {
            assert forall|m: Model| #[trigger] m.row(z@) == forward(grid(m, l@), m.row(d@), i as nat + 1) by {
                let g = grid(m, l@);
                assert(g[i as int] == m.row(l@[i as int]@));
                assert(g[i as int][i as int] == m.of(*l@[i as int]@[i as int]));
                assert(m.row(d@)[i as int] == m.of(*d@[i as int]));
                assert(m.row(before) == forward(g, m.row(d@), i as nat));
                assert(m.of(*acc) == m.of(*d@[i as int]) - dot(
                    m.row(l@[i as int]@),
                    m.row(before),
                    i as nat,
                ));
                assert(m.of(*v) == m.of(*acc) / m.of(*l@[i as int]@[i as int]));
                assert(m.row(z@) =~= m.row(before).push(m.of(*v)));
            }
        }
        i += 1;
    }
    z
}

/// The transposed system by back substitution.
pub fn solve_upper(l: &Matrix, z: &Vec<Cell>) -> (r: Vec<Cell>)
    requires
        is_square(l@, z@.len()),
    ensures
        r@.len() == z@.len(),
        forall|m: Model| #[trigger] m.row(r@) == backward(grid(m, l@), m.row(z@), z@.len()),
{
    let dim: usize = z.len();
    let mut w: Vec<Cell> = Vec::new();
    let mut back: usize = 0;
    proof {
        assert forall|m: Model| #[trigger] m.row(w@) == backward(grid(m, l@), m.row(z@), 0) by {
            assert(m.row(w@) =~= Seq::<real>::empty());
        }
    }
    while back < dim
        invariant
            back <= dim,
            dim == z@.len(),
            is_square(l@, dim as nat),
            w@.len() == back,
            forall|m: Model| #[trigger] m.row(w@) == backward(grid(m, l@), m.row(z@), back as nat),
        decreases dim - back,
    {
        let i: usize = dim - 1 - back;
        let mut acc = z[i].clone();
        let mut n: usize = 0;
        while n < back
            invariant
                n <= back < dim,
                dim == z@.len(),
                i == dim - 1 - back,
                is_square(l@, dim as nat),
                w@.len() == back,
                forall|m: Model|
                    #[trigger] m.of(*acc) == m.of(*z@[i as int]) - below_dot(
                        grid(m, l@),
                        m.row(w@),
                        i as int,
                        i as int + 1,
                        n as nat,
                    ),
            decreases back - n,
        {
            let j: usize = i + 1 + n;
            let product = bin(Binary::Mul, &l[j][i], &w[n]);
            let next = bin(Binary::Sub, &acc, &product);
            proof {
                assert forall|m: Model|
                    #[trigger] m.of(*next) == m.of(*z@[i as int]) - below_dot(
                        grid(m, l@),
                        m.row(w@),
                        i as int,
                        i as int + 1,
                        n as nat + 1,
                    ) by {
                    let g = grid(m, l@);
                    assert(g[j as int] == m.row(l@[j as int]@));
                    assert(g[j as int][i as int] == m.of(*l@[j as int]@[i as int]));
                    assert(m.row(w@)[n as int] == m.of(*w@[n as int]));
                    assert(m.of(*product) == m.of(*l@[j as int]@[i as int]) * m.of(*w@[n as int]));
                    assert(m.of(*acc) == m.of(*z@[i as int]) - below_dot(
                        g,
                        m.row(w@),
                        i as int,
                        i as int + 1,
                        n as nat,
                    ));
                }
            }
            acc = next;
            n += 1;
        }
        let v = bin(Binary::Div, &acc, &l[i][i]);
        let ghost before = w@;
        w.insert(0, v);
        proof {
            assert forall|m: Model|
                #[trigger] m.row(w@) == backward(grid(m, l@), m.row(z@), back as nat + 1) by {
                let g = grid(m, l@);
                assert(g[i as int] == m.row(l@[i as int]@));
                assert(g[i as int][i as int] == m.of(*l@[i as int]@[i as int]));
                assert(m.row(z@)[i as int] == m.of(*z@[i as int]));
                assert(m.row(before) == backward(g, m.row(z@), back as nat));
                assert(m.of(*v) == m.of(*acc) / m.of(*l@[i as int]@[i as int]));
                assert(m.row(w@) =~= seq![m.of(*v)] + m.row(before));
            }
        }
        back += 1;
    }
    w
}

/// Forward substitution solves the system: the triangle of `l` times the solution is
/// the right-hand side.
pub proof fn law_forward_substitution_solves(l: Seq<Seq<real>>, d: Seq<real>, n: nat, i: int)
    requires
        0 <= i < n,
        l[i][i] != 0real,
    ensures
        dot(l[i], forward(l, d, n), i as nat + 1) == d[i],
    decreases n,
{
    lemma_forward_len(l, d, n);
    lemma_forward_len(l, d, (n - 1) as nat);
    let z = forward(l, d, n);
    let y = forward(l, d, (n - 1) as nat);
    if i == n - 1 {
        lemma_dot_prefix(l[i], y, z, i as nat);
        let (a, b) = (d[i] - dot(l[i], y, i as nat), l[i][i]);
        assert(b * (a / b) == a) by (nonlinear_arith)
            requires
                b != 0real,
        ;
    } else {
        law_forward_substitution_solves(l, d, (n - 1) as nat, i);
        lemma_dot_prefix(l[i], y, z, i as nat + 1);
    }
}

proof fn lemma_dot_prefix(a: Seq<real>, b: Seq<real>, c: Seq<real>, n: nat)
    requires
        n <= b.len(),
        n <= c.len(),
        forall|i: int| 0 <= i < n ==> #[trigger] b[i] == c[i],
    ensures
        dot(a, b, n) == dot(a, c, n),
    decreases n,
{
    if n > 0 {
        lemma_dot_prefix(a, b, c, (n - 1) as nat);
        assert(b[n - 1] == c[n - 1]);
    }
}

/// Back substitution solves the transposed system: column `i` of the triangle times
/// the solution is entry `i` of the right-hand side.
pub proof fn law_back_substitution_solves(l: Seq<Seq<real>>, z: Seq<real>, i: int)
    requires
        0 <= i < l.len(),
        l[i][i] != 0real,
    ensures
        ({
            let w = backward(l, z, l.len());
            l[i][i] * w[i] + below_dot(l, w.skip(i + 1), i, i + 1, (l.len() - i - 1) as nat) == z[i]
        }),
{
    let n = l.len();
    lemma_backward_suffix(l, z, i);
    lemma_backward_suffix(l, z, i + 1);
    let w = backward(l, z, n);
    lemma_backward_len(l, z, n);
    lemma_backward_len(l, z, (n - i) as nat);
    lemma_backward_len(l, z, (n - i - 1) as nat);
    let tail = backward(l, z, (n - i - 1) as nat);
    assert(w.skip(i)[0] == w[i]);
    let (a, b) = (z[i] - below_dot(l, tail, i, i + 1, (n - i - 1) as nat), l[i][i]);
    assert(b * (a / b) == a) by (nonlinear_arith)
        requires
            b != 0real,
    ;
}

proof fn lemma_backward_suffix(l: Seq<Seq<real>>, z: Seq<real>, i: int)
    requires
        0 <= i <= l.len(),
    ensures
        backward(l, z, l.len()).skip(i) == backward(l, z, (l.len() - i) as nat),
    decreases i,
{
    let n = l.len();
    lemma_backward_len(l, z, n);
    if i == 0 {
        assert(backward(l, z, n).skip(0) =~= backward(l, z, n));
    } else {
        lemma_backward_suffix(l, z, i - 1);
        lemma_backward_len(l, z, (n - i) as nat);
        let longer = backward(l, z, (n - i + 1) as nat);
        assert(backward(l, z, n).skip(i) =~= longer.skip(1));
        assert(longer.skip(1) =~= backward(l, z, (n - i) as nat));
    }
}

// -- factorisation -------------------------------------------------------------------------

/// The pivot of a column, floored so that one that is not positive does not spread.
pub open spec fn pivot(m: Model, under_root: real) -> real {
    let p = (m.f.sqrt)(under_root);
    let floor = (m.f.constant)(Scalar::PivotFloor);
    if p > floor {
        p
    } else {
        floor
    }
}

/// The first `n` columns of the lower-triangular factor of a matrix.
pub open spec fn factor(m: Model, a: Seq<Seq<real>>, n: nat) -> Seq<Seq<real>>
    decreases n,
{
    if n == 0 {
        Seq::new(a.len(), |i: int| Seq::empty())
    } else {
        let done = factor(m, a, (n - 1) as nat);
        let j = n - 1;
        let p = pivot(m, a[j][j] - dot(done[j], done[j], j as nat));
        Seq::new(
            a.len(),
            |i: int|
                done[i].push(
                    if i < j {
                        0real
                    } else if i == j {
                        p
                    } else {
                        (a[i][j] - dot(done[i], done[j], j as nat)) / p
                    },
                ),
        )
    }
}

fn copy_row(row: &Vec<Cell>) -> (r: Vec<Cell>)
    ensures
        r@ == row@,
{
    let mut out: Vec<Cell> = Vec::new();
    let mut i: usize = 0;
    while i < row.len()
        invariant
            i <= row@.len(),
            out@ == row@.take(i as int),
        decreases row@.len() - i,
    {
        out.push(row[i].clone());
        i += 1;
        proof {
            assert(out@ =~= row@.take(i as int));
        }
    }
    proof {
        assert(row@.take(row@.len() as int) =~= row@);
    }
    out
}

/// The lower-triangular factor of a matrix, column by column. The strict upper
/// triangle is zero.
pub fn cholesky(a: &Matrix) -> (r: Matrix)
    requires
        is_square(a@, a@.len()),
    ensures
        is_square(r@, a@.len()),
        forall|m: Model| #[trigger] grid(m, r@) == factor(m, grid(m, a@), a@.len()),
{
    let dim: usize = a.len();
    let mut out: Matrix = Vec::new();
    let mut k: usize = 0;
    while k < dim
        invariant
            k <= dim,
            out@.len() == k,
            forall|i: int| 0 <= i < k ==> (#[trigger] out@[i])@.len() == 0,
        decreases dim - k,
    {
        out.push(Vec::new());
        k += 1;
    }
    proof {
        assert forall|m: Model| #[trigger] grid(m, out@) == factor(m, grid(m, a@), 0) by {
            assert forall|i: int| 0 <= i < dim implies grid(m, out@)[i] == Seq::<real>::empty() by {
                assert(m.row(out@[i]@) =~= Seq::<real>::empty());
            }
            assert(grid(m, out@) =~= factor(m, grid(m, a@), 0));
        }
    }
    let mut j: usize = 0;
    while j < dim
        invariant
            j <= dim,
            dim == a@.len(),
            is_square(a@, dim as nat),
            out@.len() == dim,
            forall|i: int| 0 <= i < dim ==> (#[trigger] out@[i])@.len() == j,
            forall|m: Model| #[trigger] grid(m, out@) == factor(m, grid(m, a@), j as nat),
        decreases dim - j,
    {
        out = next_column(a, &out, j);
        j += 1;
    }
    out
}

/// A factor with one more column.
fn next_column(a: &Matrix, done: &Matrix, j: usize) -> (r: Matrix)
    requires
        j < a@.len(),
        is_square(a@, a@.len()),
        done@.len() == a@.len(),
        forall|i: int| 0 <= i < a@.len() ==> (#[trigger] done@[i])@.len() == j,
        forall|m: Model| #[trigger] grid(m, done@) == factor(m, grid(m, a@), j as nat),
    ensures
        r@.len() == a@.len(),
        forall|i: int| 0 <= i < a@.len() ==> (#[trigger] r@[i])@.len() == j + 1,
        forall|m: Model| #[trigger] grid(m, r@) == factor(m, grid(m, a@), j as nat + 1),
{
    let dim: usize = a.len();
    let under = less_dot(&a[j][j], &done[j], &done[j], j);
    let root = un(Unary::Sqrt, &under);
    let floor = number(Scalar::PivotFloor);
    let p = bin(Binary::Maximum, &root, &floor);
    let zero = number(Scalar::Int(0));
    proof {
        assert forall|m: Model|
            #[trigger] m.of(*p) == pivot(
                m,
                grid(m, a@)[j as int][j as int] - dot(
                    grid(m, done@)[j as int],
                    grid(m, done@)[j as int],
                    j as nat,
                ),
            ) by {
            assert(grid(m, a@)[j as int][j as int] == m.of(*a@[j as int]@[j as int]));
            assert(grid(m, done@)[j as int] == m.row(done@[j as int]@));
            assert(m.of(*root) == (m.f.sqrt)(m.of(*under)));
            assert(m.of(*floor) == (m.f.constant)(Scalar::PivotFloor));
        }
    }
    let mut out: Matrix = Vec::new();
    let mut i: usize = 0;
    while i < dim
        invariant
            i <= dim,
            j < dim,
            dim == a@.len(),
            is_square(a@, dim as nat),
            done@.len() == dim,
            forall|k: int| 0 <= k < dim ==> (#[trigger] done@[k])@.len() == j,
            forall|m: Model| #[trigger] grid(m, done@) == factor(m, grid(m, a@), j as nat),
            forall|m: Model|
                #[trigger] m.of(*p) == pivot(
                    m,
                    grid(m, a@)[j as int][j as int] - dot(
                        grid(m, done@)[j as int],
                        grid(m, done@)[j as int],
                        j as nat,
                    ),
                ),
            forall|m: Model| #[trigger] m.of(*zero) == 0real,
            out@.len() == i,
            forall|k: int| 0 <= k < i ==> (#[trigger] out@[k])@.len() == j + 1,
            forall|m: Model, k: int|
                0 <= k < i ==> #[trigger] m.row(out@[k]@) == factor(m, grid(m, a@), j as nat + 1)[k],
        decreases dim - i,
    {
        let v = if i < j {
            zero.clone()
        } else if i == j {
            p.clone()
        } else {
            let acc = less_dot(&a[i][j], &done[i], &done[j], j);
            bin(Binary::Div, &acc, &p)
        };
        let mut row = copy_row(&done[i]);
        row.push(v);
        proof {
            assert forall|m: Model|
                #[trigger] m.row(row@) == factor(m, grid(m, a@), j as nat + 1)[i as int] by {
                assert(grid(m, a@)[i as int][j as int] == m.of(*a@[i as int]@[j as int]));
                assert(grid(m, done@) == factor(m, grid(m, a@), j as nat));
                assert(grid(m, done@)[i as int] == m.row(done@[i as int]@));
                assert(grid(m, done@)[j as int] == m.row(done@[j as int]@));
                assert(m.row(row@) =~= m.row(done@[i as int]@).push(m.of(*v)));
                assert(m.of(*p) == m.of(*p));
                assert(m.of(*zero) == 0real);
            }
        }
        out.push(row);
        i += 1;
    }
    proof {
        assert forall|m: Model| #[trigger] grid(m, out@) == factor(m, grid(m, a@), j as nat + 1) by {
            assert(grid(m, out@).len() == dim);
            assert forall|k: int| 0 <= k < dim implies grid(m, out@)[k] == factor(
                m,
                grid(m, a@),
                j as nat + 1,
            )[k] by {
                assert(grid(m, out@)[k] == m.row(out@[k]@));
            }
            assert(grid(m, out@) =~= factor(m, grid(m, a@), j as nat + 1));
        }
    }
    out
}

proof fn lemma_factor_len(m: Model, a: Seq<Seq<real>>, n: nat)
    requires
        n <= a.len(),
    ensures
        factor(m, a, n).len() == a.len(),
        forall|i: int| 0 <= i < a.len() ==> (#[trigger] factor(m, a, n)[i]).len() == n,
    decreases n,
{
    if n > 0 {
        lemma_factor_len(m, a, (n - 1) as nat);
    }
}

/// A column, once written, stays.
proof fn lemma_factor_prefix(m: Model, a: Seq<Seq<real>>, low: nat, high: nat, i: int, k: int)
    requires
        low <= high <= a.len(),
        0 <= i < a.len(),
        0 <= k < low,
    ensures
        factor(m, a, high)[i][k] == factor(m, a, low)[i][k],
    decreases high,
{
    if low < high {
        lemma_factor_prefix(m, a, low, (high - 1) as nat, i, k);
        lemma_factor_len(m, a, (high - 1) as nat);
    }
}

/// Whether the pivot of a column is a root, and was not floored.
pub open spec fn positive_pivot(m: Model, a: Seq<Seq<real>>, j: int) -> bool {
    let done = factor(m, a, j as nat);
    let under = a[j][j] - dot(done[j], done[j], j as nat);
    let p = pivot(m, under);
    p * p == under && p != 0real
}

/// The factor times its transpose is the matrix, on the lower triangle, wherever the
/// pivots are proper roots.
pub proof fn law_factor_times_transpose(m: Model, a: Seq<Seq<real>>, i: int, j: int)
    requires
        0 <= j <= i < a.len(),
        positive_pivot(m, a, j),
    ensures
        ({
            let l = factor(m, a, a.len());
            dot(l[i], l[j], j as nat + 1) == a[i][j]
        }),
{
    let n = a.len();
    let l = factor(m, a, n);
    let done = factor(m, a, j as nat);
    let next = factor(m, a, j as nat + 1);
    lemma_factor_len(m, a, n);
    lemma_factor_len(m, a, j as nat);
    lemma_factor_len(m, a, j as nat + 1);
    assert forall|k: int| 0 <= k < j implies l[i][k] == #[trigger] done[i][k] && l[j][k]
        == done[j][k] by {
        lemma_factor_prefix(m, a, j as nat, n, i, k);
        lemma_factor_prefix(m, a, j as nat, n, j, k);
    }
    lemma_dots_agree(l[i], l[j], done[i], done[j], j as nat);
    lemma_factor_prefix(m, a, j as nat + 1, n, i, j);
    lemma_factor_prefix(m, a, j as nat + 1, n, j, j);
    let p = pivot(m, a[j][j] - dot(done[j], done[j], j as nat));
    assert(next[j][j] == p);
    if i > j {
        let v = a[i][j] - dot(done[i], done[j], j as nat);
        assert(next[i][j] == v / p);
        assert((v / p) * p == v) by (nonlinear_arith)
            requires
                p != 0real,
        ;
    }
}

proof fn lemma_dots_agree(a: Seq<real>, b: Seq<real>, c: Seq<real>, d: Seq<real>, n: nat)
    requires
        forall|k: int| 0 <= k < n ==> a[k] == #[trigger] c[k] && b[k] == d[k],
    ensures
        dot(a, b, n) == dot(c, d, n),
    decreases n,
{
    if n > 0 {
        lemma_dots_agree(a, b, c, d, (n - 1) as nat);
        assert(a[n - 1] == c[n - 1]);
    }
}

/// The strict upper triangle of a factor is zero.
pub proof fn law_factor_is_lower_triangular(m: Model, a: Seq<Seq<real>>, i: int, j: int)
    requires
        0 <= i < j < a.len(),
    ensures
        factor(m, a, a.len())[i][j] == 0real,
{
    lemma_factor_prefix(m, a, j as nat + 1, a.len(), i, j);
    lemma_factor_len(m, a, j as nat);
}

// -- densities -----------------------------------------------------------------------------

pub open spec fn minus(a: Seq<real>, b: Seq<real>) -> Seq<real> {
    Seq::new(a.len(), |i: int| a[i] - b[i])
}

/// The logarithms of the magnitudes of the diagonal.
pub open spec fn log_diagonal(m: Model, l: Seq<Seq<real>>) -> Seq<real> {
    Seq::new(
        l.len(),
        |i: int|
            (m.f.log)(
                if l[i][i] < 0real {
                    -l[i][i]
                } else {
                    l[i][i]
                },
            ),
    )
}

pub open spec fn squared(a: Seq<real>) -> Seq<real> {
    Seq::new(a.len(), |i: int| a[i] * a[i])
}

/// `-|L^-1 (x - loc)|^2 / 2 - sum(ln |L_ii|) - (d / 2) ln(2 pi)`.
pub open spec fn normal_density(m: Model, loc: Seq<real>, l: Seq<Seq<real>>, x: Seq<real>) -> real {
    let z = forward(l, minus(x, loc), x.len());
    rows::sum(squared(z), x.len()) * (-1real / 2real) - rows::sum(log_diagonal(m, l), x.len())
        - (m.f.constant)(Scalar::HalfLnTwoPiTimes(x.len() as u64))
}

fn difference(a: &Vec<Cell>, b: &Vec<Cell>) -> (r: Vec<Cell>)
    requires
        a@.len() == b@.len(),
    ensures
        r@.len() == a@.len(),
        forall|m: Model| #[trigger] m.row(r@) == minus(m.row(a@), m.row(b@)),
{
    let mut out: Vec<Cell> = Vec::new();
    let mut i: usize = 0;
    while i < a.len()
        invariant
            i <= a@.len(),
            a@.len() == b@.len(),
            out@.len() == i,
            forall|m: Model, k: int|
                0 <= k < i ==> #[trigger] m.of(*out@[k]) == m.of(*a@[k]) - m.of(*b@[k]),
        decreases a@.len() - i,
    {
        out.push(bin(Binary::Sub, &a[i], &b[i]));
        i += 1;
    }
    proof {
        assert forall|m: Model| #[trigger] m.row(out@) == minus(m.row(a@), m.row(b@)) by {
            assert(m.row(out@) =~= minus(m.row(a@), m.row(b@)));
        }
    }
    out
}

fn squares(a: &Vec<Cell>) -> (r: Vec<Cell>)
    ensures
        r@.len() == a@.len(),
        forall|m: Model| #[trigger] m.row(r@) == squared(m.row(a@)),
{
    let mut out: Vec<Cell> = Vec::new();
    let mut i: usize = 0;
    while i < a.len()
        invariant
            i <= a@.len(),
            out@.len() == i,
            forall|m: Model, k: int|
                0 <= k < i ==> #[trigger] m.of(*out@[k]) == m.of(*a@[k]) * m.of(*a@[k]),
        decreases a@.len() - i,
    {
        out.push(bin(Binary::Mul, &a[i], &a[i]));
        i += 1;
    }
    proof {
        assert forall|m: Model| #[trigger] m.row(out@) == squared(m.row(a@)) by {
            assert(m.row(out@) =~= squared(m.row(a@)));
        }
    }
    out
}

fn log_diag(l: &Matrix) -> (r: Vec<Cell>)
    requires
        is_square(l@, l@.len()),
    ensures
        r@.len() == l@.len(),
        forall|m: Model| #[trigger] m.row(r@) == log_diagonal(m, grid(m, l@)),
{
    let mut out: Vec<Cell> = Vec::new();
    let mut i: usize = 0;
    while i < l.len()
        invariant
            i <= l@.len(),
            is_square(l@, l@.len()),
            out@.len() == i,
            forall|m: Model, k: int|
                0 <= k < i ==> m.of(*#[trigger] out@[k]) == #[trigger] log_diagonal(m, grid(m, l@))[k],
        decreases l@.len() - i,
    {
        let a = un(Unary::Abs, &l[i][i]);
        let v = un(Unary::Log, &a);
        proof {
            assert forall|m: Model| m.of(*v) == #[trigger] log_diagonal(m, grid(m, l@))[i as int] by {
                assert(grid(m, l@)[i as int][i as int] == m.of(*l@[i as int]@[i as int]));
                assert(m.of(*v) == (m.f.log)(m.of(*a)));
            }
        }
        out.push(v);
        i += 1;
    }
    proof {
        assert forall|m: Model| #[trigger] m.row(out@) == log_diagonal(m, grid(m, l@)) by {
            assert(m.row(out@) =~= log_diagonal(m, grid(m, l@)));
        }
    }
    out
}

/// The log-density of one row.
pub fn normal_log_prob(loc: &Vec<Cell>, l: &Matrix, x: &Vec<Cell>) -> (r: Cell)
    requires
        loc@.len() == x@.len(),
        is_square(l@, x@.len()),
    ensures
        forall|m: Model|
            #[trigger] m.of(*r) == normal_density(m, m.row(loc@), grid(m, l@), m.row(x@)),
{
    let gap = difference(x, loc);
    let z = solve_lower(l, &gap);
    let sq = squares(&z);
    let quad = row_sum(&sq);
    let diag = log_diag(l);
    let logdet = row_sum(&diag);
    let scaled = un(Unary::MulScalar(Scalar::Frac(-1, 2)), &quad);
    let less = bin(Binary::Sub, &scaled, &logdet);
    let c = number(Scalar::HalfLnTwoPiTimes(x.len() as u64));
    let r = bin(Binary::Sub, &less, &c);
    proof {
        assert forall|m: Model|
            #[trigger] m.of(*r) == normal_density(m, m.row(loc@), grid(m, l@), m.row(x@)) by {
            assert(m.row(gap@) == minus(m.row(x@), m.row(loc@)));
            assert(m.row(z@) == forward(grid(m, l@), m.row(gap@), gap@.len()));
            assert(m.row(sq@) == squared(m.row(z@)));
            assert(m.of(*quad) == rows::sum(m.row(sq@), sq@.len()));
            assert(m.row(diag@) == log_diagonal(m, grid(m, l@)));
            assert(m.of(*logdet) == rows::sum(m.row(diag@), diag@.len()));
            assert(m.of(*scaled) == m.of(*quad) * meaning::scalar(m.f, Scalar::Frac((-1) as i64, 2)));
            assert(m.of(*less) == m.of(*scaled) - m.of(*logdet));
        }
    }
    r
}

/// What the three gradients of a log-density are made of: `z` solves the system for
/// the distance from the mean, `w` the transposed system for `z`.
pub fn normal_solves(loc: &Vec<Cell>, l: &Matrix, x: &Vec<Cell>) -> (r: (Vec<Cell>, Vec<Cell>))
    requires
        loc@.len() == x@.len(),
        is_square(l@, x@.len()),
    ensures
        r.0@.len() == x@.len(),
        r.1@.len() == x@.len(),
        forall|m: Model|
            #[trigger] m.row(r.0@) == forward(
                grid(m, l@),
                minus(m.row(x@), m.row(loc@)),
                x@.len(),
            ),
        forall|m: Model|
            #[trigger] m.row(r.1@) == backward(grid(m, l@), m.row(r.0@), x@.len()),
{
    let gap = difference(x, loc);
    let z = solve_lower(l, &gap);
    let w = solve_upper(l, &z);
    proof {
        assert forall|m: Model|
            #[trigger] m.row(z@) == forward(
                grid(m, l@),
                minus(m.row(x@), m.row(loc@)),
                x@.len(),
            ) by {
            assert(m.row(gap@) == minus(m.row(x@), m.row(loc@)));
        }
    }
    (z, w)
}

/// The gradient for the value, `-g w`, or for the mean, `g w`.
pub fn normal_grad_vector(w: &Vec<Cell>, g: &Cell, for_value: bool) -> (r: Vec<Cell>)
    ensures
        r@.len() == w@.len(),
        forall|m: Model, k: int|
            0 <= k < w@.len() ==> #[trigger] m.row(r@)[k] == (if for_value {
                -m.of(**g)
            } else {
                m.of(**g)
            }) * m.row(w@)[k],
{
    let by = if for_value {
        un(Unary::Neg, g)
    } else {
        g.clone()
    };
    let mut out: Vec<Cell> = Vec::new();
    let mut i: usize = 0;
    while i < w.len()
        invariant
            i <= w@.len(),
            out@.len() == i,
            forall|m: Model|
                #[trigger] m.of(*by) == if for_value {
                    -m.of(**g)
                } else {
                    m.of(**g)
                },
            forall|m: Model, k: int|
                0 <= k < i ==> #[trigger] m.of(*out@[k]) == m.of(*by) * m.of(*w@[k]),
        decreases w@.len() - i,
    {
        out.push(bin(Binary::Mul, &by, &w[i]));
        i += 1;
    }
    proof {
        assert forall|m: Model, k: int| 0 <= k < w@.len() implies #[trigger] m.row(out@)[k] == (
        if for_value {
            -m.of(**g)
        } else {
            m.of(**g)
        }) * m.row(w@)[k] by {
            assert(m.of(*out@[k]) == m.of(*by) * m.of(*w@[k]));
            assert(m.of(*by) == if for_value {
                -m.of(**g)
            } else {
                m.of(**g)
            });
        }
    }
    out
}

/// Entry `(r, c)` of the gradient for the factor: the outer product of `w` and `z` less
/// the reciprocal diagonal, on the lower triangle.
pub open spec fn factor_slope(g: real, w: Seq<real>, z: Seq<real>, l: Seq<Seq<real>>, r: int, c: int) -> real {
    g * (if c < r {
        w[r] * z[c]
    } else if c == r {
        w[r] * z[c] - 1real / l[r][r]
    } else {
        0real
    })
}

pub fn normal_grad_factor(w: &Vec<Cell>, z: &Vec<Cell>, l: &Matrix, g: &Cell) -> (out: Matrix)
    requires
        w@.len() == l@.len(),
        z@.len() == l@.len(),
        is_square(l@, l@.len()),
    ensures
        is_square(out@, l@.len()),
        forall|m: Model, r: int, c: int|
            0 <= r < l@.len() && 0 <= c < l@.len() ==> #[trigger] m.row(out@[r]@)[c]
                == factor_slope(m.of(**g), m.row(w@), m.row(z@), grid(m, l@), r, c),
{
    let dim: usize = l.len();
    let mut out: Matrix = Vec::new();
    let mut r: usize = 0;
    while r < dim
        invariant
            r <= dim,
            dim == l@.len(),
            w@.len() == dim,
            z@.len() == dim,
            is_square(l@, dim as nat),
            out@.len() == r,
            forall|k: int| 0 <= k < r ==> (#[trigger] out@[k])@.len() == dim,
            forall|m: Model, k: int, c: int|
                0 <= k < r && 0 <= c < dim ==> #[trigger] m.row(out@[k]@)[c] == factor_slope(
                    m.of(**g),
                    m.row(w@),
                    m.row(z@),
                    grid(m, l@),
                    k,
                    c,
                ),
        decreases dim - r,
    {
        let row = factor_row(w, z, l, g, r);
        out.push(row);
        r += 1;
    }
    out
}

fn factor_row(w: &Vec<Cell>, z: &Vec<Cell>, l: &Matrix, g: &Cell, r: usize) -> (out: Vec<Cell>)
    requires
        r < l@.len(),
        w@.len() == l@.len(),
        z@.len() == l@.len(),
        is_square(l@, l@.len()),
    ensures
        out@.len() == l@.len(),
        forall|m: Model, c: int|
            0 <= c < l@.len() ==> #[trigger] m.row(out@)[c] == factor_slope(
                m.of(**g),
                m.row(w@),
                m.row(z@),
                grid(m, l@),
                r as int,
                c,
            ),
{
    let dim: usize = l.len();
    let one = number(Scalar::Int(1));
    let inverse = bin(Binary::Div, &one, &l[r][r]);
    let mut out: Vec<Cell> = Vec::new();
    let mut c: usize = 0;
    while c < dim
        invariant
            c <= dim,
            r < dim,
            dim == l@.len(),
            w@.len() == dim,
            z@.len() == dim,
            is_square(l@, dim as nat),
            forall|m: Model| #[trigger] m.of(*inverse) == 1real / m.of(*l@[r as int]@[r as int]),
            out@.len() == c,
            forall|m: Model, k: int|
                0 <= k < c ==> m.of(*#[trigger] out@[k]) == #[trigger] factor_slope(
                    m.of(**g),
                    m.row(w@),
                    m.row(z@),
                    grid(m, l@),
                    r as int,
                    k,
                ),
        decreases dim - c,
    {
        let v = if c <= r {
            let product = bin(Binary::Mul, &w[r], &z[c]);
            if c == r {
                bin(Binary::Sub, &product, &inverse)
            } else {
                product
            }
        } else {
            number(Scalar::Int(0))
        };
        let e = bin(Binary::Mul, g, &v);
        proof {
            assert forall|m: Model|
                m.of(*e) == #[trigger] factor_slope(
                    m.of(**g),
                    m.row(w@),
                    m.row(z@),
                    grid(m, l@),
                    r as int,
                    c as int,
                ) by {
                assert(m.row(w@)[r as int] == m.of(*w@[r as int]));
                assert(m.row(z@)[c as int] == m.of(*z@[c as int]));
                assert(grid(m, l@)[r as int][r as int] == m.of(*l@[r as int]@[r as int]));
                assert(m.of(*inverse) == 1real / m.of(*l@[r as int]@[r as int]));
                assert(m.of(*e) == m.of(**g) * m.of(*v));
            }
        }
        out.push(e);
        c += 1;
    }
    proof {
        assert forall|m: Model, c: int| 0 <= c < dim implies #[trigger] m.row(out@)[c]
            == factor_slope(m.of(**g), m.row(w@), m.row(z@), grid(m, l@), r as int, c) by {
            assert(m.of(*out@[c]) == factor_slope(
                m.of(**g),
                m.row(w@),
                m.row(z@),
                grid(m, l@),
                r as int,
                c,
            ));
        }
    }
    out
}

// -- divergence ----------------------------------------------------------------------------

/// A column of the lower triangle of a matrix.
pub open spec fn column(a: Seq<Seq<real>>, c: int) -> Seq<real> {
    Seq::new(
        a.len(),
        |i: int|
            if i < c {
                0real
            } else {
                a[i][c]
            },
    )
}

/// The squared lengths of the solutions of the system for the first `n` columns of
/// another factor.
pub open spec fn column_lengths(p: Seq<Seq<real>>, q: Seq<Seq<real>>, n: nat) -> real
    decreases n,
{
    if n == 0 {
        0real
    } else {
        column_lengths(p, q, (n - 1) as nat) + rows::sum(
            squared(forward(q, column(p, n - 1), p.len())),
            p.len(),
        )
    }
}

/// `(|Lq^-1 Lp|^2 + |Lq^-1 (mp - mq)|^2 - d) / 2 + sum(ln |Lq_ii| - ln |Lp_ii|)`.
pub open spec fn normal_divergence(
    m: Model,
    mp: Seq<real>,
    p: Seq<Seq<real>>,
    mq: Seq<real>,
    q: Seq<Seq<real>>,
) -> real {
    let dim = mp.len();
    let quad = rows::sum(squared(forward(q, minus(mp, mq), dim)), dim);
    (column_lengths(p, q, dim) + quad - (dim as u64) as int as real) * (1real / 2real) + rows::sum(
        minus(log_diagonal(m, q), log_diagonal(m, p)),
        dim,
    )
}

fn column_of(a: &Matrix, c: usize) -> (r: Vec<Cell>)
    requires
        is_square(a@, a@.len()),
        c < a@.len(),
    ensures
        r@.len() == a@.len(),
        forall|m: Model| #[trigger] m.row(r@) == column(grid(m, a@), c as int),
{
    let mut out: Vec<Cell> = Vec::new();
    let mut i: usize = 0;
    while i < a.len()
        invariant
            i <= a@.len(),
            c < a@.len(),
            is_square(a@, a@.len()),
            out@.len() == i,
            forall|m: Model, k: int|
                0 <= k < i ==> m.of(*#[trigger] out@[k]) == #[trigger] column(
                    grid(m, a@),
                    c as int,
                )[k],
        decreases a@.len() - i,
    {
        let entry = if i < c {
            number(Scalar::Int(0))
        } else {
            a[i][c].clone()
        };
        proof {
            assert forall|m: Model|
                m.of(*entry) == #[trigger] column(grid(m, a@), c as int)[i as int] by {
                assert(grid(m, a@)[i as int] == m.row(a@[i as int]@));
                assert(m.row(a@[i as int]@)[c as int] == m.of(*a@[i as int]@[c as int]));
            }
        }
        out.push(entry);
        i += 1;
    }
    proof {
        assert forall|m: Model| #[trigger] m.row(out@) == column(grid(m, a@), c as int) by {
            assert(m.row(out@) =~= column(grid(m, a@), c as int));
        }
    }
    out
}

fn length_of(l: &Matrix, d: &Vec<Cell>) -> (r: Cell)
    requires
        is_square(l@, d@.len()),
    ensures
        forall|m: Model|
            #[trigger] m.of(*r) == rows::sum(
                squared(forward(grid(m, l@), m.row(d@), d@.len())),
                d@.len(),
            ),
{
    let z = solve_lower(l, d);
    let sq = squares(&z);
    let r = row_sum(&sq);
    proof {
        assert forall|m: Model|
            #[trigger] m.of(*r) == rows::sum(
                squared(forward(grid(m, l@), m.row(d@), d@.len())),
                d@.len(),
            ) by {
            assert(m.row(z@) == forward(grid(m, l@), m.row(d@), d@.len()));
            assert(m.row(sq@) == squared(m.row(z@)));
        }
    }
    r
}

/// The divergence of one multivariate normal from another, for one row. Only the lower
/// triangles of the factors are read.
pub fn normal_kl(mp: &Vec<Cell>, p: &Matrix, mq: &Vec<Cell>, q: &Matrix) -> (r: Cell)
    requires
        mp@.len() == mq@.len(),
        is_square(p@, mp@.len()),
        is_square(q@, mp@.len()),
    ensures
        forall|m: Model|
            #[trigger] m.of(*r) == normal_divergence(
                m,
                m.row(mp@),
                grid(m, p@),
                m.row(mq@),
                grid(m, q@),
            ),
{
    let dim: usize = mp.len();
    let gap = difference(mp, mq);
    let quad = length_of(q, &gap);
    let mut trace = number(Scalar::Int(0));
    let mut c: usize = 0;
    while c < dim
        invariant
            c <= dim,
            dim == mp@.len(),
            is_square(p@, dim as nat),
            is_square(q@, dim as nat),
            forall|m: Model|
                #[trigger] m.of(*trace) == column_lengths(grid(m, p@), grid(m, q@), c as nat),
        decreases dim - c,
    {
        let col = column_of(p, c);
        let v = length_of(q, &col);
        let next = bin(Binary::Add, &trace, &v);
        proof {
            assert forall|m: Model|
                #[trigger] m.of(*next) == column_lengths(grid(m, p@), grid(m, q@), c as nat + 1) by {
                assert(m.row(col@) == column(grid(m, p@), c as int));
                assert(m.of(*v) == rows::sum(
                    squared(forward(grid(m, q@), m.row(col@), col@.len())),
                    col@.len(),
                ));
                assert(m.of(*trace) == column_lengths(grid(m, p@), grid(m, q@), c as nat));
            }
        }
        trace = next;
        c += 1;
    }
    let dq = log_diag(q);
    let dp = log_diag(p);
    let gaps = difference(&dq, &dp);
    let logdet = row_sum(&gaps);
    let count = number(Scalar::Count(dim as u64));
    let both = bin(Binary::Add, &trace, &quad);
    let less = bin(Binary::Sub, &both, &count);
    let half = un(Unary::MulScalar(Scalar::Frac(1, 2)), &less);
    let r = bin(Binary::Add, &half, &logdet);
    proof {
        assert forall|m: Model|
            #[trigger] m.of(*r) == normal_divergence(
                m,
                m.row(mp@),
                grid(m, p@),
                m.row(mq@),
                grid(m, q@),
            ) by {
            assert(m.row(gap@) == minus(m.row(mp@), m.row(mq@)));
            assert(m.row(dq@) == log_diagonal(m, grid(m, q@)));
            assert(m.row(dp@) == log_diagonal(m, grid(m, p@)));
            assert(m.row(gaps@) == minus(m.row(dq@), m.row(dp@)));
            assert(m.of(*logdet) == rows::sum(m.row(gaps@), gaps@.len()));
            assert(m.of(*quad) == rows::sum(
                squared(forward(grid(m, q@), m.row(gap@), gap@.len())),
                gap@.len(),
            ));
            assert(m.of(*both) == m.of(*trace) + m.of(*quad));
            assert(m.of(*less) == m.of(*both) - m.of(*count));
            assert(m.of(*half) == m.of(*less) * meaning::scalar(m.f, Scalar::Frac(1, 2)));
        }
    }
    r
}

/// The rows of a square matrix that lies row by row in a buffer, from a position on.
pub fn matrix_at(flat: &Vec<Cell>, base: usize, dim: usize) -> (r: Matrix)
    requires
        base + dim * dim <= flat@.len(),
    ensures
        is_square(r@, dim as nat),
        forall|i: int, j: int|
            0 <= i < dim && 0 <= j < dim ==> #[trigger] r@[i]@[j] == flat@[base + i * dim + j],
{
    let count: usize = flat.len();
    let mut out: Matrix = Vec::new();
    let mut i: usize = 0;
    while i < dim
        invariant
            i <= dim,
            count == flat@.len(),
            base + dim * dim <= count,
            out@.len() == i,
            forall|k: int| 0 <= k < i ==> (#[trigger] out@[k])@.len() == dim,
            forall|k: int, j: int|
                0 <= k < i && 0 <= j < dim ==> #[trigger] out@[k]@[j] == flat@[base + k * dim + j],
        decreases dim - i,
    {
        proof {
            let (d, k) = (dim as int, i as int);
            assert(k * d >= 0 && k * d + d <= d * d) by (nonlinear_arith)
                requires
                    0 <= k < d,
            ;
        }
        let start: usize = base + i * dim;
        let mut row: Vec<Cell> = Vec::new();
        let mut j: usize = 0;
        while j < dim
            invariant
                j <= dim,
                start == base + i * dim,
                count == flat@.len(),
                start + dim <= count,
                row@.len() == j,
                forall|k: int| 0 <= k < j ==> #[trigger] row@[k] == flat@[start + k],
            decreases dim - j,
        {
            row.push(flat[start + j].clone());
            j += 1;
        }
        out.push(row);
        i += 1;
    }
    out
}

} // verus!
