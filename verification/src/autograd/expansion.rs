//! Summing a gradient down is the adjoint of expanding, over the real numbers.

use vstd::prelude::*;

use crate::autograd::reduce;
use crate::buffer;
use crate::buffer::{Buffer, Reader};
use crate::distributions::rows;
use crate::shape;
use crate::tensor;
use crate::tensor::Value;
use crate::term;
use crate::term::Reduce;

verus! {

// -- sums ----------------------------------------------------------------------------------

/// The sum of the first `n` values of a function.
pub open spec fn total(f: spec_fn(int) -> real, n: nat) -> real
    decreases n,
{
    if n == 0 {
        0real
    } else {
        total(f, (n - 1) as nat) + f(n - 1)
    }
}

pub proof fn lemma_total_agrees(f: spec_fn(int) -> real, g: spec_fn(int) -> real, n: nat)
    requires
        forall|i: int| 0 <= i < n ==> #[trigger] f(i) == g(i),
    ensures
        total(f, n) == total(g, n),
    decreases n,
{
    if n > 0 {
        lemma_total_agrees(f, g, (n - 1) as nat);
        assert(f(n - 1) == g(n - 1));
    }
}

proof fn lemma_total_sum(f: spec_fn(int) -> real, s: Seq<real>, n: nat)
    requires
        n <= s.len(),
        forall|i: int| 0 <= i < n ==> #[trigger] s[i] == f(i),
    ensures
        rows::sum(s, n) == total(f, n),
    decreases n,
{
    if n > 0 {
        lemma_total_sum(f, s, (n - 1) as nat);
        assert(s[n - 1] == f(n - 1));
    }
}

pub proof fn lemma_total_adds(f: spec_fn(int) -> real, g: spec_fn(int) -> real, n: nat)
    ensures
        total(|i: int| f(i) + g(i), n) == total(f, n) + total(g, n),
    decreases n,
{
    if n > 0 {
        lemma_total_adds(f, g, (n - 1) as nat);
    }
}

pub proof fn lemma_total_scales(f: spec_fn(int) -> real, c: real, n: nat)
    ensures
        total(|i: int| c * f(i), n) == c * total(f, n),
    decreases n,
{
    if n > 0 {
        lemma_total_scales(f, c, (n - 1) as nat);
        let (a, b) = (total(f, (n - 1) as nat), f(n - 1));
        assert(c * (a + b) == c * a + c * b) by (nonlinear_arith);
    } else {
        assert(c * 0real == 0real) by (nonlinear_arith);
    }
}

proof fn lemma_total_zero(n: nat)
    ensures
        total(|i: int| 0real, n) == 0real,
    decreases n,
{
    if n > 0 {
        lemma_total_zero((n - 1) as nat);
    }
}

/// A sum in two parts.
proof fn lemma_total_joins(f: spec_fn(int) -> real, a: nat, b: nat)
    ensures
        total(f, a + b) == total(f, a) + total(|k: int| f(a + k), b),
    decreases b,
{
    if b > 0 {
        lemma_total_joins(f, a, (b - 1) as nat);
    }
}

/// A sum over rows.
pub proof fn lemma_total_rows(f: spec_fn(int) -> real, a: nat, b: nat)
    ensures
        total(f, a * b) == total(|i: int| total(|k: int| f(i * b + k), b), a),
    decreases a,
{
    let row = |i: int| total(|k: int| f(i * b + k), b);
    if a > 0 {
        let c = (a - 1) as nat;
        lemma_total_rows(f, c, b);
        assert(a * b == c * b + b) by (nonlinear_arith)
            requires
                c == a - 1,
        ;
        lemma_total_joins(f, c * b, b);
        lemma_total_agrees(|k: int| f(c * b + k), |k: int| f((a - 1) * b + k), b);
    } else {
        assert(0 * b == 0) by (nonlinear_arith);
    }
}

/// The order of two sums does not matter.
pub proof fn lemma_total_swaps(f: spec_fn(int, int) -> real, a: nat, b: nat)
    ensures
        total(|i: int| total(|j: int| f(i, j), b), a) == total(
            |j: int| total(|i: int| f(i, j), a),
            b,
        ),
    decreases a,
{
    if a > 0 {
        let c = (a - 1) as nat;
        lemma_total_swaps(f, c, b);
        let (part, last) = (|j: int| total(|i: int| f(i, j), c), |j: int| f(a - 1, j));
        lemma_total_adds(part, last, b);
        lemma_total_agrees(
            |j: int| part(j) + last(j),
            |j: int| total(|i: int| f(i, j), a),
            b,
        );
        lemma_total_agrees(last, |j: int| f(a - 1, j), b);
    } else {
        lemma_total_zero(b);
        lemma_total_agrees(|i: int| 0real, |j: int| total(|i: int| f(i, j), 0), b);
    }
}

// -- places --------------------------------------------------------------------------------

/// Whether two lists of extents have one length, and every extent of the second is one or that
/// of the first.
pub open spec fn under(out: Seq<usize>, d: Seq<usize>) -> bool {
    &&& out.len() == d.len()
    &&& forall|k: int| 0 <= k < d.len() ==> #[trigger] d[k] == 1 || d[k] == out[k]
}

proof fn lemma_positive(d: Seq<usize>)
    requires
        shape::product(d) > 0,
    ensures
        forall|k: int| 0 <= k < d.len() ==> #[trigger] d[k] > 0,
{
    assert forall|k: int| 0 <= k < d.len() implies #[trigger] d[k] > 0 by {
        if d[k] == 0 {
            shape::lemma_product_zero(d, k);
        }
    }
}

proof fn lemma_under_last(out: Seq<usize>, d: Seq<usize>)
    requires
        under(out, d),
        d.len() > 0,
    ensures
        under(out.drop_last(), d.drop_last()),
        d.last() == 1 || d.last() == out.last(),
{
    let (o, e) = (out.drop_last(), d.drop_last());
    assert forall|k: int| 0 <= k < e.len() implies #[trigger] e[k] == 1 || e[k] == o[k] by {
        assert(d[k] == 1 || d[k] == out[k]);
    }
    assert(d[d.len() - 1] == 1 || d[d.len() - 1] == out[d.len() - 1]);
}

proof fn lemma_split_last(i: int, d: Seq<usize>)
    requires
        d.len() > 0,
        0 <= i < shape::product(d),
    ensures
        d.last() > 0,
        0 <= i / d.last() as int,
        i / (d.last() as int) < shape::product(d.drop_last()),
        0 <= i % (d.last() as int) < d.last(),
{
    let (p, n) = (shape::product(d.drop_last()) as int, d.last() as int);
    assert(n > 0) by (nonlinear_arith)
        requires
            0 <= i < p * n,
            p >= 0,
            n >= 0,
    ;
    vstd::arithmetic::div_mod::lemma_fundamental_div_mod(i, n);
    vstd::arithmetic::div_mod::lemma_div_pos_is_pos(i, n);
    let q = i / n;
    assert(q < p) by (nonlinear_arith)
        requires
            i == n * q + i % n,
            0 <= i % n,
            i < p * n,
            n > 0,
    ;
}

/// A place lies inside.
proof fn lemma_place_inside(i: int, out: Seq<usize>, d: Seq<usize>)
    requires
        under(out, d),
        0 <= i < shape::product(out),
    ensures
        0 <= shape::place(i, out, d) < shape::product(d),
    decreases out.len(),
{
    if out.len() > 0 {
        lemma_under_last(out, d);
        lemma_split_last(i, out);
        let n = out.last() as int;
        lemma_place_inside(i / n, out.drop_last(), d.drop_last());
        let (q, w) = (shape::place(i / n, out.drop_last(), d.drop_last()), d.last() as int);
        let p = shape::product(d.drop_last()) as int;
        let r = if w == 1 {
            0
        } else {
            i % n
        };
        assert(0 <= q * w + r < p * w) by (nonlinear_arith)
            requires
                0 <= q < p,
                0 <= r < w,
        ;
    }
}

/// Reading through a shape in between.
proof fn lemma_place_composes(i: int, out: Seq<usize>, mid: Seq<usize>, d: Seq<usize>)
    requires
        under(out, mid),
        under(mid, d),
        0 <= i < shape::product(out),
    ensures
        shape::place(shape::place(i, out, mid), mid, d) == shape::place(i, out, d),
    decreases out.len(),
{
    if out.len() > 0 {
        lemma_under_last(out, mid);
        lemma_under_last(mid, d);
        lemma_split_last(i, out);
        let (n, w) = (out.last() as int, mid.last() as int);
        let (o, m, e) = (out.drop_last(), mid.drop_last(), d.drop_last());
        lemma_place_composes(i / n, o, m, e);
        let q = shape::place(i / n, o, m);
        let r = if w == 1 {
            0
        } else {
            i % n
        };
        vstd::arithmetic::div_mod::lemma_fundamental_div_mod_converse(q * w + r, w, q, r);
        if w == 1 {
            assert(d.last() == 1);
        }
    }
}

/// The place of an element once one axis is reduced to one.
proof fn lemma_place_of_axis(i: int, d: Seq<usize>, axis: int)
    requires
        0 <= axis < d.len(),
        0 <= i < shape::product(d),
    ensures
        ({
            let (n, w) = (d[axis] as int, buffer::inner(d, axis));
            &&& shape::place(i, d, d.update(axis, 1usize)) == (i / (n * w)) * w + i % w
            &&& w > 0
            &&& n > 0
        }),
    decreases d.len(),
{
    lemma_split_last(i, d);
    lemma_positive(d);
    let e = d.update(axis, 1usize);
    let (o, l) = (d.drop_last(), d.last() as int);
    let q = i / l;
    if axis == d.len() - 1 {
        assert(d.skip(axis + 1) =~= Seq::<usize>::empty());
        assert(e.drop_last() =~= o);
        shape::lemma_place_same(q, o);
        assert(l * 1 == l);
        assert(i % 1 == 0);
    } else {
        assert(e.drop_last() =~= o.update(axis, 1usize));
        assert(e.last() == d.last());
        lemma_place_of_axis(q, o, axis);
        let (n, v) = (d[axis] as int, buffer::inner(o, axis));
        assert(d.skip(axis + 1).drop_last() =~= o.skip(axis + 1));
        assert(d.skip(axis + 1).last() == d.last());
        let w = buffer::inner(d, axis);
        assert(w == v * l);
        let r = if l == 1 {
            0
        } else {
            i % l
        };
        assert(r == i % l);
        // Dividing by `n v l` is dividing by `l`, then by `n v`.
        assert(n * v > 0 && l > 0 && v > 0) by (nonlinear_arith)
            requires
                n > 0,
                v > 0,
                l > 0,
        ;
        vstd::arithmetic::div_mod::lemma_div_denominator(i, l, n * v);
        assert(l * (n * v) == n * w) by (nonlinear_arith)
            requires
                w == v * l,
        ;
        vstd::arithmetic::div_mod::lemma_breakdown(i, l, v);
        assert(l * v == w) by (nonlinear_arith)
            requires
                w == v * l,
        ;
        let (a, b) = (q / (n * v), q % v);
        assert((a * v + b) * l + r == a * w + (l * b + r)) by (nonlinear_arith)
            requires
                w == v * l,
        ;
    }
}

// -- one reduction -------------------------------------------------------------------------

proof fn lemma_outer(d: Seq<usize>, axis: int) -> (o: nat)
    requires
        0 <= axis < d.len(),
    ensures
        shape::product(d) == o * d[axis] * buffer::inner(d, axis),
        shape::product(d.update(axis, 1usize)) == o * buffer::inner(d, axis),
    decreases d.len(),
{
    let e = d.update(axis, 1usize);
    let h = d.drop_last();
    if axis == d.len() - 1 {
        assert(d.skip(axis + 1) =~= Seq::<usize>::empty());
        assert(e.drop_last() =~= h);
        let o = shape::product(h);
        assert(o * d[axis] * 1 == o * d[axis] && o * 1 == o) by (nonlinear_arith);
        o
    } else {
        let o = lemma_outer(h, axis);
        assert(e.drop_last() =~= h.update(axis, 1usize));
        assert(d.skip(axis + 1).drop_last() =~= h.skip(axis + 1));
        let (n, v, l) = (d[axis] as int, buffer::inner(h, axis), d.last() as int);
        assert((o * n * v) * l == o * n * (v * l) && (o * v) * l == o * (v * l)) by (nonlinear_arith);
        o
    }
}

/// Summing along an axis is the adjoint of stretching it.
proof fn lemma_reduce_is_adjoint(b: Buffer, axis: int, y: spec_fn(int) -> real)
    requires
        0 <= axis < b.dims.len(),
        shape::product(b.dims) > 0,
    ensures
        ({
            let e = b.dims.update(axis, 1usize);
            total(
                |i: int| y(shape::place(i, b.dims, e)) * (b.at)(i),
                shape::product(b.dims),
            ) == total(
                |i: int| y(i) * buffer::reduced(Reduce::Sum, buffer::fibre(b, axis, i)),
                shape::product(e),
            )
        }),
{
    let (d, e) = (b.dims, b.dims.update(axis, 1usize));
    let o = lemma_outer(d, axis);
    lemma_place_of_axis(0, d, axis);
    let (n, w) = (d[axis] as nat, buffer::inner(d, axis) as nat);
    let f = |i: int| y(shape::place(i, d, e)) * (b.at)(i);
    let g = |i: int| y(i) * buffer::reduced(Reduce::Sum, buffer::fibre(b, axis, i));
    assert(o * n * w == o * (n * w)) by (nonlinear_arith);
    lemma_total_rows(f, o, n * w);
    lemma_total_rows(g, o, w);
    let left = |a: int| total(|k: int| f(a * (n * w) + k), n * w);
    let right = |a: int| total(|k: int| g(a * w + k), w);
    assert forall|a: int| 0 <= a < o implies #[trigger] left(a) == right(a) by {
        let fa = |k: int| f(a * (n * w) + k);
        lemma_total_rows(fa, n, w);
        let cell = |j: int, k: int| y(a * w + k) * (b.at)((a * n + j) * w + k);
        let (before, after) = (
            |j: int| total(|k: int| fa(j * w + k), w),
            |j: int| total(|k: int| cell(j, k), w),
        );
        assert forall|j: int| 0 <= j < n implies #[trigger] before(j) == after(j) by {
            let (p, q) = (|k: int| fa(j * w + k), |k: int| cell(j, k));
            assert forall|k: int| 0 <= k < w implies #[trigger] p(k) == q(k) by {
                lemma_cell(d, axis, o, a, j, k);
            }
            lemma_total_agrees(p, q, w);
        }
        lemma_total_agrees(before, after, n);
        lemma_total_swaps(cell, n, w);
        let (p, q) = (|k: int| total(|j: int| cell(j, k), n), |k: int| g(a * w + k));
        assert forall|k: int| 0 <= k < w implies #[trigger] p(k) == q(k) by {
            let c = y(a * w + k);
            let h = |j: int| (b.at)((a * n + j) * w + k);
            lemma_total_scales(h, c, n);
            lemma_total_agrees(|j: int| c * h(j), |j: int| cell(j, k), n);
            vstd::arithmetic::div_mod::lemma_fundamental_div_mod_converse(
                a * w + k,
                w as int,
                a,
                k,
            );
            let s = buffer::fibre(b, axis, a * w + k);
            lemma_total_sum(h, s, n);
        }
        lemma_total_agrees(p, q, w);
    }
    lemma_total_agrees(left, right, o);
}

proof fn lemma_cell(d: Seq<usize>, axis: int, o: nat, a: int, j: int, k: int)
    requires
        0 <= axis < d.len(),
        shape::product(d) == o * d[axis] * buffer::inner(d, axis),
        0 <= a < o,
        0 <= j < d[axis],
        0 <= k < buffer::inner(d, axis),
    ensures
        ({
            let (n, w) = (d[axis] as int, buffer::inner(d, axis));
            let i = a * (n * w) + (j * w + k);
            &&& i == (a * n + j) * w + k
            &&& shape::place(i, d, d.update(axis, 1usize)) == a * w + k
        }),
{
    let (n, w) = (d[axis] as int, buffer::inner(d, axis));
    let i = a * (n * w) + (j * w + k);
    let m = n * w;
    let s = j * w + k;
    assert(0 <= s < m) by (nonlinear_arith)
        requires
            0 <= j < n,
            0 <= k < w,
            s == j * w + k,
            m == n * w,
    ;
    assert(0 <= i < o * n * w) by (nonlinear_arith)
        requires
            0 <= a < o,
            0 <= s < m,
            m == n * w,
            i == a * m + s,
    ;
    lemma_place_of_axis(i, d, axis);
    vstd::arithmetic::div_mod::lemma_fundamental_div_mod_converse(i, m, a, s);
    assert(a * m + s == (a * n + j) * w + k) by (nonlinear_arith)
        requires
            m == n * w,
            s == j * w + k,
    ;
    vstd::arithmetic::div_mod::lemma_fundamental_div_mod_converse(i, w, a * n + j, k);
}

// -- runs of axes --------------------------------------------------------------------------

proof fn lemma_update_under(d: Seq<usize>, axis: int)
    requires
        0 <= axis < d.len(),
    ensures
        under(d, d.update(axis, 1usize)),
{
}

proof fn lemma_kept_under(r: Seq<(nat, bool)>, k: nat)
    requires
        k <= r.len(),
    ensures
        under(reduce::run_dims(r), reduce::kept_dims(r, k)),
{
}

/// What is left after the first `k` runs have gone.
proof fn lemma_runs_are_adjoint(w: Reader, v: Value, r: Seq<(nat, bool)>, k: nat, y: spec_fn(int) -> real)
    requires
        w.fits(v),
        v.dims == reduce::run_dims(r),
        shape::product(v.dims) > 0,
        k <= r.len() <= usize::MAX,
    ensures
        ({
            let s = reduce::sum_runs(v, r, k);
            let d = reduce::kept_dims(r, k);
            &&& w.of(s.term).dims == d
            &&& shape::product(d) > 0
            &&& total(
                |i: int| y(shape::place(i, v.dims, d)) * w.at(v, i),
                shape::product(v.dims),
            ) == total(|i: int| y(i) * w.at(s, i), shape::product(d))
        }),
    decreases k,
{
    let s = reduce::sum_runs(v, r, k);
    let d = reduce::kept_dims(r, k);
    let out = v.dims;
    if k == 0 {
        assert(d =~= out);
        let (f, g) = (
            |i: int| y(shape::place(i, out, d)) * w.at(v, i),
            |i: int| y(i) * w.at(s, i),
        );
        assert forall|i: int| 0 <= i < shape::product(out) implies #[trigger] f(i) == g(i) by {
            shape::lemma_place_same(i, out);
        }
        lemma_total_agrees(f, g, shape::product(out));
    } else {
        let c = (k - 1) as nat;
        let before = reduce::sum_runs(v, r, c);
        let mid = reduce::kept_dims(r, c);
        if r[c as int].1 {
            let z = |i: int| y(shape::place(i, mid, d));
            lemma_runs_are_adjoint(w, v, r, c, z);
            assert(d =~= mid.update(c as int, 1usize));
            let b = w.of(before.term);
            lemma_reduce_is_adjoint(b, c as int, y);
            lemma_kept_under(r, c);
            lemma_update_under(mid, c as int);
            let (f, g) = (
                |i: int| y(shape::place(i, out, d)) * w.at(v, i),
                |i: int| z(shape::place(i, out, mid)) * w.at(v, i),
            );
            assert forall|i: int| 0 <= i < shape::product(out) implies #[trigger] f(i) == g(i) by {
                lemma_place_composes(i, out, mid, d);
            }
            lemma_total_agrees(f, g, shape::product(out));
            let (p, q) = (
                |i: int| y(shape::place(i, mid, d)) * (b.at)(i),
                |i: int| z(i) * w.at(before, i),
            );
            lemma_total_agrees(p, q, shape::product(mid));
            let (x, u) = (
                |i: int| y(i) * buffer::reduced(Reduce::Sum, buffer::fibre(b, c as int, i)),
                |i: int| y(i) * w.at(s, i),
            );
            let axis = c as usize;
            assert(axis as int == c);
            assert(s.term == term::Term::Reduce(Reduce::Sum, axis, std::sync::Arc::new(before.term)));
            assert forall|i: int| 0 <= i < shape::product(d) implies #[trigger] x(i) == u(i) by {
                assert(w.at(s, i) == buffer::reduced(
                    Reduce::Sum,
                    buffer::fibre(b, axis as int, i),
                ));
            }
            lemma_total_agrees(x, u, shape::product(d));
            let o = lemma_outer(mid, c as int);
            lemma_place_of_axis(0, mid, c as int);
            lemma_place_inside(0, mid, d);
        } else {
            lemma_runs_are_adjoint(w, v, r, c, y);
            assert(d =~= mid);
        }
    }
}

/// The runs of a prefix of the axes, and what is kept of them.
proof fn lemma_runs_read_alike(i: int, d: Seq<usize>, padded: Seq<usize>, n: nat)
    requires
        under(d, padded),
        n <= d.len(),
        reduce::runs_fit(d, padded, d.len()),
        0 <= i < shape::product(d.take(n as int)),
    ensures
        ({
            let r = reduce::runs(d, padded, n);
            shape::place(i, reduce::run_dims(r), reduce::kept_dims(r, r.len())) == shape::place(
                i,
                d.take(n as int),
                padded.take(n as int),
            )
        }),
    decreases n,
{
    let r = reduce::runs(d, padded, n);
    if n == 0 {
        assert(r.len() == 0);
    } else {
        let m = (n - 1) as nat;
        let before = reduce::runs(d, padded, m);
        let (o, q) = (d.take(n as int), padded.take(n as int));
        assert(o.drop_last() =~= d.take(m as int));
        assert(q.drop_last() =~= padded.take(m as int));
        lemma_split_last(i, o);
        let e = d[m as int] as int;
        assert(o.last() == e);
        lemma_runs_read_alike(i / e, d, padded, m);
        assert(padded[m as int] == 1 || padded[m as int] == d[m as int]);
        let drop = reduce::drops(d, padded, m as int);
        let (rd, rk) = (reduce::run_dims(r), reduce::kept_dims(r, r.len()));
        let (bd, bk) = (reduce::run_dims(before), reduce::kept_dims(before, before.len()));
        if before.len() > 0 && before.last().1 == drop {
            let big = before.last().0 as int;
            assert(reduce::runs(d, padded, m)[before.len() - 1].0 <= usize::MAX);
            assert(reduce::runs(d, padded, n)[r.len() - 1].0 <= usize::MAX);
            assert(r.last().0 == big * e);
            assert(rd.drop_last() =~= bd.drop_last());
            assert(rk.drop_last() =~= bk.drop_last());
            lemma_run_positive(d, padded, m);
            lemma_merged_axes(i, bd.drop_last(), bk.drop_last(), big, e, drop);
            assert(bd.last() == big && rd.last() == big * e);
        } else {
            assert(r == before.push((e as nat, drop)));
            assert(rd.drop_last() =~= bd);
            assert(rk.drop_last() =~= bk);
            if !drop {
                assert(padded[m as int] == d[m as int]);
            }
            if e == 1 {
                assert(i % 1 == 0);
            }
        }
    }
}

proof fn lemma_run_positive(d: Seq<usize>, padded: Seq<usize>, n: nat)
    requires
        n <= d.len(),
        shape::product(d.take(n as int)) > 0,
    ensures
        forall|k: int| 0 <= k < reduce::runs(d, padded, n).len() ==> (#[trigger] reduce::runs(
            d,
            padded,
            n,
        )[k]).0 > 0,
    decreases n,
{
    if n > 0 {
        let m = (n - 1) as nat;
        assert(d.take(n as int).drop_last() =~= d.take(m as int));
        let (p, e) = (shape::product(d.take(m as int)), d[m as int] as nat);
        assert(p > 0 && e > 0) by (nonlinear_arith)
            requires
                p * e > 0,
                p >= 0,
                e >= 0,
        ;
        lemma_run_positive(d, padded, m);
        let before = reduce::runs(d, padded, m);
        if before.len() > 0 {
            let x = before.last().0;
            assert(before[before.len() - 1].0 > 0);
            assert(x * e > 0) by (nonlinear_arith)
                requires
                    x > 0,
                    e > 0,
            ;
        }
    }
}

/// Two axes that share a fate read alike as one.
proof fn lemma_merged_axes(i: int, out: Seq<usize>, d: Seq<usize>, big: int, e: int, drop: bool)
    requires
        i >= 0,
        big > 0,
        e > 0,
    ensures
        ({
            let q = shape::place(i / (big * e), out, d);
            let p = shape::place((i / e) / big, out, d);
            &&& q == p
            &&& (p * big + (i / e) % big) * e + i % e == q * (big * e) + i % (big * e)
        }),
{
    vstd::arithmetic::div_mod::lemma_div_denominator(i, e, big);
    assert(e * big == big * e) by (nonlinear_arith);
    vstd::arithmetic::div_mod::lemma_breakdown(i, e, big);
    let (p, s, r) = (shape::place((i / e) / big, out, d), (i / e) % big, i % e);
    assert((p * big + s) * e + r == p * (big * e) + (e * s + r)) by (nonlinear_arith);
}

/// Leading ones are read as if they were not there.
proof fn lemma_seated_reads_alike(i: int, d: Seq<usize>, target: Seq<usize>)
    requires
        reduce::sums_to(d, target) || target.len() <= d.len() || reduce::is_taller(target, d.len()),
    ensures
        shape::place(i, d, reduce::seated(target, d.len())) == shape::place(i, d, target),
    decreases d.len(),
{
    let p = reduce::seated(target, d.len());
    if d.len() > 0 && (target.len() <= d.len() || reduce::is_taller(target, d.len())) {
        let (e, n) = (d.drop_last(), d.last() as int);
        if target.len() == 0 {
            assert(p.last() == 1);
            assert(p.drop_last() =~= reduce::seated(target, e.len()));
            lemma_seated_reads_alike(i / n, e, target);
        } else {
            let t = target.drop_last();
            if reduce::is_taller(target, d.len()) {
                assert forall|k: int| 0 <= k < t.len() - e.len() implies #[trigger] t[k] == 1 by {
                    assert(target[k] == 1);
                }
            }
            assert(p.drop_last() =~= reduce::seated(t, e.len()));
            assert(p.last() == target.last());
            lemma_seated_reads_alike(i / n, e, t);
        }
    }
}

/// Summing a gradient down undoes broadcasting: it is the adjoint of expanding. For every `x`
/// of the target's shape, the sum of `x` expanded times the gradient is the sum of `x` times
/// what the gradient is summed to. In particular, with `x` all ones, the sum is preserved.
pub proof fn law_reducing_is_the_adjoint_of_expanding(
    w: Reader,
    g: Value,
    target: Seq<usize>,
    x: spec_fn(int) -> real,
)
    requires
        w.fits(g),
        reduce::sums_to(g.dims, target),
        shape::fits(g.dims),
        g.dims.len() <= usize::MAX,
        shape::product(g.dims) > 0,
    ensures
        ({
            let r = reduce::reduce_to(g, target);
            &&& r is Ok
            &&& total(
                |i: int| x(shape::place(i, g.dims, target)) * w.at(g, i),
                shape::product(g.dims),
            ) == total(|i: int| x(i) * w.at(r->Ok_0, i), shape::product(target))
        }),
{
    let d = g.dims;
    let rank = d.len();
    lemma_positive(d);
    reduce::law_reduce_restores_shape(g, target);
    let r = reduce::reduce_to(g, target)->Ok_0;
    let f = |i: int| x(shape::place(i, d, target)) * w.at(g, i);
    let h = |i: int| x(i) * w.at(r, i);
    if d == target {
        assert forall|i: int| 0 <= i < shape::product(d) implies #[trigger] f(i) == h(i) by {
            shape::lemma_place_same(i, d);
        }
        lemma_total_agrees(f, h, shape::product(d));
    } else {
        let padded = reduce::seated(target, rank);
        reduce::lemma_seated(d, target);
        assert(under(d, padded));
        reduce::lemma_runs_fit(d, padded);
        let rs = reduce::runs(d, padded, rank);
        let v = tensor::reshape_of(g, reduce::run_dims(rs))->Ok_0;
        term::law_dims_entries(reduce::run_dims(rs));
        term::law_dims_entries(target);
        reduce::lemma_run_counts(d, target);
        let kept = reduce::kept_dims(rs, rs.len());
        lemma_runs_are_adjoint(w, v, rs, rs.len(), x);
        let p = |i: int| x(shape::place(i, v.dims, kept)) * w.at(v, i);
        assert(d.take(rank as int) =~= d);
        assert(padded.take(rank as int) =~= padded);
        assert forall|i: int| 0 <= i < shape::product(d) implies #[trigger] f(i) == p(i) by {
            lemma_runs_read_alike(i, d, padded, rank);
            lemma_seated_reads_alike(i, d, target);
        }
        lemma_total_agrees(f, p, shape::product(d));
        let s = reduce::sum_runs(v, rs, rs.len());
        let u = |i: int| x(i) * w.at(s, i);
        lemma_total_agrees(u, h, shape::product(target));
    }
}

} // verus!
