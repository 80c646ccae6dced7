//! What rotary positions do to queries and keys, over the real numbers.

use vstd::prelude::*;

use super::attention_laws::{cell, lemma_coordinates, lemma_four, lemma_mask_place, lemma_step, within};
use super::rope;
use super::rope::RotaryEmbedding;
use super::value_readings::{lemma_each, lemma_pair, lemma_reshaped};
use crate::autograd::fused;
use crate::autograd::graph::Tape;
use crate::autograd::ops;
use crate::autograd::rule;
use crate::autograd::var;
use crate::autograd::var::Traced;
use crate::buffer;
use crate::buffer::Reader;
use crate::distributions::readings;
use crate::error::Fault;
use crate::layer_kernels;
use crate::meaning;
use crate::shape;
use crate::tensor;
use crate::tensor::Value;
use crate::term;
use crate::term::{Binary, Fused, Unary};

verus! {

/// The angle by which pair `j` of position `p` is turned.
pub open spec fn angle(w: Reader, e: RotaryEmbedding, p: int, j: int) -> real {
    layer_kernels::rotary_angle(w.m.f, e.base, e.dim as int, p, j)
}

/// A table of the positions from an offset on.
#[verifier::spinoff_prover]
proof fn lemma_table(w: Reader, e: RotaryEmbedding, op: Unary, offset: usize, n: usize, p: int, j: int)
    requires
        offset + n <= e.max_len,
        0 <= p < n,
        0 <= j < e.dim / 2,
        n * (e.dim / 2) <= usize::MAX,
        e.dim <= u64::MAX,
    ensures
        ({
            let half = (e.dim / 2) as int;
            let v = rope::table_of(e, op, offset, n);
            &&& v is Ok
            &&& v->Ok_0.dims == seq![1usize, 1usize, n, (e.dim / 2) as usize]
            &&& w.fits(v->Ok_0)
            &&& w.at(v->Ok_0, p * half + j) == meaning::unary(
                w.m.f,
                op,
                angle(w, e, offset + p, j),
            )
        }),
{
    reveal(layer_kernels::written);
    let h = (e.dim / 2) as usize;
    let half = h as int;
    let d = seq![e.max_len, h];
    let a = rope::angles_of(e);
    readings::lemma_kernel(w, Fused::RotaryAngles(e.base, e.dim as u64), Seq::empty(), d);
    assert(w.of(a.term).dims == d);
    let u = tensor::unary_of(op, a);
    let s = tensor::slice_of(u, 0, offset, n)->Ok_0;
    assert(s.dims =~= seq![n, h]);
    let one = seq![1usize, 1usize, n, h];
    lemma_four(one);
    let none = Seq::<usize>::empty();
    assert(seq![n, h].drop_last() =~= seq![n]);
    assert(seq![n].drop_last() =~= none);
    let z = shape::product(none);
    assert(z * n as nat == n as nat && z * h as nat == h as nat) by (nonlinear_arith)
        requires
            z == 1,
    ;
    assert(shape::product(seq![n]) == n);
    assert(shape::product(seq![n, h]) == n * h);
    assert(1 * 1 * n * h == n * h) by (nonlinear_arith);
    let i = p * half + j;
    lemma_step(p, n as int, j, half);
    lemma_reshaped(w, s, one, i);
    assert(d.skip(1) =~= seq![h]);
    assert(seq![h].drop_last() =~= none);
    assert(buffer::inner(d, 0) == half);
    vstd::arithmetic::div_mod::lemma_fundamental_div_mod_converse(i, n * half, 0, i);
    let at = offset * half + i;
    assert((0 * e.max_len + offset) * half + i == at);
    assert(w.at(s, i) == w.at(u, at));
    lemma_each(w, op, a, at);
    assert(at == (offset + p) * half + j) by (nonlinear_arith)
        requires
            at == offset * half + i,
            i == p * half + j,
    ;
    vstd::arithmetic::div_mod::lemma_fundamental_div_mod_converse(at, half, offset + p, j);
}

/// A half of the last of four axes.
#[verifier::spinoff_prover]
proof fn lemma_half(w: Reader, t: Tape, x: Traced, start: usize, h: usize, a: int, b: int, c: int, j: int)
    requires
        x.value.dims.len() == 4,
        w.fits(x.value),
        start + h <= x.value.dims[3],
        h < x.value.dims[3],
        0 <= a < x.value.dims[0],
        0 <= b < x.value.dims[1],
        0 <= c < x.value.dims[2],
        0 <= j < h,
    ensures
        ({
            let s = x.value.dims;
            let out = seq![s[0], s[1], s[2], h];
            let r = ops::slice_op(t, x, 3, start, h);
            &&& r is Ok
            &&& r->Ok_0.1.value.dims == out
            &&& w.fits(r->Ok_0.1.value)
            &&& w.at(r->Ok_0.1.value, cell(out, a, b, c, j)) == w.at(
                x.value,
                cell(s, a, b, c, start + j),
            )
        }),
{
    broadcast use var::lemma_record_value;

    let s = x.value.dims;
    let out = seq![s[0], s[1], s[2], h];
    let v = tensor::slice_of(x.value, 3, start, h)->Ok_0;
    assert(v.dims =~= out);
    lemma_four(s);
    let (n1, n2, n3, k) = (s[1] as int, s[2] as int, s[3] as int, h as int);
    let q = (a * n1 + b) * n2 + c;
    lemma_step(a, s[0] as int, b, n1);
    lemma_step(a * n1 + b, s[0] * s[1], c, n2);
    lemma_step(q, s[0] * s[1] * s[2], j, k);
    let i = q * k + j;
    assert(w.of(v.term).dims =~= out);
    assert(w.at(v, i) == w.at(x.value, buffer::sliced(s, 3, start as int, k, i)));
    assert(k * 1 == k && (q * n3 + start) * 1 + j == q * n3 + (start + j)) by (nonlinear_arith);
}

/// A function of a tensor and of a table of positions.
#[verifier::spinoff_prover]
proof fn lemma_tabled(w: Reader, op: Binary, x: Value, v: Value, a: int, b: int, c: int, j: int)
    requires
        within(x.dims, a, b, c, j),
        w.fits(x),
        w.fits(v),
        v.dims == seq![1usize, 1usize, x.dims[2], x.dims[3]],
    ensures
        ({
            let d = x.dims;
            let r = tensor::binary_of(op, x, v);
            let i = cell(d, a, b, c, j);
            &&& r is Ok
            &&& r->Ok_0.dims == d
            &&& w.fits(r->Ok_0)
            &&& w.at(r->Ok_0, i) == meaning::binary(
                w.m.f,
                op,
                w.at(x, i),
                w.at(v, c * d[3] + j),
            )
        }),
{
    let (d, one) = (x.dims, v.dims);
    lemma_coordinates(d, a, b, c, j);
    assert(shape::left_padded(d, 4) =~= d);
    assert(shape::left_padded(one, 4) =~= one);
    assert(shape::broadcast_dims(d, one) =~= d);
    assert(shape::compatible(d, one));
    shape::lemma_place_same(cell(d, a, b, c, j), d);
    lemma_mask_place(d, a, b, c, j);
    let r = tensor::binary_of(op, x, v)->Ok_0;
    assert(w.of(r.term).dims == d);
}

/// Two halves joined along the last of four axes.
#[verifier::spinoff_prover]
proof fn lemma_joined(w: Reader, t: Tape, p: Traced, q: Traced, a: int, b: int, c: int, j: int)
    requires
        p.value.dims.len() == 4,
        q.value.dims == p.value.dims,
        w.fits(p.value),
        w.fits(q.value),
        p.value.dims[3] + p.value.dims[3] <= usize::MAX,
        0 <= a < p.value.dims[0],
        0 <= b < p.value.dims[1],
        0 <= c < p.value.dims[2],
        0 <= j < p.value.dims[3],
    ensures
        ({
            let s = p.value.dims;
            let out = seq![s[0], s[1], s[2], (s[3] + s[3]) as usize];
            let r = ops::cat_op(t, seq![p, q], 3);
            &&& r is Ok
            &&& r->Ok_0.1.value.dims == out
            &&& w.at(r->Ok_0.1.value, cell(out, a, b, c, j)) == w.at(p.value, cell(s, a, b, c, j))
            &&& w.at(r->Ok_0.1.value, cell(out, a, b, c, s[3] + j)) == w.at(
                q.value,
                cell(s, a, b, c, j),
            )
        }),
{
    broadcast use var::lemma_record_value;

    let s = p.value.dims;
    let h = s[3];
    let all = (h + h) as usize;
    let out = seq![s[0], s[1], s[2], all];
    let parts = seq![p, q];
    let vs = ops::plain_values(parts);
    assert(vs =~= seq![p.value, q.value]);
    let ex = tensor::extents(vs, 3);
    assert(ex =~= seq![h, h]);
    assert(ex.drop_last() =~= seq![h]);
    assert(seq![h].drop_last() =~= Seq::<usize>::empty());
    reveal_with_fuel(tensor::total, 3);
    assert(tensor::total(ex) == h + h);
    let v = tensor::cat_of(vs, 3)->Ok_0;
    assert(v.dims =~= out);
    let terms = vs.map_values(|x: Value| x.term);
    assert(terms =~= seq![p.value.term, q.value.term]);
    buffer::lemma_all(w, terms);
    let held = buffer::all(w, term::terms(terms));
    let (x, z) = (w.of(p.value.term), w.of(q.value.term));
    assert(held =~= seq![x, z]);
    let rest = held.drop_first();
    assert(rest =~= seq![z]);
    assert(rest.drop_first() =~= Seq::empty());
    reveal_with_fuel(buffer::extent, 3);
    assert(buffer::extent(held, 3) == all);
    lemma_four(s);
    let (n1, n2, n) = (s[1] as int, s[2] as int, all as int);
    let o = (a * n1 + b) * n2 + c;
    lemma_step(a, s[0] as int, b, n1);
    lemma_step(a * n1 + b, s[0] * s[1], c, n2);
    lemma_step(o, s[0] * s[1] * s[2], j, n);
    lemma_step(o, s[0] * s[1] * s[2], h + j, n);
    assert(n * 1 == n) by (nonlinear_arith);
    let (i, k) = (o * n + j, o * n + (h + j));
    assert(i / 1 == i && k / 1 == k && i % 1 == 0 && k % 1 == 0) by (nonlinear_arith);
    reveal_with_fuel(buffer::joined, 3);
    assert(w.at(v, i) == buffer::joined(held, 3, o, j, 0, 1));
    assert(w.at(v, k) == buffer::joined(held, 3, o, h + j, 0, 1));
    assert((o * h + j) * 1 + 0 == o * h + j) by (nonlinear_arith);
}

/// Rotary positions turn pair `j` of every head at position `p`, counted from the offset, by
/// the angle of that position and pair: the two halves of the head are the two sides of the
/// pairs.
#[verifier::spinoff_prover]
pub proof fn law_rotary_positions_turn_pairs(
    w: Reader,
    t: Tape,
    e: RotaryEmbedding,
    x: Traced,
    offset: usize,
    a: int,
    b: int,
    p: int,
    j: int,
)
    requires
        x.value.dims.len() == 4,
        w.fits(x.value),
        x.value.dims[3] == e.dim,
        e.dim % 2 == 0,
        e.dim <= u64::MAX,
        offset + x.value.dims[2] <= e.max_len,
        x.value.dims[2] * (e.dim / 2) <= usize::MAX,
        0 <= a < x.value.dims[0],
        0 <= b < x.value.dims[1],
        0 <= p < x.value.dims[2],
        0 <= j < e.dim / 2,
    ensures
        ({
            let s = x.value.dims;
            let half = (e.dim / 2) as int;
            let y = rope::rotary_op(t, e, x, offset);
            let (lo, hi) = (w.at(x.value, cell(s, a, b, p, j)), w.at(x.value, cell(s, a, b, p, half + j)));
            let by = angle(w, e, offset + p, j);
            let (c, d) = ((w.m.f.cos)(by), (w.m.f.sin)(by));
            &&& y is Ok
            &&& y->Ok_0.1.value.dims == s
            &&& w.at(y->Ok_0.1.value, cell(s, a, b, p, j)) == lo * c - hi * d
            &&& w.at(y->Ok_0.1.value, cell(s, a, b, p, half + j)) == lo * d + hi * c
        }),
{
    broadcast use var::lemma_record_value;

    let s = x.value.dims;
    let h = (e.dim / 2) as usize;
    let n = s[2];
    lemma_table(w, e, Unary::Cos, offset, n, p, j);
    lemma_table(w, e, Unary::Sin, offset, n, p, j);
    let cos = rope::table_of(e, Unary::Cos, offset, n)->Ok_0;
    let sin = rope::table_of(e, Unary::Sin, offset, n)->Ok_0;
    lemma_composed(w, t, x, cos, sin, h, a, b, p, j);
}

/// A rotation one primitive at a time.
#[verifier::spinoff_prover]
proof fn lemma_composed(w: Reader, t: Tape, x: Traced, cos: Value, sin: Value, h: usize, a: int, b: int, p: int, j: int)
    requires
        x.value.dims.len() == 4,
        w.fits(x.value),
        x.value.dims[3] == h + h,
        cos.dims == seq![1usize, 1usize, x.value.dims[2], h],
        sin.dims == cos.dims,
        w.fits(cos),
        w.fits(sin),
        0 <= a < x.value.dims[0],
        0 <= b < x.value.dims[1],
        0 <= p < x.value.dims[2],
        0 <= j < h,
    ensures
        ({
            let s = x.value.dims;
            let y = fused::rotate_composed_op(t, x, ops::untracked(cos), ops::untracked(sin));
            let (lo, hi) = (w.at(x.value, cell(s, a, b, p, j)), w.at(x.value, cell(s, a, b, p, h + j)));
            let (c, d) = (w.at(cos, p * h + j), w.at(sin, p * h + j));
            &&& y is Ok
            &&& y->Ok_0.1.value.dims == s
            &&& w.at(y->Ok_0.1.value, cell(s, a, b, p, j)) == lo * c - hi * d
            &&& w.at(y->Ok_0.1.value, cell(s, a, b, p, h + j)) == lo * d + hi * c
        }),
{
    broadcast use var::lemma_record_value;

    let s = x.value.dims;
    let out = seq![s[0], s[1], s[2], h];
    let (cv, sv) = (ops::untracked(cos), ops::untracked(sin));
    lemma_half(w, t, x, 0, h, a, b, p, j);
    let (t1, x1) = ops::slice_op(t, x, 3, 0, h)->Ok_0;
    lemma_half(w, t1, x, h, h, a, b, p, j);
    let (t2, x2) = ops::slice_op(t1, x, 3, h, h)->Ok_0;
    lemma_tabled(w, Binary::Mul, x1.value, cos, a, b, p, j);
    lemma_tabled(w, Binary::Mul, x2.value, sin, a, b, p, j);
    lemma_tabled(w, Binary::Mul, x1.value, sin, a, b, p, j);
    lemma_tabled(w, Binary::Mul, x2.value, cos, a, b, p, j);
    let (t3, m1) = ops::binary_op(t2, Binary::Mul, x1, cv)->Ok_0;
    let (t4, m2) = ops::binary_op(t3, Binary::Mul, x2, sv)->Ok_0;
    lemma_coordinates(out, a, b, p, j);
    let i = cell(out, a, b, p, j);
    lemma_pair(w, Binary::Sub, m1.value, m2.value, i);
    let (t5, lo) = ops::binary_op(t4, Binary::Sub, m1, m2)->Ok_0;
    let (t6, m3) = ops::binary_op(t5, Binary::Mul, x1, sv)->Ok_0;
    let (t7, m4) = ops::binary_op(t6, Binary::Mul, x2, cv)->Ok_0;
    lemma_pair(w, Binary::Add, m3.value, m4.value, i);
    let (t8, hi) = ops::binary_op(t7, Binary::Add, m3, m4)->Ok_0;
    lemma_joined(w, t8, lo, hi, a, b, p, j);
    assert(seq![s[0], s[1], s[2], (h + h) as usize] =~= s);
    assert(fused::rotate_composed_op(t, x, cv, sv) == ops::cat_op(t8, seq![lo, hi], 3));
}

} // verus!
