//! Cutting a value into pieces and joining them again, over the real numbers.

use vstd::prelude::*;

use crate::autograd::graph::Tape;
use crate::autograd::ops;
use crate::autograd::var;
use crate::autograd::var::Traced;
use crate::buffer;
use crate::buffer::{Buffer, Reader};
use crate::shape;
use crate::tensor;
use crate::tensor::Value;
use crate::term;
use crate::term::Term;

verus! {

/// What the pieces of a split hold, from piece `k` on.
proof fn lemma_bands(w: Reader, a: Value, sizes: Seq<usize>, axis: usize, k: nat)
    requires
        w.fits(a),
        tensor::tiles(a.dims, sizes, axis),
        k <= sizes.len(),
    ensures
        ({
            let x = w.of(a.term);
            let parts = pieces_held(w, a, sizes, axis).skip(k as int);
            &&& buffer::bands(x, axis as int, tensor::offset(sizes, k as int) as int, parts)
            &&& buffer::extent(parts, axis as int) == tensor::total(sizes) - tensor::offset(
                sizes,
                k as int,
            )
        }),
    decreases sizes.len() - k,
{
    let x = w.of(a.term);
    let all = pieces_held(w, a, sizes, axis);
    let parts = all.skip(k as int);
    if k < sizes.len() {
        lemma_bands(w, a, sizes, axis, k + 1);
        assert(parts.drop_first() =~= all.skip(k as int + 1));
        assert(sizes.take(k as int + 1).drop_last() =~= sizes.take(k as int));
        lemma_offset_bound(sizes, k as int);
        assert(tensor::offset(sizes, k as int) as usize == tensor::offset(sizes, k as int));
        assert(parts[0] == buffer::band(
            x,
            axis as int,
            tensor::offset(sizes, k as int) as int,
            sizes[k as int],
        ));
        assert(parts[0].dims[axis as int] == sizes[k as int]);
    } else {
        assert(parts =~= Seq::<Buffer>::empty());
        assert(sizes.take(k as int) =~= sizes);
    }
}

proof fn lemma_offset_bound(sizes: Seq<usize>, k: int)
    requires
        0 <= k <= sizes.len(),
    ensures
        tensor::offset(sizes, k) <= tensor::total(sizes),
    decreases sizes.len(),
{
    if k < sizes.len() {
        lemma_offset_bound(sizes.drop_last(), k);
        assert(sizes.drop_last().take(k) =~= sizes.take(k));
    } else {
        assert(sizes.take(k) =~= sizes);
    }
}

/// What the pieces of a split hold.
pub open spec fn pieces_held(w: Reader, a: Value, sizes: Seq<usize>, axis: usize) -> Seq<Buffer> {
    Seq::new(sizes.len(), |i: int| w.of(tensor::piece(a, sizes, axis, i).term))
}

proof fn lemma_place_along(i: int, n: int, v: int)
    requires
        0 <= i,
        n > 0,
        v > 0,
    ensures
        ((i / (n * v)) * n + (i / v) % n) * v + i % v == i,
        0 <= (i / v) % n < n,
        0 <= i % v < v,
        i / (n * v) >= 0,
{
    vstd::arithmetic::div_mod::lemma_div_pos_is_pos(i, v);
    vstd::arithmetic::div_mod::lemma_div_denominator(i, v, n);
    assert(v * n == n * v) by (nonlinear_arith);
    vstd::arithmetic::div_mod::lemma_fundamental_div_mod(i / v, n);
    vstd::arithmetic::div_mod::lemma_fundamental_div_mod(i, v);
    let q = i / v;
    assert((q / n) * n == n * (q / n)) by (nonlinear_arith);
    assert(q * v == v * q) by (nonlinear_arith);
    vstd::arithmetic::div_mod::lemma_div_pos_is_pos(q, n);
}

proof fn lemma_inner_positive(d: Seq<usize>, axis: int)
    requires
        0 <= axis < d.len(),
        shape::product(d) > 0,
    ensures
        buffer::inner(d, axis) > 0,
        d[axis] > 0,
{
    assert forall|k: int| 0 <= k < d.len() implies d[k] != 0 by {
        if d[k] == 0 {
            shape::lemma_product_zero(d, k);
        }
    }
    shape::lemma_product_prefix(d.skip(axis + 1), 0);
}

proof fn lemma_split_pieces(t: Tape, sink: Traced, values: Seq<Value>, k: nat)
    requires
        k <= values.len(),
    ensures
        ops::pieces_op(t, sink, values, k).1.len() == k,
        forall|i: int|
            0 <= i < k ==> (#[trigger] ops::pieces_op(t, sink, values, k).1[i]).value == values[i],
    decreases k,
{
    broadcast use var::lemma_record_value;

    if k > 0 {
        lemma_split_pieces(t, sink, values, (k - 1) as nat);
    }
}

/// A split has a piece for every size, each the slice it names, and joining the pieces gives
/// the value back, element by element.
pub proof fn law_joining_a_split_gives_the_value_back(
    w: Reader,
    t: Tape,
    u: Tape,
    a: Traced,
    sizes: Seq<usize>,
    axis: usize,
    i: int,
)
    requires
        w.fits(a.value),
        sizes.len() > 0,
        ops::split_op(t, a, sizes, axis) is Ok,
        0 <= i < shape::product(a.value.dims),
    ensures
        ({
            let v = ops::split_op(t, a, sizes, axis)->Ok_0.1;
            &&& v.len() == sizes.len()
            &&& forall|k: int|
                0 <= k < v.len() && v.len() > 1 ==> (#[trigger] v[k]).value == tensor::piece(
                    a.value,
                    sizes,
                    axis,
                    k,
                )
            &&& ops::cat_op(u, v, axis) matches Ok(r) && r.1.value.dims == a.value.dims && w.at(
                r.1.value,
                i,
            ) == w.at(a.value, i)
        }),
{
    broadcast use var::lemma_record_value;

    let v = ops::split_op(t, a, sizes, axis)->Ok_0.1;
    let values = tensor::split_of(a.value, sizes, axis)->Ok_0;
    let (full, x) = (a.value.dims, w.of(a.value.term));
    if sizes.len() > 1 && a.trace is Some && t.enabled {
        let (s, sink) = var::record(
            t,
            crate::autograd::rule::token(),
            seq![a.trace],
            crate::autograd::rule::RuleOf::SplitSink(full, sizes, axis),
        );
        lemma_split_pieces(s, sink, values, values.len());
    }
    let vs = ops::plain_values(v);
    if sizes.len() == 1 {
        assert(sizes.drop_last() =~= Seq::<usize>::empty());
        assert(tensor::total(sizes.drop_last()) == 0);
        assert(vs =~= seq![a.value]);
        assert(tensor::extents(vs, axis) =~= sizes);
    } else {
        assert(vs =~= values);
        assert(tensor::extents(vs, axis) =~= sizes);
    }
    assert forall|k: int| 0 <= k < vs.len() implies (#[trigger] vs[k]).dims.len()
        == vs[0].dims.len() && vs[k].dims.update(axis as int, 0usize) == vs[0].dims.update(
        axis as int,
        0usize,
    ) by {
        assert(vs[k].dims.update(axis as int, 0usize) =~= vs[0].dims.update(axis as int, 0usize));
    }
    assert(vs[0].dims.update(axis as int, full[axis as int]) =~= full);
    let r = ops::cat_op(u, v, axis)->Ok_0.1.value;
    let terms = vs.map_values(|q: Value| q.term);
    buffer::lemma_all(w, terms);
    let parts = buffer::all(w, term::terms(terms));
    lemma_inner_positive(full, axis as int);
    let (n, m) = (full[axis as int] as int, buffer::inner(full, axis as int));
    lemma_place_along(i, n, m);
    let (outer, j, k) = (i / (n * m), (i / m) % n, i % m);
    if sizes.len() == 1 {
        assert(parts =~= seq![x]);
        assert(parts.drop_first() =~= Seq::<Buffer>::empty());
        assert(buffer::extent(parts.drop_first(), axis as int) == 0);
        assert(buffer::extent(parts, axis as int) == n);
    } else {
        let held = pieces_held(w, a.value, sizes, axis);
        assert(parts =~= held) by {
            assert forall|q: int| 0 <= q < parts.len() implies parts[q] == held[q] by {
                assert(terms[q] == vs[q].term);
            }
        }
        lemma_bands(w, a.value, sizes, axis, 0);
        assert(held.skip(0) =~= held);
        assert(sizes.take(0) =~= Seq::<usize>::empty());
        assert(buffer::extent(parts, axis as int) == n);
        assert(parts[0].dims.skip(axis + 1) =~= full.skip(axis + 1));
        buffer::law_joining_the_pieces_gives_the_value_back(
            x,
            axis as int,
            0,
            parts,
            outer,
            j,
            k,
        );
    }
}

} // verus!
