//! What goes back through slices, joins, flips and choices, element by element over the real
//! numbers.

use vstd::prelude::*;

use super::gradient_laws::{only, unary_record};
use super::graph::Tape;
use super::ops;
use super::rule;
use super::rule::{Adjoint, RuleOf};
use super::var;
use super::var::Traced;
use crate::buffer;
use crate::buffer::Reader;
use crate::distributions::launches;
use crate::error::Fault;
use crate::meaning;
use crate::nn::value_readings::{
    heights, inside, lemma_entry, lemma_reshaped, lemma_rows, row,
};
use crate::shape;
use crate::tensor;
use crate::tensor::{IdValue, Value};
use crate::term;
use crate::term::{Binary, Scalar};

verus! {

/// The element that element `i` of a flip along an axis is.
pub open spec fn flipped(d: Seq<usize>, axis: int, i: int) -> int {
    let (n, v) = (d[axis] as int, buffer::inner(d, axis));
    ((i / (n * v)) * n + (n - 1 - (i / v) % n)) * v + i % v
}

/// A flip reads its axis backwards, and the gradient goes back by the same flip. Returns what
/// is recorded, and the gradient.
pub proof fn law_gradient_of_a_flip(
    w: Reader,
    t: Tape,
    x: Traced,
    axis: usize,
    g: Value,
    bands: Seq<Option<Value>>,
    i: int,
) -> (made: (Value, Adjoint, Value))
    requires
        axis < x.value.dims.len(),
        w.fits(x.value),
        w.fits(g),
        g.dims == x.value.dims,
    ensures
        unary_record(ops::flip_op(t, x, axis), t, x, made.0, made.1),
        w.at(made.0, i) == w.at(x.value, flipped(x.value.dims, axis as int, i)),
        only(rule::pullback(made.1, g, bands), made.2),
        w.at(made.2, i) == w.at(g, flipped(x.value.dims, axis as int, i)),
{
    reveal(rule::pullback);
    reveal(rule::movement_pullback);
    (
        tensor::flip_of(x.value, axis)->Ok_0,
        RuleOf::Flip(axis),
        tensor::flip_of(g, axis)->Ok_0,
    )
}

/// Where a slice's element lies in what it was cut from.
#[verifier::spinoff_prover]
proof fn lemma_sliced(n: int, v: int, start: int, len: int, i: int)
    requires
        0 <= i,
        0 < v,
        0 < len,
        0 <= start,
        start + len <= n,
    ensures
        ({
            let k = ((i / (len * v)) * n + start) * v + i % (len * v);
            let j = (k / v) % n - start;
            &&& 0 <= j < len
            &&& ((k / (n * v)) * len + j) * v + k % v == i
        }),
{
    let e = i % v;
    let q = i / v;
    let (o, j) = (q / len, q % len);
    vstd::arithmetic::div_mod::lemma_fundamental_div_mod(i, v);
    vstd::arithmetic::div_mod::lemma_fundamental_div_mod(q, len);
    vstd::arithmetic::div_mod::lemma_div_pos_is_pos(i, v);
    vstd::arithmetic::div_mod::lemma_div_pos_is_pos(q, len);
    assert(i == (o * len + j) * v + e) by (nonlinear_arith)
        requires
            i == v * q + e,
            q == len * o + j,
    ;
    let rest = j * v + e;
    assert(0 <= rest < len * v) by (nonlinear_arith)
        requires
            rest == j * v + e,
            0 <= j < len,
            0 <= e < v,
    ;
    assert(i == o * (len * v) + rest) by (nonlinear_arith)
        requires
            i == (o * len + j) * v + e,
            rest == j * v + e,
    ;
    vstd::arithmetic::div_mod::lemma_fundamental_div_mod_converse(i, len * v, o, rest);
    let k = (o * n + start) * v + rest;
    let p = o * n + (start + j);
    assert(k == p * v + e) by (nonlinear_arith)
        requires
            k == (o * n + start) * v + rest,
            rest == j * v + e,
            p == o * n + (start + j),
    ;
    vstd::arithmetic::div_mod::lemma_fundamental_div_mod_converse(k, v, p, e);
    vstd::arithmetic::div_mod::lemma_fundamental_div_mod_converse(p, n, o, start + j);
    assert(k >= 0) by (nonlinear_arith)
        requires
            k == p * v + e,
            p == o * n + (start + j),
            o >= 0,
            n >= 0,
            start >= 0,
            j >= 0,
            v > 0,
            e >= 0,
    ;
    vstd::arithmetic::div_mod::lemma_div_denominator(k, v, n);
    assert(v * n == n * v) by (nonlinear_arith);
}

/// A slice keeps a band of its operand, and the gradient goes back into that band: an element
/// of the band receives the gradient of the element it became, and every other element
/// nothing. Returns what is recorded, and the gradient.
#[verifier::spinoff_prover]
pub proof fn law_gradient_of_a_slice(
    w: Reader,
    t: Tape,
    x: Traced,
    axis: usize,
    start: usize,
    len: usize,
    g: Value,
    bands: Seq<Option<Value>>,
    i: int,
    k: int,
) -> (made: (Value, Adjoint, Value))
    requires
        axis < x.value.dims.len(),
        0 < len,
        len < x.value.dims[axis as int],
        start + len <= x.value.dims[axis as int],
        w.fits(x.value),
        w.fits(g),
        g.dims == x.value.dims.update(axis as int, len),
        0 < buffer::inner(x.value.dims, axis as int),
        0 <= i,
    ensures
        unary_record(ops::slice_op(t, x, axis, start, len), t, x, made.0, made.1),
        only(rule::pullback(made.1, g, bands), made.2),
        made.2.dims == x.value.dims,
        ({
            let d = x.value.dims;
            let at = buffer::sliced(d, axis as int, start as int, len as int, i);
            let j = (k / buffer::inner(d, axis as int)) % (d[axis as int] as int);
            &&& w.at(made.0, i) == w.at(x.value, at)
            &&& w.at(made.2, at) == w.at(g, i)
            &&& !(start <= j < start + len) ==> w.at(made.2, k) == 0real
        }),
{
    reveal(rule::pullback);
    reveal(rule::movement_pullback);
    let d = x.value.dims;
    let v = tensor::unslice_of(g, d, axis, start);
    term::law_dims_entries(d);
    lemma_sliced(
        d[axis as int] as int,
        buffer::inner(d, axis as int),
        start as int,
        len as int,
        i,
    );
    (
        tensor::slice_of(x.value, axis, start, len)->Ok_0,
        RuleOf::Slice(d, axis, start),
        v,
    )
}

/// The gradient of a join goes back piece by piece: every part receives its band of the
/// gradient. Returns what is recorded.
#[verifier::spinoff_prover]
pub proof fn law_gradient_of_a_join(
    w: Reader,
    t: Tape,
    parts: Seq<Traced>,
    axis: usize,
    g: Value,
    bands: Seq<Option<Value>>,
    k: int,
    i: int,
) -> (made: (Value, Adjoint))
    requires
        parts.len() > 0,
        tensor::stacks(ops::plain_values(parts), axis),
        w.fits(g),
        g.dims == tensor::cat_of(ops::plain_values(parts), axis)->Ok_0.dims,
        0 <= k < parts.len(),
    ensures
        ops::cat_op(t, parts, axis) == Ok::<(Tape, Traced), Fault>(
            var::record(t, made.0, ops::all_places(parts), made.1),
        ),
        ({
            let sizes = tensor::extents(ops::plain_values(parts), axis);
            rule::pullback(made.1, g, bands) matches Ok(grads) && grads.len() == parts.len() && (
            grads[k] matches Some(d) && d.dims == g.dims.update(axis as int, sizes[k]) && w.at(d, i)
                == w.at(
                g,
                buffer::sliced(
                    g.dims,
                    axis as int,
                    tensor::offset(sizes, k) as int,
                    sizes[k] as int,
                    i,
                ),
            ))
        }),
{
    reveal(rule::pullback);
    reveal(rule::movement_pullback);
    let vs = ops::plain_values(parts);
    let sizes = tensor::extents(vs, axis);
    let y = tensor::cat_of(vs, axis)->Ok_0;
    assert(tensor::tiles(g.dims, sizes, axis));
    lemma_offset(sizes, k);
    (y, RuleOf::Cat(axis, sizes))
}

proof fn lemma_offset(sizes: Seq<usize>, k: int)
    requires
        0 <= k <= sizes.len(),
    ensures
        tensor::offset(sizes, k) <= tensor::total(sizes),
    decreases sizes.len(),
{
    if k < sizes.len() {
        lemma_offset(sizes.drop_last(), k);
        assert(sizes.drop_last().take(k) =~= sizes.take(k));
    } else {
        assert(sizes.take(k) =~= sizes);
    }
}

/// Choosing one element per row gives the element the id names, and the gradient goes back to
/// that element alone. Returns what is recorded, and the gradient.
#[verifier::spinoff_prover]
pub proof fn law_gradient_of_a_choice(
    w: Reader,
    t: Tape,
    x: Traced,
    ids: IdValue,
    g: Value,
    bands: Seq<Option<Value>>,
    r: int,
    c: int,
) -> (made: (Value, Adjoint, Value))
    requires
        w.fits(x.value),
        w.fits(g),
        inside(x.value.dims, r, c),
        ids.dims == x.value.dims.drop_last(),
        w.of(ids.term).dims == ids.dims,
        g.dims == ids.dims,
        shape::fits(g.dims),
    ensures
        unary_record(ops::take_op(t, x, ids), t, x, made.0, made.1),
        w.at(made.0, r) == w.at(
            x.value,
            r * x.value.dims.last() + launches::id_of((w.of(ids.term).at)(r)),
        ),
        only(rule::pullback(made.1, g, bands), made.2),
        made.2.dims == x.value.dims,
        w.at(made.2, r * x.value.dims.last() + c) == if (w.of(ids.term).at)(r) == c as real {
            w.at(g, r)
        } else {
            0real
        },
{
    reveal(rule::pullback);
    reveal(rule::movement_pullback);
    let d = x.value.dims;
    let n = d.last();
    let hot = tensor::one_hot_of(ids, n);
    assert(hot.dims =~= d);
    assert(w.of(hot.term).dims =~= d);
    let one = g.dims.push(1usize);
    assert(one =~= d.update(d.len() - 1, 1usize));
    assert(one.drop_last() =~= g.dims);
    let h = shape::product(g.dims);
    assert(h * 1usize as nat == h) by (nonlinear_arith);
    lemma_reshaped(w, g, one, r);
    let spread = tensor::reshape_of(g, one)->Ok_0;
    lemma_rows(w, Binary::Mul, hot, spread, r, c);
    let v = tensor::binary_of(Binary::Mul, hot, spread)->Ok_0;
    lemma_entry(d, r, c);
    let i = r * n + c;
    let z = w.at(g, r);
    assert(w.at(hot, i) == meaning::indicator((w.of(ids.term).at)(i / n as int) == (i % n as int) as real));
    assert(1real * z == z && 0real * z == 0real) by (nonlinear_arith);
    (
        tensor::take_along_last_of(x.value, ids)->Ok_0,
        RuleOf::TakeAlongLast(ids, n),
        v,
    )
}

} // verus!
