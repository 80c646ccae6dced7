//! What attention computes, element by element, over the real numbers.

use vstd::prelude::*;

use super::attention;
use super::attention::{Frame, MultiHeadAttention};
use super::dropout;
use super::flow;
use super::flow::World;
use super::layer_laws;
use super::layer_laws::{idle, plain, projected, widened};
use super::linear;
use super::value_readings::{
    heights, inside, lemma_each, lemma_entry, lemma_pair, lemma_reduced, lemma_reshaped,
    lemma_rows, row, weight,
};
use crate::autograd::graph::Tape;
use crate::autograd::ops;
use crate::autograd::var;
use crate::autograd::var::Traced;
use crate::buffer;
use crate::buffer::Reader;
use crate::distributions::readings;
use crate::distributions::rows;
use crate::error::Fault;
use crate::layer_kernels;
use crate::layer_kernels::{dot, products};
use crate::meaning;
use crate::meaning::Functions;
use crate::shape;
use crate::tensor;
use crate::tensor::Value;
use crate::term;
use crate::term::{Binary, Fused, Product, Reduce, Scalar, Unary};

verus! {

// -- four axes -----------------------------------------------------------------------------

/// Where element `(a, b, c, d)` of a tensor with four axes lies.
pub open spec fn cell(s: Seq<usize>, a: int, b: int, c: int, d: int) -> int {
    ((a * s[1] + b) * s[2] + c) * s[3] + d
}

/// Whether an element lies in a shape of four axes.
pub open spec fn within(s: Seq<usize>, a: int, b: int, c: int, d: int) -> bool {
    &&& s.len() == 4
    &&& 0 <= a < s[0]
    &&& 0 <= b < s[1]
    &&& 0 <= c < s[2]
    &&& 0 <= d < s[3]
}

pub proof fn lemma_step(p: int, n: int, x: int, k: int)
    requires
        0 <= p < n,
        0 <= x < k,
    ensures
        0 <= p * k + x < n * k,
        (p * k + x) / k == p,
        (p * k + x) % k == x,
{
    assert(0 <= p * k + x < n * k) by (nonlinear_arith)
        requires
            0 <= p < n,
            0 <= x < k,
    ;
    vstd::arithmetic::div_mod::lemma_fundamental_div_mod_converse(p * k + x, k, p, x);
}

pub proof fn lemma_four(s: Seq<usize>)
    requires
        s.len() == 4,
    ensures
        shape::product(s) == s[0] * s[1] * s[2] * s[3],
        heights(s) == s[0] * s[1] * s[2],
        shape::product(s.take(2)) == s[0] * s[1],
        buffer::inner(s, 3) == 1,
        buffer::inner(s, 2) == s[3],
        buffer::inner(s, 1) == s[2] * s[3],
        buffer::inner(s, 0) == s[1] * (s[2] * s[3]),
{
    let none = Seq::<usize>::empty();
    let one = shape::product(none);
    let (a, b, c, d) = (s[0], s[1], s[2], s[3]);
    assert(one * a == a && one * b == b && one * d == d && one * c == c) by (nonlinear_arith)
        requires
            one == 1,
    ;
    assert(s.drop_last() =~= seq![a, b, c]);
    assert(seq![a, b, c].drop_last() =~= seq![a, b]);
    assert(seq![a, b].drop_last() =~= seq![a]);
    assert(seq![a].drop_last() =~= none);
    assert(s.take(2) =~= seq![a, b]);
    assert(s.skip(4) =~= none);
    assert(s.skip(3) =~= seq![d]);
    assert(seq![d].drop_last() =~= none);
    assert(s.skip(2) =~= seq![c, d]);
    assert(seq![c, d].drop_last() =~= seq![c]);
    assert(seq![c].drop_last() =~= none);
    assert(s.skip(1) =~= seq![b, c, d]);
    assert(seq![b, c, d].drop_last() =~= seq![b, c]);
    assert(seq![b, c].drop_last() =~= seq![b]);
    assert(seq![b].drop_last() =~= none);
    assert(shape::product(seq![a]) == a && shape::product(seq![b]) == b && shape::product(seq![c])
        == c && shape::product(seq![d]) == d);
    assert(shape::product(seq![a, b]) == a * b);
    assert(shape::product(seq![a, b, c]) == a * b * c);
    assert(shape::product(seq![b, c]) == b * c);
    assert(shape::product(seq![b, c, d]) == b * c * d);
    assert((b * c) * d == b * (c * d)) by (nonlinear_arith);
}

/// The coordinates of an element.
#[verifier::spinoff_prover]
pub proof fn lemma_coordinates(s: Seq<usize>, a: int, b: int, c: int, d: int)
    requires
        within(s, a, b, c, d),
    ensures
        ({
            let i = cell(s, a, b, c, d);
            &&& 0 <= i < shape::product(s)
            &&& (i / buffer::inner(s, 0)) % (s[0] as int) == a
            &&& (i / buffer::inner(s, 1)) % (s[1] as int) == b
            &&& (i / buffer::inner(s, 2)) % (s[2] as int) == c
            &&& (i / buffer::inner(s, 3)) % (s[3] as int) == d
        }),
{
    let (n0, n1, n2, n3) = (s[0] as int, s[1] as int, s[2] as int, s[3] as int);
    lemma_four(s);
    let p = a * n1 + b;
    let q = p * n2 + c;
    let i = q * n3 + d;
    lemma_step(a, n0, b, n1);
    lemma_step(p, n0 * n1, c, n2);
    lemma_step(q, n0 * n1 * n2, d, n3);
    // The third coordinate.
    assert(i / n3 == q);
    // The second.
    vstd::arithmetic::div_mod::lemma_div_denominator(i, n3, n2);
    assert(n3 * n2 == n2 * n3) by (nonlinear_arith);
    assert(i / (n2 * n3) == p);
    // The first.
    assert(n2 * n3 > 0) by (nonlinear_arith)
        requires
            n2 > 0,
            n3 > 0,
    ;
    vstd::arithmetic::div_mod::lemma_div_denominator(i, n2 * n3, n1);
    assert((n2 * n3) * n1 == n1 * (n2 * n3)) by (nonlinear_arith);
    assert(i / (n1 * (n2 * n3)) == a);
    vstd::arithmetic::div_mod::lemma_small_mod(a as nat, n0 as nat);
    assert(i / 1 == i) by (nonlinear_arith);
}

/// Exchanging the last two axes.
#[verifier::spinoff_prover]
proof fn lemma_turned(w: Reader, t: Tape, x: Traced, a: int, b: int, c: int, d: int)
    requires
        within(x.value.dims, a, b, c, d),
        w.fits(x.value),
    ensures
        ({
            let s = x.value.dims;
            let out = seq![s[0], s[1], s[3], s[2]];
            let r = attention::transposed_op(t, x);
            &&& r is Ok
            &&& r->Ok_0.1.value.dims == out
            &&& w.fits(r->Ok_0.1.value)
            &&& w.at(r->Ok_0.1.value, cell(out, a, b, d, c)) == w.at(x.value, cell(s, a, b, c, d))
        }),
{
    broadcast use var::lemma_record_value;

    let s = x.value.dims;
    let out = seq![s[0], s[1], s[3], s[2]];
    let order = ops::exchanged(4, 2, 3);
    assert(order =~= seq![0usize, 1usize, 3usize, 2usize]);
    assert(tensor::permuted(s, order) =~= out);
    assert(tensor::is_order(order, 4));
    term::law_dims_entries(order);
    let p = tensor::permute_of(x.value, order)->Ok_0;
    let r = attention::transposed_op(t, x);
    assert(r is Ok && r->Ok_0.1.value == p);
    let i = cell(out, a, b, d, c);
    assert(w.of(p.term).dims == out);
    assert(w.at(p, i) == w.at(x.value, buffer::reordered(i, out, s, order, 4)));
    lemma_coordinates(out, a, b, d, c);
    lemma_four(s);
    reveal_with_fuel(buffer::reordered, 5);
    let (n1, n2, n3) = (s[1] as int, s[2] as int, s[3] as int);
    assert(a * (n1 * (n2 * n3)) + b * (n2 * n3) + d * 1 + c * n3 == ((a * n1 + b) * n2 + c) * n3
        + d) by (nonlinear_arith);
}

/// Exchanging the two middle axes.
#[verifier::spinoff_prover]
pub proof fn lemma_swapped(w: Reader, t: Tape, x: Traced, a: int, b: int, c: int, d: int)
    requires
        within(x.value.dims, a, b, c, d),
        w.fits(x.value),
    ensures
        ({
            let s = x.value.dims;
            let out = seq![s[0], s[2], s[1], s[3]];
            let r = ops::permute_op(t, x, seq![0usize, 2, 1, 3]);
            &&& r is Ok
            &&& r->Ok_0.1.value.dims == out
            &&& w.fits(r->Ok_0.1.value)
            &&& w.at(r->Ok_0.1.value, cell(out, a, c, b, d)) == w.at(x.value, cell(s, a, b, c, d))
        }),
{
    broadcast use var::lemma_record_value;

    let s = x.value.dims;
    let out = seq![s[0], s[2], s[1], s[3]];
    let order = seq![0usize, 2usize, 1usize, 3usize];
    assert(tensor::permuted(s, order) =~= out);
    assert(tensor::is_order(order, 4));
    term::law_dims_entries(order);
    let p = tensor::permute_of(x.value, order)->Ok_0;
    let i = cell(out, a, c, b, d);
    assert(w.of(p.term).dims == out);
    assert(w.at(p, i) == w.at(x.value, buffer::reordered(i, out, s, order, 4)));
    lemma_coordinates(out, a, c, b, d);
    lemma_four(s);
    reveal_with_fuel(buffer::reordered, 5);
    let (n1, n2, n3) = (s[1] as int, s[2] as int, s[3] as int);
    assert(a * (n1 * (n2 * n3)) + c * n3 + b * (n2 * n3) + d * 1 == ((a * n1 + b) * n2 + c) * n3
        + d) by (nonlinear_arith);
}

/// Matrices multiplied pair by pair.
#[verifier::spinoff_prover]
proof fn lemma_matrices(w: Reader, x: Value, y: Value, a: int, b: int, r: int, c: int)
    requires
        x.dims.len() == 4,
        y.dims.len() == 4,
        w.fits(x),
        w.fits(y),
        x.dims[0] == y.dims[0],
        x.dims[1] == y.dims[1],
        x.dims[3] == y.dims[2],
        0 <= a < x.dims[0],
        0 <= b < x.dims[1],
        0 <= r < x.dims[2],
        0 <= c < y.dims[3],
    ensures
        ({
            let out = seq![x.dims[0], x.dims[1], x.dims[2], y.dims[3]];
            let v = tensor::product_of(Product::Plain, x, y);
            let s = Seq::new(
                x.dims[3] as nat,
                |k: int|
                    w.at(x, cell(x.dims, a, b, r, k)) * w.at(y, cell(y.dims, a, b, k, c)),
            );
            &&& v is Ok
            &&& v->Ok_0.dims == out
            &&& w.fits(v->Ok_0)
            &&& w.at(v->Ok_0, cell(out, a, b, r, c)) == rows::sum(s, s.len())
        }),
{
    let (xd, yd) = (x.dims, y.dims);
    let batch = xd.take(2);
    assert(yd.take(2) =~= batch);
    shape::law_broadcast_idempotent(batch);
    let v = tensor::product_of(Product::Plain, x, y)->Ok_0;
    let out = seq![xd[0], xd[1], xd[2], yd[3]];
    assert(v.dims =~= out) by {
        assert(batch =~= seq![xd[0], xd[1]]);
    }
    let (n0, n1, n, k, m) = (
        xd[0] as int,
        xd[1] as int,
        xd[2] as int,
        xd[3] as int,
        yd[3] as int,
    );
    let p = a * n1 + b;
    lemma_step(a, n0, b, n1);
    lemma_step(p, n0 * n1, r, n);
    let q = p * n + r;
    lemma_step(q, n0 * n1 * n, c, m);
    let i = q * m + c;
    vstd::arithmetic::div_mod::lemma_div_denominator(i, m, n);
    assert(m * n == n * m) by (nonlinear_arith);
    lemma_four(xd);
    shape::lemma_place_same(p, batch);
    let (u, z) = (w.of(x.term), w.of(y.term));
    assert(w.of(v.term) == buffer::multiplied(Product::Plain, u, z));
    assert(w.of(v.term).dims =~= out);
    assert(w.at(v, i) == buffer::entry(Product::Plain, u, z, batch, p, r, c));
    let terms = Seq::new(
        k as nat,
        |j: int| (u.at)((p * n + r) * k + j) * (z.at)((p * k + j) * m + c),
    );
    let s = Seq::new(
        xd[3] as nat,
        |j: int| w.at(x, cell(xd, a, b, r, j)) * w.at(y, cell(yd, a, b, j, c)),
    );
    assert(terms =~= s);
    assert(buffer::entry(Product::Plain, u, z, batch, p, r, c) == rows::sum(terms, terms.len()));
}

// -- softmax -------------------------------------------------------------------------------

/// The exponentials of a row, its largest entry taken off.
pub open spec fn risen(f: Functions, s: Seq<real>) -> Seq<real> {
    Seq::new(s.len(), |j: int| (f.exp)(s[j] - rows::largest(s, s.len())))
}

/// The share of every entry of a row in the sum of exponentials.
pub open spec fn shares(f: Functions, s: Seq<real>) -> Seq<real> {
    let e = risen(f, s);
    Seq::new(s.len(), |j: int| e[j] / rows::sum(e, e.len()))
}

/// A softmax along the last axis gives every entry its share of the exponentials of its row.
#[verifier::spinoff_prover]
pub proof fn law_softmax_gives_shares(w: Reader, t: Tape, x: Traced, r: int, c: int)
    requires
        w.fits(x.value),
        x.value.dims.len() <= usize::MAX,
        inside(x.value.dims, r, c),
    ensures
        ({
            let k = x.value.dims.last() as int;
            let y = ops::softmax_op(t, x, (x.value.dims.len() - 1) as usize);
            &&& y is Ok
            &&& y->Ok_0.1.value.dims == x.value.dims
            &&& w.fits(y->Ok_0.1.value)
            &&& w.at(y->Ok_0.1.value, r * k + c) == shares(w.m.f, row(w, x.value, r, k))[c]
        }),
{
    broadcast use var::lemma_record_value;

    let d = x.value.dims;
    let (k, last) = (d.last() as int, (d.len() - 1) as usize);
    let s = row(w, x.value, r, k);
    lemma_reduced(w, Reduce::Max, x.value, r);
    let top = tensor::reduce_of(Reduce::Max, x.value, last)->Ok_0;
    lemma_rows(w, Binary::Sub, x.value, top, r, c);
    let low = tensor::binary_of(Binary::Sub, x.value, top)->Ok_0;
    lemma_each(w, Unary::Exp, low, r * k + c);
    let e = tensor::unary_of(Unary::Exp, low);
    lemma_reduced(w, Reduce::Sum, e, r);
    let total = tensor::reduce_of(Reduce::Sum, e, last)->Ok_0;
    lemma_rows(w, Binary::Div, e, total, r, c);
    let v = tensor::binary_of(Binary::Div, e, total)->Ok_0;
    let up = risen(w.m.f, s);
    assert forall|j: int| 0 <= j < k implies row(w, e, r, k)[j] == up[j] by {
        lemma_rows(w, Binary::Sub, x.value, top, r, j);
        lemma_each(w, Unary::Exp, low, r * k + j);
    }
    assert(row(w, e, r, k) =~= up);
    let r1 = ops::reduce_op(t, Reduce::Max, x, last);
    let r2 = ops::binary_op(
        r1->Ok_0.0,
        Binary::Sub,
        x,
        ops::untracked(r1->Ok_0.1.value),
    );
    let r3 = ops::pointwise_op(r2->Ok_0.0, Unary::Exp, r2->Ok_0.1);
    let r4 = ops::reduce_op(r3.0, Reduce::Sum, r3.1, last);
    let r5 = ops::binary_op(r4->Ok_0.0, Binary::Div, r3.1, r4->Ok_0.1);
    assert(r1 is Ok && r1->Ok_0.1.value == top);
    assert(r2 is Ok && r2->Ok_0.1.value == low);
    assert(r3.1.value == e);
    assert(r4 is Ok && r4->Ok_0.1.value == total);
    assert(r5 is Ok && r5->Ok_0.1.value == v);
    assert(ops::softmax_op(t, x, last) == r5);
}

// -- scores --------------------------------------------------------------------------------

/// What is added to the score of a query and a key: nothing where the query may see the key,
/// and a large negative number where a causal layer forbids it.
pub open spec fn bias(causal: bool, past: int, query: int, key: int) -> real {
    if causal && key > past + query {
        layer_kernels::forbidden()
    } else {
        0real
    }
}

/// The mask of a causal layer forbids every key after its query, and no other; a layer that is
/// not causal forbids none.
#[verifier::spinoff_prover]
pub proof fn law_a_causal_layer_forbids_later_keys(
    w: Reader,
    t: Tape,
    a: MultiHeadAttention,
    scores: Traced,
    past: usize,
    b: int,
    h: int,
    i: int,
    j: int,
)
    requires
        within(scores.value.dims, b, h, i, j),
        w.fits(scores.value),
        past <= u64::MAX,
    ensures
        ({
            let d = scores.value.dims;
            let r = attention::masked_op(t, a, scores, d[2], d[3], past);
            &&& r is Ok
            &&& r->Ok_0.1.value.dims == d
            &&& w.fits(r->Ok_0.1.value)
            &&& w.at(r->Ok_0.1.value, cell(d, b, h, i, j)) == w.at(
                scores.value,
                cell(d, b, h, i, j),
            ) + bias(a.causal, past as int, i, j)
        }),
{
    broadcast use var::lemma_record_value;

    let d = scores.value.dims;
    let (n2, n3) = (d[2] as int, d[3] as int);
    let at = cell(d, b, h, i, j);
    lemma_coordinates(d, b, h, i, j);
    if a.causal {
        reveal(layer_kernels::written);
        let m = attention::mask_of(d[2], d[3], past);
        let one = seq![1usize, 1usize, d[2], d[3]];
        readings::lemma_kernel(w, Fused::CausalMask(past as u64), Seq::empty(), one);
        assert(w.of(m.term).dims == one);
        // The mask broadcasts over batch and heads.
        assert(shape::left_padded(d, 4) =~= d);
        assert(shape::left_padded(one, 4) =~= one);
        assert(shape::broadcast_dims(d, one) =~= d);
        assert(shape::compatible(d, one));
        shape::lemma_place_same(at, d);
        lemma_mask_place(d, b, h, i, j);
        let p = i * n3 + j;
        lemma_step(i, n2, j, n3);
        vstd::arithmetic::div_mod::lemma_small_mod(i as nat, n2 as nat);
        assert(w.at(m, p) == bias(true, past as int, i, j));
        let v = tensor::binary_of(Binary::Add, scores.value, m)->Ok_0;
        assert(w.of(v.term).dims == d);
        assert(w.at(v, at) == w.at(scores.value, at) + w.at(m, p));
    }
}

#[verifier::spinoff_prover]
pub proof fn lemma_mask_place(d: Seq<usize>, b: int, h: int, i: int, j: int)
    requires
        within(d, b, h, i, j),
    ensures
        shape::place(cell(d, b, h, i, j), d, seq![1usize, 1usize, d[2], d[3]]) == i * d[3] + j,
{
    let one = seq![1usize, 1usize, d[2], d[3]];
    let (n0, n1, n2, n3) = (d[0] as int, d[1] as int, d[2] as int, d[3] as int);
    let p = b * n1 + h;
    let q = p * n2 + i;
    lemma_step(b, n0, h, n1);
    lemma_step(p, n0 * n1, i, n2);
    lemma_step(q, n0 * n1 * n2, j, n3);
    assert(d.drop_last() =~= seq![d[0], d[1], d[2]]);
    assert(one.drop_last() =~= seq![1usize, 1usize, d[2]]);
    let (e, o) = (seq![d[0], d[1], d[2]], seq![1usize, 1usize, d[2]]);
    assert(e.drop_last() =~= seq![d[0], d[1]]);
    assert(o.drop_last() =~= seq![1usize, 1usize]);
    let (e2, o2) = (seq![d[0], d[1]], seq![1usize, 1usize]);
    assert(e2.drop_last() =~= seq![d[0]]);
    assert(o2.drop_last() =~= seq![1usize]);
    let (e1, o1) = (seq![d[0]], seq![1usize]);
    assert(e1.drop_last() =~= Seq::<usize>::empty());
    assert(shape::place((p / n1) / n0, e1.drop_last(), o1.drop_last()) == 0);
    assert(shape::place(p / n1, e1, o1) == 0);
    assert(shape::place(p, e2, o2) == 0);
    assert(0 * n2 == 0);
    if n2 == 1 {
        assert(i == 0);
    }
    assert(shape::place(q, e, o) == i);
    if n3 == 1 {
        assert(j == 0);
    }
}

/// The scores of a query: its products with every key, scaled, plus what the mask adds.
pub open spec fn scores(
    w: Reader,
    a: MultiHeadAttention,
    q: Value,
    k: Value,
    past: int,
    b: int,
    h: int,
    i: int,
) -> Seq<real> {
    Seq::new(
        k.dims[2] as nat,
        |j: int|
            dot(
                Seq::new(q.dims[3] as nat, |e: int| w.at(q, cell(q.dims, b, h, i, e))),
                Seq::new(q.dims[3] as nat, |e: int| w.at(k, cell(k.dims, b, h, j, e))),
            ) * meaning::scalar(w.m.f, Scalar::InvSqrt(a.head_dim as u64)) + bias(
                a.causal,
                past,
                i,
                j,
            ),
    )
}

/// What a query takes of the values: every value times the share of its key.
pub open spec fn taken(
    w: Reader,
    a: MultiHeadAttention,
    q: Value,
    k: Value,
    v: Value,
    past: int,
    b: int,
    h: int,
    i: int,
    e: int,
) -> real {
    let p = shares(w.m.f, scores(w, a, q, k, past, b, h, i));
    let s = Seq::new(v.dims[2] as nat, |j: int| p[j] * w.at(v, cell(v.dims, b, h, j, e)));
    rows::sum(s, s.len())
}

/// What the heads of a query take, side by side.
pub open spec fn context(
    w: Reader,
    a: MultiHeadAttention,
    q: Value,
    k: Value,
    v: Value,
    past: int,
    b: int,
    i: int,
) -> Seq<real> {
    let d = q.dims[3] as int;
    Seq::new(
        (q.dims[1] * q.dims[3]) as nat,
        |x: int| taken(w, a, q, k, v, past, b, x / d, i, x % d),
    )
}

/// The scaled and masked scores that enter the softmax.
pub open spec fn masked_of(w: World, a: MultiHeadAttention, q: Traced, k: Traced, past: usize) -> flow::Step {
    let turned = attention::transposed_op(w.tape, k)->Ok_0;
    let raw = ops::product_op(turned.0, Product::Plain, q, turned.1)->Ok_0;
    let scaled = ops::pointwise_op(
        raw.0,
        Unary::MulScalar(Scalar::InvSqrt(a.head_dim as u64)),
        raw.1,
    );
    flow::on(
        w,
        attention::masked_op(
            scaled.0,
            a,
            scaled.1,
            q.value.dims[2],
            k.value.dims[2],
            past,
        ),
    )
}

/// Queries, keys and values that fit each other.
pub open spec fn matched(w: Reader, q: Value, k: Value, v: Value) -> bool {
    &&& q.dims.len() == 4
    &&& k.dims == seq![q.dims[0], q.dims[1], k.dims[2], q.dims[3]]
    &&& v.dims == k.dims
    &&& w.fits(q)
    &&& w.fits(k)
    &&& w.fits(v)
    &&& q.dims[3] > 0
    &&& k.dims[2] > 0
}

#[verifier::spinoff_prover]
proof fn lemma_masked(
    w: Reader,
    g: World,
    a: MultiHeadAttention,
    q: Traced,
    k: Traced,
    past: usize,
    b: int,
    h: int,
    i: int,
    j: int,
)
    requires
        matched(w, q.value, k.value, k.value),
        0 <= b < q.value.dims[0],
        0 <= h < q.value.dims[1],
        0 <= i < q.value.dims[2],
        0 <= j < k.value.dims[2],
        past <= u64::MAX,
    ensures
        ({
            let d = q.value.dims;
            let out = seq![d[0], d[1], d[2], k.value.dims[2]];
            let r = masked_of(g, a, q, k, past);
            &&& attention::transposed_op(g.tape, k) is Ok
            &&& ops::product_op(
                attention::transposed_op(g.tape, k)->Ok_0.0,
                Product::Plain,
                q,
                attention::transposed_op(g.tape, k)->Ok_0.1,
            ) is Ok
            &&& r is Ok
            &&& r->Ok_0.0.store == g.store
            &&& r->Ok_0.1.value.dims == out
            &&& w.fits(r->Ok_0.1.value)
            &&& w.at(r->Ok_0.1.value, cell(out, b, h, i, j)) == scores(
                w,
                a,
                q.value,
                k.value,
                past as int,
                b,
                h,
                i,
            )[j]
        }),
{
    broadcast use var::lemma_record_value;

    let (d, kd) = (q.value.dims, k.value.dims);
    let out = seq![d[0], d[1], d[2], kd[2]];
    lemma_turned(w, g.tape, k, b, h, j, 0);
    let (t1, turned) = attention::transposed_op(g.tape, k)->Ok_0;
    lemma_matrices(w, q.value, turned.value, b, h, i, j);
    let raw = tensor::product_of(Product::Plain, q.value, turned.value)->Ok_0;
    let r2 = ops::product_op(t1, Product::Plain, q, turned);
    assert(r2 is Ok && r2->Ok_0.1.value == raw);
    let xs = Seq::new(d[3] as nat, |e: int| w.at(q.value, cell(d, b, h, i, e)));
    let ys = Seq::new(d[3] as nat, |e: int| w.at(k.value, cell(kd, b, h, j, e)));
    let s = Seq::new(
        d[3] as nat,
        |e: int|
            w.at(q.value, cell(d, b, h, i, e)) * w.at(
                turned.value,
                cell(turned.value.dims, b, h, e, j),
            ),
    );
    assert forall|e: int| 0 <= e < d[3] implies s[e] == products(xs, ys)[e] by {
        lemma_turned(w, g.tape, k, b, h, j, e);
    }
    assert(s =~= products(xs, ys));
    let at = cell(out, b, h, i, j);
    let by = Unary::MulScalar(Scalar::InvSqrt(a.head_dim as u64));
    lemma_each(w, by, raw, at);
    let r3 = ops::pointwise_op(r2->Ok_0.0, by, r2->Ok_0.1);
    assert(r3.1.value == tensor::unary_of(by, raw));
    law_a_causal_layer_forbids_later_keys(w, r3.0, a, r3.1, past, b, h, i, j);
}

#[verifier::spinoff_prover]
proof fn lemma_taken(
    w: Reader,
    g: World,
    a: MultiHeadAttention,
    q: Traced,
    k: Traced,
    v: Traced,
    past: usize,
    b: int,
    h: int,
    i: int,
    e: int,
)
    requires
        matched(w, q.value, k.value, v.value),
        0 <= b < q.value.dims[0],
        0 <= h < q.value.dims[1],
        0 <= i < q.value.dims[2],
        0 <= e < q.value.dims[3],
        past <= u64::MAX,
    ensures
        ({
            let d = q.value.dims;
            let (g4, masked) = masked_of(g, a, q, k, past)->Ok_0;
            let soft = ops::softmax_op(g4.tape, masked, 3);
            let out = ops::product_op(soft->Ok_0.0, Product::Plain, soft->Ok_0.1, v);
            &&& soft is Ok
            &&& out is Ok
            &&& out->Ok_0.1.value.dims == d
            &&& w.fits(out->Ok_0.1.value)
            &&& w.at(out->Ok_0.1.value, cell(d, b, h, i, e)) == taken(
                w,
                a,
                q.value,
                k.value,
                v.value,
                past as int,
                b,
                h,
                i,
                e,
            )
        }),
{
    broadcast use var::lemma_record_value;

    let (d, kd) = (q.value.dims, k.value.dims);
    let out = seq![d[0], d[1], d[2], kd[2]];
    lemma_masked(w, g, a, q, k, past, b, h, i, 0);
    let (g4, masked) = masked_of(g, a, q, k, past)->Ok_0;
    let (n0, n1, n2, n) = (d[0] as int, d[1] as int, d[2] as int, kd[2] as int);
    let r = (b * n1 + h) * n2 + i;
    lemma_four(out);
    lemma_step(b, n0, h, n1);
    lemma_step(b * n1 + h, n0 * n1, i, n2);
    let want = scores(w, a, q.value, k.value, past as int, b, h, i);
    assert forall|j: int| 0 <= j < n implies row(w, masked.value, r, n)[j] == want[j] by {
        lemma_masked(w, g, a, q, k, past, b, h, i, j);
    }
    assert(row(w, masked.value, r, n) =~= want);
    law_softmax_gives_shares(w, g4.tape, masked, r, 0);
    let (t5, soft) = ops::softmax_op(g4.tape, masked, 3)->Ok_0;
    lemma_matrices(w, soft.value, v.value, b, h, i, e);
    let c = tensor::product_of(Product::Plain, soft.value, v.value)->Ok_0;
    let z = ops::product_op(t5, Product::Plain, soft, v);
    assert(z is Ok && z->Ok_0.1.value == c);
    let p = shares(w.m.f, want);
    let s = Seq::new(n as nat, |j: int| p[j] * w.at(v.value, cell(v.value.dims, b, h, j, e)));
    let u = Seq::new(
        n as nat,
        |j: int|
            w.at(soft.value, cell(out, b, h, i, j)) * w.at(
                v.value,
                cell(v.value.dims, b, h, j, e),
            ),
    );
    assert forall|j: int| 0 <= j < n implies s[j] == u[j] by {
        law_softmax_gives_shares(w, g4.tape, masked, r, j);
    }
    assert(s =~= u);
    assert(c.dims =~= d);
}

/// What the end of attention needs: a projection of the joined heads.
pub open spec fn closes(w: Reader, g: World, a: MultiHeadAttention, q: Value, f: Frame, outputs: usize) -> bool {
    &&& f.b == q.dims[0]
    &&& f.queries == q.dims[2]
    &&& f.width == q.dims[1] * q.dims[3]
    &&& f.past <= u64::MAX
    &&& shape::fits(q.dims)
    &&& idle(g, a.dropout)
    &&& plain(w, g, a.o_proj, f.width, outputs)
    &&& a.o_proj.lora matches Some(l) ==> weight(g, l.a).dims[1] > 0
}

/// The heads of every query, joined.
#[verifier::spinoff_prover]
proof fn lemma_joined(w: Reader, t: Tape, c: Traced, f: Frame, b: int, i: int, x: int)
    requires
        c.value.dims.len() == 4,
        w.fits(c.value),
        f.b == c.value.dims[0],
        f.queries == c.value.dims[2],
        f.width == c.value.dims[1] * c.value.dims[3],
        shape::fits(c.value.dims),
        0 <= b < c.value.dims[0],
        0 <= i < c.value.dims[2],
        0 <= x < f.width,
        c.value.dims[3] > 0,
    ensures
        ({
            let s = c.value.dims;
            let d = s[3] as int;
            let out = seq![f.b, f.queries, f.width];
            let r1 = ops::permute_op(t, c, seq![0usize, 2, 1, 3]);
            let r2 = ops::reshape_op(r1->Ok_0.0, r1->Ok_0.1, out);
            &&& r1 is Ok
            &&& r2 is Ok
            &&& r2->Ok_0.1.value.dims == out
            &&& w.fits(r2->Ok_0.1.value)
            &&& heights(out) == s[0] * s[2]
            &&& w.at(r2->Ok_0.1.value, (b * f.queries + i) * f.width + x) == w.at(
                c.value,
                cell(s, b, x / d, i, x % d),
            )
        }),
{
    broadcast use var::lemma_record_value;

    let s = c.value.dims;
    let (n0, n1, n2, d) = (s[0] as int, s[1] as int, s[2] as int, s[3] as int);
    let out = seq![f.b, f.queries, f.width];
    let (h, e) = (x / d, x % d);
    assert(0 <= h < n1 && 0 <= e < d && x == h * d + e) by (nonlinear_arith)
        requires
            0 <= x < n1 * d,
            d > 0,
            h == x / d,
            e == x % d,
    ;
    lemma_swapped(w, t, c, b, h, i, e);
    let r1 = ops::permute_op(t, c, seq![0usize, 2, 1, 3])->Ok_0;
    let mid = seq![s[0], s[2], s[1], s[3]];
    lemma_four(s);
    lemma_four(mid);
    let one = shape::product(Seq::<usize>::empty());
    assert(one * f.b == f.b) by (nonlinear_arith)
        requires
            one == 1,
    ;
    assert(out.drop_last() =~= seq![f.b, f.queries]);
    assert(seq![f.b, f.queries].drop_last() =~= seq![f.b]);
    assert(seq![f.b].drop_last() =~= Seq::<usize>::empty());
    assert(shape::product(seq![f.b]) == f.b);
    assert(shape::product(seq![f.b, f.queries]) == f.b * f.queries);
    assert(n0 * n2 * n1 * d == n0 * n1 * n2 * d && n0 * n2 * (n1 * d) == n0 * n2 * n1 * d)
        by (nonlinear_arith);
    assert(tensor::reshapes(r1.1.value.dims, out));
    let at = (b * n2 + i) * (n1 * d) + x;
    lemma_reshaped(w, r1.1.value, out, at);
    assert(cell(mid, b, i, h, e) == at) by {
        let p = b * n2 + i;
        assert((p * n1 + h) * d + e == p * (n1 * d) + (h * d + e)) by (nonlinear_arith);
    }
}

/// Attention: every query takes the values by the softmax of its scores, scaled and masked;
/// what its heads take is joined and projected.
#[verifier::spinoff_prover]
pub proof fn law_attention_takes_values_by_their_shares(
    w: Reader,
    g: World,
    a: MultiHeadAttention,
    q: Traced,
    k: Traced,
    v: Traced,
    f: Frame,
    outputs: usize,
    b: int,
    i: int,
    c: int,
)
    requires
        matched(w, q.value, k.value, v.value),
        closes(w, g, a, q.value, f, outputs),
        f.source == k.value.dims[2],
        0 <= b < q.value.dims[0],
        0 <= i < q.value.dims[2],
        0 <= c < outputs,
        q.value.dims[1] > 0,
    ensures
        ({
            let y = attention::scored_op(g, a, q, k, v, f);
            &&& y is Ok
            &&& y->Ok_0.1.value.dims == seq![f.b, f.queries, outputs]
            &&& w.at(y->Ok_0.1.value, (b * f.queries + i) * outputs + c) == projected(
                w,
                g,
                a.o_proj,
                context(w, a, q.value, k.value, v.value, f.past as int, b, i),
                outputs as int,
                c,
            )
        }),
{
    broadcast use var::lemma_record_value;

    let d = q.value.dims;
    let past = f.past;
    lemma_masked(w, g, a, q, k, past, b, 0, i, 0);
    lemma_taken(w, g, a, q, k, v, past, b, 0, i, 0);
    let (g4, masked) = masked_of(g, a, q, k, past)->Ok_0;
    let soft = ops::softmax_op(g4.tape, masked, 3)->Ok_0;
    let g5 = World { tape: soft.0, ..g4 };
    assert(dropout::dropout_opt(g5, a.dropout, soft.1) == Ok::<(World, Traced), Fault>(
        (g5, soft.1),
    ));
    let ctx = ops::product_op(soft.0, Product::Plain, soft.1, v)->Ok_0;
    let (width, n) = (f.width as int, f.queries as int);
    assert(width > 0) by (nonlinear_arith)
        requires
            width == d[1] * d[3],
            d[1] > 0,
            d[3] > 0,
    ;
    lemma_joined(w, ctx.0, ctx.1, f, b, i, 0);
    let r8 = ops::permute_op(ctx.0, ctx.1, seq![0usize, 2, 1, 3])->Ok_0;
    let out = seq![f.b, f.queries, f.width];
    let flat = ops::reshape_op(r8.0, r8.1, out)->Ok_0;
    let g9 = World { tape: flat.0, ..g4 };
    let r = b * n + i;
    lemma_step(b, d[0] as int, i, n);
    let want = context(w, a, q.value, k.value, v.value, past as int, b, i);
    assert forall|x: int| 0 <= x < width implies row(w, flat.1.value, r, width)[x] == want[x] by {
        lemma_joined(w, ctx.0, ctx.1, f, b, i, x);
        let (h, e) = (x / d[3] as int, x % d[3] as int);
        assert(0 <= h < d[1] && 0 <= e < d[3]) by (nonlinear_arith)
            requires
                0 <= x < d[1] * d[3],
                d[3] > 0,
                h == x / d[3] as int,
                e == x % d[3] as int,
        ;
        lemma_taken(w, g, a, q, k, v, past, b, h, i, e);
    }
    assert(row(w, flat.1.value, r, width) =~= want);
    layer_laws::law_projection_is_affine(w, g9, a.o_proj, flat.1, outputs, r, c);
    lemma_flow(g, a, q, k, v, f);
    layer_laws::lemma_same_store(w, g, g9, a.o_proj.lora, want, outputs as int, c);
    assert(widened(out, outputs) =~= seq![f.b, f.queries, outputs]);
}

/// The steps of attention, one after another.
#[verifier::spinoff_prover]
proof fn lemma_flow(g: World, a: MultiHeadAttention, q: Traced, k: Traced, v: Traced, f: Frame)
    requires
        f.queries == q.value.dims[2],
        f.source == k.value.dims[2],
        idle(g, a.dropout),
        ({
            let turned = attention::transposed_op(g.tape, k);
            let raw = ops::product_op(turned->Ok_0.0, Product::Plain, q, turned->Ok_0.1);
            let m = masked_of(g, a, q, k, f.past);
            let soft = ops::softmax_op(m->Ok_0.0.tape, m->Ok_0.1, 3);
            let c = ops::product_op(soft->Ok_0.0, Product::Plain, soft->Ok_0.1, v);
            let p = ops::permute_op(c->Ok_0.0, c->Ok_0.1, seq![0usize, 2, 1, 3]);
            let flat = ops::reshape_op(p->Ok_0.0, p->Ok_0.1, seq![f.b, f.queries, f.width]);
            turned is Ok && raw is Ok && m is Ok && soft is Ok && c is Ok && p is Ok && flat is Ok
        }),
    ensures
        ({
            let m = masked_of(g, a, q, k, f.past)->Ok_0;
            let soft = ops::softmax_op(m.0.tape, m.1, 3)->Ok_0;
            let c = ops::product_op(soft.0, Product::Plain, soft.1, v)->Ok_0;
            let p = ops::permute_op(c.0, c.1, seq![0usize, 2, 1, 3])->Ok_0;
            let flat = ops::reshape_op(p.0, p.1, seq![f.b, f.queries, f.width])->Ok_0;
            attention::scored_op(g, a, q, k, v, f) == linear::linear_op(
                World { tape: flat.0, ..m.0 },
                a.o_proj,
                flat.1,
            )
        }),
{
    let m = masked_of(g, a, q, k, f.past)->Ok_0;
    assert(m.0.store == g.store);
    let soft = ops::softmax_op(m.0.tape, m.1, 3)->Ok_0;
    let g5 = World { tape: soft.0, ..m.0 };
    assert(dropout::dropout_opt(g5, a.dropout, soft.1) == Ok::<(World, Traced), Fault>(
        (g5, soft.1),
    ));
}

// -- queries, keys and values --------------------------------------------------------------

proof fn lemma_three(a: usize, b: usize, c: usize)
    ensures
        shape::product(seq![a, b, c]) == a * b * c,
        heights(seq![a, b, c]) == a * b,
{
    let s = seq![a, b, c];
    let e = shape::product(Seq::<usize>::empty());
    assert(s.drop_last() =~= seq![a, b]);
    assert(seq![a, b].drop_last() =~= seq![a]);
    assert(seq![a].drop_last() =~= Seq::<usize>::empty());
    assert(e * a == a) by (nonlinear_arith)
        requires
            e == 1,
    ;
    assert(shape::product(seq![a]) == a);
    assert(shape::product(seq![a, b]) == a * b);
}

/// A projection whose columns are cut into heads.
pub open spec fn branches(w: Reader, g: World, l: super::linear::Linear, x: Value, heads: usize, d: usize, total: usize) -> bool {
    &&& x.dims.len() == 3
    &&& w.fits(x)
    &&& total == heads * d
    &&& plain(w, g, l, x.dims[2], total)
    &&& l.lora matches Some(a) ==> weight(g, a.a).dims[1] > 0
    &&& x.dims[0] * x.dims[1] * total <= usize::MAX
}

/// A branch of attention is a projection of the input, its columns cut into heads: head `h` of
/// position `n` holds columns `h d` on of the projection of that position.
#[verifier::spinoff_prover]
pub proof fn law_a_branch_is_a_projection_cut_into_heads(
    w: Reader,
    g: World,
    l: super::linear::Linear,
    x: Traced,
    heads: usize,
    d: usize,
    total: usize,
    b: int,
    h: int,
    n: int,
    e: int,
)
    requires
        branches(w, g, l, x.value, heads, d, total),
        0 <= b < x.value.dims[0],
        0 <= n < x.value.dims[1],
        0 <= h < heads,
        0 <= e < d,
    ensures
        ({
            let out = seq![x.value.dims[0], heads, x.value.dims[1], d];
            let y = attention::branch_op(g, l, x, heads, d);
            &&& y is Ok
            &&& y->Ok_0.0.store == g.store
            &&& y->Ok_0.1.value.dims == out
            &&& w.fits(y->Ok_0.1.value)
            &&& w.at(y->Ok_0.1.value, cell(out, b, h, n, e)) == projected(
                w,
                g,
                l,
                row(w, x.value, b * x.value.dims[1] + n, x.value.dims[2] as int),
                total as int,
                h * d + e,
            )
        }),
{
    broadcast use var::lemma_record_value;

    let s = x.value.dims;
    assert(s =~= seq![s[0], s[1], s[2]]);
    lemma_three(s[0], s[1], s[2]);
    lemma_three(s[0], s[1], total);
    lemma_step(b, s[0] as int, n, s[1] as int);
    lemma_step(h, heads as int, e, d as int);
    let r = b * s[1] + n;
    let c = h * d + e;
    layer_laws::law_projection_is_affine(w, g, l, x, total, r, c);
    let (g1, v) = linear::linear_op(g, l, x)->Ok_0;
    assert(widened(s, total) =~= seq![s[0], s[1], total]);
    let cut = seq![s[0], s[1], heads, d];
    lemma_four(cut);
    let (n0, n1, hh, dd) = (s[0] as int, s[1] as int, heads as int, d as int);
    assert(n0 * n1 * (hh * dd) == n0 * n1 * hh * dd) by (nonlinear_arith);
    let r1 = ops::reshape_op(g1.tape, v, cut);
    assert(r1 is Ok);
    let at = cell(cut, b, n, h, e);
    lemma_reshaped(w, v.value, cut, at);
    assert(((b * n1 + n) * hh + h) * dd + e == (b * n1 + n) * (hh * dd) + (h * dd + e))
        by (nonlinear_arith);
    lemma_swapped(w, r1->Ok_0.0, r1->Ok_0.1, b, n, h, e);
}

// -- grouped heads -------------------------------------------------------------------------

/// Keys and values of fewer heads than there are queries: query head `h` reads key head
/// `h / (heads / key heads)`.
#[verifier::spinoff_prover]
pub proof fn law_grouped_heads_share_their_keys(
    w: Reader,
    t: Tape,
    a: MultiHeadAttention,
    x: Traced,
    b: int,
    h: int,
    n: int,
    e: int,
)
    requires
        x.value.dims.len() == 4,
        w.fits(x.value),
        x.value.dims[1] == a.n_kv_heads,
        x.value.dims[3] == a.head_dim,
        0 < a.n_kv_heads,
        a.n_heads % a.n_kv_heads == 0,
        x.value.dims[0] * a.n_heads * x.value.dims[2] * a.head_dim <= usize::MAX,
        0 <= b < x.value.dims[0],
        0 <= h < a.n_heads,
        0 <= n < x.value.dims[2],
        0 <= e < a.head_dim,
    ensures
        ({
            let s = x.value.dims;
            let out = seq![s[0], a.n_heads, s[2], s[3]];
            let y = attention::grown_op(t, a, x, s[0], s[2]);
            &&& y is Ok
            &&& y->Ok_0.1.value.dims == out
            &&& w.fits(y->Ok_0.1.value)
            &&& w.at(y->Ok_0.1.value, cell(out, b, h, n, e)) == w.at(
                x.value,
                cell(s, b, h / (a.n_heads as int / a.n_kv_heads as int), n, e),
            )
        }),
{
    broadcast use var::lemma_record_value;

    let s = x.value.dims;
    let (nb, kv, nh, ns, d) = (
        s[0] as int,
        a.n_kv_heads as int,
        a.n_heads as int,
        s[2] as int,
        a.head_dim as int,
    );
    let out = seq![s[0], a.n_heads, s[2], s[3]];
    if a.n_kv_heads == a.n_heads {
        assert(out =~= s);
        assert(nh / kv == 1) by (nonlinear_arith)
            requires
                nh == kv,
                kv > 0,
        ;
        assert(h / 1 == h) by (nonlinear_arith);
        assert(h / (nh / kv) == h);
        assert(attention::grown_op(t, a, x, s[0], s[2]) == Ok::<(Tape, Traced), Fault>((t, x)));
    } else {
        let rep = nh / kv;
        assert(rep * kv == nh && rep > 0) by (nonlinear_arith)
            requires
                nh % kv == 0,
                rep == nh / kv,
                kv > 0,
                nh > 0,
        ;
        let (k, q) = (h / rep, h % rep);
        assert(0 <= k < kv && 0 <= q < rep && h == k * rep + q) by (nonlinear_arith)
            requires
                0 <= h < rep * kv,
                rep > 0,
                k == h / rep,
                q == h % rep,
        ;
        let lifted = seq![s[0], a.n_kv_heads, 1usize, s[2], a.head_dim];
        let wide = seq![s[0], a.n_kv_heads, rep as usize, s[2], a.head_dim];
        lemma_five(lifted);
        lemma_five(wide);
        lemma_four(s);
        lemma_four(out);
        assert(nb * kv * 1 * ns * d == nb * kv * ns * d) by (nonlinear_arith);
        assert(nb * kv * rep * ns * d == nb * nh * ns * d) by (nonlinear_arith)
            requires
                rep * kv == nh,
        ;
        assert(nb * kv * ns * d <= nb * nh * ns * d) by (nonlinear_arith)
            requires
                rep * kv == nh,
                rep > 0,
                kv > 0,
                nb >= 0,
                ns >= 0,
                d >= 0,
        ;
        let r1 = ops::reshape_op(t, x, lifted);
        assert(r1 is Ok);
        let lv = tensor::reshape_of(x.value, lifted)->Ok_0;
        assert(r1->Ok_0.1.value == lv);
        lemma_reshaped(w, x.value, lifted, 0);
        // Every key head stands once per query head of its group.
        assert(shape::left_padded(lifted, 5) =~= lifted);
        assert(shape::left_padded(wide, 5) =~= wide);
        assert(shape::broadcast_dims(lifted, wide) =~= wide);
        assert(shape::compatible(lifted, wide));
        let r2 = ops::expand_op(r1->Ok_0.0, r1->Ok_0.1, wide);
        assert(r2 is Ok);
        let wv = tensor::expand_of(lv, wide)->Ok_0;
        assert(r2->Ok_0.1.value == wv);
        term::law_dims_entries(wide);
        let r3 = ops::reshape_op(r2->Ok_0.0, r2->Ok_0.1, out);
        assert(r3 is Ok);
        let i = (((b * kv + k) * rep + q) * ns + n) * d + e;
        lemma_reshaped(w, wv, out, i);
        lemma_group_place(wide, b, k, q, n, e);
        assert(w.at(wv, i) == w.at(lv, shape::place(i, wide, lifted)));
        let j = ((b * kv + k) * ns + n) * d + e;
        lemma_reshaped(w, x.value, lifted, j);
        assert((b * kv + k) * rep + q == b * nh + h) by (nonlinear_arith)
            requires
                rep * kv == nh,
                h == k * rep + q,
        ;
        assert(cell(out, b, h, n, e) == i);
        assert(lifted =~= wide.update(2, 1usize));
        assert(cell(s, b, k, n, e) == j);
        assert(r3->Ok_0.1.value == tensor::reshape_of(wv, out)->Ok_0);
        assert(attention::grown_op(t, a, x, s[0], s[2]) == r3);
    }
}

proof fn lemma_five(s: Seq<usize>)
    requires
        s.len() == 5,
    ensures
        shape::product(s) == s[0] * s[1] * s[2] * s[3] * s[4],
{
    assert(s.drop_last() =~= seq![s[0], s[1], s[2], s[3]]);
    lemma_four(seq![s[0], s[1], s[2], s[3]]);
}

/// Where an element of a group of heads reads.
#[verifier::spinoff_prover]
proof fn lemma_group_place(wide: Seq<usize>, b: int, k: int, q: int, n: int, e: int)
    requires
        wide.len() == 5,
        0 <= b < wide[0],
        0 <= k < wide[1],
        0 <= q < wide[2],
        0 <= n < wide[3],
        0 <= e < wide[4],
    ensures
        shape::place(
            (((b * wide[1] + k) * wide[2] + q) * wide[3] + n) * wide[4] + e,
            wide,
            wide.update(2, 1usize),
        ) == ((b * wide[1] + k) * wide[3] + n) * wide[4] + e,
{
    let one = wide.update(2, 1usize);
    let (n0, n1, n2, n3, n4) = (
        wide[0] as int,
        wide[1] as int,
        wide[2] as int,
        wide[3] as int,
        wide[4] as int,
    );
    let p = b * n1 + k;
    lemma_step(b, n0, k, n1);
    let u = p * n2 + q;
    lemma_step(p, n0 * n1, q, n2);
    let v = u * n3 + n;
    lemma_step(u, n0 * n1 * n2, n, n3);
    lemma_step(v, n0 * n1 * n2 * n3, e, n4);
    let (w4, o4) = (wide.drop_last(), one.drop_last());
    let (w3, o3) = (w4.drop_last(), o4.drop_last());
    let (w2, o2) = (w3.drop_last(), o3.drop_last());
    assert(o2 =~= w2);
    assert(w2 =~= seq![wide[0], wide[1]]);
    let z = shape::product(Seq::<usize>::empty());
    assert(z * wide[0] == wide[0]) by (nonlinear_arith)
        requires
            z == 1,
    ;
    assert(w2.drop_last() =~= seq![wide[0]]);
    assert(seq![wide[0]].drop_last() =~= Seq::<usize>::empty());
    assert(shape::product(seq![wide[0]]) == wide[0]);
    assert(shape::product(w2) == n0 * n1);
    shape::lemma_place_same(p, w2);
    assert(shape::place(u, w3, o3) == p) by {
        assert(o3.last() == 1 && w3.last() == n2);
        assert(p * 1 == p);
    }
    assert(shape::place(v, w4, o4) == p * n3 + n) by {
        assert(o4.last() == n3 && w4.last() == n3);
        if n3 == 1 {
            assert(n == 0);
        }
    }
    if n4 == 1 {
        assert(e == 0);
    }
}

// -- the cache -----------------------------------------------------------------------------

/// What was cached comes first, in its order, and what is new after it.
#[verifier::spinoff_prover]
pub proof fn law_new_positions_follow_the_cached(
    w: Reader,
    t: Tape,
    before: Option<Value>,
    now: Traced,
    b: int,
    h: int,
    n: int,
    e: int,
)
    requires
        now.value.dims.len() == 4,
        w.fits(now.value),
        before matches Some(p) ==> w.fits(p) && p.dims == seq![
            now.value.dims[0],
            now.value.dims[1],
            p.dims[2],
            now.value.dims[3],
        ] && p.dims[2] + now.value.dims[2] <= usize::MAX,
        0 <= b < now.value.dims[0],
        0 <= h < now.value.dims[1],
        0 <= n < attention::positions(before) + now.value.dims[2],
        0 <= e < now.value.dims[3],
    ensures
        ({
            let s = now.value.dims;
            let past = attention::positions(before) as int;
            let out = seq![s[0], s[1], (past + s[2]) as usize, s[3]];
            let y = attention::appended_op(t, before, now);
            &&& y is Ok
            &&& y->Ok_0.1.value.dims == out
            &&& w.fits(y->Ok_0.1.value)
            &&& w.at(y->Ok_0.1.value, cell(out, b, h, n, e)) == if n < past {
                w.at(before->0, cell(before->0.dims, b, h, n, e))
            } else {
                w.at(now.value, cell(s, b, h, n - past, e))
            }
        }),
{
    broadcast use var::lemma_record_value;

    let s = now.value.dims;
    assert(s =~= seq![s[0], s[1], s[2], s[3]]);
    if let Some(p) = before {
        let (past, fresh, d) = (p.dims[2], s[2], s[3] as int);
        let all = (past + fresh) as usize;
        let out = seq![s[0], s[1], all, s[3]];
        let parts = seq![ops::untracked(p), now];
        let vs = ops::plain_values(parts);
        assert(vs =~= seq![p, now.value]);
        let ex = tensor::extents(vs, 2);
        assert(ex =~= seq![past, fresh]);
        assert(ex.drop_last() =~= seq![past]);
        assert(seq![past].drop_last() =~= Seq::<usize>::empty());
        reveal_with_fuel(tensor::total, 3);
        assert(tensor::total(ex) == past + fresh);
        assert(p.dims.update(2, 0usize) =~= s.update(2, 0usize));
        let v = tensor::cat_of(vs, 2)->Ok_0;
        assert(v.dims =~= out);
        let y = ops::cat_op(t, parts, 2);
        assert(y is Ok && y->Ok_0.1.value == v);
        let terms = vs.map_values(|x: Value| x.term);
        assert(terms =~= seq![p.term, now.value.term]);
        buffer::lemma_all(w, terms);
        let held = buffer::all(w, term::terms(terms));
        let (x, z) = (w.of(p.term), w.of(now.value.term));
        assert(held =~= seq![x, z]);
        let rest = held.drop_first();
        assert(rest =~= seq![z]);
        assert(rest.drop_first() =~= Seq::empty());
        reveal_with_fuel(buffer::extent, 3);
        assert(buffer::extent(held, 2) == all);
        lemma_four(p.dims);
        assert(buffer::inner(p.dims, 2) == d);
        let i = cell(out, b, h, n, e);
        let q = b * s[1] + h;
        lemma_step(b, s[0] as int, h, s[1] as int);
        lemma_step(q, s[0] * s[1], n, all as int);
        lemma_step(q * all + n, s[0] * s[1] * all, e, d);
        vstd::arithmetic::div_mod::lemma_div_denominator(i, d, all as int);
        assert(d * all == all * d) by (nonlinear_arith);
        assert(w.of(v.term).dims =~= out);
        assert(w.at(v, i) == buffer::joined(held, 2, q, n, e, d));
        reveal_with_fuel(buffer::joined, 3);
    }
}

} // verus!
