//! What the layers compute, element by element, over the real numbers.

use vstd::prelude::*;

use super::dropout;
use super::dropout::Dropout;
use super::flow;
use super::flow::World;
use super::linear;
use super::linear::Linear;
use super::lora;
use super::lora::LoraLinear;
use super::mlp;
use super::mlp::{Activation, Mlp};
use super::norm;
use super::norm::RmsNorm;
use super::param;
use super::param::Param;
use super::quant;
use super::value_readings::{
    entry_or, heights, inside, lemma_columns, lemma_each, lemma_entry, lemma_pair, lemma_plus,
    lemma_product, lemma_reduced, lemma_rows, lemma_times, lemma_var, row, row_times_column,
    stored, stored_opt, weight,
};
use crate::autograd::graph::Tape;
use crate::autograd::ops;
use crate::autograd::var;
use crate::autograd::var::Traced;
use crate::buffer;
use crate::buffer::Reader;
use crate::distributions::rows;
use crate::layer_kernels::{dot, products};
use crate::meaning;
use crate::shape;
use crate::tensor;
use crate::tensor::Value;
use crate::term::{Binary, Product, Reduce, Scalar, Unary};

verus! {

// -- dropout -------------------------------------------------------------------------------

/// Whether a dropout layer lets everything through: there is none, or it evaluates.
pub open spec fn idle(g: World, d: Option<Dropout>) -> bool {
    d matches Some(l) ==> g.store.drops.contains_key(l.id) && !g.store.drops[l.id].training
}

// -- projections ---------------------------------------------------------------------------

/// A projection without quantizers, whose parameters the store holds.
pub open spec fn plain(w: Reader, g: World, l: Linear, inputs: usize, outputs: usize) -> bool {
    &&& l.weight_quant is None
    &&& l.activation_quant is None
    &&& stored(w, g, l.weight, seq![inputs, outputs])
    &&& stored_opt(w, g, l.bias, seq![outputs])
    &&& l.lora matches Some(a) ==> adapts(w, g, a, inputs, outputs)
}

/// An adapter whose parameters the store holds.
pub open spec fn adapts(w: Reader, g: World, a: LoraLinear, inputs: usize, outputs: usize) -> bool {
    &&& idle(g, a.dropout)
    &&& g.store.weights.contains_key(a.a.key())
    &&& weight(g, a.a).dims.len() == 2
    &&& stored(w, g, a.a, seq![inputs, weight(g, a.a).dims[1]])
    &&& stored(w, g, a.b, seq![weight(g, a.a).dims[1], outputs])
}

/// A row times the first matrix of an adapter.
pub open spec fn squeezed(w: Reader, g: World, a: LoraLinear, x: Seq<real>) -> Seq<real> {
    let m = weight(g, a.a);
    Seq::new(
        m.dims[1] as nat,
        |j: int| row_times_column(w, x, m, m.dims[1] as int, j),
    )
}

/// What an adapter adds to entry `c` of the projection of a row: `scaling x A B`.
pub open spec fn adapted(w: Reader, g: World, l: Option<LoraLinear>, x: Seq<real>, outputs: int, c: int) -> real {
    match l {
        Some(a) => row_times_column(w, squeezed(w, g, a, x), weight(g, a.b), outputs, c)
            * meaning::scalar(w.m.f, a.scaling),
        None => 0real,
    }
}

/// Entry `c` of the projection of a row: `x W + scaling x A B + b`.
pub open spec fn projected(w: Reader, g: World, l: Linear, x: Seq<real>, outputs: int, c: int) -> real {
    row_times_column(w, x, weight(g, l.weight), outputs, c) + adapted(w, g, l.lora, x, outputs, c)
        + entry_or(w, g, l.bias, c, 0real)
}

/// The shape of a projection.
pub open spec fn widened(d: Seq<usize>, outputs: usize) -> Seq<usize> {
    d.drop_last().push(outputs)
}

#[verifier::spinoff_prover]
proof fn lemma_delta(w: Reader, g: World, a: LoraLinear, x: Traced, outputs: usize, r: int, c: int)
    requires
        x.value.dims.len() >= 2,
        w.fits(x.value),
        adapts(w, g, a, x.value.dims.last(), outputs),
        0 <= r < heights(x.value.dims),
        0 <= c < outputs,
        weight(g, a.a).dims[1] > 0,
    ensures
        ({
            let d = lora::delta_op(g, a, x);
            let xs = row(w, x.value, r, x.value.dims.last() as int);
            &&& d is Ok
            &&& d->Ok_0.0.store == g.store
            &&& d->Ok_0.1.value.dims == widened(x.value.dims, outputs)
            &&& w.fits(d->Ok_0.1.value)
            &&& w.at(d->Ok_0.1.value, r * outputs + c) == adapted(
                w,
                g,
                Some(a),
                xs,
                outputs as int,
                c,
            )
        }),
{
    broadcast use var::lemma_record_value;

    let d = x.value.dims;
    let (m, n) = (weight(g, a.a), weight(g, a.b));
    let k = m.dims[1];
    let xs = row(w, x.value, r, d.last() as int);
    assert(dropout::dropout_opt(g, a.dropout, x) == Ok::<(World, Traced), crate::error::Fault>(
        (g, x),
    ));
    lemma_var(g, a.a.key(), x);
    let (g2, va) = param::var_op(g, a.a.key(), x)->Ok_0;
    lemma_product(w, x.value, m, r, 0);
    let r3 = ops::product_op(g2.tape, Product::Plain, x, va);
    let low = tensor::product_of(Product::Plain, x.value, m)->Ok_0;
    assert(r3 is Ok && r3->Ok_0.1.value == low);
    let g3 = World { tape: r3->Ok_0.0, ..g2 };
    lemma_var(g3, a.b.key(), x);
    let (g4, vb) = param::var_op(g3, a.b.key(), x)->Ok_0;
    assert(low.dims.drop_last() =~= d.drop_last());
    lemma_product(w, low, n, r, c);
    let full = tensor::product_of(Product::Plain, low, n)->Ok_0;
    let r5 = ops::product_op(g4.tape, Product::Plain, r3->Ok_0.1, vb);
    assert(r5 is Ok && r5->Ok_0.1.value == full);
    assert(full.dims =~= widened(d, outputs));
    lemma_each(w, Unary::MulScalar(a.scaling), full, r * outputs + c);
    let sq = squeezed(w, g, a, xs);
    assert forall|j: int| 0 <= j < k implies row(w, low, r, k as int)[j] == sq[j] by {
        lemma_product(w, x.value, m, r, j);
    }
    assert(row(w, low, r, k as int) =~= sq);
}

#[verifier::spinoff_prover]
proof fn lemma_adapted(
    w: Reader,
    g: World,
    l: Option<LoraLinear>,
    x: Traced,
    product: Traced,
    outputs: usize,
    r: int,
    c: int,
)
    requires
        x.value.dims.len() >= 2,
        w.fits(x.value),
        w.fits(product.value),
        product.value.dims == widened(x.value.dims, outputs),
        l matches Some(a) ==> adapts(w, g, a, x.value.dims.last(), outputs) && weight(
            g,
            a.a,
        ).dims[1] > 0,
        0 <= r < heights(x.value.dims),
        0 <= c < outputs,
    ensures
        ({
            let y = lora::plus_delta(g, product, l, x);
            let xs = row(w, x.value, r, x.value.dims.last() as int);
            let i = r * outputs + c;
            &&& y is Ok
            &&& y->Ok_0.0.store == g.store
            &&& y->Ok_0.1.value.dims == product.value.dims
            &&& w.fits(y->Ok_0.1.value)
            &&& w.at(y->Ok_0.1.value, i) == w.at(product.value, i) + adapted(
                w,
                g,
                l,
                xs,
                outputs as int,
                c,
            )
        }),
{
    broadcast use var::lemma_record_value;

    let out = product.value.dims;
    assert(out.drop_last() =~= x.value.dims.drop_last());
    lemma_entry(out, r, c);
    if l is Some {
        let a = l->0;
        lemma_delta(w, g, a, x, outputs, r, c);
        let (g5, delta) = lora::delta_op(g, a, x)->Ok_0;
        lemma_pair(w, Binary::Add, product.value, delta.value, r * outputs + c);
        let z = ops::binary_op(g5.tape, Binary::Add, product, delta);
        assert(z is Ok && z->Ok_0.1.value == tensor::binary_of(
            Binary::Add,
            product.value,
            delta.value,
        )->Ok_0);
    }
}

/// A projection multiplies every row by the weight, adds `scaling x A B` where it has an
/// adapter, and adds the bias where it has one.
#[verifier::spinoff_prover]
pub proof fn law_projection_is_affine(
    w: Reader,
    g: World,
    l: Linear,
    x: Traced,
    outputs: usize,
    r: int,
    c: int,
)
    requires
        x.value.dims.len() >= 2,
        w.fits(x.value),
        plain(w, g, l, x.value.dims.last(), outputs),
        l.lora matches Some(a) ==> weight(g, a.a).dims[1] > 0,
        0 <= r < heights(x.value.dims),
        0 <= c < outputs,
    ensures
        ({
            let y = linear::linear_op(g, l, x);
            &&& y is Ok
            &&& y->Ok_0.0.store == g.store
            &&& y->Ok_0.1.value.dims == widened(x.value.dims, outputs)
            &&& w.fits(y->Ok_0.1.value)
            &&& w.at(y->Ok_0.1.value, r * outputs + c) == projected(
                w,
                g,
                l,
                row(w, x.value, r, x.value.dims.last() as int),
                outputs as int,
                c,
            )
        }),
{
    broadcast use var::lemma_record_value;

    reveal(linear::linear_op);
    let d = x.value.dims;
    let m = weight(g, l.weight);
    let xs = row(w, x.value, r, d.last() as int);
    lemma_var(g, l.weight.key(), x);
    let (g2, raw) = param::var_op(g, l.weight.key(), x)->Ok_0;
    lemma_product(w, x.value, m, r, c);
    let product = tensor::product_of(Product::Plain, x.value, m)->Ok_0;
    let r4 = ops::product_op(g2.tape, Product::Plain, x, raw);
    assert(r4 is Ok && r4->Ok_0.1.value == product);
    let g4 = World { tape: r4->Ok_0.0, ..g2 };
    let out = widened(d, outputs);
    assert(out.drop_last() =~= d.drop_last());
    lemma_adapted(w, g4, l.lora, x, r4->Ok_0.1, outputs, r, c);
    let (g6, sum) = lora::plus_delta(g4, r4->Ok_0.1, l.lora, x)->Ok_0;
    lemma_plus(w, g6, sum, l.bias, x, r, c);
    assert(linear::linear_op(g, l, x) == param::plus_op(g6, sum, l.bias, x));
    lemma_same_store(w, g, g4, l.lora, xs, outputs as int, c);
}

pub proof fn lemma_same_store(w: Reader, g: World, h: World, l: Option<LoraLinear>, x: Seq<real>, outputs: int, c: int)
    requires
        g.store == h.store,
    ensures
        adapted(w, g, l, x, outputs, c) == adapted(w, h, l, x, outputs, c),
{
    if l is Some {
        assert(squeezed(w, g, l->0, x) =~= squeezed(w, h, l->0, x));
    }
}

// -- normalisation -------------------------------------------------------------------------

/// The factor that brings a row to a root mean square of one.
pub open spec fn rms_factor(w: Reader, eps: u32, x: Seq<real>) -> real {
    1real / (w.m.f.sqrt)(
        dot(x, x) / (x.len() as int as real) + meaning::scalar(w.m.f, Scalar::Bits(eps)),
    )
}

/// Root-mean-square normalisation scales every row by the reciprocal root of its mean square
/// plus the floor, and multiplies by the gain where there is one.
#[verifier::spinoff_prover]
pub proof fn law_rms_layer_scales_rows(w: Reader, g: World, l: RmsNorm, x: Traced, r: int, c: int)
    requires
        x.value.dims.len() <= usize::MAX,
        inside(x.value.dims, r, c),
        x.value.dims.last() == l.dim,
        w.fits(x.value),
        stored_opt(w, g, l.weight, seq![l.dim]),
    ensures
        ({
            let y = norm::rms_op(g, l, x);
            let xs = row(w, x.value, r, l.dim as int);
            &&& y is Ok
            &&& y->Ok_0.0.store == g.store
            &&& y->Ok_0.1.value.dims == x.value.dims
            &&& w.fits(y->Ok_0.1.value)
            &&& w.at(y->Ok_0.1.value, r * l.dim + c) == xs[c] * rms_factor(w, l.eps, xs) * entry_or(
                w,
                g,
                l.weight,
                c,
                1real,
            )
        }),
{
    broadcast use var::lemma_record_value;

    reveal(norm::rms_op);
    let d = x.value.dims;
    let k = l.dim as int;
    let last = (d.len() - 1) as usize;
    let i = r * l.dim + c;
    lemma_entry(d, r, c);
    lemma_pair(w, Binary::Mul, x.value, x.value, i);
    let square = tensor::binary_of(Binary::Mul, x.value, x.value)->Ok_0;
    lemma_reduced(w, Reduce::Mean, square, r);
    let mean = tensor::reduce_of(Reduce::Mean, square, last)->Ok_0;
    let xs = row(w, x.value, r, k);
    assert forall|j: int| 0 <= j < k implies row(w, square, r, k)[j] == products(xs, xs)[j] by {
        lemma_entry(d, r, j);
        lemma_pair(w, Binary::Mul, x.value, x.value, r * l.dim + j);
    }
    assert(row(w, square, r, k) =~= products(xs, xs));
    lemma_each(w, Unary::AddScalar(Scalar::Bits(l.eps)), mean, r);
    let shifted = tensor::unary_of(Unary::AddScalar(Scalar::Bits(l.eps)), mean);
    lemma_each(w, Unary::Rsqrt, shifted, r);
    let scale = tensor::unary_of(Unary::Rsqrt, shifted);
    lemma_rows(w, Binary::Mul, x.value, scale, r, c);
    let normed = tensor::binary_of(Binary::Mul, x.value, scale)->Ok_0;
    assert(w.at(normed, i) == xs[c] * rms_factor(w, l.eps, xs));
    let r1 = ops::binary_op(g.tape, Binary::Mul, x, x);
    let r2 = ops::reduce_op(r1->Ok_0.0, Reduce::Mean, r1->Ok_0.1, last);
    let r3 = ops::pointwise_op(
        r2->Ok_0.0,
        Unary::AddScalar(Scalar::Bits(l.eps)),
        r2->Ok_0.1,
    );
    let r4 = ops::pointwise_op(r3.0, Unary::Rsqrt, r3.1);
    let r5 = ops::binary_op(r4.0, Binary::Mul, x, r4.1);
    assert(r1->Ok_0.1.value == square);
    assert(r2 is Ok && r2->Ok_0.1.value == mean);
    assert(r4.1.value == scale);
    assert(r5 is Ok && r5->Ok_0.1.value == normed);
    let g5 = World { tape: r5->Ok_0.0, ..g };
    lemma_times(w, g5, r5->Ok_0.1, l.weight, x, r, c);
    assert(norm::normed_op(g, l, x) == param::times_op(g5, r5->Ok_0.1, l.weight, x));
}

} // verus!
