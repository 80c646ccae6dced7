//! What feed-forward blocks, layer normalisation and dropout compute, over the real numbers.

use vstd::prelude::*;

use super::dropout;
use super::dropout::Dropout;
use super::flow;
use super::flow::World;
use super::layer_laws;
use super::layer_laws::{idle, plain, projected, widened};
use super::linear;
use super::linear::Linear;
use super::mlp;
use super::mlp::{Activation, Mlp};
use super::norm;
use super::norm::LayerNorm;
use super::param;
use super::value_readings::{
    entry_or, heights, inside, lemma_each, lemma_entry, lemma_pair, lemma_plus, lemma_reduced,
    lemma_rows, lemma_times, row, stored_opt, weight,
};
use crate::autograd::graph;
use crate::autograd::graph::Tape;
use crate::autograd::ops;
use crate::autograd::var;
use crate::autograd::var::Traced;
use crate::buffer;
use crate::buffer::Reader;
use crate::distributions::rows;
use crate::error::Fault;
use crate::layer_kernels::products;
use crate::meaning;
use crate::meaning::Functions;
use crate::shape;
use crate::single;
use crate::tensor;
use crate::tensor::Value;
use crate::term::{Binary, Fused, Reduce, Scalar, Unary};

verus! {

// -- activations ---------------------------------------------------------------------------

/// What an activation makes of a number.
pub open spec fn activated(f: Functions, a: Activation, x: real) -> real {
    match a {
        Activation::Silu => x * (f.sigmoid)(x),
        Activation::Gelu => x * (((f.erf)(x * (f.constant)(Scalar::InvSqrt(2))) + 1real) * (1real
            / 2real)),
        Activation::Relu => if x > 0real {
            x
        } else {
            0real
        },
        Activation::Tanh => (f.tanh)(x),
        Activation::Identity => x,
    }
}

/// An activation applies its function to every element.
#[verifier::spinoff_prover]
pub proof fn law_an_activation_applies_its_function(
    w: Reader,
    t: Tape,
    a: Activation,
    x: Traced,
    i: int,
)
    requires
        w.fits(x.value),
        0 <= i < shape::product(x.value.dims),
    ensures
        ({
            let y = mlp::activation_op(t, a, x);
            &&& y is Ok
            &&& y->Ok_0.1.value.dims == x.value.dims
            &&& w.fits(y->Ok_0.1.value)
            &&& w.at(y->Ok_0.1.value, i) == activated(w.m.f, a, w.at(x.value, i))
        }),
{
    broadcast use var::lemma_record_value;

    match a {
        Activation::Silu => lemma_each(w, Unary::Silu, x.value, i),
        Activation::Relu => lemma_each(w, Unary::Relu, x.value, i),
        Activation::Tanh => lemma_each(w, Unary::Tanh, x.value, i),
        Activation::Identity => {},
        Activation::Gelu => {
            let by = Unary::MulScalar(Scalar::InvSqrt(2));
            let v1 = tensor::unary_of(by, x.value);
            let v2 = tensor::unary_of(Unary::Erf, v1);
            let v3 = tensor::unary_of(Unary::AddScalar(Scalar::Int(1)), v2);
            let v4 = tensor::unary_of(Unary::MulScalar(Scalar::Frac(1, 2)), v3);
            lemma_each(w, by, x.value, i);
            lemma_each(w, Unary::Erf, v1, i);
            lemma_each(w, Unary::AddScalar(Scalar::Int(1)), v2, i);
            lemma_each(w, Unary::MulScalar(Scalar::Frac(1, 2)), v3, i);
            lemma_pair(w, Binary::Mul, x.value, v4, i);
            let (t1, a1) = ops::pointwise_op(t, by, x);
            let (t2, a2) = ops::pointwise_op(t1, Unary::Erf, a1);
            let (t3, a3) = ops::pointwise_op(t2, Unary::AddScalar(Scalar::Int(1)), a2);
            let (t4, a4) = ops::pointwise_op(t3, Unary::MulScalar(Scalar::Frac(1, 2)), a3);
            assert(a1.value == v1 && a2.value == v2 && a3.value == v3 && a4.value == v4);
            let z = ops::binary_op(t4, Binary::Mul, x, a4);
            assert(ops::gelu_op(t, x) == z);
        },
    }
}

// -- feed-forward blocks -------------------------------------------------------------------

/// The hidden row of a block: the activated gate times the up projection, or the
/// activation of the up projection where there is no gate.
pub open spec fn hidden(w: Reader, g: World, m: Mlp, x: Seq<real>, width: int) -> Seq<real> {
    Seq::new(
        width as nat,
        |j: int|
            match m.gate {
                Some(gate) => activated(w.m.f, m.activation, projected(w, g, gate, x, width, j))
                    * projected(w, g, m.up, x, width, j),
                None => activated(w.m.f, m.activation, projected(w, g, m.up, x, width, j)),
            },
    )
}

/// A projection without quantizers whose adapter, if any, is not empty.
pub open spec fn ready(w: Reader, g: World, l: Linear, inputs: usize, outputs: usize) -> bool {
    &&& plain(w, g, l, inputs, outputs)
    &&& l.lora matches Some(a) ==> weight(g, a.a).dims[1] > 0
}

/// A block whose parameters the store holds.
pub open spec fn feeds(w: Reader, g: World, m: Mlp, inputs: usize, width: usize, outputs: usize) -> bool {
    &&& ready(w, g, m.up, inputs, width)
    &&& m.gate matches Some(l) ==> ready(w, g, l, inputs, width)
    &&& ready(w, g, m.down, width, outputs)
    &&& idle(g, m.dropout)
}

#[verifier::spinoff_prover]
proof fn lemma_hidden(w: Reader, g: World, m: Mlp, x: Traced, width: usize, outputs: usize, r: int, j: int)
    requires
        x.value.dims.len() >= 2,
        w.fits(x.value),
        feeds(w, g, m, x.value.dims.last(), width, outputs),
        0 <= r < heights(x.value.dims),
        0 <= j < width,
    ensures
        ({
            let y = mlp::hidden_op(g, m, x);
            let xs = row(w, x.value, r, x.value.dims.last() as int);
            &&& y is Ok
            &&& y->Ok_0.0.store == g.store
            &&& y->Ok_0.1.value.dims == widened(x.value.dims, width)
            &&& w.fits(y->Ok_0.1.value)
            &&& w.at(y->Ok_0.1.value, r * width + j) == hidden(w, g, m, xs, width as int)[j]
        }),
{
    broadcast use var::lemma_record_value;

    let d = x.value.dims;
    let out = widened(d, width);
    assert(out.drop_last() =~= d.drop_last());
    lemma_entry(out, r, j);
    let i = r * width + j;
    let xs = row(w, x.value, r, d.last() as int);
    match m.gate {
        Some(gate) => {
            layer_laws::law_projection_is_affine(w, g, gate, x, width, r, j);
            let (g1, a) = linear::linear_op(g, gate, x)->Ok_0;
            law_an_activation_applies_its_function(w, g1.tape, m.activation, a, i);
            let (t2, b) = mlp::activation_op(g1.tape, m.activation, a)->Ok_0;
            let g2 = World { tape: t2, ..g1 };
            layer_laws::law_projection_is_affine(w, g2, m.up, x, width, r, j);
            let (g3, u) = linear::linear_op(g2, m.up, x)->Ok_0;
            layer_laws::lemma_same_store(w, g, g2, m.up.lora, xs, width as int, j);
            lemma_pair(w, Binary::Mul, b.value, u.value, i);
            let z = ops::binary_op(g3.tape, Binary::Mul, b, u);
            assert(z is Ok);
        },
        None => {
            layer_laws::law_projection_is_affine(w, g, m.up, x, width, r, j);
            let (g1, u) = linear::linear_op(g, m.up, x)->Ok_0;
            law_an_activation_applies_its_function(w, g1.tape, m.activation, u, i);
        },
    }
}

/// A feed-forward block projects down the activation of its gate times its up projection, row
/// by row.
#[verifier::spinoff_prover]
pub proof fn law_a_block_gates_and_projects(
    w: Reader,
    g: World,
    m: Mlp,
    x: Traced,
    width: usize,
    outputs: usize,
    r: int,
    c: int,
)
    requires
        x.value.dims.len() >= 2,
        w.fits(x.value),
        feeds(w, g, m, x.value.dims.last(), width, outputs),
        0 <= r < heights(x.value.dims),
        0 <= c < outputs,
        0 < width,
    ensures
        ({
            let y = mlp::mlp_op(g, m, x);
            let xs = row(w, x.value, r, x.value.dims.last() as int);
            &&& y is Ok
            &&& y->Ok_0.0.store == g.store
            &&& y->Ok_0.1.value.dims == widened(x.value.dims, outputs)
            &&& w.fits(y->Ok_0.1.value)
            &&& w.at(y->Ok_0.1.value, r * outputs + c) == projected(
                w,
                g,
                m.down,
                hidden(w, g, m, xs, width as int),
                outputs as int,
                c,
            )
        }),
{
    let d = x.value.dims;
    let xs = row(w, x.value, r, d.last() as int);
    lemma_hidden(w, g, m, x, width, outputs, r, 0);
    let (g1, h) = mlp::hidden_op(g, m, x)->Ok_0;
    let want = hidden(w, g, m, xs, width as int);
    assert forall|j: int| 0 <= j < width implies row(w, h.value, r, width as int)[j] == want[j] by {
        lemma_hidden(w, g, m, x, width, outputs, r, j);
    }
    assert(row(w, h.value, r, width as int) =~= want);
    assert(h.value.dims.drop_last() =~= d.drop_last());
    layer_laws::law_projection_is_affine(w, g1, m.down, h, outputs, r, c);
    layer_laws::lemma_same_store(w, g, g1, m.down.lora, want, outputs as int, c);
    assert(widened(h.value.dims, outputs) =~= widened(d, outputs));
}

// -- layer normalisation -------------------------------------------------------------------

/// The mean of a row.
pub open spec fn mean(x: Seq<real>) -> real {
    rows::sum(x, x.len()) / (x.len() as int as real)
}

/// A row less its mean.
pub open spec fn centred(x: Seq<real>) -> Seq<real> {
    Seq::new(x.len(), |j: int| x[j] - mean(x))
}

/// The mean of the squares of a centred row.
pub open spec fn variance(x: Seq<real>) -> real {
    let c = centred(x);
    mean(Seq::new(x.len(), |j: int| c[j] * c[j]))
}

#[verifier::spinoff_prover]
proof fn lemma_centred(w: Reader, x: Value, r: int, c: int)
    requires
        x.dims.len() <= usize::MAX,
        inside(x.dims, r, c),
        w.fits(x),
    ensures
        ({
            let last = (x.dims.len() - 1) as usize;
            let k = x.dims.last() as int;
            let xs = row(w, x, r, k);
            let m = tensor::reduce_of(Reduce::Mean, x, last);
            let d = tensor::binary_of(Binary::Sub, x, m->Ok_0);
            let s = tensor::binary_of(Binary::Mul, d->Ok_0, d->Ok_0);
            let v = tensor::reduce_of(Reduce::Mean, s->Ok_0, last);
            &&& m is Ok && d is Ok && s is Ok && v is Ok
            &&& w.fits(d->Ok_0) && d->Ok_0.dims == x.dims
            &&& w.at(d->Ok_0, r * k + c) == centred(xs)[c]
            &&& w.fits(v->Ok_0) && v->Ok_0.dims == x.dims.update(x.dims.len() - 1, 1usize)
            &&& w.at(v->Ok_0, r) == variance(xs)
        }),
{
    let last = (x.dims.len() - 1) as usize;
    let k = x.dims.last() as int;
    let xs = row(w, x, r, k);
    lemma_reduced(w, Reduce::Mean, x, r);
    let m = tensor::reduce_of(Reduce::Mean, x, last)->Ok_0;
    lemma_rows(w, Binary::Sub, x, m, r, c);
    let d = tensor::binary_of(Binary::Sub, x, m)->Ok_0;
    lemma_entry(x.dims, r, c);
    lemma_pair(w, Binary::Mul, d, d, r * k + c);
    let s = tensor::binary_of(Binary::Mul, d, d)->Ok_0;
    lemma_reduced(w, Reduce::Mean, s, r);
    let cs = centred(xs);
    let sq = Seq::new(xs.len(), |j: int| cs[j] * cs[j]);
    assert forall|j: int| 0 <= j < k implies row(w, s, r, k)[j] == sq[j] by {
        lemma_rows(w, Binary::Sub, x, m, r, j);
        lemma_entry(x.dims, r, j);
        lemma_pair(w, Binary::Mul, d, d, r * k + j);
    }
    assert(row(w, s, r, k) =~= sq);
}

/// Layer normalisation centres every row, divides by the root of its variance plus the floor,
/// multiplies by the gain and adds the shift, where there are any.
#[verifier::spinoff_prover]
pub proof fn law_layer_norm_centres_and_scales(
    w: Reader,
    g: World,
    l: LayerNorm,
    x: Traced,
    r: int,
    c: int,
)
    requires
        x.value.dims.len() <= usize::MAX,
        inside(x.value.dims, r, c),
        w.fits(x.value),
        stored_opt(w, g, l.weight, seq![x.value.dims.last()]),
        stored_opt(w, g, l.bias, seq![x.value.dims.last()]),
    ensures
        ({
            let k = x.value.dims.last() as int;
            let xs = row(w, x.value, r, k);
            let y = norm::layer_norm_op(g, l, x);
            &&& y is Ok
            &&& y->Ok_0.0.store == g.store
            &&& y->Ok_0.1.value.dims == x.value.dims
            &&& w.at(y->Ok_0.1.value, r * k + c) == centred(xs)[c] * (1real / (w.m.f.sqrt)(
                variance(xs) + meaning::scalar(w.m.f, Scalar::Bits(l.eps)),
            )) * entry_or(w, g, l.weight, c, 1real) + entry_or(w, g, l.bias, c, 0real)
        }),
{
    broadcast use var::lemma_record_value;

    let d = x.value.dims;
    let last = (d.len() - 1) as usize;
    let k = d.last() as int;
    lemma_centred(w, x.value, r, c);
    let mv = tensor::reduce_of(Reduce::Mean, x.value, last)->Ok_0;
    let cv = tensor::binary_of(Binary::Sub, x.value, mv)->Ok_0;
    let sv = tensor::binary_of(Binary::Mul, cv, cv)->Ok_0;
    let vv = tensor::reduce_of(Reduce::Mean, sv, last)->Ok_0;
    let by = Unary::AddScalar(Scalar::Bits(l.eps));
    lemma_each(w, by, vv, r);
    let shifted = tensor::unary_of(by, vv);
    lemma_each(w, Unary::Rsqrt, shifted, r);
    let scale = tensor::unary_of(Unary::Rsqrt, shifted);
    lemma_rows(w, Binary::Mul, cv, scale, r, c);
    let nv = tensor::binary_of(Binary::Mul, cv, scale)->Ok_0;
    let r1 = ops::reduce_op(g.tape, Reduce::Mean, x, last)->Ok_0;
    let r2 = ops::binary_op(r1.0, Binary::Sub, x, r1.1)->Ok_0;
    let r3 = ops::binary_op(r2.0, Binary::Mul, r2.1, r2.1)->Ok_0;
    let r4 = ops::reduce_op(r3.0, Reduce::Mean, r3.1, last)->Ok_0;
    let r5 = ops::pointwise_op(r4.0, by, r4.1);
    let r6 = ops::pointwise_op(r5.0, Unary::Rsqrt, r5.1);
    let r7 = ops::binary_op(r6.0, Binary::Mul, r2.1, r6.1)->Ok_0;
    assert(r1.1.value == mv && r2.1.value == cv && r3.1.value == sv && r4.1.value == vv);
    assert(r5.1.value == shifted && r6.1.value == scale && r7.1.value == nv);
    let g7 = World { tape: r7.0, ..g };
    lemma_times(w, g7, r7.1, l.weight, x, r, c);
    let (g8, gained) = param::times_op(g7, r7.1, l.weight, x)->Ok_0;
    lemma_plus(w, g8, gained, l.bias, x, r, c);
    assert(norm::layer_norm_op(g, l, x) == param::plus_op(g8, gained, l.bias, x));
}

// -- dropout -------------------------------------------------------------------------------

/// In training, dropout multiplies every element by its entry of the mask of the step, and the
/// next call takes the next step; a probability of nothing drops nothing.
#[verifier::spinoff_prover]
pub proof fn law_dropout_multiplies_by_its_mask(w: Reader, g: World, d: Dropout, x: Traced, i: int)
    requires
        g.store.drops.contains_key(d.id),
        g.store.drops[d.id].training,
        w.fits(x.value),
        0 <= i < shape::product(x.value.dims),
        w.fits(mask(g, d, x.value.dims)),
    ensures
        ({
            let y = dropout::dropout_op(g, d, x);
            let off = single::at_most(d.p, single::ZERO);
            &&& y is Ok
            &&& off ==> y->Ok_0 == (g, x)
            &&& !off ==> y->Ok_0.1.value.dims == x.value.dims && w.at(y->Ok_0.1.value, i) == w.at(
                x.value,
                i,
            ) * w.at(mask(g, d, x.value.dims), i) && y->Ok_0.0.store.drops[d.id].step
                == graph::following(g.store.drops[d.id].step)
        }),
{
    broadcast use var::lemma_record_value;

    lemma_pair(w, Binary::Mul, x.value, mask(g, d, x.value.dims), i);
}

/// The mask of the next step of a dropout layer.
pub open spec fn mask(g: World, d: Dropout, dims: Seq<usize>) -> Value {
    tensor::fused_of(
        Fused::DropMask(d.p, dropout::mask_seed(d.seed, g.store.drops[d.id].step)),
        Seq::empty(),
        dims,
    )
}

} // verus!
