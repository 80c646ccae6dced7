//! How a mixer gates its scan, over the real numbers.

use vstd::prelude::*;

use super::mamba3;
use super::mamba3::Mamba3Mixer;
use crate::autograd::graph::Tape;
use crate::autograd::ops;
use crate::autograd::rule;
use crate::autograd::var;
use crate::autograd::var::Traced;
use crate::buffer;
use crate::buffer::Reader;
use crate::meaning;
use crate::nn::flow;
use crate::nn::flow::World;
use crate::nn::layer_laws;
use crate::nn::layer_laws::{plain, projected, rms_factor, widened};
use crate::nn::linear;
use crate::nn::norm;
use crate::nn::norm::RmsNorm;
use crate::nn::value_readings::{
    entry_or, heights, inside, lemma_each, lemma_entry, lemma_pair, lemma_reshaped, row,
    stored_opt, weight,
};
use crate::shape;
use crate::tensor;
use crate::tensor::Value;
use crate::term::{Binary, Unary};

verus! {

/// A row, normalised where there is a normalisation.
pub open spec fn normed(w: Reader, g: World, l: Option<RmsNorm>, x: Seq<real>, c: int) -> real {
    match l {
        Some(n) => x[c] * rms_factor(w, n.eps, x) * entry_or(w, g, n.weight, c, 1real),
        None => x[c],
    }
}

/// What a gate lets through of a row: every entry times `z sigmoid(z)`.
pub open spec fn gated(w: Reader, g: World, l: Option<RmsNorm>, y: Seq<real>, z: Seq<real>) -> Seq<real> {
    Seq::new(
        y.len(),
        |c: int| normed(w, g, l, y, c) * (z[c] * (w.m.f.sigmoid)(z[c])),
    )
}

/// A closed gate lets nothing through: where `z` is zero, so is what enters the output
/// projection, whatever the scan gives.
pub proof fn law_a_closed_gate_lets_nothing_through(
    w: Reader,
    g: World,
    l: Option<RmsNorm>,
    y: Seq<real>,
    z: Seq<real>,
    c: int,
)
    requires
        0 <= c < y.len(),
        z[c] == 0real,
    ensures
        gated(w, g, l, y, z)[c] == 0real,
{
    let (a, s) = (normed(w, g, l, y, c), (w.m.f.sigmoid)(0real));
    assert(0real * s == 0real) by (nonlinear_arith);
    assert(a * 0real == 0real) by (nonlinear_arith);
}

proof fn lemma_three(a: usize, b: usize, c: usize)
    ensures
        shape::product(seq![a, b, c]) == a * b * c,
        heights(seq![a, b, c]) == a * b,
{
    let s = seq![a, b, c];
    assert(s.drop_last() =~= seq![a, b]);
    assert(seq![a, b].drop_last() =~= seq![a]);
    assert(seq![a].drop_last() =~= Seq::<usize>::empty());
    let e = shape::product(Seq::<usize>::empty());
    assert(e * a == a) by (nonlinear_arith)
        requires
            e == 1,
    ;
    assert(shape::product(seq![a]) == a);
    assert(shape::product(seq![a, b]) == a * b);
}

/// What a mixer needs of its scan and of its gate: one row per sequence and position.
pub open spec fn finishes(w: Reader, g: World, m: Mamba3Mixer, y: Traced, z: Traced, outputs: usize) -> bool {
    let inner = m.widths.inner;
    &&& y.value.dims.len() >= 2
    &&& w.fits(z.value)
    &&& z.value.dims == seq![y.value.dims[0], y.value.dims[1], inner]
    &&& shape::product(y.value.dims) == shape::product(z.value.dims)
    &&& shape::fits(y.value.dims)
    &&& m.post_gate_norm matches Some(n) ==> n.dim == inner && stored_opt(w, g, n.weight, seq![inner])
    &&& plain(w, g, m.out_proj, inner, outputs)
    &&& m.out_proj.lora matches Some(a) ==> weight(g, a.a).dims[1] > 0
}

/// What a mixer hands its output projection: every row of the scan's output, normalised where
/// the mixer normalises, times `z sigmoid(z)`.
#[verifier::spinoff_prover]
proof fn lemma_gated(
    w: Reader,
    g: World,
    m: Mamba3Mixer,
    flat: Traced,
    z: Traced,
    r: int,
) -> (out: (World, Traced))
    requires
        w.fits(z.value),
        w.fits(flat.value),
        z.value.dims == flat.value.dims,
        flat.value.dims.len() == 3,
        flat.value.dims[2] == m.widths.inner,
        0 < m.widths.inner,
        0 <= r < heights(flat.value.dims),
        m.post_gate_norm matches Some(n) ==> n.dim == m.widths.inner && stored_opt(
            w,
            g,
            n.weight,
            seq![m.widths.inner],
        ),
    ensures
        out.0.store == g.store,
        out.1.value.dims == flat.value.dims,
        w.fits(out.1.value),
        row(w, out.1.value, r, m.widths.inner as int) == gated(
            w,
            g,
            m.post_gate_norm,
            row(w, flat.value, r, m.widths.inner as int),
            row(w, z.value, r, m.widths.inner as int),
        ),
        ({
            let a = norm::rms_opt(g, m.post_gate_norm, flat);
            let b = ops::pointwise_op(a->Ok_0.0.tape, Unary::Silu, z);
            let c = ops::binary_op(b.0, Binary::Mul, a->Ok_0.1, b.1);
            a is Ok && c is Ok && out == (World { tape: c->Ok_0.0, ..a->Ok_0.0 }, c->Ok_0.1)
        }),
{
    broadcast use var::lemma_record_value;

    let d = flat.value.dims;
    let k = m.widths.inner as int;
    let a = norm::rms_opt(g, m.post_gate_norm, flat);
    if m.post_gate_norm is Some {
        layer_laws::law_rms_layer_scales_rows(w, g, m.post_gate_norm->0, flat, r, 0);
    }
    let (g1, n) = a->Ok_0;
    let b = ops::pointwise_op(g1.tape, Unary::Silu, z);
    let gate = tensor::unary_of(Unary::Silu, z.value);
    assert(b.1.value == gate);
    let c = ops::binary_op(b.0, Binary::Mul, n, b.1);
    lemma_entry(d, r, 0);
    lemma_each(w, Unary::Silu, z.value, r * k);
    lemma_pair(w, Binary::Mul, n.value, gate, r * k);
    let v = tensor::binary_of(Binary::Mul, n.value, gate)->Ok_0;
    assert(c is Ok && c->Ok_0.1.value == v);
    let (ys, zs) = (row(w, flat.value, r, k), row(w, z.value, r, k));
    let want = gated(w, g, m.post_gate_norm, ys, zs);
    assert forall|j: int| 0 <= j < k implies row(w, v, r, k)[j] == want[j] by {
        let i = r * k + j;
        lemma_entry(d, r, j);
        if m.post_gate_norm is Some {
            layer_laws::law_rms_layer_scales_rows(w, g, m.post_gate_norm->0, flat, r, j);
        }
        lemma_each(w, Unary::Silu, z.value, i);
        lemma_pair(w, Binary::Mul, n.value, gate, i);
        assert(w.at(n.value, i) == normed(w, g, m.post_gate_norm, ys, j));
        assert(w.at(gate, i) == zs[j] * (w.m.f.sigmoid)(zs[j]));
    }
    assert(row(w, v, r, k) =~= want);
    (World { tape: c->Ok_0.0, ..g1 }, c->Ok_0.1)
}

/// The end of a mixer: the output projection of the scan's output, normalised where the mixer
/// normalises, times `z sigmoid(z)`, row by row.
#[verifier::spinoff_prover]
pub proof fn law_the_gate_scales_the_scan(
    w: Reader,
    g: World,
    m: Mamba3Mixer,
    y: Traced,
    z: Traced,
    outputs: usize,
    r: int,
    c: int,
)
    requires
        finishes(w, g, m, y, z, outputs),
        0 < m.widths.inner,
        0 <= r < y.value.dims[0] * y.value.dims[1],
        0 <= c < outputs,
    ensures
        ({
            let k = m.widths.inner as int;
            let out = mamba3::finished_op(g, m, y, z);
            &&& out is Ok
            &&& out->Ok_0.0.store == g.store
            &&& out->Ok_0.1.value.dims == seq![y.value.dims[0], y.value.dims[1], outputs]
            &&& w.fits(out->Ok_0.1.value)
            &&& w.at(out->Ok_0.1.value, r * outputs + c) == projected(
                w,
                g,
                m.out_proj,
                gated(w, g, m.post_gate_norm, row(w, y.value, r, k), row(w, z.value, r, k)),
                outputs as int,
                c,
            )
        }),
{
    broadcast use var::lemma_record_value;

    reveal(mamba3::finished_op);
    let (dims, k) = (y.value.dims, m.widths.inner as int);
    let d = seq![dims[0], dims[1], m.widths.inner];
    lemma_three(dims[0], dims[1], m.widths.inner);
    let r1 = ops::reshape_op(g.tape, y, d);
    let v = tensor::reshape_of(y.value, d);
    assert(v is Ok && r1 is Ok && r1->Ok_0.1.value == v->Ok_0);
    lemma_reshaped(w, y.value, d, 0);
    let flat = r1->Ok_0.1;
    let g1 = World { tape: r1->Ok_0.0, ..g };
    let ys = row(w, y.value, r, k);
    assert forall|j: int| 0 <= j < k implies row(w, flat.value, r, k)[j] == ys[j] by {
        lemma_reshaped(w, y.value, d, r * k + j);
    }
    assert(row(w, flat.value, r, k) =~= ys);
    let (g4, gate) = lemma_gated(w, g1, m, flat, z, r);
    layer_laws::law_projection_is_affine(w, g4, m.out_proj, gate, outputs, r, c);
    assert(mamba3::finished_op(g, m, y, z) == linear::linear_op(g4, m.out_proj, gate));
    assert(widened(d, outputs) =~= seq![dims[0], dims[1], outputs]);
    let zs = row(w, z.value, r, k);
    assert(gated(w, g1, m.post_gate_norm, ys, zs) =~= gated(w, g, m.post_gate_norm, ys, zs));
    let xs = gated(w, g, m.post_gate_norm, ys, zs);
    layer_laws::lemma_same_store(w, g, g4, m.out_proj.lora, xs, outputs as int, c);
}

} // verus!
