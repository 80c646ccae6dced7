//! What a mixer gives its scan, and what a single step gives, over the real numbers.

use vstd::prelude::*;

use super::mamba3;
use super::mamba3::{Kept, Mamba3Mixer, Pieces, Prepared};
use super::mixer_laws;
use super::mixer_laws::{finishes, gated};
use crate::autograd::graph::Tape;
use crate::autograd::ops;
use crate::autograd::var;
use crate::autograd::var::Traced;
use crate::buffer;
use crate::buffer::Reader;
use crate::error::Fault;
use crate::meaning;
use crate::nn::flow;
use crate::nn::flow::World;
use crate::nn::layer_laws;
use crate::nn::layer_laws::projected;
use crate::nn::norm;
use crate::nn::param;
use crate::nn::value_readings::{
    heights, inside, lemma_each, lemma_entry, lemma_reshaped, lemma_var, row, stored, weight,
};
use crate::shape;
use crate::ssm::scan;
use crate::ssm::scan::Given;
use crate::tensor;
use crate::tensor::Value;
use crate::term;
use crate::term::{Binary, Scalar, Unary};

verus! {

/// One number per head, spread over sequences and positions.
#[verifier::spinoff_prover]
proof fn lemma_per_head(w: Reader, op: Binary, a: Value, b: Value, r: int, c: int)
    requires
        a.dims.len() == 3,
        b.dims == seq![1usize, 1usize, a.dims[2]],
        w.fits(a),
        w.fits(b),
        inside(a.dims, r, c),
    ensures
        ({
            let v = tensor::binary_of(op, a, b);
            let i = r * a.dims[2] + c;
            &&& v is Ok
            &&& v->Ok_0.dims == a.dims
            &&& w.fits(v->Ok_0)
            &&& w.at(v->Ok_0, i) == meaning::binary(w.m.f, op, w.at(a, i), w.at(b, c))
        }),
{
    let (d, one) = (a.dims, b.dims);
    let k = d[2] as int;
    let i = r * k + c;
    lemma_entry(d, r, c);
    assert(d =~= seq![d[0], d[1], d[2]]);
    assert(shape::left_padded(d, 3) =~= d);
    assert(shape::left_padded(one, 3) =~= one);
    assert(shape::broadcast_dims(d, one) =~= d);
    assert(shape::compatible(d, one));
    shape::lemma_place_same(i, d);
    assert(d.drop_last() =~= seq![d[0], d[1]]);
    assert(one.drop_last() =~= seq![1usize, 1usize]);
    let (e, o) = (seq![d[0], d[1]], seq![1usize, 1usize]);
    assert(e.drop_last() =~= seq![d[0]]);
    assert(o.drop_last() =~= seq![1usize]);
    let (e1, o1) = (seq![d[0]], seq![1usize]);
    assert(e1.drop_last() =~= Seq::<usize>::empty());
    let q = r / d[1] as int;
    assert(shape::place(q / d[0] as int, e1.drop_last(), o1.drop_last()) == 0);
    assert(shape::place(q, e1, o1) == 0);
    assert(shape::place(r, e, o) == 0);
    assert(0 * k == 0);
    if k == 1 {
        assert(c == 0);
    }
    assert(shape::place(i, d, one) == c);
    let v = tensor::binary_of(op, a, b)->Ok_0;
    assert(w.of(v.term).dims == d);
}

/// Step sizes are the softplus of the projected ones plus a bias per head.
#[verifier::spinoff_prover]
proof fn lemma_steps(w: Reader, g: World, m: Mamba3Mixer, raw: Traced, anchor: Traced, r: int, h: int)
    requires
        raw.value.dims.len() == 3,
        raw.value.dims[2] == m.config.n_heads,
        w.fits(raw.value),
        stored(w, g, m.dt_bias, seq![m.config.n_heads]),
        inside(raw.value.dims, r, h),
    ensures
        ({
            let n = m.config.n_heads;
            let bias = param::var_op(g, m.dt_bias.key(), anchor);
            let lifted = ops::reshape_op(
                bias->Ok_0.0.tape,
                bias->Ok_0.1,
                seq![1usize, 1usize, n],
            );
            let sum = ops::binary_op(lifted->Ok_0.0, Binary::Add, raw, lifted->Ok_0.1);
            let dt = ops::pointwise_op(sum->Ok_0.0, Unary::Softplus, sum->Ok_0.1);
            &&& bias is Ok && lifted is Ok && sum is Ok
            &&& w.at(dt.1.value, r * n + h) == (w.m.f.softplus)(
                w.at(raw.value, r * n + h) + w.at(weight(g, m.dt_bias), h),
            )
        }),
{
    broadcast use var::lemma_record_value;

    let n = m.config.n_heads;
    lemma_var(g, m.dt_bias.key(), anchor);
    let (g1, bias) = param::var_op(g, m.dt_bias.key(), anchor)->Ok_0;
    let one = seq![1usize, 1usize, n];
    let b = weight(g, m.dt_bias);
    let none = Seq::<usize>::empty();
    assert(one.drop_last() =~= seq![1usize, 1usize]);
    assert(seq![1usize, 1usize].drop_last() =~= seq![1usize]);
    assert(seq![1usize].drop_last() =~= none);
    assert(seq![n].drop_last() =~= none);
    let e = shape::product(none);
    assert(e * 1usize as nat == 1 && e * n as nat == n as nat) by (nonlinear_arith)
        requires
            e == 1,
    ;
    assert(shape::product(seq![1usize]) == 1);
    assert(shape::product(seq![1usize, 1usize]) == 1);
    assert(shape::product(seq![n]) == n);
    assert(shape::product(one) == n) by {
        let p = shape::product(seq![1usize, 1usize]);
        assert(p * n as nat == n as nat) by (nonlinear_arith)
            requires
                p == 1,
        ;
    }
    let lv = tensor::reshape_of(b, one)->Ok_0;
    let lifted = ops::reshape_op(g1.tape, bias, one);
    assert(lifted is Ok && lifted->Ok_0.1.value == lv);
    lemma_reshaped(w, b, one, h);
    lemma_per_head(w, Binary::Add, raw.value, lv, r, h);
    let sv = tensor::binary_of(Binary::Add, raw.value, lv)->Ok_0;
    let sum = ops::binary_op(lifted->Ok_0.0, Binary::Add, raw, lifted->Ok_0.1);
    assert(sum is Ok && sum->Ok_0.1.value == sv);
    lemma_each(w, Unary::Softplus, sv, r * n + h);
}

proof fn lemma_rms_keeps_store(g: World, l: Option<norm::RmsNorm>, x: Traced)
    ensures
        norm::rms_opt(g, l, x) matches Ok(y) ==> y.0.store == g.store,
{
    reveal(norm::rms_op);
}

proof fn lemma_bias_keeps_store(g: World, m: Mamba3Mixer, x: Traced, p: Option<param::Param>, anchor: Traced)
    ensures
        mamba3::head_bias_op(g, m, x, p, anchor) matches Ok(y) ==> y.0.store == g.store,
{
}

/// The world in which a mixer makes its step sizes, and what it makes of its pieces there.
#[verifier::spinoff_prover]
proof fn lemma_prepared(g: World, m: Mamba3Mixer, input: Traced, p: Pieces) -> (u: World)
    requires
        mamba3::prepared_op(g, m, input, p) is Ok,
    ensures
        u.store == g.store,
        ({
            let n = m.config.n_heads;
            let q = mamba3::prepared_op(g, m, input, p)->Ok_0.1;
            let bias = param::var_op(u, m.dt_bias.key(), input);
            let lifted = ops::reshape_op(
                bias->Ok_0.0.tape,
                bias->Ok_0.1,
                seq![1usize, 1usize, n],
            );
            let sum = ops::binary_op(lifted->Ok_0.0, Binary::Add, p.dt, lifted->Ok_0.1);
            let dt = ops::pointwise_op(sum->Ok_0.0, Unary::Softplus, sum->Ok_0.1);
            let (batch, len) = (input.value.dims[0], input.value.dims[1]);
            &&& q.dt == dt.1
            &&& q.z == p.z
            &&& mamba3::lambda_op(dt.0, m, p.lambda, batch, len) matches Ok(l) && l.1 == q.lambda
            &&& tensor::reshape_of(
                p.x.value,
                seq![batch, len, n, m.config.head_dim, m.config.mode.width()],
            ) matches Ok(v) && v == q.x.value
            &&& p.theta is Some <==> q.theta is Some
            &&& p.theta matches Some(v) ==> tensor::reshape_of(
                v.value,
                seq![batch, len, n, (m.config.d_state / 2) as usize],
            ) matches Ok(z) && z == q.theta->0.value
        }),
{
    broadcast use var::lemma_record_value;

    reveal(mamba3::prepared_op);
    let (batch, n) = (input.value.dims[0], input.value.dims[1]);
    let (w1, b0) = flow::on(g, mamba3::heads_op(g.tape, m, p.b, batch, n))->Ok_0;
    let (w2, c0) = flow::on(w1, mamba3::heads_op(w1.tape, m, p.c, batch, n))->Ok_0;
    lemma_bias_keeps_store(w2, m, b0, m.b_bias, input);
    let (w3, b1) = mamba3::head_bias_op(w2, m, b0, m.b_bias, input)->Ok_0;
    lemma_bias_keeps_store(w3, m, c0, m.c_bias, input);
    let (w4, c1) = mamba3::head_bias_op(w3, m, c0, m.c_bias, input)->Ok_0;
    lemma_rms_keeps_store(w4, m.bc_norm, b1);
    let (w5, b2) = norm::rms_opt(w4, m.bc_norm, b1)->Ok_0;
    lemma_rms_keeps_store(w5, m.bc_norm, c1);
    let (w6, c2) = norm::rms_opt(w5, m.bc_norm, c1)->Ok_0;
    let order = seq![0usize, 1, 2, 4, 3];
    let (w7, b) = flow::on(w6, ops::permute_op(w6.tape, b2, order))->Ok_0;
    let (w8, c) = flow::on(w7, ops::permute_op(w7.tape, c2, order))->Ok_0;
    let d = seq![
        batch,
        n,
        m.config.n_heads,
        m.config.head_dim,
        m.config.mode.width(),
    ];
    let (w9, x) = flow::on(w8, ops::reshape_op(w8.tape, p.x, d))->Ok_0;
    w9
}

/// What a mixer gives its scan: its input as the activated piece holds it, step sizes that are
/// the softplus of the projected ones plus a bias per head, and mixing coefficients that are
/// the sigmoid of the projected ones, or the fixed share where none are projected.
#[verifier::spinoff_prover]
pub proof fn law_what_a_scan_is_given(
    w: Reader,
    g: World,
    m: Mamba3Mixer,
    input: Traced,
    p: Pieces,
    r: int,
    h: int,
    i: int,
)
    requires
        mamba3::prepared_op(g, m, input, p) is Ok,
        p.dt.value.dims.len() == 3,
        p.dt.value.dims[2] == m.config.n_heads,
        w.fits(p.dt.value),
        p.lambda matches Some(l) ==> w.fits(l.value),
        inside(p.dt.value.dims, r, h),
        stored(w, g, m.dt_bias, seq![m.config.n_heads]),
    ensures
        ({
            let q = mamba3::prepared_op(g, m, input, p)->Ok_0.1;
            let n = m.config.n_heads;
            &&& q.z == p.z
            &&& w.at(q.x.value, i) == w.at(p.x.value, i)
            &&& w.at(q.dt.value, r * n + h) == (w.m.f.softplus)(
                w.at(p.dt.value, r * n + h) + w.at(weight(g, m.dt_bias), h),
            )
            &&& p.lambda matches Some(l) ==> w.at(q.lambda.value, i) == (w.m.f.sigmoid)(
                w.at(l.value, i),
            )
            &&& p.lambda is None ==> (m.config.discretization.share() matches Some(s) && w.at(
                q.lambda.value,
                i,
            ) == meaning::scalar(w.m.f, Scalar::Bits(s)))
            &&& p.theta is Some <==> q.theta is Some
            &&& p.theta matches Some(v) ==> w.at(q.theta->0.value, i) == w.at(v.value, i)
        }),
{
    broadcast use var::lemma_record_value;

    let u = lemma_prepared(g, m, input, p);
    lemma_steps(w, u, m, p.dt, input, r, h);
    let (batch, len, n) = (input.value.dims[0], input.value.dims[1], m.config.n_heads);
    lemma_reshaped(
        w,
        p.x.value,
        seq![batch, len, n, m.config.head_dim, m.config.mode.width()],
        i,
    );
    if let Some(v) = p.theta {
        lemma_reshaped(
            w,
            v.value,
            seq![batch, len, n, (m.config.d_state / 2) as usize],
            i,
        );
    }
    if let Some(l) = p.lambda {
        lemma_each(w, Unary::Sigmoid, l.value, i);
    }
}

/// The shape of what a recurrence gives for a single position.
pub open spec fn line_dims(m: Mamba3Mixer, batch: usize) -> Seq<usize> {
    seq![batch, 1usize, m.config.n_heads, m.config.head_dim, m.config.mode.width()]
}

/// A step of a mixer gives the output projection of the recurrence's output times
/// `z sigmoid(z)`, where `z` is the first piece of the input projection, as a window does.
#[verifier::spinoff_prover]
pub proof fn law_a_step_gates_its_scan(
    w: Reader,
    g: World,
    m: Mamba3Mixer,
    input: Traced,
    cache: Kept,
    outputs: usize,
    r: int,
    c: int,
) -> (made: (World, Traced, Traced))
    requires
        mamba3::step_op(g, m, input, cache) is Ok,
        0 < m.widths.inner,
        0 <= c < outputs,
        0 <= r < input.value.dims[0],
        mamba3::given_op(g, m, input, Some(cache)) matches Ok(q) ==> finishes(
            w,
            q.0,
            m,
            ops::untracked(tensor::empty_of(line_dims(m, input.value.dims[0]))),
            q.2,
            outputs,
        ),
    ensures
        ({
            let k = m.widths.inner as int;
            let q = mamba3::given_op(g, m, input, Some(cache))->Ok_0;
            let p = mamba3::position_op(q.0.tape, m, q.1, input.value.dims[0])->Ok_0;
            let y = scan::scan_op(p.0, p.1, 0).1;
            let out = mamba3::step_op(g, m, input, cache)->Ok_0;
            &&& mamba3::given_op(g, m, input, Some(cache)) is Ok
            &&& made.2 == q.2
            &&& made.0.store == q.0.store
            &&& row(w, made.1.value, r, k) == row(w, y.value, r, k)
            &&& w.at(out.1.value, r * outputs + c) == projected(
                w,
                made.0,
                m.out_proj,
                gated(
                    w,
                    made.0,
                    m.post_gate_norm,
                    row(w, y.value, r, k),
                    row(w, made.2.value, r, k),
                ),
                outputs as int,
                c,
            )
        }),
{
    broadcast use var::lemma_record_value;

    reveal(mamba3::step_op);
    let (w1, q, z, slot) = mamba3::given_op(g, m, input, Some(cache))->Ok_0;
    let batch = input.value.dims[0];
    let (t2, p) = mamba3::position_op(w1.tape, m, q, batch)->Ok_0;
    let (t3, y) = scan::scan_op(t2, p, 0);
    let (t4, state) = scan::state_op(
        t3,
        p,
        0,
        mamba3::hidden_dims(m, batch),
        mamba3::angle_dims(m, batch),
    );
    let d = line_dims(m, batch);
    let (t5, line) = ops::reshape_op(t4, y, d)->Ok_0;
    assert(line.value == tensor::reshape_of(y.value, d)->Ok_0);
    let g5 = World { tape: t5, ..w1 };
    assert(finishes(w, g5, m, line, z, outputs));
    mixer_laws::law_the_gate_scales_the_scan(w, g5, m, line, z, outputs, r, c);
    let k = m.widths.inner as int;
    assert forall|j: int| 0 <= j < k implies row(w, line.value, r, k)[j] == row(w, y.value, r, k)[j] by {
        lemma_reshaped(w, y.value, d, r * k + j);
    }
    assert(row(w, line.value, r, k) =~= row(w, y.value, r, k));
    (g5, line, z)
}

} // verus!
