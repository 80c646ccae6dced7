//! The fused operations and the gradients that go back through them, element by element over
//! the real numbers.

use vstd::prelude::*;

use super::fused;
use super::gradient_laws::only;
use super::graph::Tape;
use super::reduce;
use super::rule;
use super::rule::{Adjoint, RuleOf};
use super::var;
use super::var::Traced;
use crate::buffer;
use crate::buffer::{Buffer, Reader};
use crate::distributions::launches;
use crate::distributions::readings;
use crate::distributions::rows;
use crate::error::Fault;
use crate::layer_kernels;
use crate::meaning::Functions;
use crate::shape;
use crate::tensor;
use crate::tensor::Value;
use crate::term::{Fused, Scalar};

verus! {

// -- rotation ------------------------------------------------------------------------------

/// A rotation by a pair of tables: entries `r h + j` of them turn the pair of elements
/// `2 r h + j` and `2 r h + h + j`.
pub open spec fn low(h: int, r: int, j: int) -> int {
    r * (2 * h) + j
}

pub open spec fn high(h: int, r: int, j: int) -> int {
    r * (2 * h) + (h + j)
}

proof fn lemma_pair_places(h: int, r: int, j: int)
    requires
        0 <= j < h,
        0 <= r,
    ensures
        low(h, r, j) / (2 * h) == r,
        low(h, r, j) % (2 * h) == j,
        high(h, r, j) / (2 * h) == r,
        high(h, r, j) % (2 * h) == h + j,
        j % h == j,
        (h + j) % h == j,
        (r * h + j) / h == r,
        (r * h + j) % h == j,
{
    vstd::arithmetic::div_mod::lemma_fundamental_div_mod_converse(low(h, r, j), 2 * h, r, j);
    vstd::arithmetic::div_mod::lemma_fundamental_div_mod_converse(high(h, r, j), 2 * h, r, h + j);
    vstd::arithmetic::div_mod::lemma_small_mod(j as nat, h as nat);
    vstd::arithmetic::div_mod::lemma_fundamental_div_mod_converse(h + j, h, 1, j);
    vstd::arithmetic::div_mod::lemma_fundamental_div_mod_converse(r * h + j, h, r, j);
}

/// What the kernel of a rotation writes for one pair.
#[verifier::spinoff_prover]
proof fn lemma_turned(w: Reader, by: bool, x: Value, c: Value, s: Value, r: int, j: int)
    requires
        x.dims.len() > 0,
        w.fits(x),
        0 <= r,
        0 <= j < x.dims.last() / 2,
    ensures
        ({
            let h = (x.dims.last() / 2) as int;
            let v = tensor::fused_of(Fused::Rotate(by), seq![x, c, s], x.dims);
            let (a, b) = (w.at(x, low(h, r, j)), w.at(x, high(h, r, j)));
            let cos = layer_kernels::turn_cos(w.m.f, by, w.of(c.term), r * h + j);
            let sin = layer_kernels::turn_sin(w.m.f, by, w.of(s.term), r * h + j);
            &&& w.at(v, low(h, r, j)) == a * cos - b * sin
            &&& w.at(v, high(h, r, j)) == a * sin + b * cos
        }),
{
    reveal(layer_kernels::written);
    let h = (x.dims.last() / 2) as int;
    let args = seq![x, c, s];
    readings::lemma_kernel(w, Fused::Rotate(by), args, x.dims);
    let held = readings::operands(w, args);
    assert(held[0] == w.of(x.term) && held[1] == w.of(c.term) && held[2] == w.of(s.term));
    lemma_pair_places(h, r, j);
}

/// What the kernels of a rotation's gradients write for one pair.
#[verifier::spinoff_prover]
proof fn lemma_turned_back(w: Reader, by: bool, g: Value, x: Value, c: Value, s: Value, half: Seq<usize>, r: int, j: int)
    requires
        x.dims.len() > 0,
        w.fits(x),
        0 <= r,
        0 <= j < x.dims.last() / 2,
    ensures
        ({
            let h = (x.dims.last() / 2) as int;
            let args = seq![g, x, c, s];
            let dx = tensor::fused_of(Fused::RotateDx(by), args, x.dims);
            let dc = tensor::fused_of(Fused::RotateDcos(by), args, half);
            let ds = tensor::fused_of(Fused::RotateDsin(by), args, half);
            let (ga, gb) = (w.at(g, low(h, r, j)), w.at(g, high(h, r, j)));
            let (a, b) = (w.at(x, low(h, r, j)), w.at(x, high(h, r, j)));
            let cos = layer_kernels::turn_cos(w.m.f, by, w.of(c.term), r * h + j);
            let sin = layer_kernels::turn_sin(w.m.f, by, w.of(s.term), r * h + j);
            &&& w.fits(dc) && w.fits(ds)
            &&& w.at(dx, low(h, r, j)) == ga * cos + gb * sin
            &&& w.at(dx, high(h, r, j)) == gb * cos - ga * sin
            &&& w.at(dc, r * h + j) == if by {
                ga * (a * sin + b * cos) - gb * (a * cos - b * sin)
            } else {
                ga * a + gb * b
            }
            &&& w.at(ds, r * h + j) == gb * a - ga * b
        }),
{
    reveal(layer_kernels::written);
    let h = (x.dims.last() / 2) as int;
    let args = seq![g, x, c, s];
    readings::lemma_kernel(w, Fused::RotateDx(by), args, x.dims);
    readings::lemma_kernel(w, Fused::RotateDcos(by), args, half);
    readings::lemma_kernel(w, Fused::RotateDsin(by), args, half);
    let held = readings::operands(w, args);
    assert(held[0] == w.of(g.term) && held[1] == w.of(x.term) && held[2] == w.of(c.term) && held[3]
        == w.of(s.term));
    lemma_pair_places(h, r, j);
}

/// A rotation by given tables turns every pair, and its gradients are those of that turn: the
/// operand receives the gradient turned back, and the tables receive what the pair weighs.
/// Returns what is recorded.
#[verifier::spinoff_prover]
pub proof fn law_rotation_and_its_gradients(
    w: Reader,
    t: Tape,
    x: Traced,
    cos: Traced,
    sin: Traced,
    g: Value,
    bands: Seq<Option<Value>>,
    r: int,
    j: int,
) -> (made: (Value, Adjoint))
    requires
        fused::rotates_rowwise(x.value.dims, cos.value.dims),
        cos.value.dims == sin.value.dims,
        w.fits(x.value),
        0 <= r,
        0 <= j < x.value.dims.last() / 2,
    ensures
        fused::rotate_op(t, x, cos, sin) == Ok::<(Tape, Traced), Fault>(
            var::record(t, made.0, seq![x.trace, cos.trace, sin.trace], made.1),
        ),
        ({
            let h = (x.value.dims.last() / 2) as int;
            let (lo, hi) = (low(h, r, j), high(h, r, j));
            let (a, b) = (w.at(x.value, lo), w.at(x.value, hi));
            let (ga, gb) = (w.at(g, lo), w.at(g, hi));
            let (c, s) = (w.at(cos.value, r * h + j), w.at(sin.value, r * h + j));
            &&& w.at(made.0, lo) == a * c - b * s
            &&& w.at(made.0, hi) == a * s + b * c
            &&& rule::pullback(made.1, g, bands) matches Ok(grads) && grads.len() == 3 && (
            grads[0] matches Some(dx) && w.at(dx, lo) == ga * c + gb * s && w.at(dx, hi) == gb * c
                - ga * s) && (grads[1] matches Some(dc) && w.at(dc, r * h + j) == ga * a + gb * b)
                && (grads[2] matches Some(ds) && w.at(ds, r * h + j) == gb * a - ga * b)
        }),
{
    reveal(rule::pullback);
    reveal(rule::fused_pullback);
    let (xv, cv, sv) = (x.value, cos.value, sin.value);
    let half = rule::half_last(xv.dims);
    assert(half =~= cv.dims) by {
        assert(half.drop_last() =~= xv.dims.drop_last());
        assert(cv.dims =~= cv.dims.drop_last().push(cv.dims.last()));
        assert(half =~= half.drop_last().push(half.last()));
    }
    lemma_turned(w, false, xv, cv, sv, r, j);
    lemma_turned_back(w, false, g, xv, cv, sv, half, r, j);
    (
        tensor::fused_of(Fused::Rotate(false), seq![xv, cv, sv], xv.dims),
        RuleOf::Rotate(xv, cv, sv),
    )
}

/// A rotation by minus an angle turns every pair, and its gradients are those of that turn:
/// the operand receives the gradient turned back, and the angle the gradient against the
/// quarter turn of the result. Returns what is recorded.
#[verifier::spinoff_prover]
pub proof fn law_rotation_by_an_angle_and_its_gradients(
    w: Reader,
    t: Tape,
    x: Traced,
    phi: Traced,
    g: Value,
    bands: Seq<Option<Value>>,
    r: int,
    j: int,
) -> (made: (Value, Adjoint))
    requires
        fused::rotates_rowwise(x.value.dims, phi.value.dims),
        w.fits(x.value),
        0 <= r,
        0 <= j < x.value.dims.last() / 2,
    ensures
        fused::rotate_by_angle_op(t, x, phi) == Ok::<(Tape, Traced), Fault>(
            var::record(t, made.0, seq![x.trace, phi.trace], made.1),
        ),
        ({
            let h = (x.value.dims.last() / 2) as int;
            let (lo, hi) = (low(h, r, j), high(h, r, j));
            let (a, b) = (w.at(x.value, lo), w.at(x.value, hi));
            let (ga, gb) = (w.at(g, lo), w.at(g, hi));
            let p = w.at(phi.value, r * h + j);
            let (c, s) = ((w.m.f.cos)(p), -(w.m.f.sin)(p));
            &&& w.at(made.0, lo) == a * c - b * s
            &&& w.at(made.0, hi) == a * s + b * c
            &&& rule::pullback(made.1, g, bands) matches Ok(grads) && grads.len() == 2 && (
            grads[0] matches Some(dx) && w.at(dx, lo) == ga * c + gb * s && w.at(dx, hi) == gb * c
                - ga * s) && (grads[1] matches Some(dp) && w.at(dp, r * h + j) == ga * w.at(
                made.0,
                hi,
            ) - gb * w.at(made.0, lo))
        }),
{
    reveal(rule::pullback);
    reveal(rule::fused_pullback);
    let (xv, pv) = (x.value, phi.value);
    let half = rule::half_last(xv.dims);
    assert(half =~= pv.dims) by {
        assert(half.drop_last() =~= xv.dims.drop_last());
        assert(pv.dims =~= pv.dims.drop_last().push(pv.dims.last()));
        assert(half =~= half.drop_last().push(half.last()));
    }
    lemma_turned(w, true, xv, pv, pv, r, j);
    lemma_turned_back(w, true, g, xv, pv, pv, half, r, j);
    (
        tensor::fused_of(Fused::Rotate(true), seq![xv, pv, pv], xv.dims),
        RuleOf::RotateByAngle(xv, pv),
    )
}

// -- convolution ---------------------------------------------------------------------------

/// A history that may be missing, as it is held.
pub open spec fn held_opt(w: Reader, h: Option<Value>) -> Option<Buffer> {
    match h {
        Some(v) => Some(w.of(v.term)),
        None => None,
    }
}

/// Element `(b, t, c)` of a batch of sequences.
pub open spec fn spot(n: int, ch: int, b: int, t: int, c: int) -> int {
    (b * n + t) * ch + c
}

proof fn lemma_spot(n: int, ch: int, b: int, t: int, c: int)
    requires
        0 <= b,
        0 <= t < n,
        0 <= c < ch,
    ensures
        ({
            let i = spot(n, ch, b, t, c);
            &&& i / (n * ch) == b
            &&& (i / ch) % n == t
            &&& i % ch == c
        }),
{
    let i = spot(n, ch, b, t, c);
    let q = b * n + t;
    assert(q >= 0 && q * ch >= 0) by (nonlinear_arith)
        requires
            q == b * n + t,
            b >= 0,
            0 <= t < n,
            ch > 0,
    ;
    vstd::arithmetic::div_mod::lemma_fundamental_div_mod_converse(i, ch, q, c);
    vstd::arithmetic::div_mod::lemma_fundamental_div_mod_converse(q, n, b, t);
    vstd::arithmetic::div_mod::lemma_div_denominator(i, ch, n);
    assert(ch * n == n * ch) by (nonlinear_arith);
}

/// A fused causal convolution sums, for every position and channel, what lay before it times
/// its taps, the history standing before the window, plus the bias; its gradients are those of
/// that sum. Position `t` of the input receives the gradients of the positions that read it,
/// each times its tap; tap `k` receives the gradients times what the tap read; the bias
/// receives the sum of the gradients of its channel. Returns what is recorded.
#[verifier::spinoff_prover]
pub proof fn law_convolution_and_its_gradients(
    w: Reader,
    tp: Tape,
    x: Traced,
    h: Option<Traced>,
    k: Traced,
    bias: Option<Traced>,
    g: Value,
    bands: Seq<Option<Value>>,
    b: int,
    t: int,
    c: int,
    tap: int,
) -> (made: (Value, Adjoint))
    requires
        fused::conv_fits(x.value, fused::opt_value(h), k.value, fused::opt_value(bias)),
        w.fits(x.value),
        w.fits(k.value),
        w.fits(g),
        g.dims == x.value.dims,
        0 <= b,
        0 <= t < x.value.dims[1],
        0 <= c < x.value.dims[2],
        0 <= tap < k.value.dims[0],
    ensures
        fused::causal_conv1d_op(tp, x, h, k, bias) == Ok::<(Tape, Traced), Fault>(
            var::record(
                tp,
                made.0,
                fused::with_place(fused::with_place(seq![x.trace, k.trace], h), bias),
                made.1,
            ),
        ),
        ({
            let (n, ch) = (x.value.dims[1] as int, x.value.dims[2] as int);
            let taps = k.value.dims[0] as int;
            let hist = held_opt(w, fused::opt_value(h));
            let i = spot(n, ch, b, t, c);
            let extra = if h is Some {
                1int
            } else {
                0int
            };
            &&& w.at(made.0, i) == layer_kernels::convolved(
                w.of(x.value.term),
                hist,
                w.of(k.value.term),
                b,
                t,
                c,
            ) + match bias {
                Some(v) => w.at(v.value, c),
                None => 0real,
            }
            &&& rule::pullback(made.1, g, bands) matches Ok(grads) && grads.len() == 2 + extra + (
            if bias is Some {
                1int
            } else {
                0int
            }) && (grads[0] matches Some(dx) && w.at(dx, i) == layer_kernels::convolved_back(
                w.of(g.term),
                w.of(k.value.term),
                b,
                t,
                c,
            )) && (grads[1] matches Some(dk) && w.at(dk, tap * ch + c) == layer_kernels::tap_slope(
                w.of(g.term),
                w.of(x.value.term),
                hist,
                taps,
                tap,
                c,
            )) && (h is Some ==> (grads[2] matches Some(dh) && (tap < taps - 1 ==> w.at(
                dh,
                spot(taps - 1, ch, b, tap, c),
            ) == layer_kernels::convolved_back(
                w.of(g.term),
                w.of(k.value.term),
                b,
                tap - (taps - 1),
                c,
            )))) && (bias is Some ==> (grads[2 + extra] matches Some(db) && w.at(db, c)
                == layer_kernels::channel_sum(w.of(g.term), c)))
        }),
{
    let (xv, hv, kv, bv) = (x.value, fused::opt_value(h), k.value, fused::opt_value(bias));
    lemma_conv_forward(w, xv, hv, kv, bv, b, t, c);
    lemma_conv_back(w, xv, hv, kv, bv, g, b, t, c, tap);
    lemma_conv_pullback(xv, hv, kv, bv, g, bands);
    (
        fused::conv_of(xv, hv, kv, bv)->Ok_0,
        RuleOf::Conv(xv, hv, kv, bv),
    )
}

proof fn lemma_conv_pullback(
    x: Value,
    h: Option<Value>,
    k: Value,
    b: Option<Value>,
    g: Value,
    bands: Seq<Option<Value>>,
)
    ensures
        rule::pullback(RuleOf::Conv(x, h, k, b), g, bands) == rule::conv_pullback(x, h, k, b, g),
{
    reveal(rule::pullback);
    reveal(rule::fused_pullback);
}

#[verifier::spinoff_prover]
proof fn lemma_conv_forward(
    w: Reader,
    x: Value,
    h: Option<Value>,
    k: Value,
    bias: Option<Value>,
    b: int,
    t: int,
    c: int,
)
    requires
        fused::conv_fits(x, h, k, bias),
        w.fits(x),
        w.fits(k),
        0 <= b,
        0 <= t < x.dims[1],
        0 <= c < x.dims[2],
    ensures
        ({
            let i = spot(x.dims[1] as int, x.dims[2] as int, b, t, c);
            let v = fused::conv_of(x, h, k, bias);
            v is Ok && w.at(v->Ok_0, i) == layer_kernels::convolved(
                w.of(x.term),
                held_opt(w, h),
                w.of(k.term),
                b,
                t,
                c,
            ) + match bias {
                Some(z) => w.at(z, c),
                None => 0real,
            }
        }),
{
    reveal(layer_kernels::written);
    let op = Fused::Conv(h is Some, bias is Some);
    let args = rule::conv_args(x, h, k, bias);
    readings::lemma_kernel(w, op, args, x.dims);
    let held = readings::operands(w, args);
    lemma_conv_operands(w, x, h, k, bias);
    lemma_spot(x.dims[1] as int, x.dims[2] as int, b, t, c);
}

/// Where the operands of a convolution stand.
proof fn lemma_conv_operands(w: Reader, x: Value, h: Option<Value>, k: Value, bias: Option<Value>)
    ensures
        ({
            let held = readings::operands(w, rule::conv_args(x, h, k, bias));
            let at = if h is Some {
                2int
            } else {
                1int
            };
            &&& held[0] == w.of(x.term)
            &&& layer_kernels::history(held, h is Some, 1) == held_opt(w, h)
            &&& held[at] == w.of(k.term)
            &&& bias matches Some(z) ==> held[at + 1] == w.of(z.term)
        }),
{
}

proof fn lemma_conv_operands_back(w: Reader, x: Value, h: Option<Value>, k: Value, bias: Option<Value>, g: Value)
    ensures
        ({
            let held = readings::operands(w, seq![g] + rule::conv_args(x, h, k, bias));
            let at = if h is Some {
                3int
            } else {
                2int
            };
            &&& held[0] == w.of(g.term)
            &&& held[1] == w.of(x.term)
            &&& layer_kernels::history(held, h is Some, 2) == held_opt(w, h)
            &&& held[at] == w.of(k.term)
        }),
{
}

#[verifier::spinoff_prover]
proof fn lemma_conv_back(
    w: Reader,
    x: Value,
    h: Option<Value>,
    k: Value,
    bias: Option<Value>,
    g: Value,
    b: int,
    t: int,
    c: int,
    tap: int,
)
    requires
        fused::conv_fits(x, h, k, bias),
        w.fits(x),
        w.fits(k),
        w.fits(g),
        g.dims == x.dims,
        0 <= b,
        0 <= t < x.dims[1],
        0 <= c < x.dims[2],
        0 <= tap < k.dims[0],
    ensures
        ({
            let (n, ch, taps) = (x.dims[1] as int, x.dims[2] as int, k.dims[0] as int);
            let (hh, hb) = (h is Some, bias is Some);
            let args = seq![g] + rule::conv_args(x, h, k, bias);
            let (gb, kb) = (w.of(g.term), w.of(k.term));
            &&& w.at(tensor::fused_of(Fused::ConvDx(hh, hb), args, x.dims), spot(n, ch, b, t, c))
                == layer_kernels::convolved_back(gb, kb, b, t, c)
            &&& w.at(tensor::fused_of(Fused::ConvDweight(hh, hb), args, k.dims), tap * ch + c)
                == layer_kernels::tap_slope(gb, w.of(x.term), held_opt(w, h), taps, tap, c)
            &&& h matches Some(v) ==> (tap < taps - 1 ==> w.at(
                tensor::fused_of(Fused::ConvDhistory(hh, hb), args, v.dims),
                spot(taps - 1, ch, b, tap, c),
            ) == layer_kernels::convolved_back(gb, kb, b, tap - (taps - 1), c))
            &&& bias matches Some(v) ==> w.at(
                tensor::fused_of(Fused::ConvDbias(hh, hb), args, v.dims),
                c,
            ) == layer_kernels::channel_sum(gb, c)
        }),
{
    reveal(layer_kernels::written);
    let (n, ch, taps) = (x.dims[1] as int, x.dims[2] as int, k.dims[0] as int);
    let (hh, hb) = (h is Some, bias is Some);
    let args = seq![g] + rule::conv_args(x, h, k, bias);
    lemma_conv_operands_back(w, x, h, k, bias, g);
    readings::lemma_kernel(w, Fused::ConvDx(hh, hb), args, x.dims);
    readings::lemma_kernel(w, Fused::ConvDweight(hh, hb), args, k.dims);
    lemma_spot(n, ch, b, t, c);
    vstd::arithmetic::div_mod::lemma_fundamental_div_mod_converse(tap * ch + c, ch, tap, c);
    if let Some(v) = h {
        readings::lemma_kernel(w, Fused::ConvDhistory(hh, hb), args, v.dims);
        if tap < taps - 1 {
            lemma_spot(taps - 1, ch, b, tap, c);
        }
    }
    if let Some(v) = bias {
        readings::lemma_kernel(w, Fused::ConvDbias(hh, hb), args, v.dims);
    }
}

// -- state-space steps ---------------------------------------------------------------------

/// Three states, each times its scale, summed; each state receives the gradient times its
/// scale. Returns what is recorded.
#[verifier::spinoff_prover]
pub proof fn law_state_update_and_its_gradients(
    w: Reader,
    t: Tape,
    x0: Traced,
    x1: Traced,
    x2: Traced,
    scales: Traced,
    g: Value,
    bands: Seq<Option<Value>>,
    i: int,
) -> (made: (Value, Adjoint))
    requires
        fused::ssm_state_of(x0.value, x1.value, x2.value, scales.value) is Ok,
        w.fits(x0.value),
        w.fits(g),
        w.fits(scales.value),
        g.dims == x0.value.dims,
    ensures
        fused::ssm_state_op(t, x0, x1, x2, scales) == Ok::<(Tape, Traced), Fault>(
            var::record(
                t,
                made.0,
                seq![x0.trace, x1.trace, x2.trace, scales.trace],
                made.1,
            ),
        ),
        ({
            let s = |k: int| scale_of(w, x0.value, scales.value, k, i);
            &&& w.at(made.0, i) == w.at(x0.value, i) * s(0) + w.at(x1.value, i) * s(1) + w.at(
                x2.value,
                i,
            ) * s(2)
            &&& rule::pullback(made.1, g, bands) matches Ok(grads) && grads.len() == 4 && (
            grads[0] matches Some(d) && w.at(d, i) == w.at(g, i) * s(0)) && (
            grads[1] matches Some(d) && w.at(d, i) == w.at(g, i) * s(1)) && (
            grads[2] matches Some(d) && w.at(d, i) == w.at(g, i) * s(2))
        }),
{
    let (a, b, c, s) = (x0.value, x1.value, x2.value, scales.value);
    lemma_state(w, a, b, c, s, i);
    lemma_state_dx(w, a, b, c, s, g, 0, a.dims, i);
    lemma_state_dx(w, a, b, c, s, g, 1, b.dims, i);
    lemma_state_dx(w, a, b, c, s, g, 2, c.dims, i);
    lemma_state_pullback(a, b, c, s, g, bands);
    (
        fused::ssm_state_of(a, b, c, s)->Ok_0,
        RuleOf::SsmState(a, b, c, s),
    )
}

/// The scale of element `i` of state `k`.
pub open spec fn scale_of(w: Reader, x: Value, s: Value, k: int, i: int) -> real {
    let n = s.dims[1] as int;
    w.at(s, k * n + i / (shape::product(x.dims) as int / n))
}

#[verifier::spinoff_prover]
proof fn lemma_state(w: Reader, a: Value, b: Value, c: Value, s: Value, i: int)
    requires
        w.fits(a),
        w.fits(s),
    ensures
        w.at(tensor::fused_of(Fused::SsmState, seq![a, b, c, s], a.dims), i) == w.at(a, i)
            * scale_of(w, a, s, 0, i) + w.at(b, i) * scale_of(w, a, s, 1, i) + w.at(c, i) * scale_of(
            w,
            a,
            s,
            2,
            i,
        ),
{
    reveal(layer_kernels::written);
    let args = seq![a, b, c, s];
    readings::lemma_kernel(w, Fused::SsmState, args, a.dims);
    let held = readings::operands(w, args);
    assert(held[0] == w.of(a.term) && held[1] == w.of(b.term) && held[2] == w.of(c.term) && held[3]
        == w.of(s.term));
    let (n, q) = (s.dims[1] as int, i / (shape::product(a.dims) as int / s.dims[1] as int));
    assert(0 * n + q == q && 1 * n + q == n + q);
}

#[verifier::spinoff_prover]
proof fn lemma_state_dx(w: Reader, a: Value, b: Value, c: Value, s: Value, g: Value, k: u8, d: Seq<usize>, i: int)
    requires
        w.fits(g),
        w.fits(s),
        g.dims == a.dims,
    ensures
        w.at(tensor::fused_of(Fused::SsmStateDx(k), seq![g, a, b, c, s], d), i) == w.at(g, i)
            * scale_of(w, a, s, k as int, i),
{
    reveal(layer_kernels::written);
    let more = seq![g, a, b, c, s];
    readings::lemma_kernel(w, Fused::SsmStateDx(k), more, d);
    let h = readings::operands(w, more);
    assert(h[0] == w.of(g.term) && h[4] == w.of(s.term));
}

proof fn lemma_state_pullback(a: Value, b: Value, c: Value, s: Value, g: Value, bands: Seq<Option<Value>>)
    ensures
        rule::pullback(RuleOf::SsmState(a, b, c, s), g, bands) == rule::ssm_state_pullback(
            a,
            b,
            c,
            s,
            g,
        ),
{
    reveal(rule::pullback);
    reveal(rule::fused_pullback);
}

} // verus!
