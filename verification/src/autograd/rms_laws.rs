//! Root-mean-square normalisation and its gradient, over the real numbers.

use vstd::prelude::*;

use super::fused;
use super::graph::Tape;
use super::rule;
use super::rule::{Adjoint, RuleOf};
use super::var;
use super::var::Traced;
use crate::buffer::Reader;
use crate::distributions::algebra;
use crate::distributions::launches;
use crate::distributions::readings;
use crate::distributions::rows;
use crate::layer_kernels;
use crate::layer_kernels::{dot, products};
use crate::meaning;
use crate::shape;
use crate::tensor;
use crate::tensor::Value;
use crate::term::{Fused, Scalar};

verus! {

/// Row `r` of a tensor whose rows have `k` entries.
pub open spec fn row(w: Reader, v: Value, r: int, k: int) -> Seq<real> {
    Seq::new(k as nat, |j: int| w.at(v, r * k + j))
}

/// The gain of every column; ones where there is none.
pub open spec fn gains(w: Reader, gain: Option<Value>, k: int) -> Seq<real> {
    Seq::new(
        k as nat,
        |j: int|
            match gain {
                Some(v) => w.at(v, j),
                None => 1real,
            },
    )
}

/// The mean square of a row, and the floor.
pub open spec fn shifted_square(w: Reader, x: Seq<real>, eps: Scalar) -> real {
    dot(x, x) / (x.len() as int as real) + meaning::scalar(w.m.f, eps)
}

/// The factor by which a row is scaled.
pub open spec fn factor(w: Reader, x: Seq<real>, eps: Scalar) -> real {
    1real / (w.m.f.sqrt)(shifted_square(w, x, eps))
}

/// Where the factor is a reciprocal root: its square undoes the shifted mean square.
pub open spec fn rooted(w: Reader, x: Seq<real>, eps: Scalar) -> bool {
    let f = factor(w, x, eps);
    f * f * shifted_square(w, x, eps) == 1real
}

// -- sums ----------------------------------------------------------------------------------

proof fn lemma_sum_agrees(a: Seq<real>, b: Seq<real>, n: nat)
    requires
        n <= a.len(),
        n <= b.len(),
        forall|j: int| 0 <= j < n ==> a[j] == b[j],
    ensures
        rows::sum(a, n) == rows::sum(b, n),
    decreases n,
{
    if n > 0 {
        lemma_sum_agrees(a, b, (n - 1) as nat);
    }
}

/// A sum of combinations is the combination of the sums.
#[verifier::spinoff_prover]
pub proof fn lemma_sum_combines(s: Seq<real>, a: Seq<real>, b: Seq<real>, p: real, q: real, n: nat)
    requires
        n <= s.len(),
        n <= a.len(),
        n <= b.len(),
        forall|j: int| 0 <= j < n ==> #[trigger] s[j] == p * a[j] + q * b[j],
    ensures
        rows::sum(s, n) == p * rows::sum(a, n) + q * rows::sum(b, n),
    decreases n,
{
    if n > 0 {
        lemma_sum_combines(s, a, b, p, q, (n - 1) as nat);
        let (u, v) = (rows::sum(a, (n - 1) as nat), rows::sum(b, (n - 1) as nat));
        let (x, y) = (a[n - 1], b[n - 1]);
        assert(s[n - 1] == p * x + q * y);
        lemma_distribute(p, u, x);
        lemma_distribute(q, v, y);
    } else {
        lemma_times_zero(p, 0real);
        lemma_times_zero(q, 0real);
    }
}

#[verifier::spinoff_prover]
pub proof fn lemma_dot_commutes(a: Seq<real>, b: Seq<real>)
    requires
        a.len() == b.len(),
    ensures
        dot(a, b) == dot(b, a),
{
    assert forall|j: int| 0 <= j < a.len() implies products(a, b)[j] == products(b, a)[j] by {
        let (x, y) = (a[j], b[j]);
        assert(x * y == y * x) by (nonlinear_arith);
    }
    lemma_sum_agrees(products(a, b), products(b, a), a.len());
}

// -- the derivative ------------------------------------------------------------------------

/// The change of a normalised row when the row changes along `v`: the product rule on
/// `x r`, where `slope` is the change of `r`.
pub open spec fn changes(x: Seq<real>, gain: Seq<real>, r: real, slope: real, v: Seq<real>) -> Seq<real> {
    Seq::new(x.len(), |j: int| gain[j] * (v[j] * r + x[j] * slope))
}

/// `r` is the reciprocal root of `q`, so `r r q` stays one: its change follows from that of
/// `q`, which is twice the mean of `x v`.
pub open spec fn follows(x: Seq<real>, q: real, r: real, slope: real, v: Seq<real>) -> bool {
    2real * slope * r * q + r * r * (2real * (dot(x, v) / (x.len() as int as real))) == 0real
}

#[verifier::spinoff_prover]
proof fn lemma_times_zero(r: real, h: real)
    requires
        h == 0real,
    ensures
        r * h == 0real,
{
}

#[verifier::spinoff_prover]
proof fn lemma_expand_slope(q: real, r: real, slope: real, c: real)
    ensures
        r * (2real * slope * r * q + r * r * (2real * c)) == 2real * (slope * (r * r * q) + r * r * r
            * c),
{
    assert(r * (2real * slope * r * q + r * r * (2real * c)) == 2real * (slope * (r * r * q) + r * r
        * r * c)) by (nonlinear_arith);
}

#[verifier::spinoff_prover]
proof fn lemma_slope(q: real, r: real, slope: real, c: real)
    requires
        r * r * q == 1real,
        2real * slope * r * q + r * r * (2real * c) == 0real,
    ensures
        slope == -(r * r * r * c),
{
    lemma_expand_slope(q, r, slope, c);
    lemma_times_zero(r, 2real * slope * r * q + r * r * (2real * c));
    algebra::lemma_times(slope, r * r * q, slope, 1real);
}

#[verifier::spinoff_prover]
proof fn lemma_left(a: real, b: real, c: real, r: real, k: real, s: real)
    ensures
        a * (r * b - k * c * s) == r * (a * b) + (-(k * s)) * (a * c),
{
    let m = -(k * s);
    lemma_slide(k, c, s);
    lemma_distribute(a, r * b, m * c);
    lemma_exchange(a, r, b);
    lemma_exchange(a, m, c);
}

#[verifier::spinoff_prover]
proof fn lemma_right(a: real, b: real, c: real, e: real, r: real, slope: real)
    ensures
        a * (b * (c * r + e * slope)) == r * ((a * b) * c) + slope * ((a * b) * e),
{
    let (p, u, v) = (a * b, c * r, e * slope);
    lemma_regroup(a, b, u + v);
    lemma_distribute(p, u, v);
    lemma_rotate(p, c, r);
    lemma_rotate(p, e, slope);
}

#[verifier::spinoff_prover]
proof fn lemma_slide(k: real, c: real, s: real)
    ensures
        -(k * c * s) == (-(k * s)) * c,
{
    assert(-(k * c * s) == (-(k * s)) * c) by (nonlinear_arith);
}

#[verifier::spinoff_prover]
proof fn lemma_exchange(a: real, r: real, b: real)
    ensures
        a * (r * b) == r * (a * b),
{
    assert(a * (r * b) == r * (a * b)) by (nonlinear_arith);
}

#[verifier::spinoff_prover]
proof fn lemma_regroup(a: real, b: real, c: real)
    ensures
        a * (b * c) == (a * b) * c,
{
    assert(a * (b * c) == (a * b) * c) by (nonlinear_arith);
}

#[verifier::spinoff_prover]
proof fn lemma_distribute(p: real, u: real, v: real)
    ensures
        p * (u + v) == p * u + p * v,
{
    assert(p * (u + v) == p * u + p * v) by (nonlinear_arith);
}

#[verifier::spinoff_prover]
proof fn lemma_rotate(p: real, c: real, r: real)
    ensures
        p * (c * r) == r * (p * c),
{
    assert(p * (c * r) == r * (p * c)) by (nonlinear_arith);
}

#[verifier::spinoff_prover]
proof fn lemma_same_weight(k: real, s: real, z: real, u: real, i: real)
    requires
        k == u * i,
    ensures
        (-(k * s)) * z == (-(u * (z * i))) * s,
{
    assert((-((u * i) * s)) * z == (-(u * (z * i))) * s) by (nonlinear_arith);
}

#[verifier::spinoff_prover]
proof fn lemma_left_sum(gw: Seq<real>, x: Seq<real>, dx: Seq<real>, v: Seq<real>, r: real, k: real, s: real)
    requires
        gw.len() == x.len(),
        dx.len() == x.len(),
        v.len() == x.len(),
        forall|j: int| 0 <= j < x.len() ==> #[trigger] dx[j] == r * gw[j] - k * x[j] * s,
    ensures
        dot(v, dx) == r * dot(v, gw) + (-(k * s)) * dot(v, x),
{
    assert forall|j: int| 0 <= j < x.len() implies #[trigger] products(v, dx)[j] == r * products(
        v,
        gw,
    )[j] + (-(k * s)) * products(v, x)[j] by {
        assert(dx[j] == r * gw[j] - k * x[j] * s);
        lemma_left(v[j], gw[j], x[j], r, k, s);
    }
    lemma_sum_combines(products(v, dx), products(v, gw), products(v, x), r, -(k * s), x.len());
}

#[verifier::spinoff_prover]
proof fn lemma_right_sum(
    x: Seq<real>,
    gain: Seq<real>,
    g: Seq<real>,
    gw: Seq<real>,
    v: Seq<real>,
    r: real,
    slope: real,
)
    requires
        gain.len() == x.len(),
        g.len() == x.len(),
        gw.len() == x.len(),
        v.len() == x.len(),
        forall|j: int| 0 <= j < x.len() ==> #[trigger] gw[j] == g[j] * gain[j],
    ensures
        dot(g, changes(x, gain, r, slope, v)) == r * dot(gw, v) + slope * dot(gw, x),
{
    let ch = changes(x, gain, r, slope, v);
    assert forall|j: int| 0 <= j < x.len() implies #[trigger] products(g, ch)[j] == r * products(
        gw,
        v,
    )[j] + slope * products(gw, x)[j] by {
        assert(gw[j] == g[j] * gain[j]);
        lemma_right(g[j], gain[j], v[j], x[j], r, slope);
    }
    lemma_sum_combines(products(g, ch), products(gw, v), products(gw, x), r, slope, x.len());
}

#[verifier::spinoff_prover]
proof fn lemma_adjoint(
    x: Seq<real>,
    gain: Seq<real>,
    g: Seq<real>,
    gw: Seq<real>,
    dx: Seq<real>,
    v: Seq<real>,
    q: real,
    r: real,
    slope: real,
)
    requires
        x.len() > 0,
        gain.len() == x.len(),
        g.len() == x.len(),
        gw.len() == x.len(),
        dx.len() == x.len(),
        v.len() == x.len(),
        r * r * q == 1real,
        follows(x, q, r, slope, v),
        forall|j: int| 0 <= j < x.len() ==> #[trigger] gw[j] == g[j] * gain[j],
        forall|j: int|
            0 <= j < x.len() ==> #[trigger] dx[j] == r * gw[j] - (r * r * r / (x.len() as int as real))
                * x[j] * dot(gw, x),
    ensures
        dot(v, dx) == dot(g, changes(x, gain, r, slope, v)),
{
    let d = x.len() as int as real;
    let i = 1real / d;
    let (s, k, xv) = (dot(gw, x), r * r * r / d, dot(x, v));
    lemma_slope(q, r, slope, xv / d);
    lemma_left_sum(gw, x, dx, v, r, k, s);
    lemma_right_sum(x, gain, g, gw, v, r, slope);
    lemma_dot_commutes(v, gw);
    lemma_dot_commutes(v, x);
    algebra::lemma_over(r * r * r, d);
    algebra::lemma_over(xv, d);
    lemma_same_weight(k, s, xv, r * r * r, i);
}

#[verifier::spinoff_prover]
proof fn lemma_factored(f: real, a: real, b: real, s: real, d: real)
    requires
        d != 0real,
    ensures
        f * a - (f * f * f / d) * b * s == f * (a - b * (f * f) * (s / d)),
{
    let i = 1real / d;
    algebra::lemma_over(f * f * f, d);
    algebra::lemma_over(s, d);
    assert(f * a - ((f * f * f) * i) * b * s == f * (a - b * (f * f) * (s * i)))
        by (nonlinear_arith);
}

// -- the kernels ---------------------------------------------------------------------------

/// What normalising records: the normalised value, and the rule that a gradient goes back by.
pub open spec fn recorded_as(
    t: Tape,
    x: Traced,
    gain: Option<Traced>,
    eps: Scalar,
    y: Value,
    back: Adjoint,
) -> bool {
    fused::rms_norm_op(t, x, gain, eps) == Ok::<(Tape, Traced), crate::error::Fault>(
        var::record(t, y, fused::with_place(seq![x.trace], gain), back),
    )
}

/// The shapes of a normalisation.
pub open spec fn suits(w: Reader, x: Value, gain: Option<Value>) -> bool {
    &&& x.dims.len() > 0
    &&& w.fits(x)
    &&& gain matches Some(v) ==> v.dims == seq![x.dims.last()] && w.fits(v)
}

#[verifier::spinoff_prover]
proof fn lemma_forward(w: Reader, x: Value, gain: Option<Value>, eps: Scalar, r: int, j: int)
    requires
        suits(w, x, gain),
        0 <= j < x.dims.last(),
        0 <= r,
    ensures
        ({
            let k = x.dims.last() as int;
            let y = fused::rms_norm_of(x, gain, eps);
            let xs = row(w, x, r, k);
            &&& y is Ok
            &&& y->Ok_0.dims == x.dims
            &&& w.at(y->Ok_0, r * k + j) == xs[j] * factor(w, xs, eps) * gains(w, gain, k)[j]
            &&& w.at(fused::rms_scale_of(x, eps), r) == factor(w, xs, eps)
        }),
{
    reveal(layer_kernels::written);
    let k = x.dims.last() as int;
    let args = rule::with_optional(seq![x], gain);
    readings::lemma_kernel(w, Fused::RmsNorm(eps), args, x.dims);
    readings::lemma_kernel(w, Fused::RmsScale(eps), seq![x], x.dims.drop_last());
    let held = readings::operands(w, args);
    assert(held[0] == w.of(x.term));
    let i = r * k + j;
    vstd::arithmetic::div_mod::lemma_fundamental_div_mod_converse(i, k, r, j);
    let xs = row(w, x, r, k);
    assert(launches::row_at(w.of(x.term), r, k) =~= xs);
    assert(readings::operands(w, seq![x])[0] == w.of(x.term));
    if gain is Some {
        assert(held[1] == w.of(gain->0.term));
    }
}

/// What the kernel of the input's gradient writes.
#[verifier::spinoff_prover]
proof fn lemma_dx(w: Reader, x: Value, gain: Option<Value>, s: Value, g: Value, r: int, j: int)
    requires
        suits(w, x, gain),
        0 <= j < x.dims.last(),
        0 <= r,
    ensures
        ({
            let k = x.dims.last() as int;
            let (xs, gw) = (row(w, x, r, k), products(row(w, g, r, k), gains(w, gain, k)));
            let f = w.at(s, r);
            let args = rule::with_optional(seq![g, x], gain).push(s);
            w.at(tensor::fused_of(Fused::RmsNormDx, args, x.dims), r * k + j) == f * gw[j] - (f * f
                * f / (k as real)) * xs[j] * dot(gw, xs)
        }),
{
    reveal(layer_kernels::written);
    let k = x.dims.last() as int;
    let args = rule::with_optional(seq![g, x], gain).push(s);
    readings::lemma_kernel(w, Fused::RmsNormDx, args, x.dims);
    let held = readings::operands(w, args);
    assert(held[0] == w.of(g.term) && held[1] == w.of(x.term));
    assert(held[held.len() - 1] == w.of(s.term));
    let i = r * k + j;
    vstd::arithmetic::div_mod::lemma_fundamental_div_mod_converse(i, k, r, j);
    let (xs, gs, ws) = (row(w, x, r, k), row(w, g, r, k), gains(w, gain, k));
    assert(launches::row_at(w.of(x.term), r, k) =~= xs);
    if gain is Some {
        assert(held[2] == w.of(gain->0.term));
    }
    let weighted = layer_kernels::weighted_row(held[0], held, held.len() == 4, 2, r, k);
    assert forall|c: int| 0 <= c < k implies weighted[c] == products(gs, ws)[c] by {
        assert(weighted[c] == gs[c] * layer_kernels::gain_at(held, held.len() == 4, 2, c));
    }
    assert(weighted =~= products(gs, ws));
}

/// What the kernel of the gain's gradient writes.
#[verifier::spinoff_prover]
proof fn lemma_dw(w: Reader, x: Value, dims: Seq<usize>, eps: Scalar, g: Value, j: int)
    requires
        suits(w, x, None),
        0 <= j < x.dims.last(),
    ensures
        w.at(
            tensor::fused_of(
                Fused::RmsNormDw,
                seq![g, x, fused::rms_scale_of(x, eps)],
                dims,
            ),
            j,
        ) == gain_slope(w, x, eps, g, j),
{
    reveal(layer_kernels::written);
    let k = x.dims.last() as int;
    let s = fused::rms_scale_of(x, eps);
    let more = seq![g, x, s];
    readings::lemma_kernel(w, Fused::RmsNormDw, more, dims);
    let h = readings::operands(w, more);
    assert(h[0] == w.of(g.term) && h[1] == w.of(x.term) && h[2] == w.of(s.term));
    let n = shape::product(x.dims.drop_last());
    let a = Seq::new(
        n,
        |q: int| (h[0].at)(q * k + j) * (h[1].at)(q * k + j) * (h[2].at)(q),
    );
    let b = gain_terms(w, x, eps, g, j);
    assert forall|q: int| 0 <= q < n implies a[q] == b[q] by {
        lemma_forward(w, x, None, eps, q, j);
    }
    assert(a =~= b);
}

proof fn lemma_pullback(x: Value, gain: Option<Value>, s: Value, g: Value, bands: Seq<Option<Value>>)
    ensures
        rule::pullback(RuleOf::RmsNorm(x, gain, s), g, bands) == Ok::<
            Seq<Option<Value>>,
            crate::error::Fault,
        >(
            match gain {
                Some(v) => seq![
                    Some(
                        tensor::fused_of(
                            Fused::RmsNormDx,
                            rule::with_optional(seq![g, x], gain).push(s),
                            x.dims,
                        ),
                    ),
                    Some(tensor::fused_of(Fused::RmsNormDw, seq![g, x, s], v.dims)),
                ],
                None => seq![
                    Some(
                        tensor::fused_of(
                            Fused::RmsNormDx,
                            rule::with_optional(seq![g, x], gain).push(s),
                            x.dims,
                        ),
                    ),
                ],
            },
        ),
{
    reveal(rule::pullback);
    reveal(rule::fused_pullback);
}

#[verifier::spinoff_prover]
proof fn lemma_backward(
    w: Reader,
    x: Value,
    gain: Option<Value>,
    eps: Scalar,
    g: Value,
    bands: Seq<Option<Value>>,
    r: int,
    j: int,
)
    requires
        suits(w, x, gain),
        0 <= j < x.dims.last(),
        0 <= r,
    ensures
        ({
            let k = x.dims.last() as int;
            let (xs, gs, ws) = (row(w, x, r, k), row(w, g, r, k), gains(w, gain, k));
            let gw = products(gs, ws);
            let f = factor(w, xs, eps);
            let back = rule::pullback(
                RuleOf::RmsNorm(x, gain, fused::rms_scale_of(x, eps)),
                g,
                bands,
            );
            &&& back matches Ok(grads) && grads.len() == (if gain is Some {
                2int
            } else {
                1int
            }) && (grads[0] matches Some(dx) && dx.dims == x.dims && w.at(dx, r * k + j) == f
                * gw[j] - (f * f * f / (k as real)) * xs[j] * dot(gw, xs)) && (gain is Some ==> (
            grads[1] matches Some(dw) && dw.dims == gain->0.dims && w.at(dw, j) == gain_slope(
                w,
                x,
                eps,
                g,
                j,
            )))
        }),
{
    let s = fused::rms_scale_of(x, eps);
    lemma_forward(w, x, gain, eps, r, j);
    lemma_dx(w, x, gain, s, g, r, j);
    lemma_pullback(x, gain, s, g, bands);
    if gain is Some {
        lemma_dw(w, x, gain->0.dims, eps, g, j);
    }
}

/// The terms of the gradient of a gain: the gradient times the normalised input, row by row.
pub open spec fn gain_terms(w: Reader, x: Value, eps: Scalar, g: Value, j: int) -> Seq<real> {
    let k = x.dims.last() as int;
    Seq::new(
        shape::product(x.dims.drop_last()),
        |q: int| w.at(g, q * k + j) * w.at(x, q * k + j) * factor(w, row(w, x, q, k), eps),
    )
}

/// The gradient of entry `j` of a gain.
pub open spec fn gain_slope(w: Reader, x: Value, eps: Scalar, g: Value, j: int) -> real {
    let s = gain_terms(w, x, eps, g, j);
    rows::sum(s, s.len())
}

/// Normalising scales every row by the reciprocal root of its mean square and multiplies by
/// the gain, and its gradient is the adjoint of that map's derivative. With `f` the factor of
/// a row and `m` the mean of the weighted gradient times the row, entry `j` of the row
/// receives `f (g w - x f f m)`. For every change `v` of the row, the gradient that the row
/// receives weighs `v` as the gradient of the result weighs the change of the result. Returns
/// the value and the rule that are recorded.
#[verifier::spinoff_prover]
pub proof fn law_rms_norm_and_its_adjoint(
    w: Reader,
    t: Tape,
    x: Traced,
    gain: Option<Traced>,
    eps: Scalar,
    g: Value,
    bands: Seq<Option<Value>>,
    r: int,
    j: int,
    v: Seq<real>,
    slope: real,
) -> (made: (Value, Adjoint))
    requires
        suits(w, x.value, fused::opt_value(gain)),
        w.fits(g),
        g.dims == x.value.dims,
        0 <= j < x.value.dims.last(),
        0 <= r,
        rooted(w, row(w, x.value, r, x.value.dims.last() as int), eps),
        v.len() == x.value.dims.last(),
        follows(
            row(w, x.value, r, x.value.dims.last() as int),
            shifted_square(w, row(w, x.value, r, x.value.dims.last() as int), eps),
            factor(w, row(w, x.value, r, x.value.dims.last() as int), eps),
            slope,
            v,
        ),
    ensures
        recorded_as(t, x, gain, eps, made.0, made.1),
        made.0.dims == x.value.dims,
        ({
            let k = x.value.dims.last() as int;
            let (xs, gs, ws) = (
                row(w, x.value, r, k),
                row(w, g, r, k),
                gains(w, fused::opt_value(gain), k),
            );
            let f = factor(w, xs, eps);
            let mean = dot(products(gs, ws), xs) / (k as real);
            &&& w.at(made.0, r * k + j) == xs[j] * f * ws[j]
            &&& rule::pullback(made.1, g, bands) matches Ok(grads) && grads.len() == (
            if gain is Some {
                2int
            } else {
                1int
            }) && (grads[0] matches Some(dx) && dx.dims == x.value.dims && w.at(dx, r * k + j) == f
                * (gs[j] * ws[j] - xs[j] * (f * f) * mean) && dot(v, row(w, dx, r, k)) == dot(
                gs,
                changes(xs, ws, f, slope, v),
            )) && (gain is Some ==> (grads[1] matches Some(dw) && w.at(dw, j) == gain_slope(
                w,
                x.value,
                eps,
                g,
                j,
            )))
        }),
{
    let gv = fused::opt_value(gain);
    let k = x.value.dims.last() as int;
    lemma_forward(w, x.value, gv, eps, r, j);
    lemma_backward(w, x.value, gv, eps, g, bands, r, j);
    let y = fused::rms_norm_of(x.value, gv, eps)->Ok_0;
    let back: Adjoint = RuleOf::RmsNorm(x.value, gv, fused::rms_scale_of(x.value, eps));
    let grads = rule::pullback(back, g, bands)->Ok_0;
    let dx = grads[0]->Some_0;
    let (xs, gs, ws) = (row(w, x.value, r, k), row(w, g, r, k), gains(w, gv, k));
    let gw = products(gs, ws);
    let (f, s) = (factor(w, xs, eps), dot(gw, xs));
    let q = shifted_square(w, xs, eps);
    let dxs = row(w, dx, r, k);
    assert forall|c: int| 0 <= c < k implies #[trigger] dxs[c] == f * gw[c] - (f * f * f / (k as real))
        * xs[c] * s by {
        lemma_backward(w, x.value, gv, eps, g, bands, r, c);
    }
    lemma_adjoint(xs, ws, gs, gw, dxs, v, q, f, slope);
    lemma_factored(f, gs[j] * ws[j], xs[j], s, k as real);
    (y, back)
}

} // verus!
