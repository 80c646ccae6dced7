//! Differentiable operations that are evaluated in one pass over several operands.

use vstd::prelude::*;

use super::graph::{Session, Tape};
use super::ops;
use super::ops::{also, cat};
use super::rule;
use super::rule::{Rule, RuleOf, conv_inputs};
use super::var;
use super::var::{Place, Trace, Traced, Var};
use crate::error::{Error, Fault};
use crate::shape::{Shape, copied, same_list};
use crate::tensor;
use crate::tensor::{Tensor, Value};
use crate::term::{Binary, Fused, Scalar, Unary};
use crate::text::{append_bracketed, append_decimal};

verus! {

pub open spec fn opt_value(v: Option<Traced>) -> Option<Value> {
    match v {
        Some(x) => Some(x.value),
        None => None,
    }
}

pub open spec fn opt_traced(v: Option<&Var>) -> Option<Traced> {
    match v {
        Some(x) => Some(x@),
        None => None,
    }
}

pub open spec fn with_place(s: Seq<Option<Place>>, v: Option<Traced>) -> Seq<Option<Place>> {
    match v {
        Some(x) => s.push(x.trace),
        None => s,
    }
}

pub open spec fn mismatch(what: Seq<char>, a: Seq<usize>, b: Seq<usize>) -> Fault {
    Fault::Shape(
        what + " of shape "@ + crate::text::bracketed(a) + " does not fit "@
            + crate::text::bracketed(b),
    )
}

fn mismatch_error(what: &str, a: &Vec<usize>, b: &Vec<usize>) -> (e: Error)
    ensures
        e@ == mismatch(what@, a@, b@),
{
    let mut text = String::new();
    text.append(what);
    text.append(" of shape ");
    append_bracketed(&mut text, a);
    text.append(" does not fit ");
    append_bracketed(&mut text, b);
    proof {
        assert(text@ =~= what@ + " of shape "@ + crate::text::bracketed(a@) + " does not fit "@
            + crate::text::bracketed(b@));
    }
    Error::Shape(text)
}

fn keep(v: Option<&Var>) -> (r: Option<Tensor>)
    ensures
        rule::opt(r) == opt_value(opt_traced(v)),
{
    match v {
        Some(x) => Some(x.tensor().clone()),
        None => None,
    }
}

fn seat(list: &mut Vec<Option<Trace>>, v: Option<&Var>)
    ensures
        var::places(final(list)@) == with_place(var::places(old(list)@), opt_traced(v)),
{
    if let Some(x) = v {
        also(list, x);
    }
}

fn seats(a: &Var) -> (r: Vec<Option<Trace>>)
    ensures
        var::places(r@) == seq![a@.trace],
{
    let mut out: Vec<Option<Trace>> = Vec::new();
    also(&mut out, a);
    proof {
        assert(var::places(out@) =~= seq![a@.trace]);
    }
    out
}

// -- normalisation -----------------------------------------------------------------

/// Root-mean-square normalisation of every row; a gain has one entry per column.
pub open spec fn rms_norm_of(x: Value, gain: Option<Value>, eps: Scalar) -> Result<Value, Fault> {
    if x.dims.len() == 0 {
        Err(Fault::Rank { expected: 1, got: 0, shape: x.dims })
    } else if gain is Some && gain->0.dims != seq![x.dims.last()] {
        Err(mismatch("gain"@, gain->0.dims, x.dims))
    } else {
        Ok(
            tensor::fused_of(
                Fused::RmsNorm(eps),
                rule::with_optional(seq![x], gain),
                x.dims,
            ),
        )
    }
}

/// The reciprocal root mean square of every row.
pub open spec fn rms_scale_of(x: Value, eps: Scalar) -> Value {
    tensor::fused_of(Fused::RmsScale(eps), seq![x], x.dims.drop_last())
}

pub open spec fn rms_norm_op(t: Tape, x: Traced, gain: Option<Traced>, eps: Scalar) -> Result<
    (Tape, Traced),
    Fault,
> {
    var::recorded(
        t,
        rms_norm_of(x.value, opt_value(gain), eps),
        with_place(seq![x.trace], gain),
        RuleOf::RmsNorm(x.value, opt_value(gain), rms_scale_of(x.value, eps)),
    )
}

// -- rotation ----------------------------------------------------------------------

/// Whether a rotation can be evaluated in one pass: every row of the operand has a
/// row of the tables of its own, half as wide.
pub open spec fn rotates_rowwise(x: Seq<usize>, table: Seq<usize>) -> bool {
    &&& x.len() > 0
    &&& table.len() == x.len()
    &&& x.drop_last() == table.drop_last()
    &&& x.last() % 2 == 0
    &&& table.last() == x.last() / 2
}

fn rowwise(x: &Vec<usize>, table: &Vec<usize>) -> (r: bool)
    ensures
        r == rotates_rowwise(x@, table@),
{
    let n: usize = x.len();
    if n == 0 || table.len() != n {
        return false;
    }
    let mut i: usize = 0;
    while i < n - 1
        invariant
            i <= n - 1,
            n == x@.len(),
            n == table@.len(),
            forall|j: int| 0 <= j < i ==> x@[j] == table@[j],
        decreases n - i,
    {
        if x[i] != table[i] {
            proof {
                assert(x@.drop_last()[i as int] != table@.drop_last()[i as int]);
            }
            return false;
        }
        i += 1;
    }
    proof {
        assert(x@.drop_last() =~= table@.drop_last());
    }
    x[n - 1] % 2 == 0 && table[n - 1] == x[n - 1] / 2
}

pub open spec fn rotate_message(d: usize) -> Seq<char> {
    "rotation needs an even trailing dimension, got "@ + crate::text::decimal(d as nat)
}

/// `(x1 cos - x2 sin, x1 sin + x2 cos)` for the two halves of the trailing axis, one
/// primitive at a time.
pub open spec fn rotate_composed_op(t: Tape, x: Traced, cos: Traced, sin: Traced) -> Result<
    (Tape, Traced),
    Fault,
> {
    let last = (x.value.dims.len() - 1) as usize;
    let d = x.value.dims[last as int];
    let half = (d / 2) as usize;
    if d % 2 != 0 {
        Err(Fault::Shape(rotate_message(d)))
    } else {
        ops::next(
            ops::slice_op(t, x, last, 0, half),
            |t1: Tape, x1: Traced|
                ops::next(
                    ops::slice_op(t1, x, last, half, half),
                    |t2: Tape, x2: Traced|
                        ops::next(
                            ops::binary_op(t2, Binary::Mul, x1, cos),
                            |t3: Tape, a: Traced|
                                ops::next(
                                    ops::binary_op(t3, Binary::Mul, x2, sin),
                                    |t4: Tape, b: Traced|
                                        ops::next(
                                            ops::binary_op(t4, Binary::Sub, a, b),
                                            |t5: Tape, lo: Traced|
                                                ops::next(
                                                    ops::binary_op(t5, Binary::Mul, x1, sin),
                                                    |t6: Tape, c: Traced|
                                                        ops::next(
                                                            ops::binary_op(
                                                                t6,
                                                                Binary::Mul,
                                                                x2,
                                                                cos,
                                                            ),
                                                            |t7: Tape, e: Traced|
                                                                ops::next(
                                                                    ops::binary_op(
                                                                        t7,
                                                                        Binary::Add,
                                                                        c,
                                                                        e,
                                                                    ),
                                                                    |t8: Tape, hi: Traced|
                                                                        ops::cat_op(
                                                                            t8,
                                                                            seq![lo, hi],
                                                                            last,
                                                                        ),
                                                                ),
                                                        ),
                                                ),
                                        ),
                                ),
                        ),
                ),
        )
    }
}

pub open spec fn rotate_op(t: Tape, x: Traced, cos: Traced, sin: Traced) -> Result<
    (Tape, Traced),
    Fault,
> {
    if rotates_rowwise(x.value.dims, cos.value.dims) && cos.value.dims == sin.value.dims {
        Ok(
            var::record(
                t,
                tensor::fused_of(
                    Fused::Rotate(false),
                    seq![x.value, cos.value, sin.value],
                    x.value.dims,
                ),
                seq![x.trace, cos.trace, sin.trace],
                RuleOf::Rotate(x.value, cos.value, sin.value),
            ),
        )
    } else {
        rotate_composed_op(t, x, cos, sin)
    }
}

/// A rotation by minus an angle.
pub open spec fn rotate_by_angle_op(t: Tape, x: Traced, phi: Traced) -> Result<
    (Tape, Traced),
    Fault,
> {
    if rotates_rowwise(x.value.dims, phi.value.dims) {
        Ok(
            var::record(
                t,
                tensor::fused_of(
                    Fused::Rotate(true),
                    seq![x.value, phi.value, phi.value],
                    x.value.dims,
                ),
                seq![x.trace, phi.trace],
                RuleOf::RotateByAngle(x.value, phi.value),
            ),
        )
    } else {
        let (t1, cos) = ops::pointwise_op(t, Unary::Cos, phi);
        let (t2, s) = ops::pointwise_op(t1, Unary::Sin, phi);
        let (t3, sin) = ops::pointwise_op(t2, Unary::Neg, s);
        rotate_composed_op(t3, x, cos, sin)
    }
}

// -- convolution -------------------------------------------------------------------

/// Whether the operands of a depthwise causal convolution fit: `[batch, seq,
/// channels]` input, `[taps, channels]` weight with at least one tap,
/// `[batch, taps - 1, channels]` history and `[channels]` bias.
pub open spec fn conv_fits(x: Value, h: Option<Value>, w: Value, b: Option<Value>) -> bool {
    &&& x.dims.len() == 3
    &&& w.dims.len() == 2
    &&& w.dims[0] > 0
    &&& w.dims[1] == x.dims[2]
    &&& (h is Some ==> h->0.dims == seq![x.dims[0], (w.dims[0] - 1) as usize, x.dims[2]])
    &&& (b is Some ==> b->0.dims == seq![x.dims[2]])
}

pub open spec fn conv_of(x: Value, h: Option<Value>, w: Value, b: Option<Value>) -> Result<
    Value,
    Fault,
> {
    if conv_fits(x, h, w, b) {
        Ok(
            tensor::fused_of(
                Fused::Conv(h is Some, b is Some),
                rule::conv_args(x, h, w, b),
                x.dims,
            ),
        )
    } else {
        Err(mismatch("convolution weight"@, w.dims, x.dims))
    }
}

pub open spec fn causal_conv1d_op(
    t: Tape,
    x: Traced,
    h: Option<Traced>,
    w: Traced,
    b: Option<Traced>,
) -> Result<(Tape, Traced), Fault> {
    var::recorded(
        t,
        conv_of(x.value, opt_value(h), w.value, opt_value(b)),
        with_place(with_place(seq![x.trace, w.trace], h), b),
        RuleOf::Conv(x.value, opt_value(h), w.value, opt_value(b)),
    )
}

/// The trailing `taps - 1` positions of the history followed by the window.
pub open spec fn conv_history_of(x: Value, h: Option<Value>, w: Value) -> Result<Value, Fault> {
    if conv_fits(x, h, w, None) {
        Ok(
            tensor::fused_of(
                Fused::ConvHistory(h is Some),
                rule::conv_args(x, h, w, None),
                seq![x.dims[0], (w.dims[0] - 1) as usize, x.dims[2]],
            ),
        )
    } else {
        Err(mismatch("convolution weight"@, w.dims, x.dims))
    }
}

pub open spec fn conv_history_op(t: Tape, x: Traced, h: Option<Traced>, w: Traced) -> Result<
    (Tape, Traced),
    Fault,
> {
    var::recorded(
        t,
        conv_history_of(x.value, opt_value(h), w.value),
        with_place(seq![x.trace], h),
        RuleOf::ConvHistory(x.value, opt_value(h), w.value),
    )
}

fn three(a: usize, b: usize, c: usize) -> (r: Vec<usize>)
    ensures
        r@ == seq![a, b, c],
{
    let mut out: Vec<usize> = Vec::new();
    out.push(a);
    out.push(b);
    out.push(c);
    proof {
        assert(out@ =~= seq![a, b, c]);
    }
    out
}

fn single(a: usize) -> (r: Vec<usize>)
    ensures
        r@ == seq![a],
{
    let mut out: Vec<usize> = Vec::new();
    out.push(a);
    proof {
        assert(out@ =~= seq![a]);
    }
    out
}

fn conv_ok(x: &Tensor, h: &Option<Tensor>, w: &Tensor, b: &Option<Tensor>) -> (r: bool)
    ensures
        r == conv_fits(x@, rule::opt(*h), w@, rule::opt(*b)),
{
    if x.rank() != 3 || w.rank() != 2 {
        return false;
    }
    let taps: usize = w.shape().dim(0);
    let channels: usize = x.shape().dim(2);
    if taps == 0 || w.shape().dim(1) != channels {
        return false;
    }
    if let Some(t) = h {
        if !same_list(t.dims(), &three(x.shape().dim(0), taps - 1, channels)) {
            return false;
        }
    }
    if let Some(t) = b {
        if !same_list(t.dims(), &single(channels)) {
            return false;
        }
    }
    true
}

// -- state-space steps -----------------------------------------------------------------

/// `wrap(prev + dt theta)` for `[batch, heads]` steps and `[batch, heads, n]` speeds.
pub open spec fn ssm_angle_of(dt: Value, theta: Value, prev: Option<Value>) -> Result<
    Value,
    Fault,
> {
    if theta.dims.len() == 0 || dt.dims != theta.dims.drop_last() {
        Err(mismatch("step"@, dt.dims, theta.dims))
    } else if prev is Some && prev->0.dims != theta.dims {
        Err(mismatch("angle"@, prev->0.dims, theta.dims))
    } else {
        Ok(
            tensor::fused_of(
                Fused::SsmAngle(prev is Some),
                rule::with_optional(seq![dt, theta], prev),
                theta.dims,
            ),
        )
    }
}

pub open spec fn ssm_angle_op(t: Tape, dt: Traced, theta: Traced, prev: Option<Traced>) -> Result<
    (Tape, Traced),
    Fault,
> {
    var::recorded(
        t,
        ssm_angle_of(dt.value, theta.value, opt_value(prev)),
        with_place(seq![dt.trace, theta.trace], prev),
        RuleOf::SsmAngle(dt.value, theta.value, prev is Some),
    )
}

/// Three states of one shape, each scaled per head, summed.
pub open spec fn ssm_state_of(x0: Value, x1: Value, x2: Value, scales: Value) -> Result<
    Value,
    Fault,
> {
    if x1.dims != x0.dims {
        Err(mismatch("state"@, x1.dims, x0.dims))
    } else if x2.dims != x0.dims {
        Err(mismatch("state"@, x2.dims, x0.dims))
    } else if scales.dims.len() != 2 || scales.dims[0] != 3 {
        Err(mismatch("scales"@, scales.dims, x0.dims))
    } else {
        Ok(tensor::fused_of(Fused::SsmState, seq![x0, x1, x2, scales], x0.dims))
    }
}

pub open spec fn ssm_state_op(t: Tape, x0: Traced, x1: Traced, x2: Traced, scales: Traced) -> Result<
    (Tape, Traced),
    Fault,
> {
    var::recorded(
        t,
        ssm_state_of(x0.value, x1.value, x2.value, scales.value),
        seq![x0.trace, x1.trace, x2.trace, scales.trace],
        RuleOf::SsmState(x0.value, x1.value, x2.value, scales.value),
    )
}

/// The three coefficients per batch entry and head, packed as `[3, batch * heads]`.
pub open spec fn ssm_coefficients_of(a_log: Value, dt: Value, lambda: Value) -> Result<
    Value,
    Fault,
> {
    if dt.dims.len() != 2 || !crate::shape::fits(dt.dims) {
        Err(mismatch("step"@, dt.dims, a_log.dims))
    } else if a_log.dims != seq![dt.dims[1]] {
        Err(mismatch("decay"@, a_log.dims, dt.dims))
    } else if lambda.dims != dt.dims {
        Err(mismatch("mixing coefficient"@, lambda.dims, dt.dims))
    } else {
        Ok(
            tensor::fused_of(
                Fused::SsmCoefficients,
                seq![a_log, dt, lambda],
                seq![3usize, crate::shape::product(dt.dims) as usize],
            ),
        )
    }
}

pub open spec fn ssm_coefficients_op(t: Tape, a_log: Traced, dt: Traced, lambda: Traced) -> Result<
    (Tape, Traced),
    Fault,
> {
    var::recorded(
        t,
        ssm_coefficients_of(a_log.value, dt.value, lambda.value),
        seq![a_log.trace, dt.trace, lambda.trace],
        RuleOf::SsmCoefficients(a_log.value, dt.value, lambda.value),
    )
}

/// The `[rows, chunk, chunk]` band of three `[rows, chunk]` vectors.
pub open spec fn ssd_band_of(acum: Value, w: Value, g: Value, floor: Scalar) -> Result<
    Value,
    Fault,
> {
    if acum.dims.len() != 2 {
        Err(Fault::Rank { expected: 2, got: acum.dims.len() as usize, shape: acum.dims })
    } else if w.dims != acum.dims {
        Err(mismatch("weight"@, w.dims, acum.dims))
    } else if g.dims != acum.dims {
        Err(mismatch("gate"@, g.dims, acum.dims))
    } else {
        Ok(
            tensor::fused_of(
                Fused::SsdBand(floor),
                seq![acum, w, g],
                seq![acum.dims[0], acum.dims[1], acum.dims[1]],
            ),
        )
    }
}

pub open spec fn ssd_band_op(t: Tape, acum: Traced, w: Traced, g: Traced, floor: Scalar) -> Result<
    (Tape, Traced),
    Fault,
> {
    var::recorded(
        t,
        ssd_band_of(acum.value, w.value, g.value, floor),
        seq![acum.trace, w.trace, g.trace],
        RuleOf::SsdBand(floor, acum.value, w.value, g.value),
    )
}

fn list1(a: &Tensor) -> (r: Vec<Tensor>)
    ensures
        tensor::values(r@) == seq![a@],
{
    let mut out: Vec<Tensor> = Vec::new();
    out.push(a.clone());
    proof {
        assert(tensor::values(out@) =~= seq![a@]);
    }
    out
}

fn add_value(list: &mut Vec<Tensor>, a: &Tensor)
    ensures
        tensor::values(final(list)@) == tensor::values(old(list)@).push(a@),
{
    let ghost before = tensor::values(list@);
    list.push(a.clone());
    proof {
        assert(tensor::values(list@) =~= before.push(a@));
    }
}

fn add_optional(list: &mut Vec<Tensor>, a: &Option<Tensor>)
    ensures
        tensor::values(final(list)@) == rule::with_optional(
            tensor::values(old(list)@),
            rule::opt(*a),
        ),
{
    if let Some(t) = a {
        add_value(list, t);
    }
}

impl Var {
    /// Fused root-mean-square normalisation over the trailing axis.
    pub fn rms_norm(&self, s: &mut Session, weight: Option<&Self>, eps: Scalar) -> (r: Result<
        Self,
        Error,
    >)
        ensures
            var::did(
                r,
                old(s)@,
                final(s)@,
                rms_norm_op(old(s)@, self@, opt_traced(weight), eps),
            ),
    {
        let rank: usize = self.rank();
        if rank == 0 {
            return Err(Error::Rank { expected: 1, got: 0, shape: copied(self.dims()) });
        }
        let gain = keep(weight);
        let last: usize = self.shape().dim(rank - 1);
        if let Some(g) = &gain {
            if !same_list(g.dims(), &single(last)) {
                return Err(mismatch_error("gain", g.dims(), self.dims()));
            }
        }
        let mut args = list1(self.tensor());
        add_optional(&mut args, &gain);
        let value = Tensor::fused(Fused::RmsNorm(eps), &args, self.shape().clone());
        let rows = self.shape().without(rank - 1);
        proof {
            assert(rows@ =~= self@.value.dims.drop_last());
        }
        let scale = Tensor::fused(Fused::RmsScale(eps), &list1(self.tensor()), rows);
        let mut at = seats(self);
        seat(&mut at, weight);
        let rule: Rule = RuleOf::RmsNorm(self.tensor().clone(), gain, scale);
        Ok(Var::record(s, value, &at, rule))
    }

    /// Rotate the two halves of the trailing axis by given tables, in one pass where
    /// the tables have a row for every row of the operand and one primitive at a time
    /// otherwise.
    pub fn rotate_halves(&self, s: &mut Session, cos: &Self, sin: &Self) -> (r: Result<Self, Error>)
        requires
            self@.value.dims.len() > 0,
        ensures
            ops::same_value(r, final(s)@, rotate_op(old(s)@, self@, cos@, sin@)),
    {
        if !(rowwise(self.dims(), cos.dims()) && cos.shape().same(sin.shape())) {
            return self.rotate_halves_composed(s, cos, sin);
        }
        let mut args = list1(self.tensor());
        add_value(&mut args, cos.tensor());
        add_value(&mut args, sin.tensor());
        proof {
            assert(tensor::values(args@) =~= seq![self@.value, cos@.value, sin@.value]);
        }
        let value = Tensor::fused(Fused::Rotate(false), &args, self.shape().clone());
        let mut at = seats(self);
        also(&mut at, cos);
        also(&mut at, sin);
        proof {
            assert(var::places(at@) =~= seq![self@.trace, cos@.trace, sin@.trace]);
        }
        let rule: Rule = RuleOf::Rotate(
            self.tensor().clone(),
            cos.tensor().clone(),
            sin.tensor().clone(),
        );
        Ok(Var::record(s, value, &at, rule))
    }

    /// Rotate the two halves of the trailing axis by `-phi`, taking the angle itself.
    pub fn rotate_by_angle(&self, s: &mut Session, phi: &Self) -> (r: Result<Self, Error>)
        requires
            self@.value.dims.len() > 0,
        ensures
            ops::same_value(r, final(s)@, rotate_by_angle_op(old(s)@, self@, phi@)),
    {
        if !rowwise(self.dims(), phi.dims()) {
            let cos = phi.cos(s);
            let up = phi.sin(s);
            let sin = up.neg(s);
            return self.rotate_halves_composed(s, &cos, &sin);
        }
        let mut args = list1(self.tensor());
        add_value(&mut args, phi.tensor());
        add_value(&mut args, phi.tensor());
        proof {
            assert(tensor::values(args@) =~= seq![self@.value, phi@.value, phi@.value]);
        }
        let value = Tensor::fused(Fused::Rotate(true), &args, self.shape().clone());
        let mut at = seats(self);
        also(&mut at, phi);
        proof {
            assert(var::places(at@) =~= seq![self@.trace, phi@.trace]);
        }
        let rule: Rule = RuleOf::RotateByAngle(self.tensor().clone(), phi.tensor().clone());
        Ok(Var::record(s, value, &at, rule))
    }

    /// The rotation one primitive at a time.
    pub fn rotate_halves_composed(&self, s: &mut Session, cos: &Self, sin: &Self) -> (r: Result<
        Self,
        Error,
    >)
        requires
            self@.value.dims.len() > 0,
        ensures
            ops::same_value(r, final(s)@, rotate_composed_op(old(s)@, self@, cos@, sin@)),
    {
        let last: usize = self.rank() - 1;
        let d: usize = self.shape().dim(last);
        if d % 2 != 0 {
            let mut text = String::new();
            text.append("rotation needs an even trailing dimension, got ");
            append_decimal(&mut text, d as u64);
            proof {
                assert(text@ =~= rotate_message(d));
            }
            return Err(Error::Shape(text));
        }
        let half: usize = d / 2;
        let x1 = self.slice(s, last, 0, half)?;
        let x2 = self.slice(s, last, half, half)?;
        let a = x1.mul(s, cos)?;
        let b = x2.mul(s, sin)?;
        let lo = a.sub(s, &b)?;
        let c = x1.mul(s, sin)?;
        let e = x2.mul(s, cos)?;
        let hi = c.add(s, &e)?;
        let mut parts: Vec<Var> = Vec::new();
        parts.push(lo);
        parts.push(hi);
        proof {
            assert(ops::traced(parts@) =~= seq![lo@, hi@]);
        }
        cat(s, &parts, last)
    }

    /// A depthwise causal convolution over `[batch, seq, channels]`. `history` holds
    /// the positions before this window; `None` means they are zero.
    pub fn causal_conv1d(
        &self,
        s: &mut Session,
        history: Option<&Self>,
        weight: &Self,
        bias: Option<&Self>,
    ) -> (r: Result<Self, Error>)
        ensures
            var::did(
                r,
                old(s)@,
                final(s)@,
                causal_conv1d_op(
                    old(s)@,
                    self@,
                    opt_traced(history),
                    weight@,
                    opt_traced(bias),
                ),
            ),
    {
        let h = keep(history);
        let b = keep(bias);
        if !conv_ok(self.tensor(), &h, weight.tensor(), &b) {
            return Err(mismatch_error("convolution weight", weight.dims(), self.dims()));
        }
        let args = conv_inputs(self.tensor(), &h, weight.tensor(), &b);
        let value = Tensor::fused(
            Fused::Conv(h.is_some(), b.is_some()),
            &args,
            self.shape().clone(),
        );
        let mut at = seats(self);
        also(&mut at, weight);
        proof {
            assert(var::places(at@) =~= seq![self@.trace, weight@.trace]);
        }
        seat(&mut at, history);
        seat(&mut at, bias);
        let rule: Rule = RuleOf::Conv(self.tensor().clone(), h, weight.tensor().clone(), b);
        Ok(Var::record(s, value, &at, rule))
    }

    /// The positions to hand the next [`Var::causal_conv1d`] call.
    pub fn causal_conv1d_history(
        &self,
        s: &mut Session,
        history: Option<&Self>,
        weight: &Self,
    ) -> (r: Result<Self, Error>)
        ensures
            var::did(
                r,
                old(s)@,
                final(s)@,
                conv_history_op(old(s)@, self@, opt_traced(history), weight@),
            ),
    {
        let h = keep(history);
        if !conv_ok(self.tensor(), &h, weight.tensor(), &None) {
            return Err(mismatch_error("convolution weight", weight.dims(), self.dims()));
        }
        let args = conv_inputs(self.tensor(), &h, weight.tensor(), &None);
        let shape = Shape::new(
            three(
                self.shape().dim(0),
                weight.shape().dim(0) - 1,
                self.shape().dim(2),
            ),
        );
        let value = Tensor::fused(Fused::ConvHistory(h.is_some()), &args, shape);
        let mut at = seats(self);
        seat(&mut at, history);
        let rule: Rule = RuleOf::ConvHistory(self.tensor().clone(), h, weight.tensor().clone());
        Ok(Var::record(s, value, &at, rule))
    }

    /// Advance the rotating frame: `wrap(prev + dt * theta)`.
    pub fn ssm_angle(s: &mut Session, dt: &Self, theta: &Self, prev: Option<&Self>) -> (r: Result<
        Self,
        Error,
    >)
        ensures
            var::did(
                r,
                old(s)@,
                final(s)@,
                ssm_angle_op(old(s)@, dt@, theta@, opt_traced(prev)),
            ),
    {
        let rank: usize = theta.rank();
        let fits: bool = rank > 0 && {
            let rows = theta.shape().without(rank - 1);
            proof {
                assert(rows@ =~= theta@.value.dims.drop_last());
            }
            dt.shape().same(&rows)
        };
        if !fits {
            return Err(mismatch_error("step", dt.dims(), theta.dims()));
        }
        let p = keep(prev);
        if let Some(t) = &p {
            if !t.shape().same(theta.shape()) {
                return Err(mismatch_error("angle", t.dims(), theta.dims()));
            }
        }
        let mut args = list1(dt.tensor());
        add_value(&mut args, theta.tensor());
        proof {
            assert(tensor::values(args@) =~= seq![dt@.value, theta@.value]);
        }
        add_optional(&mut args, &p);
        let value = Tensor::fused(Fused::SsmAngle(p.is_some()), &args, theta.shape().clone());
        let mut at = seats(dt);
        also(&mut at, theta);
        proof {
            assert(var::places(at@) =~= seq![dt@.trace, theta@.trace]);
        }
        seat(&mut at, prev);
        let rule: Rule = RuleOf::SsmAngle(
            dt.tensor().clone(),
            theta.tensor().clone(),
            p.is_some(),
        );
        Ok(Var::record(s, value, &at, rule))
    }

    /// `x0 * s0 + x1 * s1 + x2 * s2`, each scale one value per batch entry and head.
    pub fn ssm_state_update(s: &mut Session, x0: &Self, x1: &Self, x2: &Self, scales: &Self) -> (r:
        Result<Self, Error>)
        ensures
            var::did(
                r,
                old(s)@,
                final(s)@,
                ssm_state_op(old(s)@, x0@, x1@, x2@, scales@),
            ),
    {
        if !x1.shape().same(x0.shape()) {
            return Err(mismatch_error("state", x1.dims(), x0.dims()));
        }
        if !x2.shape().same(x0.shape()) {
            return Err(mismatch_error("state", x2.dims(), x0.dims()));
        }
        if scales.rank() != 2 || scales.shape().dim(0) != 3 {
            return Err(mismatch_error("scales", scales.dims(), x0.dims()));
        }
        let mut args = list1(x0.tensor());
        add_value(&mut args, x1.tensor());
        add_value(&mut args, x2.tensor());
        add_value(&mut args, scales.tensor());
        proof {
            assert(tensor::values(args@) =~= seq![x0@.value, x1@.value, x2@.value, scales@.value]);
        }
        let value = Tensor::fused(Fused::SsmState, &args, x0.shape().clone());
        let mut at = seats(x0);
        also(&mut at, x1);
        also(&mut at, x2);
        also(&mut at, scales);
        proof {
            assert(var::places(at@) =~= seq![x0@.trace, x1@.trace, x2@.trace, scales@.trace]);
        }
        let rule: Rule = RuleOf::SsmState(
            x0.tensor().clone(),
            x1.tensor().clone(),
            x2.tensor().clone(),
            scales.tensor().clone(),
        );
        Ok(Var::record(s, value, &at, rule))
    }

    /// The per-head coefficients of one step, packed as `[3, batch * heads]`: the
    /// layout [`Var::ssm_state_update`] reads.
    pub fn ssm_coefficients(s: &mut Session, a_log: &Self, dt: &Self, lambda: &Self) -> (r: Result<
        Self,
        Error,
    >)
        ensures
            var::did(
                r,
                old(s)@,
                final(s)@,
                ssm_coefficients_op(old(s)@, a_log@, dt@, lambda@),
            ),
    {
        let count: usize = match dt.shape().checked_elements() {
            Some(n) => if dt.rank() == 2 {
                n
            } else {
                return Err(mismatch_error("step", dt.dims(), a_log.dims()));
            },
            None => {
                return Err(mismatch_error("step", dt.dims(), a_log.dims()));
            },
        };
        if !same_list(a_log.dims(), &single(dt.shape().dim(1))) {
            return Err(mismatch_error("decay", a_log.dims(), dt.dims()));
        }
        if !lambda.shape().same(dt.shape()) {
            return Err(mismatch_error("mixing coefficient", lambda.dims(), dt.dims()));
        }
        let mut args = list1(a_log.tensor());
        add_value(&mut args, dt.tensor());
        add_value(&mut args, lambda.tensor());
        proof {
            assert(tensor::values(args@) =~= seq![a_log@.value, dt@.value, lambda@.value]);
        }
        let mut dims = single(3);
        dims.push(count);
        proof {
            assert(dims@ =~= seq![3usize, count]);
        }
        let value = Tensor::fused(Fused::SsmCoefficients, &args, Shape::new(dims));
        let mut at = seats(a_log);
        also(&mut at, dt);
        also(&mut at, lambda);
        proof {
            assert(var::places(at@) =~= seq![a_log@.trace, dt@.trace, lambda@.trace]);
        }
        let rule: Rule = RuleOf::SsmCoefficients(
            a_log.tensor().clone(),
            dt.tensor().clone(),
            lambda.tensor().clone(),
        );
        Ok(Var::record(s, value, &at, rule))
    }

    /// The chunked scan's intra-chunk band from three `[rows, chunk]` vectors.
    pub fn ssd_band(s: &mut Session, acum: &Self, w: &Self, g: &Self, floor: Scalar) -> (r: Result<
        Self,
        Error,
    >)
        ensures
            var::did(r, old(s)@, final(s)@, ssd_band_op(old(s)@, acum@, w@, g@, floor)),
    {
        acum.shape().expect_rank(2)?;
        if !w.shape().same(acum.shape()) {
            return Err(mismatch_error("weight", w.dims(), acum.dims()));
        }
        if !g.shape().same(acum.shape()) {
            return Err(mismatch_error("gate", g.dims(), acum.dims()));
        }
        let mut args = list1(acum.tensor());
        add_value(&mut args, w.tensor());
        add_value(&mut args, g.tensor());
        proof {
            assert(tensor::values(args@) =~= seq![acum@.value, w@.value, g@.value]);
        }
        let chunk: usize = acum.shape().dim(1);
        let shape = Shape::new(three(acum.shape().dim(0), chunk, chunk));
        let value = Tensor::fused(Fused::SsdBand(floor), &args, shape);
        let mut at = seats(acum);
        also(&mut at, w);
        also(&mut at, g);
        proof {
            assert(var::places(at@) =~= seq![acum@.trace, w@.trace, g@.trace]);
        }
        let rule: Rule = RuleOf::SsdBand(
            floor,
            acum.tensor().clone(),
            w.tensor().clone(),
            g.tensor().clone(),
        );
        Ok(Var::record(s, value, &at, rule))
    }
}

} // verus!
