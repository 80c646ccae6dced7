//! Distributions built out of other distributions.
//!
//! * [`Independent`] turns a batch of scalars into one vector event.
//! * [`TransformedDistribution`] pushes a base through invertible maps and carries the
//!   Jacobian.
//! * [`MixtureSameFamily`] weights a batch of components by a categorical.
//!
//! Everything here is composition over tracked values, so the gradients need nothing
//! of their own.

use vstd::prelude::*;

use super::base;
use super::base::{Distribution, Support, unsupported};
use super::categorical;
use super::categorical::{Categorical, Choice};
use crate::autograd::graph::{Session, Tape};
use crate::autograd::ops;
use crate::autograd::rule;
use crate::autograd::var;
use crate::autograd::var::{Traced, Var};
use crate::error::{Error, Fault};
use crate::shape::{Shape, copied};
use crate::single;
use crate::tensor;
use crate::tensor::{IdValue, Tensor, Value};
use crate::term::{Binary, Scalar, Unary};
use crate::text::{append_bracketed, append_decimal};

verus! {

// -- independent events ------------------------------------------------------------------

/// Reinterpret the last batch axes of a distribution as one event.
///
/// The distribution is unchanged; what changes is what counts as one sample, and so
/// what [`Distribution::log_prob`] and [`Distribution::entropy`] sum over.
pub struct Independent<D> {
    base: D,
    reinterpreted: usize,
    batch: Shape,
    event: Shape,
}

pub open spec fn reinterpret_message(n: usize, batch: Seq<usize>) -> Seq<char> {
    "cannot reinterpret "@ + crate::text::decimal(n as nat) + " axes of a "@
        + crate::text::bracketed(batch) + " batch"@
}

/// The last `n` axes summed away, the last first.
pub open spec fn sum_trailing_op(t: Tape, v: Traced, n: nat) -> Result<(Tape, Traced), Fault>
    decreases n,
{
    if n == 0 {
        Ok((t, v))
    } else {
        ops::next(
            sum_trailing_op(t, v, (n - 1) as nat),
            |u: Tape, w: Traced|
                if w.value.dims.len() == 0 {
                    Err(Fault::Shape("there is no axis left to sum"@))
                } else {
                    ops::sum_away_op(u, w, (w.value.dims.len() - 1) as usize)
                },
        )
    }
}

proof fn lemma_trailing_failed(t: Tape, v: Traced, low: nat, high: nat)
    requires
        low <= high,
        sum_trailing_op(t, v, low) is Err,
    ensures
        sum_trailing_op(t, v, high) == sum_trailing_op(t, v, low),
    decreases high,
{
    if low < high {
        lemma_trailing_failed(t, v, low, (high - 1) as nat);
    }
}

/// Sum the last `n` axes away.
fn sum_trailing(s: &mut Session, v: &Var, n: usize) -> (r: Result<Var, Error>)
    ensures
        ops::same_value(r, final(s)@, sum_trailing_op(old(s)@, v@, n as nat)),
{
    let ghost start = s@;
    let mut out = v.clone();
    let mut i: usize = 0;
    while i < n
        invariant
            i <= n,
            start == old(s)@,
            sum_trailing_op(start, v@, i as nat) == Ok::<(Tape, Traced), Fault>((s@, out@)),
        decreases n - i,
    {
        if out.rank() == 0 {
            proof {
                lemma_trailing_failed(start, v@, i as nat + 1, n as nat);
            }
            return Err(Error::shape("there is no axis left to sum"));
        }
        match out.sum_away(s, out.rank() - 1) {
            Ok(w) => {
                out = w;
            },
            Err(e) => {
                proof {
                    lemma_trailing_failed(start, v@, i as nat + 1, n as nat);
                }
                return Err(e);
            },
        }
        i += 1;
    }
    Ok(out)
}

fn reinterpret_error(n: usize, batch: &Vec<usize>) -> (e: Error)
    ensures
        e@ == Fault::Shape(reinterpret_message(n, batch@)),
{
    let mut text = String::new();
    text.append("cannot reinterpret ");
    append_decimal(&mut text, n as u64);
    text.append(" axes of a ");
    append_bracketed(&mut text, batch);
    text.append(" batch");
    proof {
        assert(text@ =~= reinterpret_message(n, batch@));
    }
    Error::Shape(text)
}

/// The entries of a list from one position up to another.
fn part(list: &Vec<usize>, from: usize, to: usize) -> (r: Vec<usize>)
    requires
        from <= to <= list@.len(),
    ensures
        r@ == list@.subrange(from as int, to as int),
{
    let mut out: Vec<usize> = Vec::new();
    let mut i: usize = from;
    while i < to
        invariant
            from <= i <= to <= list@.len(),
            out@ == list@.subrange(from as int, i as int),
        decreases to - i,
    {
        out.push(list[i]);
        i += 1;
        proof {
            assert(out@ =~= list@.subrange(from as int, i as int));
        }
    }
    out
}

impl<D> Independent<D> {
    /// The distribution underneath.
    pub closed spec fn under(&self) -> D {
        self.base
    }

    /// How many batch axes became part of the event.
    pub closed spec fn axes(&self) -> usize {
        self.reinterpreted
    }

    /// The batch axes that are left.
    pub closed spec fn batch_dims(&self) -> Seq<usize> {
        self.batch@
    }

    /// The axes of one event.
    pub closed spec fn event_dims(&self) -> Seq<usize> {
        self.event@
    }

    /// The distribution underneath.
    pub fn base(&self) -> (r: &D)
        ensures
            *r == self.under(),
    {
        &self.base
    }
}

/// The shapes an [`Independent`] has: the last axes of the batch go before the event.
pub open spec fn moved(batch: Seq<usize>, event: Seq<usize>, n: usize) -> (Seq<usize>, Seq<usize>) {
    let split = batch.len() - n;
    (batch.take(split), batch.skip(split) + event)
}

impl<D: Distribution> Independent<D> {
    /// Whether the shapes are those of the distribution underneath, moved.
    pub open spec fn wf(&self) -> bool {
        &&& self.axes() <= self.under().batch().len()
        &&& (self.batch_dims(), self.event_dims()) == moved(
            self.under().batch(),
            self.under().event(),
            self.axes(),
        )
    }

    /// Move the last `reinterpreted` batch axes into the event shape.
    pub fn new(base: D, reinterpreted: usize) -> (r: Result<Self, Error>)
        ensures
            match r {
                Ok(i) => reinterpreted <= base.batch().len() && i.under() == base && i.axes()
                    == reinterpreted && i.wf(),
                Err(e) => reinterpreted > base.batch().len() && e@ == Fault::Shape(
                    reinterpret_message(reinterpreted, base.batch()),
                ),
            },
    {
        let shape = base.batch_shape();
        let rank: usize = shape.rank();
        if reinterpreted > rank {
            return Err(reinterpret_error(reinterpreted, shape.dims()));
        }
        let split: usize = rank - reinterpreted;
        let batch = part(shape.dims(), 0, split);
        let mut event = part(shape.dims(), split, rank);
        let inner = base.event_shape();
        let mut own = copied(inner.dims());
        event.append(&mut own);
        proof {
            let want = moved(base.batch(), base.event(), reinterpreted);
            assert(batch@ =~= want.0);
            assert(event@ =~= want.1);
        }
        Ok(
            Independent {
                base,
                reinterpreted,
                batch: Shape::new(batch),
                event: Shape::new(event),
            },
        )
    }
}

impl<D: Distribution> Distribution for Independent<D> {
    open spec fn batch(&self) -> Seq<usize> {
        self.batch_dims()
    }

    open spec fn event(&self) -> Seq<usize> {
        self.event_dims()
    }

    open spec fn support_of(&self) -> Support {
        self.under().support_of()
    }

    open spec fn reparameterises(&self) -> bool {
        self.under().reparameterises()
    }

    open spec fn sample_of(&self, t: Tape, seed: u64) -> Result<(Tape, Value), Fault> {
        self.under().sample_of(t, seed)
    }

    open spec fn sample_n_of(&self, t: Tape, n: usize, seed: u64) -> Result<(Tape, Value), Fault> {
        self.under().sample_n_of(t, n, seed)
    }

    open spec fn rsample_of(&self, t: Tape, seed: u64) -> Result<(Tape, Traced), Fault> {
        self.under().rsample_of(t, seed)
    }

    open spec fn log_prob_of(&self, t: Tape, value: Traced) -> Result<(Tape, Traced), Fault> {
        ops::next(
            self.under().log_prob_of(t, value),
            |u: Tape, v: Traced| sum_trailing_op(u, v, self.axes() as nat),
        )
    }

    open spec fn cdf_of(&self, value: Value) -> Result<Value, Fault> {
        Err(Fault::Unsupported("an Independent event is multivariate and has no scalar CDF"@))
    }

    open spec fn icdf_of(&self, t: Tape, q: Traced) -> Result<(Tape, Traced), Fault> {
        Err(Fault::Unsupported("an Independent event is multivariate and has no scalar quantile"@))
    }

    open spec fn entropy_of(&self, t: Tape) -> Result<(Tape, Traced), Fault> {
        ops::next(
            self.under().entropy_of(t),
            |u: Tape, v: Traced| sum_trailing_op(u, v, self.axes() as nat),
        )
    }

    open spec fn mean_of(&self, t: Tape) -> Result<(Tape, Value), Fault> {
        self.under().mean_of(t)
    }

    open spec fn variance_of(&self, t: Tape) -> Result<(Tape, Value), Fault> {
        self.under().variance_of(t)
    }

    open spec fn mode_of(&self, t: Tape) -> Result<(Tape, Value), Fault> {
        self.under().mode_of(t)
    }

    fn batch_shape(&self) -> (r: Shape) {
        self.batch.clone()
    }

    fn event_shape(&self) -> (r: Shape) {
        self.event.clone()
    }

    fn support(&self) -> (r: Support) {
        self.base.support()
    }

    fn has_rsample(&self) -> (r: bool) {
        self.base.has_rsample()
    }

    fn sample(&self, s: &mut Session, seed: u64) -> (r: Result<Tensor, Error>) {
        self.base.sample(s, seed)
    }

    fn sample_n(&self, s: &mut Session, n: usize, seed: u64) -> (r: Result<Tensor, Error>) {
        self.base.sample_n(s, n, seed)
    }

    fn rsample(&self, s: &mut Session, seed: u64) -> (r: Result<Var, Error>) {
        self.base.rsample(s, seed)
    }

    fn log_prob(&self, s: &mut Session, value: &Var) -> (r: Result<Var, Error>) {
        let v = self.base.log_prob(s, value)?;
        sum_trailing(s, &v, self.reinterpreted)
    }

    fn cdf(&self, value: &Tensor) -> (r: Result<Tensor, Error>) {
        Err(unsupported("an Independent event is multivariate and has no scalar CDF"))
    }

    fn icdf(&self, s: &mut Session, q: &Var) -> (r: Result<Var, Error>) {
        Err(unsupported("an Independent event is multivariate and has no scalar quantile"))
    }

    fn entropy(&self, s: &mut Session) -> (r: Result<Var, Error>) {
        let v = self.base.entropy(s)?;
        sum_trailing(s, &v, self.reinterpreted)
    }

    fn mean(&self, s: &mut Session) -> (r: Result<Tensor, Error>) {
        self.base.mean(s)
    }

    fn variance(&self, s: &mut Session) -> (r: Result<Tensor, Error>) {
        self.base.variance(s)
    }

    fn mode(&self, s: &mut Session) -> (r: Result<Tensor, Error>) {
        self.base.mode(s)
    }
}

// -- transforms --------------------------------------------------------------------------

/// An invertible map, with the log-Jacobian that turns a density into a density.
///
/// `inverse` undoes `forward`, and the log-Jacobian at a pair of matching points is the
/// logarithm of the magnitude of the derivative there.
pub trait Transform {
    spec fn forward_of(&self, t: Tape, x: Traced) -> Result<(Tape, Traced), Fault>;

    spec fn inverse_of(&self, t: Tape, y: Traced) -> Result<(Tape, Traced), Fault>;

    spec fn jacobian_of(&self, t: Tape, x: Traced, y: Traced) -> Result<(Tape, Traced), Fault>;

    spec fn coupled(&self) -> usize;

    /// The image of a value.
    fn forward(&self, s: &mut Session, x: &Var) -> (r: Result<Var, Error>)
        ensures
            ops::same_value(r, final(s)@, self.forward_of(old(s)@, x@)),
    ;

    /// The value with a given image.
    fn inverse(&self, s: &mut Session, y: &Var) -> (r: Result<Var, Error>)
        ensures
            ops::same_value(r, final(s)@, self.inverse_of(old(s)@, y@)),
    ;

    /// The logarithm of the magnitude of the derivative at `x`, whose image is `y`.
    fn log_abs_det_jacobian(&self, s: &mut Session, x: &Var, y: &Var) -> (r: Result<Var, Error>)
        ensures
            ops::same_value(r, final(s)@, self.jacobian_of(old(s)@, x@, y@)),
    ;

    /// How many trailing axes one application couples; zero for an elementwise map.
    fn event_dim(&self) -> (r: usize)
        ensures
            r == self.coupled(),
    ;
}

/// `y = loc + scale x`.
pub struct AffineTransform {
    loc: Var,
    scale: Var,
}

impl AffineTransform {
    pub closed spec fn location(&self) -> Traced {
        self.loc@
    }

    pub closed spec fn factor(&self) -> Traced {
        self.scale@
    }

    /// From a location and a scale.
    pub fn new(loc: Var, scale: Var) -> (r: Self)
        ensures
            r.location() == loc@,
            r.factor() == scale@,
    {
        AffineTransform { loc, scale }
    }
}

/// `y = exp(x)`.
pub struct ExpTransform;

/// The sigmoid, mapping the line onto the open unit interval.
pub struct SigmoidTransform;

/// `y = tanh(x)`, mapping the line onto the open interval from minus one to one.
///
/// Its log-Jacobian is `2 (ln 2 - x - softplus(-2 x))`, which keeps its digits where
/// `ln(1 - tanh(x)^2)` loses every one of them.
pub struct TanhTransform;

/// A power on the positive half-line.
pub struct PowerTransform {
    /// The bit pattern of the exponent.
    pub exponent: u32,
}

impl Transform for AffineTransform {
    open spec fn forward_of(&self, t: Tape, x: Traced) -> Result<(Tape, Traced), Fault> {
        ops::next(
            ops::binary_op(t, Binary::Mul, x, self.factor()),
            |u: Tape, v: Traced| ops::binary_op(u, Binary::Add, v, self.location()),
        )
    }

    open spec fn inverse_of(&self, t: Tape, y: Traced) -> Result<(Tape, Traced), Fault> {
        ops::next(
            ops::binary_op(t, Binary::Sub, y, self.location()),
            |u: Tape, v: Traced| ops::binary_op(u, Binary::Div, v, self.factor()),
        )
    }

    open spec fn jacobian_of(&self, t: Tape, x: Traced, y: Traced) -> Result<(Tape, Traced), Fault> {
        // Spread to the value's shape, so that one scale counts once per element.
        let (t1, a) = ops::pointwise_op(t, Unary::Abs, self.factor());
        let (t2, l) = ops::pointwise_op(t1, Unary::Log, a);
        ops::expand_op(t2, l, x.value.dims)
    }

    open spec fn coupled(&self) -> usize {
        0
    }

    fn forward(&self, s: &mut Session, x: &Var) -> (r: Result<Var, Error>) {
        let v = x.mul(s, &self.scale)?;
        v.add(s, &self.loc)
    }

    fn inverse(&self, s: &mut Session, y: &Var) -> (r: Result<Var, Error>) {
        let v = y.sub(s, &self.loc)?;
        v.div(s, &self.scale)
    }

    fn log_abs_det_jacobian(&self, s: &mut Session, x: &Var, y: &Var) -> (r: Result<Var, Error>) {
        let a = self.scale.abs(s);
        let l = a.log(s);
        l.expand(s, x.shape())
    }

    fn event_dim(&self) -> (r: usize) {
        0
    }
}

impl Transform for ExpTransform {
    open spec fn forward_of(&self, t: Tape, x: Traced) -> Result<(Tape, Traced), Fault> {
        Ok(ops::pointwise_op(t, Unary::Exp, x))
    }

    open spec fn inverse_of(&self, t: Tape, y: Traced) -> Result<(Tape, Traced), Fault> {
        Ok(ops::pointwise_op(t, Unary::Log, y))
    }

    open spec fn jacobian_of(&self, t: Tape, x: Traced, y: Traced) -> Result<(Tape, Traced), Fault> {
        Ok((t, x))
    }

    open spec fn coupled(&self) -> usize {
        0
    }

    fn forward(&self, s: &mut Session, x: &Var) -> (r: Result<Var, Error>) {
        Ok(x.exp(s))
    }

    fn inverse(&self, s: &mut Session, y: &Var) -> (r: Result<Var, Error>) {
        Ok(y.log(s))
    }

    fn log_abs_det_jacobian(&self, s: &mut Session, x: &Var, y: &Var) -> (r: Result<Var, Error>) {
        Ok(x.clone())
    }

    fn event_dim(&self) -> (r: usize) {
        0
    }
}

impl Transform for SigmoidTransform {
    open spec fn forward_of(&self, t: Tape, x: Traced) -> Result<(Tape, Traced), Fault> {
        Ok(ops::pointwise_op(t, Unary::Sigmoid, x))
    }

    open spec fn inverse_of(&self, t: Tape, y: Traced) -> Result<(Tape, Traced), Fault> {
        let (t1, a) = ops::pointwise_op(t, Unary::Log, y);
        let (t2, m) = ops::pointwise_op(t1, Unary::RsubScalar(Scalar::Int(1)), y);
        let (t3, b) = ops::pointwise_op(t2, Unary::Log, m);
        ops::binary_op(t3, Binary::Sub, a, b)
    }

    open spec fn jacobian_of(&self, t: Tape, x: Traced, y: Traced) -> Result<(Tape, Traced), Fault> {
        // Minus the softplus of `-x` and of `x`, which stays finite where the logarithm of
        // the product underflows.
        let (t1, m) = ops::pointwise_op(t, Unary::Neg, x);
        let (t2, a) = ops::pointwise_op(t1, Unary::Softplus, m);
        let (t3, b) = ops::pointwise_op(t2, Unary::Softplus, x);
        ops::next(
            ops::binary_op(t3, Binary::Add, a, b),
            |t4: Tape, v: Traced| Ok(ops::pointwise_op(t4, Unary::Neg, v)),
        )
    }

    open spec fn coupled(&self) -> usize {
        0
    }

    fn forward(&self, s: &mut Session, x: &Var) -> (r: Result<Var, Error>) {
        Ok(x.sigmoid(s))
    }

    fn inverse(&self, s: &mut Session, y: &Var) -> (r: Result<Var, Error>) {
        let a = y.log(s);
        let m = y.rsub_scalar(s, Scalar::Int(1));
        let b = m.log(s);
        a.sub(s, &b)
    }

    fn log_abs_det_jacobian(&self, s: &mut Session, x: &Var, y: &Var) -> (r: Result<Var, Error>) {
        let m = x.neg(s);
        let a = m.softplus(s);
        let b = x.softplus(s);
        let v = a.add(s, &b)?;
        Ok(v.neg(s))
    }

    fn event_dim(&self) -> (r: usize) {
        0
    }
}

impl Transform for TanhTransform {
    open spec fn forward_of(&self, t: Tape, x: Traced) -> Result<(Tape, Traced), Fault> {
        Ok(ops::pointwise_op(t, Unary::Tanh, x))
    }

    open spec fn inverse_of(&self, t: Tape, y: Traced) -> Result<(Tape, Traced), Fault> {
        // Half the logarithm of `(1 + y) / (1 - y)`.
        let (t1, a) = ops::pointwise_op(t, Unary::AddScalar(Scalar::Int(1)), y);
        let (t2, num) = ops::pointwise_op(t1, Unary::Log, a);
        let (t3, b) = ops::pointwise_op(t2, Unary::RsubScalar(Scalar::Int(1)), y);
        let (t4, den) = ops::pointwise_op(t3, Unary::Log, b);
        ops::next(
            ops::binary_op(t4, Binary::Sub, num, den),
            |t5: Tape, v: Traced|
                Ok(ops::pointwise_op(t5, Unary::MulScalar(Scalar::Frac(1, 2)), v)),
        )
    }

    open spec fn jacobian_of(&self, t: Tape, x: Traced, y: Traced) -> Result<(Tape, Traced), Fault> {
        let (t1, m) = ops::pointwise_op(t, Unary::MulScalar(Scalar::Int((-2) as i64)), x);
        let (t2, soft) = ops::pointwise_op(t1, Unary::Softplus, m);
        ops::next(
            ops::binary_op(t2, Binary::Add, x, soft),
            |t3: Tape, v: Traced|
                {
                    let (t4, w) = ops::pointwise_op(t3, Unary::RsubScalar(Scalar::LnTwo), v);
                    Ok(ops::pointwise_op(t4, Unary::MulScalar(Scalar::Int(2)), w))
                },
        )
    }

    open spec fn coupled(&self) -> usize {
        0
    }

    fn forward(&self, s: &mut Session, x: &Var) -> (r: Result<Var, Error>) {
        Ok(x.tanh(s))
    }

    fn inverse(&self, s: &mut Session, y: &Var) -> (r: Result<Var, Error>) {
        let a = y.add_scalar(s, Scalar::Int(1));
        let num = a.log(s);
        let b = y.rsub_scalar(s, Scalar::Int(1));
        let den = b.log(s);
        let v = num.sub(s, &den)?;
        Ok(v.mul_scalar(s, Scalar::Frac(1, 2)))
    }

    fn log_abs_det_jacobian(&self, s: &mut Session, x: &Var, y: &Var) -> (r: Result<Var, Error>) {
        let m = x.mul_scalar(s, Scalar::Int(-2));
        let soft = m.softplus(s);
        let v = x.add(s, &soft)?;
        let w = v.rsub_scalar(s, Scalar::LnTwo);
        Ok(w.mul_scalar(s, Scalar::Int(2)))
    }

    fn event_dim(&self) -> (r: usize) {
        0
    }
}

impl Transform for PowerTransform {
    open spec fn forward_of(&self, t: Tape, x: Traced) -> Result<(Tape, Traced), Fault> {
        Ok(ops::pointwise_op(t, Unary::PowfScalar(Scalar::Bits(self.exponent)), x))
    }

    open spec fn inverse_of(&self, t: Tape, y: Traced) -> Result<(Tape, Traced), Fault> {
        Ok(ops::pointwise_op(t, Unary::PowfScalar(Scalar::BitsInverse(self.exponent)), y))
    }

    open spec fn jacobian_of(&self, t: Tape, x: Traced, y: Traced) -> Result<(Tape, Traced), Fault> {
        // The logarithms of the exponent and of the quotient of the two points, which avoids
        // forming the smaller power.
        ops::next(
            ops::binary_op(t, Binary::Div, y, x),
            |t1: Tape, q: Traced|
                {
                    let (t2, a) = ops::pointwise_op(t1, Unary::Abs, q);
                    let (t3, l) = ops::pointwise_op(t2, Unary::Log, a);
                    Ok(ops::pointwise_op(t3, Unary::AddScalar(Scalar::BitsLnAbs(self.exponent)), l))
                },
        )
    }

    open spec fn coupled(&self) -> usize {
        0
    }

    fn forward(&self, s: &mut Session, x: &Var) -> (r: Result<Var, Error>) {
        Ok(x.powf_scalar(s, self.exponent))
    }

    fn inverse(&self, s: &mut Session, y: &Var) -> (r: Result<Var, Error>) {
        Ok(y.pointwise(s, Unary::PowfScalar(Scalar::BitsInverse(self.exponent))))
    }

    fn log_abs_det_jacobian(&self, s: &mut Session, x: &Var, y: &Var) -> (r: Result<Var, Error>) {
        let q = y.div(s, x)?;
        let a = q.abs(s);
        let l = a.log(s);
        Ok(l.add_scalar(s, Scalar::BitsLnAbs(self.exponent)))
    }

    fn event_dim(&self) -> (r: usize) {
        0
    }
}

/// One of the transforms, so that a chain can mix them.
pub enum Step {
    Affine(AffineTransform),
    Exp(ExpTransform),
    Sigmoid(SigmoidTransform),
    Tanh(TanhTransform),
    Power(PowerTransform),
}

impl Transform for Step {
    open spec fn forward_of(&self, t: Tape, x: Traced) -> Result<(Tape, Traced), Fault> {
        match self {
            Step::Affine(f) => f.forward_of(t, x),
            Step::Exp(f) => f.forward_of(t, x),
            Step::Sigmoid(f) => f.forward_of(t, x),
            Step::Tanh(f) => f.forward_of(t, x),
            Step::Power(f) => f.forward_of(t, x),
        }
    }

    open spec fn inverse_of(&self, t: Tape, y: Traced) -> Result<(Tape, Traced), Fault> {
        match self {
            Step::Affine(f) => f.inverse_of(t, y),
            Step::Exp(f) => f.inverse_of(t, y),
            Step::Sigmoid(f) => f.inverse_of(t, y),
            Step::Tanh(f) => f.inverse_of(t, y),
            Step::Power(f) => f.inverse_of(t, y),
        }
    }

    open spec fn jacobian_of(&self, t: Tape, x: Traced, y: Traced) -> Result<(Tape, Traced), Fault> {
        match self {
            Step::Affine(f) => f.jacobian_of(t, x, y),
            Step::Exp(f) => f.jacobian_of(t, x, y),
            Step::Sigmoid(f) => f.jacobian_of(t, x, y),
            Step::Tanh(f) => f.jacobian_of(t, x, y),
            Step::Power(f) => f.jacobian_of(t, x, y),
        }
    }

    open spec fn coupled(&self) -> usize {
        0
    }

    fn forward(&self, s: &mut Session, x: &Var) -> (r: Result<Var, Error>) {
        match self {
            Step::Affine(f) => f.forward(s, x),
            Step::Exp(f) => f.forward(s, x),
            Step::Sigmoid(f) => f.forward(s, x),
            Step::Tanh(f) => f.forward(s, x),
            Step::Power(f) => f.forward(s, x),
        }
    }

    fn inverse(&self, s: &mut Session, y: &Var) -> (r: Result<Var, Error>) {
        match self {
            Step::Affine(f) => f.inverse(s, y),
            Step::Exp(f) => f.inverse(s, y),
            Step::Sigmoid(f) => f.inverse(s, y),
            Step::Tanh(f) => f.inverse(s, y),
            Step::Power(f) => f.inverse(s, y),
        }
    }

    fn log_abs_det_jacobian(&self, s: &mut Session, x: &Var, y: &Var) -> (r: Result<Var, Error>) {
        match self {
            Step::Affine(f) => f.log_abs_det_jacobian(s, x, y),
            Step::Exp(f) => f.log_abs_det_jacobian(s, x, y),
            Step::Sigmoid(f) => f.log_abs_det_jacobian(s, x, y),
            Step::Tanh(f) => f.log_abs_det_jacobian(s, x, y),
            Step::Power(f) => f.log_abs_det_jacobian(s, x, y),
        }
    }

    fn event_dim(&self) -> (r: usize) {
        0
    }
}

/// A base distribution pushed through a chain of transforms, applied in order.
///
/// A density is carried backwards through the chain: the value is inverted transform
/// by transform, and every step's log-Jacobian is subtracted.
pub struct TransformedDistribution<D, T> {
    base: D,
    transforms: Vec<T>,
}

/// A value pushed through the first `n` transforms.
pub open spec fn forward_chain<T: Transform>(t: Tape, chain: Seq<T>, x: Traced, n: nat) -> Result<
    (Tape, Traced),
    Fault,
>
    decreases n,
{
    if n == 0 {
        Ok((t, x))
    } else {
        ops::next(
            forward_chain(t, chain, x, (n - 1) as nat),
            |u: Tape, v: Traced| chain[n - 1].forward_of(u, v),
        )
    }
}

proof fn lemma_forward_failed<T: Transform>(t: Tape, chain: Seq<T>, x: Traced, low: nat, high: nat)
    requires
        low <= high,
        forward_chain(t, chain, x, low) is Err,
    ensures
        forward_chain(t, chain, x, high) == forward_chain(t, chain, x, low),
    decreases high,
{
    if low < high {
        lemma_forward_failed(t, chain, x, low, (high - 1) as nat);
    }
}

/// A value taken back through the last `k` transforms, with the log-Jacobians met on
/// the way summed.
pub open spec fn backward_chain<T: Transform>(t: Tape, chain: Seq<T>, y: Traced, k: nat) -> Result<
    (Tape, Traced, Option<Traced>),
    Fault,
>
    decreases k,
{
    if k == 0 {
        Ok((t, y, None))
    } else {
        match backward_chain(t, chain, y, (k - 1) as nat) {
            Err(f) => Err(f),
            Ok((t1, at, sum)) => {
                let step = chain[chain.len() - k];
                match step.inverse_of(t1, at) {
                    Err(f) => Err(f),
                    Ok((t2, x)) => match step.jacobian_of(t2, x, at) {
                        Err(f) => Err(f),
                        Ok((t3, jac)) => match sum {
                            None => Ok((t3, x, Some(jac))),
                            Some(acc) => match ops::binary_op(t3, Binary::Add, acc, jac) {
                                Err(f) => Err(f),
                                Ok((t4, total)) => Ok((t4, x, Some(total))),
                            },
                        },
                    },
                }
            },
        }
    }
}

proof fn lemma_backward_failed<T: Transform>(t: Tape, chain: Seq<T>, y: Traced, low: nat, high: nat)
    requires
        low <= high,
        backward_chain(t, chain, y, low) is Err,
    ensures
        backward_chain(t, chain, y, high) == backward_chain(t, chain, y, low),
    decreases high,
{
    if low < high {
        lemma_backward_failed(t, chain, y, low, (high - 1) as nat);
    }
}

/// The density of a value under a pushed-forward base.
pub open spec fn transformed_log_prob<D: Distribution, T: Transform>(
    t: Tape,
    base: D,
    chain: Seq<T>,
    value: Traced,
) -> Result<(Tape, Traced), Fault> {
    match backward_chain(t, chain, value, chain.len()) {
        Err(f) => Err(f),
        Ok((u, x, correction)) => ops::next(
            base.log_prob_of(u, x),
            |w: Tape, density: Traced|
                match correction {
                    None => Ok((w, density)),
                    Some(c) => ops::binary_op(w, Binary::Sub, density, c),
                },
        ),
    }
}

/// A constant pushed through a whole chain.
pub open spec fn pushed<T: Transform>(r: Result<(Tape, Value), Fault>, chain: Seq<T>) -> Result<
    (Tape, Value),
    Fault,
> {
    match r {
        Err(f) => Err(f),
        Ok((t, v)) => base::value_of(
            forward_chain(t, chain, ops::untracked(v), chain.len()),
        ),
    }
}

impl<D, T> TransformedDistribution<D, T> {
    pub closed spec fn under(&self) -> D {
        self.base
    }

    pub closed spec fn chain(&self) -> Seq<T> {
        self.transforms@
    }

    /// Compose a base with transforms, applied left to right.
    pub fn new(base: D, transforms: Vec<T>) -> (r: Self)
        ensures
            r.under() == base,
            r.chain() == transforms@,
    {
        TransformedDistribution { base, transforms }
    }

    /// The untransformed distribution.
    pub fn base(&self) -> (r: &D)
        ensures
            *r == self.under(),
    {
        &self.base
    }
}

impl<D, T: Transform> TransformedDistribution<D, T> {
    /// Push a value forward through every transform.
    pub fn forward(&self, s: &mut Session, x: &Var) -> (r: Result<Var, Error>)
        ensures
            ops::same_value(
                r,
                final(s)@,
                forward_chain(old(s)@, self.chain(), x@, self.chain().len()),
            ),
    {
        let ghost start = s@;
        let ghost chain = self.chain();
        let mut out = x.clone();
        let mut i: usize = 0;
        while i < self.transforms.len()
            invariant
                i <= self.transforms.len(),
                start == old(s)@,
                chain == self.chain(),
                chain == self.transforms@,
                forward_chain(start, chain, x@, i as nat) == Ok::<(Tape, Traced), Fault>((s@, out@)),
            decreases self.transforms.len() - i,
        {
            match self.transforms[i].forward(s, &out) {
                Ok(v) => {
                    out = v;
                },
                Err(e) => {
                    proof {
                        lemma_forward_failed(start, chain, x@, i as nat + 1, chain.len());
                    }
                    return Err(e);
                },
            }
            i += 1;
        }
        Ok(out)
    }

    /// Take a value back through every transform, with the summed log-Jacobians.
    fn backward(&self, s: &mut Session, value: &Var) -> (r: Result<(Var, Option<Var>), Error>)
        ensures
            match (r, backward_chain(old(s)@, self.chain(), value@, self.chain().len())) {
                (Ok((x, c)), Ok((t, want, sum))) => x@ == want && final(s)@ == t && sum == match c {
                    Some(v) => Some(v@),
                    None => None,
                },
                (Err(e), Err(f)) => e@ == f,
                _ => false,
            },
    {
        let ghost start = s@;
        let ghost chain = self.chain();
        let n: usize = self.transforms.len();
        let mut y = value.clone();
        let mut correction: Option<Var> = None;
        let mut k: usize = 0;
        while k < n
            invariant
                k <= n,
                n == self.transforms@.len(),
                start == old(s)@,
                chain == self.chain(),
                chain == self.transforms@,
                backward_chain(start, chain, value@, k as nat) == Ok::<
                    (Tape, Traced, Option<Traced>),
                    Fault,
                >(
                    (
                        s@,
                        y@,
                        match correction {
                            Some(v) => Some(v@),
                            None => None,
                        },
                    ),
                ),
            decreases n - k,
        {
            let step = &self.transforms[n - 1 - k];
            proof {
                assert(chain[chain.len() - (k + 1)] == *step);
            }
            let x = match step.inverse(s, &y) {
                Ok(v) => v,
                Err(e) => {
                    proof {
                        lemma_backward_failed(start, chain, value@, k as nat + 1, n as nat);
                    }
                    return Err(e);
                },
            };
            let jac = match step.log_abs_det_jacobian(s, &x, &y) {
                Ok(v) => v,
                Err(e) => {
                    proof {
                        lemma_backward_failed(start, chain, value@, k as nat + 1, n as nat);
                    }
                    return Err(e);
                },
            };
            let total = match &correction {
                None => jac,
                Some(acc) => match acc.add(s, &jac) {
                    Ok(v) => v,
                    Err(e) => {
                        proof {
                            lemma_backward_failed(start, chain, value@, k as nat + 1, n as nat);
                        }
                        return Err(e);
                    },
                },
            };
            correction = Some(total);
            y = x;
            k += 1;
        }
        Ok((y, correction))
    }
}

impl<D: Distribution, T: Transform> Distribution for TransformedDistribution<D, T> {
    open spec fn batch(&self) -> Seq<usize> {
        self.under().batch()
    }

    open spec fn event(&self) -> Seq<usize> {
        self.under().event()
    }

    open spec fn support_of(&self) -> Support {
        // The image of a chain is not tracked.
        Support::Real
    }

    open spec fn reparameterises(&self) -> bool {
        self.under().reparameterises()
    }

    open spec fn sample_of(&self, t: Tape, seed: u64) -> Result<(Tape, Value), Fault> {
        pushed(self.under().sample_of(t, seed), self.chain())
    }

    open spec fn sample_n_of(&self, t: Tape, n: usize, seed: u64) -> Result<(Tape, Value), Fault> {
        pushed(self.under().sample_n_of(t, n, seed), self.chain())
    }

    open spec fn rsample_of(&self, t: Tape, seed: u64) -> Result<(Tape, Traced), Fault> {
        ops::next(
            self.under().rsample_of(t, seed),
            |u: Tape, x: Traced| forward_chain(u, self.chain(), x, self.chain().len()),
        )
    }

    open spec fn log_prob_of(&self, t: Tape, value: Traced) -> Result<(Tape, Traced), Fault> {
        transformed_log_prob(t, self.under(), self.chain(), value)
    }

    open spec fn cdf_of(&self, value: Value) -> Result<Value, Fault> {
        Err(Fault::Unsupported("a transformed distribution's CDF is only defined for a monotone chain, which is not tracked here"@))
    }

    open spec fn icdf_of(&self, t: Tape, q: Traced) -> Result<(Tape, Traced), Fault> {
        Err(Fault::Unsupported("a transformed distribution's quantile is only defined for a monotone chain, which is not tracked here"@))
    }

    open spec fn entropy_of(&self, t: Tape) -> Result<(Tape, Traced), Fault> {
        Err(Fault::Unsupported("a transformed distribution's entropy has no closed form in general; estimate it from `rsample` and `log_prob`"@))
    }

    open spec fn mean_of(&self, t: Tape) -> Result<(Tape, Value), Fault> {
        Err(Fault::Unsupported("a transformed distribution's mean is not the transform of the base's"@))
    }

    open spec fn variance_of(&self, t: Tape) -> Result<(Tape, Value), Fault> {
        Err(Fault::Unsupported("a transformed distribution's variance has no closed form in general"@))
    }

    open spec fn mode_of(&self, t: Tape) -> Result<(Tape, Value), Fault> {
        // Every transform here is monotone, and so moves the mode with it.
        pushed(self.under().mode_of(t), self.chain())
    }

    fn batch_shape(&self) -> (r: Shape) {
        self.base.batch_shape()
    }

    fn event_shape(&self) -> (r: Shape) {
        self.base.event_shape()
    }

    fn support(&self) -> (r: Support) {
        Support::Real
    }

    fn has_rsample(&self) -> (r: bool) {
        self.base.has_rsample()
    }

    fn sample(&self, s: &mut Session, seed: u64) -> (r: Result<Tensor, Error>) {
        let x = self.base.sample(s, seed)?;
        let v = self.forward(s, &Var::constant(x))?;
        Ok(v.into_tensor())
    }

    fn sample_n(&self, s: &mut Session, n: usize, seed: u64) -> (r: Result<Tensor, Error>) {
        let x = self.base.sample_n(s, n, seed)?;
        let v = self.forward(s, &Var::constant(x))?;
        Ok(v.into_tensor())
    }

    fn rsample(&self, s: &mut Session, seed: u64) -> (r: Result<Var, Error>) {
        let x = self.base.rsample(s, seed)?;
        self.forward(s, &x)
    }

    fn log_prob(&self, s: &mut Session, value: &Var) -> (r: Result<Var, Error>) {
        let (x, correction) = self.backward(s, value)?;
        let density = self.base.log_prob(s, &x)?;
        match correction {
            Some(c) => density.sub(s, &c),
            None => Ok(density),
        }
    }

    fn cdf(&self, value: &Tensor) -> (r: Result<Tensor, Error>) {
        Err(unsupported("a transformed distribution's CDF is only defined for a monotone chain, which is not tracked here"))
    }

    fn icdf(&self, s: &mut Session, q: &Var) -> (r: Result<Var, Error>) {
        Err(unsupported("a transformed distribution's quantile is only defined for a monotone chain, which is not tracked here"))
    }

    fn entropy(&self, s: &mut Session) -> (r: Result<Var, Error>) {
        Err(unsupported("a transformed distribution's entropy has no closed form in general; estimate it from `rsample` and `log_prob`"))
    }

    fn mean(&self, s: &mut Session) -> (r: Result<Tensor, Error>) {
        Err(unsupported("a transformed distribution's mean is not the transform of the base's"))
    }

    fn variance(&self, s: &mut Session) -> (r: Result<Tensor, Error>) {
        Err(unsupported("a transformed distribution's variance has no closed form in general"))
    }

    fn mode(&self, s: &mut Session) -> (r: Result<Tensor, Error>) {
        let m = self.base.mode(s)?;
        let v = self.forward(s, &Var::constant(m))?;
        Ok(v.into_tensor())
    }
}

// -- mixtures ----------------------------------------------------------------------------

/// A categorical mixture over a batch of components of one family.
///
/// The last batch axis of the components is what the mixture indexes; it disappears
/// from the mixture's own batch shape.
pub struct MixtureSameFamily<D> {
    mixture: Categorical,
    components: D,
}

pub open spec fn ways_message(classes: usize, k: usize) -> Seq<char> {
    "a "@ + crate::text::decimal(classes as nat) + "-way mixture cannot weight "@
        + crate::text::decimal(k as nat) + " components"@
}

pub open spec fn mixed_batch_message(mixture: Seq<usize>, components: Seq<usize>) -> Seq<char> {
    "the mixture's batch "@ + crate::text::bracketed(mixture)
        + " does not match the components' "@ + crate::text::bracketed(components)
}

/// Whether a categorical can weight components of a batch shape.
pub open spec fn weighs(c: Choice, components: Seq<usize>) -> Result<(), Fault> {
    if components.len() == 0 {
        Err(Fault::Shape("a mixture's components need a trailing component axis"@))
    } else if components.last() != c.classes() {
        Err(Fault::Shape(ways_message(c.classes(), components.last())))
    } else if c.batch() != components.drop_last() {
        Err(Fault::Shape(mixed_batch_message(c.batch(), components.drop_last())))
    } else {
        Ok(())
    }
}

/// The seed the choice of component draws from.
pub open spec fn choice_seed(seed: u64) -> u64 {
    seed.wrapping_mul(0x9E37_79B9_7F4A_7C15) ^ 0x5DEE_CE66
}

/// Draws of every component, of which the chosen one is kept.
pub open spec fn kept(all: Value, ids: IdValue, classes: usize) -> Result<Value, Fault> {
    rule::onward(
        tensor::binary_of(Binary::Mul, all, tensor::one_hot_of(ids, classes)),
        |v: Value| tensor::sum_away_of(v, (v.dims.len() - 1) as usize),
    )
}

/// The logarithm of the weighted sum of the components' densities.
pub open spec fn mixture_log_prob_op<D: Distribution>(
    t: Tape,
    c: Choice,
    components: D,
    value: Traced,
) -> Result<(Tape, Traced), Fault> {
    let axis = value.value.dims.len() as usize;
    ops::next(
        ops::reshape_op(t, value, value.value.dims.insert(axis as int, 1usize)),
        |t1: Tape, column: Traced|
            ops::next(
                ops::expand_op(t1, column, components.batch()),
                |t2: Tape, spread: Traced|
                    ops::next(
                        components.log_prob_of(t2, spread),
                        |t3: Tape, each: Traced|
                            ops::next(
                                ops::log_softmax_op(t3, c.logits, c.axis()),
                                |t4: Tape, weights: Traced|
                                    ops::next(
                                        ops::binary_op(t4, Binary::Add, each, weights),
                                        |t5: Tape, joint: Traced|
                                            ops::next(
                                                ops::logsumexp_op(t5, joint, axis),
                                                |t6: Tape, v: Traced| ops::squeeze_op(t6, v, axis),
                                            ),
                                    ),
                            ),
                    ),
            ),
    )
}

/// Values of every component averaged with the weights.
pub open spec fn averaged(each: Value, probs: Value) -> Result<Value, Fault> {
    if each.dims.len() == 0 {
        Err(Fault::Shape("the components have no trailing axis"@))
    } else {
        rule::onward(
            tensor::binary_of(Binary::Mul, each, probs),
            |v: Value| tensor::sum_away_of(v, (each.dims.len() - 1) as usize),
        )
    }
}

pub open spec fn mixture_mean<D: Distribution>(t: Tape, c: Choice, components: D) -> Result<
    (Tape, Value),
    Fault,
> {
    match components.mean_of(t) {
        Err(f) => Err(f),
        Ok((u, each)) => base::still(u, averaged(each, categorical::probs_of(c))),
    }
}

/// The weighted squared distances of the means from their average, plus the weighted
/// variances.
pub open spec fn total_variance(vars: Value, means: Value, mean: Value, probs: Value) -> Result<
    Value,
    Fault,
> {
    if means.dims.len() == 0 {
        Err(Fault::Shape("the components have no trailing axis"@))
    } else if mean.dims.len() < means.dims.len() - 1 {
        Err(Fault::Shape("the components have no trailing axis"@))
    } else {
        let axis = (means.dims.len() - 1) as usize;
        rule::onward(
            tensor::reshape_of(mean, mean.dims.insert(axis as int, 1usize)),
            |column: Value|
                rule::onward(
                    tensor::binary_of(Binary::Sub, means, column),
                    |centred: Value|
                        rule::onward(
                            tensor::binary_of(Binary::Mul, centred, centred),
                            |spread: Value|
                                rule::onward(
                                    tensor::binary_of(Binary::Add, vars, spread),
                                    |total: Value|
                                        rule::onward(
                                            tensor::binary_of(Binary::Mul, total, probs),
                                            |v: Value| tensor::sum_away_of(v, axis),
                                        ),
                                ),
                        ),
                ),
        )
    }
}

/// The law of total variance: the mean of the variances plus the variance of the
/// means.
pub open spec fn mixture_variance<D: Distribution>(t: Tape, c: Choice, components: D) -> Result<
    (Tape, Value),
    Fault,
> {
    match components.variance_of(t) {
        Err(f) => Err(f),
        Ok((t1, vars)) => match components.mean_of(t1) {
            Err(f) => Err(f),
            Ok((t2, means)) => match averaged(means, categorical::probs_of(c)) {
                Err(f) => Err(f),
                Ok(mean) => base::still(
                    t2,
                    total_variance(vars, means, mean, categorical::probs_of(c)),
                ),
            },
        },
    }
}

fn ways_error(classes: usize, k: usize) -> (e: Error)
    ensures
        e@ == Fault::Shape(ways_message(classes, k)),
{
    let mut text = String::new();
    text.append("a ");
    append_decimal(&mut text, classes as u64);
    text.append("-way mixture cannot weight ");
    append_decimal(&mut text, k as u64);
    text.append(" components");
    proof {
        assert(text@ =~= ways_message(classes, k));
    }
    Error::Shape(text)
}

fn mixed_batch_error(mixture: &Vec<usize>, components: &Vec<usize>) -> (e: Error)
    ensures
        e@ == Fault::Shape(mixed_batch_message(mixture@, components@)),
{
    let mut text = String::new();
    text.append("the mixture's batch ");
    append_bracketed(&mut text, mixture);
    text.append(" does not match the components' ");
    append_bracketed(&mut text, components);
    proof {
        assert(text@ =~= mixed_batch_message(mixture@, components@));
    }
    Error::Shape(text)
}

fn keep(all: &Tensor, picked: &Tensor) -> (r: Result<Tensor, Error>)
    requires
        picked@.dims.len() > 0,
    ensures
        crate::error::agrees(
            r,
            rule::onward(
                tensor::binary_of(Binary::Mul, all@, picked@),
                |v: Value| tensor::sum_away_of(v, (v.dims.len() - 1) as usize),
            ),
        ),
{
    let v = Tensor::binary(Binary::Mul, all, picked)?;
    v.sum_away(v.rank() - 1)
}

fn average(each: &Tensor, probs: &Tensor) -> (r: Result<Tensor, Error>)
    ensures
        crate::error::agrees(r, averaged(each@, probs@)),
{
    if each.rank() == 0 {
        return Err(Error::shape("the components have no trailing axis"));
    }
    let v = Tensor::binary(Binary::Mul, each, probs)?;
    v.sum_away(each.rank() - 1)
}

impl<D> MixtureSameFamily<D> {
    pub closed spec fn weights(&self) -> Choice {
        self.mixture@
    }

    pub closed spec fn parts(&self) -> D {
        self.components
    }

    /// The weighting categorical.
    pub fn mixture(&self) -> (r: &Categorical)
        ensures
            r@ == self.weights(),
    {
        &self.mixture
    }

    /// The components.
    pub fn components(&self) -> (r: &D)
        ensures
            *r == self.parts(),
    {
        &self.components
    }
}

impl<D: Distribution> MixtureSameFamily<D> {
    /// Weight components by a categorical.
    pub fn new(mixture: Categorical, components: D) -> (r: Result<Self, Error>)
        ensures
            match (r, weighs(mixture@, components.batch())) {
                (Ok(m), Ok(_)) => m.weights() == mixture@ && m.parts() == components,
                (Err(e), Err(f)) => e@ == f,
                _ => false,
            },
    {
        let shape = components.batch_shape();
        let rank: usize = shape.rank();
        if rank == 0 {
            return Err(Error::shape("a mixture's components need a trailing component axis"));
        }
        let k: usize = shape.dim_from_end(0);
        if k != mixture.classes() {
            return Err(ways_error(mixture.classes(), k));
        }
        let batch = shape.without(rank - 1);
        proof {
            assert(batch@ =~= components.batch().drop_last());
        }
        if !mixture.batch().same(&batch) {
            return Err(mixed_batch_error(mixture.batch().dims(), batch.dims()));
        }
        Ok(MixtureSameFamily { mixture, components })
    }
}

impl<D: Distribution> Distribution for MixtureSameFamily<D> {
    open spec fn batch(&self) -> Seq<usize> {
        self.weights().batch()
    }

    open spec fn event(&self) -> Seq<usize> {
        self.parts().event()
    }

    open spec fn support_of(&self) -> Support {
        self.parts().support_of()
    }

    open spec fn reparameterises(&self) -> bool {
        false
    }

    open spec fn sample_of(&self, t: Tape, seed: u64) -> Result<(Tape, Value), Fault> {
        match self.parts().sample_of(t, seed) {
            Err(f) => Err(f),
            Ok((u, all)) => base::still(
                u,
                kept(
                    all,
                    categorical::plain_draw(self.weights(), choice_seed(seed)),
                    self.weights().classes(),
                ),
            ),
        }
    }

    open spec fn sample_n_of(&self, t: Tape, n: usize, seed: u64) -> Result<(Tape, Value), Fault> {
        match self.parts().sample_n_of(t, n, seed) {
            Err(f) => Err(f),
            Ok((u, all)) => base::still(
                u,
                kept(
                    all,
                    categorical::drawn(
                        self.weights(),
                        seq![n] + self.weights().batch(),
                        single::ONE,
                        choice_seed(seed),
                    ),
                    self.weights().classes(),
                ),
            ),
        }
    }

    open spec fn rsample_of(&self, t: Tape, seed: u64) -> Result<(Tape, Traced), Fault> {
        Err(Fault::Unsupported("which component a mixture draw came from is discrete"@))
    }

    open spec fn log_prob_of(&self, t: Tape, value: Traced) -> Result<(Tape, Traced), Fault> {
        mixture_log_prob_op(t, self.weights(), self.parts(), value)
    }

    open spec fn cdf_of(&self, value: Value) -> Result<Value, Fault> {
        Err(Fault::Unsupported("a mixture CDF would need the components' CDFs, which are not required by the trait bound here"@))
    }

    open spec fn icdf_of(&self, t: Tape, q: Traced) -> Result<(Tape, Traced), Fault> {
        Err(Fault::Unsupported("a mixture has no closed-form quantile"@))
    }

    open spec fn entropy_of(&self, t: Tape) -> Result<(Tape, Traced), Fault> {
        Err(Fault::Unsupported("a mixture has no closed-form entropy; estimate it from samples"@))
    }

    open spec fn mean_of(&self, t: Tape) -> Result<(Tape, Value), Fault> {
        mixture_mean(t, self.weights(), self.parts())
    }

    open spec fn variance_of(&self, t: Tape) -> Result<(Tape, Value), Fault> {
        mixture_variance(t, self.weights(), self.parts())
    }

    open spec fn mode_of(&self, t: Tape) -> Result<(Tape, Value), Fault> {
        Err(Fault::Unsupported("a mixture's mode has no closed form"@))
    }

    fn batch_shape(&self) -> (r: Shape) {
        self.mixture.batch().clone()
    }

    fn event_shape(&self) -> (r: Shape) {
        self.components.event_shape()
    }

    fn support(&self) -> (r: Support) {
        self.components.support()
    }

    fn has_rsample(&self) -> (r: bool) {
        false
    }

    fn sample(&self, s: &mut Session, seed: u64) -> (r: Result<Tensor, Error>) {
        let all = self.components.sample(s, seed)?;
        let key: u64 = seed.wrapping_mul(0x9E37_79B9_7F4A_7C15) ^ 0x5DEE_CE66;
        let ids = self.mixture.sample_ids(key);
        keep(&all, &self.mixture.one_hot(&ids))
    }

    fn sample_n(&self, s: &mut Session, n: usize, seed: u64) -> (r: Result<Tensor, Error>) {
        let all = self.components.sample_n(s, n, seed)?;
        let key: u64 = seed.wrapping_mul(0x9E37_79B9_7F4A_7C15) ^ 0x5DEE_CE66;
        let ids = self.mixture.sample_ids_n(n, key);
        keep(&all, &self.mixture.one_hot(&ids))
    }

    fn rsample(&self, s: &mut Session, seed: u64) -> (r: Result<Var, Error>) {
        Err(unsupported("which component a mixture draw came from is discrete"))
    }

    fn log_prob(&self, s: &mut Session, value: &Var) -> (r: Result<Var, Error>) {
        broadcast use var::lemma_record_value;

        let axis: usize = value.rank();
        let column = value.unsqueeze(s, axis)?;
        let shape = self.components.batch_shape();
        let spread = column.expand(s, &shape)?;
        let each = self.components.log_prob(s, &spread)?;
        let last: usize = self.mixture.axis();
        let weights = self.mixture.logits().log_softmax(s, last)?;
        let joint = each.add(s, &weights)?;
        let v = joint.logsumexp(s, axis)?;
        v.squeeze(s, axis)
    }

    fn cdf(&self, value: &Tensor) -> (r: Result<Tensor, Error>) {
        Err(unsupported("a mixture CDF would need the components' CDFs, which are not required by the trait bound here"))
    }

    fn icdf(&self, s: &mut Session, q: &Var) -> (r: Result<Var, Error>) {
        Err(unsupported("a mixture has no closed-form quantile"))
    }

    fn entropy(&self, s: &mut Session) -> (r: Result<Var, Error>) {
        Err(unsupported("a mixture has no closed-form entropy; estimate it from samples"))
    }

    fn mean(&self, s: &mut Session) -> (r: Result<Tensor, Error>) {
        let each = self.components.mean(s)?;
        average(&each, &self.mixture.probs())
    }

    fn variance(&self, s: &mut Session) -> (r: Result<Tensor, Error>) {
        let probs = self.mixture.probs();
        let vars = self.components.variance(s)?;
        let means = self.components.mean(s)?;
        let mean = average(&means, &probs)?;
        let axis: usize = means.rank() - 1;
        if mean.rank() < axis {
            return Err(Error::shape("the components have no trailing axis"));
        }
        let column = mean.reshape(&mean.shape().unsqueezed(axis))?;
        let centred = Tensor::binary(Binary::Sub, &means, &column)?;
        let spread = Tensor::binary(Binary::Mul, &centred, &centred)?;
        let total = Tensor::binary(Binary::Add, &vars, &spread)?;
        let v = Tensor::binary(Binary::Mul, &total, &probs)?;
        v.sum_away(axis)
    }

    fn mode(&self, s: &mut Session) -> (r: Result<Tensor, Error>) {
        Err(unsupported("a mixture's mode has no closed form"))
    }
}

} // verus!
