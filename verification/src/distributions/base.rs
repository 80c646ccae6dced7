//! What every distribution can be asked.

use vstd::prelude::*;

use crate::autograd::graph::{Session, Tape};
use crate::autograd::ops;
use crate::autograd::var::{Traced, Var};
use crate::error::{Error, Fault};
use crate::shape::{Shape, copied};
use crate::tensor;
use crate::tensor::{Tensor, Value};
use crate::term::{Scalar, Unary};

verus! {

/// The set a distribution's samples live in.
///
/// Carried so a caller can check its own values if it wants to; nothing here checks
/// them, because checking a device tensor's values means reading it back.
#[derive(Debug, Clone, Copy, PartialEq, Eq, Structural)]
pub enum Support {
    /// The whole real line.
    Real,
    /// The positive numbers.
    Positive,
    /// The numbers from zero up.
    NonNegative,
    /// The open unit interval.
    UnitOpen,
    /// The closed unit interval.
    UnitClosed,
    /// A half-open interval, which is only known once the parameters are.
    Interval,
    /// Zero and one.
    Boolean,
    /// The natural numbers.
    Counting,
    /// The natural numbers up to a parameter.
    BoundedCounting,
    /// A full turn around zero.
    Circular,
    /// The probability simplex over the last axis.
    Simplex,
    /// The indices of a choice.
    Categories,
}

/// A distribution parameter: one number, broadcast over the whole batch, or a tensor,
/// possibly on the tape.
pub enum Param {
    /// One number.
    Scalar(Scalar),
    /// A tensor.
    Value(Var),
}

/// A parameter as a tracked value: a number is a tensor of one element.
pub open spec fn param_value(p: Param) -> Traced {
    match p {
        Param::Scalar(v) => ops::untracked(tensor::fill_of(v, seq![1usize])),
        Param::Value(v) => v@,
    }
}

pub open spec fn param_values(s: Seq<Param>) -> Seq<Traced> {
    s.map_values(|p: Param| param_value(p))
}

pub(crate) fn one_long() -> (r: Shape)
    ensures
        r@ == seq![1usize],
{
    let mut dims: Vec<usize> = Vec::new();
    dims.push(1);
    proof {
        assert(dims@ =~= seq![1usize]);
    }
    Shape::new(dims)
}

impl Param {
    /// The parameter as a `Var`, materialising a scalar into a one-element tensor.
    pub fn to_var(&self) -> (r: Var)
        ensures
            r@ == param_value(*self),
    {
        match self {
            Param::Scalar(v) => Var::constant(Tensor::fill(*v, one_long())),
            Param::Value(v) => v.clone(),
        }
    }
}

/// Whether a computation of a tensor on a session did what a mathematical one says.
pub open spec fn gave(
    r: Result<Tensor, Error>,
    after: Tape,
    want: Result<(Tape, Value), Fault>,
) -> bool {
    match (r, want) {
        (Ok(v), Ok((t, x))) => v@ == x && after == t,
        (Err(e), Err(f)) => e@ == f,
        _ => false,
    }
}

/// The value of a tracked result.
pub open spec fn value_of(r: Result<(Tape, Traced), Fault>) -> Result<(Tape, Value), Fault> {
    match r {
        Ok((t, v)) => Ok((t, v.value)),
        Err(e) => Err(e),
    }
}

/// The root of a result.
pub open spec fn root_of(r: Result<(Tape, Value), Fault>) -> Result<(Tape, Value), Fault> {
    match r {
        Ok((t, v)) => Ok((t, tensor::unary_of(Unary::Sqrt, v))),
        Err(e) => Err(e),
    }
}

/// A result that touches no tape.
pub open spec fn still(t: Tape, r: Result<Value, Fault>) -> Result<(Tape, Value), Fault> {
    match r {
        Ok(v) => Ok((t, v)),
        Err(e) => Err(e),
    }
}

/// What every distribution can be asked. Operations a family has no closed form for
/// fail as unsupported rather than return an approximation.
pub trait Distribution {
    /// The shape of the parameters.
    spec fn batch(&self) -> Seq<usize>;

    /// The shape of one event.
    spec fn event(&self) -> Seq<usize>;

    spec fn support_of(&self) -> Support;

    spec fn reparameterises(&self) -> bool;

    spec fn sample_of(&self, t: Tape, seed: u64) -> Result<(Tape, Value), Fault>;

    spec fn sample_n_of(&self, t: Tape, n: usize, seed: u64) -> Result<(Tape, Value), Fault>;

    spec fn rsample_of(&self, t: Tape, seed: u64) -> Result<(Tape, Traced), Fault>;

    spec fn log_prob_of(&self, t: Tape, value: Traced) -> Result<(Tape, Traced), Fault>;

    spec fn cdf_of(&self, value: Value) -> Result<Value, Fault>;

    spec fn icdf_of(&self, t: Tape, q: Traced) -> Result<(Tape, Traced), Fault>;

    spec fn entropy_of(&self, t: Tape) -> Result<(Tape, Traced), Fault>;

    spec fn mean_of(&self, t: Tape) -> Result<(Tape, Value), Fault>;

    spec fn variance_of(&self, t: Tape) -> Result<(Tape, Value), Fault>;

    spec fn mode_of(&self, t: Tape) -> Result<(Tape, Value), Fault>;

    /// The shape of the parameters, and so of one draw.
    fn batch_shape(&self) -> (r: Shape)
        ensures
            r@ == self.batch(),
    ;

    /// The shape of one event: empty for a scalar family, `[k]` for one over `k`
    /// dimensions.
    fn event_shape(&self) -> (r: Shape)
        ensures
            r@ == self.event(),
    ;

    /// The set a draw lives in.
    fn support(&self) -> (r: Support)
        ensures
            r == self.support_of(),
    ;

    /// Whether [`Distribution::rsample`] exists for this family.
    fn has_rsample(&self) -> (r: bool)
        ensures
            r == self.reparameterises(),
    ;

    /// One draw per batch element, detached from the tape.
    fn sample(&self, s: &mut Session, seed: u64) -> (r: Result<Tensor, Error>)
        ensures
            gave(r, final(s)@, self.sample_of(old(s)@, seed)),
    ;

    /// `n` independent draws, with the sample axis first. Row `j` is the `j`-th block
    /// of elements of one draw under the same seed, so that a sample's value does not
    /// depend on how many were asked for.
    fn sample_n(&self, s: &mut Session, n: usize, seed: u64) -> (r: Result<Tensor, Error>)
        ensures
            gave(r, final(s)@, self.sample_n_of(old(s)@, n, seed)),
    ;

    /// One draw per batch element, differentiable with respect to the parameters.
    fn rsample(&self, s: &mut Session, seed: u64) -> (r: Result<Var, Error>)
        ensures
            ops::same_value(r, final(s)@, self.rsample_of(old(s)@, seed)),
    ;

    /// The log-density, or log-mass, at a value.
    fn log_prob(&self, s: &mut Session, value: &Var) -> (r: Result<Var, Error>)
        ensures
            ops::same_value(r, final(s)@, self.log_prob_of(old(s)@, value@)),
    ;

    /// The cumulative distribution function at a value.
    fn cdf(&self, value: &Tensor) -> (r: Result<Tensor, Error>)
        ensures
            crate::error::agrees(r, self.cdf_of(value@)),
    ;

    /// The quantile function.
    fn icdf(&self, s: &mut Session, q: &Var) -> (r: Result<Var, Error>)
        ensures
            ops::same_value(r, final(s)@, self.icdf_of(old(s)@, q@)),
    ;

    /// The differential or Shannon entropy.
    fn entropy(&self, s: &mut Session) -> (r: Result<Var, Error>)
        ensures
            ops::same_value(r, final(s)@, self.entropy_of(old(s)@)),
    ;

    /// The mean, where one exists.
    fn mean(&self, s: &mut Session) -> (r: Result<Tensor, Error>)
        ensures
            gave(r, final(s)@, self.mean_of(old(s)@)),
    ;

    /// The variance, where one exists.
    fn variance(&self, s: &mut Session) -> (r: Result<Tensor, Error>)
        ensures
            gave(r, final(s)@, self.variance_of(old(s)@)),
    ;

    /// The mode, where one exists.
    fn mode(&self, s: &mut Session) -> (r: Result<Tensor, Error>)
        ensures
            gave(r, final(s)@, self.mode_of(old(s)@)),
    ;

    /// The standard deviation: the root of [`Distribution::variance`].
    fn stddev(&self, s: &mut Session) -> (r: Result<Tensor, Error>)
        ensures
            gave(r, final(s)@, root_of(self.variance_of(old(s)@))),
    {
        let v = self.variance(s)?;
        Ok(v.unary(Unary::Sqrt))
    }

    /// The number of elements one draw holds, or `None` when it does not fit a word.
    fn batch_len(&self) -> (r: Option<usize>)
        ensures
            match r {
                Some(n) => n == crate::shape::product(self.batch()),
                None => !crate::shape::fits(self.batch()),
            },
    {
        self.batch_shape().checked_elements()
    }
}

/// An operation a family does not have.
pub(crate) fn unsupported(msg: &str) -> (e: Error)
    ensures
        e@ == Fault::Unsupported(msg@),
{
    Error::Unsupported(msg.to_owned())
}

/// A list with an extent put first.
pub(crate) fn prefixed(n: usize, dims: &Vec<usize>) -> (r: Shape)
    ensures
        r@ == seq![n] + dims@,
{
    let mut out = copied(dims);
    out.insert(0, n);
    proof {
        assert(out@ =~= seq![n] + dims@);
    }
    Shape::new(out)
}

/// A list of three tensors.
pub(crate) fn three(a: &Tensor, b: &Tensor, c: &Tensor) -> (r: Vec<Tensor>)
    ensures
        tensor::values(r@) == seq![a@, b@, c@],
{
    let mut out: Vec<Tensor> = Vec::new();
    out.push(a.clone());
    out.push(b.clone());
    out.push(c.clone());
    proof {
        assert(tensor::values(out@) =~= seq![a@, b@, c@]);
    }
    out
}

/// A list of four tensors.
pub(crate) fn four(a: &Tensor, b: &Tensor, c: &Tensor, d: &Tensor) -> (r: Vec<Tensor>)
    ensures
        tensor::values(r@) == seq![a@, b@, c@, d@],
{
    let mut out: Vec<Tensor> = Vec::new();
    out.push(a.clone());
    out.push(b.clone());
    out.push(c.clone());
    out.push(d.clone());
    proof {
        assert(tensor::values(out@) =~= seq![a@, b@, c@, d@]);
    }
    out
}

/// A list of one tensor.
pub(crate) fn just(a: &Tensor) -> (r: Vec<Tensor>)
    ensures
        tensor::values(r@) == seq![a@],
{
    let mut out: Vec<Tensor> = Vec::new();
    out.push(a.clone());
    proof {
        assert(tensor::values(out@) =~= seq![a@]);
    }
    out
}

/// A list of two tensors.
pub(crate) fn both(a: &Tensor, b: &Tensor) -> (r: Vec<Tensor>)
    ensures
        tensor::values(r@) == seq![a@, b@],
{
    let mut out: Vec<Tensor> = Vec::new();
    out.push(a.clone());
    out.push(b.clone());
    proof {
        assert(tensor::values(out@) =~= seq![a@, b@]);
    }
    out
}

} // verus!
