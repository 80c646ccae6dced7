//! The scalar families, behind one type.
//!
//! One type rather than one per family, because they would differ only in their
//! constructor's argument names; that difference lives in the constructors.

use vstd::prelude::*;

use super::base;
use super::base::{Distribution, Param, Support, four, prefixed, three, unsupported};
use super::univariate;
use super::univariate::Kind;
use crate::autograd::graph::{Session, Tape};
use crate::autograd::ops;
use crate::autograd::ops::also;
use crate::autograd::rule::{Rule, RuleOf, Wants};
use crate::autograd::var;
use crate::autograd::var::{Trace, Traced, Var};
use crate::error::{Error, Fault};
use crate::shape;
use crate::shape::{Shape, copied};
use crate::tensor;
use crate::tensor::{Tensor, Value};
use crate::term::{Binary, Fused, Scalar, Unary};
use crate::text::{append_bracketed, append_decimal};

verus! {

/// A scalar distribution as a mathematical value: a kind, its three slots and the
/// batch shape.
pub struct Family {
    pub kind: Kind,
    pub a: Traced,
    pub b: Traced,
    pub c: Traced,
    pub batch: Seq<usize>,
}

/// A scalar distribution: a [`Kind`] plus up to three parameter tensors.
///
/// Unused slots alias the first one as a constant, which keeps them off the tape and
/// out of the gradient.
pub struct Univariate {
    kind: Kind,
    a: Var,
    b: Var,
    c: Var,
    batch: Shape,
    len: usize,
}

impl View for Univariate {
    type V = Family;

    closed spec fn view(&self) -> Family {
        Family { kind: self.kind, a: self.a@, b: self.b@, c: self.c@, batch: self.batch@ }
    }
}

// -- construction ---------------------------------------------------------------------

pub open spec fn arity_message(kind: Kind, got: nat) -> Seq<char> {
    kind.name_of() + " takes "@ + crate::text::decimal(kind.arity_of() as nat) + " parameters, got "@
        + crate::text::decimal(got)
}

/// Whether a parameter is a single value.
pub open spec fn is_single(v: Traced) -> bool {
    shape::product(v.value.dims) == 1
}

/// The broadcast of every parameter among the first `n` that is not a single value.
pub open spec fn batch_of(given: Seq<Traced>, n: nat) -> Result<Seq<usize>, Fault>
    decreases n,
{
    if n == 0 {
        Ok(Seq::empty())
    } else {
        match batch_of(given, (n - 1) as nat) {
            Err(f) => Err(f),
            Ok(d) => if is_single(given[n - 1]) {
                Ok(d)
            } else {
                shape::broadcast(d, given[n - 1].value.dims)
            },
        }
    }
}

/// The first `n` parameters as slots: a single value and one of the batch's shape stay
/// what they are; anything else is expanded once, here.
pub open spec fn slots_of(t: Tape, given: Seq<Traced>, batch: Seq<usize>, n: nat) -> Result<
    (Tape, Seq<Traced>),
    Fault,
>
    decreases n,
{
    if n == 0 {
        Ok((t, Seq::empty()))
    } else {
        match slots_of(t, given, batch, (n - 1) as nat) {
            Err(f) => Err(f),
            Ok((u, done)) => if is_single(given[n - 1]) || given[n - 1].value.dims == batch {
                Ok((u, done.push(given[n - 1])))
            } else {
                match ops::expand_op(u, given[n - 1], batch) {
                    Err(f) => Err(f),
                    Ok((w, v)) => Ok((w, done.push(v))),
                }
            },
        }
    }
}

/// The distribution of a kind with given parameters.
pub open spec fn family_of(t: Tape, kind: Kind, given: Seq<Traced>) -> Result<
    (Tape, Family),
    Fault,
> {
    if given.len() != kind.arity_of() {
        Err(Fault::Config(arity_message(kind, given.len())))
    } else {
        match batch_of(given, given.len()) {
            Err(f) => Err(f),
            Ok(batch) => if !shape::fits(batch) {
                Err(Fault::Shape(ops::count_message(batch)))
            } else {
                match slots_of(t, given, batch, given.len()) {
                    Err(f) => Err(f),
                    Ok((u, slots)) => {
                        let filler = ops::untracked(slots[0].value);
                        Ok(
                            (
                                u,
                                Family {
                                    kind,
                                    a: slots[0],
                                    b: if slots.len() > 1 {
                                        slots[1]
                                    } else {
                                        filler
                                    },
                                    c: if slots.len() > 2 {
                                        slots[2]
                                    } else {
                                        filler
                                    },
                                    batch,
                                },
                            ),
                        )
                    },
                }
            },
        }
    }
}

/// Whether a construction gave what it should.
pub open spec fn built(
    r: Result<Univariate, Error>,
    after: Tape,
    want: Result<(Tape, Family), Fault>,
) -> bool {
    match (r, want) {
        (Ok(u), Ok((t, f))) => u@ == f && after == t,
        (Err(e), Err(f)) => e@ == f,
        _ => false,
    }
}

fn arity_error(kind: Kind, got: usize) -> (e: Error)
    ensures
        e@ == Fault::Config(arity_message(kind, got as nat)),
{
    let mut text = String::new();
    text.append(kind.name());
    text.append(" takes ");
    append_decimal(&mut text, kind.arity() as u64);
    text.append(" parameters, got ");
    append_decimal(&mut text, got as u64);
    proof {
        assert(text@ =~= arity_message(kind, got as nat));
    }
    Error::Config(text)
}

fn count_error(dims: &Vec<usize>) -> (e: Error)
    ensures
        e@ == Fault::Shape(ops::count_message(dims@)),
{
    let mut text = String::new();
    text.append("too many elements in ");
    append_bracketed(&mut text, dims);
    proof {
        assert(text@ =~= ops::count_message(dims@));
    }
    Error::Shape(text)
}

fn single(v: &Var) -> (r: bool)
    ensures
        r == is_single(v@),
{
    match v.shape().checked_elements() {
        Some(n) => n == 1,
        None => false,
    }
}

pub open spec fn score_message(value: Seq<usize>, batch: Seq<usize>, out: Seq<usize>) -> Seq<char> {
    "a value of "@ + crate::text::bracketed(value) + " cannot be scored against a "@
        + crate::text::bracketed(batch) + " distribution: the result would be "@
        + crate::text::bracketed(out) + ", so broadcast the value first"@
}

/// Whether a value can be scored: the batch broadcasts to its shape.
pub open spec fn scorable(value: Seq<usize>, batch: Seq<usize>) -> Result<(), Fault> {
    match shape::broadcast(value, batch) {
        Err(f) => Err(f),
        Ok(out) => if out == value {
            Ok(())
        } else {
            Err(Fault::Shape(score_message(value, batch, out)))
        },
    }
}

fn score_error(value: &Vec<usize>, batch: &Vec<usize>, out: &Vec<usize>) -> (e: Error)
    ensures
        e@ == Fault::Shape(score_message(value@, batch@, out@)),
{
    let mut text = String::new();
    text.append("a value of ");
    append_bracketed(&mut text, value);
    text.append(" cannot be scored against a ");
    append_bracketed(&mut text, batch);
    text.append(" distribution: the result would be ");
    append_bracketed(&mut text, out);
    text.append(", so broadcast the value first");
    proof {
        assert(text@ =~= score_message(value@, batch@, out@));
    }
    Error::Shape(text)
}

impl Univariate {
    #[verifier::type_invariant]
    closed spec fn counted(self) -> bool {
        self.len == shape::product(self.batch@)
    }

    /// Build a distribution of `kind` from parameters given in the order of its slots.
    pub fn new(s: &mut Session, kind: Kind, params: Vec<Param>) -> (r: Result<Self, Error>)
        ensures
            built(r, final(s)@, family_of(old(s)@, kind, base::param_values(params@))),
    {
        let ghost given = base::param_values(params@);
        let ghost start = s@;
        let count: usize = params.len();
        if count != kind.arity() {
            return Err(arity_error(kind, count));
        }
        let mut vars: Vec<Var> = Vec::with_capacity(count);
        let mut batch = Shape::scalar();
        let mut i: usize = 0;
        while i < count
            invariant
                i <= count,
                count == params@.len(),
                given == base::param_values(params@),
                given.len() == kind.arity_of(),
                start == s@,
                start == old(s)@,
                ops::traced(vars@) == given.take(i as int),
                batch_of(given, i as nat) == Ok::<Seq<usize>, Fault>(batch@),
            decreases count - i,
        {
            let v = params[i].to_var();
            proof {
                assert(given[i as int] == v@);
            }
            if !single(&v) {
                match Shape::broadcast(&batch, v.shape()) {
                    Ok(b) => {
                        batch = b;
                    },
                    Err(e) => {
                        proof {
                            lemma_batch_failed(given, i as nat + 1, given.len());
                        }
                        return Err(e);
                    },
                }
            }
            let ghost before = ops::traced(vars@);
            vars.push(v);
            proof {
                assert(ops::traced(vars@) =~= before.push(v@));
                assert(given.take(i as int + 1) =~= given.take(i as int).push(given[i as int]));
            }
            i += 1;
        }
        proof {
            assert(given.take(count as int) =~= given);
        }
        let len: usize = match batch.checked_elements() {
            Some(n) => n,
            None => {
                return Err(count_error(batch.dims()));
            },
        };
        let ghost bd = batch@;
        let mut slots: Vec<Var> = Vec::with_capacity(3);
        let mut k: usize = 0;
        proof {
            assert(ops::traced(slots@) =~= Seq::<Traced>::empty());
        }
        while k < count
            invariant
                k <= count,
                count == vars@.len(),
                given == ops::traced(vars@),
                given.len() == count,
                given.len() == kind.arity_of(),
                given == base::param_values(params@),
                start == old(s)@,
                bd == batch@,
                shape::fits(bd),
                batch_of(given, given.len()) == Ok::<Seq<usize>, Fault>(bd),
                slots@.len() == k,
                slots_of(start, given, bd, k as nat) == Ok::<(Tape, Seq<Traced>), Fault>(
                    (s@, ops::traced(slots@)),
                ),
            decreases count - k,
        {
            proof {
                assert(given[k as int] == vars@[k as int]@);
            }
            let ghost before = ops::traced(slots@);
            let slot = if single(&vars[k]) || vars[k].shape().same(&batch) {
                vars[k].clone()
            } else {
                match vars[k].expand(s, &batch) {
                    Ok(v) => v,
                    Err(e) => {
                        proof {
                            lemma_slots_failed(start, given, bd, k as nat + 1, given.len());
                        }
                        return Err(e);
                    },
                }
            };
            slots.push(slot);
            proof {
                assert(ops::traced(slots@) =~= before.push(slot@));
            }
            k += 1;
        }
        let ghost done = ops::traced(slots@);
        proof {
            assert(done.len() == count);
            assert(done[0] == slots@[0]@);
        }
        let a = slots[0].clone();
        let filler = Var::constant(a.tensor().clone());
        let b = if count > 1 {
            proof {
                assert(done[1] == slots@[1]@);
            }
            slots[1].clone()
        } else {
            filler.clone()
        };
        let c = if count > 2 {
            proof {
                assert(done[2] == slots@[2]@);
            }
            slots[2].clone()
        } else {
            filler
        };
        Ok(Univariate { kind, a, b, c, batch, len })
    }

    fn from_one(s: &mut Session, kind: Kind, a: Param) -> (r: Result<Self, Error>)
        ensures
            built(r, final(s)@, family_of(old(s)@, kind, seq![base::param_value(a)])),
    {
        let mut params: Vec<Param> = Vec::new();
        params.push(a);
        proof {
            assert(base::param_values(params@) =~= seq![base::param_value(a)]);
        }
        Univariate::new(s, kind, params)
    }

    fn from_two(s: &mut Session, kind: Kind, a: Param, b: Param) -> (r: Result<Self, Error>)
        ensures
            built(
                r,
                final(s)@,
                family_of(old(s)@, kind, seq![base::param_value(a), base::param_value(b)]),
            ),
    {
        let mut params: Vec<Param> = Vec::new();
        params.push(a);
        params.push(b);
        proof {
            assert(base::param_values(params@) =~= seq![
                base::param_value(a),
                base::param_value(b),
            ]);
        }
        Univariate::new(s, kind, params)
    }

    fn from_three(s: &mut Session, kind: Kind, a: Param, b: Param, c: Param) -> (r: Result<
        Self,
        Error,
    >)
        ensures
            built(
                r,
                final(s)@,
                family_of(
                    old(s)@,
                    kind,
                    seq![base::param_value(a), base::param_value(b), base::param_value(c)],
                ),
            ),
    {
        let mut params: Vec<Param> = Vec::new();
        params.push(a);
        params.push(b);
        params.push(c);
        proof {
            assert(base::param_values(params@) =~= seq![
                base::param_value(a),
                base::param_value(b),
                base::param_value(c),
            ]);
        }
        Univariate::new(s, kind, params)
    }

    /// The Gaussian.
    pub fn normal(s: &mut Session, loc: Param, scale: Param) -> (r: Result<Self, Error>)
        ensures
            built(r, final(s)@, family_of(old(s)@, Kind::Normal, seq![base::param_value(loc), base::param_value(scale)])),
    {
        Univariate::from_two(s, Kind::Normal, loc, scale)
    }

    /// Flat on `[low, high)`.
    pub fn uniform(s: &mut Session, low: Param, high: Param) -> (r: Result<Self, Error>)
        ensures
            built(r, final(s)@, family_of(old(s)@, Kind::Uniform, seq![base::param_value(low), base::param_value(high)])),
    {
        Univariate::from_two(s, Kind::Uniform, low, high)
    }

    /// The waiting time of a Poisson process of the given rate.
    pub fn exponential(s: &mut Session, rate: Param) -> (r: Result<Self, Error>)
        ensures
            built(r, final(s)@, family_of(old(s)@, Kind::Exponential, seq![base::param_value(rate)])),
    {
        Univariate::from_one(s, Kind::Exponential, rate)
    }

    /// Two exponential tails back to back.
    pub fn laplace(s: &mut Session, loc: Param, scale: Param) -> (r: Result<Self, Error>)
        ensures
            built(r, final(s)@, family_of(old(s)@, Kind::Laplace, seq![base::param_value(loc), base::param_value(scale)])),
    {
        Univariate::from_two(s, Kind::Laplace, loc, scale)
    }

    /// The ratio of two standard normals: heavy-tailed, and with no mean.
    pub fn cauchy(s: &mut Session, loc: Param, scale: Param) -> (r: Result<Self, Error>)
        ensures
            built(r, final(s)@, family_of(old(s)@, Kind::Cauchy, seq![base::param_value(loc), base::param_value(scale)])),
    {
        Univariate::from_two(s, Kind::Cauchy, loc, scale)
    }

    /// The extreme-value distribution.
    pub fn gumbel(s: &mut Session, loc: Param, scale: Param) -> (r: Result<Self, Error>)
        ensures
            built(r, final(s)@, family_of(old(s)@, Kind::Gumbel, seq![base::param_value(loc), base::param_value(scale)])),
    {
        Univariate::from_two(s, Kind::Gumbel, loc, scale)
    }

    /// A centred Gaussian folded at zero.
    pub fn half_normal(s: &mut Session, scale: Param) -> (r: Result<Self, Error>)
        ensures
            built(r, final(s)@, family_of(old(s)@, Kind::HalfNormal, seq![base::param_value(scale)])),
    {
        Univariate::from_one(s, Kind::HalfNormal, scale)
    }

    /// A centred Cauchy folded at zero.
    pub fn half_cauchy(s: &mut Session, scale: Param) -> (r: Result<Self, Error>)
        ensures
            built(r, final(s)@, family_of(old(s)@, Kind::HalfCauchy, seq![base::param_value(scale)])),
    {
        Univariate::from_one(s, Kind::HalfCauchy, scale)
    }

    /// A Gaussian in the logarithm.
    pub fn log_normal(s: &mut Session, loc: Param, scale: Param) -> (r: Result<Self, Error>)
        ensures
            built(r, final(s)@, family_of(old(s)@, Kind::LogNormal, seq![base::param_value(loc), base::param_value(scale)])),
    {
        Univariate::from_two(s, Kind::LogNormal, loc, scale)
    }

    /// A power law above a scale.
    pub fn pareto(s: &mut Session, scale: Param, alpha: Param) -> (r: Result<Self, Error>)
        ensures
            built(r, final(s)@, family_of(old(s)@, Kind::Pareto, seq![base::param_value(scale), base::param_value(alpha)])),
    {
        Univariate::from_two(s, Kind::Pareto, scale, alpha)
    }

    /// A stretched exponential.
    pub fn weibull(s: &mut Session, scale: Param, concentration: Param) -> (r: Result<Self, Error>)
        ensures
            built(r, final(s)@, family_of(old(s)@, Kind::Weibull, seq![base::param_value(scale), base::param_value(concentration)])),
    {
        Univariate::from_two(s, Kind::Weibull, scale, concentration)
    }

    /// A Beta-shaped density on the unit interval whose quantile is elementary.
    pub fn kumaraswamy(s: &mut Session, concentration1: Param, concentration0: Param) -> (r: Result<Self, Error>)
        ensures
            built(r, final(s)@, family_of(old(s)@, Kind::Kumaraswamy, seq![base::param_value(concentration1), base::param_value(concentration0)])),
    {
        Univariate::from_two(s, Kind::Kumaraswamy, concentration1, concentration0)
    }

    /// The Gamma, in shape-and-rate form.
    pub fn gamma(s: &mut Session, concentration: Param, rate: Param) -> (r: Result<Self, Error>)
        ensures
            built(r, final(s)@, family_of(old(s)@, Kind::Gamma, seq![base::param_value(concentration), base::param_value(rate)])),
    {
        Univariate::from_two(s, Kind::Gamma, concentration, rate)
    }

    /// The reciprocal of a Gamma.
    pub fn inverse_gamma(s: &mut Session, concentration: Param, rate: Param) -> (r: Result<Self, Error>)
        ensures
            built(r, final(s)@, family_of(old(s)@, Kind::InverseGamma, seq![base::param_value(concentration), base::param_value(rate)])),
    {
        Univariate::from_two(s, Kind::InverseGamma, concentration, rate)
    }

    /// The Beta, conjugate to a Bernoulli.
    pub fn beta(s: &mut Session, concentration1: Param, concentration0: Param) -> (r: Result<Self, Error>)
        ensures
            built(r, final(s)@, family_of(old(s)@, Kind::Beta, seq![base::param_value(concentration1), base::param_value(concentration0)])),
    {
        Univariate::from_two(s, Kind::Beta, concentration1, concentration0)
    }

    /// Student's t, with a location and a scale.
    pub fn student_t(s: &mut Session, df: Param, loc: Param, scale: Param) -> (r: Result<Self, Error>)
        ensures
            built(r, final(s)@, family_of(old(s)@, Kind::StudentT, seq![base::param_value(df), base::param_value(loc), base::param_value(scale)])),
    {
        Univariate::from_three(s, Kind::StudentT, df, loc, scale)
    }

    /// The ratio of two scaled chi-squares.
    pub fn fisher_snedecor(s: &mut Session, df1: Param, df2: Param) -> (r: Result<Self, Error>)
        ensures
            built(r, final(s)@, family_of(old(s)@, Kind::FisherSnedecor, seq![base::param_value(df1), base::param_value(df2)])),
    {
        Univariate::from_two(s, Kind::FisherSnedecor, df1, df2)
    }

    /// The circular analogue of a Gaussian.
    pub fn von_mises(s: &mut Session, loc: Param, concentration: Param) -> (r: Result<Self, Error>)
        ensures
            built(r, final(s)@, family_of(old(s)@, Kind::VonMises, seq![base::param_value(loc), base::param_value(concentration)])),
    {
        Univariate::from_two(s, Kind::VonMises, loc, concentration)
    }

    /// A continuous relaxation of a Bernoulli.
    pub fn continuous_bernoulli_logits(s: &mut Session, logits: Param) -> (r: Result<Self, Error>)
        ensures
            built(r, final(s)@, family_of(old(s)@, Kind::ContinuousBernoulli, seq![base::param_value(logits)])),
    {
        Univariate::from_one(s, Kind::ContinuousBernoulli, logits)
    }

    /// A single coin flip, from its logit.
    pub fn bernoulli_logits(s: &mut Session, logits: Param) -> (r: Result<Self, Error>)
        ensures
            built(r, final(s)@, family_of(old(s)@, Kind::Bernoulli, seq![base::param_value(logits)])),
    {
        Univariate::from_one(s, Kind::Bernoulli, logits)
    }

    /// Failures before the first success, from the success logit.
    pub fn geometric_logits(s: &mut Session, logits: Param) -> (r: Result<Self, Error>)
        ensures
            built(r, final(s)@, family_of(old(s)@, Kind::Geometric, seq![base::param_value(logits)])),
    {
        Univariate::from_one(s, Kind::Geometric, logits)
    }

    /// Counts from a Poisson process.
    pub fn poisson(s: &mut Session, rate: Param) -> (r: Result<Self, Error>)
        ensures
            built(r, final(s)@, family_of(old(s)@, Kind::Poisson, seq![base::param_value(rate)])),
    {
        Univariate::from_one(s, Kind::Poisson, rate)
    }

    /// Successes in `total_count` trials, from the success logit.
    pub fn binomial_logits(s: &mut Session, total_count: Param, logits: Param) -> (r: Result<Self, Error>)
        ensures
            built(r, final(s)@, family_of(old(s)@, Kind::Binomial, seq![base::param_value(total_count), base::param_value(logits)])),
    {
        Univariate::from_two(s, Kind::Binomial, total_count, logits)
    }

    /// Failures before `total_count` successes, from the success logit.
    pub fn negative_binomial_logits(s: &mut Session, total_count: Param, logits: Param) -> (r: Result<Self, Error>)
        ensures
            built(r, final(s)@, family_of(old(s)@, Kind::NegativeBinomial, seq![base::param_value(total_count), base::param_value(logits)])),
    {
        Univariate::from_two(s, Kind::NegativeBinomial, total_count, logits)
    }

    /// The pre-sigmoid relaxation of one bit.
    pub fn logit_relaxed_bernoulli(s: &mut Session, temperature: Param, logits: Param) -> (r: Result<Self, Error>)
        ensures
            built(r, final(s)@, family_of(old(s)@, Kind::LogitRelaxedBernoulli, seq![base::param_value(temperature), base::param_value(logits)])),
    {
        Univariate::from_two(s, Kind::LogitRelaxedBernoulli, temperature, logits)
    }

    /// A relaxation of one bit, on the open unit interval.
    pub fn relaxed_bernoulli(s: &mut Session, temperature: Param, logits: Param) -> (r: Result<Self, Error>)
        ensures
            built(r, final(s)@, family_of(old(s)@, Kind::RelaxedBernoulli, seq![base::param_value(temperature), base::param_value(logits)])),
    {
        Univariate::from_two(s, Kind::RelaxedBernoulli, temperature, logits)
    }

    /// The standard normal, shaped like `shape`.
    pub fn standard_normal(s: &mut Session, shape: Shape) -> (r: Result<Self, Error>)
        ensures
            built(
                r,
                final(s)@,
                family_of(
                    old(s)@,
                    Kind::Normal,
                    seq![
                        ops::untracked(tensor::fill_of(Scalar::Int(0), shape@)),
                        ops::untracked(tensor::fill_of(Scalar::Int(1), seq![1usize])),
                    ],
                ),
            ),
    {
        let zeros = Var::constant(Tensor::zeros(shape));
        Univariate::normal(s, Param::Value(zeros), Param::Scalar(Scalar::Int(1)))
    }

    /// The chi-square distribution: the Gamma with half the degrees of freedom and a
    /// rate of one half.
    pub fn chi2(s: &mut Session, df: Param) -> (r: Result<Self, Error>)
        ensures
            built(r, final(s)@, chi2_of(old(s)@, df)),
    {
        let half = match df {
            Param::Scalar(Scalar::Bits(v)) => Param::Scalar(Scalar::BitsHalved(v)),
            other => {
                let v = other.to_var();
                Param::Value(v.mul_scalar(s, Scalar::Frac(1, 2)))
            },
        };
        Univariate::gamma(s, half, Param::Scalar(Scalar::Frac(1, 2)))
    }

    /// A coin flip given its probability of heads. The probability is converted to a
    /// logit once, here.
    pub fn bernoulli(s: &mut Session, probs: Param) -> (r: Result<Self, Error>)
        ensures
            built(
                r,
                final(s)@,
                match logit_of(old(s)@, probs) {
                    Err(f) => Err(f),
                    Ok((t, l)) => family_of(t, Kind::Bernoulli, seq![l]),
                },
            ),
    {
        let l = logits_of(s, probs)?;
        Univariate::bernoulli_logits(s, l)
    }

    /// [`Univariate::geometric_logits`] from a probability.
    pub fn geometric(s: &mut Session, probs: Param) -> (r: Result<Self, Error>)
        ensures
            built(
                r,
                final(s)@,
                match logit_of(old(s)@, probs) {
                    Err(f) => Err(f),
                    Ok((t, l)) => family_of(t, Kind::Geometric, seq![l]),
                },
            ),
    {
        let l = logits_of(s, probs)?;
        Univariate::geometric_logits(s, l)
    }

    /// [`Univariate::binomial_logits`] from a probability.
    pub fn binomial(s: &mut Session, total_count: Param, probs: Param) -> (r: Result<Self, Error>)
        ensures
            built(
                r,
                final(s)@,
                match logit_of(old(s)@, probs) {
                    Err(f) => Err(f),
                    Ok((t, l)) => family_of(
                        t,
                        Kind::Binomial,
                        seq![base::param_value(total_count), l],
                    ),
                },
            ),
    {
        let l = logits_of(s, probs)?;
        Univariate::binomial_logits(s, total_count, l)
    }

    /// [`Univariate::negative_binomial_logits`] from a probability.
    pub fn negative_binomial(s: &mut Session, total_count: Param, probs: Param) -> (r: Result<
        Self,
        Error,
    >)
        ensures
            built(
                r,
                final(s)@,
                match logit_of(old(s)@, probs) {
                    Err(f) => Err(f),
                    Ok((t, l)) => family_of(
                        t,
                        Kind::NegativeBinomial,
                        seq![base::param_value(total_count), l],
                    ),
                },
            ),
    {
        let l = logits_of(s, probs)?;
        Univariate::negative_binomial_logits(s, total_count, l)
    }

    /// [`Univariate::continuous_bernoulli_logits`] from a probability.
    pub fn continuous_bernoulli(s: &mut Session, probs: Param) -> (r: Result<Self, Error>)
        ensures
            built(
                r,
                final(s)@,
                match logit_of(old(s)@, probs) {
                    Err(f) => Err(f),
                    Ok((t, l)) => family_of(t, Kind::ContinuousBernoulli, seq![l]),
                },
            ),
    {
        let l = logits_of(s, probs)?;
        Univariate::continuous_bernoulli_logits(s, l)
    }

    /// Which family this is.
    pub fn kind(&self) -> (r: Kind)
        ensures
            r == self@.kind,
    {
        self.kind
    }

    /// The parameters, in the order of the kind's slots.
    pub fn params(&self) -> (r: Vec<Var>)
        ensures
            ops::traced(r@) == seq![self@.a, self@.b, self@.c].take(self@.kind.arity_of() as int),
    {
        let mut out: Vec<Var> = Vec::new();
        out.push(self.a.clone());
        if self.kind.arity() > 1 {
            out.push(self.b.clone());
        }
        if self.kind.arity() > 2 {
            out.push(self.c.clone());
        }
        proof {
            assert(ops::traced(out@) =~= seq![self@.a, self@.b, self@.c].take(
                self@.kind.arity_of() as int,
            ));
        }
        out
    }

    /// The first parameter.
    pub fn first(&self) -> (r: &Var)
        ensures
            r@ == self@.a,
    {
        &self.a
    }

    /// The second parameter, or the first one detached where there is none.
    pub fn second(&self) -> (r: &Var)
        ensures
            r@ == self@.b,
    {
        &self.b
    }

    fn value_shape(&self, value: &Shape) -> (r: Result<(), Error>)
        ensures
            match (r, scorable(value@, self@.batch)) {
                (Ok(_), Ok(_)) => true,
                (Err(e), Err(f)) => e@ == f,
                _ => false,
            },
    {
        let out = Shape::broadcast(value, &self.batch)?;
        if !out.same(value) {
            return Err(score_error(value.dims(), self.batch.dims(), out.dims()));
        }
        Ok(())
    }

    fn seats(&self) -> (r: Vec<Option<Trace>>)
        ensures
            var::places(r@) == seq![self@.a.trace, self@.b.trace, self@.c.trace],
    {
        let mut at: Vec<Option<Trace>> = Vec::new();
        also(&mut at, &self.a);
        also(&mut at, &self.b);
        also(&mut at, &self.c);
        proof {
            assert(var::places(at@) =~= seq![self@.a.trace, self@.b.trace, self@.c.trace]);
        }
        at
    }

    fn wants(&self, x: bool) -> (r: Wants)
        ensures
            r == wants_of(self@, x),
    {
        Wants {
            x,
            a: self.a.is_tracked(),
            b: self.b.is_tracked(),
            c: self.c.is_tracked(),
        }
    }

    /// A value-taking operation, recorded.
    fn pointwise(&self, s: &mut Session, value: &Var, which: u32) -> (r: Var)
        ensures
            (final(s)@, r@) == density_op(old(s)@, self@, value@, which),
    {
        let args = four(value.tensor(), self.a.tensor(), self.b.tensor(), self.c.tensor());
        let out = Tensor::fused(
            Fused::Density(self.kind.code(), which),
            &args,
            value.shape().clone(),
        );
        let mut at: Vec<Option<Trace>> = Vec::new();
        also(&mut at, value);
        also(&mut at, &self.a);
        also(&mut at, &self.b);
        also(&mut at, &self.c);
        proof {
            assert(var::places(at@) =~= seq![
                value@.trace,
                self@.a.trace,
                self@.b.trace,
                self@.c.trace,
            ]);
        }
        let rule: Rule = RuleOf::Density(
            self.kind.code(),
            which,
            self.wants(value.is_tracked()),
            value.tensor().clone(),
            self.a.tensor().clone(),
            self.b.tensor().clone(),
            self.c.tensor().clone(),
        );
        Var::record(s, out, &at, rule)
    }

    /// A summary statistic, as one launch.
    fn summary(&self, which: u32) -> (r: Tensor)
        ensures
            r@ == summary_of(self@, which),
    {
        Tensor::fused(
            Fused::Summary(self.kind.code(), which),
            &three(self.a.tensor(), self.b.tensor(), self.c.tensor()),
            self.batch.clone(),
        )
    }

    /// Draws of a shape whose trailing elements index the parameters.
    fn draws(&self, shape: Shape, seed: u64) -> (r: Tensor)
        ensures
            r@ == draw_of(self@, shape@, seed),
    {
        proof {
            use_type_invariant(self);
        }
        Tensor::fused(
            Fused::Draw(self.kind.code(), self.len as u64, seed),
            &three(self.a.tensor(), self.b.tensor(), self.c.tensor()),
            shape,
        )
    }
}

pub open spec fn wants_of(f: Family, x: bool) -> Wants {
    Wants { x, a: f.a.trace is Some, b: f.b.trace is Some, c: f.c.trace is Some }
}

/// A density, distribution function or quantile at a value.
pub open spec fn density_of(f: Family, x: Value, which: u32) -> Value {
    tensor::fused_of(
        Fused::Density(f.kind.code_of(), which),
        seq![x, f.a.value, f.b.value, f.c.value],
        x.dims,
    )
}

pub open spec fn density_op(t: Tape, f: Family, x: Traced, which: u32) -> (Tape, Traced) {
    var::record(
        t,
        density_of(f, x.value, which),
        seq![x.trace, f.a.trace, f.b.trace, f.c.trace],
        RuleOf::Density(
            f.kind.code_of(),
            which,
            wants_of(f, x.trace is Some),
            x.value,
            f.a.value,
            f.b.value,
            f.c.value,
        ),
    )
}

pub open spec fn summary_of(f: Family, which: u32) -> Value {
    tensor::fused_of(
        Fused::Summary(f.kind.code_of(), which),
        seq![f.a.value, f.b.value, f.c.value],
        f.batch,
    )
}

/// Draws of a shape; element `i` reads the parameters of batch element `i` modulo the
/// batch length, and the random word of index `i`.
pub open spec fn draw_of(f: Family, shape: Seq<usize>, seed: u64) -> Value {
    tensor::fused_of(
        Fused::Draw(f.kind.code_of(), shape::product(f.batch) as u64, seed),
        seq![f.a.value, f.b.value, f.c.value],
        shape,
    )
}

pub open spec fn no_path_message(kind: Kind) -> Seq<char> {
    kind.name_of()
        + " has no path derivative: its sampler's control flow depends on its parameters, so a draw is not a differentiable function of them. Use `sample` with a score-function estimator instead."@
}

pub open spec fn no_cdf_message(kind: Kind) -> Seq<char> {
    kind.name_of() + " has no closed-form CDF"@
}

pub open spec fn no_icdf_message(kind: Kind) -> Seq<char> {
    kind.name_of() + " has no closed-form quantile"@
}

pub open spec fn no_entropy_message(kind: Kind) -> Seq<char> {
    kind.name_of() + " has no closed-form entropy"@
}

fn lacks(kind: Kind, what: &str) -> (e: Error)
    ensures
        e@ == Fault::Unsupported(kind.name_of() + what@),
{
    let mut text = String::new();
    text.append(kind.name());
    text.append(what);
    proof {
        assert(text@ =~= kind.name_of() + what@);
    }
    Error::Unsupported(text)
}

/// A reparameterised draw, recorded.
pub open spec fn rsample_op(t: Tape, f: Family, seed: u64) -> Result<(Tape, Traced), Fault> {
    if !f.kind.is_reparameterised() {
        Err(Fault::Unsupported(no_path_message(f.kind)))
    } else {
        Ok(
            var::record(
                t,
                draw_of(f, f.batch, seed),
                seq![f.a.trace, f.b.trace, f.c.trace],
                RuleOf::Draw(
                    f.kind.code_of(),
                    shape::product(f.batch) as u64,
                    seed,
                    wants_of(f, false),
                    f.a.value,
                    f.b.value,
                    f.c.value,
                ),
            ),
        )
    }
}

pub open spec fn log_prob_op(t: Tape, f: Family, x: Traced) -> Result<(Tape, Traced), Fault> {
    match scorable(x.value.dims, f.batch) {
        Err(e) => Err(e),
        Ok(_) => Ok(density_op(t, f, x, univariate::LOG_PROB)),
    }
}

pub open spec fn cdf_value(f: Family, x: Value) -> Result<Value, Fault> {
    if !f.kind.cdf_exists() {
        Err(Fault::Unsupported(no_cdf_message(f.kind)))
    } else {
        match scorable(x.dims, f.batch) {
            Err(e) => Err(e),
            Ok(_) => Ok(density_of(f, x, univariate::CDF)),
        }
    }
}

/// A quantile: on the tape where it is differentiable, off it where it is a step
/// function.
pub open spec fn icdf_op(t: Tape, f: Family, q: Traced) -> Result<(Tape, Traced), Fault> {
    if !f.kind.icdf_exists() {
        Err(Fault::Unsupported(no_icdf_message(f.kind)))
    } else {
        match scorable(q.value.dims, f.batch) {
            Err(e) => Err(e),
            Ok(_) => if f.kind.inverts() {
                Ok(density_op(t, f, q, univariate::ICDF))
            } else {
                Ok((t, ops::untracked(density_of(f, q.value, univariate::ICDF))))
            },
        }
    }
}

pub open spec fn entropy_op(t: Tape, f: Family) -> Result<(Tape, Traced), Fault> {
    if !f.kind.entropy_exists() {
        Err(Fault::Unsupported(no_entropy_message(f.kind)))
    } else {
        Ok(
            var::record(
                t,
                summary_of(f, univariate::ENTROPY),
                seq![f.a.trace, f.b.trace, f.c.trace],
                RuleOf::Entropy(
                    f.kind.code_of(),
                    wants_of(f, false),
                    f.a.value,
                    f.b.value,
                    f.c.value,
                ),
            ),
        )
    }
}

/// The set each family's draws live in.
pub open spec fn support_of_kind(k: Kind) -> Support {
    match k {
        Kind::Normal | Kind::Laplace | Kind::Cauchy | Kind::Gumbel | Kind::StudentT
        | Kind::LogitRelaxedBernoulli => Support::Real,
        Kind::Uniform => Support::Interval,
        Kind::Exponential | Kind::HalfNormal | Kind::HalfCauchy => Support::NonNegative,
        Kind::LogNormal | Kind::Pareto | Kind::Weibull | Kind::Gamma | Kind::InverseGamma
        | Kind::FisherSnedecor => Support::Positive,
        Kind::Kumaraswamy | Kind::Beta | Kind::RelaxedBernoulli => Support::UnitOpen,
        Kind::ContinuousBernoulli => Support::UnitClosed,
        Kind::VonMises => Support::Circular,
        Kind::Bernoulli => Support::Boolean,
        Kind::Geometric | Kind::Poisson | Kind::NegativeBinomial => Support::Counting,
        Kind::Binomial => Support::BoundedCounting,
    }
}

/// The Gamma with half the degrees of freedom and a rate of one half.
pub open spec fn chi2_of(t: Tape, df: Param) -> Result<(Tape, Family), Fault> {
    let (u, half) = halved(t, df);
    family_of(
        u,
        Kind::Gamma,
        seq![half, ops::untracked(tensor::fill_of(Scalar::Frac(1, 2), seq![1usize]))],
    )
}

/// Half a parameter.
pub open spec fn halved(t: Tape, p: Param) -> (Tape, Traced) {
    match p {
        Param::Scalar(Scalar::Bits(v)) => (
            t,
            ops::untracked(tensor::fill_of(Scalar::BitsHalved(v), seq![1usize])),
        ),
        _ => ops::pointwise_op(
            t,
            Unary::MulScalar(Scalar::Frac(1, 2)),
            base::param_value(p),
        ),
    }
}

/// `ln p - ln(1 - p)` for a parameter given as a probability; a single-precision
/// number is converted at once.
pub open spec fn logit_of(t: Tape, p: Param) -> Result<(Tape, Traced), Fault> {
    match p {
        Param::Scalar(Scalar::Bits(v)) => Ok(
            (t, ops::untracked(tensor::fill_of(Scalar::BitsLogit(v), seq![1usize]))),
        ),
        _ => {
            let v = base::param_value(p);
            let (t1, l) = ops::pointwise_op(t, Unary::Log, v);
            ops::next(
                ops::binary_op(
                    t1,
                    Binary::Sub,
                    ops::untracked(tensor::fill_of(Scalar::Int(1), seq![1usize])),
                    v,
                ),
                |t2: Tape, m: Traced|
                    {
                        let (t3, lm) = ops::pointwise_op(t2, Unary::Log, m);
                        ops::binary_op(t3, Binary::Sub, l, lm)
                    },
            )
        },
    }
}

fn logits_of(s: &mut Session, probs: Param) -> (r: Result<Param, Error>)
    ensures
        match (r, logit_of(old(s)@, probs)) {
            (Ok(p), Ok((t, v))) => base::param_value(p) == v && final(s)@ == t,
            (Err(e), Err(f)) => e@ == f,
            _ => false,
        },
{
    match probs {
        Param::Scalar(Scalar::Bits(v)) => Ok(Param::Scalar(Scalar::BitsLogit(v))),
        other => {
            let v = other.to_var();
            let l = v.log(s);
            let one = Var::constant(Tensor::ones(base::one_long()));
            let m = one.sub(s, &v)?;
            let lm = m.log(s);
            let out = l.sub(s, &lm)?;
            Ok(Param::Value(out))
        },
    }
}

proof fn lemma_batch_failed(given: Seq<Traced>, low: nat, high: nat)
    requires
        low <= high,
        batch_of(given, low) is Err,
    ensures
        batch_of(given, high) == batch_of(given, low),
    decreases high,
{
    if low < high {
        lemma_batch_failed(given, low, (high - 1) as nat);
    }
}

proof fn lemma_slots_failed(t: Tape, given: Seq<Traced>, batch: Seq<usize>, low: nat, high: nat)
    requires
        low <= high,
        slots_of(t, given, batch, low) is Err,
    ensures
        slots_of(t, given, batch, high) == slots_of(t, given, batch, low),
    decreases high,
{
    if low < high {
        lemma_slots_failed(t, given, batch, low, (high - 1) as nat);
    }
}

impl Distribution for Univariate {
    open spec fn batch(&self) -> Seq<usize> {
        self@.batch
    }

    open spec fn event(&self) -> Seq<usize> {
        Seq::empty()
    }

    open spec fn support_of(&self) -> Support {
        support_of_kind(self@.kind)
    }

    open spec fn reparameterises(&self) -> bool {
        self@.kind.is_reparameterised()
    }

    open spec fn sample_of(&self, t: Tape, seed: u64) -> Result<(Tape, Value), Fault> {
        Ok((t, draw_of(self@, self@.batch, seed)))
    }

    open spec fn sample_n_of(&self, t: Tape, n: usize, seed: u64) -> Result<
        (Tape, Value),
        Fault,
    > {
        Ok((t, draw_of(self@, seq![n] + self@.batch, seed)))
    }

    open spec fn rsample_of(&self, t: Tape, seed: u64) -> Result<(Tape, Traced), Fault> {
        rsample_op(t, self@, seed)
    }

    open spec fn log_prob_of(&self, t: Tape, value: Traced) -> Result<(Tape, Traced), Fault> {
        log_prob_op(t, self@, value)
    }

    open spec fn cdf_of(&self, value: Value) -> Result<Value, Fault> {
        cdf_value(self@, value)
    }

    open spec fn icdf_of(&self, t: Tape, q: Traced) -> Result<(Tape, Traced), Fault> {
        icdf_op(t, self@, q)
    }

    open spec fn entropy_of(&self, t: Tape) -> Result<(Tape, Traced), Fault> {
        entropy_op(t, self@)
    }

    open spec fn mean_of(&self, t: Tape) -> Result<(Tape, Value), Fault> {
        Ok((t, summary_of(self@, univariate::MEAN)))
    }

    open spec fn variance_of(&self, t: Tape) -> Result<(Tape, Value), Fault> {
        Ok((t, summary_of(self@, univariate::VARIANCE)))
    }

    open spec fn mode_of(&self, t: Tape) -> Result<(Tape, Value), Fault> {
        Ok((t, summary_of(self@, univariate::MODE)))
    }

    fn batch_shape(&self) -> (r: Shape) {
        self.batch.clone()
    }

    fn event_shape(&self) -> (r: Shape) {
        Shape::scalar()
    }

    fn support(&self) -> (r: Support) {
        match self.kind {
            Kind::Normal | Kind::Laplace | Kind::Cauchy | Kind::Gumbel | Kind::StudentT
            | Kind::LogitRelaxedBernoulli => Support::Real,
            Kind::Uniform => Support::Interval,
            Kind::Exponential | Kind::HalfNormal | Kind::HalfCauchy => Support::NonNegative,
            Kind::LogNormal | Kind::Pareto | Kind::Weibull | Kind::Gamma | Kind::InverseGamma
            | Kind::FisherSnedecor => Support::Positive,
            Kind::Kumaraswamy | Kind::Beta | Kind::RelaxedBernoulli => Support::UnitOpen,
            Kind::ContinuousBernoulli => Support::UnitClosed,
            Kind::VonMises => Support::Circular,
            Kind::Bernoulli => Support::Boolean,
            Kind::Geometric | Kind::Poisson | Kind::NegativeBinomial => Support::Counting,
            Kind::Binomial => Support::BoundedCounting,
        }
    }

    fn has_rsample(&self) -> (r: bool) {
        self.kind.reparameterised()
    }

    fn sample(&self, s: &mut Session, seed: u64) -> (r: Result<Tensor, Error>) {
        Ok(self.draws(self.batch.clone(), seed))
    }

    fn sample_n(&self, s: &mut Session, n: usize, seed: u64) -> (r: Result<Tensor, Error>) {
        Ok(self.draws(prefixed(n, self.batch.dims()), seed))
    }

    fn rsample(&self, s: &mut Session, seed: u64) -> (r: Result<Var, Error>) {
        if !self.kind.reparameterised() {
            return Err(
                lacks(
                    self.kind,
                    " has no path derivative: its sampler's control flow depends on its parameters, so a draw is not a differentiable function of them. Use `sample` with a score-function estimator instead.",
                ),
            );
        }
        proof {
            use_type_invariant(self);
        }
        let value = self.draws(self.batch.clone(), seed);
        let rule: Rule = RuleOf::Draw(
            self.kind.code(),
            self.len as u64,
            seed,
            self.wants(false),
            self.a.tensor().clone(),
            self.b.tensor().clone(),
            self.c.tensor().clone(),
        );
        Ok(Var::record(s, value, &self.seats(), rule))
    }

    fn log_prob(&self, s: &mut Session, value: &Var) -> (r: Result<Var, Error>) {
        self.value_shape(value.shape())?;
        Ok(self.pointwise(s, value, univariate::LOG_PROB))
    }

    fn cdf(&self, value: &Tensor) -> (r: Result<Tensor, Error>) {
        if !self.kind.has_cdf() {
            return Err(lacks(self.kind, " has no closed-form CDF"));
        }
        self.value_shape(value.shape())?;
        Ok(
            Tensor::fused(
                Fused::Density(self.kind.code(), univariate::CDF),
                &four(value, self.a.tensor(), self.b.tensor(), self.c.tensor()),
                value.shape().clone(),
            ),
        )
    }

    fn icdf(&self, s: &mut Session, q: &Var) -> (r: Result<Var, Error>) {
        if !self.kind.has_icdf() {
            return Err(lacks(self.kind, " has no closed-form quantile"));
        }
        self.value_shape(q.shape())?;
        if !self.kind.has_icdf_grad() {
            return Ok(
                Var::constant(
                    Tensor::fused(
                        Fused::Density(self.kind.code(), univariate::ICDF),
                        &four(q.tensor(), self.a.tensor(), self.b.tensor(), self.c.tensor()),
                        q.shape().clone(),
                    ),
                ),
            );
        }
        Ok(self.pointwise(s, q, univariate::ICDF))
    }

    fn entropy(&self, s: &mut Session) -> (r: Result<Var, Error>) {
        if !self.kind.has_entropy() {
            return Err(lacks(self.kind, " has no closed-form entropy"));
        }
        let out = self.summary(univariate::ENTROPY);
        let rule: Rule = RuleOf::Entropy(
            self.kind.code(),
            self.wants(false),
            self.a.tensor().clone(),
            self.b.tensor().clone(),
            self.c.tensor().clone(),
        );
        Ok(Var::record(s, out, &self.seats(), rule))
    }

    fn mean(&self, s: &mut Session) -> (r: Result<Tensor, Error>) {
        Ok(self.summary(univariate::MEAN))
    }

    fn variance(&self, s: &mut Session) -> (r: Result<Tensor, Error>) {
        Ok(self.summary(univariate::VARIANCE))
    }

    fn mode(&self, s: &mut Session) -> (r: Result<Tensor, Error>) {
        Ok(self.summary(univariate::MODE))
    }
}

} // verus!
