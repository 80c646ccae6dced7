//! Distributions on the simplex: [`Dirichlet`], and the relatives of [`Categorical`].

use vstd::prelude::*;

use super::base;
use super::base::{Distribution, Support, both, just, prefixed, unsupported};
use super::categorical;
use super::categorical::{Categorical, Choice};
use crate::autograd::graph::{Session, Tape};
use crate::autograd::ops;
use crate::autograd::ops::{count_error, on, on2};
use crate::autograd::rule::{Rule, RuleOf};
use crate::autograd::var;
use crate::autograd::var::{Traced, Var};
use crate::error::{Error, Fault};
use crate::shape;
use crate::shape::Shape;
use crate::single;
use crate::tensor;
use crate::tensor::{Tensor, Value};
use crate::term::{Binary, Fused, Scalar, Unary};
use crate::text::{append_bracketed, append_decimal};

verus! {

// -- rows ------------------------------------------------------------------------------

/// Whether a value can be scored row by row against parameters of a shape: it ends in
/// the same axis and holds a whole number of copies of them. It may put a sample axis
/// before the batch.
pub open spec fn holds_copies(value: Seq<usize>, params: Seq<usize>) -> bool {
    if shape::product(params) == 0 {
        shape::product(value) == 0
    } else {
        shape::product(value) % shape::product(params) == 0
    }
}

/// The shapes a row kernel can score, with the message for one it cannot.
pub open spec fn rows_agree(value: Seq<usize>, params: Seq<usize>, message: Seq<char>) -> Result<
    (),
    Fault,
> {
    if value.len() == 0 || value.last() != params.last() {
        Err(Fault::Shape(message))
    } else if !shape::fits(value) {
        Err(Fault::Shape(ops::count_message(value)))
    } else if !holds_copies(value, params) {
        Err(Fault::Shape(message))
    } else {
        Ok(())
    }
}

/// Check the shape of a value against the parameters of `count` elements.
pub(crate) fn check_rows(value: &Shape, params: &Shape, count: usize, message: String) -> (r: Result<
    (),
    Error,
>)
    requires
        params@.len() > 0,
        count == shape::product(params@),
    ensures
        match (r, rows_agree(value@, params@, message@)) {
            (Ok(_), Ok(_)) => true,
            (Err(e), Err(f)) => e@ == f,
            _ => false,
        },
{
    if value.rank() == 0 || value.dim_from_end(0) != params.dim_from_end(0) {
        return Err(Error::Shape(message));
    }
    match value.checked_elements() {
        None => Err(count_error(value.dims())),
        Some(n) => {
            let whole: bool = if count == 0 {
                n == 0
            } else {
                n % count == 0
            };
            if whole {
                Ok(())
            } else {
                Err(Error::Shape(message))
            }
        },
    }
}

// -- Dirichlet -------------------------------------------------------------------------

/// A Dirichlet as a mathematical value.
pub struct Simplex {
    pub concentration: Traced,
}

impl Simplex {
    pub open spec fn dims(self) -> Seq<usize> {
        self.concentration.value.dims
    }

    pub open spec fn batch(self) -> Seq<usize> {
        self.dims().drop_last()
    }

    pub open spec fn classes(self) -> usize {
        self.dims().last()
    }

    pub open spec fn axis(self) -> usize {
        (self.dims().len() - 1) as usize
    }

    pub open spec fn rows(self) -> u64 {
        shape::product(self.batch()) as u64
    }

    pub open spec fn wf(self) -> bool {
        &&& 0 < self.dims().len() <= usize::MAX
        &&& self.classes() >= 2
        &&& shape::fits(self.dims())
    }
}

/// A distribution over the probability simplex, conjugate to a categorical.
///
/// The concentration is `[..batch, k]`; a draw is `[..batch, k]` summing to one along
/// the last axis.
pub struct Dirichlet {
    concentration: Var,
    batch: Shape,
    classes: usize,
    rows: usize,
    count: usize,
}

impl View for Dirichlet {
    type V = Simplex;

    closed spec fn view(&self) -> Simplex {
        Simplex { concentration: self.concentration@ }
    }
}

pub open spec fn classes_message(classes: usize) -> Seq<char> {
    "a Dirichlet needs at least two classes, got "@ + crate::text::decimal(classes as nat)
}

/// The Dirichlet of a concentration, if there is one.
pub open spec fn simplex_of(concentration: Traced) -> Result<Simplex, Fault> {
    let d = Simplex { concentration };
    if d.dims().len() == 0 {
        Err(Fault::Shape("a Dirichlet needs a trailing class axis, got a scalar"@))
    } else if d.classes() < 2 {
        Err(Fault::Shape(classes_message(d.classes())))
    } else if !shape::fits(d.dims()) {
        Err(Fault::Shape(ops::count_message(d.dims())))
    } else {
        Ok(d)
    }
}

pub open spec fn dirichlet_message(params: Seq<usize>, value: Seq<usize>) -> Seq<char> {
    "a Dirichlet over "@ + crate::text::bracketed(params) + " cannot score a value of "@
        + crate::text::bracketed(value)
}

/// The log-density of every row of a value.
pub open spec fn dirichlet_log_prob_op(t: Tape, d: Simplex, x: Traced) -> Result<
    (Tape, Traced),
    Fault,
> {
    match rows_agree(x.value.dims, d.dims(), dirichlet_message(d.dims(), x.value.dims)) {
        Err(f) => Err(f),
        Ok(_) => Ok(
            var::record(
                t,
                tensor::fused_of(
                    Fused::DirichletLogProb,
                    seq![d.concentration.value, x.value],
                    x.value.dims.drop_last(),
                ),
                seq![x.trace, d.concentration.trace],
                RuleOf::DirichletLogProb(
                    x.trace is Some,
                    d.concentration.trace is Some,
                    x.value,
                    d.concentration.value,
                ),
            ),
        ),
    }
}

pub open spec fn dirichlet_draw(d: Simplex, shape: Seq<usize>, seed: u64) -> Value {
    tensor::fused_of(
        Fused::DirichletDraw(d.rows(), seed),
        seq![d.concentration.value],
        shape,
    )
}

pub open spec fn dirichlet_moment(d: Simplex, which: u32) -> Value {
    tensor::fused_of(Fused::DirichletMoment(which), seq![d.concentration.value], d.dims())
}

pub open spec fn dirichlet_entropy_op(t: Tape, d: Simplex) -> (Tape, Traced) {
    var::record(
        t,
        tensor::fused_of(Fused::DirichletEntropy, seq![d.concentration.value], d.batch()),
        seq![d.concentration.trace],
        RuleOf::DirichletEntropy(d.concentration.value),
    )
}

fn dirichlet_text(params: &Vec<usize>, value: &Vec<usize>) -> (r: String)
    ensures
        r@ == dirichlet_message(params@, value@),
{
    let mut text = String::new();
    text.append("a Dirichlet over ");
    append_bracketed(&mut text, params);
    text.append(" cannot score a value of ");
    append_bracketed(&mut text, value);
    proof {
        assert(text@ =~= dirichlet_message(params@, value@));
    }
    text
}

fn classes_error(classes: usize) -> (e: Error)
    ensures
        e@ == Fault::Shape(classes_message(classes)),
{
    let mut text = String::new();
    text.append("a Dirichlet needs at least two classes, got ");
    append_decimal(&mut text, classes as u64);
    proof {
        assert(text@ =~= classes_message(classes));
    }
    Error::Shape(text)
}

impl Dirichlet {
    #[verifier::type_invariant]
    closed spec fn inv(self) -> bool {
        &&& self@.wf()
        &&& self.batch@ == self@.batch()
        &&& self.classes == self@.classes()
        &&& self.rows == shape::product(self.batch@)
        &&& self.count == shape::product(self@.dims())
    }

    /// From a `[..batch, k]` concentration.
    pub fn new(concentration: Var) -> (r: Result<Self, Error>)
        ensures
            crate::error::agrees(r, simplex_of(concentration@)),
    {
        let rank: usize = concentration.rank();
        if rank == 0 {
            return Err(Error::shape("a Dirichlet needs a trailing class axis, got a scalar"));
        }
        let classes: usize = concentration.shape().dim_from_end(0);
        if classes < 2 {
            return Err(classes_error(classes));
        }
        let batch = concentration.shape().without(rank - 1);
        proof {
            assert(batch@ =~= concentration@.value.dims.drop_last());
            if shape::fits(concentration@.value.dims) {
                lemma_rows_fit(concentration@.value.dims);
            }
        }
        match (concentration.shape().checked_elements(), batch.checked_elements()) {
            (Some(count), Some(rows)) => Ok(
                Dirichlet { concentration, batch, classes, rows, count },
            ),
            _ => Err(count_error(concentration.dims())),
        }
    }

    /// How many classes the simplex has.
    pub fn classes(&self) -> (r: usize)
        ensures
            r == self@.classes(),
            r >= 2,
    {
        proof {
            use_type_invariant(self);
        }
        self.classes
    }

    /// The concentration, as given.
    pub fn concentration(&self) -> (r: &Var)
        ensures
            r@ == self@.concentration,
            self@.wf(),
    {
        proof {
            use_type_invariant(self);
        }
        &self.concentration
    }

    fn moment(&self, which: u32) -> (r: Tensor)
        ensures
            r@ == dirichlet_moment(self@, which),
    {
        Tensor::fused(
            Fused::DirichletMoment(which),
            &just(self.concentration.tensor()),
            self.concentration.shape().clone(),
        )
    }

    fn draw(&self, shape: Shape, seed: u64) -> (r: Tensor)
        ensures
            r@ == dirichlet_draw(self@, shape@, seed),
    {
        proof {
            use_type_invariant(self);
        }
        Tensor::fused(
            Fused::DirichletDraw(self.rows as u64, seed),
            &just(self.concentration.tensor()),
            shape,
        )
    }
}

/// A countable tensor with a trailing axis that is not empty has countable rows.
pub proof fn lemma_rows_fit(dims: Seq<usize>)
    requires
        dims.len() > 0,
        shape::fits(dims),
        dims.last() > 0,
    ensures
        shape::fits(dims.drop_last()),
{
    let (p, n) = (shape::product(dims.drop_last()) as int, dims.last() as int);
    assert(p * n >= p) by (nonlinear_arith)
        requires
            p >= 0,
            n >= 1,
    ;
}

impl Distribution for Dirichlet {
    open spec fn batch(&self) -> Seq<usize> {
        self@.batch()
    }

    open spec fn event(&self) -> Seq<usize> {
        seq![self@.classes()]
    }

    open spec fn support_of(&self) -> Support {
        Support::Simplex
    }

    open spec fn reparameterises(&self) -> bool {
        false
    }

    open spec fn sample_of(&self, t: Tape, seed: u64) -> Result<(Tape, Value), Fault> {
        Ok((t, dirichlet_draw(self@, self@.dims(), seed)))
    }

    open spec fn sample_n_of(&self, t: Tape, n: usize, seed: u64) -> Result<(Tape, Value), Fault> {
        Ok((t, dirichlet_draw(self@, seq![n] + self@.dims(), seed)))
    }

    open spec fn rsample_of(&self, t: Tape, seed: u64) -> Result<(Tape, Traced), Fault> {
        Err(Fault::Unsupported("a Dirichlet draw comes from a rejection sampler, whose control flow depends on the concentration; PyTorch reparameterises it by implicit differentiation of an incomplete gamma, which is not implemented here"@))
    }

    open spec fn log_prob_of(&self, t: Tape, value: Traced) -> Result<(Tape, Traced), Fault> {
        dirichlet_log_prob_op(t, self@, value)
    }

    open spec fn cdf_of(&self, value: Value) -> Result<Value, Fault> {
        Err(Fault::Unsupported("a Dirichlet is multivariate and has no scalar CDF"@))
    }

    open spec fn icdf_of(&self, t: Tape, q: Traced) -> Result<(Tape, Traced), Fault> {
        Err(Fault::Unsupported("a Dirichlet is multivariate and has no scalar quantile"@))
    }

    open spec fn entropy_of(&self, t: Tape) -> Result<(Tape, Traced), Fault> {
        Ok(dirichlet_entropy_op(t, self@))
    }

    open spec fn mean_of(&self, t: Tape) -> Result<(Tape, Value), Fault> {
        Ok((t, dirichlet_moment(self@, 0)))
    }

    open spec fn variance_of(&self, t: Tape) -> Result<(Tape, Value), Fault> {
        Ok((t, dirichlet_moment(self@, 1)))
    }

    open spec fn mode_of(&self, t: Tape) -> Result<(Tape, Value), Fault> {
        Ok((t, dirichlet_moment(self@, 2)))
    }

    fn batch_shape(&self) -> (r: Shape) {
        proof {
            use_type_invariant(self);
        }
        self.batch.clone()
    }

    fn event_shape(&self) -> (r: Shape) {
        proof {
            use_type_invariant(self);
        }
        let mut dims: Vec<usize> = Vec::new();
        dims.push(self.classes);
        proof {
            assert(dims@ =~= seq![self@.classes()]);
        }
        Shape::new(dims)
    }

    fn support(&self) -> (r: Support) {
        Support::Simplex
    }

    fn has_rsample(&self) -> (r: bool) {
        false
    }

    fn sample(&self, s: &mut Session, seed: u64) -> (r: Result<Tensor, Error>) {
        Ok(self.draw(self.concentration.shape().clone(), seed))
    }

    fn sample_n(&self, s: &mut Session, n: usize, seed: u64) -> (r: Result<Tensor, Error>) {
        Ok(self.draw(prefixed(n, self.concentration.dims()), seed))
    }

    fn rsample(&self, s: &mut Session, seed: u64) -> (r: Result<Var, Error>) {
        Err(unsupported("a Dirichlet draw comes from a rejection sampler, whose control flow depends on the concentration; PyTorch reparameterises it by implicit differentiation of an incomplete gamma, which is not implemented here"))
    }

    fn log_prob(&self, s: &mut Session, value: &Var) -> (r: Result<Var, Error>) {
        proof {
            use_type_invariant(self);
        }
        check_rows(
            value.shape(),
            self.concentration.shape(),
            self.count,
            dirichlet_text(self.concentration.dims(), value.dims()),
        )?;
        let out_shape = value.shape().without(value.rank() - 1);
        proof {
            assert(out_shape@ =~= value@.value.dims.drop_last());
        }
        let out = Tensor::fused(
            Fused::DirichletLogProb,
            &both(self.concentration.tensor(), value.tensor()),
            out_shape,
        );
        let rule: Rule = RuleOf::DirichletLogProb(
            value.is_tracked(),
            self.concentration.is_tracked(),
            value.tensor().clone(),
            self.concentration.tensor().clone(),
        );
        Ok(Var::record(s, out, &on2(value, &self.concentration), rule))
    }

    fn cdf(&self, value: &Tensor) -> (r: Result<Tensor, Error>) {
        Err(unsupported("a Dirichlet is multivariate and has no scalar CDF"))
    }

    fn icdf(&self, s: &mut Session, q: &Var) -> (r: Result<Var, Error>) {
        Err(unsupported("a Dirichlet is multivariate and has no scalar quantile"))
    }

    fn entropy(&self, s: &mut Session) -> (r: Result<Var, Error>) {
        proof {
            use_type_invariant(self);
        }
        let out = Tensor::fused(
            Fused::DirichletEntropy,
            &just(self.concentration.tensor()),
            self.batch.clone(),
        );
        let rule: Rule = RuleOf::DirichletEntropy(self.concentration.tensor().clone());
        Ok(Var::record(s, out, &on(&self.concentration), rule))
    }

    fn mean(&self, s: &mut Session) -> (r: Result<Tensor, Error>) {
        Ok(self.moment(0))
    }

    fn variance(&self, s: &mut Session) -> (r: Result<Tensor, Error>) {
        Ok(self.moment(1))
    }

    fn mode(&self, s: &mut Session) -> (r: Result<Tensor, Error>) {
        Ok(self.moment(2))
    }
}

// -- one-hot categoricals --------------------------------------------------------------

/// [`Categorical`] whose draws are one-hot vectors rather than indices. Everything but
/// the encoding is delegated.
pub struct OneHotCategorical {
    inner: Categorical,
}

impl View for OneHotCategorical {
    type V = Choice;

    closed spec fn view(&self) -> Choice {
        self.inner@
    }
}

/// A draw, one-hot encoded.
pub open spec fn hard_draw(c: Choice, seed: u64) -> Value {
    tensor::one_hot_of(categorical::plain_draw(c, seed), c.classes())
}

/// A hard draw whose gradient is that of the probabilities: the difference between the
/// two is held constant.
pub open spec fn straight_through_op(t: Tape, c: Choice, seed: u64) -> Result<
    (Tape, Traced),
    Fault,
> {
    ops::next(
        ops::softmax_op(t, c.logits, c.axis()),
        |u: Tape, p: Traced|
            match tensor::binary_of(Binary::Sub, hard_draw(c, seed), p.value) {
                Err(f) => Err(f),
                Ok(offset) => ops::binary_op(u, Binary::Add, p, ops::untracked(offset)),
            },
    )
}

/// The sum of the value times the log-probabilities.
pub open spec fn one_hot_log_prob_op(t: Tape, c: Choice, x: Traced) -> Result<
    (Tape, Traced),
    Fault,
> {
    ops::next(
        ops::log_softmax_op(t, c.logits, c.axis()),
        |u: Tape, l: Traced|
            ops::next(
                ops::binary_op(u, Binary::Mul, x, l),
                |w: Tape, v: Traced| ops::sum_away_op(w, v, c.axis()),
            ),
    )
}

/// `p (1 - p)`.
pub open spec fn bernoulli_variance(p: Value) -> Result<Value, Fault> {
    tensor::binary_of(
        Binary::Mul,
        p,
        tensor::unary_of(Unary::RsubScalar(Scalar::Int(1)), p),
    )
}

fn variance_of_choice(c: &Categorical) -> (r: Result<Tensor, Error>)
    ensures
        crate::error::agrees(r, bernoulli_variance(categorical::probs_of(c@))),
{
    let p = c.probs();
    Tensor::binary(Binary::Mul, &p, &p.unary(Unary::RsubScalar(Scalar::Int(1))))
}

impl OneHotCategorical {
    /// From unnormalised logits, `[..batch, classes]`.
    pub fn from_logits(logits: Var) -> (r: Result<Self, Error>)
        ensures
            crate::error::agrees(r, categorical::choice_of(logits@)),
    {
        let inner = Categorical::from_logits(logits)?;
        Ok(OneHotCategorical { inner })
    }

    /// From probabilities.
    pub fn from_probs(s: &mut Session, probs: &Var) -> (r: Result<Self, Error>)
        ensures
            crate::error::agrees(
                r,
                categorical::choice_of(ops::pointwise_op(old(s)@, Unary::Log, probs@).1),
            ),
            final(s)@ == ops::pointwise_op(old(s)@, Unary::Log, probs@).0,
    {
        let inner = Categorical::from_probs(s, probs)?;
        Ok(OneHotCategorical { inner })
    }

    /// The categorical underneath.
    pub fn categorical(&self) -> (r: &Categorical)
        ensures
            r@ == self@,
    {
        &self.inner
    }

    /// A draw, one-hot encoded.
    pub fn sample_one_hot(&self, seed: u64) -> (r: Tensor)
        ensures
            r@ == hard_draw(self@, seed),
    {
        let ids = self.inner.sample_ids(seed);
        self.inner.one_hot(&ids)
    }

    /// A draw, one-hot encoded, with a straight-through gradient: the value is the
    /// hard vector, the gradient that of the probabilities.
    pub fn sample_straight_through(&self, s: &mut Session, seed: u64) -> (r: Result<Var, Error>)
        ensures
            ops::same_value(r, final(s)@, straight_through_op(old(s)@, self@, seed)),
    {
        let hard = self.sample_one_hot(seed);
        let axis: usize = self.inner.axis();
        let probs = self.inner.logits().softmax(s, axis)?;
        let offset = Var::constant(Tensor::binary(Binary::Sub, &hard, probs.tensor())?);
        probs.add(s, &offset)
    }
}

impl Distribution for OneHotCategorical {
    open spec fn batch(&self) -> Seq<usize> {
        self@.batch()
    }

    open spec fn event(&self) -> Seq<usize> {
        seq![self@.classes()]
    }

    open spec fn support_of(&self) -> Support {
        Support::Simplex
    }

    open spec fn reparameterises(&self) -> bool {
        false
    }

    open spec fn sample_of(&self, t: Tape, seed: u64) -> Result<(Tape, Value), Fault> {
        Ok((t, hard_draw(self@, seed)))
    }

    open spec fn sample_n_of(&self, t: Tape, n: usize, seed: u64) -> Result<(Tape, Value), Fault> {
        Ok(
            (
                t,
                tensor::one_hot_of(
                    categorical::drawn(self@, seq![n] + self@.batch(), single::ONE, seed),
                    self@.classes(),
                ),
            ),
        )
    }

    open spec fn rsample_of(&self, t: Tape, seed: u64) -> Result<(Tape, Traced), Fault> {
        Err(Fault::Unsupported("a one-hot draw is discrete; use RelaxedOneHotCategorical, or `sample_straight_through` for the biased estimator"@))
    }

    open spec fn log_prob_of(&self, t: Tape, value: Traced) -> Result<(Tape, Traced), Fault> {
        one_hot_log_prob_op(t, self@, value)
    }

    open spec fn cdf_of(&self, value: Value) -> Result<Value, Fault> {
        Err(Fault::Unsupported("a categorical has no CDF: its classes are unordered"@))
    }

    open spec fn icdf_of(&self, t: Tape, q: Traced) -> Result<(Tape, Traced), Fault> {
        Err(Fault::Unsupported("a categorical has no quantile: its classes are unordered"@))
    }

    open spec fn entropy_of(&self, t: Tape) -> Result<(Tape, Traced), Fault> {
        Ok(categorical::entropy_op(t, self@))
    }

    open spec fn mean_of(&self, t: Tape) -> Result<(Tape, Value), Fault> {
        Ok((t, categorical::probs_of(self@)))
    }

    open spec fn variance_of(&self, t: Tape) -> Result<(Tape, Value), Fault> {
        base::still(t, bernoulli_variance(categorical::probs_of(self@)))
    }

    open spec fn mode_of(&self, t: Tape) -> Result<(Tape, Value), Fault> {
        Ok((t, tensor::one_hot_of(categorical::mode_ids_of(self@), self@.classes())))
    }

    fn batch_shape(&self) -> (r: Shape) {
        self.inner.batch().clone()
    }

    fn event_shape(&self) -> (r: Shape) {
        let mut dims: Vec<usize> = Vec::new();
        dims.push(self.inner.classes());
        proof {
            assert(dims@ =~= seq![self@.classes()]);
        }
        Shape::new(dims)
    }

    fn support(&self) -> (r: Support) {
        Support::Simplex
    }

    fn has_rsample(&self) -> (r: bool) {
        false
    }

    fn sample(&self, s: &mut Session, seed: u64) -> (r: Result<Tensor, Error>) {
        Ok(self.sample_one_hot(seed))
    }

    fn sample_n(&self, s: &mut Session, n: usize, seed: u64) -> (r: Result<Tensor, Error>) {
        let ids = self.inner.sample_ids_n(n, seed);
        Ok(self.inner.one_hot(&ids))
    }

    fn rsample(&self, s: &mut Session, seed: u64) -> (r: Result<Var, Error>) {
        Err(unsupported("a one-hot draw is discrete; use RelaxedOneHotCategorical, or `sample_straight_through` for the biased estimator"))
    }

    fn log_prob(&self, s: &mut Session, value: &Var) -> (r: Result<Var, Error>) {
        let axis: usize = self.inner.axis();
        let l = self.inner.logits().log_softmax(s, axis)?;
        let v = value.mul(s, &l)?;
        v.sum_away(s, axis)
    }

    fn cdf(&self, value: &Tensor) -> (r: Result<Tensor, Error>) {
        Err(unsupported("a categorical has no CDF: its classes are unordered"))
    }

    fn icdf(&self, s: &mut Session, q: &Var) -> (r: Result<Var, Error>) {
        Err(unsupported("a categorical has no quantile: its classes are unordered"))
    }

    fn entropy(&self, s: &mut Session) -> (r: Result<Var, Error>) {
        self.inner.entropy(s)
    }

    fn mean(&self, s: &mut Session) -> (r: Result<Tensor, Error>) {
        Ok(self.inner.probs())
    }

    fn variance(&self, s: &mut Session) -> (r: Result<Tensor, Error>) {
        variance_of_choice(&self.inner)
    }

    fn mode(&self, s: &mut Session) -> (r: Result<Tensor, Error>) {
        let ids = self.inner.mode_ids();
        Ok(self.inner.one_hot(&ids))
    }
}

// -- the Gumbel softmax ----------------------------------------------------------------

/// A relaxed categorical as a mathematical value.
pub struct Relaxed {
    pub logits: Traced,
    pub temperature: u32,
}

impl Relaxed {
    pub open spec fn batch(self) -> Seq<usize> {
        self.logits.value.dims.drop_last()
    }

    pub open spec fn classes(self) -> usize {
        self.logits.value.dims.last()
    }

    pub open spec fn axis(self) -> usize {
        (self.logits.value.dims.len() - 1) as usize
    }

    pub open spec fn wf(self) -> bool {
        &&& 0 < self.logits.value.dims.len() <= usize::MAX
        &&& single::below(single::ZERO, self.temperature)
    }
}

/// A differentiable stand-in for a one-hot draw.
///
/// A sample is the softmax of the logits plus Gumbel noise, divided by the
/// temperature: a point inside the simplex that approaches a vertex as the temperature
/// falls. The noise does not depend on the logits, so a sample has a path derivative.
pub struct RelaxedOneHotCategorical {
    logits: Var,
    temperature: u32,
    batch: Shape,
}

impl View for RelaxedOneHotCategorical {
    type V = Relaxed;

    closed spec fn view(&self) -> Relaxed {
        Relaxed { logits: self.logits@, temperature: self.temperature }
    }
}

/// The relaxation at a temperature; one that is not positive, or not a number, is
/// refused.
pub open spec fn relaxed_of(temperature: u32, logits: Traced) -> Result<Relaxed, Fault> {
    if !single::below(single::ZERO, temperature) {
        Err(Fault::Config("a relaxation needs a positive temperature"@))
    } else if logits.value.dims.len() == 0 {
        Err(Fault::Shape("a relaxed categorical needs a trailing class axis"@))
    } else {
        Ok(Relaxed { logits, temperature })
    }
}

/// Standard Gumbel noise: `-ln(-ln u)` for the uniform number of every element.
pub open spec fn noise_of(shape: Seq<usize>, seed: u64) -> Value {
    tensor::fused_of(Fused::GumbelNoise(seed), Seq::empty(), shape)
}

/// Noise added to logits, divided by a temperature and normalised along an axis.
pub open spec fn softened_op(t: Tape, logits: Traced, noise: Value, temperature: u32, axis: usize) -> Result<
    (Tape, Traced),
    Fault,
> {
    ops::next(
        ops::binary_op(t, Binary::Add, logits, ops::untracked(noise)),
        |t1: Tape, v: Traced|
            {
                let (t2, w) = ops::pointwise_op(
                    t1,
                    Unary::MulScalar(Scalar::BitsInverse(temperature)),
                    v,
                );
                ops::softmax_op(t2, w, axis)
            },
    )
}

pub open spec fn relaxed_rsample_op(t: Tape, c: Relaxed, seed: u64) -> Result<
    (Tape, Traced),
    Fault,
> {
    softened_op(t, c.logits, noise_of(c.logits.value.dims, seed), c.temperature, c.axis())
}

/// One block of noise for every draw, and one softmax.
pub open spec fn relaxed_sample_n_op(t: Tape, c: Relaxed, n: usize, seed: u64) -> Result<
    (Tape, Traced),
    Fault,
> {
    let dims = c.logits.value.dims;
    ops::next(
        ops::reshape_op(t, c.logits, dims.insert(0, 1usize)),
        |t1: Tape, one: Traced|
            ops::next(
                ops::expand_op(t1, one, seq![n] + dims),
                |t2: Tape, wide: Traced|
                    softened_op(
                        t2,
                        wide,
                        noise_of(seq![n] + dims, seed),
                        c.temperature,
                        dims.len() as usize,
                    ),
            ),
    )
}

/// `ln gamma(k) + (k - 1) ln t + sum(l - t ln y) - k lse(l - t ln y) - sum(ln y)`.
pub open spec fn relaxed_log_prob_op(t: Tape, c: Relaxed, y: Traced) -> Result<
    (Tape, Traced),
    Fault,
> {
    let (t1, ly) = ops::pointwise_op(t, Unary::Log, y);
    let (t2, tempered) = ops::pointwise_op(t1, Unary::MulScalar(Scalar::Bits(c.temperature)), ly);
    ops::next(
        ops::binary_op(t2, Binary::Sub, c.logits, tempered),
        |t3: Tape, score: Traced|
            ops::next(
                ops::logsumexp_op(t3, score, c.axis()),
                |t4: Tape, lse: Traced|
                    ops::next(
                        ops::binary_op(t4, Binary::Sub, score, lse),
                        |t5: Tape, normalised: Traced|
                            ops::next(
                                ops::sum_away_op(t5, normalised, c.axis()),
                                |t6: Tape, total: Traced|
                                    ops::next(
                                        ops::sum_away_op(t6, ly, c.axis()),
                                        |t7: Tape, spread: Traced|
                                            ops::next(
                                                ops::binary_op(t7, Binary::Sub, total, spread),
                                                |t8: Tape, v: Traced|
                                                    Ok(
                                                        ops::pointwise_op(
                                                            t8,
                                                            Unary::AddScalar(
                                                                Scalar::RelaxedScale(
                                                                    c.classes() as u64,
                                                                    c.temperature,
                                                                ),
                                                            ),
                                                            v,
                                                        ),
                                                    ),
                                            ),
                                    ),
                            ),
                    ),
            ),
    )
}

/// A tensor of standard Gumbel noise.
///
/// Adding it to a row of logits and taking the largest is a categorical draw; taking a
/// softmax instead is [`RelaxedOneHotCategorical`].
pub fn gumbel_noise(shape: Shape, seed: u64) -> (r: Tensor)
    ensures
        r@ == noise_of(shape@, seed),
{
    let none: Vec<Tensor> = Vec::new();
    proof {
        assert(tensor::values(none@) =~= Seq::<Value>::empty());
    }
    Tensor::fused(Fused::GumbelNoise(seed), &none, shape)
}

impl RelaxedOneHotCategorical {
    #[verifier::type_invariant]
    closed spec fn inv(self) -> bool {
        self@.wf() && self.batch@ == self@.batch()
    }

    /// From a temperature and unnormalised logits.
    pub fn new(temperature: u32, logits: Var) -> (r: Result<Self, Error>)
        ensures
            crate::error::agrees(r, relaxed_of(temperature, logits@)),
    {
        // Negated, so that a temperature that is not a number is refused.
        if !single::lt(single::ZERO, temperature) {
            return Err(Error::config("a relaxation needs a positive temperature"));
        }
        let rank: usize = logits.rank();
        if rank == 0 {
            return Err(Error::shape("a relaxed categorical needs a trailing class axis"));
        }
        let batch = logits.shape().without(rank - 1);
        proof {
            assert(batch@ =~= logits@.value.dims.drop_last());
        }
        Ok(RelaxedOneHotCategorical { logits, temperature, batch })
    }

    /// The logits, as given.
    pub fn logits(&self) -> (r: &Var)
        ensures
            r@ == self@.logits,
    {
        &self.logits
    }

    /// The temperature.
    pub fn temperature(&self) -> (r: u32)
        ensures
            r == self@.temperature,
    {
        self.temperature
    }

    fn softened(s: &mut Session, logits: &Var, noise: Tensor, temperature: u32, axis: usize) -> (r: Result<
        Var,
        Error,
    >)
        ensures
            ops::same_value(
                r,
                final(s)@,
                softened_op(old(s)@, logits@, noise@, temperature, axis),
            ),
    {
        let noisy = logits.add(s, &Var::constant(noise))?;
        let scaled = noisy.mul_scalar(s, Scalar::BitsInverse(temperature));
        scaled.softmax(s, axis)
    }
}

impl Distribution for RelaxedOneHotCategorical {
    open spec fn batch(&self) -> Seq<usize> {
        self@.batch()
    }

    open spec fn event(&self) -> Seq<usize> {
        seq![self@.classes()]
    }

    open spec fn support_of(&self) -> Support {
        Support::Simplex
    }

    open spec fn reparameterises(&self) -> bool {
        true
    }

    open spec fn sample_of(&self, t: Tape, seed: u64) -> Result<(Tape, Value), Fault> {
        base::value_of(relaxed_rsample_op(t, self@, seed))
    }

    open spec fn sample_n_of(&self, t: Tape, n: usize, seed: u64) -> Result<(Tape, Value), Fault> {
        base::value_of(relaxed_sample_n_op(t, self@, n, seed))
    }

    open spec fn rsample_of(&self, t: Tape, seed: u64) -> Result<(Tape, Traced), Fault> {
        relaxed_rsample_op(t, self@, seed)
    }

    open spec fn log_prob_of(&self, t: Tape, value: Traced) -> Result<(Tape, Traced), Fault> {
        relaxed_log_prob_op(t, self@, value)
    }

    open spec fn cdf_of(&self, value: Value) -> Result<Value, Fault> {
        Err(Fault::Unsupported("a relaxed categorical is multivariate and has no scalar CDF"@))
    }

    open spec fn icdf_of(&self, t: Tape, q: Traced) -> Result<(Tape, Traced), Fault> {
        Err(Fault::Unsupported("a relaxed categorical is multivariate and has no scalar quantile"@))
    }

    open spec fn entropy_of(&self, t: Tape) -> Result<(Tape, Traced), Fault> {
        Err(Fault::Unsupported("a relaxed categorical has no closed-form entropy"@))
    }

    open spec fn mean_of(&self, t: Tape) -> Result<(Tape, Value), Fault> {
        Err(Fault::Unsupported("a relaxed categorical has no closed-form mean"@))
    }

    open spec fn variance_of(&self, t: Tape) -> Result<(Tape, Value), Fault> {
        Err(Fault::Unsupported("a relaxed categorical has no closed-form variance"@))
    }

    open spec fn mode_of(&self, t: Tape) -> Result<(Tape, Value), Fault> {
        Err(Fault::Unsupported("a relaxed categorical has no closed-form mode"@))
    }

    fn batch_shape(&self) -> (r: Shape) {
        proof {
            use_type_invariant(self);
        }
        self.batch.clone()
    }

    fn event_shape(&self) -> (r: Shape) {
        proof {
            use_type_invariant(self);
        }
        let mut dims: Vec<usize> = Vec::new();
        dims.push(self.logits.shape().dim_from_end(0));
        proof {
            assert(dims@ =~= seq![self@.classes()]);
        }
        Shape::new(dims)
    }

    fn support(&self) -> (r: Support) {
        Support::Simplex
    }

    fn has_rsample(&self) -> (r: bool) {
        true
    }

    fn sample(&self, s: &mut Session, seed: u64) -> (r: Result<Tensor, Error>) {
        let v = self.rsample(s, seed)?;
        Ok(v.into_tensor())
    }

    fn sample_n(&self, s: &mut Session, n: usize, seed: u64) -> (r: Result<Tensor, Error>) {
        proof {
            use_type_invariant(self);
        }
        let shape = prefixed(n, self.logits.dims());
        let noise = gumbel_noise(shape.clone(), seed);
        let one = self.logits.unsqueeze(s, 0)?;
        let wide = one.expand(s, &shape)?;
        let v = RelaxedOneHotCategorical::softened(
            s,
            &wide,
            noise,
            self.temperature,
            self.logits.rank(),
        )?;
        Ok(v.into_tensor())
    }

    fn rsample(&self, s: &mut Session, seed: u64) -> (r: Result<Var, Error>) {
        proof {
            use_type_invariant(self);
        }
        let noise = gumbel_noise(self.logits.shape().clone(), seed);
        RelaxedOneHotCategorical::softened(
            s,
            &self.logits,
            noise,
            self.temperature,
            self.logits.rank() - 1,
        )
    }

    fn log_prob(&self, s: &mut Session, value: &Var) -> (r: Result<Var, Error>) {
        proof {
            use_type_invariant(self);
        }
        let axis: usize = self.logits.rank() - 1;
        let classes: usize = self.logits.shape().dim_from_end(0);
        let ly = value.log(s);
        let tempered = ly.mul_scalar(s, Scalar::Bits(self.temperature));
        let score = self.logits.sub(s, &tempered)?;
        let lse = score.logsumexp(s, axis)?;
        let normalised = score.sub(s, &lse)?;
        let total = normalised.sum_away(s, axis)?;
        let spread = ly.sum_away(s, axis)?;
        let v = total.sub(s, &spread)?;
        Ok(v.add_scalar(s, Scalar::RelaxedScale(classes as u64, self.temperature)))
    }

    fn cdf(&self, value: &Tensor) -> (r: Result<Tensor, Error>) {
        Err(unsupported("a relaxed categorical is multivariate and has no scalar CDF"))
    }

    fn icdf(&self, s: &mut Session, q: &Var) -> (r: Result<Var, Error>) {
        Err(unsupported("a relaxed categorical is multivariate and has no scalar quantile"))
    }

    fn entropy(&self, s: &mut Session) -> (r: Result<Var, Error>) {
        Err(unsupported("a relaxed categorical has no closed-form entropy"))
    }

    fn mean(&self, s: &mut Session) -> (r: Result<Tensor, Error>) {
        Err(unsupported("a relaxed categorical has no closed-form mean"))
    }

    fn variance(&self, s: &mut Session) -> (r: Result<Tensor, Error>) {
        Err(unsupported("a relaxed categorical has no closed-form variance"))
    }

    fn mode(&self, s: &mut Session) -> (r: Result<Tensor, Error>) {
        Err(unsupported("a relaxed categorical has no closed-form mode"))
    }
}

// -- multinomial -----------------------------------------------------------------------

/// A multinomial as a mathematical value.
pub struct Trials {
    pub each: Choice,
    pub count: usize,
}

/// Successes of each class in a number of independent categorical trials.
///
/// Sampled by the chain of conditional binomials, which is the multinomial's own
/// factorisation: it costs one binomial draw per class rather than one categorical
/// draw per trial.
pub struct Multinomial {
    inner: Categorical,
    total_count: usize,
}

impl View for Multinomial {
    type V = Trials;

    closed spec fn view(&self) -> Trials {
        Trials { each: self.inner@, count: self.total_count }
    }
}

/// Counts of a shape whose trailing axes are the logits'; row `i` reads the logits of
/// row `i` modulo the batch.
pub open spec fn multinomial_draw(m: Trials, shape: Seq<usize>, seed: u64) -> Value {
    tensor::fused_of(
        Fused::MultinomialDraw(m.count as u64, m.each.rows(), seed),
        seq![m.each.logits.value],
        shape,
    )
}

/// The log-mass of one row of counts per row of logits.
pub open spec fn multinomial_log_prob(m: Trials, counts: Value) -> Value {
    tensor::fused_of(
        Fused::MultinomialLogProb(m.count as u64),
        seq![m.each.logits.value, counts],
        m.each.batch(),
    )
}

pub open spec fn times_trials(m: Trials, v: Value) -> Value {
    tensor::unary_of(Unary::MulScalar(Scalar::Count(m.count as u64)), v)
}

impl Multinomial {
    /// From a trial count and unnormalised logits.
    pub fn from_logits(total_count: usize, logits: Var) -> (r: Result<Self, Error>)
        ensures
            match (r, categorical::choice_of(logits@)) {
                (Ok(m), Ok(c)) => m@ == (Trials { each: c, count: total_count }),
                (Err(e), Err(f)) => e@ == f,
                _ => false,
            },
    {
        let inner = Categorical::from_logits(logits)?;
        Ok(Multinomial { inner, total_count })
    }

    /// How many trials each draw runs.
    pub fn total_count(&self) -> (r: usize)
        ensures
            r == self@.count,
    {
        self.total_count
    }

    /// The categorical each trial draws from.
    pub fn categorical(&self) -> (r: &Categorical)
        ensures
            r@ == self@.each,
    {
        &self.inner
    }

    fn draw(&self, shape: Shape, seed: u64) -> (r: Tensor)
        ensures
            r@ == multinomial_draw(self@, shape@, seed),
    {
        let rows: usize = self.inner.rows();
        Tensor::fused(
            Fused::MultinomialDraw(self.total_count as u64, rows as u64, seed),
            &just(self.inner.logits().tensor()),
            shape,
        )
    }
}

impl Distribution for Multinomial {
    open spec fn batch(&self) -> Seq<usize> {
        self@.each.batch()
    }

    open spec fn event(&self) -> Seq<usize> {
        seq![self@.each.classes()]
    }

    open spec fn support_of(&self) -> Support {
        Support::BoundedCounting
    }

    open spec fn reparameterises(&self) -> bool {
        false
    }

    open spec fn sample_of(&self, t: Tape, seed: u64) -> Result<(Tape, Value), Fault> {
        Ok((t, multinomial_draw(self@, self@.each.logits.value.dims, seed)))
    }

    open spec fn sample_n_of(&self, t: Tape, n: usize, seed: u64) -> Result<(Tape, Value), Fault> {
        Ok((t, multinomial_draw(self@, seq![n] + self@.each.logits.value.dims, seed)))
    }

    open spec fn rsample_of(&self, t: Tape, seed: u64) -> Result<(Tape, Traced), Fault> {
        Err(Fault::Unsupported("multinomial counts are discrete"@))
    }

    open spec fn log_prob_of(&self, t: Tape, value: Traced) -> Result<(Tape, Traced), Fault> {
        Ok((t, ops::untracked(multinomial_log_prob(self@, value.value))))
    }

    open spec fn cdf_of(&self, value: Value) -> Result<Value, Fault> {
        Err(Fault::Unsupported("a multinomial is multivariate and has no scalar CDF"@))
    }

    open spec fn icdf_of(&self, t: Tape, q: Traced) -> Result<(Tape, Traced), Fault> {
        Err(Fault::Unsupported("a multinomial is multivariate and has no scalar quantile"@))
    }

    open spec fn entropy_of(&self, t: Tape) -> Result<(Tape, Traced), Fault> {
        Err(Fault::Unsupported("a multinomial has no closed-form entropy"@))
    }

    open spec fn mean_of(&self, t: Tape) -> Result<(Tape, Value), Fault> {
        Ok((t, times_trials(self@, categorical::probs_of(self@.each))))
    }

    open spec fn variance_of(&self, t: Tape) -> Result<(Tape, Value), Fault> {
        match bernoulli_variance(categorical::probs_of(self@.each)) {
            Err(f) => Err(f),
            Ok(v) => Ok((t, times_trials(self@, v))),
        }
    }

    open spec fn mode_of(&self, t: Tape) -> Result<(Tape, Value), Fault> {
        Err(Fault::Unsupported("a multinomial's mode has no closed form"@))
    }

    fn batch_shape(&self) -> (r: Shape) {
        self.inner.batch().clone()
    }

    fn event_shape(&self) -> (r: Shape) {
        let mut dims: Vec<usize> = Vec::new();
        dims.push(self.inner.classes());
        proof {
            assert(dims@ =~= seq![self@.each.classes()]);
        }
        Shape::new(dims)
    }

    fn support(&self) -> (r: Support) {
        Support::BoundedCounting
    }

    fn has_rsample(&self) -> (r: bool) {
        false
    }

    fn sample(&self, s: &mut Session, seed: u64) -> (r: Result<Tensor, Error>) {
        Ok(self.draw(self.inner.logits().shape().clone(), seed))
    }

    fn sample_n(&self, s: &mut Session, n: usize, seed: u64) -> (r: Result<Tensor, Error>) {
        Ok(self.draw(prefixed(n, self.inner.logits().dims()), seed))
    }

    fn rsample(&self, s: &mut Session, seed: u64) -> (r: Result<Var, Error>) {
        Err(unsupported("multinomial counts are discrete"))
    }

    fn log_prob(&self, s: &mut Session, value: &Var) -> (r: Result<Var, Error>) {
        let out = Tensor::fused(
            Fused::MultinomialLogProb(self.total_count as u64),
            &both(self.inner.logits().tensor(), value.tensor()),
            self.inner.batch().clone(),
        );
        Ok(Var::constant(out))
    }

    fn cdf(&self, value: &Tensor) -> (r: Result<Tensor, Error>) {
        Err(unsupported("a multinomial is multivariate and has no scalar CDF"))
    }

    fn icdf(&self, s: &mut Session, q: &Var) -> (r: Result<Var, Error>) {
        Err(unsupported("a multinomial is multivariate and has no scalar quantile"))
    }

    fn entropy(&self, s: &mut Session) -> (r: Result<Var, Error>) {
        Err(unsupported("a multinomial has no closed-form entropy"))
    }

    fn mean(&self, s: &mut Session) -> (r: Result<Tensor, Error>) {
        Ok(
            self.inner.probs().unary(Unary::MulScalar(Scalar::Count(self.total_count as u64))),
        )
    }

    fn variance(&self, s: &mut Session) -> (r: Result<Tensor, Error>) {
        let v = variance_of_choice(&self.inner)?;
        Ok(v.unary(Unary::MulScalar(Scalar::Count(self.total_count as u64))))
    }

    fn mode(&self, s: &mut Session) -> (r: Result<Tensor, Error>) {
        Err(unsupported("a multinomial's mode has no closed form"))
    }
}

} // verus!
