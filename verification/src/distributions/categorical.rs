//! The distribution over the classes of a row.
//!
//! Every kernel here owns one row of classes at a time, because the normaliser of a
//! row is a sum over its last axis. The logits are kept as given: every kernel
//! subtracts a row's maximum anyway, so normalising them first would change nothing.

use vstd::prelude::*;

use super::base;
use super::base::{Distribution, Support, both, just, one_long, prefixed, unsupported};
use crate::autograd::graph::{Session, Tape};
use crate::autograd::ops;
use crate::autograd::ops::{count_error, on};
use crate::autograd::rule::{Rule, RuleOf};
use crate::autograd::var;
use crate::autograd::var::{Traced, Var};
use crate::error::{Error, Fault};
use crate::shape;
use crate::shape::Shape;
use crate::single;
use crate::tensor;
use crate::tensor::{IdTensor, IdValue, Tensor, Value};
use crate::term::{Fused, Scalar, Unary};
use crate::text::{append_bracketed, append_decimal};

verus! {

/// A distribution over the last axis of a tensor of logits, as a mathematical value:
/// the logits say everything.
pub struct Choice {
    pub logits: Traced,
}

impl Choice {
    /// Every axis but the last.
    pub open spec fn batch(self) -> Seq<usize> {
        self.logits.value.dims.drop_last()
    }

    pub open spec fn classes(self) -> usize {
        self.logits.value.dims.last()
    }

    /// The last axis.
    pub open spec fn axis(self) -> usize {
        (self.logits.value.dims.len() - 1) as usize
    }

    /// The number of rows of logits.
    pub open spec fn rows(self) -> u64 {
        shape::product(self.batch()) as u64
    }

    /// A class axis that is not empty, and a countable batch.
    pub open spec fn wf(self) -> bool {
        &&& self.logits.value.dims.len() > 0
        &&& self.logits.value.dims.len() <= usize::MAX
        &&& self.classes() > 0
        &&& shape::fits(self.batch())
    }
}

/// A distribution over classes, given by unnormalised logits.
///
/// The last axis of the logits is the classes; every axis before it is the batch. A
/// draw is an index, not a one-hot vector.
pub struct Categorical {
    logits: Var,
    batch: Shape,
    classes: usize,
    rows: usize,
}

impl View for Categorical {
    type V = Choice;

    closed spec fn view(&self) -> Choice {
        Choice { logits: self.logits@ }
    }
}

impl Clone for Categorical {
    fn clone(&self) -> (r: Self)
        ensures
            r@ == self@,
    {
        proof {
            use_type_invariant(self);
        }
        Categorical {
            logits: self.logits.clone(),
            batch: self.batch.clone(),
            classes: self.classes,
            rows: self.rows,
        }
    }
}

/// The distribution of given logits, if there is one.
pub open spec fn choice_of(logits: Traced) -> Result<Choice, Fault> {
    let c = Choice { logits };
    if logits.value.dims.len() == 0 {
        Err(Fault::Shape("a categorical needs a trailing class axis, got a scalar"@))
    } else if c.classes() == 0 {
        Err(Fault::Shape("a categorical over an empty class axis has no support"@))
    } else if !shape::fits(c.batch()) {
        Err(Fault::Shape(ops::count_message(c.batch())))
    } else {
        Ok(c)
    }
}

pub open spec fn debug_text(c: Choice) -> Seq<char> {
    "Categorical("@ + crate::text::bracketed(c.batch()) + " over "@ + crate::text::decimal(
        c.classes() as nat,
    ) + ")"@
}

pub open spec fn actions_message(c: Choice, got: Seq<usize>) -> Seq<char> {
    "expected "@ + crate::text::bracketed(c.batch()) + " actions for a "@ + debug_text(c)
        + ", got "@ + crate::text::bracketed(got)
}

/// The normalised probabilities.
pub open spec fn probs_of(c: Choice) -> Value {
    tensor::fused_of(Fused::RowProbs, seq![c.logits.value], c.logits.value.dims)
}

/// Whether a draw at a temperature takes the most likely class.
pub open spec fn is_greedy(temperature: u32) -> bool {
    single::equals(temperature, single::ZERO)
}

/// What the logits are multiplied by.
pub open spec fn sharpness(temperature: u32) -> Scalar {
    if is_greedy(temperature) {
        Scalar::Int(1)
    } else {
        Scalar::BitsInverse(temperature)
    }
}

/// One class per row of a shape whose trailing axes are the batch: row `i` reads the
/// logits of row `i` modulo the batch.
pub open spec fn drawn(c: Choice, shape: Seq<usize>, temperature: u32, seed: u64) -> IdValue {
    tensor::ids_of(
        Fused::RowDraw(is_greedy(temperature), sharpness(temperature), c.rows(), seed),
        seq![c.logits.value],
        shape,
    )
}

/// The log-probability, under the tempered distribution, of what `drawn` draws.
pub open spec fn drawn_score(c: Choice, shape: Seq<usize>, temperature: u32, seed: u64) -> Value {
    tensor::fused_of(
        Fused::RowDrawScore(is_greedy(temperature), sharpness(temperature), c.rows(), seed),
        seq![c.logits.value],
        shape,
    )
}

pub open spec fn ids_as_floats(ids: IdValue) -> Value {
    tensor::fused_of(Fused::IdsToFloat, seq![tensor::id_operand(ids)], ids.dims)
}

pub open spec fn floats_as_ids(v: Value) -> IdValue {
    tensor::ids_of(Fused::FloatToIds, seq![v], v.dims)
}

/// The log-probability of one class per row.
pub open spec fn log_prob_ids_op(t: Tape, c: Choice, ids: IdValue) -> Result<
    (Tape, Traced),
    Fault,
> {
    if ids.dims != c.batch() {
        Err(Fault::Shape(actions_message(c, ids.dims)))
    } else {
        Ok(
            var::record(
                t,
                tensor::fused_of(
                    Fused::RowLogProb,
                    seq![c.logits.value, tensor::id_operand(ids)],
                    c.batch(),
                ),
                seq![c.logits.trace],
                RuleOf::RowLogProb(c.logits.value, ids),
            ),
        )
    }
}

pub open spec fn entropy_op(t: Tape, c: Choice) -> (Tape, Traced) {
    var::record(
        t,
        tensor::fused_of(Fused::RowEntropy, seq![c.logits.value], c.batch()),
        seq![c.logits.trace],
        RuleOf::RowEntropy(c.logits.value),
    )
}

/// The bit pattern of one: drawing from the distribution as it is.
pub open spec fn plain_draw(c: Choice, seed: u64) -> IdValue {
    drawn(c, c.batch(), single::ONE, seed)
}

/// The most likely class of every row.
pub open spec fn mode_ids_of(c: Choice) -> IdValue {
    drawn(c, c.batch(), single::ZERO, 0)
}

fn actions_error(c: &Categorical, got: &Vec<usize>) -> (e: Error)
    ensures
        e@ == Fault::Shape(actions_message(c@, got@)),
{
    proof {
        use_type_invariant(c);
    }
    let mut text = String::new();
    text.append("expected ");
    append_bracketed(&mut text, c.batch.dims());
    text.append(" actions for a Categorical(");
    append_bracketed(&mut text, c.batch.dims());
    text.append(" over ");
    append_decimal(&mut text, c.classes as u64);
    text.append("), got ");
    append_bracketed(&mut text, got);
    proof {
        reveal_strlit(" actions for a ");
        reveal_strlit("Categorical(");
        reveal_strlit(" actions for a Categorical(");
        reveal_strlit(")");
        reveal_strlit(", got ");
        reveal_strlit("), got ");
        assert(text@ =~= actions_message(c@, got@));
    }
    Error::Shape(text)
}

impl Categorical {
    #[verifier::type_invariant]
    closed spec fn inv(self) -> bool {
        &&& self@.wf()
        &&& self.batch@ == self@.batch()
        &&& self.classes == self@.classes()
        &&& self.rows == shape::product(self.batch@)
    }

    /// From unnormalised logits, `[..batch, classes]`.
    pub fn from_logits(logits: Var) -> (r: Result<Self, Error>)
        ensures
            crate::error::agrees(r, choice_of(logits@)),
    {
        let rank: usize = logits.rank();
        if rank == 0 {
            return Err(Error::shape("a categorical needs a trailing class axis, got a scalar"));
        }
        let classes: usize = logits.shape().dim_from_end(0);
        if classes == 0 {
            return Err(Error::shape("a categorical over an empty class axis has no support"));
        }
        let batch = logits.shape().without(rank - 1);
        proof {
            assert(batch@ =~= logits@.value.dims.drop_last());
        }
        match batch.checked_elements() {
            Some(rows) => Ok(Categorical { logits, batch, classes, rows }),
            None => Err(count_error(batch.dims())),
        }
    }

    /// From probabilities, which are converted to logits once, here.
    pub fn from_probs(s: &mut Session, probs: &Var) -> (r: Result<Self, Error>)
        ensures
            crate::error::agrees(
                r,
                choice_of(ops::pointwise_op(old(s)@, Unary::Log, probs@).1),
            ),
            final(s)@ == ops::pointwise_op(old(s)@, Unary::Log, probs@).0,
    {
        let logits = probs.log(s);
        Categorical::from_logits(logits)
    }

    /// How many classes each row has.
    pub fn classes(&self) -> (r: usize)
        ensures
            r == self@.classes(),
            r > 0,
    {
        proof {
            use_type_invariant(self);
        }
        self.classes
    }

    /// The logits, as given.
    pub fn logits(&self) -> (r: &Var)
        ensures
            r@ == self@.logits,
            self@.wf(),
    {
        proof {
            use_type_invariant(self);
        }
        &self.logits
    }

    /// The shape of the batch.
    pub fn batch(&self) -> (r: &Shape)
        ensures
            r@ == self@.batch(),
    {
        proof {
            use_type_invariant(self);
        }
        &self.batch
    }

    /// The number of rows of logits.
    pub(crate) fn rows(&self) -> (r: usize)
        ensures
            r == self@.rows(),
    {
        proof {
            use_type_invariant(self);
        }
        self.rows
    }

    /// The last axis of the logits.
    pub fn axis(&self) -> (r: usize)
        ensures
            r == self@.axis(),
            self@.wf(),
    {
        proof {
            use_type_invariant(self);
        }
        self.logits.rank() - 1
    }

    /// The normalised probabilities, `[..batch, classes]`.
    pub fn probs(&self) -> (r: Tensor)
        ensures
            r@ == probs_of(self@),
    {
        Tensor::fused(
            Fused::RowProbs,
            &just(self.logits.tensor()),
            self.logits.shape().clone(),
        )
    }

    /// Draw one class per row and score it, in a single pass over the logits.
    ///
    /// A temperature of zero makes the choice greedy, in which case the seed is
    /// unused. The log-probability is of the tempered distribution, the one the class
    /// came from.
    pub fn sample_with_log_prob(&self, temperature: u32, seed: u64) -> (r: Result<
        (IdTensor, Tensor),
        Error,
    >)
        ensures
            match r {
                Ok((ids, score)) => !single::below(temperature, single::ZERO) && ids@ == drawn(
                    self@,
                    self@.batch(),
                    temperature,
                    seed,
                ) && score@ == drawn_score(self@, self@.batch(), temperature, seed),
                Err(e) => single::below(temperature, single::ZERO) && e@ == Fault::Config(
                    "temperature must not be negative"@,
                ),
            },
    {
        proof {
            use_type_invariant(self);
        }
        if single::lt(temperature, single::ZERO) {
            return Err(Error::config("temperature must not be negative"));
        }
        let ids = self.draw_shaped(self.batch.clone(), temperature, seed);
        let (greedy, by) = Categorical::tempered(temperature);
        let score = Tensor::fused(
            Fused::RowDrawScore(greedy, by, self.rows as u64, seed),
            &just(self.logits.tensor()),
            self.batch.clone(),
        );
        Ok((ids, score))
    }

    fn tempered(temperature: u32) -> (r: (bool, Scalar))
        ensures
            r == (is_greedy(temperature), sharpness(temperature)),
    {
        // Zero is the most likely class, not a division by zero.
        if single::eq(temperature, single::ZERO) {
            (true, Scalar::Int(1))
        } else {
            (false, Scalar::BitsInverse(temperature))
        }
    }

    /// The general draw: the shape may put a sample axis before the batch, in which
    /// case one pass covers all of it and the parameters tile.
    fn draw_shaped(&self, shape: Shape, temperature: u32, seed: u64) -> (r: IdTensor)
        ensures
            r@ == drawn(self@, shape@, temperature, seed),
    {
        proof {
            use_type_invariant(self);
        }
        let (greedy, by) = Categorical::tempered(temperature);
        IdTensor::fused(
            Fused::RowDraw(greedy, by, self.rows as u64, seed),
            &just(self.logits.tensor()),
            shape,
        )
    }

    /// Draw one class per row.
    pub fn sample_ids(&self, seed: u64) -> (r: IdTensor)
        ensures
            r@ == plain_draw(self@, seed),
    {
        proof {
            use_type_invariant(self);
        }
        self.draw_shaped(self.batch.clone(), single::ONE, seed)
    }

    /// `n` independent draws in one pass, shaped `[n, ..batch]`.
    pub fn sample_ids_n(&self, n: usize, seed: u64) -> (r: IdTensor)
        ensures
            r@ == drawn(self@, seq![n] + self@.batch(), single::ONE, seed),
    {
        proof {
            use_type_invariant(self);
        }
        self.draw_shaped(prefixed(n, self.batch.dims()), single::ONE, seed)
    }

    /// The most likely class in each row.
    pub fn mode_ids(&self) -> (r: IdTensor)
        ensures
            r@ == mode_ids_of(self@),
    {
        proof {
            use_type_invariant(self);
        }
        self.draw_shaped(self.batch.clone(), single::ZERO, 0)
    }

    /// The log-probability of one class per row.
    pub fn log_prob_ids(&self, s: &mut Session, actions: &IdTensor) -> (r: Result<Var, Error>)
        ensures
            ops::same_value(r, final(s)@, log_prob_ids_op(old(s)@, self@, actions@)),
    {
        proof {
            use_type_invariant(self);
        }
        if !actions.shape().same(&self.batch) {
            return Err(actions_error(self, actions.shape().dims()));
        }
        let out = Tensor::fused(
            Fused::RowLogProb,
            &both(self.logits.tensor(), &actions.operand()),
            self.batch.clone(),
        );
        let rule: Rule = RuleOf::RowLogProb(self.logits.tensor().clone(), actions.clone());
        Ok(Var::record(s, out, &on(&self.logits), rule))
    }

    /// A one-hot encoding of a draw, `[..batch, classes]`.
    pub fn one_hot(&self, actions: &IdTensor) -> (r: Tensor)
        ensures
            r@ == tensor::one_hot_of(actions@, self@.classes()),
    {
        proof {
            use_type_invariant(self);
        }
        Tensor::one_hot(actions, self.classes)
    }
}

/// Ids as numbers.
pub(crate) fn to_floats(ids: &IdTensor) -> (r: Tensor)
    ensures
        r@ == ids_as_floats(ids@),
{
    Tensor::fused(Fused::IdsToFloat, &just(&ids.operand()), ids.shape().clone())
}

/// Numbers as ids.
pub(crate) fn to_ids(v: &Tensor) -> (r: IdTensor)
    ensures
        r@ == floats_as_ids(v@),
{
    IdTensor::fused(Fused::FloatToIds, &just(v), v.shape().clone())
}

impl Distribution for Categorical {
    open spec fn batch(&self) -> Seq<usize> {
        self@.batch()
    }

    open spec fn event(&self) -> Seq<usize> {
        Seq::empty()
    }

    open spec fn support_of(&self) -> Support {
        Support::Categories
    }

    open spec fn reparameterises(&self) -> bool {
        false
    }

    open spec fn sample_of(&self, t: Tape, seed: u64) -> Result<(Tape, Value), Fault> {
        Ok((t, ids_as_floats(plain_draw(self@, seed))))
    }

    open spec fn sample_n_of(&self, t: Tape, n: usize, seed: u64) -> Result<(Tape, Value), Fault> {
        Ok(
            (
                t,
                ids_as_floats(drawn(self@, seq![n] + self@.batch(), single::ONE, seed)),
            ),
        )
    }

    open spec fn rsample_of(&self, t: Tape, seed: u64) -> Result<(Tape, Traced), Fault> {
        Err(
            Fault::Unsupported(
                "a categorical draw is an index, which no reparameterisation makes differentiable; use RelaxedOneHotCategorical for a differentiable relaxation of it"@,
            ),
        )
    }

    open spec fn log_prob_of(&self, t: Tape, value: Traced) -> Result<(Tape, Traced), Fault> {
        log_prob_ids_op(t, self@, floats_as_ids(value.value))
    }

    open spec fn cdf_of(&self, value: Value) -> Result<Value, Fault> {
        Err(Fault::Unsupported("a categorical has no CDF: its classes are unordered"@))
    }

    open spec fn icdf_of(&self, t: Tape, q: Traced) -> Result<(Tape, Traced), Fault> {
        Err(Fault::Unsupported("a categorical has no quantile: its classes are unordered"@))
    }

    open spec fn entropy_of(&self, t: Tape) -> Result<(Tape, Traced), Fault> {
        Ok(entropy_op(t, self@))
    }

    open spec fn mean_of(&self, t: Tape) -> Result<(Tape, Value), Fault> {
        Err(Fault::Unsupported("a categorical has no mean: its classes are unordered"@))
    }

    open spec fn variance_of(&self, t: Tape) -> Result<(Tape, Value), Fault> {
        Err(Fault::Unsupported("a categorical has no variance: its classes are unordered"@))
    }

    open spec fn mode_of(&self, t: Tape) -> Result<(Tape, Value), Fault> {
        Ok((t, ids_as_floats(mode_ids_of(self@))))
    }

    fn batch_shape(&self) -> (r: Shape) {
        proof {
            use_type_invariant(self);
        }
        self.batch.clone()
    }

    fn event_shape(&self) -> (r: Shape) {
        Shape::scalar()
    }

    fn support(&self) -> (r: Support) {
        Support::Categories
    }

    fn has_rsample(&self) -> (r: bool) {
        false
    }

    fn sample(&self, s: &mut Session, seed: u64) -> (r: Result<Tensor, Error>) {
        Ok(to_floats(&self.sample_ids(seed)))
    }

    fn sample_n(&self, s: &mut Session, n: usize, seed: u64) -> (r: Result<Tensor, Error>) {
        Ok(to_floats(&self.sample_ids_n(n, seed)))
    }

    fn rsample(&self, s: &mut Session, seed: u64) -> (r: Result<Var, Error>) {
        Err(
            unsupported(
                "a categorical draw is an index, which no reparameterisation makes differentiable; use RelaxedOneHotCategorical for a differentiable relaxation of it",
            ),
        )
    }

    fn log_prob(&self, s: &mut Session, value: &Var) -> (r: Result<Var, Error>) {
        self.log_prob_ids(s, &to_ids(value.tensor()))
    }

    fn cdf(&self, value: &Tensor) -> (r: Result<Tensor, Error>) {
        Err(unsupported("a categorical has no CDF: its classes are unordered"))
    }

    fn icdf(&self, s: &mut Session, q: &Var) -> (r: Result<Var, Error>) {
        Err(unsupported("a categorical has no quantile: its classes are unordered"))
    }

    fn entropy(&self, s: &mut Session) -> (r: Result<Var, Error>) {
        proof {
            use_type_invariant(self);
        }
        let out = Tensor::fused(
            Fused::RowEntropy,
            &just(self.logits.tensor()),
            self.batch.clone(),
        );
        let rule: Rule = RuleOf::RowEntropy(self.logits.tensor().clone());
        Ok(Var::record(s, out, &on(&self.logits), rule))
    }

    fn mean(&self, s: &mut Session) -> (r: Result<Tensor, Error>) {
        Err(unsupported("a categorical has no mean: its classes are unordered"))
    }

    fn variance(&self, s: &mut Session) -> (r: Result<Tensor, Error>) {
        Err(unsupported("a categorical has no variance: its classes are unordered"))
    }

    fn mode(&self, s: &mut Session) -> (r: Result<Tensor, Error>) {
        Ok(to_floats(&self.mode_ids()))
    }
}

} // verus!
