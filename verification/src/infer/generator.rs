//! Autoregressive decoding with a recurrent cache.
//!
//! The generator decides; the executor computes. [`Generator::begin`] consumes the prompt
//! in one pass and hands out the logits of its last position. The executor evaluates
//! them, draws a token and feeds it to [`Generator::push`], which hands out the next
//! logits, until the run wants no more tokens.

use vstd::prelude::*;

use super::cache::{Memory, StateCache};
use super::sampler;
use super::sampler::SamplerConfig;
use crate::autograd::graph::Session;
use crate::autograd::var::{Traced, Var};
use crate::error::{Error, Fault};
use crate::models::hybrid;
use crate::models::lm;
use crate::models::lm::{Lm, Mamba3Lm};
use crate::nn::flow;
use crate::nn::flow::World;
use crate::nn::init::grid;
use crate::nn::module;
use crate::nn::module::Tree;
use crate::nn::store::Store;
use crate::tensor::{IdTensor, IdValue};
use crate::term::Term;

verus! {

/// Configuration for [`Generator`].
#[derive(Debug, Clone, Copy, PartialEq, Eq, Structural)]
pub struct GeneratorConfig {
    /// Maximum number of tokens to produce.
    pub max_new_tokens: usize,
    /// Sampling strategy.
    pub sampler: SamplerConfig,
    /// Stop as soon as this token is produced.
    pub eos_token: Option<u32>,
    /// Sampling seed.
    pub seed: u64,
}

pub open spec fn default_config() -> GeneratorConfig {
    GeneratorConfig {
        max_new_tokens: 64,
        sampler: sampler::default_config(),
        eos_token: None,
        seed: 0,
    }
}

impl Default for GeneratorConfig {
    fn default() -> (r: Self)
        ensures
            r == default_config(),
    {
        GeneratorConfig {
            max_new_tokens: 64,
            sampler: SamplerConfig::default(),
            eos_token: None,
            seed: 0,
        }
    }
}

impl GeneratorConfig {
    /// Start a builder.
    pub fn builder() -> (r: GeneratorConfigBuilder)
        ensures
            r.chosen() == default_config(),
    {
        GeneratorConfigBuilder { config: None }
    }
}

/// Builder for [`GeneratorConfig`].
#[derive(Debug, Clone, Copy, PartialEq, Eq, Structural)]
pub struct GeneratorConfigBuilder {
    pub config: Option<GeneratorConfig>,
}

impl Default for GeneratorConfigBuilder {
    fn default() -> (r: Self)
        ensures
            r.chosen() == default_config(),
    {
        GeneratorConfigBuilder { config: None }
    }
}

impl GeneratorConfigBuilder {
    /// What has been chosen so far.
    pub open spec fn chosen(self) -> GeneratorConfig {
        match self.config {
            Some(c) => c,
            None => default_config(),
        }
    }

    fn current(self) -> (r: GeneratorConfig)
        ensures
            r == self.chosen(),
    {
        match self.config {
            Some(c) => c,
            None => GeneratorConfig::default(),
        }
    }

    /// Token budget.
    pub fn max_new_tokens(self, n: usize) -> (r: Self)
        ensures
            r.chosen() == (GeneratorConfig { max_new_tokens: n, ..self.chosen() }),
    {
        let c = GeneratorConfig { max_new_tokens: n, ..self.current() };
        GeneratorConfigBuilder { config: Some(c) }
    }

    /// Sampling strategy.
    pub fn sampler(self, sampler: SamplerConfig) -> (r: Self)
        ensures
            r.chosen() == (GeneratorConfig { sampler, ..self.chosen() }),
    {
        let c = GeneratorConfig { sampler, ..self.current() };
        GeneratorConfigBuilder { config: Some(c) }
    }

    /// Stop token.
    pub fn eos_token(self, token: u32) -> (r: Self)
        ensures
            r.chosen() == (GeneratorConfig { eos_token: Some(token), ..self.chosen() }),
    {
        let c = GeneratorConfig { eos_token: Some(token), ..self.current() };
        GeneratorConfigBuilder { config: Some(c) }
    }

    /// Sampling seed.
    pub fn seed(self, seed: u64) -> (r: Self)
        ensures
            r.chosen() == (GeneratorConfig { seed, ..self.chosen() }),
    {
        let c = GeneratorConfig { seed, ..self.current() };
        GeneratorConfigBuilder { config: Some(c) }
    }

    /// Build the configuration.
    pub fn build(self) -> (r: GeneratorConfig)
        ensures
            r == self.chosen(),
    {
        self.current()
    }
}

/// Autoregressive decoding of one model.
pub struct Generator<'a> {
    pub model: &'a Mamba3Lm,
    pub config: GeneratorConfig,
}

/// One run: what has been consumed, what has been produced, and the state in between.
pub struct Generation {
    cache: StateCache,
    history: Vec<u32>,
    generated: Vec<u32>,
    ended: bool,
}

/// One run as a mathematical value.
pub struct Progress {
    pub memory: Memory,
    pub history: Seq<u32>,
    pub generated: Seq<u32>,
    pub ended: bool,
}

impl View for Generation {
    type V = Progress;

    closed spec fn view(&self) -> Progress {
        Progress {
            memory: self.cache@,
            history: self.history@,
            generated: self.generated@,
            ended: self.ended,
        }
    }
}

impl Progress {
    /// Whether the run has produced neither its budget nor the stop token.
    pub open spec fn wants_token(self, c: GeneratorConfig) -> bool {
        !self.ended && self.generated.len() < c.max_new_tokens
    }

    /// A run that everything it has taken in went through the model.
    pub open spec fn settled(self) -> bool {
        self.memory.position == self.history.len()
    }

    /// The run with one more token. A stop token ends it.
    pub open spec fn with_token(self, c: GeneratorConfig, next: u32) -> Progress {
        Progress {
            history: self.history.push(next),
            generated: self.generated.push(next),
            ended: c.eos_token == Some(next),
            ..self
        }
    }
}

/// Ids the executor holds, as one row.
pub open spec fn row_of(handle: u64, n: usize) -> IdValue {
    IdValue { dims: seq![1usize, n], term: Term::Ids(handle) }
}

/// The states after a row of ids, and the logits.
pub open spec fn consumed(w: World, m: Lm, memory: Memory, handle: u64, n: usize) -> Result<
    (World, Memory, Traced),
    Fault,
> {
    let (slots, r) = lm::cached_op(w, m, row_of(handle, n), memory.slots);
    match r {
        Err(f) => Err(f),
        Ok((w1, logits)) => Ok(
            (w1, Memory { slots, position: (memory.position + n) as usize }, logits),
        ),
    }
}

/// A run on a prompt: the model leaves training, and the prompt goes through it whole.
pub open spec fn begun(w: World, m: Mamba3Lm, prompt: Seq<u32>, handle: u64) -> Result<
    (World, Progress, Traced),
    Fault,
> {
    if prompt.len() == 0 {
        Err(Fault::Config("generation needs a non-empty prompt"@))
    } else {
        let still = World { store: module::mode_changed(w.store, &m, false), ..w };
        let fresh = Memory { slots: hybrid::empty_of(m@.layers, 1), position: 0 };
        match consumed(still, m@, fresh, handle, prompt.len() as usize) {
            Err(f) => Err(f),
            Ok((w1, memory, logits)) => Ok(
                (
                    w1,
                    Progress {
                        memory,
                        history: prompt,
                        generated: Seq::empty(),
                        ended: false,
                    },
                    logits,
                ),
            ),
        }
    }
}

/// A run after one more token: ended by a stop token, and otherwise with the token gone
/// through the model.
pub open spec fn pushed(w: World, m: Lm, c: GeneratorConfig, p: Progress, next: u32, handle: u64) -> Result<
    (World, Progress, Option<Traced>),
    Fault,
> {
    let after = p.with_token(c, next);
    if after.ended {
        Ok((w, after, None))
    } else {
        match consumed(w, m, p.memory, handle, 1) {
            Err(f) => Err(f),
            Ok((w1, memory, logits)) => Ok((w1, Progress { memory, ..after }, Some(logits))),
        }
    }
}

impl Generation {
    /// The tokens produced so far.
    pub fn generated(&self) -> (r: &Vec<u32>)
        ensures
            r@ == self@.generated,
    {
        &self.generated
    }

    /// The prompt and everything produced after it.
    pub fn history(&self) -> (r: &Vec<u32>)
        ensures
            r@ == self@.history,
    {
        &self.history
    }

    /// Number of tokens that went through the model.
    pub fn position(&self) -> (r: usize)
        ensures
            r == self@.memory.position,
    {
        self.cache.position()
    }

    /// Give up the run for the tokens it produced.
    pub fn into_tokens(self) -> (r: Vec<u32>)
        ensures
            r@ == self@.generated,
    {
        self.generated
    }
}

impl<'a> Generator<'a> {
    /// Build a generator for a model.
    pub fn new(model: &'a Mamba3Lm, config: GeneratorConfig) -> (r: Self)
        ensures
            *r.model == *model,
            r.config == config,
    {
        Generator { model, config }
    }

    /// The sampler in use.
    pub fn sampler(&self) -> (r: &SamplerConfig)
        ensures
            *r == self.config.sampler,
    {
        &self.config.sampler
    }

    /// Whether a run wants another token.
    pub fn wants_token(&self, run: &Generation) -> (r: bool)
        ensures
            r == run@.wants_token(self.config),
    {
        !run.ended && run.generated.len() < self.config.max_new_tokens
    }

    /// Start on a single prompt, whose ids the executor holds under `handle`.
    ///
    /// The prompt is consumed in one chunked pass; after it each new token costs one
    /// recurrent step regardless of how long the context is.
    pub fn begin(&self, s: &mut Session, st: &mut Store, prompt: &Vec<u32>, handle: u64) -> (r:
        Result<(Generation, Var), Error>)
        ensures
            match (
                r,
                begun(flow::world(old(s)@, old(st)@), *self.model, prompt@, handle),
            ) {
                (Ok(g), Ok((w, p, logits))) => g.0@ == p && g.1@ == logits && p.settled()
                    && final(s)@ == w.tape && final(st)@ == w.store,
                (Err(e), Err(f)) => e@ == f,
                _ => false,
            },
            final(s)@.enabled == old(s)@.enabled,
    {
        if prompt.len() == 0 {
            return Err(Error::config("generation needs a non-empty prompt"));
        }
        self.model.eval(st);
        let mut cache = StateCache::new(self.model, 1);
        let mut history: Vec<u32> = Vec::new();
        let mut i: usize = 0;
        while i < prompt.len()
            invariant
                i <= prompt.len(),
                history@ == prompt@.take(i as int),
            decreases prompt.len() - i,
        {
            history.push(prompt[i]);
            proof {
                assert(prompt@.take(i as int).push(prompt@[i as int]) =~= prompt@.take(
                    i as int + 1,
                ));
            }
            i += 1;
        }
        proof {
            assert(prompt@.take(prompt@.len() as int) =~= prompt@);
        }
        let ids = IdTensor::resident(handle, grid(1, prompt.len()));
        let logits = self.model.forward_cached(s, st, &ids, cache.layers_mut())?;
        cache.advance(prompt.len());
        let generated: Vec<u32> = Vec::new();
        let run = Generation { cache, history, generated, ended: false };
        proof {
            assert(run@.generated =~= Seq::<u32>::empty());
        }
        Ok((run, logits))
    }

    /// Take in the next token, whose id the executor holds under `handle`, and hand out
    /// the logits of the position after it. A stop token ends the run instead.
    pub fn push(
        &self,
        s: &mut Session,
        st: &mut Store,
        run: &mut Generation,
        next: u32,
        handle: u64,
    ) -> (r: Result<Option<Var>, Error>)
        requires
            old(run)@.settled(),
            old(run)@.wants_token(self.config),
        ensures
            match (
                r,
                pushed(
                    flow::world(old(s)@, old(st)@),
                    self.model@,
                    self.config,
                    old(run)@,
                    next,
                    handle,
                ),
            ) {
                (Ok(v), Ok((w, p, logits))) => final(run)@ == p && crate::ssm::scan::traced_opt(v)
                    == logits && (p.ended || p.settled()) && final(s)@ == w.tape && final(st)@
                    == w.store,
                (Err(e), Err(f)) => e@ == f,
                _ => false,
            },
            final(s)@.enabled == old(s)@.enabled,
    {
        run.generated.push(next);
        run.history.push(next);
        let stop: bool = match self.config.eos_token {
            Some(token) => token == next,
            None => false,
        };
        run.ended = stop;
        if stop {
            return Ok(None);
        }
        proof {
            assert(run.history.len() == run.history@.len());
        }
        let ids = IdTensor::resident(handle, grid(1, 1));
        let logits = self.model.forward_cached(s, st, &ids, run.cache.layers_mut())?;
        run.cache.advance(1);
        Ok(Some(logits))
    }
}

/// The final `vocab` values of a flattened `[batch, seq, vocab]` tensor of logits.
pub fn tail_row<T: Copy>(flat: &Vec<T>, vocab: usize) -> (r: Vec<T>)
    requires
        vocab <= flat@.len(),
    ensures
        r@ == flat@.skip(flat@.len() - vocab),
{
    let start: usize = flat.len() - vocab;
    let mut out: Vec<T> = Vec::new();
    let mut i: usize = start;
    while i < flat.len()
        invariant
            start <= i <= flat.len(),
            out@ == flat@.subrange(start as int, i as int),
        decreases flat.len() - i,
    {
        out.push(flat[i]);
        proof {
            assert(flat@.subrange(start as int, i as int).push(flat@[i as int])
                =~= flat@.subrange(start as int, i as int + 1));
        }
        i += 1;
    }
    proof {
        assert(flat@.subrange(start as int, flat@.len() as int) =~= flat@.skip(start as int));
    }
    out
}

// -- laws --------------------------------------------------------------------------------

/// A run fed with tokens for as long as it wants any.
pub open spec fn fed(c: GeneratorConfig, p: Progress, tokens: Seq<u32>, k: nat) -> Progress
    decreases k,
{
    if k == 0 {
        p
    } else {
        let before = fed(c, p, tokens, (k - 1) as nat);
        if before.wants_token(c) {
            before.with_token(c, tokens[k - 1])
        } else {
            before
        }
    }
}

/// A run produces the tokens it is fed, up to its budget and up to the first stop token,
/// which it keeps: no token before the last is the stop token, and the run has ended
/// exactly when the last one is.
pub proof fn law_a_run_is_a_stopped_prefix(c: GeneratorConfig, p: Progress, tokens: Seq<u32>, k: nat)
    requires
        k <= tokens.len(),
        p.generated.len() == 0,
        !p.ended,
    ensures
        ({
            let q = fed(c, p, tokens, k);
            let n = q.generated.len();
            &&& n <= k
            &&& n <= c.max_new_tokens
            &&& q.generated == tokens.take(n as int)
            &&& q.history == p.history + q.generated
            &&& q.wants_token(c) ==> n == k
            &&& forall|i: int| 0 <= i < n - 1 ==> c.eos_token != Some(#[trigger] q.generated[i])
            &&& q.ended <==> n > 0 && c.eos_token == Some(q.generated[n - 1])
        }),
    decreases k,
{
    let q = fed(c, p, tokens, k);
    if k > 0 {
        law_a_run_is_a_stopped_prefix(c, p, tokens, (k - 1) as nat);
        let before = fed(c, p, tokens, (k - 1) as nat);
        if before.wants_token(c) {
            assert(q.generated =~= tokens.take(k as int));
            assert(q.history =~= p.history + q.generated);
            let n = q.generated.len();
            assert forall|i: int| 0 <= i < n - 1 implies c.eos_token != Some(
                #[trigger] q.generated[i],
            ) by {
                assert(q.generated[i] == before.generated[i]);
                if i == n - 2 {
                    assert(!before.ended);
                }
            }
        }
    } else {
        assert(q.generated =~= tokens.take(0));
        assert(q.history =~= p.history + q.generated);
    }
}

/// Pushing a token does to a run what feeding it does, whatever the model computes.
pub proof fn law_pushing_feeds(
    w: World,
    m: Lm,
    c: GeneratorConfig,
    p: Progress,
    next: u32,
    handle: u64,
)
    requires
        pushed(w, m, c, p, next, handle) is Ok,
    ensures
        ({
            let q = pushed(w, m, c, p, next, handle)->Ok_0.1;
            let want = p.with_token(c, next);
            &&& q.history == want.history
            &&& q.generated == want.generated
            &&& q.ended == want.ended
            &&& pushed(w, m, c, p, next, handle)->Ok_0.2 is None <==> q.ended
        }),
{
}

} // verus!
