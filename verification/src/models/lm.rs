//! A causal language model over a hybrid stack.
//!
//! One configuration covers the whole family: pure state-space, state-space with periodic
//! attention, or pure attention, with or without feed-forward blocks.

use vstd::prelude::*;

use super::hybrid;
use super::hybrid::{HybridConfig, HybridLayer, HybridStack, LayerCache, Plan, Slot, widen};
use super::pattern::{LayerKind, LayerPattern};
use crate::autograd::grad_mode::no_grad;
use crate::autograd::graph::{Session, Tape};
use crate::autograd::ops;
use crate::autograd::var::{Traced, Var};
use crate::error::{Error, Fault};
use crate::nn::attention;
use crate::nn::attention::{AttentionConfig, flipped};
use crate::nn::dropout;
use crate::nn::dropout::{Dropout, apply_opt as apply_dropout};
use crate::nn::embedding;
use crate::nn::embedding::{Embedding, EmbeddingConfig};
use crate::nn::flow;
use crate::nn::flow::{Step, World};
use crate::nn::init;
use crate::nn::init::{FIFTIETH, Ground, Initializer, Rng, Source};
use crate::nn::linear;
use crate::nn::linear::{Linear, LinearConfig};
use crate::nn::lora::LoraConfig;
use crate::nn::mlp::MlpConfig;
use crate::nn::module;
use crate::nn::module::{Listed, Module, ModuleVisitor, Part};
use crate::nn::norm;
use crate::nn::norm::{RmsNorm, RmsNormConfig};
use crate::nn::param;
use crate::nn::quant::QuantConfig;
use crate::nn::sequential;
use crate::nn::store::Store;
use crate::single;
use crate::ssm::config::SsmConfig;
use crate::tensor::{IdTensor, IdValue};
use crate::term::Product;
use crate::text::append_decimal;

verus! {

/// Configuration for [`Mamba3Lm`].
#[derive(Debug)]
pub struct Mamba3LmConfig {
    /// Vocabulary size.
    pub vocab_size: usize,
    /// The layer stack.
    pub stack: HybridConfig,
    /// Dropout on the embedding output.
    pub embedding_dropout: u32,
    /// Share the embedding table with the output head.
    pub tie_embeddings: bool,
    /// Seed used by [`Mamba3LmConfig::init`].
    pub seed: u64,
}

/// A configuration as a mathematical value.
pub struct LmPlan {
    pub vocab_size: usize,
    pub stack: Plan,
    pub embedding_dropout: u32,
    pub tie_embeddings: bool,
    pub seed: u64,
}

impl View for Mamba3LmConfig {
    type V = LmPlan;

    open spec fn view(&self) -> LmPlan {
        LmPlan {
            vocab_size: self.vocab_size,
            stack: self.stack@,
            embedding_dropout: self.embedding_dropout,
            tie_embeddings: self.tie_embeddings,
            seed: self.seed,
        }
    }
}

pub open spec fn default_plan() -> LmPlan {
    LmPlan {
        vocab_size: 32_000,
        stack: hybrid::default_plan(),
        embedding_dropout: single::ZERO,
        tie_embeddings: false,
        seed: 0,
    }
}

impl LmPlan {
    /// What is wrong with the configuration, if anything.
    pub open spec fn fault(self) -> Option<Fault> {
        if self.vocab_size == 0 {
            Some(Fault::Config("vocab_size must be positive"@))
        } else {
            self.stack.fault()
        }
    }

    pub open spec fn head_config(self) -> LinearConfig {
        LinearConfig {
            bias: false,
            initializer: Initializer::Normal { mean: single::ZERO, std: FIFTIETH },
            lora: self.stack.lora,
            ..linear::default_config(self.stack.d_model, self.vocab_size)
        }
    }
}

/// The output head, unless the embedding table takes its place.
pub open spec fn head_of(g: Ground, p: LmPlan) -> (Ground, Option<Linear>) {
    if p.tie_embeddings {
        (g, None)
    } else {
        let (h, l) = linear::init_of(g, p.head_config());
        (h, Some(l))
    }
}

/// The model a configuration describes: the table, the head, dropout, the stack, then
/// the last norm.
pub open spec fn init_of(g: Ground, p: LmPlan) -> Result<(Ground, Lm), Fault> {
    match p.fault() {
        Some(f) => Err(f),
        None => {
            let (g1, embed) = embedding::init_of(
                g,
                EmbeddingConfig {
                    num_embeddings: p.vocab_size,
                    dim: p.stack.d_model,
                    init: embedding::small_noise(),
                },
            );
            let (g2, head) = head_of(g1, p);
            let (store, drop) = dropout::made_opt(g2.store, p.embedding_dropout);
            match hybrid::init_of(Ground { store, ..g2 }, p.stack) {
                Err(f) => Err(f),
                Ok((g3, layers)) => {
                    let (g4, norm_f) = norm::init_of(g3, p.stack.norm_config());
                    Ok((g4, Lm { embed, dropout: drop, layers, norm_f, head, plan: p }))
                },
            }
        },
    }
}

impl Default for Mamba3LmConfig {
    fn default() -> (r: Self)
        ensures
            r@ == default_plan(),
    {
        Mamba3LmConfig {
            vocab_size: 32_000,
            stack: HybridConfig::default(),
            embedding_dropout: single::ZERO,
            tie_embeddings: false,
            seed: 0,
        }
    }
}

impl Clone for Mamba3LmConfig {
    fn clone(&self) -> (r: Self)
        ensures
            r@ == self@,
    {
        Mamba3LmConfig {
            vocab_size: self.vocab_size,
            stack: self.stack.clone(),
            embedding_dropout: self.embedding_dropout,
            tie_embeddings: self.tie_embeddings,
            seed: self.seed,
        }
    }
}

impl Mamba3LmConfig {
    /// Start a builder.
    pub fn builder() -> (r: Mamba3LmConfigBuilder)
        ensures
            r.chosen() == default_plan(),
    {
        Mamba3LmConfigBuilder { config: None }
    }

    /// Residual stream width.
    pub fn d_model(&self) -> (r: usize)
        ensures
            r == self@.stack.d_model,
    {
        self.stack.d_model
    }

    /// Number of layers.
    pub fn n_layers(&self) -> (r: usize)
        ensures
            r == self@.stack.n_layers,
    {
        self.stack.n_layers
    }

    /// Validate the configuration.
    pub fn validate(&self) -> (r: Result<(), Error>)
        ensures
            match (r, self@.fault()) {
                (Ok(_), None) => true,
                (Err(e), Some(f)) => e@ == f,
                _ => false,
            },
    {
        if self.vocab_size == 0 {
            return Err(Error::config("vocab_size must be positive"));
        }
        self.stack.validate()
    }

    /// Instantiate with the configured seed.
    pub fn init(&self, s: &mut Session, st: &mut Store) -> (r: Result<Mamba3Lm, Error>)
        ensures
            match (
                r,
                init_of(
                    init::ground(old(s)@, old(st)@, Source { seed: self@.seed, next: 0 }),
                    self@,
                ),
            ) {
                (Ok(m), Ok((g, want))) => m@ == want && final(s)@ == g.tape && final(st)@
                    == g.store,
                (Err(e), Err(f)) => e@ == f,
                _ => false,
            },
    {
        let mut rng = Rng::seeded(self.seed);
        self.init_with_rng(s, st, &mut rng)
    }

    /// Instantiate with an explicit source of random numbers.
    pub fn init_with_rng(&self, s: &mut Session, st: &mut Store, rng: &mut Rng) -> (r: Result<
        Mamba3Lm,
        Error,
    >)
        ensures
            match (r, init_of(init::ground(old(s)@, old(st)@, old(rng)@), self@)) {
                (Ok(m), Ok((g, want))) => m@ == want && init::ground(
                    final(s)@,
                    final(st)@,
                    final(rng)@,
                ) == g,
                (Err(e), Err(f)) => e@ == f,
                _ => false,
            },
    {
        self.validate()?;
        let d_model: usize = self.stack.d_model;
        let embed = EmbeddingConfig::new(self.vocab_size, d_model).init(s, st, rng);
        let head = if self.tie_embeddings {
            None
        } else {
            let c = LinearConfig {
                bias: false,
                initializer: Initializer::Normal { mean: single::ZERO, std: FIFTIETH },
                lora: self.stack.lora,
                ..LinearConfig::new(d_model, self.vocab_size)
            };
            Some(c.init(s, st, rng))
        };
        let dropout = Dropout::when_positive(st, self.embedding_dropout);
        let stack = self.stack.init(s, st, rng)?;
        let norm_f = RmsNormConfig::new(d_model).with_eps(self.stack.norm_eps).init(s, st, rng);
        Ok(Mamba3Lm { embed, dropout, stack, norm_f, head, config: self.clone() })
    }
}

/// Builder for [`Mamba3LmConfig`].
#[derive(Debug)]
pub struct Mamba3LmConfigBuilder {
    pub config: Option<Mamba3LmConfig>,
}

impl Default for Mamba3LmConfigBuilder {
    fn default() -> (r: Self)
        ensures
            r.chosen() == default_plan(),
    {
        Mamba3LmConfigBuilder { config: None }
    }
}

impl Mamba3LmConfigBuilder {
    /// What has been chosen so far.
    pub open spec fn chosen(self) -> LmPlan {
        match self.config {
            Some(c) => c@,
            None => default_plan(),
        }
    }

    fn current(self) -> (r: Mamba3LmConfig)
        ensures
            r@ == self.chosen(),
    {
        match self.config {
            Some(c) => c,
            None => Mamba3LmConfig::default(),
        }
    }

    /// Residual stream width.
    pub fn d_model(self, d_model: usize) -> (r: Self)
        ensures
            r.chosen() == (LmPlan {
                stack: Plan {
                    d_model,
                    ssm: SsmConfig { d_model, ..self.chosen().stack.ssm },
                    attention: AttentionConfig { d_model, ..self.chosen().stack.attention },
                    ..self.chosen().stack
                },
                ..self.chosen()
            }),
    {
        let mut c = self.current();
        c.stack.d_model = d_model;
        c.stack.ssm = SsmConfig { d_model, ..c.stack.ssm };
        c.stack.attention = c.stack.attention.with_d_model(d_model);
        Mamba3LmConfigBuilder { config: Some(c) }
    }

    /// Size the mixers for an inner width, by choosing the head count. `widened` is the
    /// residual width times the expansion factor, as a whole number.
    pub fn expansion(self, widened: usize) -> (r: Self)
        ensures
            r.chosen() == (LmPlan {
                stack: Plan {
                    ssm: hybrid::widened_ssm(self.chosen().stack.ssm, widened),
                    ..self.chosen().stack
                },
                ..self.chosen()
            }),
    {
        let mut c = self.current();
        c.stack.ssm = widen(c.stack.ssm, widened);
        Mamba3LmConfigBuilder { config: Some(c) }
    }

    /// Replace the state-space configuration wholesale. The residual width stays.
    pub fn ssm(self, ssm: SsmConfig) -> (r: Self)
        ensures
            r.chosen() == (LmPlan {
                stack: Plan {
                    ssm: SsmConfig { d_model: self.chosen().stack.d_model, ..ssm },
                    ..self.chosen().stack
                },
                ..self.chosen()
            }),
    {
        let mut c = self.current();
        c.stack.ssm = SsmConfig { d_model: c.stack.d_model, ..ssm };
        Mamba3LmConfigBuilder { config: Some(c) }
    }

    /// Adjust the state-space configuration in place.
    pub fn with_ssm<F: FnOnce(&mut SsmConfig)>(self, f: F) -> (r: Self)
        requires
            forall|p: &mut SsmConfig| #[trigger]
                f.requires((p,)) || *p != self.chosen().stack.ssm,
        ensures
            exists|p: &mut SsmConfig| #[trigger]
                f.ensures((p,), ()) && *p == self.chosen().stack.ssm && r.chosen() == (LmPlan {
                    stack: Plan { ssm: *final(p), ..self.chosen().stack },
                    ..self.chosen()
                }),
    {
        let mut c = self.current();
        let mut ssm = c.stack.ssm;
        f(&mut ssm);
        c.stack.ssm = ssm;
        Mamba3LmConfigBuilder { config: Some(c) }
    }

    /// Vocabulary size.
    pub fn vocab_size(self, vocab_size: usize) -> (r: Self)
        ensures
            r.chosen() == (LmPlan { vocab_size, ..self.chosen() }),
    {
        let mut c = self.current();
        c.vocab_size = vocab_size;
        Mamba3LmConfigBuilder { config: Some(c) }
    }

    /// Number of layers.
    pub fn n_layers(self, n_layers: usize) -> (r: Self)
        ensures
            r.chosen() == (LmPlan {
                stack: Plan { n_layers, ..self.chosen().stack },
                ..self.chosen()
            }),
    {
        let mut c = self.current();
        c.stack.n_layers = n_layers;
        Mamba3LmConfigBuilder { config: Some(c) }
    }

    /// Mixer pattern.
    pub fn pattern(self, pattern: LayerPattern) -> (r: Self)
        ensures
            r.chosen() == (LmPlan {
                stack: Plan { pattern: pattern@, ..self.chosen().stack },
                ..self.chosen()
            }),
    {
        let mut c = self.current();
        c.stack.pattern = pattern;
        Mamba3LmConfigBuilder { config: Some(c) }
    }

    /// Add a feed-forward block after every mixer.
    pub fn mlp(self, mlp: MlpConfig) -> (r: Self)
        ensures
            r.chosen() == (LmPlan {
                stack: Plan { mlp: Some(mlp), ..self.chosen().stack },
                ..self.chosen()
            }),
    {
        let mut c = self.current();
        c.stack.mlp = Some(mlp);
        Mamba3LmConfigBuilder { config: Some(c) }
    }

    /// Attention settings for hybrid layers.
    pub fn attention(self, attention: AttentionConfig) -> (r: Self)
        ensures
            r.chosen() == (LmPlan {
                stack: Plan { attention, ..self.chosen().stack },
                ..self.chosen()
            }),
    {
        let mut c = self.current();
        c.stack.attention = attention;
        Mamba3LmConfigBuilder { config: Some(c) }
    }

    /// Dropout on the embedding output.
    pub fn embedding_dropout(self, p: u32) -> (r: Self)
        ensures
            r.chosen() == (LmPlan { embedding_dropout: p, ..self.chosen() }),
    {
        let mut c = self.current();
        c.embedding_dropout = p;
        Mamba3LmConfigBuilder { config: Some(c) }
    }

    /// Share the embedding table with the output head.
    pub fn tie_embeddings(self, tie: bool) -> (r: Self)
        ensures
            r.chosen() == (LmPlan { tie_embeddings: tie, ..self.chosen() }),
    {
        let mut c = self.current();
        c.tie_embeddings = tie;
        Mamba3LmConfigBuilder { config: Some(c) }
    }

    /// Attach adapters throughout.
    pub fn lora(self, lora: LoraConfig) -> (r: Self)
        ensures
            r.chosen() == (LmPlan {
                stack: Plan { lora: Some(lora), ..self.chosen().stack },
                ..self.chosen()
            }),
    {
        let mut c = self.current();
        c.stack.lora = Some(lora);
        Mamba3LmConfigBuilder { config: Some(c) }
    }

    /// Fake-quantize weights throughout.
    pub fn weight_quant(self, quant: QuantConfig) -> (r: Self)
        ensures
            r.chosen() == (LmPlan {
                stack: Plan { weight_quant: Some(quant), ..self.chosen().stack },
                ..self.chosen()
            }),
    {
        let mut c = self.current();
        c.stack.weight_quant = Some(quant);
        Mamba3LmConfigBuilder { config: Some(c) }
    }

    /// Fake-quantize activations throughout.
    pub fn activation_quant(self, quant: QuantConfig) -> (r: Self)
        ensures
            r.chosen() == (LmPlan {
                stack: Plan { activation_quant: Some(quant), ..self.chosen().stack },
                ..self.chosen()
            }),
    {
        let mut c = self.current();
        c.stack.activation_quant = Some(quant);
        Mamba3LmConfigBuilder { config: Some(c) }
    }

    /// Initialisation seed.
    pub fn seed(self, seed: u64) -> (r: Self)
        ensures
            r.chosen() == (LmPlan { seed, ..self.chosen() }),
    {
        let mut c = self.current();
        c.seed = seed;
        Mamba3LmConfigBuilder { config: Some(c) }
    }

    /// Validate and build.
    pub fn build(self) -> (r: Result<Mamba3LmConfig, Error>)
        ensures
            match (r, self.chosen().fault()) {
                (Ok(c), None) => c@ == self.chosen(),
                (Err(e), Some(f)) => e@ == f,
                _ => false,
            },
    {
        let c = self.current();
        c.validate()?;
        Ok(c)
    }
}

/// A causal language model.
pub struct Mamba3Lm {
    pub embed: Embedding,
    pub dropout: Option<Dropout>,
    pub stack: HybridStack,
    pub norm_f: RmsNorm,
    /// `None` when the head is tied to the embedding table.
    pub head: Option<Linear>,
    pub config: Mamba3LmConfig,
}

/// A causal language model as a mathematical value.
pub struct Lm {
    pub embed: Embedding,
    pub dropout: Option<Dropout>,
    pub layers: Seq<HybridLayer>,
    pub norm_f: RmsNorm,
    pub head: Option<Linear>,
    pub plan: LmPlan,
}

impl View for Mamba3Lm {
    type V = Lm;

    open spec fn view(&self) -> Lm {
        Lm {
            embed: self.embed,
            dropout: self.dropout,
            layers: self.stack.layers@,
            norm_f: self.norm_f,
            head: self.head,
            plan: self.config@,
        }
    }
}

/// The pass from a sequence of ids to hidden states, before the output head.
#[verifier::opaque]
pub open spec fn passed_op(w: World, m: Lm, ids: IdValue, train: bool) -> Step {
    flow::go(
        embedding::lookup_op(w, m.embed, ids, train),
        |w1: World, x: Traced|
            flow::go(
                dropout::dropout_opt(w1, m.dropout, x),
                |w2: World, y: Traced|
                    flow::go(
                        sequential::chain_op(w2, m.layers, y, m.layers.len()),
                        |w3: World, z: Traced|
                            norm::rms_op(w3, m.norm_f, z),
                    ),
            ),
    )
}

/// A tape that records nothing.
pub open spec fn paused(w: World) -> World {
    World { tape: Tape { enabled: false, ..w.tape }, ..w }
}

/// A step run with recording off; the mode of the caller comes back.
pub open spec fn resumed(r: Step, enabled: bool) -> Step {
    match r {
        Ok((w, v)) => Ok((World { tape: Tape { enabled, ..w.tape }, ..w }, v)),
        Err(f) => Err(f),
    }
}

/// Hidden states of a sequence of ids, before the output head. Outside training nothing is
/// recorded.
pub open spec fn hidden_op(w: World, m: Lm, ids: IdValue, train: bool) -> Step {
    if train {
        passed_op(w, m, ids, true)
    } else {
        resumed(passed_op(paused(w), m, ids, false), w.tape.enabled)
    }
}

/// Vocabulary logits of hidden states: through the head, or against the embedding table
/// where the two are tied.
#[verifier::opaque]
pub open spec fn logits_op(w: World, m: Lm, hidden: Traced) -> Step {
    match m.head {
        Some(head) => linear::linear_op(w, head, hidden),
        None => {
            flow::go(
                param::var_op(w, m.embed.weight.key(), hidden),
                |w1: World, table: Traced|
                    flow::go(
                        flow::on(w1, attention::transposed_op(w1.tape, table)),
                        |w2: World, turned: Traced|
                            flow::on(w2, ops::product_op(w2.tape, Product::Plain, hidden, turned)),
                    ),
            )
        },
    }
}

pub open spec fn scored_op(w: World, m: Lm, ids: IdValue, train: bool) -> Step {
    flow::go(
        hidden_op(w, m, ids, train),
        |w1: World, hidden: Traced| logits_op(w1, m, hidden),
    )
}

/// Logits of a sequence of ids. Outside training nothing is recorded.
pub open spec fn forward_op(w: World, m: Lm, ids: IdValue, train: bool) -> Step {
    if train {
        scored_op(w, m, ids, true)
    } else {
        resumed(scored_op(paused(w), m, ids, false), w.tape.enabled)
    }
}

/// Logits of the next positions, and the states after them.
#[verifier::opaque]
pub open spec fn advanced_op(w: World, m: Lm, ids: IdValue, c: Seq<Slot>) -> (Seq<Slot>, Step) {
    match flow::go(
        embedding::lookup_op(w, m.embed, ids, false),
        |w1: World, x: Traced| dropout::dropout_opt(w1, m.dropout, x),
    ) {
        Err(f) => (c, Err(f)),
        Ok((w2, x)) => {
            let (after, r) = hybrid::cached_op(w2, m.layers, x, c);
            (
                after,
                flow::go(
                    r,
                    |w3: World, y: Traced|
                        flow::go(
                            norm::rms_op(w3, m.norm_f, y),
                            |w4: World, z: Traced| logits_op(w4, m, z),
                        ),
                ),
            )
        },
    }
}

/// Decoding never records anything.
pub open spec fn cached_op(w: World, m: Lm, ids: IdValue, c: Seq<Slot>) -> (Seq<Slot>, Step) {
    let (after, r) = advanced_op(paused(w), m, ids, c);
    (after, resumed(r, w.tape.enabled))
}

pub open spec fn yes_or_no(b: bool) -> Seq<char> {
    if b {
        "true"@
    } else {
        "false"@
    }
}

pub open spec fn summary_of(m: Lm) -> Seq<char> {
    "Mamba3Lm(vocab="@ + crate::text::decimal(m.plan.vocab_size as nat) + ", d_model="@
        + crate::text::decimal(m.plan.stack.d_model as nat) + ", layers="@
        + crate::text::decimal(m.plan.stack.n_layers as nat) + ", tied="@ + yes_or_no(
        m.head is None,
    ) + ")"@
}

impl Mamba3Lm {
    /// The configuration this model was built from.
    pub fn config(&self) -> (r: &Mamba3LmConfig)
        ensures
            r@ == self@.plan,
    {
        &self.config
    }

    /// A line that names the sizes of the model.
    pub fn summary(&self) -> (r: String)
        ensures
            r@ == summary_of(self@),
    {
        let mut text = String::new();
        text.append("Mamba3Lm(vocab=");
        append_decimal(&mut text, self.config.vocab_size as u64);
        text.append(", d_model=");
        append_decimal(&mut text, self.config.stack.d_model as u64);
        text.append(", layers=");
        append_decimal(&mut text, self.config.stack.n_layers as u64);
        text.append(", tied=");
        if self.head.is_none() {
            text.append("true");
        } else {
            text.append("false");
        }
        text.append(")");
        proof {
            assert(text@ =~= summary_of(self@));
        }
        text
    }

    /// The mixer kind of each layer.
    pub fn layer_kinds(&self) -> (r: Vec<LayerKind>)
        ensures
            r@ == hybrid::kinds_of(self@.layers),
    {
        self.stack.kinds()
    }

    /// The layer stack.
    pub fn stack(&self) -> (r: &HybridStack)
        ensures
            r.layers@ == self@.layers,
    {
        &self.stack
    }

    /// The embedding table.
    pub fn embedding(&self) -> (r: &Embedding)
        ensures
            *r == self@.embed,
    {
        &self.embed
    }

    /// Hidden states for `[batch, seq]` ids, before the output head.
    ///
    /// `train` decides whether the forward pass is recorded for differentiation.
    pub fn hidden(&self, s: &mut Session, st: &mut Store, ids: &IdTensor, train: bool) -> (r:
        Result<Var, Error>)
        ensures
            flow::ran(
                r,
                final(s)@,
                final(st)@,
                hidden_op(flow::world(old(s)@, old(st)@), self@, ids@, train),
            ),
            !train ==> final(s)@.enabled == old(s)@.enabled,
    {
        if !train {
            let guard = no_grad(s);
            let r = self.pass(s, st, ids, false);
            guard.restore(s);
            return r;
        }
        self.pass(s, st, ids, true)
    }

    fn pass(&self, s: &mut Session, st: &mut Store, ids: &IdTensor, train: bool) -> (r: Result<
        Var,
        Error,
    >)
        ensures
            flow::ran(
                r,
                final(s)@,
                final(st)@,
                passed_op(flow::world(old(s)@, old(st)@), self@, ids@, train),
            ),
    {
        proof {
            reveal(passed_op);
        }
        let x = self.embed.lookup(s, st, ids, train)?;
        let y = apply_dropout(&self.dropout, s, st, &x)?;
        let z = self.stack.apply(s, st, &y)?;
        self.norm_f.apply(s, st, &z)
    }

    /// Project hidden states to vocabulary logits.
    pub fn logits_from(&self, s: &mut Session, st: &mut Store, hidden: &Var) -> (r: Result<
        Var,
        Error,
    >)
        ensures
            flow::ran(
                r,
                final(s)@,
                final(st)@,
                logits_op(flow::world(old(s)@, old(st)@), self@, hidden@),
            ),
    {
        proof {
            reveal(logits_op);
        }
        match &self.head {
            Some(head) => head.apply(s, st, hidden),
            None => {
                let table = self.embed.weight.var(s, st, hidden)?;
                let turned = flipped(s, &table)?;
                hidden.matmul(s, &turned)
            },
        }
    }

    fn score(&self, s: &mut Session, st: &mut Store, ids: &IdTensor, train: bool) -> (r: Result<
        Var,
        Error,
    >)
        ensures
            flow::ran(
                r,
                final(s)@,
                final(st)@,
                scored_op(flow::world(old(s)@, old(st)@), self@, ids@, train),
            ),
    {
        let hidden = self.hidden(s, st, ids, train)?;
        self.logits_from(s, st, &hidden)
    }

    /// Logits for `[batch, seq]` ids.
    pub fn forward(&self, s: &mut Session, st: &mut Store, ids: &IdTensor, train: bool) -> (r:
        Result<Var, Error>)
        ensures
            flow::ran(
                r,
                final(s)@,
                final(st)@,
                forward_op(flow::world(old(s)@, old(st)@), self@, ids@, train),
            ),
            !train ==> final(s)@.enabled == old(s)@.enabled,
    {
        if !train {
            let guard = no_grad(s);
            let r = self.score(s, st, ids, false);
            guard.restore(s);
            return r;
        }
        self.score(s, st, ids, true)
    }

    /// A zeroed decoding cache.
    pub fn empty_cache(&self, batch: usize) -> (r: Vec<LayerCache>)
        ensures
            hybrid::slots(r@) == hybrid::empty_of(self@.layers, batch),
    {
        self.stack.empty_cache(batch)
    }

    fn advance(
        &self,
        s: &mut Session,
        st: &mut Store,
        ids: &IdTensor,
        cache: &mut Vec<LayerCache>,
    ) -> (r: Result<Var, Error>)
        ensures
            hybrid::slots(final(cache)@) == advanced_op(
                flow::world(old(s)@, old(st)@),
                self@,
                ids@,
                hybrid::slots(old(cache)@),
            ).0,
            flow::ran(
                r,
                final(s)@,
                final(st)@,
                advanced_op(
                    flow::world(old(s)@, old(st)@),
                    self@,
                    ids@,
                    hybrid::slots(old(cache)@),
                ).1,
            ),
    {
        proof {
            reveal(advanced_op);
        }
        let x = self.embed.lookup(s, st, ids, false)?;
        let y = apply_dropout(&self.dropout, s, st, &x)?;
        let z = self.stack.apply_cached(s, st, &y, cache)?;
        let normed = self.norm_f.apply(s, st, &z)?;
        self.logits_from(s, st, &normed)
    }

    /// Logits for the next token, advancing `cache`.
    ///
    /// Accepts either a single token or a whole prefill window.
    pub fn forward_cached(
        &self,
        s: &mut Session,
        st: &mut Store,
        ids: &IdTensor,
        cache: &mut Vec<LayerCache>,
    ) -> (r: Result<Var, Error>)
        ensures
            hybrid::slots(final(cache)@) == cached_op(
                flow::world(old(s)@, old(st)@),
                self@,
                ids@,
                hybrid::slots(old(cache)@),
            ).0,
            flow::ran(
                r,
                final(s)@,
                final(st)@,
                cached_op(
                    flow::world(old(s)@, old(st)@),
                    self@,
                    ids@,
                    hybrid::slots(old(cache)@),
                ).1,
            ),
            final(s)@.enabled == old(s)@.enabled,
    {
        let guard = no_grad(s);
        let r = self.advance(s, st, ids, cache);
        guard.restore(s);
        r
    }
}

impl Module for Mamba3Lm {
    open spec fn parts(&self) -> Seq<Listed> {
        module::branch("embed"@, &self.embed) + module::branch("stack"@, &self.stack)
            + module::branch("norm_f"@, &self.norm_f) + module::branch_opt("head"@, self.head)
    }

    open spec fn hooks(&self) -> Seq<Part> {
        Seq::empty()
    }

    fn visit(&self, visitor: &mut ModuleVisitor) {
        broadcast use module::lemma_saw_twice;

        visitor.child("embed", &self.embed);
        visitor.child("stack", &self.stack);
        visitor.child("norm_f", &self.norm_f);
        visitor.child_opt("head", &self.head);
    }

    fn own_hooks(&self) -> Vec<Part> {
        Vec::new()
    }
}

// -- laws --------------------------------------------------------------------------------

/// A tied model has no head of its own, an untied one has; and a model has one layer of
/// the right kind per entry of its pattern.
pub proof fn law_a_model_has_what_was_asked(g: Ground, p: LmPlan)
    requires
        init_of(g, p) is Ok,
    ensures
        ({
            let m = init_of(g, p)->Ok_0.1;
            &&& m.head is None <==> p.tie_embeddings
            &&& hybrid::kinds_of(m.layers) == p.stack.pattern.layers(p.stack.n_layers)
        }),
{
    let m = init_of(g, p)->Ok_0.1;
    let kinds = p.stack.pattern.layers(p.stack.n_layers);
    let g1 = embedding::init_of(
        g,
        EmbeddingConfig {
            num_embeddings: p.vocab_size,
            dim: p.stack.d_model,
            init: embedding::small_noise(),
        },
    ).0;
    let g2 = head_of(g1, p).0;
    let store = dropout::made_opt(g2.store, p.embedding_dropout).0;
    hybrid::law_a_stack_follows_its_pattern(
        Ground { store, ..g2 },
        p.stack,
        kinds,
        p.stack.n_layers as nat,
    );
    assert(kinds.take(p.stack.n_layers as int) =~= kinds);
}

/// Decoding and evaluating leave the recording mode of the caller as it was.
pub proof fn law_inference_keeps_the_mode(w: World, m: Lm, ids: IdValue, c: Seq<Slot>)
    ensures
        hidden_op(w, m, ids, false) matches Ok(p) ==> p.0.tape.enabled == w.tape.enabled,
        forward_op(w, m, ids, false) matches Ok(p) ==> p.0.tape.enabled == w.tape.enabled,
        cached_op(w, m, ids, c).1 matches Ok(p) ==> p.0.tape.enabled == w.tape.enabled,
{
}

} // verus!
