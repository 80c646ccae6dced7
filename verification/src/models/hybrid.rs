//! Hybrid stacks: state-space mixers interleaved with attention.
//!
//! The pattern is declarative. A stack is described by how many layers it has and which
//! of them use attention; everything else - parameter naming, caching, adapters,
//! quantization - is the same either way, because both mixers are ordinary modules built
//! from the same pieces.

use vstd::prelude::*;

use super::mamba3;
use super::mamba3::{Kept, Mamba3Mixer, Mamba3MixerConfig, MixerCache};
use super::pattern::{LayerKind, LayerPattern, Layout};
use crate::autograd::graph::Session;
use crate::autograd::ops;
use crate::autograd::var::{Traced, Var};
use crate::error::{Error, Fault};
use crate::nn::attention;
use crate::nn::attention::{AttentionCache, AttentionConfig, Cached, MultiHeadAttention};
use crate::nn::flow;
use crate::nn::flow::{Step, World};
use crate::nn::init;
use crate::nn::init::{Ground, Rng};
use crate::nn::lora::LoraConfig;
use crate::nn::mlp;
use crate::nn::mlp::{Mlp, MlpConfig};
use crate::nn::module;
use crate::nn::module::{Layer, Listed, Module, ModuleVisitor, Part};
use crate::nn::norm;
use crate::nn::norm::{RmsNorm, RmsNormConfig};
use crate::nn::quant::QuantConfig;
use crate::nn::sequential;
use crate::nn::sequential::{run_list, visit_list};
use crate::nn::store::Store;
use crate::shape::copied;
use crate::ssm::config;
use crate::ssm::config::SsmConfig;
use crate::term::Binary;
use crate::text::append_decimal;

verus! {

/// Configuration for a [`HybridStack`].
#[derive(Debug)]
pub struct HybridConfig {
    /// Residual stream width.
    pub d_model: usize,
    /// Number of layers.
    pub n_layers: usize,
    /// Which layers use which mixer.
    pub pattern: LayerPattern,
    /// Settings for the state-space layers. `d_model` is overwritten to match.
    pub ssm: SsmConfig,
    /// Settings for the attention layers. `d_model` is overwritten to match.
    pub attention: AttentionConfig,
    /// Feed-forward block after each mixer. `None` gives a pure mixer stack.
    pub mlp: Option<MlpConfig>,
    /// Normalisation epsilon.
    pub norm_eps: u32,
    /// Adapters on every projection in the stack.
    pub lora: Option<LoraConfig>,
    /// Fake quantization for every projection weight.
    pub weight_quant: Option<QuantConfig>,
    /// Fake quantization for every projection input.
    pub activation_quant: Option<QuantConfig>,
}

/// A configuration as a mathematical value.
pub struct Plan {
    pub d_model: usize,
    pub n_layers: usize,
    pub pattern: Layout,
    pub ssm: SsmConfig,
    pub attention: AttentionConfig,
    pub mlp: Option<MlpConfig>,
    pub norm_eps: u32,
    pub lora: Option<LoraConfig>,
    pub weight_quant: Option<QuantConfig>,
    pub activation_quant: Option<QuantConfig>,
}

impl View for HybridConfig {
    type V = Plan;

    open spec fn view(&self) -> Plan {
        Plan {
            d_model: self.d_model,
            n_layers: self.n_layers,
            pattern: self.pattern@,
            ssm: self.ssm,
            attention: self.attention,
            mlp: self.mlp,
            norm_eps: self.norm_eps,
            lora: self.lora,
            weight_quant: self.weight_quant,
            activation_quant: self.activation_quant,
        }
    }
}

/// Twelve state-space layers of width 768.
pub open spec fn default_plan() -> Plan {
    Plan {
        d_model: 768,
        n_layers: 12,
        pattern: Layout::AllMamba,
        ssm: config::default_config(),
        attention: attention::default_config(768, 12),
        mlp: None,
        norm_eps: norm::DEFAULT_EPS,
        lora: None,
        weight_quant: None,
        activation_quant: None,
    }
}

/// One setting, unless the stack overrides it.
pub open spec fn preferred<T>(over: Option<T>, own: Option<T>) -> Option<T> {
    match over {
        Some(x) => Some(x),
        None => own,
    }
}

impl Plan {
    /// Settings of the state-space layers.
    pub open spec fn mixers(self) -> SsmConfig {
        SsmConfig { d_model: self.d_model, ..self.ssm }
    }

    /// What is wrong with the configuration, if anything.
    pub open spec fn fault(self) -> Option<Fault> {
        if self.d_model == 0 || self.n_layers == 0 {
            Some(Fault::Config("d_model and n_layers must be positive"@))
        } else {
            match self.pattern.fault(self.n_layers) {
                Some(f) => Some(f),
                None => config::fault_of(self.mixers()),
            }
        }
    }

    pub open spec fn mixer_config(self) -> Mamba3MixerConfig {
        Mamba3MixerConfig {
            n_layers: self.n_layers,
            lora: self.lora,
            weight_quant: self.weight_quant,
            activation_quant: self.activation_quant,
            ..mamba3::default_mixer(self.mixers())
        }
    }

    pub open spec fn attention_config(self) -> AttentionConfig {
        AttentionConfig {
            d_model: self.d_model,
            lora: preferred(self.lora, self.attention.lora),
            weight_quant: preferred(self.weight_quant, self.attention.weight_quant),
            ..self.attention
        }
    }

    pub open spec fn mlp_config(self, m: MlpConfig) -> MlpConfig {
        MlpConfig {
            lora: preferred(self.lora, m.lora),
            weight_quant: preferred(self.weight_quant, m.weight_quant),
            ..m
        }
    }

    pub open spec fn norm_config(self) -> RmsNormConfig {
        RmsNormConfig { eps: self.norm_eps, ..norm::default_rms(self.d_model) }
    }
}

/// The mixer of one layer.
pub open spec fn mixer_of(g: Ground, p: Plan, k: LayerKind) -> Result<(Ground, Mixer), Fault> {
    match k {
        LayerKind::Mamba => match mamba3::init_of(g, p.mixer_config()) {
            Err(f) => Err(f),
            Ok((h, m)) => Ok((h, Mixer::Mamba(m))),
        },
        LayerKind::Attention => match attention::init_of(g, p.attention_config()) {
            Err(f) => Err(f),
            Ok((h, a)) => Ok((h, Mixer::Attention(a))),
        },
    }
}

/// The feed-forward block of one layer.
pub open spec fn feed_of(g: Ground, p: Plan) -> (Ground, Option<FeedForward>) {
    match p.mlp {
        Some(m) => {
            let (g1, n) = norm::init_of(g, p.norm_config());
            let (g2, l) = mlp::init_of(g1, p.mlp_config(m));
            (g2, Some(FeedForward { norm: n, mlp: l }))
        },
        None => (g, None),
    }
}

/// One layer: its mixer, its feed-forward block, then its own norm.
#[verifier::opaque]
pub open spec fn layer_of(g: Ground, p: Plan, k: LayerKind) -> Result<(Ground, HybridLayer), Fault> {
    match mixer_of(g, p, k) {
        Err(f) => Err(f),
        Ok((g1, mixer)) => {
            let (g2, feed) = feed_of(g1, p);
            let (g3, n) = norm::init_of(g2, p.norm_config());
            Ok((g3, HybridLayer { norm: n, mixer, feed }))
        },
    }
}

/// The first `k` layers of a stack.
pub open spec fn layers_of(g: Ground, p: Plan, kinds: Seq<LayerKind>, k: nat) -> Result<
    (Ground, Seq<HybridLayer>),
    Fault,
>
    decreases k,
{
    if k == 0 {
        Ok((g, Seq::empty()))
    } else {
        match layers_of(g, p, kinds, (k - 1) as nat) {
            Err(f) => Err(f),
            Ok((g1, before)) => match layer_of(g1, p, kinds[k - 1]) {
                Err(f) => Err(f),
                Ok((g2, l)) => Ok((g2, before.push(l))),
            },
        }
    }
}

/// The stack a configuration describes.
pub open spec fn init_of(g: Ground, p: Plan) -> Result<(Ground, Seq<HybridLayer>), Fault> {
    match p.fault() {
        Some(f) => Err(f),
        None => layers_of(g, p, p.pattern.layers(p.n_layers), p.n_layers as nat),
    }
}

proof fn lemma_layers_fail(g: Ground, p: Plan, kinds: Seq<LayerKind>, j: nat, k: nat)
    requires
        j <= k,
        layers_of(g, p, kinds, j) is Err,
    ensures
        layers_of(g, p, kinds, k) == layers_of(g, p, kinds, j),
    decreases k,
{
    if j < k {
        lemma_layers_fail(g, p, kinds, j, (k - 1) as nat);
    }
}

impl Default for HybridConfig {
    fn default() -> (r: Self)
        ensures
            r@ == default_plan(),
    {
        HybridConfig {
            d_model: 768,
            n_layers: 12,
            pattern: LayerPattern::AllMamba,
            ssm: SsmConfig::default(),
            attention: AttentionConfig::new(768, 12),
            mlp: None,
            norm_eps: norm::DEFAULT_EPS,
            lora: None,
            weight_quant: None,
            activation_quant: None,
        }
    }
}

impl Clone for HybridConfig {
    fn clone(&self) -> (r: Self)
        ensures
            r@ == self@,
    {
        HybridConfig {
            d_model: self.d_model,
            n_layers: self.n_layers,
            pattern: self.pattern.clone(),
            ssm: self.ssm,
            attention: self.attention,
            mlp: self.mlp,
            norm_eps: self.norm_eps,
            lora: self.lora,
            weight_quant: self.weight_quant,
            activation_quant: self.activation_quant,
        }
    }
}

fn prefer_lora(over: Option<LoraConfig>, own: Option<LoraConfig>) -> (r: Option<LoraConfig>)
    ensures
        r == preferred(over, own),
{
    match over {
        Some(x) => Some(x),
        None => own,
    }
}

fn prefer_quant(over: Option<QuantConfig>, own: Option<QuantConfig>) -> (r: Option<QuantConfig>)
    ensures
        r == preferred(over, own),
{
    match over {
        Some(x) => Some(x),
        None => own,
    }
}

impl HybridConfig {
    /// Start a builder.
    pub fn builder() -> (r: HybridConfigBuilder)
        ensures
            r.chosen() == default_plan(),
    {
        HybridConfigBuilder { config: None }
    }

    fn mixers(&self) -> (r: SsmConfig)
        ensures
            r == self@.mixers(),
    {
        SsmConfig { d_model: self.d_model, ..self.ssm }
    }

    /// Validate the configuration.
    pub fn validate(&self) -> (r: Result<(), Error>)
        ensures
            match (r, self@.fault()) {
                (Ok(_), None) => true,
                (Err(e), Some(f)) => e@ == f,
                _ => false,
            },
    {
        if self.d_model == 0 || self.n_layers == 0 {
            return Err(Error::config("d_model and n_layers must be positive"));
        }
        self.pattern.expand(self.n_layers)?;
        self.mixers().validate()
    }

    fn build_mixer(&self, kind: LayerKind, s: &mut Session, st: &mut Store, rng: &mut Rng) -> (r:
        Result<Mixer, Error>)
        ensures
            match (r, mixer_of(init::ground(old(s)@, old(st)@, old(rng)@), self@, kind)) {
                (Ok(m), Ok((g, want))) => m == want && init::ground(
                    final(s)@,
                    final(st)@,
                    final(rng)@,
                ) == g,
                (Err(e), Err(f)) => e@ == f,
                _ => false,
            },
    {
        match kind {
            LayerKind::Mamba => {
                let c = Mamba3MixerConfig {
                    n_layers: self.n_layers,
                    lora: self.lora,
                    weight_quant: self.weight_quant,
                    activation_quant: self.activation_quant,
                    ..Mamba3MixerConfig::new(self.mixers())
                };
                Ok(Mixer::Mamba(c.init(s, st, rng)?))
            },
            LayerKind::Attention => {
                let c = AttentionConfig {
                    d_model: self.d_model,
                    lora: prefer_lora(self.lora, self.attention.lora),
                    weight_quant: prefer_quant(
                        self.weight_quant,
                        self.attention.weight_quant,
                    ),
                    ..self.attention
                };
                Ok(Mixer::Attention(c.init(s, st, rng)?))
            },
        }
    }

    fn build_feed(&self, s: &mut Session, st: &mut Store, rng: &mut Rng) -> (r: Option<FeedForward>)
        ensures
            (init::ground(final(s)@, final(st)@, final(rng)@), r) == feed_of(
                init::ground(old(s)@, old(st)@, old(rng)@),
                self@,
            ),
    {
        match &self.mlp {
            Some(m) => {
                let c = MlpConfig {
                    lora: prefer_lora(self.lora, m.lora),
                    weight_quant: prefer_quant(self.weight_quant, m.weight_quant),
                    ..*m
                };
                let norm = RmsNormConfig::new(self.d_model).with_eps(self.norm_eps).init(
                    s,
                    st,
                    rng,
                );
                let mlp = c.init(s, st, rng);
                Some(FeedForward { norm, mlp })
            },
            None => None,
        }
    }

    fn build_layer(&self, kind: LayerKind, s: &mut Session, st: &mut Store, rng: &mut Rng) -> (r:
        Result<HybridLayer, Error>)
        ensures
            match (r, layer_of(init::ground(old(s)@, old(st)@, old(rng)@), self@, kind)) {
                (Ok(l), Ok((g, want))) => l == want && init::ground(
                    final(s)@,
                    final(st)@,
                    final(rng)@,
                ) == g,
                (Err(e), Err(f)) => e@ == f,
                _ => false,
            },
    {
        proof {
            reveal(layer_of);
        }
        let mixer = self.build_mixer(kind, s, st, rng)?;
        let feed = self.build_feed(s, st, rng);
        let norm = RmsNormConfig::new(self.d_model).with_eps(self.norm_eps).init(s, st, rng);
        Ok(HybridLayer { norm, mixer, feed })
    }

    /// Instantiate.
    pub fn init(&self, s: &mut Session, st: &mut Store, rng: &mut Rng) -> (r: Result<
        HybridStack,
        Error,
    >)
        ensures
            match (r, init_of(init::ground(old(s)@, old(st)@, old(rng)@), self@)) {
                (Ok(h), Ok((g, want))) => h.layers@ == want && init::ground(
                    final(s)@,
                    final(st)@,
                    final(rng)@,
                ) == g,
                (Err(e), Err(f)) => e@ == f,
                _ => false,
            },
    {
        self.validate()?;
        let kinds = self.pattern.expand(self.n_layers)?;
        let ghost start = init::ground(s@, st@, rng@);
        let mut layers: Vec<HybridLayer> = Vec::new();
        let mut i: usize = 0;
        while i < kinds.len()
            invariant
                i <= kinds.len(),
                kinds@ == self@.pattern.layers(self@.n_layers),
                self@.fault() is None,
                start == init::ground(old(s)@, old(st)@, old(rng)@),
                layers_of(start, self@, kinds@, i as nat) == Ok::<
                    (Ground, Seq<HybridLayer>),
                    Fault,
                >((init::ground(s@, st@, rng@), layers@)),
            decreases kinds.len() - i,
        {
            match self.build_layer(kinds[i], s, st, rng) {
                Ok(l) => {
                    layers.push(l);
                },
                Err(e) => {
                    proof {
                        lemma_layers_fail(
                            start,
                            self@,
                            kinds@,
                            (i + 1) as nat,
                            kinds@.len(),
                        );
                    }
                    return Err(e);
                },
            }
            i += 1;
        }
        Ok(HybridStack { layers })
    }
}

/// Builder for [`HybridConfig`].
#[derive(Debug)]
pub struct HybridConfigBuilder {
    pub config: Option<HybridConfig>,
}

impl Default for HybridConfigBuilder {
    fn default() -> (r: Self)
        ensures
            r.chosen() == default_plan(),
    {
        HybridConfigBuilder { config: None }
    }
}

/// The number of heads that gives an inner width, as far as whole heads can.
pub open spec fn heads_for(widened: usize, head_dim: usize, rank: usize) -> int {
    let per_head = head_dim * rank;
    let heads = if per_head == 0 {
        widened as int
    } else {
        widened as int / per_head
    };
    if heads < 1 {
        1
    } else {
        heads
    }
}

/// A state-space configuration sized for an inner width.
pub open spec fn widened_ssm(c: SsmConfig, widened: usize) -> SsmConfig {
    let heads = heads_for(widened, c.head_dim, c.mode.width()) as usize;
    SsmConfig { n_heads: heads, n_groups: heads, ..c }
}

pub(crate) fn widen(c: SsmConfig, widened: usize) -> (r: SsmConfig)
    ensures
        r == widened_ssm(c, widened),
{
    let rank: usize = c.mode.rank();
    let heads: usize = match c.head_dim.checked_mul(rank) {
        Some(per_head) => if per_head == 0 {
            widened
        } else {
            widened / per_head
        },
        None => {
            proof {
                vstd::arithmetic::div_mod::lemma_basic_div(
                    widened as int,
                    c.head_dim * rank,
                );
            }
            0
        },
    };
    let n: usize = if heads == 0 {
        1
    } else {
        heads
    };
    SsmConfig { n_heads: n, n_groups: n, ..c }
}

impl HybridConfigBuilder {
    /// What has been chosen so far.
    pub open spec fn chosen(self) -> Plan {
        match self.config {
            Some(c) => c@,
            None => default_plan(),
        }
    }

    fn current(self) -> (r: HybridConfig)
        ensures
            r@ == self.chosen(),
    {
        match self.config {
            Some(c) => c,
            None => HybridConfig::default(),
        }
    }

    /// Residual stream width.
    pub fn d_model(self, d_model: usize) -> (r: Self)
        ensures
            r.chosen() == (Plan {
                d_model,
                ssm: SsmConfig { d_model, ..self.chosen().ssm },
                ..self.chosen()
            }),
    {
        let mut c = self.current();
        c.d_model = d_model;
        c.ssm = SsmConfig { d_model, ..c.ssm };
        HybridConfigBuilder { config: Some(c) }
    }

    /// Size the mixers for an inner width, by choosing the head count. `widened` is the
    /// residual width times the expansion factor, as a whole number.
    pub fn expansion(self, widened: usize) -> (r: Self)
        ensures
            r.chosen() == (Plan {
                ssm: widened_ssm(self.chosen().ssm, widened),
                ..self.chosen()
            }),
    {
        let mut c = self.current();
        c.ssm = widen(c.ssm, widened);
        HybridConfigBuilder { config: Some(c) }
    }

    /// Number of layers.
    pub fn n_layers(self, n_layers: usize) -> (r: Self)
        ensures
            r.chosen() == (Plan { n_layers, ..self.chosen() }),
    {
        let mut c = self.current();
        c.n_layers = n_layers;
        HybridConfigBuilder { config: Some(c) }
    }

    /// Mixer pattern.
    pub fn pattern(self, pattern: LayerPattern) -> (r: Self)
        ensures
            r.chosen() == (Plan { pattern: pattern@, ..self.chosen() }),
    {
        let mut c = self.current();
        c.pattern = pattern;
        HybridConfigBuilder { config: Some(c) }
    }

    /// Replace the state-space configuration.
    pub fn ssm(self, ssm: SsmConfig) -> (r: Self)
        ensures
            r.chosen() == (Plan { ssm, ..self.chosen() }),
    {
        let mut c = self.current();
        c.ssm = ssm;
        HybridConfigBuilder { config: Some(c) }
    }

    /// Replace the attention configuration.
    pub fn attention(self, attention: AttentionConfig) -> (r: Self)
        ensures
            r.chosen() == (Plan { attention, ..self.chosen() }),
    {
        let mut c = self.current();
        c.attention = attention;
        HybridConfigBuilder { config: Some(c) }
    }

    /// Add a feed-forward block after every mixer.
    pub fn mlp(self, mlp: MlpConfig) -> (r: Self)
        ensures
            r.chosen() == (Plan { mlp: Some(mlp), ..self.chosen() }),
    {
        let mut c = self.current();
        c.mlp = Some(mlp);
        HybridConfigBuilder { config: Some(c) }
    }

    /// Normalisation epsilon.
    pub fn norm_eps(self, eps: u32) -> (r: Self)
        ensures
            r.chosen() == (Plan { norm_eps: eps, ..self.chosen() }),
    {
        let mut c = self.current();
        c.norm_eps = eps;
        HybridConfigBuilder { config: Some(c) }
    }

    /// Attach adapters throughout.
    pub fn lora(self, lora: LoraConfig) -> (r: Self)
        ensures
            r.chosen() == (Plan { lora: Some(lora), ..self.chosen() }),
    {
        let mut c = self.current();
        c.lora = Some(lora);
        HybridConfigBuilder { config: Some(c) }
    }

    /// Fake-quantize weights throughout.
    pub fn weight_quant(self, quant: QuantConfig) -> (r: Self)
        ensures
            r.chosen() == (Plan { weight_quant: Some(quant), ..self.chosen() }),
    {
        let mut c = self.current();
        c.weight_quant = Some(quant);
        HybridConfigBuilder { config: Some(c) }
    }

    /// Fake-quantize activations throughout.
    pub fn activation_quant(self, quant: QuantConfig) -> (r: Self)
        ensures
            r.chosen() == (Plan { activation_quant: Some(quant), ..self.chosen() }),
    {
        let mut c = self.current();
        c.activation_quant = Some(quant);
        HybridConfigBuilder { config: Some(c) }
    }

    /// Adjust the state-space configuration in place.
    pub fn with_ssm<F: FnOnce(&mut SsmConfig)>(self, f: F) -> (r: Self)
        requires
            forall|p: &mut SsmConfig| #[trigger] f.requires((p,)) || *p != self.chosen().ssm,
        ensures
            exists|p: &mut SsmConfig| #[trigger]
                f.ensures((p,), ()) && *p == self.chosen().ssm && r.chosen() == (Plan {
                    ssm: *final(p),
                    ..self.chosen()
                }),
    {
        let mut c = self.current();
        let mut ssm = c.ssm;
        f(&mut ssm);
        c.ssm = ssm;
        HybridConfigBuilder { config: Some(c) }
    }

    /// Validate and build.
    pub fn build(self) -> (r: Result<HybridConfig, Error>)
        ensures
            match (r, self.chosen().fault()) {
                (Ok(c), None) => c@ == self.chosen(),
                (Err(e), Some(f)) => e@ == f,
                _ => false,
            },
    {
        let c = self.current();
        c.validate()?;
        Ok(c)
    }
}

/// One mixer, either kind.
#[derive(Debug, Clone, Copy, PartialEq, Eq, Structural)]
pub enum Mixer {
    Mamba(Mamba3Mixer),
    Attention(MultiHeadAttention),
}

/// A feed-forward block with its norm.
#[derive(Debug, Clone, Copy, PartialEq, Eq, Structural)]
pub struct FeedForward {
    pub norm: RmsNorm,
    pub mlp: Mlp,
}

/// Per-layer decoding state.
pub struct LayerCache {
    /// Recurrent state, when the layer is a state-space layer.
    pub mamba: Option<MixerCache>,
    /// Key/value cache, when the layer is an attention layer.
    pub attention: AttentionCache,
}

/// Per-layer decoding state as a mathematical value.
pub struct Slot {
    pub mamba: Option<Kept>,
    pub attention: Cached,
}

impl View for LayerCache {
    type V = Slot;

    open spec fn view(&self) -> Slot {
        Slot { mamba: mamba3::kept_owned(self.mamba), attention: self.attention@ }
    }
}

pub open spec fn slots(s: Seq<LayerCache>) -> Seq<Slot> {
    s.map_values(|c: LayerCache| c@)
}

/// One layer of a stack.
#[derive(Debug, Clone, Copy, PartialEq, Eq, Structural)]
pub struct HybridLayer {
    pub norm: RmsNorm,
    pub mixer: Mixer,
    pub feed: Option<FeedForward>,
}

/// A stack of pre-norm residual layers.
pub struct HybridStack {
    pub layers: Vec<HybridLayer>,
}

impl HybridLayer {
    pub open spec fn kind(self) -> LayerKind {
        match self.mixer {
            Mixer::Mamba(_) => LayerKind::Mamba,
            Mixer::Attention(_) => LayerKind::Attention,
        }
    }

    /// An empty state for a batch.
    pub open spec fn empty(self, batch: usize) -> Slot {
        Slot {
            mamba: match self.mixer {
                Mixer::Mamba(m) => Some(mamba3::empty_of(m, batch)),
                Mixer::Attention(_) => None,
            },
            attention: Cached { keys: None, values: None },
        }
    }
}

pub open spec fn kinds_of(layers: Seq<HybridLayer>) -> Seq<LayerKind> {
    layers.map_values(|l: HybridLayer| l.kind())
}

pub open spec fn empty_of(layers: Seq<HybridLayer>, batch: usize) -> Seq<Slot> {
    layers.map_values(|l: HybridLayer| l.empty(batch))
}

pub open spec fn mixed_op(w: World, m: Mixer, x: Traced) -> Step {
    match m {
        Mixer::Mamba(l) => mamba3::mixer_op(w, l, x),
        Mixer::Attention(a) => attention::attention_op(w, a, x),
    }
}

/// The residual sum, and the feed-forward block on top of it where there is one.
#[verifier::opaque]
pub open spec fn tail_op(w: World, l: HybridLayer, input: Traced, mixed: Traced) -> Step {
    flow::go(
        flow::on(w, ops::binary_op(w.tape, Binary::Add, input, mixed)),
        |w1: World, out: Traced|
            match l.feed {
                None => Ok((w1, out)),
                Some(f) => {
                    flow::go(
                        norm::rms_op(w1, f.norm, out),
                        |w2: World, normed: Traced|
                            flow::go(
                                mlp::mlp_op(w2, f.mlp, normed),
                                |w3: World, fed: Traced|
                                    flow::on(w3, ops::binary_op(w3.tape, Binary::Add, out, fed)),
                            ),
                    )
                },
            },
    )
}

#[verifier::opaque]
pub open spec fn layer_op(w: World, l: HybridLayer, input: Traced) -> Step {
    flow::go(
        norm::rms_op(w, l.norm, input),
        |w1: World, normed: Traced|
            flow::go(
                mixed_op(w1, l.mixer, normed),
                |w2: World, mixed: Traced| tail_op(w2, l, input, mixed),
            ),
    )
}

/// The mixer of one layer with its state. One position goes through the recurrence
/// where there is a state to continue; a window goes through the scan.
#[verifier::opaque]
pub open spec fn mixed_cached_op(w: World, m: Mixer, x: Traced, c: Slot, single: bool) -> (Slot, Step) {
    match m {
        Mixer::Attention(a) => {
            let (after, r) = attention::cached_op(w, a, x, c.attention);
            (Slot { attention: after, ..c }, r)
        },
        Mixer::Mamba(l) => match c.mamba {
            Some(k) => if single {
                match mamba3::step_op(w, l, x, k) {
                    Err(f) => (c, Err(f)),
                    Ok((w1, out, state)) => (
                        Slot { mamba: Some(mamba3::cut_loose(state)), ..c },
                        Ok((w1, out)),
                    ),
                }
            } else {
                match mamba3::windowed_op(w, l, x, Some(k)) {
                    Err(f) => (c, Err(f)),
                    Ok((w1, out, state)) => (
                        Slot { mamba: loosened(state), ..c },
                        Ok((w1, out)),
                    ),
                }
            },
            None => (c, mamba3::mixer_op(w, l, x)),
        },
    }
}

pub open spec fn loosened(k: Option<Kept>) -> Option<Kept> {
    match k {
        Some(x) => Some(mamba3::cut_loose(x)),
        None => None,
    }
}

/// One layer with its state.
#[verifier::opaque]
pub open spec fn layer_cached_op(w: World, l: HybridLayer, input: Traced, c: Slot, single: bool) -> (
    Slot,
    Step,
) {
    match norm::rms_op(w, l.norm, input) {
        Err(f) => (c, Err(f)),
        Ok((w1, normed)) => {
            let (after, r) = mixed_cached_op(w1, l.mixer, normed, c, single);
            (after, flow::go(r, |w2: World, mixed: Traced| tail_op(w2, l, input, mixed)))
        },
    }
}

/// The first `k` layers of a stack with their states. A layer that fails keeps the
/// later ones from running.
pub open spec fn layers_cached_op(
    w: World,
    layers: Seq<HybridLayer>,
    input: Traced,
    c: Seq<Slot>,
    single: bool,
    k: nat,
) -> (Seq<Slot>, Step)
    decreases k,
{
    if k == 0 {
        (c, Ok((w, input)))
    } else {
        let (before, r) = layers_cached_op(w, layers, input, c, single, (k - 1) as nat);
        match r {
            Err(f) => (before, Err(f)),
            Ok((w1, x)) => {
                let (slot, out) = layer_cached_op(
                    w1,
                    layers[k - 1],
                    x,
                    before[k - 1],
                    single,
                );
                (before.update(k - 1, slot), out)
            },
        }
    }
}

pub open spec fn cache_message(entries: nat, layers: nat) -> Seq<char> {
    "cache has "@ + crate::text::decimal(entries) + " entries but the stack has "@
        + crate::text::decimal(layers) + " layers"@
}

/// A whole stack with its states.
pub open spec fn cached_op(w: World, layers: Seq<HybridLayer>, input: Traced, c: Seq<Slot>) -> (
    Seq<Slot>,
    Step,
) {
    let dims = input.value.dims;
    if c.len() != layers.len() {
        (c, Err(Fault::Config(cache_message(c.len(), layers.len()))))
    } else if dims.len() < 2 {
        (c, Err(Fault::Rank { expected: 3, got: dims.len() as usize, shape: dims }))
    } else {
        layers_cached_op(w, layers, input, c, dims[1] == 1, layers.len())
    }
}

proof fn lemma_cached_fails(
    w: World,
    layers: Seq<HybridLayer>,
    input: Traced,
    c: Seq<Slot>,
    single: bool,
    j: nat,
    k: nat,
)
    requires
        j <= k,
        layers_cached_op(w, layers, input, c, single, j).1 is Err,
    ensures
        layers_cached_op(w, layers, input, c, single, k) == layers_cached_op(
            w,
            layers,
            input,
            c,
            single,
            j,
        ),
    decreases k,
{
    if j < k {
        lemma_cached_fails(w, layers, input, c, single, j, (k - 1) as nat);
    }
}

fn cache_error(entries: usize, layers: usize) -> (e: Error)
    ensures
        e@ == Fault::Config(cache_message(entries as nat, layers as nat)),
{
    let mut text = String::new();
    text.append("cache has ");
    append_decimal(&mut text, entries as u64);
    text.append(" entries but the stack has ");
    append_decimal(&mut text, layers as u64);
    text.append(" layers");
    proof {
        assert(text@ =~= cache_message(entries as nat, layers as nat));
    }
    Error::Config(text)
}

impl HybridLayer {
    fn tail(&self, s: &mut Session, st: &mut Store, input: &Var, mixed: &Var) -> (r: Result<
        Var,
        Error,
    >)
        ensures
            flow::ran(
                r,
                final(s)@,
                final(st)@,
                tail_op(flow::world(old(s)@, old(st)@), *self, input@, mixed@),
            ),
    {
        proof {
            reveal(tail_op);
        }
        let out = input.add(s, mixed)?;
        match &self.feed {
            None => Ok(out),
            Some(f) => {
                let normed = f.norm.apply(s, st, &out)?;
                let fed = f.mlp.apply(s, st, &normed)?;
                out.add(s, &fed)
            },
        }
    }

    /// Apply the layer to `[batch, seq, d_model]`.
    pub fn apply(&self, s: &mut Session, st: &mut Store, input: &Var) -> (r: Result<Var, Error>)
        ensures
            flow::ran(
                r,
                final(s)@,
                final(st)@,
                layer_op(flow::world(old(s)@, old(st)@), *self, input@),
            ),
    {
        proof {
            reveal(layer_op);
        }
        let normed = self.norm.apply(s, st, input)?;
        let mixed = match &self.mixer {
            Mixer::Mamba(m) => m.apply(s, st, &normed)?,
            Mixer::Attention(a) => a.apply(s, st, &normed)?,
        };
        self.tail(s, st, input, &mixed)
    }

    fn mix_cached(
        &self,
        s: &mut Session,
        st: &mut Store,
        x: &Var,
        cache: &mut LayerCache,
        single: bool,
    ) -> (r: Result<Var, Error>)
        ensures
            final(cache)@ == mixed_cached_op(
                flow::world(old(s)@, old(st)@),
                self.mixer,
                x@,
                old(cache)@,
                single,
            ).0,
            flow::ran(
                r,
                final(s)@,
                final(st)@,
                mixed_cached_op(
                    flow::world(old(s)@, old(st)@),
                    self.mixer,
                    x@,
                    old(cache)@,
                    single,
                ).1,
            ),
    {
        proof {
            reveal(mixed_cached_op);
        }
        match &self.mixer {
            Mixer::Attention(a) => a.apply_cached(s, st, x, &mut cache.attention),
            Mixer::Mamba(m) => {
                let (out, state) = match &cache.mamba {
                    Some(k) => if single {
                        let (out, state) = m.step(s, st, x, k)?;
                        (out, Some(state.detach()))
                    } else {
                        let (out, state) = m.apply_with_state(s, st, x, Some(k))?;
                        match state {
                            Some(c) => (out, Some(c.detach())),
                            None => (out, None),
                        }
                    },
                    None => (m.apply(s, st, x)?, None),
                };
                cache.mamba = state;
                Ok(out)
            },
        }
    }

    fn apply_cached(
        &self,
        s: &mut Session,
        st: &mut Store,
        input: &Var,
        cache: &mut LayerCache,
        single: bool,
    ) -> (r: Result<Var, Error>)
        ensures
            final(cache)@ == layer_cached_op(
                flow::world(old(s)@, old(st)@),
                *self,
                input@,
                old(cache)@,
                single,
            ).0,
            flow::ran(
                r,
                final(s)@,
                final(st)@,
                layer_cached_op(
                    flow::world(old(s)@, old(st)@),
                    *self,
                    input@,
                    old(cache)@,
                    single,
                ).1,
            ),
    {
        proof {
            reveal(layer_cached_op);
        }
        let normed = self.norm.apply(s, st, input)?;
        let mixed = self.mix_cached(s, st, &normed, cache, single)?;
        self.tail(s, st, input, &mixed)
    }
}

impl HybridStack {
    /// Number of layers.
    pub fn len(&self) -> (r: usize)
        ensures
            r == self.layers@.len(),
    {
        self.layers.len()
    }

    /// Whether the stack is empty.
    pub fn is_empty(&self) -> (r: bool)
        ensures
            r == (self.layers@.len() == 0),
    {
        self.layers.len() == 0
    }

    /// The mixer kind of each layer.
    pub fn kinds(&self) -> (r: Vec<LayerKind>)
        ensures
            r@ == kinds_of(self.layers@),
    {
        let mut out: Vec<LayerKind> = Vec::new();
        let mut i: usize = 0;
        while i < self.layers.len()
            invariant
                i <= self.layers.len(),
                out@ =~= kinds_of(self.layers@.take(i as int)),
            decreases self.layers.len() - i,
        {
            let kind = match &self.layers[i].mixer {
                Mixer::Mamba(_) => LayerKind::Mamba,
                Mixer::Attention(_) => LayerKind::Attention,
            };
            out.push(kind);
            i += 1;
        }
        proof {
            assert(self.layers@.take(self.layers@.len() as int) =~= self.layers@);
        }
        out
    }

    /// A zeroed cache for every layer.
    pub fn empty_cache(&self, batch: usize) -> (r: Vec<LayerCache>)
        ensures
            slots(r@) == empty_of(self.layers@, batch),
    {
        let mut out: Vec<LayerCache> = Vec::new();
        let mut i: usize = 0;
        while i < self.layers.len()
            invariant
                i <= self.layers.len(),
                out@.len() == i,
                slots(out@) =~= empty_of(self.layers@.take(i as int), batch),
            decreases self.layers.len() - i,
        {
            let mamba = match &self.layers[i].mixer {
                Mixer::Mamba(m) => Some(m.empty_cache(batch)),
                Mixer::Attention(_) => None,
            };
            let ghost before = slots(out@);
            out.push(LayerCache { mamba, attention: AttentionCache::new() });
            proof {
                let one = self.layers@[i as int].empty(batch);
                assert(out@[i as int]@ == one);
                assert(slots(out@) =~= before.push(one));
                assert(empty_of(self.layers@.take(i as int + 1), batch) =~= empty_of(
                    self.layers@.take(i as int),
                    batch,
                ).push(one));
            }
            i += 1;
        }
        proof {
            assert(self.layers@.take(self.layers@.len() as int) =~= self.layers@);
        }
        out
    }

    /// Run the whole stack over `[batch, seq, d_model]`.
    pub fn apply(&self, s: &mut Session, st: &mut Store, input: &Var) -> (r: Result<Var, Error>)
        ensures
            flow::ran(
                r,
                final(s)@,
                final(st)@,
                sequential::chain_op(
                    flow::world(old(s)@, old(st)@),
                    self.layers@,
                    input@,
                    self.layers@.len(),
                ),
            ),
    {
        run_list(&self.layers, s, st, input)
    }

    /// Run the stack incrementally, updating `cache` in place.
    ///
    /// Works for a single token or for a whole prefill window.
    pub fn apply_cached(
        &self,
        s: &mut Session,
        st: &mut Store,
        input: &Var,
        cache: &mut Vec<LayerCache>,
    ) -> (r: Result<Var, Error>)
        ensures
            slots(final(cache)@) == cached_op(
                flow::world(old(s)@, old(st)@),
                self.layers@,
                input@,
                slots(old(cache)@),
            ).0,
            flow::ran(
                r,
                final(s)@,
                final(st)@,
                cached_op(
                    flow::world(old(s)@, old(st)@),
                    self.layers@,
                    input@,
                    slots(old(cache)@),
                ).1,
            ),
    {
        if cache.len() != self.layers.len() {
            return Err(cache_error(cache.len(), self.layers.len()));
        }
        if input.rank() < 2 {
            return Err(
                Error::Rank { expected: 3, got: input.rank(), shape: copied(input.dims()) },
            );
        }
        let single: bool = input.shape().dim(1) == 1;
        let ghost start = flow::world(s@, st@);
        let ghost first = slots(cache@);
        let mut current = input.clone();
        let mut i: usize = 0;
        while i < self.layers.len()
            invariant
                i <= self.layers.len(),
                cache.len() == self.layers.len(),
                start == flow::world(old(s)@, old(st)@),
                first == slots(old(cache)@),
                first.len() == self.layers@.len(),
                input@.value.dims.len() >= 2,
                single == (input@.value.dims[1] == 1),
                layers_cached_op(
                    start,
                    self.layers@,
                    input@,
                    first,
                    single,
                    i as nat,
                ) == (
                    slots(cache@),
                    Ok::<(World, Traced), Fault>((flow::world(s@, st@), current@)),
                ),
            decreases self.layers.len() - i,
        {
            let ghost held = slots(cache@);
            let r = self.layers[i].apply_cached(s, st, &current, &mut cache[i], single);
            proof {
                assert(slots(cache@) =~= held.update(i as int, cache@[i as int]@));
            }
            match r {
                Ok(next) => {
                    current = next;
                },
                Err(e) => {
                    proof {
                        lemma_cached_fails(
                            start,
                            self.layers@,
                            input@,
                            first,
                            single,
                            (i + 1) as nat,
                            self.layers@.len(),
                        );
                    }
                    return Err(e);
                },
            }
            i += 1;
        }
        Ok(current)
    }
}

impl Module for HybridLayer {
    open spec fn parts(&self) -> Seq<Listed> {
        module::branch("norm"@, &self.norm) + (match self.mixer {
            Mixer::Mamba(m) => module::branch("mixer"@, &m),
            Mixer::Attention(a) => module::branch("attention"@, &a),
        }) + (match self.feed {
            Some(f) => module::branch("mlp_norm"@, &f.norm) + module::branch("mlp"@, &f.mlp),
            None => Seq::empty(),
        })
    }

    open spec fn hooks(&self) -> Seq<Part> {
        Seq::empty()
    }

    fn visit(&self, visitor: &mut ModuleVisitor) {
        broadcast use {module::lemma_saw_twice, module::lemma_saw_nothing};

        let ghost start = visitor@;
        visitor.child("norm", &self.norm);
        match &self.mixer {
            Mixer::Mamba(m) => {
                visitor.child("mixer", m);
            },
            Mixer::Attention(a) => {
                visitor.child("attention", a);
            },
        }
        let ghost middle = visitor@;
        match &self.feed {
            Some(f) => {
                visitor.child("mlp_norm", &f.norm);
                visitor.child("mlp", &f.mlp);
                proof {
                    module::lemma_saw_twice(
                        middle,
                        module::branch("mlp_norm"@, &f.norm),
                        module::branch("mlp"@, &f.mlp),
                    );
                }
            },
            None => {},
        }
        proof {
            assert(visitor@ == middle.saw(match self.feed {
                Some(f) => module::branch("mlp_norm"@, &f.norm) + module::branch(
                    "mlp"@,
                    &f.mlp,
                ),
                None => Seq::empty(),
            }));
        }
    }

    fn own_hooks(&self) -> Vec<Part> {
        Vec::new()
    }
}

impl Layer for HybridLayer {
    open spec fn forward_op(&self, w: World, x: Traced) -> Step {
        layer_op(w, *self, x)
    }

    fn forward(&self, s: &mut Session, st: &mut Store, input: &Var) -> Result<Var, Error> {
        self.apply(s, st, input)
    }
}

impl Module for HybridStack {
    open spec fn parts(&self) -> Seq<Listed> {
        sequential::chain_parts("layers"@, self.layers@, self.layers@.len())
    }

    open spec fn hooks(&self) -> Seq<Part> {
        Seq::empty()
    }

    fn visit(&self, visitor: &mut ModuleVisitor) {
        visit_list(visitor, "layers", &self.layers);
    }

    fn own_hooks(&self) -> Vec<Part> {
        Vec::new()
    }
}

impl Layer for HybridStack {
    open spec fn forward_op(&self, w: World, x: Traced) -> Step {
        sequential::chain_op(w, self.layers@, x, self.layers@.len())
    }

    fn forward(&self, s: &mut Session, st: &mut Store, input: &Var) -> Result<Var, Error> {
        self.apply(s, st, input)
    }
}

// -- laws --------------------------------------------------------------------------------

/// A stack has one layer per entry of its pattern, of the kind the entry names.
pub proof fn law_a_stack_follows_its_pattern(g: Ground, p: Plan, kinds: Seq<LayerKind>, k: nat)
    requires
        k <= kinds.len(),
        layers_of(g, p, kinds, k) is Ok,
    ensures
        kinds_of(layers_of(g, p, kinds, k)->Ok_0.1) == kinds.take(k as int),
    decreases k,
{
    let layers = layers_of(g, p, kinds, k)->Ok_0.1;
    if k > 0 {
        law_a_stack_follows_its_pattern(g, p, kinds, (k - 1) as nat);
        let (g1, before) = layers_of(g, p, kinds, (k - 1) as nat)->Ok_0;
        let l = layer_of(g1, p, kinds[k - 1])->Ok_0.1;
        assert(layers == before.push(l));
        reveal(layer_of);
        assert(l.kind() == kinds[k - 1]);
        assert(kinds_of(layers) =~= kinds_of(before).push(l.kind()));
        assert(kinds.take(k as int) =~= kinds.take(k - 1).push(kinds[k - 1]));
    } else {
        assert(kinds_of(layers) =~= kinds.take(0));
    }
}

/// A state that hangs on no tape.
pub open spec fn free(c: Slot) -> bool {
    match c.mamba {
        Some(k) => k == mamba3::cut_loose(k),
        None => true,
    }
}

/// Decoding keeps the number of states, and leaves none of the states it passed through
/// on a tape: a cache never keeps a graph alive from one step to the next. A layer that
/// has no recurrent state is not given one.
pub proof fn law_decoding_leaves_no_tape(
    w: World,
    layers: Seq<HybridLayer>,
    input: Traced,
    c: Seq<Slot>,
    single: bool,
    k: nat,
)
    requires
        k <= layers.len(),
        c.len() == layers.len(),
        layers_cached_op(w, layers, input, c, single, k).1 is Ok,
        forall|i: int|
            0 <= i < c.len() ==> ((#[trigger] layers[i]).mixer is Attention ==> c[i].mamba is None),
    ensures
        ({
            let after = layers_cached_op(w, layers, input, c, single, k).0;
            &&& after.len() == c.len()
            &&& forall|i: int| 0 <= i < k ==> free(#[trigger] after[i])
            &&& forall|i: int| k <= i < c.len() ==> #[trigger] after[i] == c[i]
            &&& forall|i: int|
                0 <= i < c.len() && c[i].mamba is None ==> (#[trigger] after[i]).mamba is None
        }),
    decreases k,
{
    if k > 0 {
        law_decoding_leaves_no_tape(w, layers, input, c, single, (k - 1) as nat);
        let (before, r) = layers_cached_op(w, layers, input, c, single, (k - 1) as nat);
        let (w1, x) = r->Ok_0;
        let l = layers[k - 1];
        let slot = layer_cached_op(w1, l, x, before[k - 1], single).0;
        assert(before[k - 1] == c[k - 1]);
        lemma_layer_frees(w1, l, x, before[k - 1], single);
    }
}

proof fn lemma_layer_frees(w: World, l: HybridLayer, x: Traced, c: Slot, single: bool)
    requires
        layer_cached_op(w, l, x, c, single).1 is Ok,
        l.mixer is Attention ==> c.mamba is None,
    ensures
        free(layer_cached_op(w, l, x, c, single).0),
        c.mamba is None ==> layer_cached_op(w, l, x, c, single).0.mamba is None,
{
    reveal(layer_cached_op);
    reveal(mixed_cached_op);
    let (u, normed) = norm::rms_op(w, l.norm, x)->Ok_0;
    if let Mixer::Mamba(m) = l.mixer {
        if let Some(kept) = c.mamba {
            if single {
                mamba3::law_detached_state_is_free(mamba3::step_op(u, m, normed, kept)->Ok_0.2);
            } else {
                let state = mamba3::windowed_op(u, m, normed, Some(kept))->Ok_0.2;
                if let Some(z) = state {
                    mamba3::law_detached_state_is_free(z);
                }
            }
        }
    }
}

} // verus!
