//! Images.
//!
//! An image is cut into non-overlapping patches, embedded, and fed through a stack of
//! mixers. The one thing an image needs that a sentence does not is a view of the
//! sequence in both directions, so a block can run left to right and right to left: one
//! fused mixer per block, whose second half of heads scans right to left. Both directions
//! keep their own parameters, but every kernel runs once at double width.

use vstd::prelude::*;

use super::mamba3;
use super::mamba3::{Mamba3Mixer, Mamba3MixerConfig};
use crate::autograd::graph::{Session, Tape};
use crate::autograd::ops;
use crate::autograd::var;
use crate::autograd::var::{Traced, Var};
use crate::error::{Error, Fault};
use crate::nn::conv;
use crate::nn::conv::{PatchEmbed, PatchEmbedConfig, pair_cat, tile_error};
use crate::nn::dropout;
use crate::nn::dropout::{Dropout, apply_opt as apply_dropout};
use crate::nn::embedding;
use crate::nn::embedding::PositionalEmbedding;
use crate::nn::flow;
use crate::nn::flow::{Step, World};
use crate::nn::init;
use crate::nn::init::{Ground, Rng, Source, block, plant_if};
use crate::nn::linear;
use crate::nn::linear::{Linear, LinearConfig, apply_opt as apply_linear};
use crate::nn::lora::LoraConfig;
use crate::nn::module;
use crate::nn::module::{Layer, Listed, Module, ModuleVisitor, Part};
use crate::nn::norm;
use crate::nn::norm::{RmsNorm, RmsNormConfig};
use crate::nn::param;
use crate::nn::param::Param;
use crate::nn::quant::QuantConfig;
use crate::nn::sequential;
use crate::nn::sequential::{run_list, visit_list};
use crate::nn::store::Store;
use crate::shape::copied;
use crate::single;
use crate::ssm::config;
use crate::ssm::config::SsmConfig;
use crate::tensor;
use crate::term::{Binary, Reduce, Scalar};
use crate::text::append_decimal;

verus! {

/// How each block traverses the patch sequence.
#[derive(Debug, Clone, Copy, PartialEq, Eq, Structural)]
pub enum ScanDirection {
    /// Left to right only, as in a language model.
    Forward,
    /// Left to right and right to left. Each direction has its own half of a single fused
    /// mixer's heads, groups and channels.
    Bidirectional,
}

/// How patch features become a single vector for the classifier.
#[derive(Debug, Clone, Copy, PartialEq, Eq, Structural)]
pub enum Pooling {
    /// Average over patches.
    Mean,
    /// Read a prepended learnable class token.
    ClassToken,
    /// Use the last position, which a causal scan has seen everything through.
    Last,
}

/// Configuration for [`VisionMamba3`].
#[derive(Debug, Clone, Copy, PartialEq, Eq, Structural)]
pub struct VisionMamba3Config {
    /// Input image edge length.
    pub image_size: usize,
    /// Patch edge length.
    pub patch_size: usize,
    /// Input channels.
    pub in_channels: usize,
    /// Number of output classes. `0` builds a feature extractor with no head.
    pub num_classes: usize,
    /// Embedding width.
    pub d_model: usize,
    /// Number of blocks.
    pub n_layers: usize,
    /// Traversal direction.
    pub direction: ScanDirection,
    /// How patch features are pooled.
    pub pooling: Pooling,
    /// Settings for the mixers.
    pub ssm: SsmConfig,
    /// Dropout after the patch embedding.
    pub dropout: u32,
    /// Normalisation epsilon.
    pub norm_eps: u32,
    /// Adapters on every projection.
    pub lora: Option<LoraConfig>,
    /// Fake quantization for weights.
    pub weight_quant: Option<QuantConfig>,
    /// Initialisation seed.
    pub seed: u64,
}

pub open spec fn default_config() -> VisionMamba3Config {
    VisionMamba3Config {
        image_size: 224,
        patch_size: 16,
        in_channels: 3,
        num_classes: 1000,
        d_model: 384,
        n_layers: 12,
        direction: ScanDirection::Bidirectional,
        pooling: Pooling::Mean,
        ssm: SsmConfig {
            d_model: 384,
            n_heads: 6,
            n_groups: 6,
            head_dim: 64,
            d_state: 64,
            ..config::default_config()
        },
        dropout: single::ZERO,
        norm_eps: norm::DEFAULT_EPS,
        lora: None,
        weight_quant: None,
        seed: 0,
    }
}

impl VisionMamba3Config {
    /// Length of the sequence the mixers see.
    pub open spec fn length(self) -> nat {
        conv::patches(self.image_size, self.patch_size) + if self.pooling == Pooling::ClassToken {
            1nat
        } else {
            0nat
        }
    }

    pub open spec fn mixers(self) -> SsmConfig {
        SsmConfig { d_model: self.d_model, ..self.ssm }
    }

    /// What is wrong with the configuration, if anything.
    pub open spec fn fault(self) -> Option<Fault> {
        if !conv::tiled(self.image_size, self.patch_size) {
            Some(Fault::Config(conv::tile_message(self.image_size, self.patch_size)))
        } else if self.d_model == 0 || self.n_layers == 0 {
            Some(Fault::Config("d_model and n_layers must be positive"@))
        } else {
            config::fault_of(self.mixers())
        }
    }

    /// The settings of the mixer of a block. A bidirectional one has twice the heads and
    /// groups, which keeps the capacity of each direction.
    pub open spec fn block_mixer(self) -> Mamba3MixerConfig {
        let ssm = self.mixers();
        let both = self.direction == ScanDirection::Bidirectional;
        Mamba3MixerConfig {
            n_layers: self.n_layers,
            bidirectional: both,
            lora: self.lora,
            weight_quant: self.weight_quant,
            ..mamba3::default_mixer(
                if both {
                    SsmConfig {
                        n_heads: (2 * ssm.n_heads) as usize,
                        n_groups: (2 * ssm.n_groups) as usize,
                        ..ssm
                    }
                } else {
                    ssm
                },
            )
        }
    }

    pub open spec fn norm_config(self) -> RmsNormConfig {
        RmsNormConfig { eps: self.norm_eps, ..norm::default_rms(self.d_model) }
    }

    pub open spec fn patch_config(self) -> PatchEmbedConfig {
        PatchEmbedConfig {
            image_size: self.image_size,
            patch_size: self.patch_size,
            in_channels: self.in_channels,
            dim: self.d_model,
            bias: true,
        }
    }
}

pub open spec fn too_long() -> Fault {
    Fault::Config("the patch sequence is too long for this machine"@)
}

/// One block: its norm, then its mixer.
pub open spec fn block_of(g: Ground, c: VisionMamba3Config) -> Result<(Ground, VisionBlock), Fault> {
    let (g1, n) = norm::init_of(g, c.norm_config());
    match mamba3::init_of(g1, c.block_mixer()) {
        Err(f) => Err(f),
        Ok((g2, mixer)) => Ok((g2, VisionBlock { norm: n, mixer })),
    }
}

/// The first `k` blocks.
pub open spec fn blocks_of(g: Ground, c: VisionMamba3Config, k: nat) -> Result<
    (Ground, Seq<VisionBlock>),
    Fault,
>
    decreases k,
{
    if k == 0 {
        Ok((g, Seq::empty()))
    } else {
        match blocks_of(g, c, (k - 1) as nat) {
            Err(f) => Err(f),
            Ok((g1, before)) => match block_of(g1, c) {
                Err(f) => Err(f),
                Ok((g2, b)) => Ok((g2, before.push(b))),
            },
        }
    }
}

/// The classifier, where there are classes.
pub open spec fn head_of(g: Ground, c: VisionMamba3Config) -> (Ground, Option<Linear>) {
    if c.num_classes > 0 {
        let (h, l) = linear::init_of(g, linear::default_config(c.d_model, c.num_classes));
        (h, Some(l))
    } else {
        (g, None)
    }
}

/// The model a configuration describes: the blocks, the patch embedding, the class
/// token, the positions, dropout, the last norm, then the head.
pub open spec fn init_of(g: Ground, c: VisionMamba3Config) -> Result<(Ground, Vision), Fault> {
    match c.fault() {
        Some(f) => Err(f),
        None => if c.length() > usize::MAX {
            Err(too_long())
        } else {
            match blocks_of(g, c, c.n_layers as nat) {
                Err(f) => Err(f),
                Ok((g1, blocks)) => match conv::patch_init_of(g1, c.patch_config()) {
                    Err(f) => Err(f),
                    Ok((g2, patch_embed)) => {
                        let (g3, class_token) = init::planted_when(
                            g2,
                            c.pooling == Pooling::ClassToken,
                            tensor::fill_of(
                                Scalar::Int(0),
                                seq![1usize, 1usize, c.d_model],
                            ),
                        );
                        let (g4, pos_embed) = embedding::positional_of(
                            g3,
                            c.length() as usize,
                            c.d_model,
                        );
                        let (store, drop) = dropout::made_opt(g4.store, c.dropout);
                        let (g5, n) = norm::init_of(Ground { store, ..g4 }, c.norm_config());
                        let (g6, head) = head_of(g5, c);
                        Ok(
                            (
                                g6,
                                Vision {
                                    patch_embed,
                                    class_token,
                                    pos_embed,
                                    dropout: drop,
                                    blocks,
                                    norm: n,
                                    head,
                                    config: c,
                                },
                            ),
                        )
                    },
                },
            }
        },
    }
}

proof fn lemma_blocks_fail(g: Ground, c: VisionMamba3Config, j: nat, k: nat)
    requires
        j <= k,
        blocks_of(g, c, j) is Err,
    ensures
        blocks_of(g, c, k) == blocks_of(g, c, j),
    decreases k,
{
    if j < k {
        lemma_blocks_fail(g, c, j, (k - 1) as nat);
    }
}

impl Default for VisionMamba3Config {
    fn default() -> (r: Self)
        ensures
            r == default_config(),
    {
        VisionMamba3Config {
            image_size: 224,
            patch_size: 16,
            in_channels: 3,
            num_classes: 1000,
            d_model: 384,
            n_layers: 12,
            direction: ScanDirection::Bidirectional,
            pooling: Pooling::Mean,
            ssm: SsmConfig {
                d_model: 384,
                n_heads: 6,
                n_groups: 6,
                head_dim: 64,
                d_state: 64,
                ..SsmConfig::default()
            },
            dropout: single::ZERO,
            norm_eps: norm::DEFAULT_EPS,
            lora: None,
            weight_quant: None,
            seed: 0,
        }
    }
}

impl VisionMamba3Config {
    /// Start a builder.
    pub fn builder() -> (r: VisionMamba3ConfigBuilder)
        ensures
            r.chosen() == default_config(),
    {
        VisionMamba3ConfigBuilder { config: None }
    }

    /// Number of patches an image produces.
    pub fn num_patches(&self) -> (r: usize)
        requires
            self.patch_size > 0,
            conv::patches(self.image_size, self.patch_size) <= usize::MAX,
        ensures
            r == conv::patches(self.image_size, self.patch_size),
    {
        let side: usize = self.image_size / self.patch_size;
        side * side
    }

    /// Length of the sequence the mixers see, including any class token.
    pub fn sequence_len(&self) -> (r: usize)
        requires
            self.patch_size > 0,
            self.length() <= usize::MAX,
        ensures
            r == self.length(),
    {
        match self.pooling {
            Pooling::ClassToken => self.num_patches() + 1,
            _ => self.num_patches(),
        }
    }

    fn checked_length(&self) -> (r: Option<usize>)
        requires
            self.patch_size > 0,
        ensures
            match r {
                Some(n) => n == self.length(),
                None => self.length() > usize::MAX,
            },
    {
        let side: usize = self.image_size / self.patch_size;
        let n: usize = side.checked_mul(side)?;
        match self.pooling {
            Pooling::ClassToken => n.checked_add(1),
            _ => Some(n),
        }
    }

    fn mixers_config(&self) -> (r: SsmConfig)
        ensures
            r == self.mixers(),
    {
        SsmConfig { d_model: self.d_model, ..self.ssm }
    }

    /// Validate the configuration.
    pub fn validate(&self) -> (r: Result<(), Error>)
        ensures
            match (r, self.fault()) {
                (Ok(_), None) => true,
                (Err(e), Some(f)) => e@ == f,
                _ => false,
            },
    {
        if self.patch_size == 0 || self.image_size % self.patch_size != 0 {
            return Err(tile_error(self.image_size, self.patch_size));
        }
        if self.d_model == 0 || self.n_layers == 0 {
            return Err(Error::config("d_model and n_layers must be positive"));
        }
        self.mixers_config().validate()
    }

    fn mixer(&self) -> (r: Mamba3MixerConfig)
        requires
            self.fault() is None,
        ensures
            r == self.block_mixer(),
    {
        let ssm = self.mixers_config();
        let both: bool = match self.direction {
            ScanDirection::Bidirectional => true,
            ScanDirection::Forward => false,
        };
        let sized = if both {
            proof {
                config::lemma_heads_have_room(ssm);
            }
            SsmConfig { n_heads: ssm.n_heads * 2, n_groups: ssm.n_groups * 2, ..ssm }
        } else {
            ssm
        };
        Mamba3MixerConfig {
            n_layers: self.n_layers,
            bidirectional: both,
            lora: self.lora,
            weight_quant: self.weight_quant,
            ..Mamba3MixerConfig::new(sized)
        }
    }

    fn norm(&self) -> (r: RmsNormConfig)
        ensures
            r == self.norm_config(),
    {
        RmsNormConfig::new(self.d_model).with_eps(self.norm_eps)
    }

    fn build_blocks(&self, s: &mut Session, st: &mut Store, rng: &mut Rng) -> (r: Result<
        Vec<VisionBlock>,
        Error,
    >)
        requires
            self.fault() is None,
        ensures
            match (
                r,
                blocks_of(
                    init::ground(old(s)@, old(st)@, old(rng)@),
                    *self,
                    self.n_layers as nat,
                ),
            ) {
                (Ok(b), Ok((g, want))) => b@ == want && init::ground(
                    final(s)@,
                    final(st)@,
                    final(rng)@,
                ) == g,
                (Err(e), Err(f)) => e@ == f,
                _ => false,
            },
    {
        let ghost start = init::ground(s@, st@, rng@);
        let mixer_config = self.mixer();
        let mut blocks: Vec<VisionBlock> = Vec::new();
        let mut i: usize = 0;
        while i < self.n_layers
            invariant
                i <= self.n_layers,
                mixer_config == self.block_mixer(),
                start == init::ground(old(s)@, old(st)@, old(rng)@),
                blocks_of(start, *self, i as nat) == Ok::<(Ground, Seq<VisionBlock>), Fault>(
                    (init::ground(s@, st@, rng@), blocks@),
                ),
            decreases self.n_layers - i,
        {
            let norm = self.norm().init(s, st, rng);
            match mixer_config.init(s, st, rng) {
                Ok(mixer) => {
                    blocks.push(VisionBlock { norm, mixer });
                },
                Err(e) => {
                    proof {
                        lemma_blocks_fail(
                            start,
                            *self,
                            (i + 1) as nat,
                            self.n_layers as nat,
                        );
                    }
                    return Err(e);
                },
            }
            i += 1;
        }
        Ok(blocks)
    }

    /// Instantiate with the configured seed.
    pub fn init(&self, s: &mut Session, st: &mut Store) -> (r: Result<VisionMamba3, Error>)
        ensures
            match (
                r,
                init_of(
                    init::ground(old(s)@, old(st)@, Source { seed: self.seed, next: 0 }),
                    *self,
                ),
            ) {
                (Ok(m), Ok((g, want))) => m@ == want && final(s)@ == g.tape && final(st)@
                    == g.store,
                (Err(e), Err(f)) => e@ == f,
                _ => false,
            },
    {
        let mut rng = Rng::seeded(self.seed);
        self.init_with_rng(s, st, &mut rng)
    }

    /// Instantiate with an explicit source of random numbers.
    pub fn init_with_rng(&self, s: &mut Session, st: &mut Store, rng: &mut Rng) -> (r: Result<
        VisionMamba3,
        Error,
    >)
        ensures
            match (r, init_of(init::ground(old(s)@, old(st)@, old(rng)@), *self)) {
                (Ok(m), Ok((g, want))) => m@ == want && init::ground(
                    final(s)@,
                    final(st)@,
                    final(rng)@,
                ) == g,
                (Err(e), Err(f)) => e@ == f,
                _ => false,
            },
    {
        self.validate()?;
        let length: usize = match self.checked_length() {
            Some(n) => n,
            None => {
                return Err(Error::config("the patch sequence is too long for this machine"));
            },
        };
        let blocks = self.build_blocks(s, st, rng)?;
        let patch_embed = PatchEmbedConfig::new(
            self.image_size,
            self.patch_size,
            self.in_channels,
            self.d_model,
        ).init(s, st, rng)?;
        let wants_token: bool = match self.pooling {
            Pooling::ClassToken => true,
            _ => false,
        };
        let class_token = plant_if(
            s,
            st,
            wants_token,
            Scalar::Int(0),
            block(1, 1, self.d_model),
            Ghost(rng@),
        );
        let pos_embed = PositionalEmbedding::new(s, st, rng, length, self.d_model);
        let dropout = Dropout::when_positive(st, self.dropout);
        let norm = self.norm().init(s, st, rng);
        let head = if self.num_classes > 0 {
            Some(LinearConfig::new(self.d_model, self.num_classes).init(s, st, rng))
        } else {
            None
        };
        Ok(
            VisionMamba3 {
                patch_embed,
                class_token,
                pos_embed,
                dropout,
                blocks,
                norm,
                head,
                config: *self,
            },
        )
    }
}

/// Builder for [`VisionMamba3Config`].
#[derive(Debug, Clone, Copy, PartialEq, Eq, Structural)]
pub struct VisionMamba3ConfigBuilder {
    pub config: Option<VisionMamba3Config>,
}

impl Default for VisionMamba3ConfigBuilder {
    fn default() -> (r: Self)
        ensures
            r.chosen() == default_config(),
    {
        VisionMamba3ConfigBuilder { config: None }
    }
}

impl VisionMamba3ConfigBuilder {
    /// What has been chosen so far.
    pub open spec fn chosen(self) -> VisionMamba3Config {
        match self.config {
            Some(c) => c,
            None => default_config(),
        }
    }

    fn current(self) -> (r: VisionMamba3Config)
        ensures
            r == self.chosen(),
    {
        match self.config {
            Some(c) => c,
            None => VisionMamba3Config::default(),
        }
    }

    /// Embedding width.
    pub fn d_model(self, d_model: usize) -> (r: Self)
        ensures
            r.chosen() == (VisionMamba3Config {
                d_model,
                ssm: SsmConfig { d_model, ..self.chosen().ssm },
                ..self.chosen()
            }),
    {
        let mut c = self.current();
        c.d_model = d_model;
        c.ssm = SsmConfig { d_model, ..c.ssm };
        VisionMamba3ConfigBuilder { config: Some(c) }
    }

    /// Input image edge length.
    pub fn image_size(self, size: usize) -> (r: Self)
        ensures
            r.chosen() == (VisionMamba3Config { image_size: size, ..self.chosen() }),
    {
        let mut c = self.current();
        c.image_size = size;
        VisionMamba3ConfigBuilder { config: Some(c) }
    }

    /// Patch edge length.
    pub fn patch_size(self, size: usize) -> (r: Self)
        ensures
            r.chosen() == (VisionMamba3Config { patch_size: size, ..self.chosen() }),
    {
        let mut c = self.current();
        c.patch_size = size;
        VisionMamba3ConfigBuilder { config: Some(c) }
    }

    /// Input channels.
    pub fn in_channels(self, channels: usize) -> (r: Self)
        ensures
            r.chosen() == (VisionMamba3Config { in_channels: channels, ..self.chosen() }),
    {
        let mut c = self.current();
        c.in_channels = channels;
        VisionMamba3ConfigBuilder { config: Some(c) }
    }

    /// Number of classes; `0` omits the head.
    pub fn num_classes(self, classes: usize) -> (r: Self)
        ensures
            r.chosen() == (VisionMamba3Config { num_classes: classes, ..self.chosen() }),
    {
        let mut c = self.current();
        c.num_classes = classes;
        VisionMamba3ConfigBuilder { config: Some(c) }
    }

    /// Number of blocks.
    pub fn n_layers(self, n_layers: usize) -> (r: Self)
        ensures
            r.chosen() == (VisionMamba3Config { n_layers, ..self.chosen() }),
    {
        let mut c = self.current();
        c.n_layers = n_layers;
        VisionMamba3ConfigBuilder { config: Some(c) }
    }

    /// Traversal direction.
    pub fn direction(self, direction: ScanDirection) -> (r: Self)
        ensures
            r.chosen() == (VisionMamba3Config { direction, ..self.chosen() }),
    {
        let mut c = self.current();
        c.direction = direction;
        VisionMamba3ConfigBuilder { config: Some(c) }
    }

    /// Pooling strategy.
    pub fn pooling(self, pooling: Pooling) -> (r: Self)
        ensures
            r.chosen() == (VisionMamba3Config { pooling, ..self.chosen() }),
    {
        let mut c = self.current();
        c.pooling = pooling;
        VisionMamba3ConfigBuilder { config: Some(c) }
    }

    /// Dropout after the patch embedding.
    pub fn dropout(self, p: u32) -> (r: Self)
        ensures
            r.chosen() == (VisionMamba3Config { dropout: p, ..self.chosen() }),
    {
        let mut c = self.current();
        c.dropout = p;
        VisionMamba3ConfigBuilder { config: Some(c) }
    }

    /// Attach adapters throughout.
    pub fn lora(self, lora: LoraConfig) -> (r: Self)
        ensures
            r.chosen() == (VisionMamba3Config { lora: Some(lora), ..self.chosen() }),
    {
        let mut c = self.current();
        c.lora = Some(lora);
        VisionMamba3ConfigBuilder { config: Some(c) }
    }

    /// Fake-quantize weights throughout.
    pub fn weight_quant(self, quant: QuantConfig) -> (r: Self)
        ensures
            r.chosen() == (VisionMamba3Config { weight_quant: Some(quant), ..self.chosen() }),
    {
        let mut c = self.current();
        c.weight_quant = Some(quant);
        VisionMamba3ConfigBuilder { config: Some(c) }
    }

    /// Initialisation seed.
    pub fn seed(self, seed: u64) -> (r: Self)
        ensures
            r.chosen() == (VisionMamba3Config { seed, ..self.chosen() }),
    {
        let mut c = self.current();
        c.seed = seed;
        VisionMamba3ConfigBuilder { config: Some(c) }
    }

    /// Adjust the state-space configuration in place.
    pub fn with_ssm<F: FnOnce(&mut SsmConfig)>(self, f: F) -> (r: Self)
        requires
            forall|p: &mut SsmConfig| #[trigger] f.requires((p,)) || *p != self.chosen().ssm,
        ensures
            exists|p: &mut SsmConfig| #[trigger]
                f.ensures((p,), ()) && *p == self.chosen().ssm && r.chosen() == (
                VisionMamba3Config { ssm: *final(p), ..self.chosen() }),
    {
        let mut c = self.current();
        let mut ssm = c.ssm;
        f(&mut ssm);
        c.ssm = ssm;
        VisionMamba3ConfigBuilder { config: Some(c) }
    }

    /// Validate and build.
    pub fn build(self) -> (r: Result<VisionMamba3Config, Error>)
        ensures
            match (r, self.chosen().fault()) {
                (Ok(c), None) => c == self.chosen(),
                (Err(e), Some(f)) => e@ == f,
                _ => false,
            },
    {
        let c = self.current();
        c.validate()?;
        Ok(c)
    }
}

/// One block; a bidirectional one holds a single fused mixer whose second half of heads
/// runs right to left.
#[derive(Debug, Clone, Copy, PartialEq, Eq, Structural)]
pub struct VisionBlock {
    pub norm: RmsNorm,
    pub mixer: Mamba3Mixer,
}

/// `x + mixer(norm(x))`.
#[verifier::opaque]
pub open spec fn block_op(w: World, b: VisionBlock, input: Traced) -> Step {
    flow::go(
        norm::rms_op(w, b.norm, input),
        |w1: World, normed: Traced|
            flow::go(
                mamba3::mixer_op(w1, b.mixer, normed),
                |w2: World, mixed: Traced|
                    flow::on(w2, ops::binary_op(w2.tape, Binary::Add, input, mixed)),
            ),
    )
}

impl VisionBlock {
    /// Apply the block.
    pub fn apply(&self, s: &mut Session, st: &mut Store, input: &Var) -> (r: Result<Var, Error>)
        ensures
            flow::ran(
                r,
                final(s)@,
                final(st)@,
                block_op(flow::world(old(s)@, old(st)@), *self, input@),
            ),
    {
        proof {
            reveal(block_op);
        }
        let normed = self.norm.apply(s, st, input)?;
        let mixed = self.mixer.apply(s, st, &normed)?;
        input.add(s, &mixed)
    }
}

impl Module for VisionBlock {
    open spec fn parts(&self) -> Seq<Listed> {
        module::branch("norm"@, &self.norm) + module::branch("mixer"@, &self.mixer)
    }

    open spec fn hooks(&self) -> Seq<Part> {
        Seq::empty()
    }

    fn visit(&self, visitor: &mut ModuleVisitor) {
        broadcast use module::lemma_saw_twice;

        visitor.child("norm", &self.norm);
        visitor.child("mixer", &self.mixer);
    }

    fn own_hooks(&self) -> Vec<Part> {
        Vec::new()
    }
}

impl Layer for VisionBlock {
    open spec fn forward_op(&self, w: World, x: Traced) -> Step {
        block_op(w, *self, x)
    }

    fn forward(&self, s: &mut Session, st: &mut Store, input: &Var) -> Result<Var, Error> {
        self.apply(s, st, input)
    }
}

/// An image classifier.
pub struct VisionMamba3 {
    pub patch_embed: PatchEmbed,
    pub class_token: Option<Param>,
    pub pos_embed: PositionalEmbedding,
    pub dropout: Option<Dropout>,
    pub blocks: Vec<VisionBlock>,
    pub norm: RmsNorm,
    pub head: Option<Linear>,
    pub config: VisionMamba3Config,
}

/// An image classifier as a mathematical value.
pub struct Vision {
    pub patch_embed: PatchEmbed,
    pub class_token: Option<Param>,
    pub pos_embed: PositionalEmbedding,
    pub dropout: Option<Dropout>,
    pub blocks: Seq<VisionBlock>,
    pub norm: RmsNorm,
    pub head: Option<Linear>,
    pub config: VisionMamba3Config,
}

impl View for VisionMamba3 {
    type V = Vision;

    open spec fn view(&self) -> Vision {
        Vision {
            patch_embed: self.patch_embed,
            class_token: self.class_token,
            pos_embed: self.pos_embed,
            dropout: self.dropout,
            blocks: self.blocks@,
            norm: self.norm,
            head: self.head,
            config: self.config,
        }
    }
}

/// Patches with the class token in front of them, where there is one.
#[verifier::opaque]
pub open spec fn tokened_op(w: World, m: Vision, x: Traced, images: Traced) -> Step {
    match m.class_token {
        None => Ok((w, x)),
        Some(token) => if x.value.dims.len() == 0 {
            Err(Fault::Rank { expected: 3, got: 0, shape: x.value.dims })
        } else {
            flow::go(
                param::var_op(w, token.key(), images),
                |w1: World, v: Traced|
                    flow::go(
                        flow::on(w1, ops::expand_op(w1.tape, v, seq![x.value.dims[0], 1usize, m.config.d_model])),
                        |w2: World, cls: Traced|
                            flow::on(w2, ops::cat_op(w2.tape, seq![cls, x], 1)),
                    ),
            )
        },
    }
}

/// Patch features of a batch of images.
#[verifier::opaque]
pub open spec fn features_op(w: World, m: Vision, images: Traced) -> Step {
    flow::go(
        conv::patch_op(w, m.patch_embed, images),
        |w1: World, x: Traced|
            flow::go(
                tokened_op(w1, m, x, images),
                |w2: World, all: Traced|
                    flow::go(
                        embedding::positioned_op(w2, m.pos_embed, all, 0),
                        |w3: World, placed: Traced|
                            flow::go(
                                dropout::dropout_opt(w3, m.dropout, placed),
                                |w4: World, y: Traced|
                                    flow::go(
                                        sequential::chain_op(w4, m.blocks, y, m.blocks.len()),
                                        |w5: World, z: Traced|
                                            norm::rms_op(w5, m.norm, z),
                                    ),
                            ),
                    ),
            ),
    )
}

/// The axis of positions reduced to one, then removed.
pub open spec fn picked_op(t: Tape, c: VisionMamba3Config, x: Traced) -> Result<
    (Tape, Traced),
    Fault,
> {
    let n = x.value.dims[1];
    match c.pooling {
        Pooling::Mean => ops::reduce_op(t, Reduce::Mean, x, 1),
        Pooling::ClassToken => ops::slice_op(t, x, 1, 0, 1),
        Pooling::Last => if n == 0 {
            Err(Fault::Shape("an empty sequence has no last position"@))
        } else {
            ops::slice_op(t, x, 1, (n - 1) as usize, 1)
        },
    }
}

/// One vector per image.
pub open spec fn pool_op(t: Tape, c: VisionMamba3Config, x: Traced) -> Result<
    (Tape, Traced),
    Fault,
> {
    if x.value.dims.len() < 2 {
        Err(Fault::Rank { expected: 3, got: x.value.dims.len() as usize, shape: x.value.dims })
    } else {
        ops::next(picked_op(t, c, x), |u: Tape, y: Traced| ops::squeeze_op(u, y, 1))
    }
}

/// Class logits of a batch of images, or pooled features where there is no head.
pub open spec fn forward_op(w: World, m: Vision, images: Traced) -> Step {
    flow::go(
        features_op(w, m, images),
        |w1: World, x: Traced|
            flow::go(
                flow::on(w1, pool_op(w1.tape, m.config, x)),
                |w2: World, pooled: Traced| linear::linear_opt(w2, m.head, pooled),
            ),
    )
}

pub open spec fn direction_name(d: ScanDirection) -> Seq<char> {
    match d {
        ScanDirection::Forward => "Forward"@,
        ScanDirection::Bidirectional => "Bidirectional"@,
    }
}

pub open spec fn summary_of(c: VisionMamba3Config) -> Seq<char> {
    "VisionMamba3("@ + crate::text::decimal(c.image_size as nat) + "x"@
        + crate::text::decimal(c.image_size as nat) + " image, "@ + crate::text::decimal(
        conv::patches(c.image_size, c.patch_size),
    ) + " patches, d_model="@ + crate::text::decimal(c.d_model as nat) + ", layers="@
        + crate::text::decimal(c.n_layers as nat) + ", "@ + direction_name(c.direction) + ")"@
}

impl VisionMamba3 {
    /// The configuration this model was built from.
    pub fn config(&self) -> (r: &VisionMamba3Config)
        ensures
            *r == self@.config,
    {
        &self.config
    }

    /// A line that names the sizes of the model.
    pub fn summary(&self) -> (r: String)
        requires
            self@.config.patch_size > 0,
            conv::patches(self@.config.image_size, self@.config.patch_size) <= usize::MAX,
        ensures
            r@ == summary_of(self@.config),
    {
        let c = &self.config;
        let mut text = String::new();
        text.append("VisionMamba3(");
        append_decimal(&mut text, c.image_size as u64);
        text.append("x");
        append_decimal(&mut text, c.image_size as u64);
        text.append(" image, ");
        append_decimal(&mut text, c.num_patches() as u64);
        text.append(" patches, d_model=");
        append_decimal(&mut text, c.d_model as u64);
        text.append(", layers=");
        append_decimal(&mut text, c.n_layers as u64);
        text.append(", ");
        match c.direction {
            ScanDirection::Forward => text.append("Forward"),
            ScanDirection::Bidirectional => text.append("Bidirectional"),
        }
        text.append(")");
        proof {
            assert(text@ =~= summary_of(*c));
        }
        text
    }

    fn token(&self, s: &mut Session, st: &mut Store, x: Var, images: &Var) -> (r: Result<
        Var,
        Error,
    >)
        ensures
            flow::ran(
                r,
                final(s)@,
                final(st)@,
                tokened_op(flow::world(old(s)@, old(st)@), self@, x@, images@),
            ),
    {
        proof {
            reveal(tokened_op);
        }
        match &self.class_token {
            None => Ok(x),
            Some(token) => {
                if x.rank() == 0 {
                    return Err(Error::Rank { expected: 3, got: 0, shape: copied(x.dims()) });
                }
                let v = token.var(s, st, images)?;
                let cls = v.expand(s, &block(x.shape().dim(0), 1, self.config.d_model))?;
                pair_cat(s, &cls, &x, 1)
            },
        }
    }

    /// Patch features for `[batch, channels, height, width]` images.
    pub fn features(&self, s: &mut Session, st: &mut Store, images: &Var) -> (r: Result<Var, Error>)
        ensures
            flow::ran(
                r,
                final(s)@,
                final(st)@,
                features_op(flow::world(old(s)@, old(st)@), self@, images@),
            ),
    {
        proof {
            reveal(features_op);
        }
        let x = self.patch_embed.apply(s, st, images)?;
        let all = self.token(s, st, x, images)?;
        let placed = self.pos_embed.add_to(s, st, &all, 0)?;
        let y = apply_dropout(&self.dropout, s, st, &placed)?;
        let z = run_list(&self.blocks, s, st, &y)?;
        self.norm.apply(s, st, &z)
    }

    /// Pool patch features into one vector per image.
    pub fn pool(&self, s: &mut Session, features: &Var) -> (r: Result<Var, Error>)
        ensures
            ops::same_value(r, final(s)@, pool_op(old(s)@, self@.config, features@)),
    {
        broadcast use var::lemma_record_value;

        if features.rank() < 2 {
            return Err(
                Error::Rank {
                    expected: 3,
                    got: features.rank(),
                    shape: copied(features.dims()),
                },
            );
        }
        let n: usize = features.shape().dim(1);
        let one = match self.config.pooling {
            Pooling::Mean => features.mean_dim(s, 1)?,
            Pooling::ClassToken => features.slice(s, 1, 0, 1)?,
            Pooling::Last => {
                if n == 0 {
                    return Err(Error::shape("an empty sequence has no last position"));
                }
                features.slice(s, 1, n - 1, 1)?
            },
        };
        one.squeeze(s, 1)
    }

    /// Class logits for `[batch, channels, height, width]` images.
    pub fn forward(&self, s: &mut Session, st: &mut Store, images: &Var) -> (r: Result<Var, Error>)
        ensures
            flow::ran(
                r,
                final(s)@,
                final(st)@,
                forward_op(flow::world(old(s)@, old(st)@), self@, images@),
            ),
    {
        let x = self.features(s, st, images)?;
        let pooled = self.pool(s, &x)?;
        apply_linear(&self.head, s, st, &pooled)
    }
}

impl Module for VisionMamba3 {
    open spec fn parts(&self) -> Seq<Listed> {
        module::branch("patch_embed"@, &self.patch_embed) + module::leaf_opt(
            "class_token"@,
            self.class_token,
        ) + module::branch("pos_embed"@, &self.pos_embed) + sequential::chain_parts(
            "blocks"@,
            self.blocks@,
            self.blocks@.len(),
        ) + module::branch("norm"@, &self.norm) + module::branch_opt("head"@, self.head)
    }

    open spec fn hooks(&self) -> Seq<Part> {
        Seq::empty()
    }

    fn visit(&self, visitor: &mut ModuleVisitor) {
        broadcast use module::lemma_saw_twice;

        visitor.child("patch_embed", &self.patch_embed);
        visitor.param_opt("class_token", &self.class_token);
        visitor.child("pos_embed", &self.pos_embed);
        visit_list(visitor, "blocks", &self.blocks);
        visitor.child("norm", &self.norm);
        visitor.child_opt("head", &self.head);
    }

    fn own_hooks(&self) -> Vec<Part> {
        Vec::new()
    }
}

// -- laws --------------------------------------------------------------------------------

/// A model has one block per layer, a class token exactly when it pools by one, and a
/// head exactly when it has classes.
pub proof fn law_a_model_has_what_was_asked(g: Ground, c: VisionMamba3Config)
    requires
        init_of(g, c) is Ok,
    ensures
        ({
            let m = init_of(g, c)->Ok_0.1;
            &&& m.blocks.len() == c.n_layers
            &&& m.class_token is Some <==> c.pooling == Pooling::ClassToken
            &&& m.head is Some <==> c.num_classes > 0
            &&& forall|i: int|
                0 <= i < m.blocks.len() ==> (#[trigger] m.blocks[i]).mixer.bidirectional == (
                c.direction == ScanDirection::Bidirectional)
        }),
{
    lemma_blocks(g, c, c.n_layers as nat);
}

proof fn lemma_blocks(g: Ground, c: VisionMamba3Config, k: nat)
    requires
        blocks_of(g, c, k) is Ok,
    ensures
        blocks_of(g, c, k)->Ok_0.1.len() == k,
        forall|i: int|
            0 <= i < k ==> (#[trigger] blocks_of(g, c, k)->Ok_0.1[i]).mixer.bidirectional == (
            c.direction == ScanDirection::Bidirectional),
    decreases k,
{
    if k > 0 {
        reveal(mamba3::init_of);
        lemma_blocks(g, c, (k - 1) as nat);
        let (g1, before) = blocks_of(g, c, (k - 1) as nat)->Ok_0;
        let all = blocks_of(g, c, k)->Ok_0.1;
        assert forall|i: int| 0 <= i < k implies (#[trigger] all[i]).mixer.bidirectional == (
        c.direction == ScanDirection::Bidirectional) by {
            if i < k - 1 {
                assert(all[i] == before[i]);
            }
        }
    }
}

/// Doubling the heads and groups of a valid configuration keeps the fused mixer of a
/// bidirectional block valid on that count: both are even.
pub proof fn law_a_fused_mixer_splits_evenly(c: VisionMamba3Config)
    requires
        c.fault() is None,
        c.direction == ScanDirection::Bidirectional,
    ensures
        c.block_mixer().ssm.n_heads == 2 * c.ssm.n_heads,
        c.block_mixer().ssm.n_groups == 2 * c.ssm.n_groups,
        c.block_mixer().ssm.n_heads % 2 == 0,
        c.block_mixer().ssm.n_groups % 2 == 0,
{
    config::lemma_heads_have_room(c.mixers());
}

} // verus!
