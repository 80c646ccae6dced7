//! The token mixer and its residual block.
//!
//! One fused input projection produces everything the layer needs:
//!
//! ```text
//! u -> in_proj -> [ z | x | B | C | dt | lambda | theta ]
//! ```
//!
//! `x`, `B` and `C` optionally pass through a short causal convolution; `B` and `C` then
//! get per-head channel biases and a normalisation. `dt` becomes positive through a
//! softplus, `lambda` is squashed into `[0, 1]`, and `theta` feeds the rotational state
//! transition. The scan runs, the output is gated by `silu(z)`, and one more projection
//! returns to the residual stream.

use vstd::prelude::*;

use crate::autograd::graph::{Session, Tape};
use crate::autograd::ops;
use crate::autograd::var::{Traced, Var};
use crate::error::{Error, Fault};
use crate::nn::conv;
use crate::nn::conv::{CausalConv1d, CausalConv1dConfig};
use crate::nn::flow;
use crate::nn::flow::{Step, World};
use crate::nn::init;
use crate::nn::init::{
    FIFTIETH, Ground, Initializer, Rng, Source, block, five, four, grid, plant_if, row, six,
};
use crate::nn::linear;
use crate::nn::linear::{Linear, LinearConfig};
use crate::nn::lora::LoraConfig;
use crate::nn::module;
use crate::nn::module::{Layer, Listed, Module, ModuleVisitor, Part};
use crate::nn::norm;
use crate::nn::norm::{RmsNorm, RmsNormConfig, apply_opt as apply_norm};
use crate::nn::param;
use crate::nn::param::Param;
use crate::nn::quant;
use crate::nn::quant::{QuantConfig, join};
use crate::nn::store::Store;
use crate::shape::copied;
use crate::single;
use crate::ssm::bands;
use crate::ssm::config;
use crate::ssm::config::{SsmConfig, StateDynamics, TEN_THOUSANDTH, Widths};
use crate::ssm::scan;
use crate::ssm::scan::{
    Carried, Given, ScanInputs, SsmState, copied_var, count_opt, detached_var, mamba3_scan,
    mamba3_state,
};
use crate::tensor;
use crate::tensor::{Tensor, Value};
use crate::term::{Binary, Scalar, Special, Unary};
use crate::text::{append_bracketed, append_decimal};

verus! {

/// Per-layer state carried between decoding steps.
pub struct MixerCache {
    /// Recurrent state.
    pub ssm: SsmState,
    /// The last `kernel_size - 1` convolution inputs, if the mixer has a convolution.
    pub conv: Option<Var>,
}

/// Per-layer state as a mathematical value.
pub struct Kept {
    pub ssm: Carried,
    pub conv: Option<Traced>,
}

impl View for MixerCache {
    type V = Kept;

    open spec fn view(&self) -> Kept {
        Kept { ssm: self.ssm@, conv: scan::traced_opt(self.conv) }
    }
}

/// A state without its tape.
pub open spec fn cut_loose(k: Kept) -> Kept {
    Kept {
        ssm: Carried {
            hidden: scan::detached(k.ssm.hidden),
            angle: scan::detached_opt(k.ssm.angle),
        },
        conv: scan::detached_opt(k.conv),
    }
}

/// The number of elements a state holds.
pub open spec fn kept_elements(k: Kept) -> nat {
    crate::shape::product(k.ssm.hidden.value.dims) + scan::elements(k.ssm.angle) + scan::elements(
        k.conv,
    )
}

impl Clone for MixerCache {
    fn clone(&self) -> (r: Self)
        ensures
            r@ == self@,
    {
        MixerCache { ssm: self.ssm.clone(), conv: copied_var(&self.conv) }
    }
}

impl MixerCache {
    /// Drop every tape link, so a cached state cannot keep a graph alive across
    /// decoding steps.
    pub fn detach(&self) -> (r: Self)
        ensures
            r@ == cut_loose(self@),
    {
        MixerCache { ssm: self.ssm.detach(), conv: detached_var(&self.conv) }
    }

    /// Elements held by this cache; `None` when the count does not fit a machine word.
    pub fn num_elements(&self) -> (r: Option<usize>)
        ensures
            match r {
                Some(n) => n == kept_elements(self@),
                None => kept_elements(self@) > usize::MAX,
            },
    {
        let a: usize = self.ssm.num_elements()?;
        let b: usize = count_opt(&self.conv)?;
        a.checked_add(b)
    }
}

/// Builder-friendly configuration for [`Mamba3Mixer`].
#[derive(Debug, Clone, Copy, PartialEq, Eq, Structural)]
pub struct Mamba3MixerConfig {
    pub ssm: SsmConfig,
    pub lora: Option<LoraConfig>,
    pub weight_quant: Option<QuantConfig>,
    pub activation_quant: Option<QuantConfig>,
    /// Residual-branch rescaling for the output projection.
    pub n_layers: usize,
    pub bidirectional: bool,
}

/// A mixer around a state-space configuration and nothing else.
pub open spec fn default_mixer(ssm: SsmConfig) -> Mamba3MixerConfig {
    Mamba3MixerConfig {
        ssm,
        lora: None,
        weight_quant: None,
        activation_quant: None,
        n_layers: 1,
        bidirectional: false,
    }
}

/// A projection of the mixer.
pub open spec fn linear_of(c: Mamba3MixerConfig, inputs: usize, outputs: usize, i: Initializer) -> LinearConfig {
    LinearConfig {
        bias: c.ssm.bias,
        initializer: i,
        lora: c.lora,
        weight_quant: c.weight_quant,
        activation_quant: c.activation_quant,
        ..linear::default_config(inputs, outputs)
    }
}

/// What is wrong with a configuration, if anything.
pub open spec fn mixer_fault(c: Mamba3MixerConfig) -> Option<Fault> {
    match config::fault_of(c.ssm) {
        Some(f) => Some(f),
        None => if c.bidirectional && (c.ssm.n_heads % 2 != 0 || c.ssm.n_groups % 2 != 0) {
            Some(
                Fault::Config(
                    "a bidirectional mixer needs even n_heads and n_groups: half of each runs backward"@,
                ),
            )
        } else if c.bidirectional && c.ssm.post_gate_norm {
            Some(
                Fault::Config(
                    "post_gate_norm would normalise across both directions at once; use bc_norm with a bidirectional mixer"@,
                ),
            )
        } else {
            None
        },
    }
}

/// Step biases whose softplus is log-uniform between the two bounds, and no smaller than
/// the floor: the inverse softplus of the step.
pub open spec fn step_biases(g: Source, c: SsmConfig) -> Value {
    let dims = seq![c.n_heads];
    let raw = init::uniform_of(g, Scalar::BitsLn(c.dt_min), Scalar::BitsLn(c.dt_max), dims);
    let dt = quant::joined(
        Binary::Maximum,
        tensor::unary_of(Unary::Exp, raw),
        tensor::fill_of(Scalar::Bits(c.dt_init_floor), dims),
    );
    let rest = tensor::unary_of(
        Unary::Neg,
        tensor::unary_of(Unary::Special(Special::Expm1), tensor::unary_of(Unary::Neg, dt)),
    );
    quant::joined(Binary::Add, dt, tensor::unary_of(Unary::Log, rest))
}

/// Log decays: the logarithm of uniform draws, kept away from zero.
pub open spec fn log_decays(g: Source, c: SsmConfig) -> Value {
    let dims = seq![c.n_heads];
    tensor::unary_of(
        Unary::Log,
        quant::joined(
            Binary::Maximum,
            init::uniform_of(g, Scalar::Bits(c.a_init_min), Scalar::Bits(c.a_init_max), dims),
            tensor::fill_of(Scalar::Bits(TEN_THOUSANDTH), dims),
        ),
    )
}

/// The short convolution, where there is one.
pub open spec fn conv_of(g: Ground, c: SsmConfig, w: Widths) -> (Ground, Option<CausalConv1d>) {
    match c.conv_kernel {
        Some(k) => {
            let (after, l) = conv::init_of(g, conv::default_conv(w.conv, k));
            (after, Some(l))
        },
        None => (g, None),
    }
}

/// The layer a configuration describes.
#[verifier::opaque]
pub open spec fn init_of(g: Ground, c: Mamba3MixerConfig) -> Result<(Ground, Mamba3Mixer), Fault> {
    match mixer_fault(c) {
        Some(f) => Err(f),
        None => {
            let s = c.ssm;
            let w = config::widths_of(s)->0;
            let dt_value = step_biases(g.rng, s);
            let a_value = log_decays(g.rng.drawn(), s);
            let g0 = Ground { rng: g.rng.drawn().drawn(), ..g };
            let (g1, in_proj) = linear::init_of(
                g0,
                linear_of(
                    c,
                    s.d_model,
                    w.total,
                    Initializer::Normal { mean: single::ZERO, std: FIFTIETH },
                ),
            );
            let (g2, out_proj) = linear::init_of(
                g1,
                linear_of(
                    c,
                    w.inner,
                    s.d_model,
                    Initializer::ResidualScaled { std: FIFTIETH, n_layers: c.n_layers },
                ),
            );
            let (g3, conv) = conv_of(g2, s, w);
            let (g4, dt_bias) = init::planted(g3, dt_value);
            let (g5, a_log) = init::planted(g4, a_value);
            let (g6, d_skip) = init::planted_when(
                g5,
                s.skip_connection,
                tensor::fill_of(Scalar::Int(1), seq![s.n_heads]),
            );
            let zeros = tensor::fill_of(Scalar::Int(0), seq![s.n_heads, s.d_state]);
            let (g7, b_bias) = init::planted_when(g6, s.bc_bias, zeros);
            let (g8, c_bias) = init::planted_when(g7, s.bc_bias, zeros);
            let (g9, bc_norm) = norm::init_when(g8, s.bc_norm, norm::default_rms(s.d_state));
            let (g10, post_gate_norm) = norm::init_when(
                g9,
                s.post_gate_norm,
                norm::default_rms(w.inner),
            );
            Ok(
                (
                    g10,
                    Mamba3Mixer {
                        in_proj,
                        out_proj,
                        conv,
                        dt_bias,
                        a_log,
                        d_skip,
                        b_bias,
                        c_bias,
                        bc_norm,
                        post_gate_norm,
                        bidirectional: c.bidirectional,
                        config: s,
                        widths: w,
                    },
                ),
            )
        },
    }
}

impl Mamba3MixerConfig {
    /// Wrap an [`SsmConfig`].
    pub fn new(ssm: SsmConfig) -> (r: Self)
        ensures
            r == default_mixer(ssm),
    {
        Mamba3MixerConfig {
            ssm,
            lora: None,
            weight_quant: None,
            activation_quant: None,
            n_layers: 1,
            bidirectional: false,
        }
    }

    /// Run the second half of the heads right-to-left.
    ///
    /// One mixer owns both directions' parameters, direction-major along the head, group
    /// and channel axes. Only the direction-sensitive inputs have their backward halves
    /// reversed in time before the convolution and the scan, and the backward heads'
    /// output is reversed back afterwards. Requires even `n_heads` and `n_groups`.
    pub fn with_bidirectional(self, bidirectional: bool) -> (r: Self)
        ensures
            r == (Mamba3MixerConfig { bidirectional, ..self }),
    {
        Mamba3MixerConfig { bidirectional, ..self }
    }

    /// Attach adapters to the input and output projections.
    pub fn with_lora(self, lora: LoraConfig) -> (r: Self)
        ensures
            r == (Mamba3MixerConfig { lora: Some(lora), ..self }),
    {
        Mamba3MixerConfig { lora: Some(lora), ..self }
    }

    /// Fake-quantize projection weights.
    pub fn with_weight_quant(self, config: QuantConfig) -> (r: Self)
        ensures
            r == (Mamba3MixerConfig { weight_quant: Some(config), ..self }),
    {
        Mamba3MixerConfig { weight_quant: Some(config), ..self }
    }

    /// Fake-quantize projection inputs.
    pub fn with_activation_quant(self, config: QuantConfig) -> (r: Self)
        ensures
            r == (Mamba3MixerConfig { activation_quant: Some(config), ..self }),
    {
        Mamba3MixerConfig { activation_quant: Some(config), ..self }
    }

    /// Number of blocks in the surrounding stack; used to scale the output projection's
    /// initialisation.
    pub fn with_depth(self, n_layers: usize) -> (r: Self)
        ensures
            r == (Mamba3MixerConfig { n_layers, ..self }),
    {
        Mamba3MixerConfig { n_layers, ..self }
    }

    /// The underlying state-space configuration.
    pub fn ssm(&self) -> (r: &SsmConfig)
        ensures
            *r == self.ssm,
    {
        &self.ssm
    }

    fn linear(&self, d_in: usize, d_out: usize, i: Initializer) -> (r: LinearConfig)
        ensures
            r == linear_of(*self, d_in, d_out, i),
    {
        LinearConfig {
            bias: self.ssm.bias,
            initializer: i,
            lora: self.lora,
            weight_quant: self.weight_quant,
            activation_quant: self.activation_quant,
            ..LinearConfig::new(d_in, d_out)
        }
    }

    fn check(&self) -> (r: Result<Widths, Error>)
        ensures
            match (r, mixer_fault(*self)) {
                (Ok(w), None) => config::widths_of(self.ssm) == Some(w),
                (Err(e), Some(f)) => e@ == f,
                _ => false,
            },
    {
        self.ssm.validate()?;
        if self.bidirectional {
            if self.ssm.n_heads % 2 != 0 || self.ssm.n_groups % 2 != 0 {
                return Err(
                    Error::config(
                        "a bidirectional mixer needs even n_heads and n_groups: half of each runs backward",
                    ),
                );
            }
            if self.ssm.post_gate_norm {
                return Err(
                    Error::config(
                        "post_gate_norm would normalise across both directions at once; use bc_norm with a bidirectional mixer",
                    ),
                );
            }
        }
        match self.ssm.widths() {
            Some(w) => Ok(w),
            None => Err(Error::config("the projection is too wide for this machine")),
        }
    }

    /// Instantiate.
    pub fn init(&self, s: &mut Session, st: &mut Store, rng: &mut Rng) -> (r: Result<
        Mamba3Mixer,
        Error,
    >)
        ensures
            match (r, init_of(init::ground(old(s)@, old(st)@, old(rng)@), *self)) {
                (Ok(m), Ok((g, want))) => m == want && init::ground(
                    final(s)@,
                    final(st)@,
                    final(rng)@,
                ) == g,
                (Err(e), Err(f)) => e@ == f && final(s)@ == old(s)@ && final(st)@ == old(st)@
                    && final(rng)@ == old(rng)@,
                _ => false,
            },
    {
        proof {
            reveal(init_of);
        }
        let widths = self.check()?;
        let c = &self.ssm;
        let dt_value = draw_step_biases(c, rng);
        let a_value = draw_log_decays(c, rng);
        let first = Initializer::Normal { mean: single::ZERO, std: FIFTIETH };
        let in_proj = self.linear(c.d_model, widths.total, first).init(s, st, rng);
        let scaled = Initializer::ResidualScaled { std: FIFTIETH, n_layers: self.n_layers };
        let out_proj = self.linear(widths.inner, c.d_model, scaled).init(s, st, rng);
        let conv = match c.conv_kernel {
            Some(k) => Some(CausalConv1dConfig::new(widths.conv, k).init(s, st, rng)),
            None => None,
        };
        let dt_bias = Param::new(s, st, dt_value);
        let a_log = Param::new(s, st, a_value);
        let d_skip = plant_if(
            s,
            st,
            c.skip_connection,
            Scalar::Int(1),
            row(c.n_heads),
            Ghost(rng@),
        );
        let b_bias = plant_if(
            s,
            st,
            c.bc_bias,
            Scalar::Int(0),
            grid(c.n_heads, c.d_state),
            Ghost(rng@),
        );
        let c_bias = plant_if(
            s,
            st,
            c.bc_bias,
            Scalar::Int(0),
            grid(c.n_heads, c.d_state),
            Ghost(rng@),
        );
        let bc_norm = RmsNormConfig::new(c.d_state).init_if(c.bc_norm, s, st, rng);
        let post_gate_norm = RmsNormConfig::new(widths.inner).init_if(
            c.post_gate_norm,
            s,
            st,
            rng,
        );
        Ok(
            Mamba3Mixer {
                in_proj,
                out_proj,
                conv,
                dt_bias,
                a_log,
                d_skip,
                b_bias,
                c_bias,
                bc_norm,
                post_gate_norm,
                bidirectional: self.bidirectional,
                config: *c,
                widths,
            },
        )
    }
}

fn draw_step_biases(c: &SsmConfig, rng: &mut Rng) -> (r: Tensor)
    ensures
        r@ == step_biases(old(rng)@, *c),
        final(rng)@ == old(rng)@.drawn(),
{
    let raw = rng.uniform(
        Scalar::BitsLn(c.dt_min),
        Scalar::BitsLn(c.dt_max),
        row(c.n_heads),
    );
    let floor = Tensor::fill(Scalar::Bits(c.dt_init_floor), row(c.n_heads));
    let dt = join(Binary::Maximum, &raw.unary(Unary::Exp), &floor);
    let rest = dt.unary(Unary::Neg).unary(Unary::Special(Special::Expm1)).unary(Unary::Neg);
    join(Binary::Add, &dt, &rest.unary(Unary::Log))
}

fn draw_log_decays(c: &SsmConfig, rng: &mut Rng) -> (r: Tensor)
    ensures
        r@ == log_decays(old(rng)@, *c),
        final(rng)@ == old(rng)@.drawn(),
{
    let raw = rng.uniform(
        Scalar::Bits(c.a_init_min),
        Scalar::Bits(c.a_init_max),
        row(c.n_heads),
    );
    let floor = Tensor::fill(Scalar::Bits(TEN_THOUSANDTH), row(c.n_heads));
    join(Binary::Maximum, &raw, &floor).unary(Unary::Log)
}

/// The token mixer.
#[derive(Debug, Clone, Copy, PartialEq, Eq, Structural)]
pub struct Mamba3Mixer {
    pub in_proj: Linear,
    pub out_proj: Linear,
    pub conv: Option<CausalConv1d>,
    pub dt_bias: Param,
    pub a_log: Param,
    pub d_skip: Option<Param>,
    pub b_bias: Option<Param>,
    pub c_bias: Option<Param>,
    pub bc_norm: Option<RmsNorm>,
    pub post_gate_norm: Option<RmsNorm>,
    pub bidirectional: bool,
    pub config: SsmConfig,
    pub widths: Widths,
}

// -- the fused projection --------------------------------------------------------------

/// The widths of the pieces that run in both directions, in the order of the projection.
pub open spec fn directed(w: Widths) -> Seq<usize> {
    seq![w.inner, w.maps, w.maps, w.heads, w.lambda, w.theta]
}

/// The backward halves of the first `k` pieces that start at `offset`. A piece that is
/// missing has none.
pub open spec fn backward_bands(offset: int, widths: Seq<usize>, k: nat) -> Seq<(usize, usize)>
    decreases k,
{
    if k == 0 {
        Seq::empty()
    } else {
        let before = backward_bands(offset, widths, (k - 1) as nat);
        let start = offset + tensor::total(widths.take(k - 1));
        let width = widths[k - 1];
        if width > 0 {
            before.push(((start + width / 2) as usize, (start + width) as usize))
        } else {
            before
        }
    }
}

pub open spec fn too_wide() -> Fault {
    Fault::Config("the projection is too wide for this machine"@)
}

/// The projection, with the backward half of every piece that feeds the convolution or
/// the scan put into reversed time. Gating stays in ordinary time.
#[verifier::opaque]
pub open spec fn fused_op(w: World, m: Mamba3Mixer, input: Traced) -> Step {
    flow::go(
        linear::linear_op(w, m.in_proj, input),
        |w1: World, v: Traced|
            if !m.bidirectional {
                Ok((w1, v))
            } else if m.widths.inner + tensor::total(directed(m.widths)) > usize::MAX {
                Err(too_wide())
            } else {
                flow::on(
                    w1,
                    bands::reversed_op(
                        w1.tape,
                        v,
                        1,
                        backward_bands(m.widths.inner as int, directed(m.widths), 6),
                    ),
                )
            },
    )
}

/// The widths of the pieces the projection is cut into.
pub open spec fn piece_widths(w: Widths) -> Seq<usize> {
    let head = seq![w.inner, w.conv, w.heads];
    let mixed = if w.lambda > 0 {
        head.push(w.lambda)
    } else {
        head
    };
    if w.theta > 0 {
        mixed.push(w.theta)
    } else {
        mixed
    }
}

/// The pieces of the projection, before the maps are shaped.
pub struct Pieces {
    pub z: Traced,
    pub x: Traced,
    pub b: Traced,
    pub c: Traced,
    pub dt: Traced,
    pub lambda: Option<Traced>,
    pub theta: Option<Traced>,
}

/// The convolution of a window: with a history on the incremental path, where the
/// history is replaced, and without one otherwise.
#[verifier::opaque]
pub open spec fn convolved_op(
    w: World,
    m: Mamba3Mixer,
    x: Traced,
    batch: usize,
    slot: Option<Option<Traced>>,
) -> Result<(World, Traced, Option<Option<Traced>>), Fault> {
    match m.conv {
        None => Ok((w, x, slot)),
        Some(c) => match slot {
            None => match conv::conv_op(w, c, x) {
                Err(f) => Err(f),
                Ok((w1, out)) => Ok((w1, out, None)),
            },
            Some(h) => {
                let history = match h {
                    Some(v) => v,
                    None => conv::empty_of(c, batch),
                };
                match conv::windowed_op(w, c, x, history) {
                    Err(f) => Err(f),
                    Ok((w1, out, next)) => Ok((w1, out, Some(Some(next)))),
                }
            },
        },
    }
}

/// The pieces of the projection of an input, with `x`, `B` and `C` convolved together
/// and activated.
#[verifier::opaque]
pub open spec fn pieces_op(w: World, m: Mamba3Mixer, input: Traced, slot: Option<Option<Traced>>) -> Result<
    (World, Pieces, Option<Option<Traced>>),
    Fault,
> {
    match fused_op(w, m, input) {
        Err(f) => Err(f),
        Ok((w1, whole)) => match ops::split_op(w1.tape, whole, piece_widths(m.widths), 2) {
            Err(f) => Err(f),
            Ok((t2, p)) => match convolved_op(
                World { tape: t2, ..w1 },
                m,
                p[1],
                input.value.dims[0],
                slot,
            ) {
                Err(f) => Err(f),
                Ok((w3, xbc, next)) => {
                    let (t4, active) = ops::pointwise_op(w3.tape, Unary::Silu, xbc);
                    match ops::split_op(
                        t4,
                        active,
                        seq![m.widths.inner, m.widths.maps, m.widths.maps],
                        2,
                    ) {
                        Err(f) => Err(f),
                        Ok((t5, q)) => Ok(
                            (
                                World { tape: t5, ..w3 },
                                Pieces {
                                    z: p[0],
                                    x: q[0],
                                    b: q[1],
                                    c: q[2],
                                    dt: p[2],
                                    lambda: if m.widths.lambda > 0 {
                                        Some(p[3])
                                    } else {
                                        None
                                    },
                                    theta: if m.widths.theta > 0 {
                                        Some(p[p.len() - 1])
                                    } else {
                                        None
                                    },
                                },
                                next,
                            ),
                        ),
                    }
                },
            },
        },
    }
}

// -- shaping ---------------------------------------------------------------------------

/// A map of every group, given to every head of the group:
/// `[batch, seq, heads, rank, state]`.
pub open spec fn heads_op(t: Tape, m: Mamba3Mixer, v: Traced, batch: usize, n: usize) -> Result<
    (Tape, Traced),
    Fault,
> {
    let (heads, groups, state, rank) = (
        m.config.n_heads,
        m.config.n_groups,
        m.config.d_state,
        m.config.mode.width(),
    );
    if groups == 0 {
        Err(Fault::Config("n_heads must be a multiple of n_groups"@))
    } else {
        let per_group = (heads / groups) as usize;
        ops::next(
            ops::reshape_op(t, v, seq![batch, n, groups, rank, state]),
            |t1: Tape, grouped: Traced|
                if per_group == 1 {
                    ops::reshape_op(t1, grouped, seq![batch, n, heads, rank, state])
                } else {
                ops::next(
                    ops::reshape_op(t1, grouped, seq![batch, n, groups, 1usize, rank, state]),
                    |t2: Tape, lifted: Traced|
                        ops::next(
                            ops::expand_op(t2, lifted, seq![batch, n, groups, per_group, rank, state]),
                            |t3: Tape, wide: Traced|
                                ops::reshape_op(t3, wide, seq![batch, n, heads, rank, state]),
                        ),
                )
                },
        )
    }
}

/// A map plus a per-head, per-channel bias that may be missing.
pub open spec fn head_bias_op(w: World, m: Mamba3Mixer, x: Traced, p: Option<Param>, anchor: Traced) -> Step {
    match p {
        None => Ok((w, x)),
        Some(b) => flow::go(
            param::var_op(w, b.key(), anchor),
            |w1: World, v: Traced|
                flow::go(
                    flow::on(
                        w1,
                        ops::reshape_op(
                            w1.tape,
                            v,
                            seq![
                                1usize,
                                1usize,
                                m.config.n_heads,
                                1usize,
                                m.config.d_state,
                            ],
                        ),
                    ),
                    |w2: World, lifted: Traced|
                        flow::on(w2, ops::binary_op(w2.tape, Binary::Add, x, lifted)),
                ),
        ),
    }
}

/// Mixing coefficients: the projected ones squashed into `[0, 1]`, or the fixed share.
pub open spec fn lambda_op(t: Tape, m: Mamba3Mixer, raw: Option<Traced>, batch: usize, n: usize) -> Result<
    (Tape, Traced),
    Fault,
> {
    match raw {
        Some(v) => Ok(ops::pointwise_op(t, Unary::Sigmoid, v)),
        None => match m.config.discretization.share() {
            Some(share) => Ok(
                (
                    t,
                    ops::untracked(
                        tensor::fill_of(
                            Scalar::Bits(share),
                            seq![batch, n, m.config.n_heads],
                        ),
                    ),
                ),
            ),
            None => Err(
                Fault::Config("learned trapezoidal discretization needs a lambda projection"@),
            ),
        },
    }
}

/// The pieces as the scan wants them.
pub struct Prepared {
    pub z: Traced,
    pub x: Traced,
    pub b: Traced,
    pub c: Traced,
    pub dt: Traced,
    pub lambda: Traced,
    pub theta: Option<Traced>,
}

/// Angular speeds of every head, where the state rotates.
pub open spec fn theta_step(
    w: World,
    m: Mamba3Mixer,
    raw: Option<Traced>,
    batch: usize,
    n: usize,
    p: Prepared,
) -> Result<(World, Prepared), Fault> {
    match raw {
        None => Ok((w, p)),
        Some(v) => match ops::reshape_op(
            w.tape,
            v,
            seq![batch, n, m.config.n_heads, (m.config.d_state / 2) as usize],
        ) {
            Err(f) => Err(f),
            Ok((t, theta)) => Ok((World { tape: t, ..w }, Prepared { theta: Some(theta), ..p })),
        },
    }
}

/// Every piece shaped for the scan.
#[verifier::opaque]
pub open spec fn prepared_op(w: World, m: Mamba3Mixer, input: Traced, p: Pieces) -> Result<
    (World, Prepared),
    Fault,
> {
    let (batch, n) = (input.value.dims[0], input.value.dims[1]);
    match flow::on(w, heads_op(w.tape, m, p.b, batch, n)) {
        Err(f) => Err(f),
        Ok((w1, b0)) => match flow::on(w1, heads_op(w1.tape, m, p.c, batch, n)) {
            Err(f) => Err(f),
            Ok((w2, c0)) => match head_bias_op(w2, m, b0, m.b_bias, input) {
                Err(f) => Err(f),
                Ok((w3, b1)) => match head_bias_op(w3, m, c0, m.c_bias, input) {
                    Err(f) => Err(f),
                    Ok((w4, c1)) => match norm::rms_opt(w4, m.bc_norm, b1) {
                        Err(f) => Err(f),
                        Ok((w5, b2)) => match norm::rms_opt(w5, m.bc_norm, c1) {
                            Err(f) => Err(f),
                            Ok((w6, c2)) => match flow::on(w6, ops::permute_op(w6.tape, b2, seq![0usize, 1, 2, 4, 3])) {
                                Err(f) => Err(f),
                                Ok((w7, b)) => match flow::on(w7, ops::permute_op(w7.tape, c2, seq![0usize, 1, 2, 4, 3])) {
                                    Err(f) => Err(f),
                                    Ok((w8, c)) => match flow::on(w8, ops::reshape_op(w8.tape, p.x, seq![batch, n, m.config.n_heads, m.config.head_dim, m.config.mode.width()])) {
                                        Err(f) => Err(f),
                                        Ok((w9, x)) => match param::var_op(w9, m.dt_bias.key(), input) {
                                            Err(f) => Err(f),
                                            Ok((w10, bias)) => match flow::on(w10, ops::reshape_op(w10.tape, bias, seq![1usize, 1usize, m.config.n_heads])) {
                                                Err(f) => Err(f),
                                                Ok((w11, lifted)) => match flow::on(w11, ops::binary_op(w11.tape, Binary::Add, p.dt, lifted)) {
                                                    Err(f) => Err(f),
                                                    Ok((w12, shifted)) => match flow::at(w12, ops::pointwise_op(w12.tape, Unary::Softplus, shifted)) {
                                                        Err(f) => Err(f),
                                                        Ok((w13, dt)) => match flow::on(w13, lambda_op(w13.tape, m, p.lambda, batch, n)) {
                                                            Err(f) => Err(f),
                                                            Ok((w14, lambda)) => theta_step(w14, m, p.theta, batch, n, Prepared { z: p.z, x, b, c, dt, lambda, theta: None }),
                                                        },
                                                    },
                                                },
                                            },
                                        },
                                    },
                                },
                            },
                        },
                    },
                },
            },
        },
    }
}

/// Gating and the way back: `out_proj(norm(y) * silu(z))`.
#[verifier::opaque]
pub open spec fn finished_op(w: World, m: Mamba3Mixer, y: Traced, z: Traced) -> Step {
    let dims = y.value.dims;
    if dims.len() < 2 {
        Err(Fault::Rank { expected: 3, got: dims.len() as usize, shape: dims })
    } else {
        flow::go(
            flow::on(w, ops::reshape_op(w.tape, y, seq![dims[0], dims[1], m.widths.inner])),
            |w1: World, flat: Traced|
                flow::go(
                    norm::rms_opt(w1, m.post_gate_norm, flat),
                    |w2: World, normed: Traced|
                        flow::go(
                            flow::at(w2, ops::pointwise_op(w2.tape, Unary::Silu, z)),
                            |w3: World, gate: Traced|
                                flow::go(
                                    flow::on(w3, ops::binary_op(w3.tape, Binary::Mul, normed, gate)),
                                    |w4: World, gated: Traced|
                                        linear::linear_op(w4, m.out_proj, gated),
                                ),
                        ),
                ),
        )
    }
}

// -- the mixer -------------------------------------------------------------------------

/// A parameter that may be missing.
pub open spec fn var_when(w: World, p: Option<Param>, anchor: Traced) -> Result<
    (World, Option<Traced>),
    Fault,
> {
    match p {
        None => Ok((w, None)),
        Some(d) => match param::var_op(w, d.key(), anchor) {
            Err(f) => Err(f),
            Ok((w1, v)) => Ok((w1, Some(v))),
        },
    }
}

/// The output of a scan in ordinary time: the backward heads of a bidirectional mixer
/// are turned round again.
pub open spec fn forward_time_op(t: Tape, m: Mamba3Mixer, y: Traced) -> Result<
    (Tape, Traced),
    Fault,
> {
    if !m.bidirectional {
        Ok((t, y))
    } else if y.value.dims.len() < 2 {
        Err(
            Fault::Rank {
                expected: 3,
                got: y.value.dims.len() as usize,
                shape: y.value.dims,
            },
        )
    } else {
        ops::next(
            ops::reshape_op(
                t,
                y,
                seq![y.value.dims[0], y.value.dims[1], m.widths.inner],
            ),
            |u: Tape, flat: Traced|
                bands::reversed_op(
                    u,
                    flat,
                    1,
                    seq![((m.widths.inner / 2) as usize, m.widths.inner)],
                ),
        )
    }
}

pub open spec fn width_message(d_model: usize, dims: Seq<usize>) -> Seq<char> {
    "Mamba3Mixer expects d_model="@ + crate::text::decimal(d_model as nat) + ", got "@
        + crate::text::bracketed(dims)
}

/// What is wrong with a window, if anything.
pub open spec fn window_fault(m: Mamba3Mixer, dims: Seq<usize>, cached: bool) -> Option<Fault> {
    if dims.len() != 3 {
        Some(Fault::Rank { expected: 3, got: dims.len() as usize, shape: dims })
    } else if dims[2] != m.config.d_model {
        Some(Fault::Shape(width_message(m.config.d_model, dims)))
    } else if m.bidirectional && cached {
        Some(
            Fault::Config(
                "a bidirectional mixer cannot carry state across windows: the backward half needs the whole sequence"@,
            ),
        )
    } else {
        None
    }
}

/// The convolution slot of a cache.
pub open spec fn slot_of(cache: Option<Kept>) -> Option<Option<Traced>> {
    match cache {
        Some(k) => Some(k.conv),
        None => None,
    }
}

pub open spec fn flat_slot(slot: Option<Option<Traced>>) -> Option<Traced> {
    match slot {
        Some(h) => h,
        None => None,
    }
}

pub open spec fn state_of(cache: Option<Kept>) -> Option<Carried> {
    match cache {
        Some(k) => Some(k.ssm),
        None => None,
    }
}

/// The shapes of a state for a batch.
pub open spec fn hidden_dims(m: Mamba3Mixer, batch: usize) -> Seq<usize> {
    seq![batch, m.config.n_heads, m.config.head_dim, m.config.d_state]
}

pub open spec fn angle_dims(m: Mamba3Mixer, batch: usize) -> Seq<usize> {
    seq![batch, m.config.n_heads, (m.config.d_state / 2) as usize]
}

/// What the projection, the decays and the skip weights give the scan.
#[verifier::opaque]
pub open spec fn given_op(w: World, m: Mamba3Mixer, input: Traced, cache: Option<Kept>) -> Result<
    (World, Given, Traced, Option<Option<Traced>>),
    Fault,
> {
    match pieces_op(w, m, input, slot_of(cache)) {
        Err(f) => Err(f),
        Ok((w1, pieces, slot)) => match prepared_op(w1, m, input, pieces) {
            Err(f) => Err(f),
            Ok((w2, p)) => match param::var_op(w2, m.a_log.key(), input) {
                Err(f) => Err(f),
                Ok((w3, a_log)) => match var_when(w3, m.d_skip, input) {
                    Err(f) => Err(f),
                    Ok((w4, skip)) => Ok(
                        (
                            w4,
                            Given {
                                x: p.x,
                                b: p.b,
                                c: p.c,
                                dt: p.dt,
                                a_log,
                                lambda: p.lambda,
                                theta: p.theta,
                                skip,
                                state: state_of(cache),
                            },
                            p.z,
                            slot,
                        ),
                    ),
                },
            },
        },
    }
}

/// The mixer over a window, and the state to carry forward where one was carried in.
#[verifier::opaque]
pub open spec fn windowed_op(w: World, m: Mamba3Mixer, input: Traced, cache: Option<Kept>) -> Result<
    (World, Traced, Option<Kept>),
    Fault,
> {
    match window_fault(m, input.value.dims, cache is Some) {
        Some(f) => Err(f),
        None => match given_op(w, m, input, cache) {
            Err(f) => Err(f),
            Ok((w1, g, z, slot)) => {
                let chunk = m.config.chunk_size as u64;
                let batch = input.value.dims[0];
                let (t2, y) = scan::scan_op(w1.tape, g, chunk);
                let (t3, state) = if cache is Some {
                    let (t, c) = scan::state_op(
                        t2,
                        g,
                        chunk,
                        hidden_dims(m, batch),
                        angle_dims(m, batch),
                    );
                    (t, Some(Kept { ssm: c, conv: flat_slot(slot) }))
                } else {
                    (t2, None)
                };
                match forward_time_op(t3, m, y) {
                    Err(f) => Err(f),
                    Ok((t4, ordinary)) => match finished_op(
                        World { tape: t4, ..w1 },
                        m,
                        ordinary,
                        z,
                    ) {
                        Err(f) => Err(f),
                        Ok((w5, out)) => Ok((w5, out, state)),
                    },
                }
            },
        },
    }
}

/// The mixer over a window alone.
pub open spec fn mixer_op(w: World, m: Mamba3Mixer, input: Traced) -> Step {
    match windowed_op(w, m, input, None) {
        Err(f) => Err(f),
        Ok((w1, out, _)) => Ok((w1, out)),
    }
}

/// What is wrong with a single position, if anything.
pub open spec fn step_fault(m: Mamba3Mixer, dims: Seq<usize>) -> Option<Fault> {
    if dims.len() != 3 {
        Some(Fault::Rank { expected: 3, got: dims.len() as usize, shape: dims })
    } else if dims[1] != 1 {
        Some(
            Fault::Shape(
                "step() expects a single position; use apply_with_state for a window"@,
            ),
        )
    } else if m.bidirectional {
        Some(
            Fault::Config(
                "a bidirectional mixer cannot decode incrementally: the backward half needs the whole sequence"@,
            ),
        )
    } else {
        None
    }
}

/// A value with the position axis removed, where there is one.
pub open spec fn squeezed_when(t: Tape, v: Option<Traced>, dims: Seq<usize>) -> Result<
    (Tape, Option<Traced>),
    Fault,
> {
    match v {
        None => Ok((t, None)),
        Some(x) => match ops::reshape_op(t, x, dims) {
            Err(f) => Err(f),
            Ok((u, y)) => Ok((u, Some(y))),
        },
    }
}

/// What a single position gives the scan: every piece without its position axis.
pub open spec fn position_op(t: Tape, m: Mamba3Mixer, g: Given, batch: usize) -> Result<
    (Tape, Given),
    Fault,
> {
    let c = m.config;
    let (heads, rank) = (c.n_heads, c.mode.width());
    match squeezed_when(t, g.theta, seq![batch, heads, (c.d_state / 2) as usize]) {
        Err(f) => Err(f),
        Ok((t1, theta)) => match ops::reshape_op(t1, g.x, seq![batch, heads, c.head_dim, rank]) {
            Err(f) => Err(f),
            Ok((t2, x)) => match ops::reshape_op(t2, g.b, seq![batch, heads, c.d_state, rank]) {
                Err(f) => Err(f),
                Ok((t3, b)) => match ops::reshape_op(
                    t3,
                    g.c,
                    seq![batch, heads, c.d_state, rank],
                ) {
                    Err(f) => Err(f),
                    Ok((t4, out_map)) => match ops::reshape_op(t4, g.dt, seq![batch, heads]) {
                        Err(f) => Err(f),
                        Ok((t5, dt)) => match ops::reshape_op(
                            t5,
                            g.lambda,
                            seq![batch, heads],
                        ) {
                            Err(f) => Err(f),
                            Ok((t6, lambda)) => Ok(
                                (
                                    t6,
                                    Given {
                                        x,
                                        b,
                                        c: out_map,
                                        dt,
                                        a_log: g.a_log,
                                        lambda,
                                        theta,
                                        skip: g.skip,
                                        state: g.state,
                                    },
                                ),
                            ),
                        },
                    },
                },
            },
        },
    }
}

/// One decoding step: the direct recurrence rather than the chunked scan.
#[verifier::opaque]
pub open spec fn step_op(w: World, m: Mamba3Mixer, input: Traced, cache: Kept) -> Result<
    (World, Traced, Kept),
    Fault,
> {
    match step_fault(m, input.value.dims) {
        Some(f) => Err(f),
        None => match given_op(w, m, input, Some(cache)) {
            Err(f) => Err(f),
            Ok((w1, g, z, slot)) => {
                let batch = input.value.dims[0];
                match position_op(w1.tape, m, g, batch) {
                    Err(f) => Err(f),
                    Ok((t2, q)) => {
                        let (t3, y) = scan::scan_op(t2, q, 0);
                        let (t4, state) = scan::state_op(
                            t3,
                            q,
                            0,
                            hidden_dims(m, batch),
                            angle_dims(m, batch),
                        );
                        match ops::reshape_op(
                            t4,
                            y,
                            seq![
                                batch,
                                1usize,
                                m.config.n_heads,
                                m.config.head_dim,
                                m.config.mode.width(),
                            ],
                        ) {
                            Err(f) => Err(f),
                            Ok((t5, row)) => match finished_op(
                                World { tape: t5, ..w1 },
                                m,
                                row,
                                z,
                            ) {
                                Err(f) => Err(f),
                                Ok((w6, out)) => Ok(
                                    (w6, out, Kept { ssm: state, conv: flat_slot(slot) }),
                                ),
                            },
                        }
                    },
                }
            },
        },
    }
}

/// An empty state for a batch.
pub open spec fn empty_of(m: Mamba3Mixer, batch: usize) -> Kept {
    Kept {
        ssm: scan::zeros_of(
            batch,
            m.config.n_heads,
            m.config.head_dim,
            m.config.d_state,
            m.config.dynamics == StateDynamics::Rotational,
        ),
        conv: match m.conv {
            Some(c) => Some(conv::empty_of(c, batch)),
            None => None,
        },
    }
}

// -- exec ------------------------------------------------------------------------------

/// The pieces of the projection as variables.
struct Cut {
    z: Var,
    x: Var,
    b: Var,
    c: Var,
    dt: Var,
    lambda: Option<Var>,
    theta: Option<Var>,
}

impl View for Cut {
    type V = Pieces;

    closed spec fn view(&self) -> Pieces {
        Pieces {
            z: self.z@,
            x: self.x@,
            b: self.b@,
            c: self.c@,
            dt: self.dt@,
            lambda: scan::traced_opt(self.lambda),
            theta: scan::traced_opt(self.theta),
        }
    }
}

/// The pieces shaped for the scan as variables.
struct Projected {
    z: Var,
    x: Var,
    b: Var,
    c: Var,
    dt: Var,
    lambda: Var,
    theta: Option<Var>,
}

impl View for Projected {
    type V = Prepared;

    closed spec fn view(&self) -> Prepared {
        Prepared {
            z: self.z@,
            x: self.x@,
            b: self.b@,
            c: self.c@,
            dt: self.dt@,
            lambda: self.lambda@,
            theta: scan::traced_opt(self.theta),
        }
    }
}

pub open spec fn slot_view(v: Option<Option<Var>>) -> Option<Option<Traced>> {
    match v {
        Some(h) => Some(scan::traced_opt(h)),
        None => None,
    }
}

fn flat(slot: Option<Option<Var>>) -> (r: Option<Var>)
    ensures
        scan::traced_opt(r) == flat_slot(slot_view(slot)),
{
    match slot {
        Some(h) => h,
        None => None,
    }
}

fn width_error(d_model: usize, dims: &Vec<usize>) -> (e: Error)
    ensures
        e@ == Fault::Shape(width_message(d_model, dims@)),
{
    let mut text = String::new();
    text.append("Mamba3Mixer expects d_model=");
    append_decimal(&mut text, d_model as u64);
    text.append(", got ");
    append_bracketed(&mut text, dims);
    proof {
        assert(text@ =~= width_message(d_model, dims@));
    }
    Error::Shape(text)
}

proof fn lemma_total_push(s: Seq<usize>, k: int)
    requires
        0 <= k < s.len(),
    ensures
        tensor::total(s.take(k + 1)) == tensor::total(s.take(k)) + s[k],
{
    assert(s.take(k + 1).drop_last() =~= s.take(k));
}

/// The backward halves of pieces that start at an offset.
fn bands_from(offset: usize, widths: &Vec<usize>) -> (r: Vec<(usize, usize)>)
    requires
        offset + tensor::total(widths@) <= usize::MAX,
    ensures
        r@ == backward_bands(offset as int, widths@, widths@.len()),
{
    let mut out: Vec<(usize, usize)> = Vec::new();
    let mut start: usize = offset;
    let mut i: usize = 0;
    proof {
        assert(widths@.take(0) =~= Seq::<usize>::empty());
    }
    while i < widths.len()
        invariant
            i <= widths.len(),
            offset + tensor::total(widths@) <= usize::MAX,
            start == offset + tensor::total(widths@.take(i as int)),
            out@ == backward_bands(offset as int, widths@, i as nat),
        decreases widths.len() - i,
    {
        let width: usize = widths[i];
        proof {
            lemma_total_push(widths@, i as int);
            tensor::lemma_total_prefix(widths@, i as int + 1);
        }
        if width > 0 {
            out.push((start + width / 2, start + width));
        }
        start = start + width;
        i += 1;
    }
    out
}

fn directed_list(w: &Widths) -> (r: Vec<usize>)
    ensures
        r@ == directed(*w),
{
    let mut out: Vec<usize> = Vec::new();
    out.push(w.inner);
    out.push(w.maps);
    out.push(w.maps);
    out.push(w.heads);
    out.push(w.lambda);
    out.push(w.theta);
    proof {
        assert(out@ =~= directed(*w));
    }
    out
}

fn piece_list(w: &Widths) -> (r: Vec<usize>)
    ensures
        r@ == piece_widths(*w),
{
    let mut out: Vec<usize> = Vec::new();
    out.push(w.inner);
    out.push(w.conv);
    out.push(w.heads);
    if w.lambda > 0 {
        out.push(w.lambda);
    }
    if w.theta > 0 {
        out.push(w.theta);
    }
    proof {
        assert(out@ =~= piece_widths(*w));
    }
    out
}

/// A split has as many pieces as there are sizes.
proof fn lemma_split_count(t: Tape, x: Traced, sizes: Seq<usize>, axis: usize)
    requires
        ops::split_op(t, x, sizes, axis) is Ok,
    ensures
        ops::split_op(t, x, sizes, axis)->Ok_0.1.len() == sizes.len(),
{
    let values = tensor::split_of(x.value, sizes, axis)->Ok_0;
    if sizes.len() > 1 && x.trace is Some && t.enabled {
        let (u, sink) = crate::autograd::var::record(
            t,
            rule_token(),
            seq![x.trace],
            crate::autograd::rule::RuleOf::SplitSink(x.value.dims, sizes, axis),
        );
        lemma_pieces_count(u, sink, values, values.len());
    }
}

spec fn rule_token() -> Value {
    crate::autograd::rule::token()
}

proof fn lemma_pieces_count(t: Tape, sink: Traced, values: Seq<Value>, k: nat)
    ensures
        ops::pieces_op(t, sink, values, k).1.len() == k,
    decreases k,
{
    if k > 0 {
        lemma_pieces_count(t, sink, values, (k - 1) as nat);
    }
}

impl Mamba3Mixer {
    /// The configuration this mixer was built from.
    pub fn config(&self) -> (r: &SsmConfig)
        ensures
            *r == self.config,
    {
        &self.config
    }

    /// A zeroed cache for `batch` sequences.
    pub fn empty_cache(&self, batch: usize) -> (r: MixerCache)
        ensures
            r@ == empty_of(*self, batch),
    {
        let rotates: bool = match self.config.dynamics {
            StateDynamics::Rotational => true,
            StateDynamics::Real => false,
        };
        let conv = match &self.conv {
            Some(c) => Some(c.empty_history(batch)),
            None => None,
        };
        MixerCache {
            ssm: SsmState::zeros(
                batch,
                self.config.n_heads,
                self.config.head_dim,
                self.config.d_state,
                rotates,
            ),
            conv,
        }
    }

    fn fuse(&self, s: &mut Session, st: &mut Store, input: &Var) -> (r: Result<Var, Error>)
        ensures
            flow::ran(
                r,
                final(s)@,
                final(st)@,
                fused_op(flow::world(old(s)@, old(st)@), *self, input@),
            ),
    {
        proof {
            reveal(fused_op);
        }
        let v = self.in_proj.apply(s, st, input)?;
        if !self.bidirectional {
            return Ok(v);
        }
        let widths = directed_list(&self.widths);
        let room: bool = match tensor::checked_total(&widths) {
            Some(n) => self.widths.inner.checked_add(n).is_some(),
            None => false,
        };
        if !room {
            return Err(Error::config("the projection is too wide for this machine"));
        }
        let list = bands_from(self.widths.inner, &widths);
        v.reverse_bands(s, 1, &list)
    }

    fn convolve(
        &self,
        s: &mut Session,
        st: &mut Store,
        x: &Var,
        batch: usize,
        slot: Option<Option<Var>>,
    ) -> (r: Result<(Var, Option<Option<Var>>), Error>)
        ensures
            match (
                r,
                convolved_op(
                    flow::world(old(s)@, old(st)@),
                    *self,
                    x@,
                    batch,
                    slot_view(slot),
                ),
            ) {
                (Ok(p), Ok((w, out, next))) => p.0@ == out && slot_view(p.1) == next && final(s)@
                    == w.tape && final(st)@ == w.store,
                (Err(e), Err(f)) => e@ == f,
                _ => false,
            },
    {
        proof {
            reveal(convolved_op);
        }
        match &self.conv {
            None => Ok((x.clone(), slot)),
            Some(c) => match slot {
                None => {
                    let out = c.apply(s, st, x)?;
                    Ok((out, None))
                },
                Some(h) => {
                    let history = match h {
                        Some(v) => v,
                        None => c.empty_history(batch),
                    };
                    let (out, next) = c.apply_with_history(s, st, x, &history)?;
                    Ok((out, Some(Some(next))))
                },
            },
        }
    }

    fn cut(&self, s: &mut Session, st: &mut Store, input: &Var, slot: Option<Option<Var>>) -> (r:
        Result<(Cut, Option<Option<Var>>), Error>)
        requires
            input@.value.dims.len() == 3,
        ensures
            match (
                r,
                pieces_op(
                    flow::world(old(s)@, old(st)@),
                    *self,
                    input@,
                    slot_view(slot),
                ),
            ) {
                (Ok(p), Ok((w, pieces, next))) => p.0@ == pieces && slot_view(p.1) == next
                    && final(s)@ == w.tape && final(st)@ == w.store,
                (Err(e), Err(f)) => e@ == f,
                _ => false,
            },
    {
        proof {
            reveal(pieces_op);
        }
        let whole = self.fuse(s, st, input)?;
        let widths = piece_list(&self.widths);
        let ghost t1 = s@;
        let p = whole.split(s, &widths, 2)?;
        proof {
            lemma_split_count(t1, whole@, widths@, 2);
            assert forall|i: int| 0 <= i < p@.len() implies ops::traced(p@)[i] == (
                #[trigger] p@[i])@ by {}
        }
        let batch: usize = input.shape().dim(0);
        let (xbc, next) = self.convolve(s, st, &p[1], batch, slot)?;
        let active = xbc.silu(s);
        let list = block(self.widths.inner, self.widths.maps, self.widths.maps);
        let ghost t4 = s@;
        let q = active.split(s, list.dims(), 2)?;
        proof {
            lemma_split_count(t4, active@, list@, 2);
            assert forall|i: int| 0 <= i < q@.len() implies ops::traced(q@)[i] == (
                #[trigger] q@[i])@ by {}
        }
        let lambda = if self.widths.lambda > 0 {
            Some(p[3].clone())
        } else {
            None
        };
        let theta = if self.widths.theta > 0 {
            Some(p[p.len() - 1].clone())
        } else {
            None
        };
        let cut = Cut {
            z: p[0].clone(),
            x: q[0].clone(),
            b: q[1].clone(),
            c: q[2].clone(),
            dt: p[2].clone(),
            lambda,
            theta,
        };
        Ok((cut, next))
    }

    fn to_heads(&self, s: &mut Session, v: &Var, batch: usize, n: usize) -> (r: Result<Var, Error>)
        ensures
            ops::same_value(r, final(s)@, heads_op(old(s)@, *self, v@, batch, n)),
    {
        let heads: usize = self.config.n_heads;
        let groups: usize = self.config.n_groups;
        let state: usize = self.config.d_state;
        let rank: usize = self.config.mode.rank();
        if groups == 0 {
            return Err(Error::config("n_heads must be a multiple of n_groups"));
        }
        let per_group: usize = heads / groups;
        let grouped = v.reshape(s, &five(batch, n, groups, rank, state))?;
        if per_group == 1 {
            return grouped.reshape(s, &five(batch, n, heads, rank, state));
        }
        let lifted = grouped.reshape(s, &six(batch, n, groups, 1, rank, state))?;
        let wide = lifted.expand(s, &six(batch, n, groups, per_group, rank, state))?;
        wide.reshape(s, &five(batch, n, heads, rank, state))
    }

    fn head_bias(&self, s: &mut Session, st: &Store, x: Var, p: &Option<Param>, anchor: &Var) -> (r:
        Result<Var, Error>)
        ensures
            flow::ran(
                r,
                final(s)@,
                st@,
                head_bias_op(flow::world(old(s)@, st@), *self, x@, *p, anchor@),
            ),
    {
        match p {
            None => Ok(x),
            Some(b) => {
                let v = b.var(s, st, anchor)?;
                let lifted = v.reshape(
                    s,
                    &five(1, 1, self.config.n_heads, 1, self.config.d_state),
                )?;
                x.add(s, &lifted)
            },
        }
    }

    fn mixing(&self, s: &mut Session, raw: &Option<Var>, batch: usize, n: usize) -> (r: Result<
        Var,
        Error,
    >)
        ensures
            ops::same_value(
                r,
                final(s)@,
                lambda_op(old(s)@, *self, scan::traced_opt(*raw), batch, n),
            ),
    {
        match raw {
            Some(v) => Ok(v.sigmoid(s)),
            None => match self.config.discretization.fixed_lambda() {
                Some(share) => Ok(
                    Var::constant(
                        Tensor::fill(
                            Scalar::Bits(share),
                            block(batch, n, self.config.n_heads),
                        ),
                    ),
                ),
                None => Err(
                    Error::config(
                        "learned trapezoidal discretization needs a lambda projection",
                    ),
                ),
            },
        }
    }

    fn prepare(&self, s: &mut Session, st: &mut Store, input: &Var, p: &Cut) -> (r: Result<
        Projected,
        Error,
    >)
        requires
            input@.value.dims.len() == 3,
        ensures
            match (r, prepared_op(flow::world(old(s)@, old(st)@), *self, input@, p@)) {
                (Ok(q), Ok((w, want))) => q@ == want && final(s)@ == w.tape && final(st)@
                    == w.store,
                (Err(e), Err(f)) => e@ == f,
                _ => false,
            },
    {
        proof {
            reveal(prepared_op);
        }
        let batch: usize = input.shape().dim(0);
        let n: usize = input.shape().dim(1);
        let b0 = self.to_heads(s, &p.b, batch, n)?;
        let c0 = self.to_heads(s, &p.c, batch, n)?;
        let b1 = self.head_bias(s, st, b0, &self.b_bias, input)?;
        let c1 = self.head_bias(s, st, c0, &self.c_bias, input)?;
        let b2 = apply_norm(&self.bc_norm, s, st, &b1)?;
        let c2 = apply_norm(&self.bc_norm, s, st, &c1)?;
        let b = b2.permute(s, five(0, 1, 2, 4, 3).dims())?;
        let c = c2.permute(s, five(0, 1, 2, 4, 3).dims())?;
        let x = p.x.reshape(s, &five(batch, n, self.config.n_heads, self.config.head_dim, self.config.mode.rank()))?;
        let bias = self.dt_bias.var(s, st, input)?;
        let lifted = bias.reshape(s, &block(1, 1, self.config.n_heads))?;
        let shifted = p.dt.add(s, &lifted)?;
        let dt = shifted.softplus(s);
        let lambda = self.mixing(s, &p.lambda, batch, n)?;
        let theta = match &p.theta {
            None => None,
            Some(raw) => Some(
                raw.reshape(
                    s,
                    &four(batch, n, self.config.n_heads, self.config.d_state / 2),
                )?,
            ),
        };
        Ok(Projected { z: p.z.clone(), x, b, c, dt, lambda, theta })
    }

    /// Gate the scan output and project back.
    fn finish(&self, s: &mut Session, st: &mut Store, y: &Var, z: &Var) -> (r: Result<Var, Error>)
        ensures
            flow::ran(
                r,
                final(s)@,
                final(st)@,
                finished_op(flow::world(old(s)@, old(st)@), *self, y@, z@),
            ),
    {
        proof {
            reveal(finished_op);
        }
        if y.rank() < 2 {
            return Err(Error::Rank { expected: 3, got: y.rank(), shape: copied(y.dims()) });
        }
        let flat = y.reshape(s, &block(y.shape().dim(0), y.shape().dim(1), self.widths.inner))?;
        let normed = apply_norm(&self.post_gate_norm, s, st, &flat)?;
        let gate = z.silu(s);
        let gated = normed.mul(s, &gate)?;
        self.out_proj.apply(s, st, &gated)
    }

    fn give(&self, s: &mut Session, st: &mut Store, input: &Var, cache: Option<&MixerCache>) -> (r:
        Result<(ScanInputs, Var, Option<Option<Var>>), Error>)
        requires
            input@.value.dims.len() == 3,
        ensures
            match (
                r,
                given_op(
                    flow::world(old(s)@, old(st)@),
                    *self,
                    input@,
                    kept_opt(cache),
                ),
            ) {
                (Ok(p), Ok((w, g, z, slot))) => p.0@ == g && p.1@ == z && slot_view(p.2) == slot
                    && final(s)@ == w.tape && final(st)@ == w.store,
                (Err(e), Err(f)) => e@ == f,
                _ => false,
            },
    {
        proof {
            reveal(given_op);
        }
        let (slot, state): (Option<Option<Var>>, Option<SsmState>) = match cache {
            Some(k) => (Some(copied_var(&k.conv)), Some(k.ssm.clone())),
            None => (None, None),
        };
        let (pieces, next) = self.cut(s, st, input, slot)?;
        let p = self.prepare(s, st, input, &pieces)?;
        let a_log = self.a_log.var(s, st, input)?;
        let skip = match &self.d_skip {
            Some(d) => Some(d.var(s, st, input)?),
            None => None,
        };
        let z = p.z;
        Ok(
            (
                ScanInputs {
                    x: p.x,
                    b: p.b,
                    c: p.c,
                    dt: p.dt,
                    a_log,
                    lambda: p.lambda,
                    theta: p.theta,
                    skip,
                    state,
                },
                z,
                next,
            ),
        )
    }

    fn forward_time(&self, s: &mut Session, y: Var) -> (r: Result<Var, Error>)
        ensures
            ops::same_value(r, final(s)@, forward_time_op(old(s)@, *self, y@)),
    {
        if !self.bidirectional {
            return Ok(y);
        }
        if y.rank() < 2 {
            return Err(Error::Rank { expected: 3, got: y.rank(), shape: copied(y.dims()) });
        }
        let inner: usize = self.widths.inner;
        let whole = y.reshape(s, &block(y.shape().dim(0), y.shape().dim(1), inner))?;
        let mut list: Vec<(usize, usize)> = Vec::new();
        list.push((inner / 2, inner));
        proof {
            assert(list@ =~= seq![((inner / 2) as usize, inner)]);
        }
        whole.reverse_bands(s, 1, &list)
    }

    /// Apply the mixer to `[batch, seq, d_model]`.
    pub fn apply(&self, s: &mut Session, st: &mut Store, input: &Var) -> (r: Result<Var, Error>)
        ensures
            flow::ran(
                r,
                final(s)@,
                final(st)@,
                mixer_op(flow::world(old(s)@, old(st)@), *self, input@),
            ),
    {
        let (out, _state) = self.apply_with_state(s, st, input, None)?;
        Ok(out)
    }

    /// Apply the mixer over a window, optionally continuing from a cache.
    ///
    /// Returns the output and, when `cache` is `Some`, the state to carry forward.
    /// Training passes `None` and gets `None` back.
    pub fn apply_with_state(
        &self,
        s: &mut Session,
        st: &mut Store,
        input: &Var,
        cache: Option<&MixerCache>,
    ) -> (r: Result<(Var, Option<MixerCache>), Error>)
        ensures
            match (
                r,
                windowed_op(
                    flow::world(old(s)@, old(st)@),
                    *self,
                    input@,
                    kept_opt(cache),
                ),
            ) {
                (Ok(p), Ok((w, out, state))) => p.0@ == out && kept_owned(p.1) == state
                    && final(s)@ == w.tape && final(st)@ == w.store,
                (Err(e), Err(f)) => e@ == f,
                _ => false,
            },
    {
        proof {
            reveal(windowed_op);
        }
        input.shape().expect_rank(3)?;
        if input.shape().dim(2) != self.config.d_model {
            return Err(width_error(self.config.d_model, input.dims()));
        }
        let want: bool = cache.is_some();
        if self.bidirectional && want {
            return Err(
                Error::config(
                    "a bidirectional mixer cannot carry state across windows: the backward half needs the whole sequence",
                ),
            );
        }
        let batch: usize = input.shape().dim(0);
        let (inputs, z, slot) = self.give(s, st, input, cache)?;
        let chunk: u64 = self.config.chunk_size as u64;
        let y = mamba3_scan(s, &inputs, chunk);
        let state = if want {
            let ssm = mamba3_state(
                s,
                &inputs,
                chunk,
                four(batch, self.config.n_heads, self.config.head_dim, self.config.d_state),
                block(batch, self.config.n_heads, self.config.d_state / 2),
            );
            Some(MixerCache { ssm, conv: flat(slot) })
        } else {
            None
        };
        let ordinary = self.forward_time(s, y)?;
        let out = self.finish(s, st, &ordinary, &z)?;
        Ok((out, state))
    }

    fn position(&self, s: &mut Session, g: ScanInputs, batch: usize) -> (r: Result<ScanInputs, Error>)
        ensures
            match (r, position_op(old(s)@, *self, g@, batch)) {
                (Ok(q), Ok((t, want))) => q@ == want && final(s)@ == t,
                (Err(e), Err(f)) => e@ == f,
                _ => false,
            },
    {
        let heads: usize = self.config.n_heads;
        let state: usize = self.config.d_state;
        let rank: usize = self.config.mode.rank();
        let theta = match &g.theta {
            None => None,
            Some(t) => Some(t.reshape(s, &block(batch, heads, state / 2))?),
        };
        let x = g.x.reshape(s, &four(batch, heads, self.config.head_dim, rank))?;
        let b = g.b.reshape(s, &four(batch, heads, state, rank))?;
        let c = g.c.reshape(s, &four(batch, heads, state, rank))?;
        let dt = g.dt.reshape(s, &grid(batch, heads))?;
        let lambda = g.lambda.reshape(s, &grid(batch, heads))?;
        Ok(
            ScanInputs {
                x,
                b,
                c,
                dt,
                a_log: g.a_log,
                lambda,
                theta,
                skip: g.skip,
                state: g.state,
            },
        )
    }

    /// One decoding step for `[batch, 1, d_model]`.
    ///
    /// Uses the direct recurrence rather than the chunked scan, so the cost is
    /// independent of how much context has already been consumed.
    pub fn step(&self, s: &mut Session, st: &mut Store, input: &Var, cache: &MixerCache) -> (r:
        Result<(Var, MixerCache), Error>)
        ensures
            match (
                r,
                step_op(flow::world(old(s)@, old(st)@), *self, input@, cache@),
            ) {
                (Ok(p), Ok((w, out, state))) => p.0@ == out && p.1@ == state && final(s)@ == w.tape
                    && final(st)@ == w.store,
                (Err(e), Err(f)) => e@ == f,
                _ => false,
            },
    {
        proof {
            reveal(step_op);
        }
        input.shape().expect_rank(3)?;
        if input.shape().dim(1) != 1 {
            return Err(
                Error::shape(
                    "step() expects a single position; use apply_with_state for a window",
                ),
            );
        }
        if self.bidirectional {
            return Err(
                Error::config(
                    "a bidirectional mixer cannot decode incrementally: the backward half needs the whole sequence",
                ),
            );
        }
        let batch: usize = input.shape().dim(0);
        let (inputs, z, slot) = self.give(s, st, input, Some(cache))?;
        let q = self.position(s, inputs, batch)?;
        let y = mamba3_scan(s, &q, 0);
        let ssm = mamba3_state(
            s,
            &q,
            0,
            four(batch, self.config.n_heads, self.config.head_dim, self.config.d_state),
            block(batch, self.config.n_heads, self.config.d_state / 2),
        );
        let line = y.reshape(
            s,
            &five(
                batch,
                1,
                self.config.n_heads,
                self.config.head_dim,
                self.config.mode.rank(),
            ),
        )?;
        let out = self.finish(s, st, &line, &z)?;
        Ok((out, MixerCache { ssm, conv: flat(slot) }))
    }
}

pub open spec fn kept_opt(c: Option<&MixerCache>) -> Option<Kept> {
    match c {
        Some(k) => Some(k@),
        None => None,
    }
}

pub open spec fn kept_owned(c: Option<MixerCache>) -> Option<Kept> {
    match c {
        Some(k) => Some(k@),
        None => None,
    }
}

impl Module for Mamba3Mixer {
    open spec fn parts(&self) -> Seq<Listed> {
        module::branch("in_proj"@, &self.in_proj) + module::branch("out_proj"@, &self.out_proj)
            + module::branch_opt("conv"@, self.conv) + module::leaf("dt_bias"@, self.dt_bias)
            + module::leaf("a_log"@, self.a_log) + module::leaf_opt("d"@, self.d_skip)
            + module::leaf_opt("b_bias"@, self.b_bias) + module::leaf_opt(
            "c_bias"@,
            self.c_bias,
        ) + module::branch_opt("bc_norm"@, self.bc_norm) + module::branch_opt(
            "post_gate_norm"@,
            self.post_gate_norm,
        )
    }

    open spec fn hooks(&self) -> Seq<Part> {
        Seq::empty()
    }

    fn visit(&self, visitor: &mut ModuleVisitor) {
        broadcast use module::lemma_saw_twice;

        visitor.child("in_proj", &self.in_proj);
        visitor.child("out_proj", &self.out_proj);
        visitor.child_opt("conv", &self.conv);
        visitor.param("dt_bias", &self.dt_bias);
        visitor.param("a_log", &self.a_log);
        visitor.param_opt("d", &self.d_skip);
        visitor.param_opt("b_bias", &self.b_bias);
        visitor.param_opt("c_bias", &self.c_bias);
        visitor.child_opt("bc_norm", &self.bc_norm);
        visitor.child_opt("post_gate_norm", &self.post_gate_norm);
    }

    fn own_hooks(&self) -> Vec<Part> {
        Vec::new()
    }
}

impl Layer for Mamba3Mixer {
    open spec fn forward_op(&self, w: World, x: Traced) -> Step {
        mixer_op(w, *self, x)
    }

    fn forward(&self, s: &mut Session, st: &mut Store, input: &Var) -> Result<Var, Error> {
        self.apply(s, st, input)
    }
}

// -- the residual block ------------------------------------------------------------------

/// Configuration for [`Mamba3Block`].
#[derive(Debug, Clone, Copy, PartialEq, Eq, Structural)]
pub struct Mamba3BlockConfig {
    pub mixer: Mamba3MixerConfig,
    pub norm_eps: u32,
    pub residual: bool,
}

/// The block a configuration describes.
pub open spec fn block_of(g: Ground, c: Mamba3BlockConfig) -> Result<(Ground, Mamba3Block), Fault> {
    let (g1, n) = norm::init_of(
        g,
        RmsNormConfig { eps: c.norm_eps, ..norm::default_rms(c.mixer.ssm.d_model) },
    );
    match init_of(g1, c.mixer) {
        Err(f) => Err(f),
        Ok((g2, mixer)) => Ok((g2, Mamba3Block { norm: n, mixer, residual: c.residual })),
    }
}

impl Mamba3BlockConfig {
    /// A pre-norm residual block around a mixer.
    pub fn new(ssm: SsmConfig) -> (r: Self)
        ensures
            r == (Mamba3BlockConfig {
                mixer: default_mixer(ssm),
                norm_eps: norm::DEFAULT_EPS,
                residual: true,
            }),
    {
        Mamba3BlockConfig {
            mixer: Mamba3MixerConfig::new(ssm),
            norm_eps: norm::DEFAULT_EPS,
            residual: true,
        }
    }

    /// Replace the mixer configuration by what a function makes of it.
    pub fn mixer<F: FnOnce(Mamba3MixerConfig) -> Mamba3MixerConfig>(self, f: F) -> (r: Self)
        requires
            f.requires((self.mixer,)),
        ensures
            f.ensures((self.mixer,), r.mixer),
            r.norm_eps == self.norm_eps,
            r.residual == self.residual,
    {
        Mamba3BlockConfig {
            mixer: f(self.mixer),
            norm_eps: self.norm_eps,
            residual: self.residual,
        }
    }

    /// Normalisation epsilon.
    pub fn with_norm_eps(self, eps: u32) -> (r: Self)
        ensures
            r == (Mamba3BlockConfig { norm_eps: eps, ..self }),
    {
        Mamba3BlockConfig { norm_eps: eps, ..self }
    }

    /// Disable the residual connection (used when an outer stack owns it).
    pub fn with_residual(self, residual: bool) -> (r: Self)
        ensures
            r == (Mamba3BlockConfig { residual, ..self }),
    {
        Mamba3BlockConfig { residual, ..self }
    }

    /// Instantiate.
    pub fn init(&self, s: &mut Session, st: &mut Store, rng: &mut Rng) -> (r: Result<
        Mamba3Block,
        Error,
    >)
        ensures
            match (r, block_of(init::ground(old(s)@, old(st)@, old(rng)@), *self)) {
                (Ok(b), Ok((g, want))) => b == want && init::ground(
                    final(s)@,
                    final(st)@,
                    final(rng)@,
                ) == g,
                (Err(e), Err(f)) => e@ == f,
                _ => false,
            },
    {
        let norm = RmsNormConfig::new(self.mixer.ssm.d_model).with_eps(self.norm_eps).init(
            s,
            st,
            rng,
        );
        let mixer = self.mixer.init(s, st, rng)?;
        Ok(Mamba3Block { norm, mixer, residual: self.residual })
    }
}

/// `x + mixer(norm(x))`.
#[derive(Debug, Clone, Copy, PartialEq, Eq, Structural)]
pub struct Mamba3Block {
    pub norm: RmsNorm,
    pub mixer: Mamba3Mixer,
    pub residual: bool,
}

/// An output added to the input, where the block owns the residual connection.
pub open spec fn joined_op(t: Tape, b: Mamba3Block, input: Traced, out: Traced) -> Result<
    (Tape, Traced),
    Fault,
> {
    if b.residual {
        ops::binary_op(t, Binary::Add, input, out)
    } else {
        Ok((t, out))
    }
}

pub open spec fn block_op(w: World, b: Mamba3Block, input: Traced) -> Step {
    flow::go(
        norm::rms_op(w, b.norm, input),
        |w1: World, normed: Traced|
            flow::go(
                mixer_op(w1, b.mixer, normed),
                |w2: World, out: Traced| flow::on(w2, joined_op(w2.tape, b, input, out)),
            ),
    )
}

/// The block over a window, carrying state.
pub open spec fn block_window_op(w: World, b: Mamba3Block, input: Traced, cache: Option<Kept>) -> Result<
    (World, Traced, Option<Kept>),
    Fault,
> {
    match norm::rms_op(w, b.norm, input) {
        Err(f) => Err(f),
        Ok((w1, normed)) => match windowed_op(w1, b.mixer, normed, cache) {
            Err(f) => Err(f),
            Ok((w2, out, state)) => match joined_op(w2.tape, b, input, out) {
                Err(f) => Err(f),
                Ok((t3, sum)) => Ok((World { tape: t3, ..w2 }, sum, state)),
            },
        },
    }
}

/// One decoding step of the block.
pub open spec fn block_step_op(w: World, b: Mamba3Block, input: Traced, cache: Kept) -> Result<
    (World, Traced, Kept),
    Fault,
> {
    match norm::rms_op(w, b.norm, input) {
        Err(f) => Err(f),
        Ok((w1, normed)) => match step_op(w1, b.mixer, normed, cache) {
            Err(f) => Err(f),
            Ok((w2, out, state)) => match joined_op(w2.tape, b, input, out) {
                Err(f) => Err(f),
                Ok((t3, sum)) => Ok((World { tape: t3, ..w2 }, sum, state)),
            },
        },
    }
}

impl Mamba3Block {
    /// The mixer inside.
    pub fn mixer(&self) -> (r: &Mamba3Mixer)
        ensures
            *r == self.mixer,
    {
        &self.mixer
    }

    fn joined(&self, s: &mut Session, input: &Var, out: Var) -> (r: Result<Var, Error>)
        ensures
            ops::same_value(r, final(s)@, joined_op(old(s)@, *self, input@, out@)),
    {
        if self.residual {
            input.add(s, &out)
        } else {
            Ok(out)
        }
    }

    /// Apply the block.
    pub fn apply(&self, s: &mut Session, st: &mut Store, input: &Var) -> (r: Result<Var, Error>)
        ensures
            flow::ran(
                r,
                final(s)@,
                final(st)@,
                block_op(flow::world(old(s)@, old(st)@), *self, input@),
            ),
    {
        let normed = self.norm.apply(s, st, input)?;
        let out = self.mixer.apply(s, st, &normed)?;
        self.joined(s, input, out)
    }

    /// Apply over a window, carrying state.
    pub fn apply_with_state(
        &self,
        s: &mut Session,
        st: &mut Store,
        input: &Var,
        cache: Option<&MixerCache>,
    ) -> (r: Result<(Var, Option<MixerCache>), Error>)
        ensures
            match (
                r,
                block_window_op(
                    flow::world(old(s)@, old(st)@),
                    *self,
                    input@,
                    kept_opt(cache),
                ),
            ) {
                (Ok(p), Ok((w, out, state))) => p.0@ == out && kept_owned(p.1) == state
                    && final(s)@ == w.tape && final(st)@ == w.store,
                (Err(e), Err(f)) => e@ == f,
                _ => false,
            },
    {
        let normed = self.norm.apply(s, st, input)?;
        let (out, state) = self.mixer.apply_with_state(s, st, &normed, cache)?;
        let sum = self.joined(s, input, out)?;
        Ok((sum, state))
    }

    /// One decoding step.
    pub fn step(&self, s: &mut Session, st: &mut Store, input: &Var, cache: &MixerCache) -> (r:
        Result<(Var, MixerCache), Error>)
        ensures
            match (
                r,
                block_step_op(flow::world(old(s)@, old(st)@), *self, input@, cache@),
            ) {
                (Ok(p), Ok((w, out, state))) => p.0@ == out && p.1@ == state && final(s)@ == w.tape
                    && final(st)@ == w.store,
                (Err(e), Err(f)) => e@ == f,
                _ => false,
            },
    {
        let normed = self.norm.apply(s, st, input)?;
        let (out, state) = self.mixer.step(s, st, &normed, cache)?;
        let sum = self.joined(s, input, out)?;
        Ok((sum, state))
    }

    /// A zeroed cache.
    pub fn empty_cache(&self, batch: usize) -> (r: MixerCache)
        ensures
            r@ == empty_of(self.mixer, batch),
    {
        self.mixer.empty_cache(batch)
    }
}

impl Module for Mamba3Block {
    open spec fn parts(&self) -> Seq<Listed> {
        module::branch("norm"@, &self.norm) + module::branch("mixer"@, &self.mixer)
    }

    open spec fn hooks(&self) -> Seq<Part> {
        Seq::empty()
    }

    fn visit(&self, visitor: &mut ModuleVisitor) {
        broadcast use module::lemma_saw_twice;

        visitor.child("norm", &self.norm);
        visitor.child("mixer", &self.mixer);
    }

    fn own_hooks(&self) -> Vec<Part> {
        Vec::new()
    }
}

impl Layer for Mamba3Block {
    open spec fn forward_op(&self, w: World, x: Traced) -> Step {
        block_op(w, *self, x)
    }

    fn forward(&self, s: &mut Session, st: &mut Store, input: &Var) -> Result<Var, Error> {
        self.apply(s, st, input)
    }
}

// -- laws --------------------------------------------------------------------------------

/// The backward halves of the pieces of a projection follow one another and end where
/// the projection does, so they can be reversed in one pass.
pub proof fn law_backward_bands_fit(offset: int, widths: Seq<usize>, k: nat)
    requires
        0 <= offset,
        k <= widths.len(),
        offset + tensor::total(widths) <= usize::MAX,
    ensures
        ({
            let list = backward_bands(offset, widths, k);
            let end = offset + tensor::total(widths.take(k as int));
            &&& bands::in_order(list, end as usize)
            &&& forall|i: int| 0 <= i < list.len() ==> offset <= (#[trigger] list[i]).0
        }),
    decreases k,
{
    tensor::lemma_total_prefix(widths, k as int);
    if k > 0 {
        law_backward_bands_fit(offset, widths, (k - 1) as nat);
        lemma_total_push(widths, k - 1);
        let before = backward_bands(offset, widths, (k - 1) as nat);
        let list = backward_bands(offset, widths, k);
        let start = offset + tensor::total(widths.take(k - 1));
        let end = offset + tensor::total(widths.take(k as int));
        assert forall|i: int| 0 <= i < list.len() implies (#[trigger] list[i]).0 <= list[i].1
            && list[i].1 <= end by {
            if i < before.len() {
                assert(list[i] == before[i]);
            }
        }
        assert forall|i: int, j: int| 0 <= i < j < list.len() implies (#[trigger] list[i]).1 <= (
        #[trigger] list[j]).0 by {
            assert(list[i] == before[i]);
            if j < before.len() {
                assert(list[j] == before[j]);
            } else {
                assert(before[i].1 <= start as usize);
            }
        }
        assert forall|i: int| 0 <= i < list.len() implies offset <= (#[trigger] list[i]).0 by {
            if i < before.len() {
                assert(list[i] == before[i]);
            }
        }
    }
}

/// Without a cache nothing is carried: training computes no boundary state.
pub proof fn law_training_carries_nothing(w: World, m: Mamba3Mixer, input: Traced)
    requires
        windowed_op(w, m, input, None) is Ok,
    ensures
        windowed_op(w, m, input, None)->Ok_0.2 is None,
{
    reveal(windowed_op);
}

/// A detached state hangs on no tape and reads the same.
pub proof fn law_detached_state_is_free(k: Kept)
    ensures
        cut_loose(k).ssm.hidden.trace is None,
        cut_loose(k).ssm.hidden.value == k.ssm.hidden.value,
        cut_loose(cut_loose(k)) == cut_loose(k),
        kept_elements(cut_loose(k)) == kept_elements(k),
{
}

} // verus!
