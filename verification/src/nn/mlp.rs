//! Feed-forward blocks.

use vstd::prelude::*;

use super::dropout;
use super::dropout::{Dropout, apply_opt};
use super::flow;
use super::flow::{Step, World};
use super::init;
use super::init::{Ground, Rng};
use super::linear;
use super::linear::{Linear, LinearConfig};
use super::lora::LoraConfig;
use super::module;
use super::module::{Layer, Listed, Module, ModuleVisitor, Part};
use super::quant::QuantConfig;
use super::store::Store;
use crate::autograd::graph::{Session, Tape};
use crate::autograd::ops;
use crate::autograd::var::{Traced, Var};
use crate::error::{Error, Fault};
use crate::single;
use crate::term::{Binary, Unary};

verus! {

/// Nonlinearity used inside a feed-forward block.
#[derive(Debug, Clone, Copy, PartialEq, Eq, Structural)]
pub enum Activation {
    /// `x * sigmoid(x)`.
    Silu,
    /// Exact GELU.
    Gelu,
    /// `max(x, 0)`.
    Relu,
    /// `tanh(x)`.
    Tanh,
    /// Identity.
    Identity,
}

pub open spec fn activation_op(t: Tape, a: Activation, x: Traced) -> Result<
    (Tape, Traced),
    Fault,
> {
    match a {
        Activation::Silu => Ok(ops::pointwise_op(t, Unary::Silu, x)),
        Activation::Gelu => ops::gelu_op(t, x),
        Activation::Relu => Ok(ops::pointwise_op(t, Unary::Relu, x)),
        Activation::Tanh => Ok(ops::pointwise_op(t, Unary::Tanh, x)),
        Activation::Identity => Ok((t, x)),
    }
}

impl Activation {
    /// Apply the activation.
    pub fn apply(&self, s: &mut Session, x: &Var) -> (r: Result<Var, Error>)
        ensures
            ops::same_value(r, final(s)@, activation_op(old(s)@, *self, x@)),
    {
        match self {
            Activation::Silu => Ok(x.silu(s)),
            Activation::Gelu => x.gelu(s),
            Activation::Relu => Ok(x.relu(s)),
            Activation::Tanh => Ok(x.tanh(s)),
            Activation::Identity => Ok(x.clone()),
        }
    }
}

/// Configuration for [`Mlp`].
#[derive(Debug, Clone, Copy, PartialEq, Eq, Structural)]
pub struct MlpConfig {
    pub d_model: usize,
    pub hidden: usize,
    pub gated: bool,
    pub activation: Activation,
    pub bias: bool,
    pub dropout: u32,
    pub lora: Option<LoraConfig>,
    pub weight_quant: Option<QuantConfig>,
}

/// A gated block with the given widths and nothing else.
pub open spec fn default_config(d_model: usize, hidden: usize) -> MlpConfig {
    MlpConfig {
        d_model,
        hidden,
        gated: true,
        activation: Activation::Silu,
        bias: false,
        dropout: single::ZERO,
        lora: None,
        weight_quant: None,
    }
}

/// The smallest multiple of 64 that holds a width.
pub open spec fn rounded_up(n: int) -> int {
    ((n + 63) / 64) * 64
}

/// A projection of a block.
pub open spec fn linear_of(c: MlpConfig, inputs: usize, outputs: usize) -> LinearConfig {
    LinearConfig {
        bias: c.bias,
        lora: c.lora,
        weight_quant: c.weight_quant,
        ..linear::default_config(inputs, outputs)
    }
}

/// The gating projection of a block, where it has one.
pub open spec fn gate_of(g: Ground, c: MlpConfig) -> (Ground, Option<Linear>) {
    if c.gated {
        let (after, l) = linear::init_of(g, linear_of(c, c.d_model, c.hidden));
        (after, Some(l))
    } else {
        (g, None)
    }
}

/// The block a configuration describes: up, gate, down, dropout.
pub open spec fn init_of(g: Ground, c: MlpConfig) -> (Ground, Mlp) {
    let (g1, up) = linear::init_of(g, linear_of(c, c.d_model, c.hidden));
    let (g2, gate) = gate_of(g1, c);
    let (g3, down) = linear::init_of(g2, linear_of(c, c.hidden, c.d_model));
    let (store, d) = dropout::made_opt(g3.store, c.dropout);
    (Ground { store, ..g3 }, Mlp { up, gate, down, activation: c.activation, dropout: d })
}

impl MlpConfig {
    /// A feed-forward block with the given widths. Defaults to a gated design.
    pub fn new(d_model: usize, hidden: usize) -> (r: Self)
        ensures
            r == default_config(d_model, hidden),
    {
        MlpConfig {
            d_model,
            hidden,
            gated: true,
            activation: Activation::Silu,
            bias: false,
            dropout: single::ZERO,
            lora: None,
            weight_quant: None,
        }
    }

    /// A hidden width given as the whole part of a multiple of `d_model`, rounded up to
    /// a multiple of 64.
    pub fn with_expansion(d_model: usize, widened: usize) -> (r: Self)
        requires
            rounded_up(widened as int) <= usize::MAX,
        ensures
            r == default_config(d_model, rounded_up(widened as int) as usize),
    {
        let blocks: usize = if widened % 64 == 0 {
            widened / 64
        } else {
            widened / 64 + 1
        };
        proof {
            assert(blocks == (widened + 63) / 64);
        }
        MlpConfig::new(d_model, blocks * 64)
    }

    /// Use a gated block instead of a plain two-layer one.
    pub fn with_gated(self, gated: bool) -> (r: Self)
        ensures
            r == (MlpConfig { gated, ..self }),
    {
        MlpConfig { gated, ..self }
    }

    /// Choose the nonlinearity.
    pub fn with_activation(self, activation: Activation) -> (r: Self)
        ensures
            r == (MlpConfig { activation, ..self }),
    {
        MlpConfig { activation, ..self }
    }

    /// Enable biases.
    pub fn with_bias(self, bias: bool) -> (r: Self)
        ensures
            r == (MlpConfig { bias, ..self }),
    {
        MlpConfig { bias, ..self }
    }

    /// Dropout on the block output.
    pub fn with_dropout(self, p: u32) -> (r: Self)
        ensures
            r == (MlpConfig { dropout: p, ..self }),
    {
        MlpConfig { dropout: p, ..self }
    }

    /// Attach adapters to every projection.
    pub fn with_lora(self, lora: LoraConfig) -> (r: Self)
        ensures
            r == (MlpConfig { lora: Some(lora), ..self }),
    {
        MlpConfig { lora: Some(lora), ..self }
    }

    /// Fake-quantize every weight.
    pub fn with_weight_quant(self, config: QuantConfig) -> (r: Self)
        ensures
            r == (MlpConfig { weight_quant: Some(config), ..self }),
    {
        MlpConfig { weight_quant: Some(config), ..self }
    }

    fn linear(&self, d_in: usize, d_out: usize) -> (r: LinearConfig)
        ensures
            r == linear_of(*self, d_in, d_out),
    {
        LinearConfig {
            bias: self.bias,
            lora: self.lora,
            weight_quant: self.weight_quant,
            ..LinearConfig::new(d_in, d_out)
        }
    }

    /// Instantiate.
    pub fn init(&self, s: &mut Session, st: &mut Store, rng: &mut Rng) -> (r: Mlp)
        ensures
            (init::ground(final(s)@, final(st)@, final(rng)@), r) == init_of(
                init::ground(old(s)@, old(st)@, old(rng)@),
                *self,
            ),
    {
        let up = self.linear(self.d_model, self.hidden).init(s, st, rng);
        let gate = if self.gated {
            Some(self.linear(self.d_model, self.hidden).init(s, st, rng))
        } else {
            None
        };
        let down = self.linear(self.hidden, self.d_model).init(s, st, rng);
        let dropout = Dropout::when_positive(st, self.dropout);
        Mlp { up, gate, down, activation: self.activation, dropout }
    }
}

/// A gated or plain feed-forward block.
#[derive(Debug, Clone, Copy, PartialEq, Eq, Structural)]
pub struct Mlp {
    pub up: Linear,
    pub gate: Option<Linear>,
    pub down: Linear,
    pub activation: Activation,
    pub dropout: Option<Dropout>,
}

/// The hidden activations: `act(gate(x)) * up(x)`, or `act(up(x))` without a gate.
pub open spec fn hidden_op(w: World, m: Mlp, input: Traced) -> Step {
    match m.gate {
        Some(gate) => {
            flow::go(
                linear::linear_op(w, gate, input),
                |w1: World, g: Traced|
                    flow::go(
                        flow::on(w1, activation_op(w1.tape, m.activation, g)),
                        |w2: World, a: Traced|
                            flow::go(
                                linear::linear_op(w2, m.up, input),
                                |w3: World, u: Traced|
                                    flow::on(w3, ops::binary_op(w3.tape, Binary::Mul, a, u)),
                            ),
                    ),
            )
        },
        None => {
            flow::go(
                linear::linear_op(w, m.up, input),
                |w1: World, u: Traced|
                    flow::on(w1, activation_op(w1.tape, m.activation, u)),
            )
        },
    }
}

pub open spec fn mlp_op(w: World, m: Mlp, input: Traced) -> Step {
    flow::go(
        hidden_op(w, m, input),
        |w1: World, hidden: Traced|
            flow::go(
                linear::linear_op(w1, m.down, hidden),
                |w2: World, down: Traced|
                    dropout::dropout_opt(w2, m.dropout, down),
            ),
    )
}

impl Mlp {
    fn hidden(&self, s: &mut Session, st: &mut Store, input: &Var) -> (r: Result<Var, Error>)
        ensures
            flow::ran(
                r,
                final(s)@,
                final(st)@,
                hidden_op(flow::world(old(s)@, old(st)@), *self, input@),
            ),
    {
        match &self.gate {
            Some(gate) => {
                let g = gate.apply(s, st, input)?;
                let a = self.activation.apply(s, &g)?;
                let u = self.up.apply(s, st, input)?;
                a.mul(s, &u)
            },
            None => {
                let u = self.up.apply(s, st, input)?;
                self.activation.apply(s, &u)
            },
        }
    }

    /// Apply the block to `[..., d_model]`.
    pub fn apply(&self, s: &mut Session, st: &mut Store, input: &Var) -> (r: Result<Var, Error>)
        ensures
            flow::ran(
                r,
                final(s)@,
                final(st)@,
                mlp_op(flow::world(old(s)@, old(st)@), *self, input@),
            ),
    {
        let hidden = self.hidden(s, st, input)?;
        let down = self.down.apply(s, st, &hidden)?;
        apply_opt(&self.dropout, s, st, &down)
    }
}

impl Module for Mlp {
    open spec fn parts(&self) -> Seq<Listed> {
        module::branch("up"@, &self.up) + module::branch_opt("gate"@, self.gate) + module::branch(
            "down"@,
            &self.down,
        ) + module::branch_opt("dropout"@, self.dropout)
    }

    open spec fn hooks(&self) -> Seq<Part> {
        Seq::empty()
    }

    fn visit(&self, visitor: &mut ModuleVisitor) {
        broadcast use module::lemma_saw_twice;

        visitor.child("up", &self.up);
        visitor.child_opt("gate", &self.gate);
        visitor.child("down", &self.down);
        visitor.child_opt("dropout", &self.dropout);
    }

    fn own_hooks(&self) -> Vec<Part> {
        Vec::new()
    }
}

impl Layer for Mlp {
    open spec fn forward_op(&self, w: World, x: Traced) -> Step {
        mlp_op(w, *self, x)
    }

    fn forward(&self, s: &mut Session, st: &mut Store, input: &Var) -> Result<Var, Error> {
        self.apply(s, st, input)
    }
}

} // verus!
