//! Dense projection - the layer every other feature hangs off.
//!
//! A single `Linear` carries the optional pieces the rest of the crate needs: a bias, an
//! adapter, and weight and activation quantizers.
//!
//! Weights are stored as `[in_features, out_features]` so the forward pass is a plain
//! `x @ W` with no transpose, and so an adapter's `A @ B` has exactly the weight's
//! shape.

use vstd::prelude::*;

use super::flow;
use super::flow::{Step, World};
use super::init;
use super::init::{Ground, Initializer, Rng, grid, row, sow};
use super::lora;
use super::lora::{LoraConfig, LoraLinear, add_delta};
use super::module;
use super::module::{Adapter, Layer, Listed, Module, ModuleVisitor, Part};
use super::param;
use super::param::{Param, plus};
use super::quant;
use super::quant::{QuantConfig, Quantizer, quantize_when};
use super::store::{Store, Stored};
use crate::autograd::graph::Session;
use crate::autograd::ops;
use crate::autograd::var::{Traced, Var};
use crate::error::{Error, Fault};
use crate::shape::copied;
use crate::single;
use crate::tensor::{Tensor, Value};
use crate::term::{Binary, Product};
use crate::text::{append_bracketed, append_decimal};

verus! {

/// Configuration for [`Linear`].
#[derive(Debug, Clone, Copy, PartialEq, Eq, Structural)]
pub struct LinearConfig {
    pub in_features: usize,
    pub out_features: usize,
    pub bias: bool,
    pub initializer: Initializer,
    pub bias_initializer: Initializer,
    pub lora: Option<LoraConfig>,
    pub weight_quant: Option<QuantConfig>,
    pub activation_quant: Option<QuantConfig>,
}

/// A projection with bias and nothing else.
pub open spec fn default_config(inputs: usize, outputs: usize) -> LinearConfig {
    LinearConfig {
        in_features: inputs,
        out_features: outputs,
        bias: true,
        initializer: Initializer::KaimingUniform { gain: single::ONE },
        bias_initializer: Initializer::Zeros,
        lora: None,
        weight_quant: None,
        activation_quant: None,
    }
}

/// A bias filled by its scheme, where one is wanted.
pub open spec fn bias_of(g: Ground, wanted: bool, i: Initializer, n: usize) -> (
    Ground,
    Option<Param>,
) {
    if wanted {
        let (after, p) = init::sown(g, i, seq![n]);
        (after, Some(p))
    } else {
        (g, None)
    }
}

/// An adapter for settings that may be missing.
pub open spec fn lora_of(g: Ground, c: Option<LoraConfig>, inputs: usize, outputs: usize) -> (
    Ground,
    Option<LoraLinear>,
) {
    match c {
        Some(l) => {
            let (after, a) = lora::init_of(g, l, inputs, outputs);
            (after, Some(a))
        },
        None => (g, None),
    }
}

/// The layer a configuration describes: weight, bias, adapter and quantizers, made in
/// this order.
pub open spec fn init_of(g: Ground, c: LinearConfig) -> (Ground, Linear) {
    let (g1, weight) = init::sown(g, c.initializer, seq![c.in_features, c.out_features]);
    let (g2, bias) = bias_of(g1, c.bias, c.bias_initializer, c.out_features);
    let (g3, adapter) = lora_of(g2, c.lora, c.in_features, c.out_features);
    let (st1, weight_quant) = quant::made_opt(g3.store, c.weight_quant);
    let (st2, activation_quant) = quant::made_opt(st1, c.activation_quant);
    (
        Ground { store: st2, ..g3 },
        Linear { weight, bias, lora: adapter, weight_quant, activation_quant },
    )
}

impl LinearConfig {
    /// A projection from `in_features` to `out_features`, with bias.
    pub fn new(in_features: usize, out_features: usize) -> (r: Self)
        ensures
            r == default_config(in_features, out_features),
    {
        LinearConfig {
            in_features,
            out_features,
            bias: true,
            initializer: Initializer::KaimingUniform { gain: single::ONE },
            bias_initializer: Initializer::Zeros,
            lora: None,
            weight_quant: None,
            activation_quant: None,
        }
    }

    /// Enable or disable the bias term.
    pub fn with_bias(self, bias: bool) -> (r: Self)
        ensures
            r == (LinearConfig { bias, ..self }),
    {
        LinearConfig { bias, ..self }
    }

    /// Choose the weight initialiser.
    pub fn with_initializer(self, initializer: Initializer) -> (r: Self)
        ensures
            r == (LinearConfig { initializer, ..self }),
    {
        LinearConfig { initializer, ..self }
    }

    /// Choose the bias initialiser.
    pub fn with_bias_initializer(self, initializer: Initializer) -> (r: Self)
        ensures
            r == (LinearConfig { bias_initializer: initializer, ..self }),
    {
        LinearConfig { bias_initializer: initializer, ..self }
    }

    /// Attach an adapter. The base weight is **not** frozen automatically; call
    /// [`Linear::freeze_base`] or freeze by path to do that.
    pub fn with_lora(self, lora: LoraConfig) -> (r: Self)
        ensures
            r == (LinearConfig { lora: Some(lora), ..self }),
    {
        LinearConfig { lora: Some(lora), ..self }
    }

    /// Fake-quantize the weight before the product.
    pub fn with_weight_quant(self, config: QuantConfig) -> (r: Self)
        ensures
            r == (LinearConfig { weight_quant: Some(config), ..self }),
    {
        LinearConfig { weight_quant: Some(config), ..self }
    }

    /// Fake-quantize the input activation before the product.
    pub fn with_activation_quant(self, config: QuantConfig) -> (r: Self)
        ensures
            r == (LinearConfig { activation_quant: Some(config), ..self }),
    {
        LinearConfig { activation_quant: Some(config), ..self }
    }

    /// Input width.
    pub fn in_features(&self) -> (r: usize)
        ensures
            r == self.in_features,
    {
        self.in_features
    }

    /// Output width.
    pub fn out_features(&self) -> (r: usize)
        ensures
            r == self.out_features,
    {
        self.out_features
    }

    /// Instantiate.
    pub fn init(&self, s: &mut Session, st: &mut Store, rng: &mut Rng) -> (r: Linear)
        ensures
            (init::ground(final(s)@, final(st)@, final(rng)@), r) == init_of(
                init::ground(old(s)@, old(st)@, old(rng)@),
                *self,
            ),
    {
        let weight = sow(s, st, rng, self.initializer, grid(self.in_features, self.out_features));
        let bias = if self.bias {
            Some(sow(s, st, rng, self.bias_initializer, row(self.out_features)))
        } else {
            None
        };
        let lora = match self.lora {
            Some(c) => Some(c.init(s, st, rng, self.in_features, self.out_features)),
            None => None,
        };
        let weight_quant = Quantizer::when_given(st, self.weight_quant);
        let activation_quant = Quantizer::when_given(st, self.activation_quant);
        Linear { weight, bias, lora, weight_quant, activation_quant }
    }
}

/// `y = x @ W (+ b)`, optionally low-rank adapted and fake-quantized.
#[derive(Debug, Clone, Copy, PartialEq, Eq, Structural)]
pub struct Linear {
    pub weight: Param,
    pub bias: Option<Param>,
    pub lora: Option<LoraLinear>,
    pub weight_quant: Option<Quantizer>,
    pub activation_quant: Option<Quantizer>,
}

pub open spec fn width_message(inputs: usize, dims: Seq<usize>) -> Seq<char> {
    "Linear expects a trailing dimension of "@ + crate::text::decimal(inputs as nat) + ", got "@
        + crate::text::bracketed(dims)
}

/// What is wrong with an input, if anything: the store must hold the weight, and the
/// trailing extent must be its first one.
pub open spec fn refused(st: Stored, weight: u64, dims: Seq<usize>) -> Option<Fault> {
    if !st.weights.contains_key(weight) {
        Some(param::unknown())
    } else {
        let shape = st.weights[weight].value.dims;
        if shape.len() == 0 {
            Some(Fault::Rank { expected: 2, got: 0, shape })
        } else if dims.len() == 0 || dims.last() != shape[0] {
            Some(Fault::Shape(width_message(shape[0], dims)))
        } else {
            None
        }
    }
}

/// The projection of an input that fits: activation quantizer, weight quantizer,
/// product, adapter, bias.
pub open spec fn projected_op(w: World, l: Linear, input: Traced) -> Step {
    flow::go(
        quant::quantize_opt(w, l.activation_quant, input),
        |w1: World, x: Traced|
            flow::go(
                param::var_op(w1, l.weight.key(), input),
                |w2: World, raw: Traced|
                    flow::go(
                        quant::quantize_opt(w2, l.weight_quant, raw),
                        |w3: World, weight: Traced|
                            flow::go(
                                flow::on(w3, ops::product_op(w3.tape, Product::Plain, x, weight)),
                                |w4: World, product: Traced|
                                    flow::go(
                                        lora::plus_delta(w4, product, l.lora, input),
                                        |w5: World, adapted: Traced|
                                            param::plus_op(w5, adapted, l.bias, input),
                                    ),
                            ),
                    ),
            ),
    )
}

/// The projection.
#[verifier::opaque]
pub open spec fn linear_op(w: World, l: Linear, input: Traced) -> Step {
    match refused(w.store, l.weight.key(), input.value.dims) {
        Some(f) => Err(f),
        None => projected_op(w, l, input),
    }
}

/// A projection that may be missing.
pub open spec fn linear_opt(w: World, l: Option<Linear>, input: Traced) -> Step {
    match l {
        Some(p) => linear_op(w, p, input),
        None => Ok((w, input)),
    }
}

fn width_error(inputs: usize, dims: &Vec<usize>) -> (e: Error)
    ensures
        e@ == Fault::Shape(width_message(inputs, dims@)),
{
    let mut text = String::new();
    text.append("Linear expects a trailing dimension of ");
    append_decimal(&mut text, inputs as u64);
    text.append(", got ");
    append_bracketed(&mut text, dims);
    proof {
        assert(text@ =~= width_message(inputs, dims@));
    }
    Error::Shape(text)
}

/// An extent of a weight the store holds.
pub open spec fn extent(st: Stored, id: u64, axis: int) -> Option<usize> {
    if st.weights.contains_key(id) && axis < st.weights[id].value.dims.len() {
        Some(st.weights[id].value.dims[axis])
    } else {
        None
    }
}

pub(crate) fn weight_extent(st: &Store, p: &Param, axis: usize) -> (r: Option<usize>)
    ensures
        r == extent(st@, p.key(), axis as int),
{
    match p.shape(st) {
        Some(d) => if axis < d.rank() {
            Some(d.dim(axis))
        } else {
            None
        },
        None => None,
    }
}

impl Linear {
    /// Input width.
    pub fn in_features(&self, st: &Store) -> (r: Option<usize>)
        ensures
            r == extent(st@, self.weight.key(), 0),
    {
        weight_extent(st, &self.weight, 0)
    }

    /// Output width.
    pub fn out_features(&self, st: &Store) -> (r: Option<usize>)
        ensures
            r == extent(st@, self.weight.key(), 1),
    {
        weight_extent(st, &self.weight, 1)
    }

    /// The `[in, out]` weight.
    pub fn weight(&self) -> (r: &Param)
        ensures
            *r == self.weight,
    {
        &self.weight
    }

    /// The bias, if present.
    pub fn bias(&self) -> (r: Option<&Param>)
        ensures
            r == (match self.bias {
                Some(b) => Some(&b),
                None => None,
            }),
    {
        self.bias.as_ref()
    }

    /// The adapter, if attached.
    pub fn lora(&self) -> (r: Option<&LoraLinear>)
        ensures
            r == (match self.lora {
                Some(l) => Some(&l),
                None => None,
            }),
    {
        self.lora.as_ref()
    }

    /// The weight quantizer, if attached.
    pub fn weight_quantizer(&self) -> (r: Option<&Quantizer>)
        ensures
            r == (match self.weight_quant {
                Some(q) => Some(&q),
                None => None,
            }),
    {
        self.weight_quant.as_ref()
    }

    /// The activation quantizer, if attached.
    pub fn activation_quantizer(&self) -> (r: Option<&Quantizer>)
        ensures
            r == (match self.activation_quant {
                Some(q) => Some(&q),
                None => None,
            }),
    {
        self.activation_quant.as_ref()
    }

    /// Freeze the base weight and bias, leaving only the adapter trainable.
    pub fn freeze_base(&self, st: &mut Store)
        ensures
            final(st)@ == (match self.bias {
                Some(b) => old(st)@.with_flag(self.weight.key(), false).with_flag(
                    b.key(),
                    false,
                ),
                None => old(st)@.with_flag(self.weight.key(), false),
            }),
    {
        self.weight.freeze(st);
        if let Some(b) = &self.bias {
            b.freeze(st);
        }
    }

    /// Fold the adapter into the base weight. The adapter stays attached but
    /// contributes nothing until it is trained again.
    pub fn merge_lora(&self, st: &mut Store) -> (r: Result<(), Error>)
        ensures
            match self.lora {
                Some(l) => match (
                    r,
                    module::merged(old(st)@, lora::adapter_of(l, self.weight)),
                ) {
                    (Ok(_), Ok(want)) => final(st)@ == want,
                    (Err(e), Err(f)) => e@ == f && final(st)@ == old(st)@,
                    _ => false,
                },
                None => {
                    &&& r is Err
                    &&& r->Err_0@ == Fault::Config("this Linear has no LoRA adapter to merge"@)
                    &&& final(st)@ == old(st)@
                },
            },
    {
        match &self.lora {
            Some(l) => l.merge_into(st, &self.weight),
            None => Err(Error::config("this Linear has no LoRA adapter to merge")),
        }
    }

    /// Apply the projection to `[..., in_features]`.
    pub fn apply(&self, s: &mut Session, st: &mut Store, input: &Var) -> (r: Result<Var, Error>)
        ensures
            flow::ran(
                r,
                final(s)@,
                final(st)@,
                linear_op(flow::world(old(s)@, old(st)@), *self, input@),
            ),
    {
        proof {
            reveal(linear_op);
        }
        let value = self.weight.value(st)?;
        if value.rank() == 0 {
            return Err(Error::Rank { expected: 2, got: 0, shape: copied(value.dims()) });
        }
        let inputs: usize = value.shape().dim(0);
        if input.rank() == 0 || input.shape().dim_from_end(0) != inputs {
            return Err(width_error(inputs, input.dims()));
        }
        self.project(s, st, input)
    }

    fn project(&self, s: &mut Session, st: &mut Store, input: &Var) -> (r: Result<Var, Error>)
        ensures
            flow::ran(
                r,
                final(s)@,
                final(st)@,
                projected_op(flow::world(old(s)@, old(st)@), *self, input@),
            ),
    {
        let x = quantize_when(&self.activation_quant, s, st, input)?;
        let raw = self.weight.var(s, st, input)?;
        let weight = quantize_when(&self.weight_quant, s, st, &raw)?;
        let product = x.matmul(s, &weight)?;
        let adapted = add_delta(&self.lora, s, st, product, input)?;
        plus(s, st, adapted, &self.bias, input)
    }

    /// Replace the weight with an arbitrary tensor, as when tying embeddings.
    pub fn set_weight(&self, st: &mut Store, weight: Tensor)
        ensures
            final(st)@ == old(st)@.with_value(self.weight.key(), weight@),
    {
        self.weight.set(st, weight);
    }
}

/// Apply a projection that may be missing.
pub(crate) fn apply_opt(l: &Option<Linear>, s: &mut Session, st: &mut Store, input: &Var) -> (r:
    Result<Var, Error>)
    ensures
        flow::ran(
            r,
            final(s)@,
            final(st)@,
            linear_opt(flow::world(old(s)@, old(st)@), *l, input@),
        ),
{
    match l {
        Some(p) => p.apply(s, st, input),
        None => Ok(input.clone()),
    }
}

impl Module for Linear {
    open spec fn parts(&self) -> Seq<Listed> {
        module::leaf("weight"@, self.weight) + module::leaf_opt("bias"@, self.bias)
            + module::branch_opt("lora"@, self.lora) + module::branch_opt(
            "weight_quant"@,
            self.weight_quant,
        ) + module::branch_opt("activation_quant"@, self.activation_quant)
    }

    open spec fn hooks(&self) -> Seq<Part> {
        match self.lora {
            Some(l) => seq![Part::Adapter(lora::adapter_of(l, self.weight))],
            None => Seq::empty(),
        }
    }

    fn visit(&self, visitor: &mut ModuleVisitor) {
        broadcast use module::lemma_saw_twice;

        visitor.param("weight", &self.weight);
        visitor.param_opt("bias", &self.bias);
        visitor.child_opt("lora", &self.lora);
        visitor.child_opt("weight_quant", &self.weight_quant);
        visitor.child_opt("activation_quant", &self.activation_quant);
    }

    fn own_hooks(&self) -> Vec<Part> {
        let mut out: Vec<Part> = Vec::new();
        if let Some(l) = &self.lora {
            out.push(
                Part::Adapter(
                    Adapter { base: self.weight, a: l.a, b: l.b, scaling: l.scaling },
                ),
            );
        }
        proof {
            assert(out@ =~= self.hooks());
        }
        out
    }
}

impl Layer for Linear {
    open spec fn forward_op(&self, w: World, x: Traced) -> Step {
        linear_op(w, *self, x)
    }

    fn forward(&self, s: &mut Session, st: &mut Store, input: &Var) -> Result<Var, Error> {
        self.apply(s, st, input)
    }
}

} // verus!
