//! Normalisation layers.

use vstd::prelude::*;

use super::flow;
use super::flow::{Step, World};
use super::init;
use super::init::{Ground, Initializer, Rng, row, sow};
use super::module;
use super::module::{Layer, Listed, Module, ModuleVisitor, Part};
use super::param;
use super::param::{Param, plus, times};
use super::store::Store;
use crate::autograd::graph::Session;
use crate::autograd::ops;
use crate::autograd::var::{Traced, Var};
use crate::error::{Error, Fault};
use crate::shape::copied;
use crate::term::{Binary, Reduce, Scalar, Unary};
use crate::text::{append_bracketed, append_decimal};

verus! {

/// The bit pattern of one hundred-thousandth.
pub const DEFAULT_EPS: u32 = 0x3727_c5ac;

/// Configuration for [`RmsNorm`].
#[derive(Debug, Clone, Copy, PartialEq, Eq, Structural)]
pub struct RmsNormConfig {
    pub dim: usize,
    pub eps: u32,
    pub weight: bool,
    pub init: Initializer,
}

/// Normalisation over a width with a gain of ones.
pub open spec fn default_rms(dim: usize) -> RmsNormConfig {
    RmsNormConfig { dim, eps: DEFAULT_EPS, weight: true, init: Initializer::Ones }
}

/// The layer a configuration describes.
pub open spec fn init_of(g: Ground, c: RmsNormConfig) -> (Ground, RmsNorm) {
    if c.weight {
        let (after, w) = init::sown(g, c.init, seq![c.dim]);
        (after, RmsNorm { weight: Some(w), dim: c.dim, eps: c.eps })
    } else {
        (g, RmsNorm { weight: None, dim: c.dim, eps: c.eps })
    }
}

/// The layer over a width, where one is wanted.
pub open spec fn init_when(g: Ground, wanted: bool, c: RmsNormConfig) -> (Ground, Option<RmsNorm>) {
    if wanted {
        let (after, n) = init_of(g, c);
        (after, Some(n))
    } else {
        (g, None)
    }
}

impl RmsNormConfig {
    /// Normalise over a trailing axis of width `dim`.
    pub fn new(dim: usize) -> (r: Self)
        ensures
            r == default_rms(dim),
    {
        RmsNormConfig { dim, eps: DEFAULT_EPS, weight: true, init: Initializer::Ones }
    }

    /// Numerical floor added to the mean square.
    pub fn with_eps(self, eps: u32) -> (r: Self)
        ensures
            r == (RmsNormConfig { eps, ..self }),
    {
        RmsNormConfig { eps, ..self }
    }

    /// Turn the learnable gain on or off.
    pub fn with_weight(self, weight: bool) -> (r: Self)
        ensures
            r == (RmsNormConfig { weight, ..self }),
    {
        RmsNormConfig { weight, ..self }
    }

    /// Gain initialiser.
    pub fn with_initializer(self, init: Initializer) -> (r: Self)
        ensures
            r == (RmsNormConfig { init, ..self }),
    {
        RmsNormConfig { init, ..self }
    }

    /// Instantiate.
    pub fn init(&self, s: &mut Session, st: &mut Store, rng: &mut Rng) -> (r: RmsNorm)
        ensures
            (init::ground(final(s)@, final(st)@, final(rng)@), r) == init_of(
                init::ground(old(s)@, old(st)@, old(rng)@),
                *self,
            ),
    {
        let weight = if self.weight {
            Some(sow(s, st, rng, self.init, row(self.dim)))
        } else {
            None
        };
        RmsNorm { weight, dim: self.dim, eps: self.eps }
    }

    /// Instantiate where wanted.
    pub(crate) fn init_if(&self, wanted: bool, s: &mut Session, st: &mut Store, rng: &mut Rng) -> (r:
        Option<RmsNorm>)
        ensures
            (init::ground(final(s)@, final(st)@, final(rng)@), r) == init_when(
                init::ground(old(s)@, old(st)@, old(rng)@),
                wanted,
                *self,
            ),
    {
        if wanted {
            Some(self.init(s, st, rng))
        } else {
            None
        }
    }
}

/// Root-mean-square normalisation over the last axis.
///
/// `y = x / sqrt(mean(x^2) + eps) * g`
#[derive(Debug, Clone, Copy, PartialEq, Eq, Structural)]
pub struct RmsNorm {
    pub weight: Option<Param>,
    pub dim: usize,
    pub eps: u32,
}

pub open spec fn width_message(dim: usize, dims: Seq<usize>) -> Seq<char> {
    "RmsNorm expects a trailing dimension of "@ + crate::text::decimal(dim as nat) + ", got "@
        + crate::text::bracketed(dims)
}

/// Normalising an input of the right width.
pub open spec fn normed_op(w: World, l: RmsNorm, input: Traced) -> Step {
    let last = (input.value.dims.len() - 1) as usize;
    flow::go(
        flow::on(w, ops::binary_op(w.tape, Binary::Mul, input, input)),
        |w1: World, square: Traced|
            flow::go(
                flow::on(w1, ops::reduce_op(w1.tape, Reduce::Mean, square, last)),
                |w2: World, mean_square: Traced|
                    flow::go(
                        flow::at(w2, ops::pointwise_op(w2.tape, Unary::AddScalar(Scalar::Bits(l.eps)), mean_square)),
                        |w3: World, shifted: Traced|
                            flow::go(
                                flow::at(w3, ops::pointwise_op(w3.tape, Unary::Rsqrt, shifted)),
                                |w4: World, scale: Traced|
                                    flow::go(
                                        flow::on(w4, ops::binary_op(w4.tape, Binary::Mul, input, scale)),
                                        |w5: World, normed: Traced|
                                            param::times_op(w5, normed, l.weight, input),
                                    ),
                            ),
                    ),
            ),
    )
}

#[verifier::opaque]
pub open spec fn rms_op(w: World, l: RmsNorm, input: Traced) -> Step {
    if input.value.dims.len() == 0 || input.value.dims.last() != l.dim {
        Err(Fault::Shape(width_message(l.dim, input.value.dims)))
    } else {
        normed_op(w, l, input)
    }
}

/// A normalisation that may be missing.
pub open spec fn rms_opt(w: World, l: Option<RmsNorm>, input: Traced) -> Step {
    match l {
        Some(n) => rms_op(w, n, input),
        None => Ok((w, input)),
    }
}

fn width_error(dim: usize, dims: &Vec<usize>) -> (e: Error)
    ensures
        e@ == Fault::Shape(width_message(dim, dims@)),
{
    let mut text = String::new();
    text.append("RmsNorm expects a trailing dimension of ");
    append_decimal(&mut text, dim as u64);
    text.append(", got ");
    append_bracketed(&mut text, dims);
    proof {
        assert(text@ =~= width_message(dim, dims@));
    }
    Error::Shape(text)
}

impl RmsNorm {
    /// The learnable gain, if present.
    pub fn weight(&self) -> (r: Option<&Param>)
        ensures
            r == (match self.weight {
                Some(w) => Some(&w),
                None => None,
            }),
    {
        self.weight.as_ref()
    }

    /// Width of the normalised axis.
    pub fn dim(&self) -> (r: usize)
        ensures
            r == self.dim,
    {
        self.dim
    }

    /// Normalise `[..., dim]`.
    pub fn apply(&self, s: &mut Session, st: &mut Store, input: &Var) -> (r: Result<Var, Error>)
        ensures
            flow::ran(
                r,
                final(s)@,
                final(st)@,
                rms_op(flow::world(old(s)@, old(st)@), *self, input@),
            ),
    {
        proof {
            reveal(rms_op);
        }
        if input.rank() == 0 || input.shape().dim_from_end(0) != self.dim {
            return Err(width_error(self.dim, input.dims()));
        }
        let last: usize = input.rank() - 1;
        let square = input.mul(s, input)?;
        let mean_square = square.mean_dim(s, last)?;
        let shifted = mean_square.add_scalar(s, Scalar::Bits(self.eps));
        let scale = shifted.rsqrt(s);
        let normed = input.mul(s, &scale)?;
        times(s, st, normed, &self.weight, input)
    }
}

/// Apply a normalisation that may be missing.
pub(crate) fn apply_opt(l: &Option<RmsNorm>, s: &mut Session, st: &mut Store, input: &Var) -> (r:
    Result<Var, Error>)
    ensures
        flow::ran(
            r,
            final(s)@,
            final(st)@,
            rms_opt(flow::world(old(s)@, old(st)@), *l, input@),
        ),
{
    match l {
        Some(n) => n.apply(s, st, input),
        None => Ok(input.clone()),
    }
}

impl Module for RmsNorm {
    open spec fn parts(&self) -> Seq<Listed> {
        module::leaf_opt("weight"@, self.weight)
    }

    open spec fn hooks(&self) -> Seq<Part> {
        Seq::empty()
    }

    fn visit(&self, visitor: &mut ModuleVisitor) {
        visitor.param_opt("weight", &self.weight);
    }

    fn own_hooks(&self) -> Vec<Part> {
        Vec::new()
    }
}

impl Layer for RmsNorm {
    open spec fn forward_op(&self, w: World, x: Traced) -> Step {
        rms_op(w, *self, x)
    }

    fn forward(&self, s: &mut Session, st: &mut Store, input: &Var) -> Result<Var, Error> {
        self.apply(s, st, input)
    }
}

/// Configuration for [`LayerNorm`].
#[derive(Debug, Clone, Copy, PartialEq, Eq, Structural)]
pub struct LayerNormConfig {
    pub dim: usize,
    pub eps: u32,
    pub affine: bool,
}

/// The layer a configuration describes: a gain of ones and a shift of zeros, where they
/// are wanted.
pub open spec fn layer_init_of(g: Ground, c: LayerNormConfig) -> (Ground, LayerNorm) {
    if c.affine {
        let (g1, w) = init::sown(g, Initializer::Ones, seq![c.dim]);
        let (g2, b) = init::sown(g1, Initializer::Zeros, seq![c.dim]);
        (g2, LayerNorm { weight: Some(w), bias: Some(b), dim: c.dim, eps: c.eps })
    } else {
        (g, LayerNorm { weight: None, bias: None, dim: c.dim, eps: c.eps })
    }
}

impl LayerNormConfig {
    /// Normalise over a trailing axis of width `dim`.
    pub fn new(dim: usize) -> (r: Self)
        ensures
            r == (LayerNormConfig { dim, eps: DEFAULT_EPS, affine: true }),
    {
        LayerNormConfig { dim, eps: DEFAULT_EPS, affine: true }
    }

    /// Numerical floor added to the variance.
    pub fn with_eps(self, eps: u32) -> (r: Self)
        ensures
            r == (LayerNormConfig { eps, ..self }),
    {
        LayerNormConfig { eps, ..self }
    }

    /// Turn the learnable gain and shift on or off.
    pub fn with_affine(self, affine: bool) -> (r: Self)
        ensures
            r == (LayerNormConfig { affine, ..self }),
    {
        LayerNormConfig { affine, ..self }
    }

    /// Instantiate.
    pub fn init(&self, s: &mut Session, st: &mut Store, rng: &mut Rng) -> (r: LayerNorm)
        ensures
            (init::ground(final(s)@, final(st)@, final(rng)@), r) == layer_init_of(
                init::ground(old(s)@, old(st)@, old(rng)@),
                *self,
            ),
    {
        if self.affine {
            let w = sow(s, st, rng, Initializer::Ones, row(self.dim));
            let b = sow(s, st, rng, Initializer::Zeros, row(self.dim));
            LayerNorm { weight: Some(w), bias: Some(b), dim: self.dim, eps: self.eps }
        } else {
            LayerNorm { weight: None, bias: None, dim: self.dim, eps: self.eps }
        }
    }
}

/// Mean/variance normalisation over the last axis.
#[derive(Debug, Clone, Copy, PartialEq, Eq, Structural)]
pub struct LayerNorm {
    pub weight: Option<Param>,
    pub bias: Option<Param>,
    pub dim: usize,
    pub eps: u32,
}

/// `(x - mean) / sqrt(variance + eps)`, then gain and shift.
pub open spec fn centred_op(w: World, l: LayerNorm, input: Traced) -> Step {
    let last = (input.value.dims.len() - 1) as usize;
    flow::go(
        flow::on(w, ops::reduce_op(w.tape, Reduce::Mean, input, last)),
        |w1: World, mean: Traced|
            flow::go(
                flow::on(w1, ops::binary_op(w1.tape, Binary::Sub, input, mean)),
                |w2: World, centred: Traced|
                    flow::go(
                        flow::on(w2, ops::binary_op(w2.tape, Binary::Mul, centred, centred)),
                        |w3: World, square: Traced|
                            flow::go(
                                flow::on(w3, ops::reduce_op(w3.tape, Reduce::Mean, square, last)),
                                |w4: World, variance: Traced|
                                    flow::go(
                                        flow::at(w4, ops::pointwise_op(w4.tape, Unary::AddScalar(Scalar::Bits(l.eps)), variance)),
                                        |w5: World, shifted: Traced|
                                            flow::go(
                                                flow::at(w5, ops::pointwise_op(w5.tape, Unary::Rsqrt, shifted)),
                                                |w6: World, scale: Traced|
                                                    flow::go(
                                                        flow::on(w6, ops::binary_op(w6.tape, Binary::Mul, centred, scale)),
                                                        |w7: World, normed: Traced|
                                                            flow::go(
                                                                param::times_op(w7, normed, l.weight, input),
                                                                |w8: World, gained: Traced|
                                                                    param::plus_op(w8, gained, l.bias, input),
                                                            ),
                                                    ),
                                            ),
                                    ),
                            ),
                    ),
            ),
    )
}

pub open spec fn layer_norm_op(w: World, l: LayerNorm, input: Traced) -> Step {
    if input.value.dims.len() == 0 {
        Err(Fault::Rank { expected: 1, got: 0, shape: input.value.dims })
    } else {
        centred_op(w, l, input)
    }
}

impl LayerNorm {
    /// Normalise `[..., dim]`.
    pub fn apply(&self, s: &mut Session, st: &mut Store, input: &Var) -> (r: Result<Var, Error>)
        ensures
            flow::ran(
                r,
                final(s)@,
                final(st)@,
                layer_norm_op(flow::world(old(s)@, old(st)@), *self, input@),
            ),
    {
        if input.rank() == 0 {
            return Err(Error::Rank { expected: 1, got: 0, shape: copied(input.dims()) });
        }
        let last: usize = input.rank() - 1;
        let mean = input.mean_dim(s, last)?;
        let centred = input.sub(s, &mean)?;
        let square = centred.mul(s, &centred)?;
        let variance = square.mean_dim(s, last)?;
        let shifted = variance.add_scalar(s, Scalar::Bits(self.eps));
        let scale = shifted.rsqrt(s);
        let normed = centred.mul(s, &scale)?;
        let gained = times(s, st, normed, &self.weight, input)?;
        plus(s, st, gained, &self.bias, input)
    }
}

impl Module for LayerNorm {
    open spec fn parts(&self) -> Seq<Listed> {
        module::leaf_opt("weight"@, self.weight) + module::leaf_opt("bias"@, self.bias)
    }

    open spec fn hooks(&self) -> Seq<Part> {
        Seq::empty()
    }

    fn visit(&self, visitor: &mut ModuleVisitor) {
        broadcast use module::lemma_saw_twice;

        visitor.param_opt("weight", &self.weight);
        visitor.param_opt("bias", &self.bias);
    }

    fn own_hooks(&self) -> Vec<Part> {
        Vec::new()
    }
}

impl Layer for LayerNorm {
    open spec fn forward_op(&self, w: World, x: Traced) -> Step {
        layer_norm_op(w, *self, x)
    }

    fn forward(&self, s: &mut Session, st: &mut Store, input: &Var) -> Result<Var, Error> {
        self.apply(s, st, input)
    }
}

} // verus!
