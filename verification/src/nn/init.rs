//! Weight initialisation schemes.

use vstd::prelude::*;

use super::store::{Held, Store, Stored};
use super::param::Param;
use crate::autograd::graph;
use crate::autograd::graph::{Session, Tape};
use crate::shape::Shape;
use crate::single;
use crate::tensor;
use crate::tensor::{Tensor, Value};
use crate::term::{Fused, Scalar};

verus! {

/// A source of numbered random fills.
pub struct Rng {
    seed: u64,
    next: u64,
}

/// A source of random fills as a mathematical value.
pub struct Source {
    pub seed: u64,
    pub next: u64,
}

impl View for Rng {
    type V = Source;

    closed spec fn view(&self) -> Source {
        Source { seed: self.seed, next: self.next }
    }
}

impl Source {
    /// The source after one fill.
    pub open spec fn drawn(self) -> Source {
        Source { next: graph::following(self.next), ..self }
    }
}

impl Rng {
    /// A source whose fills are determined by `seed`.
    pub fn seeded(seed: u64) -> (r: Self)
        ensures
            r@ == (Source { seed, next: 0 }),
    {
        Rng { seed, next: 0 }
    }

    /// Move on to the next fill.
    fn advance(&mut self)
        ensures
            final(self)@ == old(self)@.drawn(),
    {
        self.next = graph::next_counter(self.next);
    }

    /// Uniform noise between two bounds.
    pub(crate) fn uniform(&mut self, lo: Scalar, hi: Scalar, shape: Shape) -> (r: Tensor)
        ensures
            r@ == uniform_of(old(self)@, lo, hi, shape@),
            final(self)@ == old(self)@.drawn(),
    {
        let k = Fused::Uniform(lo, hi, self.seed, self.next);
        self.advance();
        random_fill(k, shape)
    }
}

pub open spec fn uniform_of(g: Source, lo: Scalar, hi: Scalar, dims: Seq<usize>) -> Value {
    tensor::fused_of(Fused::Uniform(lo, hi, g.seed, g.next), Seq::empty(), dims)
}

/// The tape, store and source that building a layer touches.
pub struct Ground {
    pub tape: Tape,
    pub store: Stored,
    pub rng: Source,
}

pub open spec fn ground(tape: Tape, store: Stored, rng: Source) -> Ground {
    Ground { tape, store, rng }
}

/// How to fill a freshly created parameter. Real-valued settings are single-precision
/// bit patterns.
///
/// Fan-in and fan-out are taken from the first two dimensions of the shape
/// (`[fan_in, fan_out, ...]`), which matches the `[in, out]` weight layout of a
/// projection.
#[derive(Debug, Clone, Copy, PartialEq, Eq, Structural)]
pub enum Initializer {
    /// All zeros.
    Zeros,
    /// All ones.
    Ones,
    /// A fixed value.
    Constant(u32),
    /// `N(mean, std^2)`.
    Normal {
        /// Distribution mean.
        mean: u32,
        /// Distribution standard deviation.
        std: u32,
    },
    /// `U(lo, hi)`.
    Uniform {
        /// Lower bound.
        lo: u32,
        /// Upper bound.
        hi: u32,
    },
    /// `U(-b, b)` with `b = gain * sqrt(3 / fan_in)`.
    KaimingUniform {
        /// Multiplier applied to the bound.
        gain: u32,
    },
    /// `N(0, (gain / sqrt(fan_in))^2)`.
    KaimingNormal {
        /// Multiplier applied to the standard deviation.
        gain: u32,
    },
    /// `U(-b, b)` with `b = gain * sqrt(6 / (fan_in + fan_out))`.
    XavierUniform {
        /// Multiplier applied to the bound.
        gain: u32,
    },
    /// `N(0, (gain * sqrt(2 / (fan_in + fan_out)))^2)`.
    XavierNormal {
        /// Multiplier applied to the standard deviation.
        gain: u32,
    },
    /// `N(0, std^2)` scaled by `1/sqrt(2 * n_layers)`, the rescaling of residual
    /// branches.
    ResidualScaled {
        /// Base standard deviation before rescaling.
        std: u32,
        /// Number of residual blocks in the stack.
        n_layers: usize,
    },
}

/// The bit pattern of one fiftieth.
pub const FIFTIETH: u32 = 0x3ca3_d70a;

pub open spec fn fan_in(dims: Seq<usize>) -> u64 {
    if dims.len() > 0 {
        dims[0] as u64
    } else {
        1
    }
}

pub open spec fn fan_out(dims: Seq<usize>) -> u64 {
    if dims.len() > 1 {
        dims[1] as u64
    } else {
        1
    }
}

/// Whether a scheme draws random numbers, and with which kernel.
pub open spec fn kernel(i: Initializer, dims: Seq<usize>, g: Source) -> Option<Fused> {
    let zero = Scalar::Int(0);
    let (a, b) = (fan_in(dims), fan_out(dims));
    match i {
        Initializer::Normal { mean, std } => Some(
            Fused::Normal(Scalar::Bits(mean), Scalar::Bits(std), g.seed, g.next),
        ),
        Initializer::Uniform { lo, hi } => Some(
            Fused::Uniform(Scalar::Bits(lo), Scalar::Bits(hi), g.seed, g.next),
        ),
        Initializer::KaimingUniform { gain } => Some(
            Fused::UniformWithin(Scalar::BitsTimesRoot(gain, 3, a, 0), g.seed, g.next),
        ),
        Initializer::KaimingNormal { gain } => Some(
            Fused::Normal(zero, Scalar::BitsTimesRoot(gain, 1, a, 0), g.seed, g.next),
        ),
        Initializer::XavierUniform { gain } => Some(
            Fused::UniformWithin(Scalar::BitsTimesRoot(gain, 6, a, b), g.seed, g.next),
        ),
        Initializer::XavierNormal { gain } => Some(
            Fused::Normal(zero, Scalar::BitsTimesRoot(gain, 2, a, b), g.seed, g.next),
        ),
        Initializer::ResidualScaled { std, n_layers } => {
            let n = if n_layers == 0 {
                1u64
            } else {
                n_layers as u64
            };
            Some(Fused::Normal(zero, Scalar::BitsTimesRoot(std, 1, n, n), g.seed, g.next))
        },
        _ => None,
    }
}

/// The filled tensor, and the source after it.
pub open spec fn filled(i: Initializer, dims: Seq<usize>, g: Source) -> (Source, Value) {
    match kernel(i, dims, g) {
        Some(k) => (g.drawn(), tensor::fused_of(k, Seq::empty(), dims)),
        None => (
            g,
            tensor::fill_of(
                match i {
                    Initializer::Ones => Scalar::Int(1),
                    Initializer::Constant(v) => Scalar::Bits(v),
                    _ => Scalar::Int(0),
                },
                dims,
            ),
        ),
    }
}

impl Default for Initializer {
    fn default() -> (r: Self)
        ensures
            r == (Initializer::KaimingUniform { gain: single::ONE }),
    {
        Initializer::KaimingUniform { gain: single::ONE }
    }
}

impl Initializer {
    /// Materialise a tensor of the given shape.
    pub fn init(&self, shape: Shape, rng: &mut Rng) -> (r: Tensor)
        ensures
            (final(rng)@, r@) == filled(*self, shape@, old(rng)@),
    {
        let a: u64 = if shape.rank() > 0 {
            shape.dim(0) as u64
        } else {
            1
        };
        let b: u64 = if shape.rank() > 1 {
            shape.dim(1) as u64
        } else {
            1
        };
        let zero = Scalar::Int(0);
        let seed: u64 = rng.seed;
        let n: u64 = rng.next;
        let k: Fused = match *self {
            Initializer::Zeros => {
                return Tensor::zeros(shape);
            },
            Initializer::Ones => {
                return Tensor::ones(shape);
            },
            Initializer::Constant(v) => {
                return Tensor::fill(Scalar::Bits(v), shape);
            },
            Initializer::Normal { mean, std } => Fused::Normal(
                Scalar::Bits(mean),
                Scalar::Bits(std),
                seed,
                n,
            ),
            Initializer::Uniform { lo, hi } => Fused::Uniform(
                Scalar::Bits(lo),
                Scalar::Bits(hi),
                seed,
                n,
            ),
            Initializer::KaimingUniform { gain } => Fused::UniformWithin(
                Scalar::BitsTimesRoot(gain, 3, a, 0),
                seed,
                n,
            ),
            Initializer::KaimingNormal { gain } => Fused::Normal(
                zero,
                Scalar::BitsTimesRoot(gain, 1, a, 0),
                seed,
                n,
            ),
            Initializer::XavierUniform { gain } => Fused::UniformWithin(
                Scalar::BitsTimesRoot(gain, 6, a, b),
                seed,
                n,
            ),
            Initializer::XavierNormal { gain } => Fused::Normal(
                zero,
                Scalar::BitsTimesRoot(gain, 2, a, b),
                seed,
                n,
            ),
            Initializer::ResidualScaled { std, n_layers } => {
                let depth: u64 = if n_layers == 0 {
                    1
                } else {
                    n_layers as u64
                };
                Fused::Normal(zero, Scalar::BitsTimesRoot(std, 1, depth, depth), seed, n)
            },
        };
        rng.advance();
        random_fill(k, shape)
    }
}

/// A tensor a kernel fills from nothing.
pub(crate) fn random_fill(k: Fused, shape: Shape) -> (r: Tensor)
    ensures
        r@ == tensor::fused_of(k, Seq::empty(), shape@),
{
    let none: Vec<Tensor> = Vec::new();
    proof {
        assert(tensor::values(none@) =~= Seq::empty());
    }
    Tensor::fused(k, &none, shape)
}

/// A parameter made from a value.
pub open spec fn planted(g: Ground, v: Value) -> (Ground, Param) {
    let id = g.tape.next_param;
    (
        Ground {
            tape: Tape { next_param: graph::following(id), ..g.tape },
            store: g.store.with_weight(id, Held { value: v, trainable: true }),
            ..g
        },
        Param::of(id),
    )
}

/// A parameter filled by a scheme.
pub open spec fn sown(g: Ground, i: Initializer, dims: Seq<usize>) -> (Ground, Param) {
    let (rng, v) = filled(i, dims, g.rng);
    planted(Ground { rng, ..g }, v)
}

/// Create a parameter filled by a scheme.
pub(crate) fn sow(s: &mut Session, st: &mut Store, rng: &mut Rng, i: Initializer, shape: Shape) -> (r:
    Param)
    ensures
        (ground(final(s)@, final(st)@, final(rng)@), r) == sown(
            ground(old(s)@, old(st)@, old(rng)@),
            i,
            shape@,
        ),
{
    let value = i.init(shape, rng);
    Param::new(s, st, value)
}

/// A parameter made from a value, where one is wanted.
pub open spec fn planted_when(g: Ground, wanted: bool, v: Value) -> (Ground, Option<Param>) {
    if wanted {
        let (after, p) = planted(g, v);
        (after, Some(p))
    } else {
        (g, None)
    }
}

/// Create a parameter filled with one number, where one is wanted.
pub(crate) fn plant_if(
    s: &mut Session,
    st: &mut Store,
    wanted: bool,
    fill: Scalar,
    shape: Shape,
    Ghost(rng): Ghost<Source>,
) -> (r: Option<Param>)
    ensures
        (ground(final(s)@, final(st)@, rng), r) == planted_when(
            ground(old(s)@, old(st)@, rng),
            wanted,
            tensor::fill_of(fill, shape@),
        ),
{
    if wanted {
        Some(Param::new(s, st, Tensor::fill(fill, shape)))
    } else {
        None
    }
}

/// A list of one extent.
pub(crate) fn row(a: usize) -> (r: Shape)
    ensures
        r@ == seq![a],
{
    let mut v: Vec<usize> = Vec::new();
    v.push(a);
    proof {
        assert(v@ =~= seq![a]);
    }
    Shape::new(v)
}

/// A list of two extents.
pub(crate) fn grid(a: usize, b: usize) -> (r: Shape)
    ensures
        r@ == seq![a, b],
{
    let mut v: Vec<usize> = Vec::new();
    v.push(a);
    v.push(b);
    proof {
        assert(v@ =~= seq![a, b]);
    }
    Shape::new(v)
}

/// A list of three extents.
pub(crate) fn block(a: usize, b: usize, c: usize) -> (r: Shape)
    ensures
        r@ == seq![a, b, c],
{
    let mut v: Vec<usize> = Vec::new();
    v.push(a);
    v.push(b);
    v.push(c);
    proof {
        assert(v@ =~= seq![a, b, c]);
    }
    Shape::new(v)
}

/// A list of four extents.
pub(crate) fn four(a: usize, b: usize, c: usize, d: usize) -> (r: Shape)
    ensures
        r@ == seq![a, b, c, d],
{
    let mut v: Vec<usize> = Vec::new();
    v.push(a);
    v.push(b);
    v.push(c);
    v.push(d);
    proof {
        assert(v@ =~= seq![a, b, c, d]);
    }
    Shape::new(v)
}

/// A list of five extents.
pub(crate) fn five(a: usize, b: usize, c: usize, d: usize, e: usize) -> (r: Shape)
    ensures
        r@ == seq![a, b, c, d, e],
{
    let mut v: Vec<usize> = Vec::new();
    v.push(a);
    v.push(b);
    v.push(c);
    v.push(d);
    v.push(e);
    proof {
        assert(v@ =~= seq![a, b, c, d, e]);
    }
    Shape::new(v)
}

/// A list of six extents.
pub(crate) fn six(a: usize, b: usize, c: usize, d: usize, e: usize, f: usize) -> (r: Shape)
    ensures
        r@ == seq![a, b, c, d, e, f],
{
    let mut v: Vec<usize> = Vec::new();
    v.push(a);
    v.push(b);
    v.push(c);
    v.push(d);
    v.push(e);
    v.push(f);
    proof {
        assert(v@ =~= seq![a, b, c, d, e, f]);
    }
    Shape::new(v)
}

} // verus!
