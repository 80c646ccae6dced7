//! Quantization-aware training.
//!
//! Values are rounded onto a uniform grid in the forward pass, and the gradient flows
//! through a straight-through estimator with a clamp mask outside the representable
//! range. It is expressed with ordinary differentiable operations.
//!
//! Two range policies are supported:
//!
//! * **Dynamic** - the range is recomputed from the tensor on every call, for weights,
//!   which change every step.
//! * **Observed** - an exponential moving average of the per-batch range, frozen at
//!   evaluation time, for activations.

use vstd::arithmetic::power2::pow2;
use vstd::prelude::*;

use super::dropout;
use super::flow;
use super::flow::{Step, World};
use super::module::{Listed, Module, ModuleVisitor, Part, Switch};
use super::store;
use super::store::{Gauge, Gauged, Range, Store, Stored, copied_range};
use crate::autograd::graph::{Session, Tape};
use crate::autograd::ops;
use crate::autograd::ops::count_error;
use crate::autograd::var::{Traced, Var};
use crate::error::{Error, Fault};
use crate::shape::Shape;
use crate::single;
use crate::meaning;
use crate::meaning::Model;
use crate::tensor;
use crate::tensor::{Tensor, Value};
use crate::term::{Binary, Reduce, Scalar, Unary};
use crate::text::{append_bracketed, append_decimal};

verus! {

/// Whether the grid is centred on zero.
#[derive(Debug, Clone, Copy, PartialEq, Eq, Structural)]
pub enum QuantScheme {
    /// Zero point fixed at zero; the grid is `[-2^(b-1)+1, 2^(b-1)-1] * scale`.
    Symmetric,
    /// Learned zero point; the grid covers the observed `[min, max]` exactly.
    Affine,
}

/// How many independent scales a tensor gets.
#[derive(Debug, Clone, Copy, PartialEq, Eq, Structural)]
pub enum Granularity {
    /// One scale for the whole tensor.
    PerTensor,
    /// One scale per slice along `axis` (for a `[in, out]` weight, `axis = 1` gives
    /// per-output-channel scales).
    PerChannel {
        /// Axis that keeps its own scale.
        axis: usize,
    },
}

/// Quantizer settings.
#[derive(Debug, Clone, Copy, PartialEq, Eq, Structural)]
pub struct QuantConfig {
    /// Bit width, 2..=16.
    pub bits: u32,
    /// Symmetric or affine grid.
    pub scheme: QuantScheme,
    /// Per-tensor or per-channel scales.
    pub granularity: Granularity,
    /// Recompute the range every call (weights) instead of observing it (activations).
    pub dynamic: bool,
    /// Momentum of the observed range, as a single-precision bit pattern. Ignored when
    /// `dynamic`.
    pub momentum: u32,
}

/// The bit pattern of one hundredth.
pub const HUNDREDTH: u32 = 0x3c23_d70a;

/// The bit pattern of ten to the minus twelfth, the floor of a scale.
pub const SCALE_FLOOR: u32 = 0x2b8c_bccc;

/// What the settings are where nothing else is said.
pub open spec fn default_config() -> QuantConfig {
    QuantConfig {
        bits: 8,
        scheme: QuantScheme::Symmetric,
        granularity: Granularity::PerTensor,
        dynamic: true,
        momentum: HUNDREDTH,
    }
}

impl Default for QuantConfig {
    fn default() -> (r: Self)
        ensures
            r == default_config(),
    {
        QuantConfig {
            bits: 8,
            scheme: QuantScheme::Symmetric,
            granularity: Granularity::PerTensor,
            dynamic: true,
            momentum: HUNDREDTH,
        }
    }
}

pub open spec fn bits_message(bits: u32) -> Seq<char> {
    "quantization bit width must be in 2..=16, got "@ + crate::text::decimal(bits as nat)
}

fn bits_error(bits: u32) -> (e: Error)
    ensures
        e@ == Fault::Config(bits_message(bits)),
{
    let mut text = String::new();
    text.append("quantization bit width must be in 2..=16, got ");
    append_decimal(&mut text, bits as u64);
    proof {
        assert(text@ =~= bits_message(bits));
    }
    Error::Config(text)
}

/// The integer bounds of a grid. A symmetric grid drops the most negative code so that
/// it is exactly symmetric.
pub open spec fn bounds_of(bits: u32, scheme: QuantScheme) -> (int, int) {
    match scheme {
        QuantScheme::Symmetric => (1 - pow2((bits - 1) as nat), pow2((bits - 1) as nat) - 1),
        QuantScheme::Affine => (0, pow2(bits as nat) - 1),
    }
}

/// Whether a bit width is one a grid is made for.
pub open spec fn width_ok(bits: u32) -> bool {
    2 <= bits <= 16
}

fn power(n: u32) -> (r: i64)
    requires
        n <= 16,
    ensures
        r == pow2(n as nat),
        1 <= r <= 65536,
{
    let mut p: i64 = 1;
    let mut i: u32 = 0;
    proof {
        vstd::arithmetic::power2::lemma2_to64();
    }
    while i < n
        invariant
            i <= n <= 16,
            p == pow2(i as nat),
            1 <= p <= 65536,
            pow2(16) == 65536,
        decreases n - i,
    {
        proof {
            vstd::arithmetic::power2::lemma_pow2_unfold((i + 1) as nat);
            if i + 1 < 16 {
                vstd::arithmetic::power2::lemma_pow2_strictly_increases((i + 1) as nat, 16);
            }
        }
        p = p * 2;
        i += 1;
    }
    p
}

impl QuantConfig {
    /// Start a builder.
    pub fn builder() -> (r: QuantConfigBuilder)
        ensures
            r == (QuantConfigBuilder {
                bits: None,
                scheme: None,
                granularity: None,
                dynamic: None,
                momentum: None,
            }),
    {
        QuantConfigBuilder {
            bits: None,
            scheme: None,
            granularity: None,
            dynamic: None,
            momentum: None,
        }
    }

    /// A sensible 8-bit weight configuration: symmetric, per-output-channel, dynamic.
    pub fn int8_weights() -> (r: Self)
        ensures
            r == (QuantConfig {
                granularity: Granularity::PerChannel { axis: 1 },
                ..default_config()
            }),
    {
        QuantConfig {
            bits: 8,
            scheme: QuantScheme::Symmetric,
            granularity: Granularity::PerChannel { axis: 1 },
            dynamic: true,
            momentum: HUNDREDTH,
        }
    }

    /// A sensible 8-bit activation configuration: affine, per-tensor, observed.
    pub fn int8_activations() -> (r: Self)
        ensures
            r == (QuantConfig {
                scheme: QuantScheme::Affine,
                dynamic: false,
                ..default_config()
            }),
    {
        QuantConfig {
            bits: 8,
            scheme: QuantScheme::Affine,
            granularity: Granularity::PerTensor,
            dynamic: false,
            momentum: HUNDREDTH,
        }
    }

    /// Integer bounds of the grid.
    pub fn bounds(&self) -> (r: (i64, i64))
        requires
            width_ok(self.bits),
        ensures
            (r.0 as int, r.1 as int) == bounds_of(self.bits, self.scheme),
            -65536 <= r.0 <= 0 <= r.1 <= 65536,
    {
        match self.scheme {
            QuantScheme::Symmetric => {
                let q: i64 = power(self.bits - 1) - 1;
                (0 - q, q)
            },
            QuantScheme::Affine => (0, power(self.bits) - 1),
        }
    }
}

/// Builder for [`QuantConfig`].
#[derive(Debug, Clone, Copy)]
pub struct QuantConfigBuilder {
    pub bits: Option<u32>,
    pub scheme: Option<QuantScheme>,
    pub granularity: Option<Granularity>,
    pub dynamic: Option<bool>,
    pub momentum: Option<u32>,
}

/// A setting, or its default.
pub open spec fn given<T>(o: Option<T>, default: T) -> T {
    match o {
        Some(v) => v,
        None => default,
    }
}

/// What a builder makes: its settings, the defaults where nothing was said.
pub open spec fn built(b: QuantConfigBuilder) -> Result<QuantConfig, Fault> {
    let d = default_config();
    let c = QuantConfig {
        bits: given(b.bits, d.bits),
        scheme: given(b.scheme, d.scheme),
        granularity: given(b.granularity, d.granularity),
        dynamic: given(b.dynamic, d.dynamic),
        momentum: given(b.momentum, d.momentum),
    };
    if !width_ok(c.bits) {
        Err(Fault::Config(bits_message(c.bits)))
    } else if !(single::at_most(single::ZERO, c.momentum) && single::at_most(
        c.momentum,
        single::ONE,
    )) {
        Err(Fault::Config("observer momentum must be in [0, 1]"@))
    } else if !c.dynamic && c.granularity is PerChannel {
        Err(
            Fault::Config(
                "per-channel observed ranges are not supported; use dynamic ranges for weights and per-tensor observation for activations"@,
            ),
        )
    } else {
        Ok(c)
    }
}

impl QuantConfigBuilder {
    /// Bit width.
    pub fn bits(self, bits: u32) -> (r: Self)
        ensures
            r == (QuantConfigBuilder { bits: Some(bits), ..self }),
    {
        QuantConfigBuilder { bits: Some(bits), ..self }
    }

    /// Grid centring.
    pub fn scheme(self, scheme: QuantScheme) -> (r: Self)
        ensures
            r == (QuantConfigBuilder { scheme: Some(scheme), ..self }),
    {
        QuantConfigBuilder { scheme: Some(scheme), ..self }
    }

    /// Scale sharing.
    pub fn granularity(self, granularity: Granularity) -> (r: Self)
        ensures
            r == (QuantConfigBuilder { granularity: Some(granularity), ..self }),
    {
        QuantConfigBuilder { granularity: Some(granularity), ..self }
    }

    /// Recompute the range each call.
    pub fn dynamic(self, dynamic: bool) -> (r: Self)
        ensures
            r == (QuantConfigBuilder { dynamic: Some(dynamic), ..self }),
    {
        QuantConfigBuilder { dynamic: Some(dynamic), ..self }
    }

    /// Momentum of observed ranges.
    pub fn momentum(self, momentum: u32) -> (r: Self)
        ensures
            r == (QuantConfigBuilder { momentum: Some(momentum), ..self }),
    {
        QuantConfigBuilder { momentum: Some(momentum), ..self }
    }

    /// Validate and build.
    pub fn build(self) -> (r: Result<QuantConfig, Error>)
        ensures
            match (r, built(self)) {
                (Ok(c), Ok(want)) => c == want,
                (Err(e), Err(f)) => e@ == f,
                _ => false,
            },
    {
        let d = QuantConfig::default();
        let bits: u32 = match self.bits {
            Some(b) => b,
            None => d.bits,
        };
        if bits < 2 || bits > 16 {
            return Err(bits_error(bits));
        }
        let momentum: u32 = match self.momentum {
            Some(m) => m,
            None => d.momentum,
        };
        if !(single::le(single::ZERO, momentum) && single::le(momentum, single::ONE)) {
            return Err(Error::config("observer momentum must be in [0, 1]"));
        }
        let dynamic: bool = match self.dynamic {
            Some(f) => f,
            None => d.dynamic,
        };
        let granularity = match self.granularity {
            Some(g) => g,
            None => d.granularity,
        };
        if !dynamic {
            if let Granularity::PerChannel { axis: _ } = granularity {
                return Err(
                    Error::config(
                        "per-channel observed ranges are not supported; use dynamic ranges for weights and per-tensor observation for activations",
                    ),
                );
            }
        }
        let scheme = match self.scheme {
            Some(c) => c,
            None => d.scheme,
        };
        Ok(QuantConfig { bits, scheme, granularity, dynamic, momentum })
    }
}

// -- ranges and scales ---------------------------------------------------------------

/// The smallest and the largest element of a tensor, as single values.
pub open spec fn range_of(x: Value) -> Result<(Value, Value), Fault> {
    if !crate::shape::fits(x.dims) {
        Err(Fault::Shape(ops::count_message(x.dims)))
    } else {
        let flat = Value {
            dims: seq![crate::shape::product(x.dims) as usize],
            term: crate::term::Term::Reshape(
                crate::term::dims(seq![crate::shape::product(x.dims) as usize]),
                std::sync::Arc::new(x.term),
            ),
        };
        let lo = tensor::reduce_of(Reduce::Min, flat, 0)->Ok_0;
        let hi = tensor::reduce_of(Reduce::Max, flat, 0)->Ok_0;
        Ok(
            (
                tensor::reshape_of(lo, Seq::empty())->Ok_0,
                tensor::reshape_of(hi, Seq::empty())->Ok_0,
            ),
        )
    }
}

/// A function of two values that broadcast against each other.
pub open spec fn joined(op: Binary, a: Value, b: Value) -> Value {
    Value {
        dims: crate::shape::broadcast_dims(a.dims, b.dims),
        term: crate::term::binary_term(op, a.term, b.term),
    }
}

/// Scale and zero point for a range, element by element. A symmetric scale spreads the
/// larger magnitude over the positive half of the grid; an affine one spreads the range over
/// the whole grid, and its zero point puts the first level on the lower bound. A scale is
/// never below its floor.
pub open spec fn solved(lo: Value, hi: Value, bounds: (int, int), scheme: QuantScheme) -> (
    Value,
    Value,
) {
    let dims = lo.dims;
    let floor = tensor::fill_of(Scalar::Bits(SCALE_FLOOR), dims);
    match scheme {
        QuantScheme::Symmetric => {
            let bound = joined(
                Binary::Maximum,
                joined(
                    Binary::Maximum,
                    tensor::unary_of(Unary::Abs, lo),
                    tensor::unary_of(Unary::Abs, hi),
                ),
                floor,
            );
            (
                joined(
                    Binary::Div,
                    bound,
                    tensor::fill_of(Scalar::Int(bounds.1 as i64), dims),
                ),
                tensor::fill_of(Scalar::Int(0), dims),
            )
        },
        QuantScheme::Affine => {
            let scale = joined(
                Binary::Maximum,
                joined(
                    Binary::Div,
                    joined(Binary::Sub, hi, lo),
                    tensor::fill_of(Scalar::Int((bounds.1 - bounds.0) as i64), dims),
                ),
                floor,
            );
            let zero = joined(
                Binary::Sub,
                tensor::fill_of(Scalar::Int(bounds.0 as i64), dims),
                joined(Binary::Div, lo, scale),
            );
            (scale, zero)
        },
    }
}

/// A reduction over the first `k` axes but one.
pub open spec fn reduced_but(op: Reduce, x: Value, axis: usize, k: nat) -> Value
    decreases k,
{
    if k == 0 {
        x
    } else {
        let before = reduced_but(op, x, axis, (k - 1) as nat);
        if k - 1 == axis {
            before
        } else {
            tensor::reduce_of(op, before, (k - 1) as usize)->Ok_0
        }
    }
}

pub open spec fn axis_message(axis: usize, dims: Seq<usize>) -> Seq<char> {
    "per-channel axis "@ + crate::text::decimal(axis as nat) + " is out of range for "@
        + crate::text::bracketed(dims)
}

fn axis_error(axis: usize, dims: &Vec<usize>) -> (e: Error)
    ensures
        e@ == Fault::Config(axis_message(axis, dims@)),
{
    let mut text = String::new();
    text.append("per-channel axis ");
    append_decimal(&mut text, axis as u64);
    text.append(" is out of range for ");
    append_bracketed(&mut text, dims);
    proof {
        assert(text@ =~= axis_message(axis, dims@));
    }
    Error::Config(text)
}

/// A shape with every extent but one reduced to one.
pub open spec fn channel_dims(dims: Seq<usize>, axis: usize) -> Seq<usize> {
    Seq::new(
        dims.len(),
        |i: int|
            if i == axis {
                dims[i]
            } else {
                1usize
            },
    )
}

proof fn lemma_reduced_rank(op: Reduce, x: Value, axis: usize, k: nat)
    requires
        k <= x.dims.len() <= usize::MAX,
    ensures
        reduced_but(op, x, axis, k).dims.len() == x.dims.len(),
        forall|i: int|
            0 <= i < x.dims.len() ==> #[trigger] reduced_but(op, x, axis, k).dims[i] == (if i < k
                && i != axis {
                1usize
            } else {
                x.dims[i]
            }),
    decreases k,
{
    if k > 0 {
        lemma_reduced_rank(op, x, axis, (k - 1) as nat);
    }
}

/// Two values of one shape broadcast to that shape.
proof fn lemma_same_shape(a: Seq<usize>)
    ensures
        crate::shape::compatible(a, a),
        crate::shape::broadcast_dims(a, a) == a,
{
    crate::shape::law_broadcast_idempotent(a);
}

pub(crate) fn join(op: Binary, a: &Tensor, b: &Tensor) -> (r: Tensor)
    requires
        a@.dims == b@.dims,
    ensures
        r@ == joined(op, a@, b@),
        r@.dims == a@.dims,
{
    proof {
        lemma_same_shape(a@.dims);
    }
    match Tensor::binary(op, a, b) {
        Ok(t) => t,
        Err(_) => a.clone(),
    }
}

fn reduce_but(op: Reduce, x: &Tensor, axis: usize) -> (r: Tensor)
    ensures
        r@ == reduced_but(op, x@, axis, x@.dims.len()),
        r@.dims == channel_dims(x@.dims, axis),
{
    let mut out = x.clone();
    let rank: usize = x.rank();
    let mut a: usize = 0;
    while a < rank
        invariant
            a <= rank,
            rank == x@.dims.len(),
            out@ == reduced_but(op, x@, axis, a as nat),
        decreases rank - a,
    {
        if a != axis {
            proof {
                lemma_reduced_rank(op, x@, axis, a as nat);
            }
            let next = match out.reduce(op, a) {
                Ok(t) => t,
                Err(_) => out,
            };
            out = next;
        }
        a += 1;
    }
    proof {
        lemma_reduced_rank(op, x@, axis, rank as nat);
        assert(out@.dims =~= channel_dims(x@.dims, axis));
    }
    out
}

/// The min and max of a whole tensor.
fn tensor_range(x: &Tensor) -> (r: Result<(Tensor, Tensor), Error>)
    ensures
        match (r, range_of(x@)) {
            (Ok(p), Ok(want)) => (p.0@, p.1@) == want && p.0@.dims == Seq::<usize>::empty()
                && p.1@.dims == Seq::<usize>::empty(),
            (Err(e), Err(f)) => e@ == f,
            _ => false,
        },
{
    let n: usize = match x.shape().checked_elements() {
        Some(n) => n,
        None => {
            return Err(count_error(x.dims()));
        },
    };
    let mut list: Vec<usize> = Vec::new();
    list.push(n);
    proof {
        assert(list@ =~= seq![n]);
        lemma_one_row(n);
    }
    let flat = x.reshape(&Shape::new(list))?;
    let lo = flat.reduce(Reduce::Min, 0)?;
    let hi = flat.reduce(Reduce::Max, 0)?;
    proof {
        assert(flat@.dims.update(0, 1usize) =~= seq![1usize]);
        lemma_one_row(1);
        reveal_with_fuel(crate::shape::product, 1);
    }
    Ok((lo.reshape(&Shape::scalar())?, hi.reshape(&Shape::scalar())?))
}

/// The number of elements of a single row.
proof fn lemma_one_row(n: usize)
    ensures
        crate::shape::product(seq![n]) == n,
{
    let row = seq![n];
    assert(row.drop_last() =~= Seq::<usize>::empty());
    assert(crate::shape::product(row.drop_last()) == 1);
    assert(row.last() == n);
    assert(crate::shape::product(row) == 1 * n as nat);
}

/// Scale and zero point for one shared range.
fn solve_scale(lo: &Tensor, hi: &Tensor, bounds: (i64, i64), scheme: QuantScheme) -> (r: (
    Tensor,
    Tensor,
))
    requires
        lo@.dims == hi@.dims,
        0 <= bounds.1 - bounds.0 <= i64::MAX,
    ensures
        (r.0@, r.1@) == solved(lo@, hi@, (bounds.0 as int, bounds.1 as int), scheme),
        r.0@.dims == lo@.dims,
        r.1@.dims == lo@.dims,
{
    let shape = lo.shape().clone();
    let floor = Tensor::fill(Scalar::Bits(SCALE_FLOOR), lo.shape().clone());
    match scheme {
        QuantScheme::Symmetric => {
            let larger = join(Binary::Maximum, &lo.unary(Unary::Abs), &hi.unary(Unary::Abs));
            let bound = join(Binary::Maximum, &larger, &floor);
            let top = Tensor::fill(Scalar::Int(bounds.1), lo.shape().clone());
            (join(Binary::Div, &bound, &top), Tensor::zeros(shape))
        },
        QuantScheme::Affine => {
            let span = join(Binary::Sub, hi, lo);
            let width = Tensor::fill(Scalar::Int(bounds.1 - bounds.0), lo.shape().clone());
            let share = join(Binary::Div, &span, &width);
            let scale = join(Binary::Maximum, &share, &floor);
            let first = Tensor::fill(Scalar::Int(bounds.0), shape);
            let steps = join(Binary::Div, lo, &scale);
            let zero = join(Binary::Sub, &first, &steps);
            (scale, zero)
        },
    }
}

// -- the quantizer -------------------------------------------------------------------

/// A fake quantizer.
///
/// Insert one before a product to simulate low-precision inference while training in
/// floating point. What it has observed lies in the store under its id.
#[derive(Clone, Copy, Debug, PartialEq, Eq, Structural)]
pub struct Quantizer {
    pub config: QuantConfig,
    pub id: u64,
}

/// The store after a quantizer has been made.
pub open spec fn made(st: Stored, config: QuantConfig) -> (Stored, Quantizer) {
    (
        st.counted().with_gauge(
            st.next,
            Gauged { range: None, enabled: true, training: true },
        ),
        Quantizer { config, id: st.next },
    )
}

/// A quantizer for settings that may be missing.
pub open spec fn made_opt(st: Stored, config: Option<QuantConfig>) -> (Stored, Option<Quantizer>) {
    match config {
        Some(c) => {
            let (after, q) = made(st, c);
            (after, Some(q))
        },
        None => (st, None),
    }
}

pub open spec fn pair_value(r: Option<(Tensor, Tensor)>) -> Option<(Value, Value)> {
    match r {
        Some((lo, hi)) => Some((lo@, hi@)),
        None => None,
    }
}

/// The moving average of a bound: `(1 - m) old + m new`.
pub open spec fn averaged(m: u32, was: Value, now: Value) -> Value {
    joined(
        Binary::Add,
        tensor::unary_of(Unary::MulScalar(Scalar::OneLessBits(m)), was),
        tensor::unary_of(Unary::MulScalar(Scalar::Bits(m)), now),
    )
}

/// The range a quantizer holds after it has seen a tensor: the first range is taken as
/// it is, later ones are averaged in while training, and at evaluation time nothing
/// changes.
pub open spec fn observed(g: Gauged, m: u32, x: Value) -> Result<(Value, Value), Fault> {
    match g.range {
        None => range_of(x),
        Some((lo, hi)) => if !g.training {
            Ok((lo, hi))
        } else {
            match range_of(x) {
                Err(f) => Err(f),
                Ok((a, b)) => Ok((averaged(m, lo, a), averaged(m, hi, b))),
            }
        },
    }
}

/// Rounding onto the grid of one scale and zero point, and back.
pub open spec fn snapped_op(t: Tape, x: Traced, scale: Value, zero: Value, lo: i64, hi: i64) -> Result<
    (Tape, Traced),
    Fault,
> {
    ops::next(
        ops::binary_op(t, Binary::Mul, x, ops::untracked(tensor::unary_of(Unary::Recip, scale))),
        |t1: Tape, shrunk: Traced|
            ops::next(
                ops::binary_op(t1, Binary::Add, shrunk, ops::untracked(zero)),
                |t2: Tape, scaled: Traced|
                    {
                        let (t3, q) = ops::pointwise_op(t2, Unary::Round, scaled);
                        let (t4, c) = ops::pointwise_op(t3, Unary::Clamp(Scalar::Int(lo), Scalar::Int(hi)), q);
                        ops::next(
                            ops::binary_op(t4, Binary::Sub, c, ops::untracked(zero)),
                            |t5: Tape, back: Traced|
                                ops::binary_op(t5, Binary::Mul, back, ops::untracked(scale)),
                        )
                    },
            ),
    )
}

/// Rounding onto the grids of the channels, and back.
pub open spec fn channels_op(t: Tape, x: Traced, scale: Value, zero: Value, lo: i64, hi: i64) -> Result<
    (Tape, Traced),
    Fault,
> {
    ops::next(
        ops::binary_op(t, Binary::Div, x, ops::untracked(scale)),
        |t1: Tape, shrunk: Traced|
            ops::next(
                ops::binary_op(t1, Binary::Add, shrunk, ops::untracked(zero)),
                |t2: Tape, scaled: Traced|
                    {
                        let (t3, q) = ops::pointwise_op(t2, Unary::Round, scaled);
                        let (t4, c) = ops::pointwise_op(t3, Unary::Clamp(Scalar::Int(lo), Scalar::Int(hi)), q);
                        ops::next(
                            ops::binary_op(t4, Binary::Sub, c, ops::untracked(zero)),
                            |t5: Tape, back: Traced|
                                ops::binary_op(t5, Binary::Mul, back, ops::untracked(scale)),
                        )
                    },
            ),
    )
}

/// Rounding with one scale and zero point per slice along an axis.
pub open spec fn per_channel_op(
    t: Tape,
    x: Traced,
    axis: usize,
    bounds: (int, int),
    scheme: QuantScheme,
) -> Result<(Tape, Traced), Fault> {
    if axis >= x.value.dims.len() {
        Err(Fault::Config(axis_message(axis, x.value.dims)))
    } else {
        let n = x.value.dims.len();
        let (scale, zero) = solved(
            reduced_but(Reduce::Min, x.value, axis, n),
            reduced_but(Reduce::Max, x.value, axis, n),
            bounds,
            scheme,
        );
        channels_op(t, x, scale, zero, bounds.0 as i64, bounds.1 as i64)
    }
}

/// Quantizing and immediately dequantizing.
pub open spec fn quantize_op(w: World, q: Quantizer, x: Traced) -> Step {
    if !w.store.gauges.contains_key(q.id) {
        Err(dropout::unknown())
    } else {
        let g = w.store.gauges[q.id];
        let b = bounds_of(q.config.bits, q.config.scheme);
        if !g.enabled {
            Ok((w, x))
        } else if !width_ok(q.config.bits) {
            Err(Fault::Config(bits_message(q.config.bits)))
        } else {
            match q.config.granularity {
                Granularity::PerTensor => if q.config.dynamic {
                    match range_of(x.value) {
                        Err(f) => Err(f),
                        Ok((lo, hi)) => {
                            let (scale, zero) = solved(lo, hi, b, q.config.scheme);
                            flow::on(w, snapped_op(w.tape, x, scale, zero, b.0 as i64, b.1 as i64))
                        },
                    }
                } else {
                    match observed(g, q.config.momentum, x.value) {
                        Err(f) => Err(f),
                        Ok((lo, hi)) => {
                            let (scale, zero) = solved(lo, hi, b, q.config.scheme);
                            let now = World {
                                store: w.store.with_gauge(
                                    q.id,
                                    Gauged { range: Some((lo, hi)), ..g },
                                ),
                                ..w
                            };
                            flow::on(
                                now,
                                snapped_op(w.tape, x, scale, zero, b.0 as i64, b.1 as i64),
                            )
                        },
                    }
                },
                Granularity::PerChannel { axis } => flow::on(
                    w,
                    per_channel_op(w.tape, x, axis, b, q.config.scheme),
                ),
            }
        }
    }
}

/// Quantizing that may be missing.
pub open spec fn quantize_opt(w: World, q: Option<Quantizer>, x: Traced) -> Step {
    match q {
        Some(l) => quantize_op(w, l, x),
        None => Ok((w, x)),
    }
}

fn snap(
    s: &mut Session,
    x: &Var,
    scale: &Tensor,
    zero: &Tensor,
    lo: i64,
    hi: i64,
) -> (r: Result<Var, Error>)
    ensures
        ops::same_value(r, final(s)@, snapped_op(old(s)@, x@, scale@, zero@, lo, hi)),
{
    let shrunk = x.mul(s, &Var::constant(scale.unary(Unary::Recip)))?;
    let scaled = shrunk.add(s, &Var::constant(zero.clone()))?;
    let q = scaled.round_ste(s);
    let c = q.clamp(s, Scalar::Int(lo), Scalar::Int(hi));
    let back = c.sub(s, &Var::constant(zero.clone()))?;
    back.mul(s, &Var::constant(scale.clone()))
}

fn snap_channels(
    s: &mut Session,
    x: &Var,
    scale: &Tensor,
    zero: &Tensor,
    lo: i64,
    hi: i64,
) -> (r: Result<Var, Error>)
    ensures
        ops::same_value(r, final(s)@, channels_op(old(s)@, x@, scale@, zero@, lo, hi)),
{
    let shrunk = x.div(s, &Var::constant(scale.clone()))?;
    let scaled = shrunk.add(s, &Var::constant(zero.clone()))?;
    let q = scaled.round_ste(s);
    let c = q.clamp(s, Scalar::Int(lo), Scalar::Int(hi));
    let back = c.sub(s, &Var::constant(zero.clone()))?;
    back.mul(s, &Var::constant(scale.clone()))
}

fn average(m: u32, was: &Tensor, now: &Tensor) -> (r: Tensor)
    requires
        was@.dims == now@.dims,
    ensures
        r@ == averaged(m, was@, now@),
        r@.dims == was@.dims,
{
    join(
        Binary::Add,
        &was.unary(Unary::MulScalar(Scalar::OneLessBits(m))),
        &now.unary(Unary::MulScalar(Scalar::Bits(m))),
    )
}

impl Quantizer {
    /// Build a quantizer from a configuration.
    pub fn new(st: &mut Store, config: QuantConfig) -> (r: Self)
        ensures
            (final(st)@, r) == made(old(st)@, config),
    {
        let id: u64 = st.fresh();
        st.put_gauge(id, Gauge { range: None, enabled: true, training: true });
        Quantizer { config, id }
    }

    /// Build a quantizer from settings that may be missing.
    pub fn when_given(st: &mut Store, config: Option<QuantConfig>) -> (r: Option<Self>)
        ensures
            (final(st)@, r) == made_opt(old(st)@, config),
    {
        match config {
            Some(c) => Some(Quantizer::new(st, c)),
            None => None,
        }
    }

    /// The configuration in force.
    pub fn config(&self) -> (r: &QuantConfig)
        ensures
            *r == self.config,
    {
        &self.config
    }

    /// Turn quantization off without removing it, so a model can be warmed up in full
    /// precision before quantization-aware training begins.
    pub fn set_enabled(&self, st: &mut Store, enabled: bool)
        ensures
            final(st)@ == (if old(st)@.gauges.contains_key(self.id) {
                old(st)@.with_gauge(
                    self.id,
                    Gauged { enabled, ..old(st)@.gauges[self.id] },
                )
            } else {
                old(st)@
            }),
    {
        let (range, training): (Option<Range>, bool) = match st.gauge(self.id) {
            Some(g) => (copied_range(&g.range), g.training),
            None => {
                return ;
            },
        };
        st.put_gauge(self.id, Gauge { range, enabled, training });
    }

    /// Whether quantization is currently applied.
    pub fn is_enabled(&self, st: &Store) -> (r: bool)
        ensures
            r == (st@.gauges.contains_key(self.id) && st@.gauges[self.id].enabled),
    {
        match st.gauge(self.id) {
            Some(g) => g.enabled,
            None => false,
        }
    }

    /// The currently observed activation range, if any has been recorded.
    pub fn observed_range(&self, st: &Store) -> (r: Option<(Tensor, Tensor)>)
        ensures
            pair_value(r) == (if st@.gauges.contains_key(self.id) {
                st@.gauges[self.id].range
            } else {
                None
            }),
    {
        match st.gauge(self.id) {
            Some(g) => match &g.range {
                Some(r) => Some((r.lo().clone(), r.hi().clone())),
                None => None,
            },
            None => None,
        }
    }

    /// Update and read the moving average of the range.
    fn observe(
        &self,
        st: &mut Store,
        range: Option<Range>,
        training: bool,
        x: &Tensor,
    ) -> (r: Result<(Tensor, Tensor), Error>)
        ensures
            match (
                r,
                observed(
                    Gauged { range: store::range_value(range), enabled: true, training },
                    self.config.momentum,
                    x@,
                ),
            ) {
                (Ok(p), Ok(want)) => (p.0@, p.1@) == want && p.0@.dims == Seq::<usize>::empty()
                    && p.1@.dims == Seq::<usize>::empty() && final(st)@ == old(st)@.with_gauge(
                    self.id,
                    Gauged { range: Some(want), enabled: true, training },
                ),
                (Err(e), Err(f)) => e@ == f && final(st)@ == old(st)@,
                _ => false,
            },
    {
        let (lo, hi) = match range {
            None => tensor_range(x)?,
            Some(was) => {
                if !training {
                    (was.lo().clone(), was.hi().clone())
                } else {
                    let (a, b) = tensor_range(x)?;
                    let m: u32 = self.config.momentum;
                    (average(m, was.lo(), &a), average(m, was.hi(), &b))
                }
            },
        };
        st.put_gauge(
            self.id,
            Gauge { range: Some(Range::new(lo.clone(), hi.clone())), enabled: true, training },
        );
        Ok((lo, hi))
    }

    /// Quantize with one scale per slice along an axis.
    fn quantize_channels(&self, s: &mut Session, x: &Var, axis: usize, bounds: (i64, i64)) -> (r:
        Result<Var, Error>)
        requires
            -65536 <= bounds.0 <= 0 <= bounds.1 <= 65536,
        ensures
            ops::same_value(
                r,
                final(s)@,
                per_channel_op(
                    old(s)@,
                    x@,
                    axis,
                    (bounds.0 as int, bounds.1 as int),
                    self.config.scheme,
                ),
            ),
    {
        if axis >= x.rank() {
            return Err(axis_error(axis, x.dims()));
        }
        let lo = reduce_but(Reduce::Min, x.tensor(), axis);
        let hi = reduce_but(Reduce::Max, x.tensor(), axis);
        let (scale, zero) = solve_scale(&lo, &hi, bounds, self.config.scheme);
        snap_channels(s, x, &scale, &zero, bounds.0, bounds.1)
    }

    /// Quantize and immediately dequantize, keeping the value differentiable.
    pub fn quantize(&self, s: &mut Session, st: &mut Store, x: &Var) -> (r: Result<Var, Error>)
        ensures
            flow::ran(
                r,
                final(s)@,
                final(st)@,
                quantize_op(flow::world(old(s)@, old(st)@), *self, x@),
            ),
    {
        let (range, enabled, training): (Option<Range>, bool, bool) = match st.gauge(
            self.id,
        ) {
            Some(g) => (copied_range(&g.range), g.enabled, g.training),
            None => {
                return Err(dropout::unknown_error());
            },
        };
        if !enabled {
            return Ok(x.clone());
        }
        if self.config.bits < 2 || self.config.bits > 16 {
            return Err(bits_error(self.config.bits));
        }
        let bounds = self.config.bounds();
        match self.config.granularity {
            Granularity::PerTensor => {
                let (lo, hi) = if self.config.dynamic {
                    tensor_range(x.tensor())?
                } else {
                    self.observe(st, range, training, x.tensor())?
                };
                let (scale, zero) = solve_scale(&lo, &hi, bounds, self.config.scheme);
                snap(s, x, &scale, &zero, bounds.0, bounds.1)
            },
            Granularity::PerChannel { axis } => self.quantize_channels(s, x, axis, bounds),
        }
    }
}

/// Quantizing that may be missing.
pub(crate) fn quantize_when(q: &Option<Quantizer>, s: &mut Session, st: &mut Store, x: &Var) -> (r:
    Result<Var, Error>)
    ensures
        flow::ran(
            r,
            final(s)@,
            final(st)@,
            quantize_opt(flow::world(old(s)@, old(st)@), *q, x@),
        ),
{
    match q {
        Some(l) => l.quantize(s, st, x),
        None => Ok(x.clone()),
    }
}

impl Module for Quantizer {
    open spec fn parts(&self) -> Seq<Listed> {
        Seq::empty()
    }

    open spec fn hooks(&self) -> Seq<Part> {
        seq![Part::Switch(Switch::Quantizer(self.id))]
    }

    fn visit(&self, visitor: &mut ModuleVisitor) {
        proof {
            super::module::lemma_saw_nothing(visitor@);
        }
    }

    fn own_hooks(&self) -> Vec<Part> {
        let mut out: Vec<Part> = Vec::new();
        out.push(Part::Switch(Switch::Quantizer(self.id)));
        proof {
            assert(out@ =~= self.hooks());
        }
        out
    }
}

/// The mean absolute difference of two tensors.
pub open spec fn error_of(original: Value, quantized: Value) -> Result<Value, Fault> {
    match tensor::binary_of(Binary::Sub, original, quantized) {
        Err(f) => Err(f),
        Ok(d) => if !crate::shape::fits(d.dims) {
            Err(Fault::Shape(ops::count_message(d.dims)))
        } else {
            let n = crate::shape::product(d.dims);
            Ok(
                tensor::unary_of(
                    Unary::MulScalar(
                        Scalar::Frac(
                            1,
                            if n == 0 {
                                1
                            } else {
                                n as u64
                            },
                        ),
                    ),
                    tensor::sum_all_of(tensor::unary_of(Unary::Abs, d)),
                ),
            )
        },
    }
}

/// Round a tensor's values onto the grid and report the mean absolute error.
pub fn quantization_error(original: &Tensor, quantized: &Tensor) -> (r: Result<Tensor, Error>)
    ensures
        crate::error::agrees(r, error_of(original@, quantized@)),
{
    let d = Tensor::binary(Binary::Sub, original, quantized)?;
    let n: usize = match d.shape().checked_elements() {
        Some(n) => n,
        None => {
            return Err(count_error(d.dims()));
        },
    };
    let count: u64 = if n == 0 {
        1
    } else {
        n as u64
    };
    Ok(d.unary(Unary::Abs).sum_all().unary(Unary::MulScalar(Scalar::Frac(1, count))))
}

/// A symmetric grid is its own mirror image, and never empty; an affine one starts at
/// zero and holds every code of its width.
pub proof fn law_grid_bounds(bits: u32)
    requires
        width_ok(bits),
    ensures
        bounds_of(bits, QuantScheme::Symmetric).0 == -bounds_of(bits, QuantScheme::Symmetric).1,
        bounds_of(bits, QuantScheme::Symmetric).1 >= 1,
        bounds_of(bits, QuantScheme::Affine).0 == 0,
        bounds_of(bits, QuantScheme::Affine).1 + 1 == pow2(bits as nat),
        bounds_of(bits, QuantScheme::Affine).1 == 2 * bounds_of(
            bits,
            QuantScheme::Symmetric,
        ).1 + 1,
{
    vstd::arithmetic::power2::lemma_pow2_unfold(bits as nat);
    vstd::arithmetic::power2::lemma2_to64();
    if bits > 2 {
        vstd::arithmetic::power2::lemma_pow2_strictly_increases(1, (bits - 1) as nat);
    }
}

/// What a level of a grid stands for: the code less the zero point, times the scale.
pub open spec fn level(code: int, scale: real, zero: real) -> real {
    (code as real - zero) * scale
}

/// An affine grid covers the observed range exactly: over the reals its first level is the
/// lower bound and its last one the upper, wherever the range is wide enough for a scale
/// above the floor.
pub proof fn law_affine_grid_covers_the_range(m: Model, lo: Value, hi: Value, bits: u32)
    requires
        width_ok(bits),
        ({
            let b = bounds_of(bits, QuantScheme::Affine);
            let floor = meaning::scalar(m.f, Scalar::Bits(SCALE_FLOOR));
            &&& floor > 0real
            &&& m.of(hi.term) - m.of(lo.term) > floor * (b.1 - b.0) as real
        }),
    ensures
        ({
            let b = bounds_of(bits, QuantScheme::Affine);
            let (scale, zero) = solved(lo, hi, b, QuantScheme::Affine);
            &&& level(b.0, m.of(scale.term), m.of(zero.term)) == m.of(lo.term)
            &&& level(b.1, m.of(scale.term), m.of(zero.term)) == m.of(hi.term)
        }),
{
    law_grid_bounds(bits);
    vstd::arithmetic::power2::lemma2_to64();
    vstd::arithmetic::power2::lemma_pow2_strictly_increases(1, bits as nat);
    if bits < 16 {
        vstd::arithmetic::power2::lemma_pow2_strictly_increases(bits as nat, 16);
    }
    reveal_with_fuel(meaning::reading, 6);
    let b = bounds_of(bits, QuantScheme::Affine);
    let (scale, zero) = solved(lo, hi, b, QuantScheme::Affine);
    let floor = meaning::scalar(m.f, Scalar::Bits(SCALE_FLOOR));
    let (l, h, n) = (m.of(lo.term), m.of(hi.term), (b.1 - b.0) as real);
    let (s, z) = (m.of(scale.term), m.of(zero.term));
    let share = (h - l) / n;
    assert(share * n == h - l && share > floor) by (nonlinear_arith)
        requires
            share == (h - l) / n,
            h - l > floor * n,
            n >= 1real,
    ;
    assert(s == share);
    assert(z == b.0 as real - l / s);
    assert((b.0 as real - z) * s == l) by (nonlinear_arith)
        requires
            z == b.0 as real - l / s,
            s > 0real,
    ;
    assert((b.1 as real - z) * s == l + n * s) by (nonlinear_arith)
        requires
            (b.0 as real - z) * s == l,
            n == b.1 as real - b.0 as real,
    ;
}

/// Whether a quantizer that is switched off leaves every value, and itself, alone.
pub proof fn law_disabled_is_the_identity(w: World, q: Quantizer, x: Traced)
    requires
        w.store.gauges.contains_key(q.id),
        !w.store.gauges[q.id].enabled,
    ensures
        quantize_op(w, q, x) == Ok::<(World, Traced), Fault>((w, x)),
{
}

/// At evaluation time an observed range no longer changes.
pub proof fn law_evaluation_keeps_the_range(w: World, q: Quantizer, x: Traced)
    requires
        w.store.gauges.contains_key(q.id),
        w.store.gauges[q.id].range is Some,
        !w.store.gauges[q.id].training,
        quantize_op(w, q, x) is Ok,
    ensures
        quantize_op(w, q, x)->Ok_0.0.store.gauges[q.id] == w.store.gauges[q.id],
{
}

} // verus!
