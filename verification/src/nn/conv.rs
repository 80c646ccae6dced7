//! Convolutions.
//!
//! Both are expressed with ordinary differentiable operations:
//!
//! * a **depthwise causal convolution** with a very short kernel, which is a sum of
//!   shifted, scaled copies of the input;
//! * a **non-overlapping patch embedding**, which is a reshape, a permutation and a
//!   projection.

use vstd::prelude::*;

use super::flow;
use super::flow::{Step, World};
use super::init;
use super::init::{Ground, Initializer, Rng, block, grid, row, six, sow};
use super::linear;
use super::linear::{Linear, LinearConfig};
use super::module;
use super::module::{Layer, Listed, Module, ModuleVisitor, Part};
use super::param;
use super::param::Param;
use super::store::{Store, Stored};
use crate::autograd::graph::{Session, Tape};
use crate::autograd::ops;
use crate::autograd::ops::{cat, count_error};
use crate::autograd::var;
use crate::autograd::var::{Traced, Var};
use crate::error::{Error, Fault};
use crate::shape::{Shape, copied};
use crate::single;
use crate::tensor;
use crate::tensor::{Tensor, Value};
use crate::term::{Binary, Scalar};
use crate::text::{append_bracketed, append_decimal};

verus! {

// -- shifting --------------------------------------------------------------------------

/// Zeros of a shape with one extent replaced.
pub open spec fn padding(dims: Seq<usize>, axis: usize, n: usize) -> Value {
    tensor::fill_of(Scalar::Int(0), dims.update(axis as int, n))
}

/// A shift towards larger indices: `n` zeros, then all but the last `n` entries; zeros
/// alone where the shift reaches the end of the axis.
pub open spec fn shift_by_op(t: Tape, x: Traced, axis: usize, n: usize) -> Result<
    (Tape, Traced),
    Fault,
> {
    let len = x.value.dims[axis as int];
    if n == 0 {
        Ok((t, x))
    } else if n >= len {
        Ok((t, ops::untracked(tensor::fill_of(Scalar::Int(0), x.value.dims))))
    } else {
        ops::next(
            ops::slice_op(t, x, axis, 0, (len - n) as usize),
            |u: Tape, head: Traced|
                ops::cat_op(
                    u,
                    seq![ops::untracked(padding(x.value.dims, axis, n)), head],
                    axis,
                ),
        )
    }
}

/// Shift `x` towards larger indices along `axis` by `n`, filling with zeros.
pub fn shift_by(s: &mut Session, x: &Var, axis: usize, n: usize) -> (r: Result<Var, Error>)
    requires
        axis < x@.value.dims.len(),
    ensures
        ops::same_value(r, final(s)@, shift_by_op(old(s)@, x@, axis, n)),
{
    if n == 0 {
        return Ok(x.clone());
    }
    let len: usize = x.shape().dim(axis);
    if n >= len {
        return Ok(Var::constant(Tensor::zeros(x.shape().clone())));
    }
    let head = x.slice(s, axis, 0, len - n)?;
    let pad = Var::constant(Tensor::zeros(x.shape().with_dim(axis, n)));
    pair_cat(s, &pad, &head, axis)
}

/// Lay two values end to end.
pub(crate) fn pair_cat(s: &mut Session, a: &Var, b: &Var, axis: usize) -> (r: Result<Var, Error>)
    ensures
        ops::same_value(r, final(s)@, ops::cat_op(old(s)@, seq![a@, b@], axis)),
{
    let mut parts: Vec<Var> = Vec::new();
    parts.push(a.clone());
    parts.push(b.clone());
    proof {
        assert(ops::traced(parts@) =~= seq![a@, b@]);
    }
    cat(s, &parts, axis)
}

/// Shifting keeps the shape.
pub proof fn law_shift_keeps_shape(t: Tape, x: Traced, axis: usize, n: usize)
    requires
        axis < x.value.dims.len(),
        shift_by_op(t, x, axis, n) is Ok,
    ensures
        shift_by_op(t, x, axis, n)->Ok_0.1.value.dims == x.value.dims,
{
    broadcast use var::lemma_record_value;

    let dims = x.value.dims;
    let len = dims[axis as int];
    if 0 < n < len {
        let pad = padding(dims, axis, n);
        let (u, head) = ops::slice_op(t, x, axis, 0, (len - n) as usize)->Ok_0;
        let parts = seq![ops::untracked(pad), head];
        let vs = ops::plain_values(parts);
        assert(vs =~= seq![pad, head.value]);
        let e = tensor::extents(vs, axis);
        assert(e =~= seq![n, (len - n) as usize]);
        reveal_with_fuel(tensor::total, 3);
        assert(e.drop_last() =~= seq![n]);
        assert(e.drop_last().drop_last() =~= Seq::<usize>::empty());
        assert(tensor::total(e) == len);
        assert(pad.dims.update(axis as int, len) =~= dims);
    }
}

// -- depthwise causal convolution ------------------------------------------------------

/// Configuration for [`CausalConv1d`].
#[derive(Debug, Clone, Copy, PartialEq, Eq, Structural)]
pub struct CausalConv1dConfig {
    pub channels: usize,
    pub kernel_size: usize,
    pub bias: bool,
    pub init: Initializer,
}

/// A bias of zeros, where one is wanted.
pub open spec fn zero_bias(g: Ground, wanted: bool, n: usize) -> (Ground, Option<Param>) {
    if wanted {
        let (after, p) = init::planted(g, tensor::fill_of(Scalar::Int(0), seq![n]));
        (after, Some(p))
    } else {
        (g, None)
    }
}

/// The layer a configuration describes. The fan-in of a depthwise kernel is its width,
/// so the weight is laid out as `[kernel, channels]`.
pub open spec fn init_of(g: Ground, c: CausalConv1dConfig) -> (Ground, CausalConv1d) {
    let (g1, weight) = init::sown(g, c.init, seq![c.kernel_size, c.channels]);
    let (g2, bias) = zero_bias(g1, c.bias, c.channels);
    (g2, CausalConv1d { weight, bias, channels: c.channels, kernel_size: c.kernel_size })
}

/// A depthwise convolution with bias.
pub open spec fn default_conv(channels: usize, kernel_size: usize) -> CausalConv1dConfig {
    CausalConv1dConfig {
        channels,
        kernel_size,
        bias: true,
        init: Initializer::KaimingUniform { gain: single::ONE },
    }
}

impl CausalConv1dConfig {
    /// A depthwise causal convolution over `channels` with `kernel_size` taps.
    pub fn new(channels: usize, kernel_size: usize) -> (r: Self)
        ensures
            r == default_conv(channels, kernel_size),
    {
        CausalConv1dConfig {
            channels,
            kernel_size,
            bias: true,
            init: Initializer::KaimingUniform { gain: single::ONE },
        }
    }

    /// Enable or disable the bias.
    pub fn with_bias(self, bias: bool) -> (r: Self)
        ensures
            r == (CausalConv1dConfig { bias, ..self }),
    {
        CausalConv1dConfig { bias, ..self }
    }

    /// Choose the weight initialiser.
    pub fn with_initializer(self, init: Initializer) -> (r: Self)
        ensures
            r == (CausalConv1dConfig { init, ..self }),
    {
        CausalConv1dConfig { init, ..self }
    }

    /// Instantiate.
    pub fn init(&self, s: &mut Session, st: &mut Store, rng: &mut Rng) -> (r: CausalConv1d)
        ensures
            (init::ground(final(s)@, final(st)@, final(rng)@), r) == init_of(
                init::ground(old(s)@, old(st)@, old(rng)@),
                *self,
            ),
    {
        let weight = sow(s, st, rng, self.init, grid(self.kernel_size, self.channels));
        let bias = if self.bias {
            Some(Param::new(s, st, Tensor::zeros(row(self.channels))))
        } else {
            None
        };
        CausalConv1d { weight, bias, channels: self.channels, kernel_size: self.kernel_size }
    }
}

/// Depthwise causal convolution over `[batch, seq, channels]`.
///
/// The weight is stored as `[kernel_size, channels]`: tap `j` multiplies the input
/// delayed by `kernel_size - 1 - j` steps.
#[derive(Debug, Clone, Copy, PartialEq, Eq, Structural)]
pub struct CausalConv1d {
    pub weight: Param,
    pub bias: Option<Param>,
    pub channels: usize,
    pub kernel_size: usize,
}

pub open spec fn channels_message(channels: usize, dims: Seq<usize>) -> Seq<char> {
    "CausalConv1d expects "@ + crate::text::decimal(channels as nat) + " channels, got "@
        + crate::text::bracketed(dims)
}

/// How many positions a kernel reaches back.
pub open spec fn reach(kernel_size: usize) -> usize {
    if kernel_size == 0 {
        0
    } else {
        (kernel_size - 1) as usize
    }
}

/// The delayed input times its tap.
pub open spec fn tap_op(t: Tape, c: CausalConv1d, weight: Traced, input: Traced, delay: usize) -> Result<
    (Tape, Traced),
    Fault,
> {
    ops::next(
        ops::slice_op(t, weight, 0, (c.kernel_size - 1 - delay) as usize, 1),
        |t1: Tape, piece: Traced|
            ops::next(
                ops::reshape_op(t1, piece, seq![1usize, 1usize, c.channels]),
                |t2: Tape, tap: Traced|
                    ops::next(
                        shift_by_op(t2, input, 1, delay),
                        |t3: Tape, late: Traced| ops::binary_op(t3, Binary::Mul, late, tap),
                    ),
            ),
    )
}

/// The sum of the first `k` taps, by growing delay.
pub open spec fn taps_op(t: Tape, c: CausalConv1d, weight: Traced, input: Traced, k: nat) -> Result<
    (Tape, Traced),
    Fault,
>
    decreases k,
{
    if k <= 1 {
        tap_op(t, c, weight, input, 0)
    } else {
        ops::next(
            taps_op(t, c, weight, input, (k - 1) as nat),
            |t1: Tape, acc: Traced|
                ops::next(
                    tap_op(t1, c, weight, input, (k - 1) as usize),
                    |t2: Tape, term: Traced| ops::binary_op(t2, Binary::Add, acc, term),
                ),
        )
    }
}

/// A value plus a bias per channel that may be missing.
pub open spec fn channel_bias_op(w: World, c: CausalConv1d, x: Traced, anchor: Traced) -> Step {
    match c.bias {
        None => Ok((w, x)),
        Some(b) => flow::go(
            param::var_op(w, b.key(), anchor),
            |w1: World, v: Traced|
                flow::go(
                    flow::on(
                        w1,
                        ops::reshape_op(w1.tape, v, seq![1usize, 1usize, c.channels]),
                    ),
                    |w2: World, lifted: Traced|
                        flow::on(w2, ops::binary_op(w2.tape, Binary::Add, x, lifted)),
                ),
        ),
    }
}

/// What is wrong with an input, if anything.
pub open spec fn conv_refused(c: CausalConv1d, dims: Seq<usize>) -> Option<Fault> {
    if dims.len() != 3 {
        Some(Fault::Rank { expected: 3, got: dims.len() as usize, shape: dims })
    } else if dims[2] != c.channels {
        Some(Fault::Shape(channels_message(c.channels, dims)))
    } else if c.kernel_size == 0 {
        Some(Fault::Config("a causal convolution needs at least one tap"@))
    } else {
        None
    }
}

/// The convolution: every tap times the input delayed as far as the tap reaches back.
pub open spec fn conv_op(w: World, c: CausalConv1d, input: Traced) -> Step {
    match conv_refused(c, input.value.dims) {
        Some(f) => Err(f),
        None => flow::go(
            param::var_op(w, c.weight.key(), input),
            |w1: World, weight: Traced|
                if weight.value.dims.len() == 0 {
                    Err(Fault::Rank { expected: 2, got: 0, shape: weight.value.dims })
                } else {
                    flow::go(
                        flow::on(
                            w1,
                            taps_op(w1.tape, c, weight, input, c.kernel_size as nat),
                        ),
                        |w2: World, sum: Traced| channel_bias_op(w2, c, sum, input),
                    )
                },
        ),
    }
}

/// What a window that continues an earlier one gives: the output for the new positions
/// and the history to carry forward.
pub open spec fn windowed_op(w: World, c: CausalConv1d, input: Traced, history: Traced) -> Result<
    (World, Traced, Traced),
    Fault,
> {
    let carry = reach(c.kernel_size);
    if input.value.dims.len() < 2 {
        Err(
            Fault::Rank {
                expected: 3,
                got: input.value.dims.len() as usize,
                shape: input.value.dims,
            },
        )
    } else {
        let n = input.value.dims[1];
        match ops::cat_op(w.tape, seq![history, input], 1) {
            Err(f) => Err(f),
            Ok((t1, window)) => match conv_op(World { tape: t1, ..w }, c, window) {
                Err(f) => Err(f),
                Ok((w2, full)) => if full.value.dims.len() < 2 {
                    Err(
                        Fault::Rank {
                            expected: 3,
                            got: full.value.dims.len() as usize,
                            shape: full.value.dims,
                        },
                    )
                } else {
                    match ops::slice_op(w2.tape, full, 1, carry, n) {
                        Err(f) => Err(f),
                        Ok((t3, out)) => match ops::slice_op(
                            t3,
                            window,
                            1,
                            left(window.value.dims[1], carry),
                            carry,
                        ) {
                            Err(f) => Err(f),
                            Ok((t4, next)) => Ok((World { tape: t4, ..w2 }, out, next)),
                        },
                    }
                },
            },
        }
    }
}

/// What is left of a count, or nothing.
pub open spec fn left(n: usize, taken: usize) -> usize {
    if taken > n {
        0
    } else {
        (n - taken) as usize
    }
}

fn channels_error(channels: usize, dims: &Vec<usize>) -> (e: Error)
    ensures
        e@ == Fault::Shape(channels_message(channels, dims@)),
{
    let mut text = String::new();
    text.append("CausalConv1d expects ");
    append_decimal(&mut text, channels as u64);
    text.append(" channels, got ");
    append_bracketed(&mut text, dims);
    proof {
        assert(text@ =~= channels_message(channels, dims@));
    }
    Error::Shape(text)
}

proof fn lemma_taps_fail(t: Tape, c: CausalConv1d, weight: Traced, input: Traced, j: nat, k: nat)
    requires
        1 <= j <= k,
        taps_op(t, c, weight, input, j) is Err,
    ensures
        taps_op(t, c, weight, input, k) == taps_op(t, c, weight, input, j),
    decreases k,
{
    if j < k {
        lemma_taps_fail(t, c, weight, input, j, (k - 1) as nat);
    }
}

impl CausalConv1d {
    /// Number of channels.
    pub fn channels(&self) -> (r: usize)
        ensures
            r == self.channels,
    {
        self.channels
    }

    /// Number of taps.
    pub fn kernel_size(&self) -> (r: usize)
        ensures
            r == self.kernel_size,
    {
        self.kernel_size
    }

    /// The `[kernel_size, channels]` weight.
    pub fn weight(&self) -> (r: &Param)
        ensures
            *r == self.weight,
    {
        &self.weight
    }

    fn tap(&self, s: &mut Session, weight: &Var, input: &Var, delay: usize) -> (r: Result<Var, Error>)
        requires
            delay < self.kernel_size,
            weight@.value.dims.len() > 0,
            input@.value.dims.len() == 3,
        ensures
            ops::same_value(r, final(s)@, tap_op(old(s)@, *self, weight@, input@, delay)),
    {
        let piece = weight.slice(s, 0, self.kernel_size - 1 - delay, 1)?;
        let tap = piece.reshape(s, &block(1, 1, self.channels))?;
        let late = shift_by(s, input, 1, delay)?;
        late.mul(s, &tap)
    }

    fn taps(&self, s: &mut Session, weight: &Var, input: &Var) -> (r: Result<Var, Error>)
        requires
            self.kernel_size > 0,
            weight@.value.dims.len() > 0,
            input@.value.dims.len() == 3,
        ensures
            ops::same_value(
                r,
                final(s)@,
                taps_op(old(s)@, *self, weight@, input@, self.kernel_size as nat),
            ),
    {
        let ghost start = s@;
        let mut acc = match self.tap(s, weight, input, 0) {
            Ok(v) => v,
            Err(e) => {
                proof {
                    lemma_taps_fail(start, *self, weight@, input@, 1, self.kernel_size as nat);
                }
                return Err(e);
            },
        };
        let mut delay: usize = 1;
        while delay < self.kernel_size
            invariant
                1 <= delay <= self.kernel_size,
                weight@.value.dims.len() > 0,
                input@.value.dims.len() == 3,
                start == old(s)@,
                taps_op(start, *self, weight@, input@, delay as nat) == Ok::<
                    (Tape, Traced),
                    Fault,
                >((s@, acc@)),
            decreases self.kernel_size - delay,
        {
            let next = match self.tap(s, weight, input, delay) {
                Ok(term) => acc.add(s, &term),
                Err(e) => Err(e),
            };
            match next {
                Ok(v) => {
                    acc = v;
                },
                Err(e) => {
                    proof {
                        lemma_taps_fail(
                            start,
                            *self,
                            weight@,
                            input@,
                            (delay + 1) as nat,
                            self.kernel_size as nat,
                        );
                    }
                    return Err(e);
                },
            }
            delay += 1;
        }
        Ok(acc)
    }

    fn add_bias(&self, s: &mut Session, st: &Store, x: Var, anchor: &Var) -> (r: Result<Var, Error>)
        ensures
            flow::ran(
                r,
                final(s)@,
                st@,
                channel_bias_op(flow::world(old(s)@, st@), *self, x@, anchor@),
            ),
    {
        match &self.bias {
            None => Ok(x),
            Some(b) => {
                let v = b.var(s, st, anchor)?;
                let lifted = v.reshape(s, &block(1, 1, self.channels))?;
                x.add(s, &lifted)
            },
        }
    }

    /// Convolve `[batch, seq, channels]`.
    pub fn apply(&self, s: &mut Session, st: &mut Store, input: &Var) -> (r: Result<Var, Error>)
        ensures
            flow::ran(
                r,
                final(s)@,
                final(st)@,
                conv_op(flow::world(old(s)@, old(st)@), *self, input@),
            ),
            final(st)@ == old(st)@,
    {
        input.shape().expect_rank(3)?;
        if input.shape().dim(2) != self.channels {
            return Err(channels_error(self.channels, input.dims()));
        }
        if self.kernel_size == 0 {
            return Err(Error::config("a causal convolution needs at least one tap"));
        }
        let weight = self.weight.var(s, st, input)?;
        if weight.rank() == 0 {
            return Err(Error::Rank { expected: 2, got: 0, shape: copied(weight.dims()) });
        }
        let sum = self.taps(s, &weight, input)?;
        self.add_bias(s, st, sum, input)
    }

    /// Convolve a window that continues an earlier one.
    ///
    /// `history` holds the last `kernel_size - 1` inputs as `[batch, k-1, channels]`
    /// and `input` is the new window as `[batch, seq, channels]`. Returns the output for
    /// the new positions and the history to carry forward.
    pub fn apply_with_history(&self, s: &mut Session, st: &mut Store, input: &Var, history: &Var) -> (r:
        Result<(Var, Var), Error>)
        ensures
            match (
                r,
                windowed_op(flow::world(old(s)@, old(st)@), *self, input@, history@),
            ) {
                (Ok(p), Ok((w, out, next))) => p.0@ == out && p.1@ == next && final(s)@ == w.tape
                    && final(st)@ == w.store,
                (Err(e), Err(f)) => e@ == f,
                _ => false,
            },
    {
        if input.rank() < 2 {
            return Err(
                Error::Rank { expected: 3, got: input.rank(), shape: copied(input.dims()) },
            );
        }
        let carry: usize = if self.kernel_size == 0 {
            0
        } else {
            self.kernel_size - 1
        };
        let n: usize = input.shape().dim(1);
        let window = pair_cat(s, history, input, 1)?;
        let full = self.apply(s, st, &window)?;
        if full.rank() < 2 {
            return Err(Error::Rank { expected: 3, got: full.rank(), shape: copied(full.dims()) });
        }
        let out = full.slice(s, 1, carry, n)?;
        let total: usize = window.shape().dim(1);
        let start: usize = if carry > total {
            0
        } else {
            total - carry
        };
        let next = window.slice(s, 1, start, carry)?;
        Ok((out, next))
    }

    /// One decoding step; `input` must hold a single position.
    pub fn step(&self, s: &mut Session, st: &mut Store, input: &Var, history: &Var) -> (r: Result<
        (Var, Var),
        Error,
    >)
        ensures
            match (
                r,
                windowed_op(flow::world(old(s)@, old(st)@), *self, input@, history@),
            ) {
                (Ok(p), Ok((w, out, next))) => p.0@ == out && p.1@ == next && final(s)@ == w.tape
                    && final(st)@ == w.store,
                (Err(e), Err(f)) => e@ == f,
                _ => false,
            },
    {
        self.apply_with_history(s, st, input, history)
    }

    /// An all-zero convolution history for a batch.
    pub fn empty_history(&self, batch: usize) -> (r: Var)
        ensures
            r@ == empty_of(*self, batch),
    {
        let carry: usize = if self.kernel_size == 0 {
            0
        } else {
            self.kernel_size - 1
        };
        Var::constant(Tensor::zeros(block(batch, carry, self.channels)))
    }
}

/// An all-zero history.
pub open spec fn empty_of(c: CausalConv1d, batch: usize) -> Traced {
    ops::untracked(
        tensor::fill_of(Scalar::Int(0), seq![batch, reach(c.kernel_size), c.channels]),
    )
}

impl Module for CausalConv1d {
    open spec fn parts(&self) -> Seq<Listed> {
        module::leaf("weight"@, self.weight) + module::leaf_opt("bias"@, self.bias)
    }

    open spec fn hooks(&self) -> Seq<Part> {
        Seq::empty()
    }

    fn visit(&self, visitor: &mut ModuleVisitor) {
        broadcast use module::lemma_saw_twice;

        visitor.param("weight", &self.weight);
        visitor.param_opt("bias", &self.bias);
    }

    fn own_hooks(&self) -> Vec<Part> {
        Vec::new()
    }
}

impl Layer for CausalConv1d {
    open spec fn forward_op(&self, w: World, x: Traced) -> Step {
        conv_op(w, *self, x)
    }

    fn forward(&self, s: &mut Session, st: &mut Store, input: &Var) -> Result<Var, Error> {
        self.apply(s, st, input)
    }
}

// -- patch embedding -------------------------------------------------------------------

/// Configuration for [`PatchEmbed`].
#[derive(Debug, Clone, Copy, PartialEq, Eq, Structural)]
pub struct PatchEmbedConfig {
    pub image_size: usize,
    pub patch_size: usize,
    pub in_channels: usize,
    pub dim: usize,
    pub bias: bool,
}

/// The number of non-overlapping patches of a square image.
pub open spec fn patches(image_size: usize, patch_size: usize) -> nat {
    ((image_size / patch_size) * (image_size / patch_size)) as nat
}

/// Whether patches tile an image.
pub open spec fn tiled(image_size: usize, patch_size: usize) -> bool {
    patch_size > 0 && image_size % patch_size == 0
}

pub open spec fn tile_message(image_size: usize, patch_size: usize) -> Seq<char> {
    "image size "@ + crate::text::decimal(image_size as nat) + " is not divisible by patch size "@
        + crate::text::decimal(patch_size as nat)
}

pub(crate) fn tile_error(image_size: usize, patch_size: usize) -> (e: Error)
    ensures
        e@ == Fault::Config(tile_message(image_size, patch_size)),
{
    let mut text = String::new();
    text.append("image size ");
    append_decimal(&mut text, image_size as u64);
    text.append(" is not divisible by patch size ");
    append_decimal(&mut text, patch_size as u64);
    proof {
        assert(text@ =~= tile_message(image_size, patch_size));
    }
    Error::Config(text)
}

/// The layer a configuration describes: the patches must tile the image, and the number
/// of scalars of a patch must fit a machine word.
pub open spec fn patch_init_of(g: Ground, c: PatchEmbedConfig) -> Result<
    (Ground, PatchEmbed),
    Fault,
> {
    let d = seq![c.in_channels, c.patch_size, c.patch_size];
    if !tiled(c.image_size, c.patch_size) {
        Err(Fault::Config(tile_message(c.image_size, c.patch_size)))
    } else if !crate::shape::fits(d) {
        Err(Fault::Shape(ops::count_message(d)))
    } else {
        let (after, proj) = linear::init_of(
            g,
            LinearConfig {
                bias: c.bias,
                ..linear::default_config(crate::shape::product(d) as usize, c.dim)
            },
        );
        Ok(
            (
                after,
                PatchEmbed {
                    proj,
                    image_size: c.image_size,
                    patch_size: c.patch_size,
                    in_channels: c.in_channels,
                },
            ),
        )
    }
}

impl PatchEmbedConfig {
    /// Split a square image into non-overlapping patches and project each one.
    pub fn new(image_size: usize, patch_size: usize, in_channels: usize, dim: usize) -> (r: Self)
        ensures
            r == (PatchEmbedConfig { image_size, patch_size, in_channels, dim, bias: true }),
    {
        PatchEmbedConfig { image_size, patch_size, in_channels, dim, bias: true }
    }

    /// Enable or disable the projection bias.
    pub fn with_bias(self, bias: bool) -> (r: Self)
        ensures
            r == (PatchEmbedConfig { bias, ..self }),
    {
        PatchEmbedConfig { bias, ..self }
    }

    /// Number of patches per image.
    pub fn num_patches(&self) -> (r: usize)
        requires
            self.patch_size > 0,
            patches(self.image_size, self.patch_size) <= usize::MAX,
        ensures
            r == patches(self.image_size, self.patch_size),
    {
        let side: usize = self.image_size / self.patch_size;
        side * side
    }

    /// Instantiate.
    pub fn init(&self, s: &mut Session, st: &mut Store, rng: &mut Rng) -> (r: Result<
        PatchEmbed,
        Error,
    >)
        ensures
            match (
                r,
                patch_init_of(init::ground(old(s)@, old(st)@, old(rng)@), *self),
            ) {
                (Ok(p), Ok((g, want))) => p == want && init::ground(
                    final(s)@,
                    final(st)@,
                    final(rng)@,
                ) == g,
                (Err(e), Err(f)) => e@ == f && final(s)@ == old(s)@ && final(st)@ == old(st)@
                    && final(rng)@ == old(rng)@,
                _ => false,
            },
    {
        if self.patch_size == 0 || self.image_size % self.patch_size != 0 {
            return Err(tile_error(self.image_size, self.patch_size));
        }
        let d = block(self.in_channels, self.patch_size, self.patch_size);
        let patch_dim: usize = match d.checked_elements() {
            Some(n) => n,
            None => {
                return Err(count_error(d.dims()));
            },
        };
        let proj = LinearConfig::new(patch_dim, self.dim).with_bias(self.bias).init(s, st, rng);
        Ok(
            PatchEmbed {
                proj,
                image_size: self.image_size,
                patch_size: self.patch_size,
                in_channels: self.in_channels,
            },
        )
    }
}

/// Non-overlapping patch embedding for `[batch, channels, height, width]` images.
#[derive(Debug, Clone, Copy, PartialEq, Eq, Structural)]
pub struct PatchEmbed {
    pub proj: Linear,
    pub image_size: usize,
    pub patch_size: usize,
    pub in_channels: usize,
}

pub open spec fn image_message(channels: usize, size: usize, dims: Seq<usize>) -> Seq<char> {
    "PatchEmbed expects [_, "@ + crate::text::decimal(channels as nat) + ", "@
        + crate::text::decimal(size as nat) + ", "@ + crate::text::decimal(size as nat)
        + "], got "@ + crate::text::bracketed(dims)
}

fn image_error(channels: usize, size: usize, dims: &Vec<usize>) -> (e: Error)
    ensures
        e@ == Fault::Shape(image_message(channels, size, dims@)),
{
    let mut text = String::new();
    text.append("PatchEmbed expects [_, ");
    append_decimal(&mut text, channels as u64);
    text.append(", ");
    append_decimal(&mut text, size as u64);
    text.append(", ");
    append_decimal(&mut text, size as u64);
    text.append("], got ");
    append_bracketed(&mut text, dims);
    proof {
        assert(text@ =~= image_message(channels, size, dims@));
    }
    Error::Shape(text)
}

/// What is wrong with a batch of images, if anything.
pub open spec fn image_refused(e: PatchEmbed, dims: Seq<usize>) -> Option<Fault> {
    if dims.len() != 4 {
        Some(Fault::Rank { expected: 4, got: dims.len() as usize, shape: dims })
    } else if dims[1] != e.in_channels || dims[2] != e.image_size || dims[3] != e.image_size {
        Some(Fault::Shape(image_message(e.in_channels, e.image_size, dims)))
    } else if !tiled(e.image_size, e.patch_size) {
        Some(Fault::Config(tile_message(e.image_size, e.patch_size)))
    } else if !crate::shape::fits(seq![e.in_channels, e.patch_size, e.patch_size]) {
        Some(
            Fault::Shape(
                ops::count_message(seq![e.in_channels, e.patch_size, e.patch_size]),
            ),
        )
    } else if !crate::shape::fits(grid_of(e)) {
        Some(Fault::Shape(ops::count_message(grid_of(e))))
    } else {
        None
    }
}

/// The rows and columns of patches of an image.
pub open spec fn grid_of(e: PatchEmbed) -> Seq<usize> {
    seq![(e.image_size / e.patch_size) as usize, (e.image_size / e.patch_size) as usize]
}

/// One row per patch: `[b, c, g, p, g, p]`, reordered to `[b, g, g, c, p, p]`, flattened
/// to `[b, g g, c p p]`.
pub open spec fn patch_rows_op(t: Tape, e: PatchEmbed, images: Traced) -> Result<
    (Tape, Traced),
    Fault,
> {
    let (b, c, p) = (images.value.dims[0], e.in_channels, e.patch_size);
    let g = (e.image_size / e.patch_size) as usize;
    ops::next(
        ops::reshape_op(t, images, seq![b, c, g, p, g, p]),
        |t1: Tape, cut: Traced|
            ops::next(
                ops::permute_op(t1, cut, seq![0usize, 2, 4, 1, 3, 5]),
                |t2: Tape, ordered: Traced|
                    ops::reshape_op(
                        t2,
                        ordered,
                        seq![
                            b,
                            crate::shape::product(grid_of(e)) as usize,
                            crate::shape::product(seq![c, p, p]) as usize,
                        ],
                    ),
            ),
    )
}

/// The embedding of a batch of images.
pub open spec fn patch_op(w: World, e: PatchEmbed, images: Traced) -> Step {
    match image_refused(e, images.value.dims) {
        Some(f) => Err(f),
        None => flow::go(
            flow::on(w, patch_rows_op(w.tape, e, images)),
            |u: World, flat: Traced| linear::linear_op(u, e.proj, flat),
        ),
    }
}

impl PatchEmbed {
    /// Number of patches per image.
    pub fn num_patches(&self) -> (r: usize)
        requires
            self.patch_size > 0,
            patches(self.image_size, self.patch_size) <= usize::MAX,
        ensures
            r == patches(self.image_size, self.patch_size),
    {
        let side: usize = self.image_size / self.patch_size;
        side * side
    }

    /// Embedding width.
    pub fn dim(&self, st: &Store) -> (r: Option<usize>)
        ensures
            r == linear::extent(st@, self.proj.weight.key(), 1),
    {
        self.proj.out_features(st)
    }

    /// The patch projection.
    pub fn projection(&self) -> (r: &Linear)
        ensures
            *r == self.proj,
    {
        &self.proj
    }

    /// Turn `[batch, channels, height, width]` into `[batch, num_patches, dim]`.
    pub fn apply(&self, s: &mut Session, st: &mut Store, images: &Var) -> (r: Result<Var, Error>)
        ensures
            flow::ran(
                r,
                final(s)@,
                final(st)@,
                patch_op(flow::world(old(s)@, old(st)@), *self, images@),
            ),
    {
        images.shape().expect_rank(4)?;
        let b: usize = images.shape().dim(0);
        let c: usize = self.in_channels;
        if images.shape().dim(1) != c || images.shape().dim(2) != self.image_size
            || images.shape().dim(3) != self.image_size {
            return Err(image_error(c, self.image_size, images.dims()));
        }
        let p: usize = self.patch_size;
        if p == 0 || self.image_size % p != 0 {
            return Err(tile_error(self.image_size, p));
        }
        let g: usize = self.image_size / p;
        let patch = block(c, p, p);
        let patch_dim: usize = match patch.checked_elements() {
            Some(n) => n,
            None => {
                return Err(count_error(patch.dims()));
            },
        };
        let plan = grid(g, g);
        let count: usize = match plan.checked_elements() {
            Some(n) => n,
            None => {
                return Err(count_error(plan.dims()));
            },
        };
        let cut = images.reshape(s, &six(b, c, g, p, g, p))?;
        let order = six(0, 2, 4, 1, 3, 5);
        let ordered = cut.permute(s, order.dims())?;
        let flat = ordered.reshape(s, &block(b, count, patch_dim))?;
        self.proj.apply(s, st, &flat)
    }
}

impl Module for PatchEmbed {
    open spec fn parts(&self) -> Seq<Listed> {
        module::branch("proj"@, &self.proj)
    }

    open spec fn hooks(&self) -> Seq<Part> {
        Seq::empty()
    }

    fn visit(&self, visitor: &mut ModuleVisitor) {
        visitor.child("proj", &self.proj);
    }

    fn own_hooks(&self) -> Vec<Part> {
        Vec::new()
    }
}

} // verus!
