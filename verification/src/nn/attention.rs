//! Multi-head attention with grouped-query support and rotary positions.
//!
//! It keeps the conventions of the other layers, so a hybrid stack inherits adapters and
//! quantization from its projections.

use vstd::prelude::*;

use super::dropout;
use super::dropout::{Dropout, apply_opt as apply_dropout};
use super::flow;
use super::flow::{Step, World};
use super::init;
use super::init::{Ground, Rng, block, five, four, grid, random_fill};
use super::linear;
use super::linear::{Linear, LinearConfig};
use super::lora::LoraConfig;
use super::module;
use super::module::{Layer, Listed, Module, ModuleVisitor, Part};
use super::quant::QuantConfig;
use super::rope;
use super::rope::{RotaryEmbedding, apply_opt as apply_rope};
use super::store::{Store, Stored};
use crate::autograd::graph::{Session, Tape};
use crate::autograd::ops;
use crate::autograd::ops::count_error;
use crate::autograd::rule;
use crate::autograd::var::{Traced, Var};
use crate::error::{Error, Fault};
use crate::shape::copied;
use crate::single;
use crate::tensor;
use crate::tensor::{Tensor, Value};
use crate::term::{Binary, Fused, Product, Scalar, Unary};
use crate::text::append_decimal;

use super::conv::pair_cat;

verus! {

/// Per-layer key/value cache for incremental decoding.
pub struct AttentionCache {
    pub keys: Option<Tensor>,
    pub values: Option<Tensor>,
}

/// A key/value cache as a mathematical value.
pub struct Cached {
    pub keys: Option<Value>,
    pub values: Option<Value>,
}

impl View for AttentionCache {
    type V = Cached;

    open spec fn view(&self) -> Cached {
        Cached { keys: rule::opt(self.keys), values: rule::opt(self.values) }
    }
}

/// The number of positions in a list of keys.
pub open spec fn positions(keys: Option<Value>) -> usize {
    match keys {
        Some(k) => if k.dims.len() > 2 {
            k.dims[2]
        } else {
            0
        },
        None => 0,
    }
}

fn copied_tensor(t: &Option<Tensor>) -> (r: Option<Tensor>)
    ensures
        rule::opt(r) == rule::opt(*t),
{
    match t {
        Some(v) => Some(v.clone()),
        None => None,
    }
}

impl Clone for AttentionCache {
    fn clone(&self) -> (r: Self)
        ensures
            r@ == self@,
    {
        AttentionCache { keys: copied_tensor(&self.keys), values: copied_tensor(&self.values) }
    }
}

impl AttentionCache {
    /// An empty cache.
    pub fn new() -> (r: Self)
        ensures
            r@ == (Cached { keys: None, values: None }),
    {
        AttentionCache { keys: None, values: None }
    }

    /// Number of positions already cached.
    pub fn len(&self) -> (r: usize)
        ensures
            r == positions(self@.keys),
    {
        match &self.keys {
            Some(k) => if k.rank() > 2 {
                k.shape().dim(2)
            } else {
                0
            },
            None => 0,
        }
    }

    /// Whether nothing has been cached yet.
    pub fn is_empty(&self) -> (r: bool)
        ensures
            r == (positions(self@.keys) == 0),
    {
        self.len() == 0
    }

    /// Forget everything.
    pub fn reset(&mut self)
        ensures
            final(self)@ == (Cached { keys: None, values: None }),
    {
        self.keys = None;
        self.values = None;
    }
}

/// Configuration for [`MultiHeadAttention`].
#[derive(Debug, Clone, Copy, PartialEq, Eq, Structural)]
pub struct AttentionConfig {
    pub d_model: usize,
    pub n_heads: usize,
    pub n_kv_heads: usize,
    pub head_dim: Option<usize>,
    pub bias: bool,
    pub causal: bool,
    pub dropout: u32,
    pub rope: bool,
    pub rope_base: u32,
    pub max_seq_len: usize,
    pub lora: Option<LoraConfig>,
    pub weight_quant: Option<QuantConfig>,
}

/// The bit pattern of ten thousand.
pub const TEN_THOUSAND: u32 = 0x461c_4000;

/// Standard causal self-attention.
pub open spec fn default_config(d_model: usize, n_heads: usize) -> AttentionConfig {
    AttentionConfig {
        d_model,
        n_heads,
        n_kv_heads: n_heads,
        head_dim: None,
        bias: false,
        causal: true,
        dropout: single::ZERO,
        rope: true,
        rope_base: TEN_THOUSAND,
        max_seq_len: 4096,
        lora: None,
        weight_quant: None,
    }
}

/// A projection of the layer.
pub open spec fn linear_of(c: AttentionConfig, inputs: usize, outputs: usize) -> LinearConfig {
    LinearConfig {
        bias: c.bias,
        lora: c.lora,
        weight_quant: c.weight_quant,
        ..linear::default_config(inputs, outputs)
    }
}

pub open spec fn heads_message(n_heads: usize, n_kv_heads: usize) -> Seq<char> {
    "n_heads ("@ + crate::text::decimal(n_heads as nat)
        + ") must be a multiple of n_kv_heads ("@ + crate::text::decimal(n_kv_heads as nat)
        + ")"@
}

/// The per-head width: the one given, or an equal share of the residual width.
pub open spec fn head_width(c: AttentionConfig) -> usize {
    match c.head_dim {
        Some(d) => d,
        None => (c.d_model / c.n_heads) as usize,
    }
}

/// What is wrong with a configuration, if anything, before anything is built.
pub open spec fn config_fault(c: AttentionConfig) -> Option<Fault> {
    if c.n_heads == 0 {
        Some(Fault::Config("n_heads must be positive"@))
    } else if c.n_kv_heads == 0 || c.n_heads % c.n_kv_heads != 0 {
        Some(Fault::Config(heads_message(c.n_heads, c.n_kv_heads)))
    } else if !crate::shape::fits(seq![c.n_heads, head_width(c)]) {
        Some(Fault::Shape(ops::count_message(seq![c.n_heads, head_width(c)])))
    } else if !crate::shape::fits(seq![c.n_kv_heads, head_width(c)]) {
        Some(Fault::Shape(ops::count_message(seq![c.n_kv_heads, head_width(c)])))
    } else {
        None
    }
}

/// The layer a configuration describes: query, key, value and output projections, then
/// positions and dropout.
#[verifier::opaque]
pub open spec fn init_of(g: Ground, c: AttentionConfig) -> Result<
    (Ground, MultiHeadAttention),
    Fault,
> {
    match config_fault(c) {
        Some(f) => Err(f),
        None => {
            let d = head_width(c);
            let q_dim = crate::shape::product(seq![c.n_heads, d]) as usize;
            let kv_dim = crate::shape::product(seq![c.n_kv_heads, d]) as usize;
            let (g1, q_proj) = linear::init_of(g, linear_of(c, c.d_model, q_dim));
            let (g2, k_proj) = linear::init_of(g1, linear_of(c, c.d_model, kv_dim));
            let (g3, v_proj) = linear::init_of(g2, linear_of(c, c.d_model, kv_dim));
            let (g4, o_proj) = linear::init_of(g3, linear_of(c, q_dim, c.d_model));
            let (store, drop) = dropout::made_opt(g4.store, c.dropout);
            if c.rope && d % 2 != 0 {
                Err(Fault::Config(rope::even_message(d)))
            } else {
                Ok(
                    (
                        Ground { store, ..g4 },
                        MultiHeadAttention {
                            q_proj,
                            k_proj,
                            v_proj,
                            o_proj,
                            rope: if c.rope {
                                Some(
                                    RotaryEmbedding {
                                        dim: d,
                                        max_len: c.max_seq_len,
                                        base: c.rope_base,
                                    },
                                )
                            } else {
                                None
                            },
                            dropout: drop,
                            n_heads: c.n_heads,
                            n_kv_heads: c.n_kv_heads,
                            head_dim: d,
                            causal: c.causal,
                        },
                    ),
                )
            }
        },
    }
}

fn heads_error(n_heads: usize, n_kv_heads: usize) -> (e: Error)
    ensures
        e@ == Fault::Config(heads_message(n_heads, n_kv_heads)),
{
    let mut text = String::new();
    text.append("n_heads (");
    append_decimal(&mut text, n_heads as u64);
    text.append(") must be a multiple of n_kv_heads (");
    append_decimal(&mut text, n_kv_heads as u64);
    text.append(")");
    proof {
        assert(text@ =~= heads_message(n_heads, n_kv_heads));
    }
    Error::Config(text)
}

impl AttentionConfig {
    /// Standard multi-head self-attention.
    pub fn new(d_model: usize, n_heads: usize) -> (r: Self)
        ensures
            r == default_config(d_model, n_heads),
    {
        AttentionConfig {
            d_model,
            n_heads,
            n_kv_heads: n_heads,
            head_dim: None,
            bias: false,
            causal: true,
            dropout: single::ZERO,
            rope: true,
            rope_base: TEN_THOUSAND,
            max_seq_len: 4096,
            lora: None,
            weight_quant: None,
        }
    }

    /// Retarget the configuration at a different residual width, keeping every other
    /// setting. Used by stacks that own `d_model`.
    pub fn with_d_model(self, d_model: usize) -> (r: Self)
        ensures
            r == (AttentionConfig { d_model, ..self }),
    {
        AttentionConfig { d_model, ..self }
    }

    /// Residual width.
    pub fn d_model_value(&self) -> (r: usize)
        ensures
            r == self.d_model,
    {
        self.d_model
    }

    /// Number of query heads.
    pub fn n_heads_value(&self) -> (r: usize)
        ensures
            r == self.n_heads,
    {
        self.n_heads
    }

    /// Longest sequence the rotary tables cover.
    pub fn max_seq_len_value(&self) -> (r: usize)
        ensures
            r == self.max_seq_len,
    {
        self.max_seq_len
    }

    /// Use grouped-query attention with `n_kv_heads` key/value heads.
    pub fn with_kv_heads(self, n_kv_heads: usize) -> (r: Self)
        ensures
            r == (AttentionConfig { n_kv_heads, ..self }),
    {
        AttentionConfig { n_kv_heads, ..self }
    }

    /// Override the per-head width (defaults to `d_model / n_heads`).
    pub fn with_head_dim(self, head_dim: usize) -> (r: Self)
        ensures
            r == (AttentionConfig { head_dim: Some(head_dim), ..self }),
    {
        AttentionConfig { head_dim: Some(head_dim), ..self }
    }

    /// Enable projection biases.
    pub fn with_bias(self, bias: bool) -> (r: Self)
        ensures
            r == (AttentionConfig { bias, ..self }),
    {
        AttentionConfig { bias, ..self }
    }

    /// Apply a causal mask. Turn this off for vision encoders.
    pub fn with_causal(self, causal: bool) -> (r: Self)
        ensures
            r == (AttentionConfig { causal, ..self }),
    {
        AttentionConfig { causal, ..self }
    }

    /// Dropout on the attention probabilities.
    pub fn with_dropout(self, p: u32) -> (r: Self)
        ensures
            r == (AttentionConfig { dropout: p, ..self }),
    {
        AttentionConfig { dropout: p, ..self }
    }

    /// Enable or disable rotary positions.
    pub fn with_rope(self, rope: bool) -> (r: Self)
        ensures
            r == (AttentionConfig { rope, ..self }),
    {
        AttentionConfig { rope, ..self }
    }

    /// Rotary frequency base.
    pub fn with_rope_base(self, base: u32) -> (r: Self)
        ensures
            r == (AttentionConfig { rope_base: base, ..self }),
    {
        AttentionConfig { rope_base: base, ..self }
    }

    /// Longest sequence the rotary tables and causal masks must cover.
    pub fn with_max_seq_len(self, len: usize) -> (r: Self)
        ensures
            r == (AttentionConfig { max_seq_len: len, ..self }),
    {
        AttentionConfig { max_seq_len: len, ..self }
    }

    /// Attach adapters to every projection.
    pub fn with_lora(self, lora: LoraConfig) -> (r: Self)
        ensures
            r == (AttentionConfig { lora: Some(lora), ..self }),
    {
        AttentionConfig { lora: Some(lora), ..self }
    }

    /// Fake-quantize every projection weight.
    pub fn with_weight_quant(self, config: QuantConfig) -> (r: Self)
        ensures
            r == (AttentionConfig { weight_quant: Some(config), ..self }),
    {
        AttentionConfig { weight_quant: Some(config), ..self }
    }

    fn linear(&self, d_in: usize, d_out: usize) -> (r: LinearConfig)
        ensures
            r == linear_of(*self, d_in, d_out),
    {
        LinearConfig {
            bias: self.bias,
            lora: self.lora,
            weight_quant: self.weight_quant,
            ..LinearConfig::new(d_in, d_out)
        }
    }

    /// Instantiate.
    pub fn init(&self, s: &mut Session, st: &mut Store, rng: &mut Rng) -> (r: Result<
        MultiHeadAttention,
        Error,
    >)
        ensures
            match (r, init_of(init::ground(old(s)@, old(st)@, old(rng)@), *self)) {
                (Ok(a), Ok((g, want))) => a == want && init::ground(
                    final(s)@,
                    final(st)@,
                    final(rng)@,
                ) == g,
                (Err(e), Err(f)) => e@ == f,
                _ => false,
            },
    {
        proof {
            reveal(init_of);
        }
        if self.n_heads == 0 {
            return Err(Error::config("n_heads must be positive"));
        }
        let d: usize = match self.head_dim {
            Some(n) => n,
            None => self.d_model / self.n_heads,
        };
        if self.n_kv_heads == 0 || self.n_heads % self.n_kv_heads != 0 {
            return Err(heads_error(self.n_heads, self.n_kv_heads));
        }
        let q_shape = grid(self.n_heads, d);
        let q_dim: usize = match q_shape.checked_elements() {
            Some(n) => n,
            None => {
                return Err(count_error(q_shape.dims()));
            },
        };
        let kv_shape = grid(self.n_kv_heads, d);
        let kv_dim: usize = match kv_shape.checked_elements() {
            Some(n) => n,
            None => {
                return Err(count_error(kv_shape.dims()));
            },
        };
        let q_proj = self.linear(self.d_model, q_dim).init(s, st, rng);
        let k_proj = self.linear(self.d_model, kv_dim).init(s, st, rng);
        let v_proj = self.linear(self.d_model, kv_dim).init(s, st, rng);
        let o_proj = self.linear(q_dim, self.d_model).init(s, st, rng);
        let rope = if self.rope {
            Some(RotaryEmbedding::new(d, self.max_seq_len, self.rope_base)?)
        } else {
            None
        };
        let dropout = Dropout::when_positive(st, self.dropout);
        Ok(
            MultiHeadAttention {
                q_proj,
                k_proj,
                v_proj,
                o_proj,
                rope,
                dropout,
                n_heads: self.n_heads,
                n_kv_heads: self.n_kv_heads,
                head_dim: d,
                causal: self.causal,
            },
        )
    }
}

/// Multi-head attention.
#[derive(Debug, Clone, Copy, PartialEq, Eq, Structural)]
pub struct MultiHeadAttention {
    pub q_proj: Linear,
    pub k_proj: Linear,
    pub v_proj: Linear,
    pub o_proj: Linear,
    pub rope: Option<RotaryEmbedding>,
    pub dropout: Option<Dropout>,
    pub n_heads: usize,
    pub n_kv_heads: usize,
    pub head_dim: usize,
    pub causal: bool,
}

// -- queries, keys and values ----------------------------------------------------------

/// `[b, t, h d]` to `[b, h, t, d]`.
pub open spec fn heads_op(t: Tape, x: Traced, b: usize, n: usize, heads: usize, d: usize) -> Result<
    (Tape, Traced),
    Fault,
> {
    ops::next(
        ops::reshape_op(t, x, seq![b, n, heads, d]),
        |u: Tape, v: Traced| ops::permute_op(u, v, seq![0usize, 2, 1, 3]),
    )
}

/// One projection of the input, cut into heads.
pub open spec fn branch_op(w: World, l: Linear, input: Traced, heads: usize, d: usize) -> Step {
    flow::go(
        linear::linear_op(w, l, input),
        |u: World, v: Traced|
            flow::on(
                u,
                heads_op(u.tape, v, input.value.dims[0], input.value.dims[1], heads, d),
            ),
    )
}

/// Three values a step gives.
pub struct Triple {
    pub q: Traced,
    pub k: Traced,
    pub v: Traced,
}

/// Queries, keys and values of the new positions, the first two rotated by position.
pub open spec fn triple_op(w: World, a: MultiHeadAttention, input: Traced, past: usize) -> Result<
    (World, Triple),
    Fault,
> {
    match branch_op(w, a.q_proj, input, a.n_heads, a.head_dim) {
        Err(f) => Err(f),
        Ok((w1, q)) => match branch_op(w1, a.k_proj, input, a.n_kv_heads, a.head_dim) {
            Err(f) => Err(f),
            Ok((w2, k)) => match branch_op(w2, a.v_proj, input, a.n_kv_heads, a.head_dim) {
                Err(f) => Err(f),
                Ok((w3, v)) => match rope::rotary_opt(w3.tape, a.rope, q, past) {
                    Err(f) => Err(f),
                    Ok((t4, turned_q)) => match rope::rotary_opt(t4, a.rope, k, past) {
                        Err(f) => Err(f),
                        Ok((t5, turned_k)) => Ok(
                            (World { tape: t5, ..w3 }, Triple { q: turned_q, k: turned_k, v }),
                        ),
                    },
                },
            },
        },
    }
}

/// What was cached, then what is new.
pub open spec fn appended_op(t: Tape, before: Option<Value>, now: Traced) -> Result<
    (Tape, Traced),
    Fault,
> {
    match before {
        Some(p) => ops::cat_op(t, seq![ops::untracked(p), now], 2),
        None => Ok((t, now)),
    }
}

/// Queries of the new positions beside keys and values of all of them.
pub open spec fn history_op(w: World, a: MultiHeadAttention, input: Traced, cache: Cached) -> Result<
    (World, Triple),
    Fault,
> {
    match triple_op(w, a, input, positions(cache.keys)) {
        Err(f) => Err(f),
        Ok((w1, x)) => match appended_op(w1.tape, cache.keys, x.k) {
            Err(f) => Err(f),
            Ok((t2, k)) => match appended_op(t2, cache.values, x.v) {
                Err(f) => Err(f),
                Ok((t3, v)) => Ok((World { tape: t3, ..w1 }, Triple { q: x.q, k, v })),
            },
        },
    }
}

// -- scores ----------------------------------------------------------------------------

/// Key or value heads repeated so that every query head has its own.
pub open spec fn grown_op(t: Tape, a: MultiHeadAttention, x: Traced, b: usize, source: usize) -> Result<
    (Tape, Traced),
    Fault,
> {
    if a.n_kv_heads == a.n_heads {
        Ok((t, x))
    } else if a.n_kv_heads == 0 {
        Err(Fault::Config(heads_message(a.n_heads, a.n_kv_heads)))
    } else {
        let repeat = (a.n_heads / a.n_kv_heads) as usize;
        ops::next(
            ops::reshape_op(t, x, seq![b, a.n_kv_heads, 1usize, source, a.head_dim]),
            |t1: Tape, lifted: Traced|
                ops::next(
                    ops::expand_op(t1, lifted, seq![b, a.n_kv_heads, repeat, source, a.head_dim]),
                    |t2: Tape, spread: Traced|
                        ops::reshape_op(t2, spread, seq![b, a.n_heads, source, a.head_dim]),
                ),
        )
    }
}

/// The last two axes exchanged.
pub open spec fn transposed_op(t: Tape, x: Traced) -> Result<(Tape, Traced), Fault> {
    let n = x.value.dims.len();
    if n < 2 {
        Err(Fault::Rank { expected: 2, got: n as usize, shape: x.value.dims })
    } else {
        ops::permute_op(t, x, ops::exchanged(n, n - 2, n - 1))
    }
}

/// The mask of a causal layer: query `i` sits at position `past + i` and sees no key
/// after it.
pub open spec fn mask_of(queries: usize, source: usize, past: usize) -> Value {
    tensor::fused_of(
        Fused::CausalMask(past as u64),
        Seq::empty(),
        seq![1usize, 1usize, queries, source],
    )
}

pub open spec fn masked_op(
    t: Tape,
    a: MultiHeadAttention,
    scores: Traced,
    queries: usize,
    source: usize,
    past: usize,
) -> Result<(Tape, Traced), Fault> {
    if a.causal {
        ops::binary_op(
            t,
            Binary::Add,
            scores,
            ops::untracked(mask_of(queries, source, past)),
        )
    } else {
        Ok((t, scores))
    }
}

/// Where the scores of a pass stand: batch, new positions, all positions, positions
/// before the first new one, and the width of the joined heads.
pub struct Frame {
    pub b: usize,
    pub queries: usize,
    pub source: usize,
    pub past: usize,
    pub width: usize,
}

/// Softmax of the scaled, masked scores, times the values, joined and projected back.
pub open spec fn scored_op(w: World, a: MultiHeadAttention, q: Traced, k: Traced, v: Traced, f: Frame) -> Step {
    let Frame { b, queries, source, past, width } = f;
    flow::go(
        flow::on(w, transposed_op(w.tape, k)),
        |w1: World, turned: Traced|
            flow::go(
                flow::on(w1, ops::product_op(w1.tape, Product::Plain, q, turned)),
                |w2: World, raw: Traced|
                    flow::go(
                        flow::at(w2, ops::pointwise_op(w2.tape, Unary::MulScalar(Scalar::InvSqrt(a.head_dim as u64)), raw)),
                        |w3: World, scaled: Traced|
                            flow::go(
                                flow::on(w3, masked_op(w3.tape, a, scaled, queries, source, past)),
                                |w4: World, masked: Traced|
                                    flow::go(
                                        flow::on(w4, ops::softmax_op(w4.tape, masked, 3)),
                                        |w5: World, weights: Traced|
                                            flow::go(
                                                dropout::dropout_opt(w5, a.dropout, weights),
                                                |w6: World, kept: Traced|
                                                    flow::go(
                                                        flow::on(w6, ops::product_op(w6.tape, Product::Plain, kept, v)),
                                                        |w7: World, context: Traced|
                                                            flow::go(
                                                                flow::on(w7, ops::permute_op(w7.tape, context, seq![0usize, 2, 1, 3])),
                                                                |w8: World, ordered: Traced|
                                                                    flow::go(
                                                                        flow::on(w8, ops::reshape_op(w8.tape, ordered, seq![b, queries, width])),
                                                                        |w9: World, flat: Traced|
                                                                            linear::linear_op(w9, a.o_proj, flat),
                                                                    ),
                                                            ),
                                                    ),
                                            ),
                                    ),
                            ),
                    ),
            ),
    )
}

/// Attention of queries over keys and values.
pub open spec fn attended_op(w: World, a: MultiHeadAttention, x: Triple, b: usize, queries: usize, past: usize) -> Step {
    if x.k.value.dims.len() < 3 {
        Err(
            Fault::Rank {
                expected: 4,
                got: x.k.value.dims.len() as usize,
                shape: x.k.value.dims,
            },
        )
    } else if !crate::shape::fits(seq![a.n_heads, a.head_dim]) {
        Err(Fault::Shape(ops::count_message(seq![a.n_heads, a.head_dim])))
    } else {
        let source = x.k.value.dims[2];
        let width = crate::shape::product(seq![a.n_heads, a.head_dim]) as usize;
        flow::go(
            flow::on(w, grown_op(w.tape, a, x.k, b, source)),
            |w1: World, k: Traced|
                flow::go(
                    flow::on(w1, grown_op(w1.tape, a, x.v, b, source)),
                    |w2: World, v: Traced|
                        scored_op(w2, a, x.q, k, v, Frame { b, queries, source, past, width }),
                ),
        )
    }
}

/// Attention, extending and reading a cache: the result, and the cache after it. The
/// cache takes the new positions once their keys and values are known, whatever becomes
/// of the scores.
pub open spec fn cached_op(w: World, a: MultiHeadAttention, input: Traced, cache: Cached) -> (
    Cached,
    Step,
) {
    let dims = input.value.dims;
    if dims.len() != 3 {
        (cache, Err(Fault::Rank { expected: 3, got: dims.len() as usize, shape: dims }))
    } else {
        match history_op(w, a, input, cache) {
            Err(f) => (cache, Err(f)),
            Ok((w1, x)) => (
                Cached { keys: Some(x.k.value), values: Some(x.v.value) },
                attended_op(w1, a, x, dims[0], dims[1], positions(cache.keys)),
            ),
        }
    }
}

/// Attention over the input alone.
pub open spec fn attention_op(w: World, a: MultiHeadAttention, input: Traced) -> Step {
    cached_op(w, a, input, Cached { keys: None, values: None }).1
}

/// The last two axes exchanged.
pub(crate) fn flipped(s: &mut Session, x: &Var) -> (r: Result<Var, Error>)
    ensures
        ops::same_value(r, final(s)@, transposed_op(old(s)@, x@)),
{
    if x.rank() < 2 {
        return Err(Error::Rank { expected: 2, got: x.rank(), shape: copied(x.dims()) });
    }
    x.transpose(s)
}

/// What was cached, then what is new.
fn append(s: &mut Session, before: &Option<Tensor>, now: &Var) -> (r: Result<Var, Error>)
    ensures
        ops::same_value(r, final(s)@, appended_op(old(s)@, rule::opt(*before), now@)),
{
    match before {
        Some(p) => pair_cat(s, &Var::constant(p.clone()), now, 2),
        None => Ok(now.clone()),
    }
}

impl MultiHeadAttention {
    /// Number of query heads.
    pub fn n_heads(&self) -> (r: usize)
        ensures
            r == self.n_heads,
    {
        self.n_heads
    }

    /// Per-head width.
    pub fn head_dim(&self) -> (r: usize)
        ensures
            r == self.head_dim,
    {
        self.head_dim
    }

    fn branch(&self, l: &Linear, s: &mut Session, st: &mut Store, input: &Var, heads: usize) -> (r:
        Result<Var, Error>)
        requires
            input@.value.dims.len() == 3,
        ensures
            flow::ran(
                r,
                final(s)@,
                final(st)@,
                branch_op(
                    flow::world(old(s)@, old(st)@),
                    *l,
                    input@,
                    heads,
                    self.head_dim,
                ),
            ),
    {
        let v = l.apply(s, st, input)?;
        let cut = v.reshape(
            s,
            &four(input.shape().dim(0), input.shape().dim(1), heads, self.head_dim),
        )?;
        cut.permute(s, four(0, 2, 1, 3).dims())
    }

    fn history(&self, s: &mut Session, st: &mut Store, input: &Var, cache: &AttentionCache) -> (r:
        Result<(Var, Var, Var), Error>)
        requires
            input@.value.dims.len() == 3,
        ensures
            match (
                r,
                history_op(flow::world(old(s)@, old(st)@), *self, input@, cache@),
            ) {
                (Ok(p), Ok((w, x))) => p.0@ == x.q && p.1@ == x.k && p.2@ == x.v && final(s)@
                    == w.tape && final(st)@ == w.store,
                (Err(e), Err(f)) => e@ == f,
                _ => false,
            },
    {
        let past: usize = cache.len();
        let q = self.branch(&self.q_proj, s, st, input, self.n_heads)?;
        let k = self.branch(&self.k_proj, s, st, input, self.n_kv_heads)?;
        let v = self.branch(&self.v_proj, s, st, input, self.n_kv_heads)?;
        let turned_q = apply_rope(&self.rope, s, q, past)?;
        let turned_k = apply_rope(&self.rope, s, k, past)?;
        let all_k = append(s, &cache.keys, &turned_k)?;
        let all_v = append(s, &cache.values, &v)?;
        Ok((turned_q, all_k, all_v))
    }

    fn grow(&self, s: &mut Session, x: &Var, b: usize, source: usize) -> (r: Result<Var, Error>)
        ensures
            ops::same_value(r, final(s)@, grown_op(old(s)@, *self, x@, b, source)),
    {
        if self.n_kv_heads == self.n_heads {
            return Ok(x.clone());
        }
        if self.n_kv_heads == 0 {
            return Err(heads_error(self.n_heads, self.n_kv_heads));
        }
        let repeat: usize = self.n_heads / self.n_kv_heads;
        let lifted = x.reshape(s, &five(b, self.n_kv_heads, 1, source, self.head_dim))?;
        let spread = lifted.expand(s, &five(b, self.n_kv_heads, repeat, source, self.head_dim))?;
        spread.reshape(s, &four(b, self.n_heads, source, self.head_dim))
    }

    fn mask(&self, s: &mut Session, scores: Var, queries: usize, source: usize, past: usize) -> (r:
        Result<Var, Error>)
        ensures
            ops::same_value(
                r,
                final(s)@,
                masked_op(old(s)@, *self, scores@, queries, source, past),
            ),
    {
        if self.causal {
            let mask = random_fill(
                Fused::CausalMask(past as u64),
                four(1, 1, queries, source),
            );
            scores.add(s, &Var::constant(mask))
        } else {
            Ok(scores)
        }
    }

    fn score(&self, s: &mut Session, st: &mut Store, q: &Var, k: &Var, v: &Var, f: Frame) -> (r:
        Result<Var, Error>)
        ensures
            flow::ran(
                r,
                final(s)@,
                final(st)@,
                scored_op(flow::world(old(s)@, old(st)@), *self, q@, k@, v@, f),
            ),
    {
        let Frame { b, queries, source, past, width } = f;
        let turned = flipped(s, k)?;
        let raw = q.matmul(s, &turned)?;
        let scaled = raw.mul_scalar(s, Scalar::InvSqrt(self.head_dim as u64));
        let masked = self.mask(s, scaled, queries, source, past)?;
        let weights = masked.softmax(s, 3)?;
        let kept = apply_dropout(&self.dropout, s, st, &weights)?;
        let context = kept.matmul(s, v)?;
        let ordered = context.permute(s, four(0, 2, 1, 3).dims())?;
        let flat = ordered.reshape(s, &block(b, queries, width))?;
        self.o_proj.apply(s, st, &flat)
    }

    fn attend(
        &self,
        s: &mut Session,
        st: &mut Store,
        x: (Var, Var, Var),
        b: usize,
        queries: usize,
        past: usize,
    ) -> (r: Result<Var, Error>)
        ensures
            flow::ran(
                r,
                final(s)@,
                final(st)@,
                attended_op(
                    flow::world(old(s)@, old(st)@),
                    *self,
                    Triple { q: x.0@, k: x.1@, v: x.2@ },
                    b,
                    queries,
                    past,
                ),
            ),
    {
        let (q, k, v) = x;
        if k.rank() < 3 {
            return Err(Error::Rank { expected: 4, got: k.rank(), shape: copied(k.dims()) });
        }
        let joined = grid(self.n_heads, self.head_dim);
        let width: usize = match joined.checked_elements() {
            Some(n) => n,
            None => {
                return Err(count_error(joined.dims()));
            },
        };
        let source: usize = k.shape().dim(2);
        let all_k = self.grow(s, &k, b, source)?;
        let all_v = self.grow(s, &v, b, source)?;
        self.score(s, st, &q, &all_k, &all_v, Frame { b, queries, source, past, width })
    }

    /// Attend over `[batch, seq, d_model]`.
    pub fn apply(&self, s: &mut Session, st: &mut Store, input: &Var) -> (r: Result<Var, Error>)
        ensures
            flow::ran(
                r,
                final(s)@,
                final(st)@,
                attention_op(flow::world(old(s)@, old(st)@), *self, input@),
            ),
    {
        let mut cache = AttentionCache::new();
        self.apply_cached(s, st, input, &mut cache)
    }

    /// Attend, extending and reading a key/value cache.
    pub fn apply_cached(
        &self,
        s: &mut Session,
        st: &mut Store,
        input: &Var,
        cache: &mut AttentionCache,
    ) -> (r: Result<Var, Error>)
        ensures
            final(cache)@ == cached_op(
                flow::world(old(s)@, old(st)@),
                *self,
                input@,
                old(cache)@,
            ).0,
            flow::ran(
                r,
                final(s)@,
                final(st)@,
                cached_op(flow::world(old(s)@, old(st)@), *self, input@, old(cache)@).1,
            ),
    {
        input.shape().expect_rank(3)?;
        let past: usize = cache.len();
        let x = self.history(s, st, input, cache)?;
        cache.keys = Some(x.1.tensor().clone());
        cache.values = Some(x.2.tensor().clone());
        self.attend(s, st, x, input.shape().dim(0), input.shape().dim(1), past)
    }
}

impl Module for MultiHeadAttention {
    open spec fn parts(&self) -> Seq<Listed> {
        module::branch("q_proj"@, &self.q_proj) + module::branch("k_proj"@, &self.k_proj)
            + module::branch("v_proj"@, &self.v_proj) + module::branch("o_proj"@, &self.o_proj)
            + module::branch_opt("dropout"@, self.dropout)
    }

    open spec fn hooks(&self) -> Seq<Part> {
        Seq::empty()
    }

    fn visit(&self, visitor: &mut ModuleVisitor) {
        broadcast use module::lemma_saw_twice;

        visitor.child("q_proj", &self.q_proj);
        visitor.child("k_proj", &self.k_proj);
        visitor.child("v_proj", &self.v_proj);
        visitor.child("o_proj", &self.o_proj);
        visitor.child_opt("dropout", &self.dropout);
    }

    fn own_hooks(&self) -> Vec<Part> {
        Vec::new()
    }
}

impl Layer for MultiHeadAttention {
    open spec fn forward_op(&self, w: World, x: Traced) -> Step {
        attention_op(w, *self, x)
    }

    fn forward(&self, s: &mut Session, st: &mut Store, input: &Var) -> Result<Var, Error> {
        self.apply(s, st, input)
    }
}

// -- the causal mask -------------------------------------------------------------------

/// The bit pattern of minus ten to the ninth.
pub const FORBIDDEN: u32 = 0xce6e_6b28;

/// Whether a query may see a key: it may not look ahead.
pub open spec fn visible(query: int, key: int, past: int) -> bool {
    key <= past + query
}

/// The entries of an additive mask, row by row: zero where attention is allowed, a large
/// negative number where it is not.
pub fn causal_bias(queries: usize, keys: usize, past: usize) -> (r: Vec<u32>)
    requires
        queries * keys <= usize::MAX,
    ensures
        r@.len() == queries * keys,
        forall|i: int, j: int|
            0 <= i < queries && 0 <= j < keys ==> #[trigger] r@[i * keys + j] == (if visible(
                i,
                j,
                past as int,
            ) {
                single::ZERO
            } else {
                FORBIDDEN
            }),
{
    let mut out: Vec<u32> = Vec::new();
    let mut i: usize = 0;
    proof {
        assert(0 * keys == 0) by (nonlinear_arith);
    }
    while i < queries
        invariant
            i <= queries,
            queries * keys <= usize::MAX,
            out@.len() == i * keys,
            forall|a: int, b: int|
                0 <= a < i && 0 <= b < keys ==> #[trigger] out@[a * keys + b] == (if visible(
                    a,
                    b,
                    past as int,
                ) {
                    single::ZERO
                } else {
                    FORBIDDEN
                }),
        decreases queries - i,
    {
        let mut j: usize = 0;
        let ghost before = out@;
        while j < keys
            invariant
                j <= keys,
                i < queries,
                out@.len() == i * keys + j,
                before.len() == i * keys,
                forall|k: int| 0 <= k < before.len() ==> out@[k] == before[k],
                forall|b: int|
                    0 <= b < j ==> #[trigger] out@[i * keys + b] == (if visible(
                        i as int,
                        b,
                        past as int,
                    ) {
                        single::ZERO
                    } else {
                        FORBIDDEN
                    }),
            decreases keys - j,
        {
            if j > past && j - past > i {
                out.push(FORBIDDEN);
            } else {
                out.push(single::ZERO);
            }
            j += 1;
        }
        proof {
            assert((i + 1) * keys == i * keys + keys) by (nonlinear_arith);
            assert forall|a: int, b: int| 0 <= a < i + 1 && 0 <= b < keys implies #[trigger] out@[a
                * keys + b] == (if visible(a, b, past as int) {
                single::ZERO
            } else {
                FORBIDDEN
            }) by {
                if a < i {
                    assert(a * keys + b < i * keys) by (nonlinear_arith)
                        requires
                            0 <= a < i,
                            0 <= b < keys,
                    ;
                    assert(0 <= a * keys) by (nonlinear_arith)
                        requires
                            0 <= a,
                            0 <= keys,
                    ;
                    assert(out@[a * keys + b] == before[a * keys + b]);
                }
            }
        }
        i += 1;
    }
    out
}

/// Decoding one position at a time sees exactly what one pass over the whole window
/// does: row `i` of the whole mask is the only row of the mask at `past = i`.
pub proof fn law_steps_see_what_a_window_sees(i: int, key: int, past: int)
    ensures
        visible(i, key, past) == visible(0, key, past + i),
{
}

} // verus!
