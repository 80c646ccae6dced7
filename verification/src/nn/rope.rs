//! Rotary position embedding, and the pairwise rotation it is built from.
//!
//! The same rotation serves position encoding in attention layers and the rotational
//! state update of the state-space layers, where the angles depend on the data.

use vstd::prelude::*;

use super::init::{four, grid, random_fill};
use crate::autograd::fused;
use crate::autograd::graph::{Session, Tape};
use crate::autograd::ops;
use crate::autograd::rule;
use crate::autograd::var::{Traced, Var};
use crate::error::{Error, Fault};
use crate::meaning::Model;
use crate::shape::copied;
use crate::tensor;
use crate::tensor::{Tensor, Value};
use crate::term;
use crate::term::{Binary, Fused, Term, Unary};
use crate::text::append_decimal;

verus! {

/// Rotate the halves of the last axis of `x` by the angles in `cos`/`sin`.
///
/// `x` has shape `[..., d]` with `d` even; `cos` and `sin` broadcast against
/// `[..., d/2]`.
pub fn rotate_halves(s: &mut Session, x: &Var, cos: &Var, sin: &Var) -> (r: Result<Var, Error>)
    requires
        x@.value.dims.len() > 0,
    ensures
        ops::same_value(r, final(s)@, fused::rotate_composed_op(old(s)@, x@, cos@, sin@)),
{
    x.rotate_halves_composed(s, cos, sin)
}

/// Fixed-frequency rotary embeddings: how many positions, over which head width, with
/// which single-precision frequency base.
#[derive(Debug, Clone, Copy, PartialEq, Eq, Structural)]
pub struct RotaryEmbedding {
    pub dim: usize,
    pub max_len: usize,
    pub base: u32,
}

pub open spec fn even_message(dim: usize) -> Seq<char> {
    "rotary dimension must be even, got "@ + crate::text::decimal(dim as nat)
}

/// The embedding of a head width, which must be even.
pub open spec fn rotary_of(dim: usize, max_len: usize, base: u32) -> Result<
    RotaryEmbedding,
    Fault,
> {
    if dim % 2 != 0 {
        Err(Fault::Config(even_message(dim)))
    } else {
        Ok(RotaryEmbedding { dim, max_len, base })
    }
}

/// The angles of every position and pair.
pub open spec fn angles_of(e: RotaryEmbedding) -> Value {
    tensor::fused_of(
        Fused::RotaryAngles(e.base, e.dim as u64),
        Seq::empty(),
        seq![e.max_len, (e.dim / 2) as usize],
    )
}

/// A function of the angles of the positions from `offset` on, broadcast over batch and
/// heads.
pub open spec fn table_of(e: RotaryEmbedding, op: Unary, offset: usize, seq_len: usize) -> Result<
    Value,
    Fault,
> {
    rule::onward(
        tensor::slice_of(tensor::unary_of(op, angles_of(e)), 0, offset, seq_len),
        |v: Value|
            tensor::reshape_of(v, seq![1usize, 1usize, seq_len, (e.dim / 2) as usize]),
    )
}

/// A sum, or the largest count of the machine.
pub open spec fn saturated(a: usize, b: usize) -> nat {
    if a + b > usize::MAX {
        usize::MAX as nat
    } else {
        (a + b) as nat
    }
}

pub open spec fn cover_message(max_len: usize, wanted: nat) -> Seq<char> {
    "rotary tables cover "@ + crate::text::decimal(max_len as nat) + " positions but "@
        + crate::text::decimal(wanted) + " were requested"@
}

/// Rotation of `[batch, heads, seq, dim]` by the angles of its positions.
pub open spec fn rotary_op(t: Tape, e: RotaryEmbedding, x: Traced, offset: usize) -> Result<
    (Tape, Traced),
    Fault,
> {
    if x.value.dims.len() < 3 {
        Err(
            Fault::Rank {
                expected: 4,
                got: x.value.dims.len() as usize,
                shape: x.value.dims,
            },
        )
    } else {
        let n = x.value.dims[2];
        if offset + n > e.max_len {
            Err(Fault::Config(cover_message(e.max_len, saturated(offset, n))))
        } else {
            match table_of(e, Unary::Cos, offset, n) {
                Err(f) => Err(f),
                Ok(cos) => match table_of(e, Unary::Sin, offset, n) {
                    Err(f) => Err(f),
                    Ok(sin) => fused::rotate_composed_op(
                        t,
                        x,
                        ops::untracked(cos),
                        ops::untracked(sin),
                    ),
                },
            }
        }
    }
}

/// Rotation that may be missing.
pub open spec fn rotary_opt(t: Tape, e: Option<RotaryEmbedding>, x: Traced, offset: usize) -> Result<
    (Tape, Traced),
    Fault,
> {
    match e {
        Some(r) => rotary_op(t, r, x, offset),
        None => Ok((t, x)),
    }
}

fn cover_error(max_len: usize, wanted: usize) -> (e: Error)
    ensures
        e@ == Fault::Config(cover_message(max_len, wanted as nat)),
{
    let mut text = String::new();
    text.append("rotary tables cover ");
    append_decimal(&mut text, max_len as u64);
    text.append(" positions but ");
    append_decimal(&mut text, wanted as u64);
    text.append(" were requested");
    proof {
        assert(text@ =~= cover_message(max_len, wanted as nat));
    }
    Error::Config(text)
}

impl RotaryEmbedding {
    /// Tables for `max_len` positions over a head dimension of `dim`.
    pub fn new(dim: usize, max_len: usize, base: u32) -> (r: Result<Self, Error>)
        ensures
            match (r, rotary_of(dim, max_len, base)) {
                (Ok(e), Ok(want)) => e == want,
                (Err(e), Err(f)) => e@ == f,
                _ => false,
            },
    {
        if dim % 2 != 0 {
            let mut text = String::new();
            text.append("rotary dimension must be even, got ");
            append_decimal(&mut text, dim as u64);
            proof {
                assert(text@ =~= even_message(dim));
            }
            return Err(Error::Config(text));
        }
        Ok(RotaryEmbedding { dim, max_len, base })
    }

    /// Head dimension the tables were built for.
    pub fn dim(&self) -> (r: usize)
        ensures
            r == self.dim,
    {
        self.dim
    }

    fn table(&self, op: Unary, offset: usize, seq_len: usize) -> (r: Result<Tensor, Error>)
        ensures
            crate::error::agrees(r, table_of(*self, op, offset, seq_len)),
    {
        let half: usize = self.dim / 2;
        let angles = random_fill(
            Fused::RotaryAngles(self.base, self.dim as u64),
            grid(self.max_len, half),
        );
        let rows = angles.unary(op).slice(0, offset, seq_len)?;
        rows.reshape(&four(1, 1, seq_len, half))
    }

    /// Apply to `[batch, heads, seq, dim]`, starting at position `offset`.
    pub fn apply(&self, s: &mut Session, x: &Var, offset: usize) -> (r: Result<Var, Error>)
        ensures
            ops::same_value(r, final(s)@, rotary_op(old(s)@, *self, x@, offset)),
    {
        if x.rank() < 3 {
            return Err(Error::Rank { expected: 4, got: x.rank(), shape: copied(x.dims()) });
        }
        let n: usize = x.shape().dim(2);
        let wanted: usize = match offset.checked_add(n) {
            Some(sum) => sum,
            None => usize::MAX,
        };
        if offset > self.max_len || n > self.max_len - offset {
            return Err(cover_error(self.max_len, wanted));
        }
        let cos = Var::constant(self.table(Unary::Cos, offset, n)?);
        let sin = Var::constant(self.table(Unary::Sin, offset, n)?);
        rotate_halves(s, x, &cos, &sin)
    }
}

/// Rotate by positions that may be missing.
pub(crate) fn apply_opt(e: &Option<RotaryEmbedding>, s: &mut Session, x: Var, offset: usize) -> (r:
    Result<Var, Error>)
    ensures
        ops::same_value(r, final(s)@, rotary_opt(old(s)@, *e, x@, offset)),
{
    match e {
        Some(r) => r.apply(s, &x, offset),
        None => Ok(x),
    }
}

/// The first half of a rotated pair: `x1 cos - x2 sin`.
pub open spec fn turned_low(x1: Term, x2: Term, cos: Term, sin: Term) -> Term {
    term::binary_term(
        Binary::Sub,
        term::binary_term(Binary::Mul, x1, cos),
        term::binary_term(Binary::Mul, x2, sin),
    )
}

/// The second half of a rotated pair: `x1 sin + x2 cos`.
pub open spec fn turned_high(x1: Term, x2: Term, cos: Term, sin: Term) -> Term {
    term::binary_term(
        Binary::Add,
        term::binary_term(Binary::Mul, x1, sin),
        term::binary_term(Binary::Mul, x2, cos),
    )
}

/// A rotation keeps the length of every pair, for every reading in which the two tables
/// lie on the unit circle.
pub proof fn law_rotation_keeps_length(m: Model, x1: Term, x2: Term, cos: Term, sin: Term)
    requires
        m.of(cos) * m.of(cos) + m.of(sin) * m.of(sin) == 1real,
    ensures
        ({
            let lo = m.of(turned_low(x1, x2, cos, sin));
            let hi = m.of(turned_high(x1, x2, cos, sin));
            lo * lo + hi * hi == m.of(x1) * m.of(x1) + m.of(x2) * m.of(x2)
        }),
{
    reveal_with_fuel(crate::meaning::reading, 3);
    let (a, b, c, s) = (m.of(x1), m.of(x2), m.of(cos), m.of(sin));
    let (p, q, u, v) = (a * c, b * s, a * s, b * c);
    assert(m.of(turned_low(x1, x2, cos, sin)) == p - q);
    assert(m.of(turned_high(x1, x2, cos, sin)) == u + v);
    lemma_squares(p, q);
    lemma_squares(u, v);
    lemma_four_factors(a, c, a, c);
    lemma_four_factors(b, s, b, s);
    lemma_four_factors(a, s, a, s);
    lemma_four_factors(b, c, b, c);
    lemma_cross(a, c, b, s);
    lemma_whole(a * a, c * c, s * s);
    lemma_whole(b * b, c * c, s * s);
}

proof fn lemma_squares(p: real, q: real)
    ensures
        (p - q) * (p - q) == p * p - 2real * (p * q) + q * q,
        (p + q) * (p + q) == p * p + 2real * (p * q) + q * q,
{
    assert((p - q) * (p - q) == p * p - 2real * (p * q) + q * q) by (nonlinear_arith);
    assert((p + q) * (p + q) == p * p + 2real * (p * q) + q * q) by (nonlinear_arith);
}

proof fn lemma_four_factors(a: real, b: real, c: real, d: real)
    ensures
        (a * b) * (c * d) == (a * c) * (b * d),
{
    assert((a * b) * (c * d) == (a * c) * (b * d)) by (nonlinear_arith);
}

proof fn lemma_cross(a: real, c: real, b: real, s: real)
    ensures
        (a * c) * (b * s) == (a * s) * (b * c),
{
    assert((a * c) * (b * s) == (a * s) * (b * c)) by (nonlinear_arith);
}

proof fn lemma_whole(x: real, c: real, s: real)
    requires
        c + s == 1real,
    ensures
        x * c + x * s == x,
{
    assert(x * c + x * s == x * (c + s)) by (nonlinear_arith);
}

} // verus!
