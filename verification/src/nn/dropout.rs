//! Inverted dropout.

use vstd::arithmetic::div_mod::{lemma_mod_multiples_vanish, lemma_mul_mod_noop_left, lemma_small_mod};
use vstd::prelude::*;

use super::flow;
use super::flow::{Step, World};
use super::init::random_fill;
use super::module::{Layer, Listed, Module, ModuleVisitor, Part, Switch};
use super::store::{Drops, Store, Stored};
use crate::autograd::graph;
use crate::autograd::graph::Session;
use crate::autograd::ops;
use crate::autograd::var::{Traced, Var};
use crate::error::{Error, Fault};
use crate::single;
use crate::tensor;
use crate::tensor::Value;
use crate::term::{Binary, Fused};

verus! {

/// Drops activations with probability `p` during training and rescales the survivors
/// by `1/(1-p)`, so the layer is the identity at evaluation time.
///
/// Masks are generated from a counter the store keeps under the layer's id.
#[derive(Clone, Copy, Debug, PartialEq, Eq, Structural)]
pub struct Dropout {
    pub p: u32,
    pub seed: u64,
    pub id: u64,
}

/// The seed of a layer that was given none.
pub const DEFAULT_SEED: u64 = 0x9E37_79B9_7F4A_7C15;

/// A probability, or the bound of `[0, 1]` it lies beyond.
pub open spec fn clamped(p: u32) -> u32 {
    if single::below(p, single::ZERO) {
        single::ZERO
    } else if single::below(single::ONE, p) {
        single::ONE
    } else {
        p
    }
}

/// The seed of the mask of a step.
pub open spec fn mask_seed(seed: u64, step: u64) -> u64 {
    seed ^ step.wrapping_mul(0x2545_F491_4F6C_DD1D)
}

/// What using a layer that the store knows nothing of gives.
pub open spec fn unknown() -> Fault {
    Fault::StateDict("the store holds no such layer"@)
}

pub(crate) fn unknown_error() -> (e: Error)
    ensures
        e@ == unknown(),
{
    Error::StateDict("the store holds no such layer".to_owned())
}

/// Dropout: the identity unless the layer is in training and drops anything at all;
/// otherwise a mask of its own for every step.
pub open spec fn dropout_op(w: World, d: Dropout, x: Traced) -> Step {
    if !w.store.drops.contains_key(d.id) {
        Err(unknown())
    } else {
        let was = w.store.drops[d.id];
        if !was.training || single::at_most(d.p, single::ZERO) {
            Ok((w, x))
        } else {
            let now = World {
                store: w.store.with_drops(
                    d.id,
                    Drops { step: graph::following(was.step), ..was },
                ),
                ..w
            };
            let mask = tensor::fused_of(
                Fused::DropMask(d.p, mask_seed(d.seed, was.step)),
                Seq::empty(),
                x.value.dims,
            );
            flow::on(now, ops::binary_op(w.tape, Binary::Mul, x, ops::untracked(mask)))
        }
    }
}

/// Dropout that may be missing.
pub open spec fn dropout_opt(w: World, d: Option<Dropout>, x: Traced) -> Step {
    match d {
        Some(l) => dropout_op(w, l, x),
        None => Ok((w, x)),
    }
}

/// The store after a dropout layer has been made.
pub open spec fn made(st: Stored, p: u32, seed: u64) -> (Stored, Dropout) {
    (
        st.counted().with_drops(st.next, Drops { step: 0, training: true }),
        Dropout { p: clamped(p), seed, id: st.next },
    )
}

/// A layer for a positive probability, and none otherwise.
pub open spec fn made_opt(st: Stored, p: u32) -> (Stored, Option<Dropout>) {
    if single::below(single::ZERO, p) {
        let (after, d) = made(st, p, DEFAULT_SEED);
        (after, Some(d))
    } else {
        (st, None)
    }
}

impl Dropout {
    /// A dropout layer with drop probability `p`.
    pub fn new(st: &mut Store, p: u32) -> (r: Self)
        ensures
            (final(st)@, r) == made(old(st)@, p, DEFAULT_SEED),
    {
        let q: u32 = if single::lt(p, single::ZERO) {
            single::ZERO
        } else if single::lt(single::ONE, p) {
            single::ONE
        } else {
            p
        };
        let id: u64 = st.fresh();
        st.put_drops(id, Drops { step: 0, training: true });
        Dropout { p: q, seed: DEFAULT_SEED, id }
    }

    /// A layer for a positive probability, and none otherwise.
    pub fn when_positive(st: &mut Store, p: u32) -> (r: Option<Self>)
        ensures
            (final(st)@, r) == made_opt(old(st)@, p),
    {
        if single::lt(single::ZERO, p) {
            Some(Dropout::new(st, p))
        } else {
            None
        }
    }

    /// Use an explicit base seed so a run is reproducible.
    pub fn with_seed(self, seed: u64) -> (r: Self)
        ensures
            r == (Dropout { seed, ..self }),
    {
        Dropout { p: self.p, seed, id: self.id }
    }

    /// Drop probability.
    pub fn p(&self) -> (r: u32)
        ensures
            r == self.p,
    {
        self.p
    }

    /// Apply dropout to a value.
    pub fn apply(&self, s: &mut Session, st: &mut Store, input: &Var) -> (r: Result<Var, Error>)
        ensures
            flow::ran(
                r,
                final(s)@,
                final(st)@,
                dropout_op(flow::world(old(s)@, old(st)@), *self, input@),
            ),
    {
        match st.drops(self.id) {
            None => Err(unknown_error()),
            Some(was) => {
                if !was.training || single::le(self.p, single::ZERO) {
                    return Ok(input.clone());
                }
                st.put_drops(
                    self.id,
                    Drops { step: graph::next_counter(was.step), training: was.training },
                );
                let seed: u64 = self.seed ^ was.step.wrapping_mul(0x2545_F491_4F6C_DD1D);
                let mask = random_fill(Fused::DropMask(self.p, seed), input.shape().clone());
                input.mul(s, &Var::constant(mask))
            },
        }
    }
}

/// Apply dropout that may be missing.
pub(crate) fn apply_opt(d: &Option<Dropout>, s: &mut Session, st: &mut Store, input: &Var) -> (r:
    Result<Var, Error>)
    ensures
        flow::ran(
            r,
            final(s)@,
            final(st)@,
            dropout_opt(flow::world(old(s)@, old(st)@), *d, input@),
        ),
{
    match d {
        Some(l) => l.apply(s, st, input),
        None => Ok(input.clone()),
    }
}

impl Module for Dropout {
    open spec fn parts(&self) -> Seq<Listed> {
        Seq::empty()
    }

    open spec fn hooks(&self) -> Seq<Part> {
        seq![Part::Switch(Switch::Dropout(self.id))]
    }

    fn visit(&self, visitor: &mut ModuleVisitor) {
        proof {
            super::module::lemma_saw_nothing(visitor@);
        }
    }

    fn own_hooks(&self) -> Vec<Part> {
        let mut out: Vec<Part> = Vec::new();
        out.push(Part::Switch(Switch::Dropout(self.id)));
        proof {
            assert(out@ =~= self.hooks());
        }
        out
    }
}

impl Layer for Dropout {
    open spec fn forward_op(&self, w: World, x: Traced) -> Step {
        dropout_op(w, *self, x)
    }

    fn forward(&self, s: &mut Session, st: &mut Store, input: &Var) -> Result<Var, Error> {
        self.apply(s, st, input)
    }
}

/// At evaluation time the layer is the identity and remembers nothing.
pub proof fn law_evaluation_is_the_identity(w: World, d: Dropout, x: Traced)
    requires
        w.store.drops.contains_key(d.id),
        !w.store.drops[d.id].training,
    ensures
        dropout_op(w, d, x) == Ok::<(World, Traced), Fault>((w, x)),
{
}

/// Two masks of one layer have different seeds as long as the counter has not come
/// round: the multiplier is odd, so different steps give different seeds.
pub proof fn law_masks_differ(seed: u64, a: u64, b: u64)
    requires
        a != b,
    ensures
        mask_seed(seed, a) != mask_seed(seed, b),
{
    let (x, y) = (a.wrapping_mul(0x2545_F491_4F6C_DD1D), b.wrapping_mul(0x2545_F491_4F6C_DD1D));
    lemma_odd_multiplier(a, b);
    assert(x != y ==> seed ^ x != seed ^ y) by (bit_vector);
}

/// Multiplying by the inverse of the odd multiplier gives a step back.
proof fn lemma_step_back(a: u64)
    ensures
        (a.wrapping_mul(0x2545_F491_4F6C_DD1D) * 0x59071d96d81ecd35int) % 0x1_0000_0000_0000_0000int == a,
{
    let m: int = 0x2545_F491_4F6C_DD1D;
    let inv: int = 0x59071d96d81ecd35;
    let n: int = 0x1_0000_0000_0000_0000;
    let k: int = 0xcf65b3f17bf4a6b;
    let x: int = a as int;
    assert(a.wrapping_mul(0x2545_F491_4F6C_DD1D) == (x * m) % n);
    lemma_mul_mod_noop_left(x * m, inv, n);
    assert((x * m) * inv == n * (x * k) + x) by (nonlinear_arith)
        requires
            m == 0x2545_F491_4F6C_DD1D,
            inv == 0x59071d96d81ecd35,
            n == 0x1_0000_0000_0000_0000,
            k == 0xcf65b3f17bf4a6b,
    ;
    lemma_mod_multiples_vanish(x * k, x, n);
    lemma_small_mod(a as nat, n as nat);
}

/// Multiplication by an odd number loses nothing.
proof fn lemma_odd_multiplier(a: u64, b: u64)
    requires
        a != b,
    ensures
        a.wrapping_mul(0x2545_F491_4F6C_DD1D) != b.wrapping_mul(0x2545_F491_4F6C_DD1D),
{
    lemma_step_back(a);
    lemma_step_back(b);
}

} // verus!
