//! Low-rank adaptation.
//!
//! An adapter adds `x @ A @ B * (alpha / r)` to a frozen base projection. Because a
//! `Param` names a weight of the store, attaching an adapter to an existing projection
//! neither copies nor rebuilds the base weight, and folding the update back means that
//! inference pays nothing.

use vstd::prelude::*;

use super::dropout;
use super::dropout::{Dropout, apply_opt};
use super::flow;
use super::flow::{Step, World};
use super::init;
use super::init::{Ground, Initializer, Rng, grid, sow};
use super::module;
use super::module::{Adapter, Listed, Module, ModuleVisitor, Part};
use super::param;
use super::param::Param;
use super::quant;
use super::store::{Store, Stored};
use crate::autograd::graph::Session;
use crate::autograd::ops;
use crate::autograd::var::{Traced, Var};
use crate::error::{Error, Fault};
use crate::single;
use crate::tensor;
use crate::tensor::{Tensor, Value};
use crate::term::{Product, Scalar, Unary};

verus! {

/// Adapter hyper-parameters. Real-valued settings are single-precision bit patterns.
#[derive(Debug, Clone, Copy, PartialEq, Eq, Structural)]
pub struct LoraConfig {
    /// Bottleneck width `r`.
    pub rank: usize,
    /// Scaling numerator; the update is multiplied by `alpha / rank`.
    pub alpha: u32,
    /// Dropout applied to the adapter input.
    pub dropout: u32,
    /// Initialiser for the down projection `A`. `B` always starts at zero so the
    /// adapter is a no-op at step 0.
    pub init: Initializer,
}

/// The bit pattern of sixteen.
pub const SIXTEEN: u32 = 0x4180_0000;

/// What the settings are where nothing else is said.
pub open spec fn default_config() -> LoraConfig {
    LoraConfig {
        rank: 8,
        alpha: SIXTEEN,
        dropout: single::ZERO,
        init: Initializer::KaimingUniform { gain: single::ONE },
    }
}

impl Default for LoraConfig {
    fn default() -> (r: Self)
        ensures
            r == default_config(),
    {
        LoraConfig {
            rank: 8,
            alpha: SIXTEEN,
            dropout: single::ZERO,
            init: Initializer::KaimingUniform { gain: single::ONE },
        }
    }
}

/// The multiplier of an adapter: `alpha / rank`, and nothing without a bottleneck.
pub open spec fn scaling_of(c: LoraConfig) -> Scalar {
    if c.rank == 0 {
        Scalar::Int(0)
    } else {
        Scalar::BitsOver(c.alpha, c.rank as u64)
    }
}

/// An adapter for an `[inputs, outputs]` projection: a down projection filled by its
/// scheme, an up projection of zeros, and dropout where a probability is given.
pub open spec fn init_of(g: Ground, c: LoraConfig, inputs: usize, outputs: usize) -> (
    Ground,
    LoraLinear,
) {
    let (g1, a) = init::sown(g, c.init, seq![inputs, c.rank]);
    let (g2, b) = init::planted(g1, tensor::fill_of(Scalar::Int(0), seq![c.rank, outputs]));
    let (store, d) = dropout::made_opt(g2.store, c.dropout);
    (Ground { store, ..g2 }, LoraLinear { a, b, scaling: scaling_of(c), dropout: d })
}

impl LoraConfig {
    /// Start a builder.
    pub fn builder() -> (r: LoraConfigBuilder)
        ensures
            r == (LoraConfigBuilder { rank: None, alpha: None, dropout: None, init: None }),
    {
        LoraConfigBuilder { rank: None, alpha: None, dropout: None, init: None }
    }

    /// The multiplier applied to `A @ B`.
    pub fn scaling(&self) -> (r: Scalar)
        ensures
            r == scaling_of(*self),
    {
        if self.rank == 0 {
            Scalar::Int(0)
        } else {
            Scalar::BitsOver(self.alpha, self.rank as u64)
        }
    }

    /// Instantiate the adapter for an `[in_features, out_features]` projection.
    pub fn init(
        &self,
        s: &mut Session,
        st: &mut Store,
        rng: &mut Rng,
        in_features: usize,
        out_features: usize,
    ) -> (r: LoraLinear)
        ensures
            (init::ground(final(s)@, final(st)@, final(rng)@), r) == init_of(
                init::ground(old(s)@, old(st)@, old(rng)@),
                *self,
                in_features,
                out_features,
            ),
    {
        let a = sow(s, st, rng, self.init, grid(in_features, self.rank));
        let b = Param::new(s, st, Tensor::zeros(grid(self.rank, out_features)));
        let dropout = Dropout::when_positive(st, self.dropout);
        LoraLinear { a, b, scaling: self.scaling(), dropout }
    }
}

/// Builder for [`LoraConfig`].
#[derive(Debug, Clone, Copy)]
pub struct LoraConfigBuilder {
    pub rank: Option<usize>,
    pub alpha: Option<u32>,
    pub dropout: Option<u32>,
    pub init: Option<Initializer>,
}

/// What a builder makes: its settings, the defaults where nothing was said.
pub open spec fn built(b: LoraConfigBuilder) -> Result<LoraConfig, Fault> {
    let d = default_config();
    let c = LoraConfig {
        rank: quant::given(b.rank, d.rank),
        alpha: quant::given(b.alpha, d.alpha),
        dropout: quant::given(b.dropout, d.dropout),
        init: quant::given(b.init, d.init),
    };
    if c.rank == 0 {
        Err(Fault::Config("LoRA rank must be positive"@))
    } else if !(single::at_most(single::ZERO, c.dropout) && single::below(
        c.dropout,
        single::ONE,
    )) {
        Err(Fault::Config("LoRA dropout must be in [0, 1)"@))
    } else {
        Ok(c)
    }
}

impl LoraConfigBuilder {
    /// Bottleneck width.
    pub fn rank(self, rank: usize) -> (r: Self)
        ensures
            r == (LoraConfigBuilder { rank: Some(rank), ..self }),
    {
        LoraConfigBuilder { rank: Some(rank), ..self }
    }

    /// Scaling numerator.
    pub fn alpha(self, alpha: u32) -> (r: Self)
        ensures
            r == (LoraConfigBuilder { alpha: Some(alpha), ..self }),
    {
        LoraConfigBuilder { alpha: Some(alpha), ..self }
    }

    /// Dropout on the adapter input.
    pub fn dropout(self, p: u32) -> (r: Self)
        ensures
            r == (LoraConfigBuilder { dropout: Some(p), ..self }),
    {
        LoraConfigBuilder { dropout: Some(p), ..self }
    }

    /// Initialiser for `A`.
    pub fn init(self, init: Initializer) -> (r: Self)
        ensures
            r == (LoraConfigBuilder { init: Some(init), ..self }),
    {
        LoraConfigBuilder { init: Some(init), ..self }
    }

    /// Validate and build.
    pub fn build(self) -> (r: Result<LoraConfig, Error>)
        ensures
            match (r, built(self)) {
                (Ok(c), Ok(want)) => c == want,
                (Err(e), Err(f)) => e@ == f,
                _ => false,
            },
    {
        let d = LoraConfig::default();
        let rank: usize = match self.rank {
            Some(n) => n,
            None => d.rank,
        };
        if rank == 0 {
            return Err(Error::config("LoRA rank must be positive"));
        }
        let dropout: u32 = match self.dropout {
            Some(p) => p,
            None => d.dropout,
        };
        if !(single::le(single::ZERO, dropout) && single::lt(dropout, single::ONE)) {
            return Err(Error::config("LoRA dropout must be in [0, 1)"));
        }
        let alpha: u32 = match self.alpha {
            Some(a) => a,
            None => d.alpha,
        };
        let init = match self.init {
            Some(i) => i,
            None => d.init,
        };
        Ok(LoraConfig { rank, alpha, dropout, init })
    }
}

/// A rank-`r` update to a linear projection.
#[derive(Debug, Clone, Copy, PartialEq, Eq, Structural)]
pub struct LoraLinear {
    pub a: Param,
    pub b: Param,
    pub scaling: Scalar,
    pub dropout: Option<Dropout>,
}

/// The additive contribution of an adapter: `(x A) B` times the scaling, with dropout
/// on the way in.
pub open spec fn delta_op(w: World, l: LoraLinear, input: Traced) -> Step {
    flow::go(
        dropout::dropout_opt(w, l.dropout, input),
        |w1: World, x: Traced|
            flow::go(
                param::var_op(w1, l.a.key(), input),
                |w2: World, a: Traced|
                    flow::go(
                        flow::on(w2, ops::product_op(w2.tape, Product::Plain, x, a)),
                        |w3: World, low: Traced|
                            flow::go(
                                param::var_op(w3, l.b.key(), input),
                                |w4: World, b: Traced|
                                    flow::go(
                                        flow::on(w4, ops::product_op(w4.tape, Product::Plain, low, b)),
                                        |w5: World, full: Traced|
                                            flow::at(w5, ops::pointwise_op(w5.tape, Unary::MulScalar(l.scaling), full)),
                                    ),
                            ),
                    ),
            ),
    )
}

/// A value plus the contribution of an adapter that may be missing.
pub open spec fn plus_delta(w: World, x: Traced, l: Option<LoraLinear>, input: Traced) -> Step {
    match l {
        Some(a) => flow::go(
            delta_op(w, a, input),
            |u: World, d: Traced| flow::on(u, ops::binary_op(u.tape, crate::term::Binary::Add, x, d)),
        ),
        None => Ok((w, x)),
    }
}

/// The adapter as something to fold into a base weight.
pub open spec fn adapter_of(l: LoraLinear, base: Param) -> Adapter {
    Adapter { base, a: l.a, b: l.b, scaling: l.scaling }
}

/// `A B` times the scaling, as the store holds the two projections.
pub open spec fn delta_weight_of(st: Stored, l: LoraLinear) -> Result<Value, Fault> {
    match param::value_of(st, l.a.key()) {
        Err(f) => Err(f),
        Ok(a) => match param::value_of(st, l.b.key()) {
            Err(f) => Err(f),
            Ok(b) => module::delta_of(a, b, l.scaling),
        },
    }
}

impl LoraLinear {
    /// The bottleneck width: the number of columns of `A`.
    pub fn rank(&self, st: &Store) -> (r: Option<usize>)
        ensures
            match r {
                Some(n) => st@.weights.contains_key(self.a.key())
                    && st@.weights[self.a.key()].value.dims.len() > 1 && n
                    == st@.weights[self.a.key()].value.dims[1],
                None => st@.weights.contains_key(self.a.key())
                    ==> st@.weights[self.a.key()].value.dims.len() <= 1,
            },
    {
        match self.a.shape(st) {
            Some(d) => if d.rank() > 1 {
                Some(d.dim(1))
            } else {
                None
            },
            None => None,
        }
    }

    /// The down projection `A`.
    pub fn a(&self) -> (r: &Param)
        ensures
            *r == self.a,
    {
        &self.a
    }

    /// The up projection `B`.
    pub fn b(&self) -> (r: &Param)
        ensures
            *r == self.b,
    {
        &self.b
    }

    /// The additive contribution for an input of shape `[..., in_features]`.
    pub fn delta(&self, s: &mut Session, st: &mut Store, input: &Var) -> (r: Result<Var, Error>)
        ensures
            flow::ran(
                r,
                final(s)@,
                final(st)@,
                delta_op(flow::world(old(s)@, old(st)@), *self, input@),
            ),
    {
        let x = apply_opt(&self.dropout, s, st, input)?;
        let a = self.a.var(s, st, input)?;
        let low = x.matmul(s, &a)?;
        let b = self.b.var(s, st, input)?;
        let full = low.matmul(s, &b)?;
        Ok(full.mul_scalar(s, self.scaling))
    }

    /// `A @ B * scaling`, shaped like the base weight `[in_features, out_features]`.
    pub fn delta_weight(&self, st: &Store) -> (r: Result<Tensor, Error>)
        ensures
            crate::error::agrees(r, delta_weight_of(st@, *self)),
    {
        let a = self.a.value(st)?;
        let b = self.b.value(st)?;
        let product = Tensor::product(Product::Plain, &a, &b)?;
        Ok(product.unary(Unary::MulScalar(self.scaling)))
    }

    /// Fold the adapter into a base weight and reset `B` to zero, so repeated calls are
    /// idempotent.
    pub fn merge_into(&self, st: &mut Store, base: &Param) -> (r: Result<(), Error>)
        ensures
            match (r, module::merged(old(st)@, adapter_of(*self, *base))) {
                (Ok(_), Ok(want)) => final(st)@ == want,
                (Err(e), Err(f)) => e@ == f && final(st)@ == old(st)@,
                _ => false,
            },
    {
        module::merge(
            st,
            Adapter { base: *base, a: self.a, b: self.b, scaling: self.scaling },
        )
    }
}

/// Add the contribution of an adapter that may be missing.
pub(crate) fn add_delta(
    l: &Option<LoraLinear>,
    s: &mut Session,
    st: &mut Store,
    x: Var,
    input: &Var,
) -> (r: Result<Var, Error>)
    ensures
        flow::ran(
            r,
            final(s)@,
            final(st)@,
            plus_delta(flow::world(old(s)@, old(st)@), x@, *l, input@),
        ),
{
    match l {
        Some(a) => {
            let d = a.delta(s, st, input)?;
            x.add(s, &d)
        },
        None => Ok(x),
    }
}

impl Module for LoraLinear {
    open spec fn parts(&self) -> Seq<Listed> {
        module::leaf("lora_a"@, self.a) + module::leaf("lora_b"@, self.b) + module::branch_opt(
            "dropout"@,
            self.dropout,
        )
    }

    open spec fn hooks(&self) -> Seq<Part> {
        Seq::empty()
    }

    fn visit(&self, visitor: &mut ModuleVisitor) {
        broadcast use module::lemma_saw_twice;

        visitor.param("lora_a", &self.a);
        visitor.param("lora_b", &self.b);
        visitor.child_opt("dropout", &self.dropout);
    }

    fn own_hooks(&self) -> Vec<Part> {
        Vec::new()
    }
}

/// A fresh adapter starts with an up projection of zeros that is free to train.
pub proof fn law_fresh_adapter_starts_at_zero(
    g: Ground,
    c: LoraConfig,
    inputs: usize,
    outputs: usize,
)
    ensures
        ({
            let (after, l) = init_of(g, c, inputs, outputs);
            &&& after.store.weights.contains_key(l.b.key())
            &&& after.store.weights[l.b.key()].value == tensor::fill_of(
                Scalar::Int(0),
                seq![c.rank, outputs],
            )
            &&& after.store.weights[l.b.key()].trainable
        }),
{
    broadcast use param::lemma_param_key;

}

} // verus!
