//! Token and positional embeddings.

use vstd::prelude::*;

use super::flow;
use super::flow::{Step, World};
use super::init;
use super::init::{FIFTIETH, Ground, Initializer, Rng, grid, row, sow};
use super::linear;
use super::linear::weight_extent;
use super::module;
use super::module::{Listed, Module, ModuleVisitor, Part};
use super::param;
use super::param::Param;
use super::store::Store;
use crate::autograd::graph;
use crate::autograd::graph::{Session, Tape};
use crate::autograd::ops;
use crate::autograd::ops::embedding as gather;
use crate::autograd::var::{Place, Traced, Var};
use crate::error::{Error, Fault};
use crate::shape::copied;
use crate::single;
use crate::tensor;
use crate::tensor::{IdTensor, IdValue, Tensor};
use crate::term::{Binary, Scalar};

verus! {

/// Small normal noise.
pub open spec fn small_noise() -> Initializer {
    Initializer::Normal { mean: single::ZERO, std: FIFTIETH }
}

/// Configuration for [`Embedding`].
#[derive(Debug, Clone, Copy, PartialEq, Eq, Structural)]
pub struct EmbeddingConfig {
    pub num_embeddings: usize,
    pub dim: usize,
    pub init: Initializer,
}

/// The table a configuration describes.
pub open spec fn init_of(g: Ground, c: EmbeddingConfig) -> (Ground, Embedding) {
    let (after, weight) = init::sown(g, c.init, seq![c.num_embeddings, c.dim]);
    (after, Embedding { weight })
}

impl EmbeddingConfig {
    /// A `[num_embeddings, dim]` lookup table.
    pub fn new(num_embeddings: usize, dim: usize) -> (r: Self)
        ensures
            r == (EmbeddingConfig { num_embeddings, dim, init: small_noise() }),
    {
        EmbeddingConfig {
            num_embeddings,
            dim,
            init: Initializer::Normal { mean: single::ZERO, std: FIFTIETH },
        }
    }

    /// Choose the initialiser.
    pub fn with_initializer(self, init: Initializer) -> (r: Self)
        ensures
            r == (EmbeddingConfig { init, ..self }),
    {
        EmbeddingConfig { init, ..self }
    }

    /// Instantiate.
    pub fn init(&self, s: &mut Session, st: &mut Store, rng: &mut Rng) -> (r: Embedding)
        ensures
            (init::ground(final(s)@, final(st)@, final(rng)@), r) == init_of(
                init::ground(old(s)@, old(st)@, old(rng)@),
                *self,
            ),
    {
        Embedding { weight: sow(s, st, rng, self.init, grid(self.num_embeddings, self.dim)) }
    }
}

/// A learnable lookup table.
#[derive(Debug, Clone, Copy, PartialEq, Eq, Structural)]
pub struct Embedding {
    pub weight: Param,
}

/// Rows of a table, one per id. The anchor decides whether the result is on a tape.
pub open spec fn embed_op(w: World, e: Embedding, ids: IdValue, anchor: Traced) -> Step {
    flow::go(
        param::var_op(w, e.weight.key(), anchor),
        |u: World, table: Traced| flow::on(u, ops::embedding_op(u.tape, table, ids)),
    )
}

/// A single zero: a leaf on a tape of its own in training, a constant otherwise.
pub open spec fn anchor_op(t: Tape, train: bool) -> (Tape, Traced) {
    let zero = tensor::fill_of(Scalar::Int(0), seq![1usize]);
    if train {
        (
            (Tape { next_graph: graph::following(t.next_graph), ..t }).with_node(
                graph::leaf(t.next_graph, None),
            ),
            Traced {
                value: zero,
                trace: Some(Place { graph: t.next_graph, node: t.next_node }),
            },
        )
    } else {
        (t, ops::untracked(zero))
    }
}

/// Rows of a table, on a fresh tape in training.
pub open spec fn lookup_op(w: World, e: Embedding, ids: IdValue, train: bool) -> Step {
    flow::go(
        flow::at(w, anchor_op(w.tape, train)),
        |u: World, anchor: Traced| embed_op(u, e, ids, anchor),
    )
}

impl Embedding {
    /// Number of rows.
    pub fn num_embeddings(&self, st: &Store) -> (r: Option<usize>)
        ensures
            r == linear::extent(st@, self.weight.key(), 0),
    {
        weight_extent(st, &self.weight, 0)
    }

    /// Row width.
    pub fn dim(&self, st: &Store) -> (r: Option<usize>)
        ensures
            r == linear::extent(st@, self.weight.key(), 1),
    {
        weight_extent(st, &self.weight, 1)
    }

    /// The table.
    pub fn weight(&self) -> (r: &Param)
        ensures
            *r == self.weight,
    {
        &self.weight
    }

    /// Look up ids of shape `[...]`, producing `[..., dim]`.
    ///
    /// `anchor` decides whether the result is on a tape.
    pub fn apply(&self, s: &mut Session, st: &Store, ids: &IdTensor, anchor: &Var) -> (r: Result<
        Var,
        Error,
    >)
        ensures
            flow::ran(
                r,
                final(s)@,
                st@,
                embed_op(flow::world(old(s)@, st@), *self, ids@, anchor@),
            ),
    {
        let table = self.weight.var(s, st, anchor)?;
        gather(s, &table, ids)
    }

    /// Look up ids, starting a fresh tape rooted at the table when training.
    pub fn lookup(&self, s: &mut Session, st: &Store, ids: &IdTensor, train: bool) -> (r: Result<
        Var,
        Error,
    >)
        ensures
            flow::ran(
                r,
                final(s)@,
                st@,
                lookup_op(flow::world(old(s)@, st@), *self, ids@, train),
            ),
    {
        let anchor = if train {
            Var::traced(s, Tensor::zeros(row(1)))
        } else {
            Var::constant(Tensor::zeros(row(1)))
        };
        self.apply(s, st, ids, &anchor)
    }
}

impl Module for Embedding {
    open spec fn parts(&self) -> Seq<Listed> {
        module::leaf("weight"@, self.weight)
    }

    open spec fn hooks(&self) -> Seq<Part> {
        Seq::empty()
    }

    fn visit(&self, visitor: &mut ModuleVisitor) {
        visitor.param("weight", &self.weight);
    }

    fn own_hooks(&self) -> Vec<Part> {
        Vec::new()
    }
}

/// A learnable absolute position table, used by the vision models.
#[derive(Debug, Clone, Copy, PartialEq, Eq, Structural)]
pub struct PositionalEmbedding {
    pub weight: Param,
}

pub open spec fn positional_of(g: Ground, max_len: usize, dim: usize) -> (
    Ground,
    PositionalEmbedding,
) {
    let (after, weight) = init::sown(g, small_noise(), seq![max_len, dim]);
    (after, PositionalEmbedding { weight })
}

/// The rows of a table for the positions of an input, as a batch of one.
pub open spec fn positions_op(t: Tape, table: Traced, offset: usize, len: usize) -> Result<
    (Tape, Traced),
    Fault,
> {
    if table.value.dims.len() == 0 {
        Err(Fault::Rank { expected: 2, got: 0, shape: table.value.dims })
    } else {
        ops::next(
            ops::slice_op(t, table, 0, offset, len),
            |u: Tape, piece: Traced|
                ops::reshape_op(u, piece, piece.value.dims.insert(0, 1usize)),
        )
    }
}

/// An input plus the rows for its positions.
pub open spec fn positioned_op(w: World, e: PositionalEmbedding, input: Traced, offset: usize) -> Step {
    if input.value.dims.len() < 2 {
        Err(
            Fault::Rank {
                expected: 3,
                got: input.value.dims.len() as usize,
                shape: input.value.dims,
            },
        )
    } else {
        flow::go(
            param::var_op(w, e.weight.key(), input),
            |w1: World, table: Traced|
                flow::go(
                    flow::on(
                        w1,
                        positions_op(w1.tape, table, offset, input.value.dims[1]),
                    ),
                    |w2: World, rows: Traced|
                        flow::on(w2, ops::binary_op(w2.tape, Binary::Add, input, rows)),
                ),
        )
    }
}

impl PositionalEmbedding {
    /// A `[max_len, dim]` table initialised with small noise.
    pub fn new(s: &mut Session, st: &mut Store, rng: &mut Rng, max_len: usize, dim: usize) -> (r:
        Self)
        ensures
            (init::ground(final(s)@, final(st)@, final(rng)@), r) == positional_of(
                init::ground(old(s)@, old(st)@, old(rng)@),
                max_len,
                dim,
            ),
    {
        let i = Initializer::Normal { mean: single::ZERO, std: FIFTIETH };
        PositionalEmbedding { weight: sow(s, st, rng, i, grid(max_len, dim)) }
    }

    /// The table.
    pub fn weight(&self) -> (r: &Param)
        ensures
            *r == self.weight,
    {
        &self.weight
    }

    /// Add positions `offset..offset + len` to `[batch, len, dim]`.
    pub fn add_to(&self, s: &mut Session, st: &Store, input: &Var, offset: usize) -> (r: Result<
        Var,
        Error,
    >)
        ensures
            flow::ran(
                r,
                final(s)@,
                st@,
                positioned_op(flow::world(old(s)@, st@), *self, input@, offset),
            ),
    {
        if input.rank() < 2 {
            return Err(
                Error::Rank { expected: 3, got: input.rank(), shape: copied(input.dims()) },
            );
        }
        let len: usize = input.shape().dim(1);
        let table = self.weight.var(s, st, input)?;
        if table.rank() == 0 {
            return Err(Error::Rank { expected: 2, got: 0, shape: copied(table.dims()) });
        }
        let piece = table.slice(s, 0, offset, len)?;
        let rows = piece.unsqueeze(s, 0)?;
        input.add(s, &rows)
    }
}

impl Module for PositionalEmbedding {
    open spec fn parts(&self) -> Seq<Listed> {
        module::leaf("weight"@, self.weight)
    }

    open spec fn hooks(&self) -> Seq<Part> {
        Seq::empty()
    }

    fn visit(&self, visitor: &mut ModuleVisitor) {
        visitor.param("weight", &self.weight);
    }

    fn own_hooks(&self) -> Vec<Part> {
        Vec::new()
    }
}

} // verus!
