//! Decoding state of a whole model.

use vstd::prelude::*;

use crate::models::hybrid;
use crate::models::hybrid::{LayerCache, Slot};
use crate::models::lm::Mamba3Lm;

verus! {

/// Per-layer decoding state for a whole model.
pub struct StateCache {
    layers: Vec<LayerCache>,
    position: usize,
}

/// Decoding state as a mathematical value.
pub struct Memory {
    pub slots: Seq<Slot>,
    pub position: usize,
}

impl View for StateCache {
    type V = Memory;

    closed spec fn view(&self) -> Memory {
        Memory { slots: hybrid::slots(self.layers@), position: self.position }
    }
}

impl StateCache {
    /// A zeroed cache for `batch` sequences.
    pub fn new(model: &Mamba3Lm, batch: usize) -> (r: Self)
        ensures
            r@ == (Memory { slots: hybrid::empty_of(model@.layers, batch), position: 0 }),
    {
        StateCache { layers: model.empty_cache(batch), position: 0 }
    }

    /// Number of tokens consumed so far.
    pub fn position(&self) -> (r: usize)
        ensures
            r == self@.position,
    {
        self.position
    }

    /// Mutable access to the per-layer entries.
    pub fn layers_mut(&mut self) -> (r: &mut Vec<LayerCache>)
        ensures
            hybrid::slots(r@) == old(self)@.slots,
            final(self)@ == (Memory {
                slots: hybrid::slots(final(r)@),
                position: old(self)@.position,
            }),
    {
        &mut self.layers
    }

    /// Advance the position counter.
    pub(crate) fn advance(&mut self, tokens: usize)
        requires
            old(self)@.position + tokens <= usize::MAX,
        ensures
            final(self)@ == (Memory {
                position: (old(self)@.position + tokens) as usize,
                ..old(self)@
            }),
    {
        self.position = self.position + tokens;
    }
}

} // verus!
