//! What layers remember: weights, dropout counters and observed ranges.
//!
//! A layer is plain data that names its entries here. Two layers that name the same
//! entry share it, so an optimizer can update weights through a flat list of
//! parameters, and a weight can be tied or frozen without touching the model tree.

use vstd::prelude::*;

use crate::autograd::graph::ParamId;
use crate::error::{Error, Fault};
use crate::ledger::Ledger;
use crate::tensor::{Tensor, Value};

verus! {

/// A weight: its value and whether it wants a gradient.
pub struct Weight {
    pub value: Tensor,
    pub trainable: bool,
}

/// A weight as a mathematical value.
pub struct Held {
    pub value: Value,
    pub trainable: bool,
}

impl View for Weight {
    type V = Held;

    open spec fn view(&self) -> Held {
        Held { value: self.value@, trainable: self.trainable }
    }
}

/// What a dropout layer remembers: how many masks it has drawn, and its mode.
#[derive(Clone, Copy)]
pub struct Drops {
    pub step: u64,
    pub training: bool,
}

/// An observed range: two single values.
pub struct Range {
    lo: Tensor,
    hi: Tensor,
}

impl Range {
    #[verifier::type_invariant]
    pub(crate) closed spec fn single(self) -> bool {
        self.lo@.dims == Seq::<usize>::empty() && self.hi@.dims == Seq::<usize>::empty()
    }

    pub closed spec fn low(self) -> Value {
        self.lo@
    }

    pub closed spec fn high(self) -> Value {
        self.hi@
    }

    /// A range between two single values.
    pub fn new(lo: Tensor, hi: Tensor) -> (r: Self)
        requires
            lo@.dims == Seq::<usize>::empty(),
            hi@.dims == Seq::<usize>::empty(),
        ensures
            r.low() == lo@,
            r.high() == hi@,
    {
        Range { lo, hi }
    }

    /// The lower end.
    pub fn lo(&self) -> (r: &Tensor)
        ensures
            r@ == self.low(),
            r@.dims == Seq::<usize>::empty(),
    {
        proof {
            use_type_invariant(self);
        }
        &self.lo
    }

    /// The upper end.
    pub fn hi(&self) -> (r: &Tensor)
        ensures
            r@ == self.high(),
            r@.dims == Seq::<usize>::empty(),
    {
        proof {
            use_type_invariant(self);
        }
        &self.hi
    }
}

/// What a quantizer remembers: the range it has observed, whether it is applied, and
/// its mode.
pub struct Gauge {
    pub range: Option<Range>,
    pub enabled: bool,
    pub training: bool,
}

/// What a quantizer remembers, as a mathematical value.
pub struct Gauged {
    pub range: Option<(Value, Value)>,
    pub enabled: bool,
    pub training: bool,
}

pub open spec fn range_value(r: Option<Range>) -> Option<(Value, Value)> {
    match r {
        Some(x) => Some((x.low(), x.high())),
        None => None,
    }
}

impl View for Gauge {
    type V = Gauged;

    open spec fn view(&self) -> Gauged {
        Gauged {
            range: range_value(self.range),
            enabled: self.enabled,
            training: self.training,
        }
    }
}

pub(crate) fn copied_range(r: &Option<Range>) -> (c: Option<Range>)
    ensures
        range_value(c) == range_value(*r),
{
    match r {
        Some(x) => Some(Range::new(x.lo().clone(), x.hi().clone())),
        None => None,
    }
}

/// Everything the layers of a program remember.
pub struct Store {
    weights: Ledger<Weight>,
    drops: Ledger<Drops>,
    gauges: Ledger<Gauge>,
    next: u64,
}

/// A store as a mathematical value.
pub struct Stored {
    pub weights: Map<u64, Held>,
    pub drops: Map<u64, Drops>,
    pub gauges: Map<u64, Gauged>,
    pub next: u64,
}

pub open spec fn held(m: Map<u64, Weight>) -> Map<u64, Held> {
    m.map_values(|w: Weight| w@)
}

pub open spec fn gauged(m: Map<u64, Gauge>) -> Map<u64, Gauged> {
    m.map_values(|g: Gauge| g@)
}

impl View for Store {
    type V = Stored;

    closed spec fn view(&self) -> Stored {
        Stored {
            weights: held(self.weights@),
            drops: self.drops@,
            gauges: gauged(self.gauges@),
            next: self.next,
        }
    }
}

impl Stored {
    /// A weight put under a parameter id.
    pub open spec fn with_weight(self, id: u64, w: Held) -> Stored {
        Stored { weights: self.weights.insert(id, w), ..self }
    }

    /// A parameter with its value replaced.
    pub open spec fn with_value(self, id: u64, v: Value) -> Stored {
        if self.weights.contains_key(id) {
            self.with_weight(id, Held { value: v, ..self.weights[id] })
        } else {
            self
        }
    }

    /// A parameter frozen or unfrozen.
    pub open spec fn with_flag(self, id: u64, flag: bool) -> Stored {
        if self.weights.contains_key(id) {
            self.with_weight(id, Held { trainable: flag, ..self.weights[id] })
        } else {
            self
        }
    }

    pub open spec fn with_drops(self, id: u64, d: Drops) -> Stored {
        Stored { drops: self.drops.insert(id, d), ..self }
    }

    pub open spec fn with_gauge(self, id: u64, g: Gauged) -> Stored {
        Stored { gauges: self.gauges.insert(id, g), ..self }
    }

    /// The store after its counter has handed out an id.
    pub open spec fn counted(self) -> Stored {
        Stored { next: crate::autograd::graph::following(self.next), ..self }
    }
}

impl Store {
    /// A store that remembers nothing.
    pub fn new() -> (r: Self)
        ensures
            r@ == (Stored {
                weights: Map::empty(),
                drops: Map::empty(),
                gauges: Map::empty(),
                next: 1,
            }),
    {
        let r = Store {
            weights: Ledger::new(),
            drops: Ledger::new(),
            gauges: Ledger::new(),
            next: 1,
        };
        proof {
            assert(held(r.weights@) =~= Map::empty());
            assert(gauged(r.gauges@) =~= Map::empty());
        }
        r
    }

    /// The weight under a parameter id.
    pub fn weight(&self, id: ParamId) -> (r: Option<&Weight>)
        ensures
            match r {
                Some(w) => self@.weights.contains_key(id.id()) && w@ == self@.weights[id.id()],
                None => !self@.weights.contains_key(id.id()),
            },
    {
        self.weights.get(id.raw())
    }

    /// Put a weight under a parameter id.
    pub fn put_weight(&mut self, id: ParamId, w: Weight)
        ensures
            final(self)@ == old(self)@.with_weight(id.id(), w@),
    {
        let ghost before = self.weights@;
        self.weights.insert(id.raw(), w);
        proof {
            assert(held(self.weights@) =~= held(before).insert(id.id(), w@));
        }
    }

    /// What a dropout layer remembers.
    pub fn drops(&self, id: u64) -> (r: Option<Drops>)
        ensures
            match r {
                Some(d) => self@.drops.contains_key(id) && d == self@.drops[id],
                None => !self@.drops.contains_key(id),
            },
    {
        match self.drops.get(id) {
            Some(d) => Some(*d),
            None => None,
        }
    }

    pub fn put_drops(&mut self, id: u64, d: Drops)
        ensures
            final(self)@ == old(self)@.with_drops(id, d),
    {
        self.drops.insert(id, d);
    }

    /// What a quantizer remembers.
    pub fn gauge(&self, id: u64) -> (r: Option<&Gauge>)
        ensures
            match r {
                Some(g) => self@.gauges.contains_key(id) && g@ == self@.gauges[id],
                None => !self@.gauges.contains_key(id),
            },
    {
        self.gauges.get(id)
    }

    pub fn put_gauge(&mut self, id: u64, g: Gauge)
        ensures
            final(self)@ == old(self)@.with_gauge(id, g@),
    {
        let ghost before = self.gauges@;
        self.gauges.insert(id, g);
        proof {
            assert(gauged(self.gauges@) =~= gauged(before).insert(id, g@));
        }
    }

    /// An id no layer of this store has been given.
    pub fn fresh(&mut self) -> (r: u64)
        ensures
            r == old(self)@.next,
            final(self)@ == old(self)@.counted(),
    {
        let id: u64 = self.next;
        self.next = crate::autograd::graph::next_counter(id);
        id
    }
}

} // verus!
