//! Gradients produced by a backward pass.

use vstd::prelude::*;

use super::graph::{NodeId, ParamId};
use crate::error::{Error, Fault};
use crate::ledger::Ledger;
use crate::tensor;
use crate::tensor::{Tensor, Value};
use crate::term::{Binary, Scalar, Unary};

verus! {

/// Gradients as a mathematical value.
pub struct Gradients {
    pub params: Map<u64, Value>,
    pub nodes: Map<u64, Value>,
}

/// Gradients by parameter; and by node, when the pass was asked to keep them.
pub struct Grads {
    params: Ledger<Tensor>,
    nodes: Ledger<Tensor>,
}

/// The values of a map of tensors.
pub open spec fn valued(m: Map<u64, Tensor>) -> Map<u64, Value> {
    m.map_values(|t: Tensor| t@)
}

impl View for Grads {
    type V = Gradients;

    closed spec fn view(&self) -> Gradients {
        Gradients { params: valued(self.params@), nodes: valued(self.nodes@) }
    }
}

/// What a key holds after a value is added to it.
pub open spec fn summed(m: Map<u64, Value>, id: u64, v: Value) -> Result<Value, Fault> {
    if m.contains_key(id) {
        tensor::binary_of(Binary::Add, m[id], v)
    } else {
        Ok(v)
    }
}

/// A map with a value added under a key.
pub open spec fn add_to(m: Map<u64, Value>, id: u64, v: Value) -> Result<Map<u64, Value>, Fault> {
    match summed(m, id, v) {
        Ok(x) => Ok(m.insert(id, x)),
        Err(f) => Err(f),
    }
}

/// Two sets of gradients, summed where they overlap.
pub open spec fn merged(a: Map<u64, Value>, b: Map<u64, Value>) -> Map<u64, Value> {
    Map::new(
        |id: u64| a.contains_key(id) || b.contains_key(id),
        |id: u64|
            if b.contains_key(id) {
                summed(a, id, b[id])->Ok_0
            } else {
                a[id]
            },
    )
}

/// Whether every sum of a merge exists.
pub open spec fn mergeable(a: Map<u64, Value>, b: Map<u64, Value>) -> bool {
    forall|id: u64| #[trigger] b.contains_key(id) ==> summed(a, id, b[id]) is Ok
}

pub(crate) proof fn lemma_valued_insert(m: Map<u64, Tensor>, id: u64, t: Tensor)
    ensures
        valued(m.insert(id, t)) == valued(m).insert(id, t@),
{
    assert(valued(m.insert(id, t)) =~= valued(m).insert(id, t@));
}

pub(crate) proof fn lemma_valued_remove(m: Map<u64, Tensor>, id: u64)
    ensures
        valued(m.remove(id)) == valued(m).remove(id),
{
    assert(valued(m.remove(id)) =~= valued(m).remove(id));
}

/// Add a tensor to what a key holds. When the sum does not exist the key is left
/// empty.
pub(crate) fn add_into(m: &mut Ledger<Tensor>, id: u64, t: Tensor) -> (r: Result<(), Error>)
    ensures
        match (r, add_to(valued(old(m)@), id, t@)) {
            (Ok(_), Ok(n)) => valued(final(m)@) == n,
            (Err(e), Err(f)) => e@ == f && valued(final(m)@) == valued(old(m)@).remove(id),
            _ => false,
        },
{
    let ghost start = m@;
    match m.remove(id) {
        Some(existing) => {
            proof {
                lemma_valued_remove(start, id);
            }
            let sum = Tensor::binary(Binary::Add, &existing, &t)?;
            let ghost before = m@;
            m.insert(id, sum);
            proof {
                lemma_valued_insert(before, id, sum);
                assert(valued(start).remove(id).insert(id, sum@) =~= valued(start).insert(
                    id,
                    sum@,
                ));
            }
        },
        None => {
            let ghost before = m@;
            m.insert(id, t);
            proof {
                lemma_valued_remove(start, id);
                lemma_valued_insert(before, id, t);
                assert(valued(start).remove(id).insert(id, t@) =~= valued(start).insert(id, t@));
            }
        },
    }
    Ok(())
}

impl Grads {
    /// No gradients.
    pub fn new() -> (r: Self)
        ensures
            r@ == (Gradients { params: Map::empty(), nodes: Map::empty() }),
    {
        let r = Grads { params: Ledger::new(), nodes: Ledger::new() };
        proof {
            assert(r@.params =~= Map::<u64, Value>::empty());
            assert(r@.nodes =~= Map::<u64, Value>::empty());
        }
        r
    }

    pub(crate) fn from_parts(params: Ledger<Tensor>, nodes: Ledger<Tensor>) -> (r: Self)
        ensures
            r@ == (Gradients { params: valued(params@), nodes: valued(nodes@) }),
    {
        Grads { params, nodes }
    }

    /// The gradient of a parameter, if it participated in the traversed subgraph.
    pub fn get(&self, id: ParamId) -> (r: Option<&Tensor>)
        ensures
            match r {
                Some(t) => self@.params.contains_key(id.id()) && t@ == self@.params[id.id()],
                None => !self@.params.contains_key(id.id()),
            },
    {
        self.params.get(id.raw())
    }

    /// Take ownership of a parameter's gradient.
    pub fn take(&mut self, id: ParamId) -> (r: Option<Tensor>)
        ensures
            final(self)@ == (Gradients {
                params: old(self)@.params.remove(id.id()),
                ..old(self)@
            }),
            match r {
                Some(t) => old(self)@.params.contains_key(id.id()) && t@
                    == old(self)@.params[id.id()],
                None => !old(self)@.params.contains_key(id.id()),
            },
    {
        proof {
            lemma_valued_remove(self.params@, id.id());
        }
        self.params.remove(id.raw())
    }

    /// The gradient recorded for a node, when node gradients were retained.
    pub fn node(&self, id: NodeId) -> (r: Option<&Tensor>)
        ensures
            match r {
                Some(t) => self@.nodes.contains_key(id.id()) && t@ == self@.nodes[id.id()],
                None => !self@.nodes.contains_key(id.id()),
            },
    {
        self.nodes.get(id.raw())
    }

    /// The parameters that received a gradient, in ascending order of their ids.
    pub fn ids(&self) -> (r: Vec<u64>)
        ensures
            r@.to_set() == self@.params.dom(),
            forall|i: int, j: int| 0 <= i < j < r@.len() ==> r@[i] < r@[j],
    {
        let count: usize = self.params.len();
        let ghost all = self.params.keys();
        let mut out: Vec<u64> = Vec::with_capacity(count);
        let mut i: usize = 0;
        while i < count
            invariant
                i <= count,
                count == self.params.keys().len(),
                all == self.params.keys(),
                out@ == all.take(i as int),
            decreases count - i,
        {
            out.push(self.params.key_at(i));
            proof {
                assert(out@ =~= all.take(i as int + 1));
            }
            i += 1;
        }
        proof {
            assert(out@ =~= all);
            assert(self@.params.dom() =~= self.params@.dom());
        }
        out
    }

    /// Every parameter gradient, in ascending order of the parameter ids.
    pub fn iter(&self) -> (r: Vec<(u64, Tensor)>)
        ensures
            forall|i: int, j: int| 0 <= i < j < r@.len() ==> (#[trigger] r@[i]).0 < (
            #[trigger] r@[j]).0,
            forall|i: int|
                0 <= i < r@.len() ==> self@.params.contains_key((#[trigger] r@[i]).0)
                    && self@.params[r@[i].0] == r@[i].1@,
            forall|id: u64| #[trigger]
                self@.params.contains_key(id) ==> exists|i: int|
                    0 <= i < r@.len() && (#[trigger] r@[i]).0 == id,
    {
        let count: usize = self.params.len();
        let ghost all = self.params.keys();
        let mut out: Vec<(u64, Tensor)> = Vec::with_capacity(count);
        let mut i: usize = 0;
        while i < count
            invariant
                i <= count,
                count == self.params.keys().len(),
                all == self.params.keys(),
                out@.len() == i,
                forall|j: int|
                    0 <= j < i ==> (#[trigger] out@[j]).0 == all[j] && self@.params.contains_key(
                        all[j],
                    ) && self@.params[all[j]] == out@[j].1@,
            decreases count - i,
        {
            let k: u64 = self.params.key_at(i);
            let t = self.params.entry_at(i).clone();
            proof {
                assert(self@.params.contains_key(k));
                assert(self@.params[k] == t@);
            }
            out.push((k, t));
            i += 1;
        }
        proof {
            assert forall|id: u64| #[trigger] self@.params.contains_key(id) implies exists|i: int|
                0 <= i < out@.len() && (#[trigger] out@[i]).0 == id by {
                assert(self.params@.dom().contains(id));
                assert(all.to_set().contains(id));
                let j = choose|j: int| 0 <= j < all.len() && all[j] == id;
                assert(out@[j].0 == id);
            }
        }
        out
    }

    /// Number of parameters that received a gradient.
    pub fn len(&self) -> (r: usize)
        ensures
            r == self@.params.dom().len(),
    {
        let n: usize = self.params.len();
        proof {
            self.params.keys().unique_seq_to_set();
            assert(self@.params.dom() =~= self.params@.dom());
        }
        n
    }

    /// Whether no gradient was produced.
    pub fn is_empty(&self) -> (r: bool)
        ensures
            r == (self@.params == Map::<u64, Value>::empty()),
    {
        let n: usize = self.params.len();
        proof {
            assert(self@.params.dom() =~= self.params@.dom());
            if n == 0 {
                assert forall|id: u64| !self@.params.dom().contains(id) by {
                    if self@.params.dom().contains(id) {
                        assert(self.params.keys().to_set().contains(id));
                    }
                }
                assert(self@.params =~= Map::<u64, Value>::empty());
            } else {
                assert(self.params.keys().to_set().contains(self.params.keys()[0]));
                assert(self@.params.dom().contains(self.params.keys()[0]));
            }
        }
        n == 0
    }

    /// Insert or accumulate a parameter gradient. A sum that does not exist leaves
    /// the parameter without a gradient.
    pub fn accumulate(&mut self, id: ParamId, grad: Tensor) -> (r: Result<(), Error>)
        ensures
            final(self)@.nodes == old(self)@.nodes,
            match (r, add_to(old(self)@.params, id.id(), grad@)) {
                (Ok(_), Ok(n)) => final(self)@.params == n,
                (Err(e), Err(f)) => e@ == f && final(self)@.params == old(self)@.params.remove(
                    id.id(),
                ),
                _ => false,
            },
    {
        add_into(&mut self.params, id.raw(), grad)
    }

    pub(crate) fn set_node(&mut self, id: NodeId, grad: Tensor)
        ensures
            final(self)@ == (Gradients {
                nodes: old(self)@.nodes.insert(id.id(), grad@),
                ..old(self)@
            }),
    {
        proof {
            lemma_valued_insert(self.nodes@, id.id(), grad);
        }
        self.nodes.insert(id.raw(), grad);
    }

    /// Merge another set of gradients into this one, summing where they overlap.
    pub fn merge(&mut self, other: Grads) -> (r: Result<(), Error>)
        ensures
            final(self)@.nodes == old(self)@.nodes,
            match r {
                Ok(_) => mergeable(old(self)@.params, other@.params) && final(self)@.params
                    == merged(old(self)@.params, other@.params),
                Err(e) => exists|id: u64| #[trigger]
                    other@.params.contains_key(id) && summed(
                        old(self)@.params,
                        id,
                        other@.params[id],
                    ) == Err::<Value, Fault>(e@),
            },
    {
        let ghost start = self@.params;
        let ghost add = other@.params;
        let count: usize = other.params.len();
        let ghost all = other.params.keys();
        proof {
            assert(add.dom() =~= other.params@.dom());
        }
        let mut i: usize = 0;
        while i < count
            invariant
                i <= count,
                count == all.len(),
                all == other.params.keys(),
                all.no_duplicates(),
                all.to_set() == add.dom(),
                add == other@.params,
                start == old(self)@.params,
                self@.nodes == old(self)@.nodes,
                forall|id: u64|
                    #![trigger self@.params.dom().contains(id)]
                    self@.params.dom().contains(id) <==> (start.dom().contains(id) || all.take(
                        i as int,
                    ).contains(id)),
                forall|j: int|
                    0 <= j < i ==> summed(start, #[trigger] all[j], add[all[j]]) == Ok::<
                        Value,
                        Fault,
                    >(self@.params[all[j]]),
                forall|id: u64| #[trigger]
                    start.dom().contains(id) && !all.take(i as int).contains(id)
                        ==> self@.params[id] == start[id],
            decreases count - i,
        {
            let k: u64 = other.params.key_at(i);
            let t = other.params.entry_at(i).clone();
            let ghost before = self@.params;
            proof {
                assert(k == all[i as int]);
                assert(t@ == add[k]);
                assert(!all.take(i as int).contains(k)) by {
                    if all.take(i as int).contains(k) {
                        let j = choose|j: int| 0 <= j < i && all.take(i as int)[j] == k;
                        assert(all[j] == all[i as int]);
                    }
                }
                assert(before.contains_key(k) == start.contains_key(k));
                assert(before.contains_key(k) ==> before[k] == start[k]);
                assert(summed(before, k, t@) == summed(start, k, add[k]));
            }
            match add_into(&mut self.params, k, t) {
                Ok(_) => {},
                Err(e) => {
                    proof {
                        assert(all.to_set().contains(k));
                        assert(add.contains_key(k));
                    }
                    return Err(e);
                },
            }
            proof {
                let now = all.take(i as int + 1);
                assert forall|id: u64| now.contains(id) <==> (all.take(i as int).contains(id) || id
                    == k) by {
                    if now.contains(id) {
                        let j = choose|j: int| 0 <= j < now.len() && now[j] == id;
                        if j < i {
                            assert(all.take(i as int)[j] == id);
                        }
                    }
                    if all.take(i as int).contains(id) {
                        let j = choose|j: int| 0 <= j < i && all.take(i as int)[j] == id;
                        assert(now[j] == id);
                    }
                    assert(now[i as int] == k);
                }
                assert forall|j: int| 0 <= j < i + 1 implies summed(
                    start,
                    #[trigger] all[j],
                    add[all[j]],
                ) == Ok::<Value, Fault>(self@.params[all[j]]) by {
                    if j < i {
                        assert(all[j] != k);
                        assert(self@.params[all[j]] == before[all[j]]);
                    }
                }
            }
            i += 1;
        }
        proof {
            assert(all.take(count as int) =~= all);
            assert forall|id: u64| #[trigger] add.contains_key(id) implies summed(
                start,
                id,
                add[id],
            ) is Ok && self@.params[id] == summed(start, id, add[id])->Ok_0 by {
                assert(all.to_set().contains(id));
                let j = choose|j: int| 0 <= j < all.len() && all[j] == id;
                assert(summed(start, all[j], add[all[j]]) == Ok::<Value, Fault>(
                    self@.params[all[j]],
                ));
            }
            assert forall|id: u64| self@.params.dom().contains(id) <==> #[trigger] merged(
                start,
                add,
            ).dom().contains(id) by {
                if add.contains_key(id) {
                    assert(all.to_set().contains(id));
                    assert(all.contains(id));
                }
                if all.contains(id) {
                    assert(all.to_set().contains(id));
                }
                assert(self@.params.dom().contains(id) <==> (start.dom().contains(id)
                    || all.contains(id)));
            }
            assert forall|id: u64| #[trigger] self@.params.dom().contains(id) implies self@.params[id]
                == merged(start, add)[id] by {
                assert(merged(start, add).dom().contains(id));
                if !add.contains_key(id) {
                    if all.contains(id) {
                        assert(all.to_set().contains(id));
                    }
                }
            }
            assert(self@.params =~= merged(start, add));
        }
        Ok(())
    }

    /// Scale every gradient in place, e.g. to average across accumulation steps.
    /// The factor is a single-precision number given by its bit pattern.
    pub fn scale(&mut self, factor: u32)
        ensures
            final(self)@ == (Gradients {
                params: old(self)@.params.map_values(
                    |v: Value| tensor::unary_of(Unary::MulScalar(Scalar::Bits(factor)), v),
                ),
                ..old(self)@
            }),
    {
        let ghost start = self@.params;
        let ghost goal = start.map_values(
            |v: Value| tensor::unary_of(Unary::MulScalar(Scalar::Bits(factor)), v),
        );
        let count: usize = self.params.len();
        let ghost all = self.params.keys();
        proof {
            assert(start.dom() =~= self.params@.dom());
        }
        let mut scaled: Ledger<Tensor> = Ledger::new();
        let mut i: usize = 0;
        proof {
            assert(valued(scaled@) =~= Map::<u64, Value>::empty());
        }
        while i < count
            invariant
                i <= count,
                count == all.len(),
                all == self.params.keys(),
                all.no_duplicates(),
                all.to_set() == start.dom(),
                start == self@.params,
                self@ == old(self)@,
                goal == start.map_values(
                    |v: Value| tensor::unary_of(Unary::MulScalar(Scalar::Bits(factor)), v),
                ),
                forall|id: u64|
                    #![trigger valued(scaled@).dom().contains(id)]
                    valued(scaled@).dom().contains(id) <==> all.take(i as int).contains(id),
                forall|id: u64| #[trigger]
                    valued(scaled@).dom().contains(id) ==> valued(scaled@)[id] == goal[id],
            decreases count - i,
        {
            let k: u64 = self.params.key_at(i);
            let t = self.params.entry_at(i).unary(Unary::MulScalar(Scalar::Bits(factor)));
            let ghost before = scaled@;
            scaled.insert(k, t);
            proof {
                lemma_valued_insert(before, k, t);
                assert(goal[k] == t@);
                let now = all.take(i as int + 1);
                assert forall|id: u64| now.contains(id) <==> (all.take(i as int).contains(id) || id
                    == k) by {
                    if now.contains(id) {
                        let j = choose|j: int| 0 <= j < now.len() && now[j] == id;
                        if j < i {
                            assert(all.take(i as int)[j] == id);
                        }
                    }
                    if all.take(i as int).contains(id) {
                        let j = choose|j: int| 0 <= j < i && all.take(i as int)[j] == id;
                        assert(now[j] == id);
                    }
                    assert(now[i as int] == k);
                }
            }
            i += 1;
        }
        proof {
            assert(all.take(count as int) =~= all);
            assert forall|id: u64| valued(scaled@).dom().contains(id) <==> #[trigger] goal.dom().contains(
                id) by {
                if goal.dom().contains(id) {
                    assert(all.to_set().contains(id));
                    assert(all.contains(id));
                }
                if all.contains(id) {
                    assert(all.to_set().contains(id));
                }
                assert(valued(scaled@).dom().contains(id) <==> all.contains(id));
            }
            assert(valued(scaled@) =~= goal);
        }
        self.params = scaled;
    }
}

} // verus!
