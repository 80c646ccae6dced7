//! `Var`: a tensor that may be recorded on a tape.
//!
//! A `Var` with no tape is exactly as cheap as the tensor it wraps, which is why
//! inference and training share a single code path.

use vstd::prelude::*;

use super::grads;
use super::grads::{Gradients, Grads, add_into};
use super::graph;
use super::graph::{Entry, Graph, NodeId, ParamId, Session, Tape};
use super::rule;
use super::rule::{Adjoint, Rule, RuleOf, apply};
use crate::error::{Error, Fault};
use crate::ledger::Ledger;
use crate::shape::Shape;
use crate::tensor;
use crate::tensor::{Tensor, Value};
use crate::term::{Binary, Scalar};

verus! {

/// Where a value sits on a tape.
#[derive(Clone, Copy)]
pub struct Trace {
    graph: Graph,
    node: NodeId,
}

/// Where a value sits on a tape, as a mathematical value.
pub struct Place {
    pub graph: u64,
    pub node: u64,
}

impl View for Trace {
    type V = Place;

    closed spec fn view(&self) -> Place {
        Place { graph: self.graph.handle(), node: self.node.id() }
    }
}

pub open spec fn place(t: Option<Trace>) -> Option<Place> {
    match t {
        Some(x) => Some(x@),
        None => None,
    }
}

pub open spec fn places(s: Seq<Option<Trace>>) -> Seq<Option<Place>> {
    s.map_values(|t: Option<Trace>| place(t))
}

/// A tensor plus optional autodiff bookkeeping.
pub struct Var {
    value: Tensor,
    trace: Option<Trace>,
}

/// A possibly tracked tensor as a mathematical value.
pub struct Traced {
    pub value: Value,
    pub trace: Option<Place>,
}

impl View for Var {
    type V = Traced;

    closed spec fn view(&self) -> Traced {
        Traced { value: self.value@, trace: place(self.trace) }
    }
}

impl Clone for Var {
    fn clone(&self) -> (r: Self)
        ensures
            r@ == self@,
    {
        Var { value: self.value.clone(), trace: self.trace }
    }
}

// -- recording -------------------------------------------------------------------

/// The tape of the first operand that is on one.
pub open spec fn first_graph(parents: Seq<Option<Place>>) -> Option<u64>
    decreases parents.len(),
{
    if parents.len() == 0 {
        None
    } else {
        match parents[0] {
            Some(p) => Some(p.graph),
            None => first_graph(parents.drop_first()),
        }
    }
}

/// The tapes of the first `n` operands folded into one.
pub open spec fn gathered(t: Tape, g: u64, parents: Seq<Option<Place>>, n: nat) -> Tape
    decreases n,
{
    if n == 0 {
        t
    } else {
        let before = gathered(t, g, parents, (n - 1) as nat);
        match parents[n - 1] {
            Some(p) => before.absorbed(g, p.graph),
            None => before,
        }
    }
}

/// The node ids of the first `n` operands. An operand that is not tracked still
/// occupies a slot, as a leaf whose gradient nobody reads.
pub open spec fn seated(t: Tape, g: u64, parents: Seq<Option<Place>>, n: nat) -> (Tape, Seq<u64>)
    decreases n,
{
    if n == 0 {
        (t, Seq::empty())
    } else {
        let (before, ids) = seated(t, g, parents, (n - 1) as nat);
        match parents[n - 1] {
            Some(p) => (before, ids.push(p.node)),
            None => (before.with_node(graph::leaf(g, None)), ids.push(before.next_node)),
        }
    }
}

/// An operation put on the tape: nothing happens when tracking is off or no operand
/// is tracked.
#[verifier::opaque]
pub open spec fn record(
    t: Tape,
    value: Value,
    parents: Seq<Option<Place>>,
    rule: Adjoint,
) -> (Tape, Traced) {
    match first_graph(parents) {
        Some(g) if t.enabled => {
            let joined = gathered(t, g, parents, parents.len());
            let (seats, ids) = seated(joined, g, parents, parents.len());
            (
                seats.with_node(Entry { graph: g, parents: ids, rule, param: None }),
                Traced { value, trace: Some(Place { graph: g, node: seats.next_node }) },
            )
        },
        _ => (t, Traced { value, trace: None }),
    }
}

/// Recording keeps the value.
pub broadcast proof fn lemma_record_value(
    t: Tape,
    value: Value,
    parents: Seq<Option<Place>>,
    rule: Adjoint,
)
    ensures
        (#[trigger] record(t, value, parents, rule)).1.value == value,
{
    reveal(record);
}

/// An operation that may fail before anything is recorded.
pub open spec fn recorded(
    t: Tape,
    value: Result<Value, Fault>,
    parents: Seq<Option<Place>>,
    rule: Adjoint,
) -> Result<(Tape, Traced), Fault> {
    match value {
        Ok(v) => Ok(record(t, v, parents, rule)),
        Err(f) => Err(f),
    }
}

/// Whether a fallible operation on a session did what a mathematical one says. A
/// failure leaves the session as it was.
pub open spec fn did(
    r: Result<Var, Error>,
    before: Tape,
    after: Tape,
    want: Result<(Tape, Traced), Fault>,
) -> bool {
    match (r, want) {
        (Ok(v), Ok((t, x))) => v@ == x && after == t,
        (Err(e), Err(f)) => e@ == f && after == before,
        _ => false,
    }
}

fn leading_graph(parents: &Vec<Option<Trace>>) -> (r: Option<Graph>)
    ensures
        match r {
            Some(g) => first_graph(places(parents@)) == Some(g.handle()),
            None => first_graph(places(parents@)) is None,
        },
{
    let ghost all = places(parents@);
    let mut i: usize = 0;
    proof {
        assert(all.skip(0) =~= all);
    }
    while i < parents.len()
        invariant
            i <= parents.len(),
            all == places(parents@),
            first_graph(all) == first_graph(all.skip(i as int)),
        decreases parents.len() - i,
    {
        proof {
            assert(all.skip(i as int)[0] == place(parents@[i as int]));
            assert(all.skip(i as int).drop_first() =~= all.skip(i as int + 1));
        }
        if let Some(t) = parents[i] {
            return Some(t.graph);
        }
        i += 1;
    }
    None
}

impl Var {
    /// Wrap a tensor without recording it. Gradients will not flow through it.
    pub fn constant(value: Tensor) -> (r: Self)
        ensures
            r@ == (Traced { value: value@, trace: None }),
    {
        Var { value, trace: None }
    }

    /// Wrap a tensor as a fresh tracked leaf on its own tape.
    pub fn traced(s: &mut Session, value: Tensor) -> (r: Self)
        ensures
            r@ == (Traced {
                value: value@,
                trace: Some(Place { graph: old(s)@.next_graph, node: old(s)@.next_node }),
            }),
            final(s)@ == (Tape {
                next_graph: graph::following(old(s)@.next_graph),
                ..old(s)@
            }).with_node(graph::leaf(old(s)@.next_graph, None)),
    {
        let graph = Graph::new(s);
        let node = s.push_leaf(graph, None);
        Var { value, trace: Some(Trace { graph, node }) }
    }

    /// Wrap a tensor as a tracked parameter leaf on an existing tape.
    pub(crate) fn param_leaf(s: &mut Session, value: Tensor, graph: Graph, id: ParamId) -> (r: Self)
        ensures
            r@ == (Traced {
                value: value@,
                trace: Some(Place { graph: graph.handle(), node: old(s)@.next_node }),
            }),
            final(s)@ == old(s)@.with_node(graph::leaf(graph.handle(), Some(id.id()))),
    {
        let node = s.push_leaf(graph, Some(id));
        Var { value, trace: Some(Trace { graph, node }) }
    }

    /// The underlying tensor.
    pub fn tensor(&self) -> (r: &Tensor)
        ensures
            r@ == self@.value,
    {
        &self.value
    }

    /// Consume the `Var`, returning the tensor.
    pub fn into_tensor(self) -> (r: Tensor)
        ensures
            r@ == self@.value,
    {
        self.value
    }

    /// Shape of the value.
    pub fn shape(&self) -> (r: &Shape)
        ensures
            r@ == self@.value.dims,
    {
        self.value.shape()
    }

    /// Dimensions of the value.
    pub fn dims(&self) -> (r: &Vec<usize>)
        ensures
            r@ == self@.value.dims,
    {
        self.value.dims()
    }

    /// Rank of the value.
    pub fn rank(&self) -> (r: usize)
        ensures
            r == self@.value.dims.len(),
    {
        self.value.rank()
    }

    /// Whether this value is recorded on a tape.
    pub fn is_tracked(&self) -> (r: bool)
        ensures
            r == (self@.trace is Some),
    {
        self.trace.is_some()
    }

    /// Drop the tape link, keeping the value. Gradients stop here.
    pub fn detach(&self) -> (r: Self)
        ensures
            r@ == (Traced { value: self@.value, trace: None }),
    {
        Var { value: self.value.clone(), trace: None }
    }

    /// The tape this value belongs to, if any.
    pub(crate) fn graph(&self) -> (r: Option<Graph>)
        ensures
            match r {
                Some(g) => self@.trace is Some && self@.trace->0.graph == g.handle(),
                None => self@.trace is None,
            },
    {
        match self.trace {
            Some(t) => Some(t.graph),
            None => None,
        }
    }

    /// This value's node id, if tracked.
    pub fn node(&self) -> (r: Option<NodeId>)
        ensures
            match r {
                Some(n) => self@.trace is Some && self@.trace->0.node == n.id(),
                None => self@.trace is None,
            },
    {
        match self.trace {
            Some(t) => Some(t.node),
            None => None,
        }
    }

    /// Where this value sits on a tape.
    pub(crate) fn trace(&self) -> (r: Option<Trace>)
        ensures
            place(r) == self@.trace,
    {
        self.trace
    }

    /// Record an op with the given operands.
    ///
    /// If none of the operands are tracked, or tracking is off, the result is a plain
    /// constant: that is the inference fast path. Otherwise every operand's tape is
    /// folded into the first one's so that a single traversal sees everything.
    pub(crate) fn record(
        s: &mut Session,
        value: Tensor,
        parents: &Vec<Option<Trace>>,
        rule: Rule,
    ) -> (r: Self)
        ensures
            (final(s)@, r@) == record(
                old(s)@,
                value@,
                places(parents@),
                rule::adjoint(rule),
            ),
    {
        reveal(record);
        if !s.enabled() {
            return Var::constant(value);
        }
        let graph = match leading_graph(parents) {
            Some(g) => g,
            None => {
                return Var::constant(value);
            },
        };
        let ghost start = s@;
        let ghost all = places(parents@);
        let ghost g = graph.handle();
        let mut i: usize = 0;
        while i < parents.len()
            invariant
                i <= parents.len(),
                all == places(parents@),
                g == graph.handle(),
                s@ == gathered(start, g, all, i as nat),
            decreases parents.len() - i,
        {
            proof {
                assert(all[i as int] == place(parents@[i as int]));
            }
            if let Some(t) = parents[i] {
                s.absorb(graph, t.graph);
            }
            i += 1;
        }
        let ghost joined = s@;
        let mut ids: Vec<NodeId> = Vec::with_capacity(parents.len());
        let mut k: usize = 0;
        proof {
            assert(graph::raw_ids(ids@) =~= Seq::<u64>::empty());
        }
        while k < parents.len()
            invariant
                k <= parents.len(),
                all == places(parents@),
                g == graph.handle(),
                (s@, graph::raw_ids(ids@)) == seated(joined, g, all, k as nat),
            decreases parents.len() - k,
        {
            proof {
                assert(all[k as int] == place(parents@[k as int]));
            }
            let ghost before = graph::raw_ids(ids@);
            let id = match parents[k] {
                Some(t) => t.node,
                None => s.push_leaf(graph, None),
            };
            ids.push(id);
            proof {
                assert(graph::raw_ids(ids@) =~= before.push(id.id()));
            }
            k += 1;
        }
        let node = s.push(graph, ids, rule);
        Var { value, trace: Some(Trace { graph, node }) }
    }
}

/// What an operation leaves untouched: the mode, and the other counters.
pub proof fn lemma_record_frame(
    t: Tape,
    value: Value,
    parents: Seq<Option<Place>>,
    rule: Adjoint,
)
    ensures
        record(t, value, parents, rule).0.enabled == t.enabled,
        record(t, value, parents, rule).0.next_param == t.next_param,
        record(t, value, parents, rule).0.next_graph == t.next_graph,
        record(t, value, parents, rule).1.value == value,
        record(t, value, parents, rule).1.trace is Some <==> t.enabled && first_graph(
            parents,
        ) is Some,
{
    reveal(record);
    match first_graph(parents) {
        Some(g) if t.enabled => {
            lemma_gathered_frame(t, g, parents, parents.len());
            lemma_seated_frame(gathered(t, g, parents, parents.len()), g, parents, parents.len());
        },
        _ => {},
    }
}

proof fn lemma_gathered_frame(t: Tape, g: u64, parents: Seq<Option<Place>>, n: nat)
    ensures
        gathered(t, g, parents, n) == (Tape { nodes: gathered(t, g, parents, n).nodes, ..t }),
        t.ordered() ==> gathered(t, g, parents, n).ordered(),
    decreases n,
{
    if n > 0 {
        lemma_gathered_frame(t, g, parents, (n - 1) as nat);
        match parents[n - 1] {
            Some(p) => {
                graph::law_absorb_keeps_nodes(
                    gathered(t, g, parents, (n - 1) as nat),
                    g,
                    p.graph,
                );
            },
            None => {},
        }
    }
}

proof fn lemma_seated_frame(t: Tape, g: u64, parents: Seq<Option<Place>>, n: nat)
    ensures
        seated(t, g, parents, n).0.enabled == t.enabled,
        seated(t, g, parents, n).0.next_param == t.next_param,
        seated(t, g, parents, n).0.next_graph == t.next_graph,
        seated(t, g, parents, n).1.len() == n,
    decreases n,
{
    if n > 0 {
        lemma_seated_frame(t, g, parents, (n - 1) as nat);
    }
}

proof fn lemma_seated_order(t: Tape, g: u64, parents: Seq<Option<Place>>, n: nat)
    requires
        t.ordered(),
        n <= parents.len(),
        t.next_node + n < u64::MAX,
        forall|k: int|
            0 <= k < parents.len() && (#[trigger] parents[k]) is Some ==> parents[k]->0.node
                < t.next_node,
    ensures
        seated(t, g, parents, n).0.ordered(),
        t.next_node <= seated(t, g, parents, n).0.next_node <= t.next_node + n,
        seated(t, g, parents, n).1.len() == n,
        forall|k: int|
            0 <= k < n ==> (#[trigger] seated(t, g, parents, n).1[k]) < seated(
                t,
                g,
                parents,
                n,
            ).0.next_node,
    decreases n,
{
    if n > 0 {
        lemma_seated_order(t, g, parents, (n - 1) as nat);
        let (before, ids) = seated(t, g, parents, (n - 1) as nat);
        match parents[n - 1] {
            Some(p) => {
                assert(parents[n - 1]->0.node < t.next_node);
            },
            None => {
                graph::law_push_keeps_order(before, graph::leaf(g, None));
            },
        }
    }
}

/// Recording keeps ids in creation order: every node reads only nodes with smaller
/// ids, so that descending ids are a reverse topological order.
pub proof fn law_record_keeps_order(
    t: Tape,
    value: Value,
    parents: Seq<Option<Place>>,
    rule: Adjoint,
)
    requires
        t.ordered(),
        t.next_node + parents.len() + 1 < u64::MAX,
        forall|k: int|
            0 <= k < parents.len() && (#[trigger] parents[k]) is Some ==> parents[k]->0.node
                < t.next_node,
    ensures
        record(t, value, parents, rule).0.ordered(),
        t.next_node <= record(t, value, parents, rule).0.next_node,
{
    reveal(record);
    match first_graph(parents) {
        Some(g) if t.enabled => {
            lemma_gathered_frame(t, g, parents, parents.len());
            let joined = gathered(t, g, parents, parents.len());
            lemma_seated_order(joined, g, parents, parents.len());
            let (seats, ids) = seated(joined, g, parents, parents.len());
            graph::law_push_keeps_order(
                seats,
                Entry { graph: g, parents: ids, rule, param: None },
            );
        },
        _ => {},
    }
}

/// With tracking off, or with no tracked operand, nothing is recorded.
pub proof fn law_untracked_is_free(
    t: Tape,
    value: Value,
    parents: Seq<Option<Place>>,
    rule: Adjoint,
)
    requires
        !t.enabled || forall|k: int| 0 <= k < parents.len() ==> (#[trigger] parents[k]) is None,
    ensures
        record(t, value, parents, rule) == (t, (Traced { value, trace: None })),
{
    reveal(record);
    if t.enabled {
        lemma_no_graph(parents);
    }
}

proof fn lemma_no_graph(parents: Seq<Option<Place>>)
    requires
        forall|k: int| 0 <= k < parents.len() ==> (#[trigger] parents[k]) is None,
    ensures
        first_graph(parents) is None,
    decreases parents.len(),
{
    if parents.len() > 0 {
        assert forall|k: int| 0 <= k < parents.drop_first().len() implies (
        #[trigger] parents.drop_first()[k]) is None by {
            assert(parents.drop_first()[k] == parents[k + 1]);
        }
        lemma_no_graph(parents.drop_first());
    }
}

} // verus!
