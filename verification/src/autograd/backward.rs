//! The backward walk.
//!
//! Ids increase with creation order, so walking them downwards visits every
//! consumer of a value before the value itself: by the time a node is visited, its
//! gradient is complete.

use vstd::prelude::*;

use super::grads;
use super::grads::{Gradients, Grads, add_into, lemma_valued_insert, lemma_valued_remove};
use super::graph;
use super::graph::{Entry, Graph, NodeId, Session, Tape};
use super::rule;
use super::rule::{Rule, RuleOf, apply};
use super::var::{Traced, Var};
use crate::error::{Error, Fault};
use crate::ledger::Ledger;
use crate::tensor;
use crate::tensor::{Tensor, Value};
use crate::term::Scalar;

verus! {

/// What a walk has gathered: gradients waiting at nodes not visited yet, parameter
/// gradients, kept node gradients, and the bands that pieces of a split left for
/// their source.
pub struct Flow {
    pub pending: Map<u64, Value>,
    pub params: Map<u64, Value>,
    pub kept: Map<u64, Value>,
    pub stash: Map<u64, Seq<Option<Value>>>,
}

/// One more than the largest id.
pub open spec fn top() -> int {
    u64::MAX + 1
}

/// Gradients handed to the first `k` operands.
pub open spec fn deliver(
    pending: Map<u64, Value>,
    parents: Seq<u64>,
    gradients: Seq<Option<Value>>,
    k: nat,
) -> Result<Map<u64, Value>, Fault>
    decreases k,
{
    if k == 0 {
        Ok(pending)
    } else {
        match deliver(pending, parents, gradients, (k - 1) as nat) {
            Err(f) => Err(f),
            Ok(m) => match gradients[k - 1] {
                None => Ok(m),
                Some(v) => grads::add_to(m, parents[k - 1], v),
            },
        }
    }
}

/// How many operands a rule's gradients reach.
pub open spec fn reached(parents: Seq<u64>, gradients: Seq<Option<Value>>) -> nat {
    if parents.len() <= gradients.len() {
        parents.len()
    } else {
        gradients.len()
    }
}

/// The bands left for a split so far.
pub open spec fn bands_at(stash: Map<u64, Seq<Option<Value>>>, id: u64, count: nat) -> Seq<
    Option<Value>,
> {
    if stash.contains_key(id) {
        stash[id]
    } else {
        Seq::new(count, |i: int| None)
    }
}

/// What a piece of a split leaves for its source.
pub open spec fn stashed(
    stash: Map<u64, Seq<Option<Value>>>,
    e: Entry,
    g: Value,
) -> Map<u64, Seq<Option<Value>>> {
    match e.rule {
        RuleOf::SplitPiece(i, n) => {
            let bands = bands_at(stash, e.parents[0], n as nat);
            stash.insert(
                e.parents[0],
                if i < bands.len() {
                    bands.update(i as int, Some(g))
                } else {
                    bands
                },
            )
        },
        _ => stash,
    }
}

/// Visit one node: its gradient is complete, so it goes to the parameter it stands
/// for and through its rule to its operands.
pub open spec fn visit(e: Entry, id: u64, retain: bool, f: Flow) -> Result<Flow, Fault> {
    if !f.pending.contains_key(id) {
        Ok(f)
    } else {
        let g = f.pending[id];
        let pending = f.pending.remove(id);
        let params = match e.param {
            Some(p) => grads::add_to(f.params, p, g),
            None => Ok(f.params),
        };
        match params {
            Err(x) => Err(x),
            Ok(params) => {
                let kept = if retain {
                    f.kept.insert(id, g)
                } else {
                    f.kept
                };
                if e.parents.len() == 0 {
                    Ok(Flow { pending, params, kept, stash: f.stash })
                } else {
                    let stash = stashed(f.stash, e, g);
                    match rule::pullback(e.rule, g, bands_at(stash, id, 0)) {
                        Err(x) => Err(x),
                        Ok(gradients) => match deliver(
                            pending,
                            e.parents,
                            gradients,
                            reached(e.parents, gradients),
                        ) {
                            Err(x) => Err(x),
                            Ok(pending) => Ok(
                                Flow { pending, params, kept, stash: stash.remove(id) },
                            ),
                        },
                    }
                }
            },
        }
    }
}

/// What a walk has gathered once every node of a tape with an id of at least `m` has
/// been visited, starting from a gradient `seed` at node `root`.
pub open spec fn after(
    t: Tape,
    graph: u64,
    root: u64,
    seed: Value,
    retain: bool,
    m: int,
) -> Result<Flow, Fault>
    decreases top() - m,
{
    if m >= top() || m < 0 {
        Ok(
            Flow {
                pending: Map::empty().insert(root, seed),
                params: Map::empty(),
                kept: Map::empty(),
                stash: Map::empty(),
            },
        )
    } else {
        match after(t, graph, root, seed, retain, m + 1) {
            Err(x) => Err(x),
            Ok(f) => if t.members(graph).contains(m as u64) {
                visit(t.nodes[m as u64], m as u64, retain, f)
            } else {
                Ok(f)
            },
        }
    }
}

/// The gradients of a tracked value with respect to everything it depends on.
pub open spec fn differentiated(t: Tape, v: Traced, retain: bool) -> Result<Gradients, Fault> {
    match v.trace {
        None => Err(Fault::Autodiff("backward() called on a value that is not tracked"@)),
        Some(p) => match after(
            t,
            p.graph,
            p.node,
            tensor::fill_of(Scalar::Int(1), v.value.dims),
            retain,
            0,
        ) {
            Err(x) => Err(x),
            Ok(f) => Ok(Gradients { params: f.params, nodes: f.kept }),
        },
    }
}

proof fn lemma_gap(
    t: Tape,
    graph: u64,
    root: u64,
    seed: Value,
    retain: bool,
    low: int,
    high: int,
)
    requires
        0 <= low <= high <= top(),
        forall|id: u64| low <= id < high ==> !(#[trigger] t.members(graph).contains(id)),
    ensures
        after(t, graph, root, seed, retain, low) == after(t, graph, root, seed, retain, high),
    decreases high - low,
{
    if low < high {
        lemma_gap(t, graph, root, seed, retain, low + 1, high);
        assert(!t.members(graph).contains(low as u64));
        match after(t, graph, root, seed, retain, low + 1) {
            Err(x) => {},
            Ok(f) => {},
        }
    }
}

proof fn lemma_failed(
    t: Tape,
    graph: u64,
    root: u64,
    seed: Value,
    retain: bool,
    low: int,
    high: int,
)
    requires
        0 <= low <= high <= top(),
        after(t, graph, root, seed, retain, high) is Err,
    ensures
        after(t, graph, root, seed, retain, low) == after(t, graph, root, seed, retain, high),
    decreases high - low,
{
    if low < high {
        lemma_failed(t, graph, root, seed, retain, low + 1, high);
    }
}

/// The bands of every split, as stored.
pub open spec fn stash_view(m: Map<u64, Vec<Option<Tensor>>>) -> Map<u64, Seq<Option<Value>>> {
    m.map_values(|v: Vec<Option<Tensor>>| rule::slots(v@))
}

/// A walk in progress.
struct Walk {
    pending: Ledger<Tensor>,
    params: Ledger<Tensor>,
    kept: Ledger<Tensor>,
    stash: Ledger<Vec<Option<Tensor>>>,
}

impl View for Walk {
    type V = Flow;

    closed spec fn view(&self) -> Flow {
        Flow {
            pending: grads::valued(self.pending@),
            params: grads::valued(self.params@),
            kept: grads::valued(self.kept@),
            stash: stash_view(self.stash@),
        }
    }
}

proof fn lemma_stash_insert(m: Map<u64, Vec<Option<Tensor>>>, id: u64, v: Vec<Option<Tensor>>)
    ensures
        stash_view(m.insert(id, v)) == stash_view(m).insert(id, rule::slots(v@)),
{
    assert(stash_view(m.insert(id, v)) =~= stash_view(m).insert(id, rule::slots(v@)));
}

proof fn lemma_stash_remove(m: Map<u64, Vec<Option<Tensor>>>, id: u64)
    ensures
        stash_view(m.remove(id)) == stash_view(m).remove(id),
{
    assert(stash_view(m.remove(id)) =~= stash_view(m).remove(id));
}

fn blank(count: usize) -> (r: Vec<Option<Tensor>>)
    ensures
        rule::slots(r@) == Seq::new(count as nat, |i: int| None::<Value>),
{
    let mut out: Vec<Option<Tensor>> = Vec::with_capacity(count);
    let mut i: usize = 0;
    proof {
        assert(rule::slots(out@) =~= Seq::new(0nat, |k: int| None::<Value>));
    }
    while i < count
        invariant
            i <= count,
            rule::slots(out@) == Seq::new(i as nat, |k: int| None::<Value>),
        decreases count - i,
    {
        let ghost before = rule::slots(out@);
        out.push(None);
        proof {
            assert(rule::slots(out@) =~= before.push(None));
            assert(rule::slots(out@) =~= Seq::new(i as nat + 1, |k: int| None::<Value>));
        }
        i += 1;
    }
    out
}

impl Walk {
    /// Leave a band for the source of a split, if the rule is that of a piece.
    fn leave_band(&mut self, node: &graph::Node, g: &Tensor)
        requires
            node@.parents.len() > 0,
        ensures
            final(self)@ == (Flow { stash: stashed(old(self)@.stash, node@, g@), ..old(self)@ }),
    {
        match node.rule() {
            RuleOf::SplitPiece(i, n) => {
                let parents = node.parents();
                proof {
                    assert(graph::raw_ids(parents@).len() == parents@.len());
                }
                let sink: u64 = parents[0].raw();
                proof {
                    assert(graph::raw_ids(parents@)[0] == sink);
                }
                let ghost start = self.stash@;
                let mut bands = match self.stash.remove(sink) {
                    Some(b) => b,
                    None => blank(*n),
                };
                let ghost had = rule::slots(bands@);
                proof {
                    assert(had == bands_at(stash_view(start), sink, *n as nat));
                }
                if *i < bands.len() {
                    bands.set(*i, Some(g.clone()));
                    proof {
                        assert(rule::slots(bands@) =~= had.update(*i as int, Some(g@)));
                    }
                }
                let ghost middle = self.stash@;
                self.stash.insert(sink, bands);
                proof {
                    lemma_stash_remove(start, sink);
                    lemma_stash_insert(middle, sink, bands);
                    assert(stash_view(start).remove(sink).insert(sink, rule::slots(bands@))
                        =~= stash_view(start).insert(sink, rule::slots(bands@)));
                }
            },
            _ => {},
        }
    }

    /// Take the bands left for a node.
    fn take_bands(&mut self, id: u64) -> (r: Vec<Option<Tensor>>)
        ensures
            rule::slots(r@) == bands_at(old(self)@.stash, id, 0),
            final(self)@ == (Flow { stash: old(self)@.stash.remove(id), ..old(self)@ }),
    {
        proof {
            lemma_stash_remove(self.stash@, id);
        }
        match self.stash.remove(id) {
            Some(b) => b,
            None => {
                let none: Vec<Option<Tensor>> = Vec::new();
                proof {
                    assert(rule::slots(none@) =~= Seq::new(0nat, |i: int| None::<Value>));
                }
                none
            },
        }
    }

    /// Hand gradients to operands.
    fn deliver(&mut self, parents: &Vec<NodeId>, gradients: &Vec<Option<Tensor>>) -> (r: Result<
        (),
        Error,
    >)
        ensures
            match (
                r,
                deliver(
                    old(self)@.pending,
                    graph::raw_ids(parents@),
                    rule::slots(gradients@),
                    reached(graph::raw_ids(parents@), rule::slots(gradients@)),
                ),
            ) {
                (Ok(_), Ok(m)) => final(self)@ == (Flow { pending: m, ..old(self)@ }),
                (Err(e), Err(f)) => e@ == f,
                _ => false,
            },
    {
        let ghost ids = graph::raw_ids(parents@);
        let ghost given = rule::slots(gradients@);
        let ghost start = self@;
        let count: usize = if parents.len() <= gradients.len() {
            parents.len()
        } else {
            gradients.len()
        };
        let mut k: usize = 0;
        while k < count
            invariant
                k <= count,
                count == reached(ids, given),
                count <= parents@.len(),
                count <= gradients@.len(),
                ids == graph::raw_ids(parents@),
                given == rule::slots(gradients@),
                deliver(start.pending, ids, given, k as nat) == Ok::<Map<u64, Value>, Fault>(
                    self@.pending,
                ),
                self@ == (Flow { pending: self@.pending, ..start }),
                start == old(self)@,
            decreases count - k,
        {
            proof {
                assert(given[k as int] == rule::opt(gradients@[k as int]));
                assert(ids[k as int] == parents@[k as int].id());
            }
            if let Some(t) = &gradients[k] {
                match add_into(&mut self.pending, parents[k].raw(), t.clone()) {
                    Ok(_) => {},
                    Err(e) => {
                        proof {
                            let x = e@;
                            assert(deliver(start.pending, ids, given, k as nat + 1) == Err::<
                                Map<u64, Value>,
                                Fault,
                            >(x));
                            lemma_delivery_failed(
                                start.pending,
                                ids,
                                given,
                                k as nat + 1,
                                count as nat,
                            );
                        }
                        return Err(e);
                    },
                }
            }
            k += 1;
        }
        Ok(())
    }

    /// Visit one node.
    fn visit(&mut self, node: &graph::Node, id: u64, retain: bool) -> (r: Result<(), Error>)
        ensures
            match (r, visit(node@, id, retain, old(self)@)) {
                (Ok(_), Ok(f)) => final(self)@ == f,
                (Err(e), Err(f)) => e@ == f,
                _ => false,
            },
    {
        let ghost start = self@;
        proof {
            lemma_valued_remove(self.pending@, id);
            assert(start.pending.remove(id) =~= start.pending || start.pending.contains_key(id));
        }
        let g = match self.pending.remove(id) {
            Some(g) => g,
            None => {
                return Ok(());
            },
        };
        if let Some(p) = node.param() {
            add_into(&mut self.params, p.raw(), g.clone())?;
        }
        if retain {
            let copy = g.clone();
            proof {
                lemma_valued_insert(self.kept@, id, copy);
            }
            self.kept.insert(id, copy);
        }
        let parents = node.parents();
        proof {
            assert(node@.parents.len() == parents@.len());
        }
        if parents.len() == 0 {
            return Ok(());
        }
        self.leave_band(node, &g);
        let bands = self.take_bands(id);
        let gradients = apply(node.rule(), &g, &bands)?;
        self.deliver(parents, &gradients)
    }
}

proof fn lemma_delivery_failed(
    pending: Map<u64, Value>,
    parents: Seq<u64>,
    gradients: Seq<Option<Value>>,
    low: nat,
    high: nat,
)
    requires
        low <= high,
        deliver(pending, parents, gradients, low) is Err,
    ensures
        deliver(pending, parents, gradients, high) == deliver(pending, parents, gradients, low),
    decreases high,
{
    if low < high {
        lemma_delivery_failed(pending, parents, gradients, low, (high - 1) as nat);
    }
}

impl Var {
    /// Differentiate this value with respect to everything it depends on.
    ///
    /// The tape is cleared afterwards, releasing all saved activations. Use
    /// [`Var::backward_retain`] to keep it for a second pass.
    pub fn backward(&self, s: &mut Session) -> (r: Result<Grads, Error>)
        ensures
            crate::error::agrees(r, differentiated(old(s)@, self@, false)),
            r is Ok ==> final(s)@ == old(s)@.cleared(self@.trace->0.graph),
            r is Err ==> final(s)@ == old(s)@,
    {
        let grads = self.backward_inner(s, false)?;
        if let Some(graph) = self.graph() {
            graph.clear(s);
        }
        Ok(grads)
    }

    /// Like [`Var::backward`] but keeps the tape and every node gradient.
    pub fn backward_retain(&self, s: &Session) -> (r: Result<Grads, Error>)
        ensures
            crate::error::agrees(r, differentiated(s@, self@, true)),
    {
        self.backward_inner(s, true)
    }

    fn backward_inner(&self, s: &Session, retain: bool) -> (r: Result<Grads, Error>)
        ensures
            crate::error::agrees(r, differentiated(s@, self@, retain)),
    {
        let (graph, node) = match (self.graph(), self.node()) {
            (Some(g), Some(n)) => (g, n),
            _ => {
                return Err(
                    Error::Autodiff(
                        "backward() called on a value that is not tracked".to_owned(),
                    ),
                );
            },
        };
        let seed = Tensor::ones(self.shape().clone());
        let ghost t = s@;
        let ghost gid = graph.handle();
        let ghost root = node.id();
        let ghost sv = seed@;
        let mut walk = Walk {
            pending: Ledger::new(),
            params: Ledger::new(),
            kept: Ledger::new(),
            stash: Ledger::new(),
        };
        proof {
            lemma_valued_insert(walk.pending@, root, seed);
        }
        walk.pending.insert(node.raw(), seed);
        proof {
            assert(grads::valued(Map::<u64, Tensor>::empty()) =~= Map::<u64, Value>::empty());
            assert(stash_view(Map::<u64, Vec<Option<Tensor>>>::empty()) =~= Map::<
                u64,
                Seq<Option<Value>>,
            >::empty());
            assert(after(t, gid, root, sv, retain, top()) == Ok::<Flow, Fault>(walk@));
        }
        let ids = s.ids(graph);
        let mut i: usize = ids.len();
        let ghost mut mark = top();
        while i > 0
            invariant
                i <= ids@.len(),
                t == s@,
                self@.trace is Some,
                self@.trace->0.graph == gid,
                self@.trace->0.node == root,
                sv == tensor::fill_of(Scalar::Int(1), self@.value.dims),
                0 <= mark <= top(),
                mark == (if i == ids@.len() {
                    top()
                } else {
                    ids@[i as int] as int
                }),
                ids@.to_set() == t.members(gid),
                forall|a: int, b: int| 0 <= a < b < ids@.len() ==> ids@[a] < ids@[b],
                after(t, gid, root, sv, retain, mark) == Ok::<Flow, Fault>(walk@),
            decreases i,
        {
            i -= 1;
            let id: u64 = ids[i];
            proof {
                assert(t.members(gid).contains(id)) by {
                    assert(ids@.to_set().contains(ids@[i as int]));
                }
                assert forall|x: u64| id + 1 <= x < mark implies !(#[trigger] t.members(
                    gid,
                ).contains(x)) by {
                    if t.members(gid).contains(x) {
                        assert(ids@.to_set().contains(x));
                        let j = choose|j: int| 0 <= j < ids@.len() && ids@[j] == x;
                        if j <= i {
                            if j < i {
                                assert(ids@[j] < ids@[i as int]);
                            }
                        } else {
                            if j > i + 1 {
                                assert(ids@[i as int + 1] < ids@[j]);
                            }
                        }
                    }
                }
                lemma_gap(t, gid, root, sv, retain, id + 1, mark);
            }
            let ghost had = walk@;
            match s.node(id) {
                Some(n) => {
                    match walk.visit(n, id, retain) {
                        Ok(_) => {},
                        Err(e) => {
                            proof {
                                assert(after(t, gid, root, sv, retain, id as int) == Err::<
                                    Flow,
                                    Fault,
                                >(e@));
                                lemma_failed(t, gid, root, sv, retain, 0, id as int);
                            }
                            return Err(e);
                        },
                    }
                },
                None => {},
            }
            proof {
                mark = id as int;
                assert(after(t, gid, root, sv, retain, id as int) == visit(
                    t.nodes[id],
                    id,
                    retain,
                    had,
                ));
            }
        }
        proof {
            assert forall|x: u64| 0 <= x < mark implies !(#[trigger] t.members(gid).contains(
                x,
            )) by {
                if t.members(gid).contains(x) {
                    assert(ids@.to_set().contains(x));
                    let j = choose|j: int| 0 <= j < ids@.len() && ids@[j] == x;
                    if 0 < j {
                        assert(ids@[0] < ids@[j]);
                    }
                }
            }
            lemma_gap(t, gid, root, sv, retain, 0, mark);
        }
        Ok(Grads::from_parts(walk.params, walk.kept))
    }
}

} // verus!
