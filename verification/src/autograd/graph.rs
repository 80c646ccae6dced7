//! The differentiation tape.
//!
//! Nodes carry a unique, increasing id. Because a node is created after every node
//! it depends on, descending id order is a valid reverse topological order: no
//! separate sort pass is needed at backward time.
//!
//! A [`Session`] holds every live node together with the tracking mode and the id
//! counters; a [`Graph`] is a handle that names one tape among them. If two tapes
//! ever meet in one expression they are merged.

use vstd::prelude::*;

use super::rule;
use super::rule::{Adjoint, Rule, RuleOf};
use crate::error::{Error, Fault};
use crate::ledger::Ledger;
use crate::tensor;
use crate::tensor::{Tensor, Value};
use crate::term::{Binary, Scalar, Unary};

verus! {

/// Identifier of a node on the tape.
#[derive(Debug, Clone, Copy, PartialEq, Eq, Ord, Hash, Structural)]
pub struct NodeId(u64);

/// Identifier of a learnable parameter, stable for the lifetime of a session.
#[derive(Debug, Clone, Copy, PartialEq, Eq, Ord, Hash, Structural)]
pub struct ParamId(u64);

impl PartialOrd for NodeId {
    fn partial_cmp(&self, other: &Self) -> (r: Option<std::cmp::Ordering>) {
        if self.0 < other.0 {
            Some(std::cmp::Ordering::Less)
        } else if self.0 == other.0 {
            Some(std::cmp::Ordering::Equal)
        } else {
            Some(std::cmp::Ordering::Greater)
        }
    }
}

impl vstd::std_specs::cmp::PartialOrdSpecImpl for NodeId {
    open spec fn obeys_partial_cmp_spec() -> bool {
        true
    }

    open spec fn partial_cmp_spec(&self, other: &Self) -> Option<std::cmp::Ordering> {
        if self.id() < other.id() {
            Some(std::cmp::Ordering::Less)
        } else if self.id() == other.id() {
            Some(std::cmp::Ordering::Equal)
        } else {
            Some(std::cmp::Ordering::Greater)
        }
    }
}

impl PartialOrd for ParamId {
    fn partial_cmp(&self, other: &Self) -> (r: Option<std::cmp::Ordering>) {
        if self.0 < other.0 {
            Some(std::cmp::Ordering::Less)
        } else if self.0 == other.0 {
            Some(std::cmp::Ordering::Equal)
        } else {
            Some(std::cmp::Ordering::Greater)
        }
    }
}

impl vstd::std_specs::cmp::PartialOrdSpecImpl for ParamId {
    open spec fn obeys_partial_cmp_spec() -> bool {
        true
    }

    open spec fn partial_cmp_spec(&self, other: &Self) -> Option<std::cmp::Ordering> {
        if self.id() < other.id() {
            Some(std::cmp::Ordering::Less)
        } else if self.id() == other.id() {
            Some(std::cmp::Ordering::Equal)
        } else {
            Some(std::cmp::Ordering::Greater)
        }
    }
}

impl NodeId {
    pub closed spec fn id(self) -> u64 {
        self.0
    }

    /// The next unused id of a session.
    fn fresh(s: &mut Session) -> (r: Self)
        ensures
            r.id() == old(s)@.next_node,
            final(s)@ == (Tape {
                next_node: following(old(s)@.next_node),
                ..old(s)@
            }),
    {
        let id: u64 = s.next_node;
        s.next_node = next_counter(id);
        NodeId(id)
    }

    /// The raw counter value; useful for debugging and for keying gradients.
    pub fn raw(&self) -> (r: u64)
        ensures
            r == self.id(),
    {
        self.0
    }
}

impl ParamId {
    pub closed spec fn id(self) -> u64 {
        self.0
    }

    /// The id with a given number.
    pub closed spec fn of(n: u64) -> Self {
        ParamId(n)
    }

    /// Allocate a fresh parameter id.
    pub fn fresh(s: &mut Session) -> (r: Self)
        ensures
            r == ParamId::of(old(s)@.next_param),
            r.id() == old(s)@.next_param,
            final(s)@ == (Tape {
                next_param: following(old(s)@.next_param),
                ..old(s)@
            }),
    {
        let id: u64 = s.next_param;
        s.next_param = next_counter(id);
        ParamId(id)
    }

    /// The raw counter value.
    pub fn raw(&self) -> (r: u64)
        ensures
            r == self.id(),
    {
        self.0
    }
}

/// An id is the number it was made from.
pub broadcast proof fn lemma_param_id(n: u64)
    ensures
        (#[trigger] ParamId::of(n)).id() == n,
{
}

/// The value a counter takes after `n`: it wraps around at the end of its range.
pub open spec fn following(n: u64) -> u64 {
    if n == u64::MAX {
        0
    } else {
        (n + 1) as u64
    }
}

/// Two parameter ids are equal exactly when their numbers are, and ordered as they are.
pub proof fn law_param_ids_are_their_numbers(a: ParamId, b: ParamId)
    ensures
        a == b <==> a.id() == b.id(),
        vstd::std_specs::cmp::PartialOrdSpec::partial_cmp_spec(&a, &b) == Some(
            std::cmp::Ordering::Less,
        ) <==> a.id() < b.id(),
        ParamId::of(a.id()) == a,
{
}

/// The number of the id that is handed out after `k` others, by a session whose next one is
/// `first`.
pub open spec fn handed_out(first: u64, k: nat) -> u64
    decreases k,
{
    if k == 0 {
        first
    } else {
        following(handed_out(first, (k - 1) as nat))
    }
}

/// Two ids drawn from one session at any two times differ, and the later one is the larger,
/// until the counter has run out.
pub proof fn law_param_ids_never_repeat(first: u64, i: nat, j: nat)
    requires
        i < j,
        first + j <= u64::MAX,
    ensures
        ParamId::of(handed_out(first, i)) != ParamId::of(handed_out(first, j)),
        handed_out(first, i) < handed_out(first, j),
        handed_out(first, i) >= first,
{
    lemma_handed_out(first, i);
    lemma_handed_out(first, j);
    lemma_param_id(handed_out(first, i));
    lemma_param_id(handed_out(first, j));
}

proof fn lemma_handed_out(first: u64, k: nat)
    requires
        first + k <= u64::MAX,
    ensures
        handed_out(first, k) == first + k,
    decreases k,
{
    if k > 0 {
        lemma_handed_out(first, (k - 1) as nat);
    }
}

pub(crate) fn next_counter(n: u64) -> (r: u64)
    ensures
        r == following(n),
{
    if n == u64::MAX {
        0
    } else {
        n + 1
    }
}

/// A node: the tape it is on, the nodes it reads, its backward rule, and the
/// parameter it stands for if it is a learnable leaf.
pub struct Node {
    graph: u64,
    parents: Vec<NodeId>,
    rule: Rule,
    param: Option<ParamId>,
}

/// A node as a mathematical value.
pub struct Entry {
    pub graph: u64,
    pub parents: Seq<u64>,
    pub rule: Adjoint,
    pub param: Option<u64>,
}

pub open spec fn raw_ids(s: Seq<NodeId>) -> Seq<u64> {
    s.map_values(|n: NodeId| n.id())
}

pub open spec fn raw_param(p: Option<ParamId>) -> Option<u64> {
    match p {
        Some(id) => Some(id.id()),
        None => None,
    }
}

impl View for Node {
    type V = Entry;

    closed spec fn view(&self) -> Entry {
        Entry {
            graph: self.graph,
            parents: raw_ids(self.parents@),
            rule: rule::adjoint(self.rule),
            param: raw_param(self.param),
        }
    }
}

/// Everything a session holds, as a mathematical value.
pub struct Tape {
    /// Whether new operations are recorded.
    pub enabled: bool,
    pub next_node: u64,
    pub next_param: u64,
    pub next_graph: u64,
    /// Every live node of every tape, by id.
    pub nodes: Map<u64, Entry>,
}

/// The state that tracking needs: the mode, the id counters and the live nodes.
pub struct Session {
    enabled: bool,
    next_node: u64,
    next_param: u64,
    next_graph: u64,
    nodes: Ledger<Node>,
}

/// The nodes of a map of stored nodes.
pub open spec fn entries(m: Map<u64, Node>) -> Map<u64, Entry> {
    m.map_values(|n: Node| n@)
}

impl View for Session {
    type V = Tape;

    closed spec fn view(&self) -> Tape {
        Tape {
            enabled: self.enabled,
            next_node: self.next_node,
            next_param: self.next_param,
            next_graph: self.next_graph,
            nodes: entries(self.nodes@),
        }
    }
}

impl Tape {
    /// The ids of the nodes of one tape.
    pub open spec fn members(self, graph: u64) -> Set<u64> {
        Set::new(|id: u64| self.nodes.dom().contains(id) && self.nodes[id].graph == graph)
    }

    /// Every id was handed out, and every node reads only nodes created before it.
    pub open spec fn ordered(self) -> bool {
        forall|id: u64|
            #![trigger self.nodes.dom().contains(id)]
            self.nodes.dom().contains(id) ==> id < self.next_node && (forall|k: int|
                0 <= k < self.nodes[id].parents.len() ==> (#[trigger] self.nodes[id].parents[k])
                    < id)
    }

    /// The tape with a node added under the next id.
    pub open spec fn with_node(self, e: Entry) -> Tape {
        Tape {
            next_node: following(self.next_node),
            nodes: self.nodes.insert(self.next_node, e),
            ..self
        }
    }

    /// The tape with every node of `from` moved onto `to`.
    pub open spec fn absorbed(self, to: u64, from: u64) -> Tape {
        Tape {
            nodes: self.nodes.map_values(
                |e: Entry|
                    if e.graph == from {
                        Entry { graph: to, ..e }
                    } else {
                        e
                    },
            ),
            ..self
        }
    }

    /// The tape without the nodes of `graph`.
    pub open spec fn cleared(self, graph: u64) -> Tape {
        Tape { nodes: self.nodes.remove_keys(self.members(graph)), ..self }
    }
}

pub open spec fn leaf(graph: u64, param: Option<u64>) -> Entry {
    Entry { graph, parents: Seq::empty(), rule: RuleOf::Leaf, param }
}

impl Session {
    /// A session with nothing recorded; tracking is on.
    pub fn new() -> (r: Self)
        ensures
            r@ == (Tape {
                enabled: true,
                next_node: 1,
                next_param: 1,
                next_graph: 1,
                nodes: Map::empty(),
            }),
    {
        let r = Session {
            enabled: true,
            next_node: 1,
            next_param: 1,
            next_graph: 1,
            nodes: Ledger::new(),
        };
        proof {
            assert(r@.nodes =~= Map::<u64, Entry>::empty());
        }
        r
    }

    pub(crate) fn enabled(&self) -> (r: bool)
        ensures
            r == self@.enabled,
    {
        self.enabled
    }

    pub(crate) fn set_enabled(&mut self, on: bool)
        ensures
            final(self)@ == (Tape { enabled: on, ..old(self)@ }),
    {
        self.enabled = on;
    }

    /// Put a node on a tape.
    pub(crate) fn push(&mut self, graph: Graph, parents: Vec<NodeId>, rule: Rule) -> (r: NodeId)
        ensures
            r.id() == old(self)@.next_node,
            final(self)@ == old(self)@.with_node(
                Entry {
                    graph: graph.handle(),
                    parents: raw_ids(parents@),
                    rule: rule::adjoint(rule),
                    param: None,
                },
            ),
    {
        let id = NodeId::fresh(self);
        let node = Node { graph: graph.id, parents, rule, param: None };
        let ghost before = self.nodes@;
        self.nodes.insert(id.0, node);
        proof {
            assert(entries(before.insert(id.0, node)) =~= entries(before).insert(id.0, node@));
        }
        id
    }

    /// Put a leaf on a tape.
    pub(crate) fn push_leaf(&mut self, graph: Graph, param: Option<ParamId>) -> (r: NodeId)
        ensures
            r.id() == old(self)@.next_node,
            final(self)@ == old(self)@.with_node(leaf(graph.handle(), raw_param(param))),
    {
        let id = NodeId::fresh(self);
        let node = Node { graph: graph.id, parents: Vec::new(), rule: RuleOf::Leaf, param };
        let ghost before = self.nodes@;
        self.nodes.insert(id.0, node);
        proof {
            assert(node@ == leaf(graph.id, raw_param(param))) by {
                assert(node@.parents =~= Seq::<u64>::empty());
            }
            assert(entries(before.insert(id.0, node)) =~= entries(before).insert(id.0, node@));
        }
        id
    }

    /// Move all of `from`'s nodes onto `to`. Ids are unique across tapes, so this
    /// cannot collide.
    pub(crate) fn absorb(&mut self, to: Graph, from: Graph)
        ensures
            final(self)@ == old(self)@.absorbed(to.handle(), from.handle()),
    {
        let ghost start = self@;
        let ghost goal = start.absorbed(to.id, from.id);
        if to.id == from.id {
            proof {
                assert(goal.nodes =~= start.nodes);
            }
            return;
        }
        let count: usize = self.nodes.len();
        let mut ids: Vec<u64> = Vec::with_capacity(count);
        let ghost all = self.nodes.keys();
        let mut i: usize = 0;
        while i < count
            invariant
                i <= count,
                count == self.nodes.keys().len(),
                all == self.nodes.keys(),
                ids@ == all.take(i as int),
            decreases count - i,
        {
            ids.push(self.nodes.key_at(i));
            proof {
                assert(ids@ =~= all.take(i as int + 1));
            }
            i += 1;
        }
        proof {
            assert(all.take(count as int) =~= all);
            assert(self@.nodes.dom() =~= start.nodes.dom());
        }
        let mut k: usize = 0;
        while k < count
            invariant
                k <= count,
                count == all.len(),
                ids@ == all,
                all.no_duplicates(),
                to.id != from.id,
                goal == start.absorbed(to.id, from.id),
                self@ == (Tape { nodes: self@.nodes, ..start }),
                self@.nodes.dom() == start.nodes.dom(),
                all.to_set() == start.nodes.dom(),
                forall|j: int| 0 <= j < k ==> self@.nodes[#[trigger] all[j]] == goal.nodes[all[j]],
                forall|j: int|
                    k <= j < count ==> self@.nodes[#[trigger] all[j]] == start.nodes[all[j]],
            decreases count - k,
        {
            let id: u64 = ids[k];
            let ghost before = self.nodes@;
            proof {
                assert(all[k as int] == id);
                assert(all.to_set().contains(id)) by {
                    assert(all.contains(id));
                }
                assert(before.contains_key(id));
            }
            if let Some(node) = self.nodes.remove(id) {
                proof {
                    assert(node == before[id]);
                    assert(start.nodes[id] == node@);
                }
                let moved = if node.graph == from.id {
                    Node { graph: to.id, parents: node.parents, rule: node.rule, param: node.param }
                } else {
                    node
                };
                self.nodes.insert(id, moved);
                proof {
                    assert(moved@ == goal.nodes[id]);
                    assert(self.nodes@ =~= before.insert(id, moved));
                    assert(self@.nodes =~= entries(before).insert(id, moved@));
                    assert forall|j: int| 0 <= j < k + 1 implies self@.nodes[#[trigger] all[j]]
                        == goal.nodes[all[j]] by {
                        if j < k {
                            assert(all[j] != all[k as int]);
                        }
                    }
                    assert forall|j: int| k + 1 <= j < count implies self@.nodes[#[trigger] all[j]]
                        == start.nodes[all[j]] by {
                        assert(all[j] != all[k as int]);
                    }
                    assert(self@.nodes.dom() =~= start.nodes.dom());
                }
            }
            k += 1;
        }
        proof {
            assert forall|id: u64| self@.nodes.dom().contains(id) implies #[trigger] self@.nodes[id]
                == goal.nodes[id] by {
                assert(all.to_set().contains(id));
                let j = choose|j: int| 0 <= j < all.len() && all[j] == id;
                assert(self@.nodes[all[j]] == goal.nodes[all[j]]);
            }
            assert(self@.nodes =~= goal.nodes);
        }
    }

    /// The ids of one tape's nodes, in ascending order.
    pub(crate) fn ids(&self, graph: Graph) -> (r: Vec<u64>)
        ensures
            r@.to_set() == self@.members(graph.handle()),
            forall|i: int, j: int| 0 <= i < j < r@.len() ==> r@[i] < r@[j],
    {
        let count: usize = self.nodes.len();
        let mut out: Vec<u64> = Vec::new();
        let ghost all = self.nodes.keys();
        let ghost have = self@.members(graph.id);
        let mut i: usize = 0;
        while i < count
            invariant
                i <= count,
                count == self.nodes.keys().len(),
                all == self.nodes.keys(),
                forall|a: int, b: int| 0 <= a < b < all.len() ==> all[a] < all[b],
                all.to_set() == self.nodes@.dom(),
                forall|a: int, b: int| 0 <= a < b < out@.len() ==> out@[a] < out@[b],
                forall|a: int| 0 <= a < out@.len() && i < count ==> (#[trigger] out@[a]) < all[i as int],
                have == self@.members(graph.id),
                forall|a: int| 0 <= a < out@.len() ==> have.contains(#[trigger] out@[a]),
                forall|j: int|
                    0 <= j < i && have.contains(#[trigger] all[j]) ==> out@.contains(all[j]),
            decreases count - i,
        {
            let key: u64 = self.nodes.key_at(i);
            let ghost before = out@;
            if self.nodes.entry_at(i).graph == graph.id {
                out.push(key);
                proof {
                    assert(have.contains(key));
                    assert(out@.contains(key)) by {
                        assert(out@[out@.len() - 1] == key);
                    }
                }
            } else {
                proof {
                    assert(!have.contains(key));
                }
            }
            proof {
                assert forall|j: int| 0 <= j < i + 1 && have.contains(#[trigger] all[j]) implies out@.contains(
                all[j]) by {
                    if j < i {
                        assert(before.contains(all[j]));
                        let a = choose|a: int| 0 <= a < before.len() && before[a] == all[j];
                        assert(out@[a] == all[j]);
                    }
                }
            }
            i += 1;
        }
        proof {
            assert forall|id: u64| out@.to_set().contains(id) <==> have.contains(id) by {
                if have.contains(id) {
                    assert(all.to_set().contains(id));
                    let j = choose|j: int| 0 <= j < all.len() && all[j] == id;
                    assert(have.contains(all[j]));
                }
            }
            assert(out@.to_set() =~= have);
        }
        out
    }

    /// The node under an id.
    pub(crate) fn node(&self, id: u64) -> (r: Option<&Node>)
        ensures
            match r {
                Some(n) => self@.nodes.dom().contains(id) && n@ == self@.nodes[id],
                None => !self@.nodes.dom().contains(id),
            },
    {
        self.nodes.get(id)
    }
}

impl Node {
    pub(crate) fn parents(&self) -> (r: &Vec<NodeId>)
        ensures
            raw_ids(r@) == self@.parents,
    {
        &self.parents
    }

    pub(crate) fn rule(&self) -> (r: &Rule)
        ensures
            rule::adjoint(*r) == self@.rule,
    {
        &self.rule
    }

    pub(crate) fn param(&self) -> (r: Option<ParamId>)
        ensures
            raw_param(r) == self@.param,
    {
        self.param
    }
}

/// A handle that names one tape of a session.
#[derive(Debug, Clone, Copy, PartialEq, Eq, Structural)]
pub struct Graph {
    id: u64,
}

impl Graph {
    pub closed spec fn handle(self) -> u64 {
        self.id
    }

    /// A fresh, empty tape.
    pub fn new(s: &mut Session) -> (r: Self)
        ensures
            r.handle() == old(s)@.next_graph,
            final(s)@ == (Tape {
                next_graph: following(old(s)@.next_graph),
                ..old(s)@
            }),
    {
        let id: u64 = s.next_graph;
        s.next_graph = next_counter(id);
        Graph { id }
    }

    /// Whether two handles name the same tape.
    pub fn same(&self, other: &Graph) -> (r: bool)
        ensures
            r == (self.handle() == other.handle()),
    {
        self.id == other.id
    }

    /// Number of live nodes.
    pub fn len(&self, s: &Session) -> (r: usize)
        ensures
            r == s@.members(self.handle()).len(),
    {
        let ids = s.ids(*self);
        proof {
            assert(ids@.no_duplicates()) by {
                assert forall|i: int, j: int| 0 <= i < ids@.len() && 0 <= j < ids@.len() && i
                    != j implies ids@[i] != ids@[j] by {
                    if i < j {
                        assert(ids@[i] < ids@[j]);
                    } else {
                        assert(ids@[j] < ids@[i]);
                    }
                }
            }
            ids@.unique_seq_to_set();
        }
        ids.len()
    }

    /// Whether the tape holds no nodes.
    pub fn is_empty(&self, s: &Session) -> (r: bool)
        ensures
            r == (s@.members(self.handle()) == Set::<u64>::empty()),
    {
        let ids = s.ids(*self);
        proof {
            if ids@.len() > 0 {
                assert(ids@.to_set().contains(ids@[0]));
            } else {
                assert(ids@.to_set() =~= Set::<u64>::empty());
            }
        }
        ids.len() == 0
    }

    /// Drop every node, releasing all tensors saved for backward.
    pub fn clear(&self, s: &mut Session)
        ensures
            final(s)@ == old(s)@.cleared(self.handle()),
    {
        let ids = s.ids(*self);
        let ghost start = s@;
        let mut i: usize = 0;
        proof {
            assert(start.nodes.remove_keys(ids@.take(0).to_set()) =~= start.nodes);
        }
        while i < ids.len()
            invariant
                i <= ids.len(),
                s@ == (Tape { nodes: start.nodes.remove_keys(ids@.take(i as int).to_set()), ..start
                }),
            decreases ids.len() - i,
        {
            let ghost before = s.nodes@;
            let _ = s.nodes.remove(ids[i]);
            proof {
                let now = ids@.take(i as int + 1);
                assert(s@.nodes =~= entries(before).remove(ids@[i as int]));
                assert forall|id: u64| now.to_set().contains(id) <==> (ids@.take(
                    i as int,
                ).to_set().contains(id) || id == ids@[i as int]) by {
                    if now.to_set().contains(id) {
                        let j = choose|j: int| 0 <= j < now.len() && now[j] == id;
                        if j < i {
                            assert(ids@.take(i as int)[j] == id);
                        }
                    }
                    if ids@.take(i as int).to_set().contains(id) {
                        let j = choose|j: int| 0 <= j < i && ids@.take(i as int)[j] == id;
                        assert(now[j] == id);
                    }
                    assert(now[i as int] == ids@[i as int]);
                }
                assert(s@.nodes =~= start.nodes.remove_keys(now.to_set()));
            }
            i += 1;
        }
        proof {
            assert(ids@.take(ids@.len() as int) =~= ids@);
        }
    }
}

/// Ids handed out one after the other increase.
pub proof fn law_ids_increase(t: Tape, a: Entry, b: Entry)
    requires
        t.next_node < u64::MAX - 1,
    ensures
        t.next_node < t.with_node(a).next_node,
        t.with_node(a).next_node < t.with_node(a).with_node(b).next_node,
{
}

/// Adding a node that reads only existing nodes keeps the tape ordered.
pub proof fn law_push_keeps_order(t: Tape, e: Entry)
    requires
        t.ordered(),
        t.next_node < u64::MAX,
        forall|k: int| 0 <= k < e.parents.len() ==> (#[trigger] e.parents[k]) < t.next_node,
    ensures
        t.with_node(e).ordered(),
{
    let u = t.with_node(e);
    assert forall|id: u64|
        #![trigger u.nodes.dom().contains(id)]
        u.nodes.dom().contains(id) implies id < u.next_node && (forall|k: int|
        0 <= k < u.nodes[id].parents.len() ==> (#[trigger] u.nodes[id].parents[k]) < id) by {
        if id != t.next_node {
            assert(t.nodes.dom().contains(id));
        }
    }
}

/// Moving nodes from one tape to another keeps every node, its operands and its
/// rule; only the tape it is on changes. Nothing collides.
pub proof fn law_absorb_keeps_nodes(t: Tape, to: u64, from: u64)
    ensures
        t.absorbed(to, from).nodes.dom() == t.nodes.dom(),
        forall|id: u64| #[trigger]
            t.nodes.dom().contains(id) ==> t.absorbed(to, from).nodes[id] == (Entry {
                graph: t.absorbed(to, from).nodes[id].graph,
                ..t.nodes[id]
            }),
        to != from ==> t.absorbed(to, from).members(from) == Set::<u64>::empty(),
        t.absorbed(to, from).members(to) == t.members(to).union(t.members(from)),
        t.ordered() ==> t.absorbed(to, from).ordered(),
{
    let u = t.absorbed(to, from);
    assert(u.nodes.dom() =~= t.nodes.dom());
    if to != from {
        assert(u.members(from) =~= Set::<u64>::empty());
    }
    assert(u.members(to) =~= t.members(to).union(t.members(from)));
    if t.ordered() {
        assert forall|id: u64|
            #![trigger u.nodes.dom().contains(id)]
            u.nodes.dom().contains(id) implies id < u.next_node && (forall|k: int|
            0 <= k < u.nodes[id].parents.len() ==> (#[trigger] u.nodes[id].parents[k]) < id) by {
            assert(t.nodes.dom().contains(id));
            assert(u.nodes[id].parents == t.nodes[id].parents);
        }
    }
}

/// Clearing a tape leaves every other tape as it was.
pub proof fn law_clear_is_local(t: Tape, graph: u64, other: u64)
    requires
        graph != other,
    ensures
        t.cleared(graph).members(graph) == Set::<u64>::empty(),
        t.cleared(graph).members(other) == t.members(other),
        forall|id: u64| #[trigger]
            t.members(other).contains(id) ==> t.cleared(graph).nodes[id] == t.nodes[id],
{
    assert(t.cleared(graph).members(graph) =~= Set::<u64>::empty());
    assert(t.cleared(graph).members(other) =~= t.members(other));
}

} // verus!
