//! What a backward pass computes.
//!
//! The gradient of a node is the sum of what its consumers hand it, each consumer's
//! share being its own gradient pulled back through its rule. The walk computes
//! exactly that, because every consumer is visited before the node it reads.

use vstd::prelude::*;

use super::backward;
use super::backward::Flow;
use super::grads;
use super::graph::{Entry, Tape};
use super::rule;
use super::rule::RuleOf;
use crate::error::Fault;
use crate::tensor;
use crate::tensor::Value;
use crate::term::Binary;

verus! {

/// A sum with one more share, where there may be nothing yet.
pub open spec fn plus(acc: Option<Value>, v: Value) -> Option<Value> {
    match acc {
        None => Some(v),
        Some(x) => Some(tensor::binary_of(Binary::Add, x, v)->Ok_0),
    }
}

/// What node `n` has gathered once the first `k` operands of a consumer have been
/// handed their gradients.
pub open spec fn shares(
    parents: Seq<u64>,
    gradients: Seq<Option<Value>>,
    n: u64,
    acc: Option<Value>,
    k: nat,
) -> Option<Value>
    decreases k,
{
    if k == 0 {
        acc
    } else {
        let before = shares(parents, gradients, n, acc, (k - 1) as nat);
        match gradients[k - 1] {
            Some(v) if parents[k - 1] == n => plus(before, v),
            _ => before,
        }
    }
}

/// The bands that the pieces of a split with ids of at least `m` leave for their
/// source, given the gradient of every node.
pub open spec fn left(
    t: Tape,
    graph: u64,
    gradient: Map<u64, Value>,
    sink: u64,
    m: int,
) -> Option<Seq<Option<Value>>>
    decreases backward::top() - m,
{
    if m >= backward::top() || m < 0 {
        None
    } else {
        let above = left(t, graph, gradient, sink, m + 1);
        let id = m as u64;
        let e = t.nodes[id];
        if t.members(graph).contains(id) && gradient.contains_key(id) && e.parents.len() > 0
            && e.parents[0] == sink {
            match e.rule {
                RuleOf::SplitPiece(i, n) => {
                    let bands = match above {
                        Some(b) => b,
                        None => Seq::new(n as nat, |j: int| None),
                    };
                    Some(
                        if i < bands.len() {
                            bands.update(i as int, Some(gradient[id]))
                        } else {
                            bands
                        },
                    )
                },
                _ => above,
            }
        } else {
            above
        }
    }
}

/// The bands a node is given when it is visited.
pub open spec fn bands_for(t: Tape, graph: u64, gradient: Map<u64, Value>, id: u64) -> Seq<
    Option<Value>,
> {
    match left(t, graph, gradient, id, id + 1) {
        Some(b) => b,
        None => Seq::new(0nat, |j: int| None),
    }
}

/// The gradients a node hands its operands.
pub open spec fn handed(t: Tape, graph: u64, gradient: Map<u64, Value>, id: u64) -> Seq<
    Option<Value>,
> {
    rule::pullback(
        t.nodes[id].rule,
        gradient[id],
        bands_for(t, graph, gradient, id),
    )->Ok_0
}

/// The sum of what the nodes with ids of at least `m` hand to node `n`, given the
/// gradient of each of them; the root starts with the seed.
pub open spec fn inflow(
    t: Tape,
    graph: u64,
    root: u64,
    seed: Value,
    gradient: Map<u64, Value>,
    n: u64,
    m: int,
) -> Option<Value>
    decreases backward::top() - m,
{
    if m >= backward::top() || m < 0 {
        if n == root {
            Some(seed)
        } else {
            None
        }
    } else {
        let above = inflow(t, graph, root, seed, gradient, n, m + 1);
        let id = m as u64;
        if t.members(graph).contains(id) && gradient.contains_key(id) && t.nodes[id].parents.len()
            > 0 {
            let given = handed(t, graph, gradient, id);
            shares(
                t.nodes[id].parents,
                given,
                n,
                above,
                backward::reached(t.nodes[id].parents, given),
            )
        } else {
            above
        }
    }
}

/// The sum of the gradients of the leaves with ids of at least `m` that stand for a
/// parameter.
pub open spec fn param_inflow(
    t: Tape,
    graph: u64,
    gradient: Map<u64, Value>,
    param: u64,
    m: int,
) -> Option<Value>
    decreases backward::top() - m,
{
    if m >= backward::top() || m < 0 {
        None
    } else {
        let above = param_inflow(t, graph, gradient, param, m + 1);
        let id = m as u64;
        if t.members(graph).contains(id) && gradient.contains_key(id) && t.nodes[id].param == Some(
            param,
        ) {
            plus(above, gradient[id])
        } else {
            above
        }
    }
}

pub open spec fn lookup(m: Map<u64, Value>, n: u64) -> Option<Value> {
    if m.contains_key(n) {
        Some(m[n])
    } else {
        None
    }
}

proof fn lemma_add_to(m: Map<u64, Value>, id: u64, v: Value, n: u64)
    requires
        grads::add_to(m, id, v) is Ok,
    ensures
        lookup(grads::add_to(m, id, v)->Ok_0, n) == (if n == id {
            plus(lookup(m, n), v)
        } else {
            lookup(m, n)
        }),
{
}

proof fn lemma_deliver(
    pending: Map<u64, Value>,
    parents: Seq<u64>,
    gradients: Seq<Option<Value>>,
    k: nat,
    n: u64,
)
    requires
        backward::deliver(pending, parents, gradients, k) is Ok,
    ensures
        lookup(backward::deliver(pending, parents, gradients, k)->Ok_0, n) == shares(
            parents,
            gradients,
            n,
            lookup(pending, n),
            k,
        ),
    decreases k,
{
    if k > 0 {
        let before = backward::deliver(pending, parents, gradients, (k - 1) as nat);
        assert(before is Ok);
        lemma_deliver(pending, parents, gradients, (k - 1) as nat, n);
        match gradients[k - 1] {
            Some(v) => {
                lemma_add_to(before->Ok_0, parents[k - 1], v, n);
            },
            None => {},
        }
    }
}

proof fn lemma_left_frame(
    t: Tape,
    graph: u64,
    a: Map<u64, Value>,
    b: Map<u64, Value>,
    sink: u64,
    m: int,
)
    requires
        m >= 0,
        forall|id: u64| id >= m ==> lookup(a, id) == #[trigger] lookup(b, id),
    ensures
        left(t, graph, a, sink, m) == left(t, graph, b, sink, m),
    decreases backward::top() - m,
{
    if m < backward::top() {
        lemma_left_frame(t, graph, a, b, sink, m + 1);
        assert(lookup(a, m as u64) == lookup(b, m as u64));
    }
}

proof fn lemma_inflow_frame(
    t: Tape,
    graph: u64,
    root: u64,
    seed: Value,
    a: Map<u64, Value>,
    b: Map<u64, Value>,
    n: u64,
    m: int,
)
    requires
        m >= 0,
        forall|id: u64| id >= m ==> lookup(a, id) == #[trigger] lookup(b, id),
    ensures
        inflow(t, graph, root, seed, a, n, m) == inflow(t, graph, root, seed, b, n, m),
    decreases backward::top() - m,
{
    if m < backward::top() {
        lemma_inflow_frame(t, graph, root, seed, a, b, n, m + 1);
        let id = m as u64;
        assert(lookup(a, id) == lookup(b, id));
        lemma_left_frame(t, graph, a, b, id, m + 1);
    }
}

proof fn lemma_param_frame(
    t: Tape,
    graph: u64,
    a: Map<u64, Value>,
    b: Map<u64, Value>,
    param: u64,
    m: int,
)
    requires
        m >= 0,
        forall|id: u64| id >= m ==> lookup(a, id) == #[trigger] lookup(b, id),
    ensures
        param_inflow(t, graph, a, param, m) == param_inflow(t, graph, b, param, m),
    decreases backward::top() - m,
{
    if m < backward::top() {
        lemma_param_frame(t, graph, a, b, param, m + 1);
        assert(lookup(a, m as u64) == lookup(b, m as u64));
    }
}

/// Everything a walk that keeps node gradients knows after it has come down to `m`.
pub open spec fn settled(t: Tape, graph: u64, root: u64, seed: Value, f: Flow, m: int) -> bool {
    &&& forall|n: u64|
        n < m ==> #[trigger] lookup(f.pending, n) == inflow(t, graph, root, seed, f.kept, n, m)
    &&& forall|id: u64| #[trigger]
        f.kept.contains_key(id) ==> id >= m && t.members(graph).contains(id)
    &&& forall|id: u64|
        id >= m && t.members(graph).contains(id) ==> #[trigger] lookup(f.kept, id) == inflow(
            t,
            graph,
            root,
            seed,
            f.kept,
            id,
            id + 1,
        )
    &&& forall|sink: u64|
        sink < m ==> (if #[trigger] f.stash.contains_key(sink) {
            left(t, graph, f.kept, sink, m) == Some(f.stash[sink])
        } else {
            left(t, graph, f.kept, sink, m) is None
        })
    &&& forall|p: u64| #[trigger]
        lookup(f.params, p) == param_inflow(t, graph, f.kept, p, m)
}

#[verifier::rlimit(60)]
proof fn lemma_visit_settles(
    t: Tape,
    graph: u64,
    root: u64,
    seed: Value,
    f: Flow,
    h: Flow,
    id: u64,
)
    requires
        t.ordered(),
        t.members(graph).contains(id),
        settled(t, graph, root, seed, f, id + 1),
        backward::visit(t.nodes[id], id, true, f) == Ok::<Flow, Fault>(h),
    ensures
        settled(t, graph, root, seed, h, id as int),
{
    let e = t.nodes[id];
    let m = id + 1;
    assert(t.nodes.dom().contains(id));
    assert(lookup(f.pending, id) == inflow(t, graph, root, seed, f.kept, id, m));
    // Nothing above `id` learns anything new about the gradients it depends on.
    assert forall|x: u64| x >= m implies lookup(f.kept, x) == #[trigger] lookup(h.kept, x) by {
        assert(x != id);
    }
    assert forall|n: u64| inflow(t, graph, root, seed, h.kept, n, m) == #[trigger] inflow(
        t,
        graph,
        root,
        seed,
        f.kept,
        n,
        m,
    ) by {
        lemma_inflow_frame(t, graph, root, seed, f.kept, h.kept, n, m);
    }
    assert forall|s: u64| left(t, graph, h.kept, s, m) == #[trigger] left(
        t,
        graph,
        f.kept,
        s,
        m,
    ) by {
        lemma_left_frame(t, graph, f.kept, h.kept, s, m);
    }
    assert forall|p: u64| param_inflow(t, graph, h.kept, p, m) == #[trigger] param_inflow(
        t,
        graph,
        f.kept,
        p,
        m,
    ) by {
        lemma_param_frame(t, graph, f.kept, h.kept, p, m);
    }
    assert forall|x: u64| x >= id && t.members(graph).contains(x) implies #[trigger] lookup(
        h.kept,
        x,
    ) == inflow(t, graph, root, seed, h.kept, x, x + 1) by {
        if x == id {
            assert(inflow(t, graph, root, seed, h.kept, id, m) == inflow(
                t,
                graph,
                root,
                seed,
                f.kept,
                id,
                m,
            ));
        } else {
            assert(lookup(f.kept, x) == lookup(h.kept, x));
            assert(lookup(f.kept, x) == inflow(t, graph, root, seed, f.kept, x, x + 1));
            assert forall|y: u64| y >= x + 1 implies lookup(f.kept, y) == #[trigger] lookup(
                h.kept,
                y,
            ) by {}
            lemma_inflow_frame(t, graph, root, seed, f.kept, h.kept, x, x + 1);
        }
    }
    if !f.pending.contains_key(id) {
        assert(h == f);
        assert(lookup(f.pending, id) is None);
        assert(!h.kept.contains_key(id)) by {
            if h.kept.contains_key(id) {
                assert(f.kept.contains_key(id));
            }
        }
        assert forall|n: u64| n < id implies #[trigger] lookup(h.pending, n) == inflow(
            t,
            graph,
            root,
            seed,
            h.kept,
            n,
            id as int,
        ) by {
            assert(lookup(f.pending, n) == inflow(t, graph, root, seed, f.kept, n, m));
        }
        assert forall|s: u64| s < id implies (if #[trigger] h.stash.contains_key(s) {
            left(t, graph, h.kept, s, id as int) == Some(h.stash[s])
        } else {
            left(t, graph, h.kept, s, id as int) is None
        }) by {
            assert(left(t, graph, h.kept, s, m) == left(t, graph, f.kept, s, m));
        }
        assert forall|p: u64| #[trigger] lookup(h.params, p) == param_inflow(
            t,
            graph,
            h.kept,
            p,
            id as int,
        ) by {
            assert(lookup(f.params, p) == param_inflow(t, graph, f.kept, p, m));
        }
    } else {
        let g = f.pending[id];
        assert(h.kept == f.kept.insert(id, g));
        assert forall|p: u64| #[trigger] lookup(h.params, p) == param_inflow(
            t,
            graph,
            h.kept,
            p,
            id as int,
        ) by {
            assert(lookup(f.params, p) == param_inflow(t, graph, f.kept, p, m));
            assert(param_inflow(t, graph, h.kept, p, m) == param_inflow(t, graph, f.kept, p, m));
            match e.param {
                Some(q) => {
                    lemma_add_to(f.params, q, g, p);
                },
                None => {},
            }
        }
        if e.parents.len() == 0 {
            assert forall|n: u64| n < id implies #[trigger] lookup(h.pending, n) == inflow(
                t,
                graph,
                root,
                seed,
                h.kept,
                n,
                id as int,
            ) by {
                assert(lookup(f.pending, n) == inflow(t, graph, root, seed, f.kept, n, m));
                assert(inflow(t, graph, root, seed, h.kept, n, m) == inflow(
                    t,
                    graph,
                    root,
                    seed,
                    f.kept,
                    n,
                    m,
                ));
            }
            assert forall|s: u64| s < id implies (if #[trigger] h.stash.contains_key(s) {
                left(t, graph, h.kept, s, id as int) == Some(h.stash[s])
            } else {
                left(t, graph, h.kept, s, id as int) is None
            }) by {
                assert(f.stash.contains_key(s) == h.stash.contains_key(s));
                assert(left(t, graph, h.kept, s, m) == left(t, graph, f.kept, s, m));
            }
        } else {
            let stash = backward::stashed(f.stash, e, g);
            assert(e.parents[0] < id);
            // A node's own bands are untouched by its own stashing.
            assert(backward::bands_at(stash, id, 0) == bands_for(t, graph, h.kept, id)) by {
                assert(stash.contains_key(id) == f.stash.contains_key(id));
                assert(left(t, graph, h.kept, id, m) == left(t, graph, f.kept, id, m));
                if f.stash.contains_key(id) {
                    assert(stash[id] == f.stash[id]);
                }
            }
            let given = handed(t, graph, h.kept, id);
            let count = backward::reached(e.parents, given);
            assert forall|n: u64| n < id implies #[trigger] lookup(h.pending, n) == inflow(
                t,
                graph,
                root,
                seed,
                h.kept,
                n,
                id as int,
            ) by {
                lemma_deliver(f.pending.remove(id), e.parents, given, count, n);
                assert(lookup(f.pending.remove(id), n) == lookup(f.pending, n));
                assert(lookup(f.pending, n) == inflow(t, graph, root, seed, f.kept, n, m));
                assert(inflow(t, graph, root, seed, h.kept, n, m) == inflow(
                    t,
                    graph,
                    root,
                    seed,
                    f.kept,
                    n,
                    m,
                ));
            }
            assert forall|s: u64| s < id implies (if #[trigger] h.stash.contains_key(s) {
                left(t, graph, h.kept, s, id as int) == Some(h.stash[s])
            } else {
                left(t, graph, h.kept, s, id as int) is None
            }) by {
                assert(h.stash.contains_key(s) == stash.contains_key(s));
                assert(left(t, graph, h.kept, s, m) == left(t, graph, f.kept, s, m));
                assert(if f.stash.contains_key(s) {
                    left(t, graph, f.kept, s, m) == Some(f.stash[s])
                } else {
                    left(t, graph, f.kept, s, m) is None
                });
                match e.rule {
                    RuleOf::SplitPiece(i, n) => {
                        if e.parents[0] == s {
                            let had = backward::bands_at(f.stash, s, n as nat);
                            match left(t, graph, h.kept, s, m) {
                                Some(b) => {
                                    assert(b == had);
                                },
                                None => {
                                    assert(had =~= Seq::new(n as nat, |j: int| None::<Value>));
                                },
                            }
                        }
                    },
                    _ => {},
                }
            }
        }
    }
}

proof fn lemma_after_settles(
    t: Tape,
    graph: u64,
    root: u64,
    seed: Value,
    f: Flow,
    m: int,
)
    requires
        t.ordered(),
        0 <= m <= backward::top(),
        backward::after(t, graph, root, seed, true, m) == Ok::<Flow, Fault>(f),
    ensures
        settled(t, graph, root, seed, f, m),
    decreases backward::top() - m,
{
    if m < backward::top() {
        let before = backward::after(t, graph, root, seed, true, m + 1)->Ok_0;
        lemma_after_settles(t, graph, root, seed, before, m + 1);
        let id = m as u64;
        if t.members(graph).contains(id) {
            lemma_visit_settles(t, graph, root, seed, before, f, id);
        } else {
            assert(f == before);
            assert forall|n: u64| n < m implies #[trigger] lookup(f.pending, n) == inflow(
                t,
                graph,
                root,
                seed,
                f.kept,
                n,
                m,
            ) by {
                assert(lookup(before.pending, n) == inflow(
                    t,
                    graph,
                    root,
                    seed,
                    f.kept,
                    n,
                    m + 1,
                ));
            }
        }
    } else {
        assert forall|p: u64| #[trigger] lookup(f.params, p) == param_inflow(
            t,
            graph,
            f.kept,
            p,
            m,
        ) by {}
    }
}

/// A backward pass computes, for every node of the tape, the sum of what its
/// consumers hand it: each consumer's own gradient pulled back through its rule, the
/// root starting from ones. A node no gradient reaches has none.
pub proof fn law_gradient_is_sum_of_consumers(
    t: Tape,
    graph: u64,
    root: u64,
    seed: Value,
    f: Flow,
    id: u64,
)
    requires
        t.ordered(),
        t.members(graph).contains(id),
        backward::after(t, graph, root, seed, true, 0) == Ok::<Flow, Fault>(f),
    ensures
        lookup(f.kept, id) == inflow(t, graph, root, seed, f.kept, id, id + 1),
{
    lemma_after_settles(t, graph, root, seed, f, 0);
    assert(lookup(f.kept, id) == inflow(t, graph, root, seed, f.kept, id, id + 1));
}

/// A parameter's gradient is the sum of the gradients of every leaf that stands for
/// it.
pub proof fn law_param_gradient_is_sum_of_leaves(
    t: Tape,
    graph: u64,
    root: u64,
    seed: Value,
    f: Flow,
    param: u64,
)
    requires
        t.ordered(),
        backward::after(t, graph, root, seed, true, 0) == Ok::<Flow, Fault>(f),
    ensures
        lookup(f.params, param) == param_inflow(t, graph, f.kept, param, 0),
{
    lemma_after_settles(t, graph, root, seed, f, 0);
    assert(lookup(f.params, param) == param_inflow(t, graph, f.kept, param, 0));
}

/// Whether node gradients are kept changes nothing else a pass computes.
pub proof fn law_retaining_changes_no_gradient(
    t: Tape,
    graph: u64,
    root: u64,
    seed: Value,
    m: int,
)
    requires
        0 <= m <= backward::top(),
    ensures
        match (
            backward::after(t, graph, root, seed, true, m),
            backward::after(t, graph, root, seed, false, m),
        ) {
            (Ok(a), Ok(b)) => a.pending == b.pending && a.params == b.params && a.stash == b.stash
                && b.kept == Map::<u64, Value>::empty(),
            (Err(x), Err(y)) => x == y,
            _ => false,
        },
    decreases backward::top() - m,
{
    if m < backward::top() {
        law_retaining_changes_no_gradient(t, graph, root, seed, m + 1);
    }
}

/// A node is visited after everything that reads it: on an ordered tape no consumer
/// has a smaller id.
pub proof fn law_consumers_come_first(t: Tape, id: u64, consumer: u64, k: int)
    requires
        t.ordered(),
        t.nodes.dom().contains(consumer),
        0 <= k < t.nodes[consumer].parents.len(),
        t.nodes[consumer].parents[k] == id,
    ensures
        id < consumer,
{
}

} // verus!
