//! A chain of layers.

use vstd::prelude::*;

use super::flow;
use super::flow::{Step, World};
use super::module;
use super::module::{Layer, Listed, Module, ModuleVisitor, Part};
use super::store::Store;
use crate::autograd::graph::Session;
use crate::autograd::var::{Traced, Var};
use crate::error::Error;

verus! {

/// A chain of uniform layers.
pub struct Sequential<L: Layer> {
    pub layers: Vec<L>,
}

/// The parts of the first `k` entries of a list of children under one name.
pub open spec fn chain_parts<M: Module>(name: Seq<char>, list: Seq<M>, k: nat) -> Seq<Listed>
    decreases k,
{
    if k == 0 {
        Seq::empty()
    } else {
        chain_parts(name, list, (k - 1) as nat) + module::branch(
            module::numbered(name, (k - 1) as nat),
            &list[k - 1],
        )
    }
}

/// The first `k` layers of a chain, one after another.
pub open spec fn chain_op<L: Layer>(w: World, layers: Seq<L>, x: Traced, k: nat) -> Step
    decreases k,
{
    if k == 0 {
        Ok((w, x))
    } else {
        flow::go(
            chain_op(w, layers, x, (k - 1) as nat),
            |u: World, y: Traced| layers[k - 1].forward_op(u, y),
        )
    }
}

/// A chain that fails early fails as a whole.
pub(crate) proof fn lemma_chain_fails<L: Layer>(w: World, layers: Seq<L>, x: Traced, j: nat, k: nat)
    requires
        j <= k,
        chain_op(w, layers, x, j) is Err,
    ensures
        chain_op(w, layers, x, k) == chain_op(w, layers, x, j),
    decreases k,
{
    if j < k {
        lemma_chain_fails(w, layers, x, j, (k - 1) as nat);
    }
}

/// Descend into a list of children under one name.
pub fn visit_list<M: Module>(visitor: &mut ModuleVisitor, name: &str, list: &Vec<M>)
    ensures
        final(visitor)@ == old(visitor)@.saw(chain_parts(name@, list@, list@.len())),
{
    let ghost start = visitor@;
    let mut i: usize = 0;
    proof {
        module::lemma_saw_nothing(start);
    }
    while i < list.len()
        invariant
            i <= list.len(),
            visitor@ == start.saw(chain_parts(name@, list@, i as nat)),
        decreases list.len() - i,
    {
        visitor.child_at(name, i, &list[i]);
        proof {
            module::lemma_saw_twice(
                start,
                chain_parts(name@, list@, i as nat),
                module::branch(module::numbered(name@, i as nat), &list@[i as int]),
            );
        }
        i += 1;
    }
}

/// Run a list of layers one after another.
pub(crate) fn run_list<L: Layer>(
    layers: &Vec<L>,
    s: &mut Session,
    st: &mut Store,
    input: &Var,
) -> (r: Result<Var, Error>)
    ensures
        flow::ran(
            r,
            final(s)@,
            final(st)@,
            chain_op(flow::world(old(s)@, old(st)@), layers@, input@, layers@.len()),
        ),
{
    let ghost start = flow::world(s@, st@);
    let mut current = input.clone();
    let mut i: usize = 0;
    while i < layers.len()
        invariant
            i <= layers.len(),
            start == flow::world(old(s)@, old(st)@),
            chain_op(start, layers@, input@, i as nat) == Ok::<
                (World, Traced),
                crate::error::Fault,
            >((flow::world(s@, st@), current@)),
        decreases layers.len() - i,
    {
        match layers[i].forward(s, st, &current) {
            Ok(next) => {
                current = next;
            },
            Err(e) => {
                proof {
                    lemma_chain_fails(start, layers@, input@, (i + 1) as nat, layers@.len());
                }
                return Err(e);
            },
        }
        i += 1;
    }
    Ok(current)
}

impl<L: Layer> Sequential<L> {
    /// An empty chain.
    pub fn new() -> (r: Self)
        ensures
            r.layers@ == Seq::<L>::empty(),
    {
        Sequential { layers: Vec::new() }
    }

    /// Append a layer.
    pub fn push(self, layer: L) -> (r: Self)
        ensures
            r.layers@ == self.layers@.push(layer),
    {
        let mut layers = self.layers;
        layers.push(layer);
        Sequential { layers }
    }

    /// Number of layers.
    pub fn len(&self) -> (r: usize)
        ensures
            r == self.layers@.len(),
    {
        self.layers.len()
    }

    /// Whether the chain is empty.
    pub fn is_empty(&self) -> (r: bool)
        ensures
            r == (self.layers@.len() == 0),
    {
        self.layers.len() == 0
    }
}

impl<L: Layer> Module for Sequential<L> {
    open spec fn parts(&self) -> Seq<Listed> {
        chain_parts("layers"@, self.layers@, self.layers@.len())
    }

    open spec fn hooks(&self) -> Seq<Part> {
        Seq::empty()
    }

    fn visit(&self, visitor: &mut ModuleVisitor) {
        visit_list(visitor, "layers", &self.layers);
    }

    fn own_hooks(&self) -> Vec<Part> {
        Vec::new()
    }
}

impl<L: Layer> Layer for Sequential<L> {
    open spec fn forward_op(&self, w: World, x: Traced) -> Step {
        chain_op(w, self.layers@, x, self.layers@.len())
    }

    fn forward(&self, s: &mut Session, st: &mut Store, input: &Var) -> Result<Var, Error> {
        run_list(&self.layers, s, st, input)
    }
}

/// A chain of two chains is the chain of all their layers.
pub proof fn law_chains_compose<L: Layer>(w: World, a: Seq<L>, b: Seq<L>, x: Traced)
    ensures
        chain_op(w, a + b, x, (a + b).len()) == flow::go(
            chain_op(w, a, x, a.len()),
            |u: World, y: Traced| chain_op(u, b, y, b.len()),
        ),
    decreases b.len(),
{
    let all = a + b;
    lemma_chain_prefix(w, a, b, x, a.len());
    if b.len() > 0 {
        let c = b.drop_last();
        law_chains_compose(w, a, c, x);
        lemma_chain_agrees(w, all, a + c, x, (a + c).len());
        match chain_op(w, a, x, a.len()) {
            Ok((u, y)) => {
                lemma_chain_agrees(u, b, c, y, c.len());
            },
            Err(_) => {},
        }
    } else {
        assert(all =~= a);
    }
}

proof fn lemma_chain_agrees<L: Layer>(w: World, a: Seq<L>, b: Seq<L>, x: Traced, k: nat)
    requires
        k <= a.len(),
        k <= b.len(),
        forall|i: int| 0 <= i < k ==> a[i] == b[i],
    ensures
        chain_op(w, a, x, k) == chain_op(w, b, x, k),
    decreases k,
{
    if k > 0 {
        lemma_chain_agrees(w, a, b, x, (k - 1) as nat);
    }
}

proof fn lemma_chain_prefix<L: Layer>(w: World, a: Seq<L>, b: Seq<L>, x: Traced, k: nat)
    requires
        k <= a.len(),
    ensures
        chain_op(w, a + b, x, k) == chain_op(w, a, x, k),
{
    lemma_chain_agrees(w, a + b, a, x, k);
}

} // verus!
