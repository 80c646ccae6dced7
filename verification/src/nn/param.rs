//! Learnable parameters.
//!
//! A `Param` names a weight of a [`Store`]. Copying one names the same weight, which
//! is what lets an optimizer update weights through a flat list and lets an adapter
//! freeze a base weight by flipping one flag.

use vstd::prelude::*;

use super::flow;
use super::flow::{Step, World};
use super::store::{Held, Store, Stored, Weight};
use crate::autograd::graph;
use crate::autograd::graph::{Graph, ParamId, Session, Tape};
use crate::autograd::ops;
use crate::autograd::var::{Place, Traced, Var};
use crate::error::{Error, Fault};
use crate::shape::Shape;
use crate::tensor::{Tensor, Value};
use crate::term::Binary;

verus! {

/// A learnable tensor.
#[derive(Clone, Copy, Debug, PartialEq, Eq, Structural)]
pub struct Param {
    id: ParamId,
}

/// What reading a weight that the store does not hold gives.
pub open spec fn unknown() -> Fault {
    Fault::StateDict("the store holds no such parameter"@)
}

fn unknown_error() -> (e: Error)
    ensures
        e@ == unknown(),
{
    let mut text = String::new();
    text.append("the store holds no such parameter");
    proof {
        assert(text@ =~= "the store holds no such parameter"@);
    }
    Error::StateDict(text)
}

/// A parameter as it enters a computation anchored at a value: a constant when it is
/// frozen or tracking is off, and otherwise a leaf on the anchor's tape, or on a tape
/// of its own when the anchor has none.
pub open spec fn var_op(w: World, id: u64, anchor: Traced) -> Step {
    if !w.store.weights.contains_key(id) {
        Err(unknown())
    } else {
        match anchor.trace {
            Some(p) if w.store.weights[id].trainable && w.tape.enabled => Ok(
                (
                    World { tape: w.tape.with_node(graph::leaf(p.graph, Some(id))), ..w },
                    Traced {
                        value: w.store.weights[id].value,
                        trace: Some(Place { graph: p.graph, node: w.tape.next_node }),
                    },
                ),
            ),
            _ => standalone_op(w, id),
        }
    }
}

/// A parameter on a tape of its own.
pub open spec fn standalone_op(w: World, id: u64) -> Step {
    if !w.store.weights.contains_key(id) {
        Err(unknown())
    } else if w.store.weights[id].trainable && w.tape.enabled {
        let g = w.tape.next_graph;
        Ok(
            (
                World {
                    tape: (Tape { next_graph: graph::following(g), ..w.tape }).with_node(
                        graph::leaf(g, Some(id)),
                    ),
                    ..w
                },
                Traced {
                    value: w.store.weights[id].value,
                    trace: Some(Place { graph: g, node: w.tape.next_node }),
                },
            ),
        )
    } else {
        Ok((w, ops::untracked(w.store.weights[id].value)))
    }
}

/// The value of a parameter.
pub open spec fn value_of(st: Stored, id: u64) -> Result<Value, Fault> {
    if st.weights.contains_key(id) {
        Ok(st.weights[id].value)
    } else {
        Err(unknown())
    }
}

impl Param {
    /// The parameter with a given number.
    pub closed spec fn of(n: u64) -> Param {
        Param { id: ParamId::of(n) }
    }

    /// The number of the parameter.
    pub closed spec fn key(self) -> u64 {
        self.id.id()
    }

    /// Put a tensor under a fresh id, as a trainable parameter.
    pub fn new(s: &mut Session, st: &mut Store, value: Tensor) -> (r: Self)
        ensures
            r == Param::of(old(s)@.next_param),
            r.key() == old(s)@.next_param,
            final(s)@ == (Tape {
                next_param: graph::following(old(s)@.next_param),
                ..old(s)@
            }),
            final(st)@ == old(st)@.with_weight(
                old(s)@.next_param,
                Held { value: value@, trainable: true },
            ),
    {
        let id = ParamId::fresh(s);
        st.put_weight(id, Weight { value, trainable: true });
        Param { id }
    }

    /// This parameter's stable id, the key of its gradient and its optimizer state.
    pub fn id(&self) -> (r: ParamId)
        ensures
            r.id() == self.key(),
    {
        self.id
    }

    /// The current value.
    pub fn value(&self, st: &Store) -> (r: Result<Tensor, Error>)
        ensures
            crate::error::agrees(r, value_of(st@, self.key())),
    {
        match st.weight(self.id) {
            Some(w) => Ok(w.value.clone()),
            None => Err(unknown_error()),
        }
    }

    /// Replace the value. Used by optimizers.
    pub fn set(&self, st: &mut Store, value: Tensor)
        ensures
            final(st)@ == old(st)@.with_value(self.key(), value@),
    {
        let trainable: bool = match st.weight(self.id) {
            Some(w) => w.trainable,
            None => {
                return ;
            },
        };
        st.put_weight(self.id, Weight { value, trainable });
    }

    /// Shape of the value.
    pub fn shape(&self, st: &Store) -> (r: Option<Shape>)
        ensures
            match r {
                Some(d) => st@.weights.contains_key(self.key()) && d@
                    == st@.weights[self.key()].value.dims,
                None => !st@.weights.contains_key(self.key()),
            },
    {
        match st.weight(self.id) {
            Some(w) => Some(w.value.shape().clone()),
            None => None,
        }
    }

    /// Number of scalars; `None` when the count does not fit a machine word.
    pub fn numel(&self, st: &Store) -> (r: Option<usize>)
        ensures
            match r {
                Some(n) => st@.weights.contains_key(self.key()) && n == crate::shape::product(
                    st@.weights[self.key()].value.dims,
                ),
                None => st@.weights.contains_key(self.key()) ==> !crate::shape::fits(
                    st@.weights[self.key()].value.dims,
                ),
            },
    {
        match st.weight(self.id) {
            Some(w) => w.value.shape().checked_elements(),
            None => None,
        }
    }

    /// Whether gradients should be computed for this parameter.
    pub fn requires_grad(&self, st: &Store) -> (r: bool)
        ensures
            r == (st@.weights.contains_key(self.key()) && st@.weights[self.key()].trainable),
    {
        match st.weight(self.id) {
            Some(w) => w.trainable,
            None => false,
        }
    }

    /// Freeze or unfreeze. A frozen parameter enters the graph as a constant.
    pub fn set_requires_grad(&self, st: &mut Store, flag: bool)
        ensures
            final(st)@ == old(st)@.with_flag(self.key(), flag),
    {
        let value = match st.weight(self.id) {
            Some(w) => w.value.clone(),
            None => {
                return ;
            },
        };
        st.put_weight(self.id, Weight { value, trainable: flag });
    }

    /// Freeze this parameter.
    pub fn freeze(&self, st: &mut Store)
        ensures
            final(st)@ == old(st)@.with_flag(self.key(), false),
    {
        self.set_requires_grad(st, false);
    }

    /// A [`Var`] for this parameter, joined to `anchor`'s tape.
    pub fn var(&self, s: &mut Session, st: &Store, anchor: &Var) -> (r: Result<Var, Error>)
        ensures
            flow::ran(r, final(s)@, st@, var_op(flow::world(old(s)@, st@), self.key(), anchor@)),
    {
        match st.weight(self.id) {
            None => Err(unknown_error()),
            Some(w) => match anchor.graph() {
                Some(g) if w.trainable && s.enabled() => Ok(
                    Var::param_leaf(s, w.value.clone(), g, self.id),
                ),
                _ => self.var_standalone(s, st),
            },
        }
    }

    /// A [`Var`] on a brand new tape, for a parameter that is the root of its own
    /// expression.
    pub fn var_standalone(&self, s: &mut Session, st: &Store) -> (r: Result<Var, Error>)
        ensures
            flow::ran(r, final(s)@, st@, standalone_op(flow::world(old(s)@, st@), self.key())),
    {
        match st.weight(self.id) {
            None => Err(unknown_error()),
            Some(w) => if w.trainable && s.enabled() {
                let g = Graph::new(s);
                Ok(Var::param_leaf(s, w.value.clone(), g, self.id))
            } else {
                Ok(Var::constant(w.value.clone()))
            },
        }
    }
}

/// A value plus a parameter that may be missing.
pub open spec fn plus_op(w: World, x: Traced, p: Option<Param>, anchor: Traced) -> Step {
    match p {
        Some(b) => flow::go(
            var_op(w, b.key(), anchor),
            |u: World, v: Traced| flow::on(u, ops::binary_op(u.tape, Binary::Add, x, v)),
        ),
        None => Ok((w, x)),
    }
}

/// A value times a parameter that may be missing.
pub open spec fn times_op(w: World, x: Traced, p: Option<Param>, anchor: Traced) -> Step {
    match p {
        Some(b) => flow::go(
            var_op(w, b.key(), anchor),
            |u: World, v: Traced| flow::on(u, ops::binary_op(u.tape, Binary::Mul, x, v)),
        ),
        None => Ok((w, x)),
    }
}

/// Add a parameter that may be missing.
pub(crate) fn plus(s: &mut Session, st: &Store, x: Var, p: &Option<Param>, anchor: &Var) -> (r:
    Result<Var, Error>)
    ensures
        flow::ran(
            r,
            final(s)@,
            st@,
            plus_op(flow::world(old(s)@, st@), x@, *p, anchor@),
        ),
{
    match p {
        Some(b) => {
            let v = b.var(s, st, anchor)?;
            x.add(s, &v)
        },
        None => Ok(x),
    }
}

/// Multiply by a parameter that may be missing.
pub(crate) fn times(s: &mut Session, st: &Store, x: Var, p: &Option<Param>, anchor: &Var) -> (r:
    Result<Var, Error>)
    ensures
        flow::ran(
            r,
            final(s)@,
            st@,
            times_op(flow::world(old(s)@, st@), x@, *p, anchor@),
        ),
{
    match p {
        Some(b) => {
            let v = b.var(s, st, anchor)?;
            x.mul(s, &v)
        },
        None => Ok(x),
    }
}

/// A parameter is the number it was made from.
pub broadcast proof fn lemma_param_key(n: u64)
    ensures
        (#[trigger] Param::of(n)).key() == n,
{
    graph::lemma_param_id(n);
}

/// A frozen parameter is a constant wherever it is used, and using it records nothing.
pub proof fn law_frozen_is_constant(w: World, id: u64, anchor: Traced)
    requires
        w.store.weights.contains_key(id),
    ensures
        var_op(
            World { store: w.store.with_flag(id, false), ..w },
            id,
            anchor,
        ) == Ok::<(World, Traced), Fault>(
            (
                World { store: w.store.with_flag(id, false), ..w },
                ops::untracked(w.store.weights[id].value),
            ),
        ),
{
}

/// Freezing and unfreezing leaves the value alone, and replacing the value leaves the
/// flag alone.
pub proof fn law_value_and_flag_are_apart(st: Stored, id: u64, flag: bool, v: Value)
    requires
        st.weights.contains_key(id),
    ensures
        st.with_flag(id, flag).weights[id].value == st.weights[id].value,
        st.with_value(id, v).weights[id].trainable == st.weights[id].trainable,
        st.with_value(id, v).weights[id].value == v,
{
}

} // verus!
