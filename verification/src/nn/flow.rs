//! The state a forward pass runs in: the tape and the store, side by side.

use vstd::prelude::*;

use super::store::Stored;
use crate::autograd::graph::Tape;
use crate::autograd::var::{Traced, Var};
use crate::error::{Error, Fault};

verus! {

/// A tape and a store.
pub struct World {
    pub tape: Tape,
    pub store: Stored,
}

/// What a fallible step of a forward pass gives.
pub type Step = Result<(World, Traced), Fault>;

/// A step that only touches the tape.
pub open spec fn on(w: World, r: Result<(Tape, Traced), Fault>) -> Step {
    match r {
        Ok((t, v)) => Ok((World { tape: t, ..w }, v)),
        Err(f) => Err(f),
    }
}

/// A step that only touches the tape and cannot fail.
pub open spec fn at(w: World, p: (Tape, Traced)) -> Step {
    Ok((World { tape: p.0, ..w }, p.1))
}

/// One step after another.
pub open spec fn go(r: Step, f: spec_fn(World, Traced) -> Step) -> Step {
    match r {
        Ok((w, v)) => f(w, v),
        Err(e) => Err(e),
    }
}

/// Whether a forward pass that ended with the given tape and store did what a
/// mathematical one says.
pub open spec fn ran(r: Result<Var, Error>, tape: Tape, store: Stored, want: Step) -> bool {
    match (r, want) {
        (Ok(v), Ok((w, x))) => v@ == x && tape == w.tape && store == w.store,
        (Err(e), Err(f)) => e@ == f,
        _ => false,
    }
}

pub open spec fn world(tape: Tape, store: Stored) -> World {
    World { tape, store }
}

} // verus!
