//! What the transforms are over the real numbers.

use vstd::prelude::*;

use super::combinator;
use super::combinator::{Step, Transform};
use super::divergence;
use crate::autograd::adjoint;
use crate::autograd::graph::Tape;
use crate::autograd::ops;
use crate::autograd::var;
use crate::autograd::var::Traced;
use crate::meaning;
use crate::meaning::Functions;
use crate::term::{Scalar, Term, Unary};

verus! {

/// The facts at one point that make each transform invertible there.
pub open spec fn invertible(f: Functions, leaf: spec_fn(Term) -> real, step: Step, x: real) -> bool {
    match step {
        Step::Affine(a) => divergence::at(f, leaf, a.factor()) != 0real,
        Step::Exp(_) => (f.log)((f.exp)(x)) == x,
        Step::Sigmoid(_) => (f.log)((f.sigmoid)(x)) - (f.log)(1real - (f.sigmoid)(x)) == x,
        Step::Tanh(_) => (f.log)((f.tanh)(x) + 1real) - (f.log)(1real - (f.tanh)(x)) == x + x,
        Step::Power(p) => (f.pow)(
            (f.pow)(x, (f.constant)(Scalar::Bits(p.exponent))),
            meaning::scalar(f, Scalar::BitsInverse(p.exponent)),
        ) == x,
    }
}

/// The inverse of a transform undoes it.
pub proof fn law_inverse_undoes_forward(
    f: Functions,
    leaf: spec_fn(Term) -> real,
    step: Step,
    t: Tape,
    x: Traced,
)
    requires
        step.forward_of(t, x) is Ok,
        step.inverse_of(step.forward_of(t, x)->Ok_0.0, step.forward_of(t, x)->Ok_0.1) is Ok,
        invertible(f, leaf, step, divergence::at(f, leaf, x)),
    ensures
        divergence::at(
            f,
            leaf,
            step.inverse_of(
                step.forward_of(t, x)->Ok_0.0,
                step.forward_of(t, x)->Ok_0.1,
            )->Ok_0.1,
        ) == divergence::at(f, leaf, x),
{
    broadcast use var::lemma_record_value;

    reveal_with_fuel(meaning::reading, 8);
    let v = divergence::at(f, leaf, x);
    match step {
        Step::Affine(a) => {
            let (k, l) = (
                divergence::at(f, leaf, a.factor()),
                divergence::at(f, leaf, a.location()),
            );
            assert((v * k + l - l) / k == v) by (nonlinear_arith)
                requires
                    k != 0real,
            ;
        },
        Step::Tanh(_) => {
            assert((v + v) * (1real / 2real) == v) by (nonlinear_arith);
        },
        _ => {},
    }
}

/// The facts at one point that make each log-Jacobian the logarithm of a slope.
pub open spec fn smooth(f: Functions, step: Step, x: real) -> bool {
    match step {
        Step::Exp(_) => (f.log)((f.exp)(x)) == x,
        Step::Sigmoid(_) => {
            let p = (f.sigmoid)(x);
            &&& (f.softplus)(-x) == -(f.log)(p)
            &&& (f.softplus)(x) == -(f.log)(1real - p)
            &&& (f.log)(p * (1real - p)) == (f.log)(p) + (f.log)(1real - p)
        },
        _ => true,
    }
}

/// The log-Jacobian of the exponential and of the sigmoid is the logarithm of the
/// derivative, and that of an affine map the logarithm of the magnitude of its scale.
pub proof fn law_jacobian_is_the_logarithm_of_the_slope(
    f: Functions,
    leaf: spec_fn(Term) -> real,
    step: Step,
    t: Tape,
    x: Traced,
    y: Traced,
)
    requires
        step.jacobian_of(t, x, y) is Ok,
        smooth(f, step, divergence::at(f, leaf, x)),
    ensures
        ({
            let jac = divergence::at(f, leaf, step.jacobian_of(t, x, y)->Ok_0.1);
            let v = divergence::at(f, leaf, x);
            match step {
                Step::Affine(a) => jac == (f.log)(
                    divergence::magnitude(divergence::at(f, leaf, a.factor())),
                ),
                Step::Exp(_) => jac == (f.log)(adjoint::slope(f, Unary::Exp, v)),
                Step::Sigmoid(_) => jac == (f.log)(adjoint::slope(f, Unary::Sigmoid, v)),
                _ => true,
            }
        }),
{
    broadcast use var::lemma_record_value;

    reveal_with_fuel(meaning::reading, 8);
}

/// Reinterpreting axes moves them from the batch to the event and changes nothing
/// else: the batch followed by the event reads the same.
pub proof fn law_reinterpreting_moves_axes(batch: Seq<usize>, event: Seq<usize>, n: usize)
    requires
        n <= batch.len(),
    ensures
        combinator::moved(batch, event, n).0 + combinator::moved(batch, event, n).1 == batch
            + event,
        combinator::moved(batch, event, n).1.len() == event.len() + n,
{
    let (b, e) = combinator::moved(batch, event, n);
    assert(b + e =~= batch + event);
}

} // verus!
