//! The density of a pushed-forward distribution is the change of variables.

use vstd::prelude::*;

use super::base::Distribution;
use super::combinator;
use super::combinator::{Step, Transform};
use super::divergence::{at, magnitude};
use crate::autograd::adjoint;
use crate::autograd::graph::Tape;
use crate::autograd::ops;
use crate::autograd::var;
use crate::autograd::var::Traced;
use crate::meaning;
use crate::meaning::Functions;
use crate::term::{Binary, Scalar, Term, Unary};

verus! {

/// What a transform makes of a number.
pub open spec fn image(f: Functions, leaf: spec_fn(Term) -> real, step: Step, x: real) -> real {
    match step {
        Step::Affine(a) => at(f, leaf, a.location()) + at(f, leaf, a.factor()) * x,
        Step::Exp(_) => (f.exp)(x),
        Step::Sigmoid(_) => (f.sigmoid)(x),
        Step::Tanh(_) => (f.tanh)(x),
        Step::Power(p) => (f.pow)(x, (f.constant)(Scalar::Bits(p.exponent))),
    }
}

/// The derivative of [`image`].
pub open spec fn slope(f: Functions, leaf: spec_fn(Term) -> real, step: Step, x: real) -> real {
    match step {
        Step::Affine(a) => at(f, leaf, a.factor()),
        Step::Exp(_) => adjoint::slope(f, Unary::Exp, x),
        Step::Sigmoid(_) => adjoint::slope(f, Unary::Sigmoid, x),
        Step::Tanh(_) => adjoint::slope(f, Unary::Tanh, x),
        Step::Power(p) => adjoint::slope(f, Unary::PowfScalar(Scalar::Bits(p.exponent)), x),
    }
}

/// The logarithm of the magnitude of the derivative.
pub open spec fn log_slope(f: Functions, leaf: spec_fn(Term) -> real, step: Step, x: real) -> real {
    (f.log)(magnitude(slope(f, leaf, step, x)))
}

/// The facts on the functions at one point that the transforms rest on: a scale is not zero,
/// and logarithms undo exponentials, powers and the two squashing functions.
pub open spec fn tame(f: Functions, leaf: spec_fn(Term) -> real, step: Step, x: real) -> bool {
    match step {
        Step::Affine(a) => at(f, leaf, a.factor()) != 0real,
        Step::Exp(_) => (f.log)((f.exp)(x)) == x && (f.exp)(x) > 0real,
        Step::Sigmoid(_) => {
            let p = (f.sigmoid)(x);
            &&& (f.log)(p) - (f.log)(1real - p) == x
            &&& 0real < p * (1real - p)
            &&& -(f.softplus)(-x) - (f.softplus)(x) == (f.log)(p * (1real - p))
        },
        Step::Tanh(_) => {
            let y = (f.tanh)(x);
            &&& (f.log)(y + 1real) - (f.log)(1real - y) == 2real * x
            &&& 0real < 1real - y * y
            &&& 2real * ((f.constant)(Scalar::LnTwo) - x - (f.softplus)(-2real * x)) == (f.log)(
                1real - y * y,
            )
        },
        Step::Power(p) => {
            let (k, y) = (
                (f.constant)(Scalar::Bits(p.exponent)),
                image(f, leaf, step, x),
            );
            &&& (f.pow)(y, meaning::scalar(f, Scalar::BitsInverse(p.exponent))) == x
            &&& (f.log)(magnitude(y / x)) + (f.constant)(Scalar::BitsLnAbs(p.exponent)) == (f.log)(
                magnitude(slope(f, leaf, step, x)),
            )
        },
    }
}

/// Whether every number of a path is what its transform makes of the one before it.
pub open spec fn path(f: Functions, leaf: spec_fn(Term) -> real, chain: Seq<Step>, xs: Seq<real>) -> bool {
    &&& xs.len() == chain.len() + 1
    &&& forall|k: int|
        0 <= k < chain.len() ==> #[trigger] tame(f, leaf, chain[k], xs[k]) && xs[k + 1] == image(
            f,
            leaf,
            chain[k],
            xs[k],
        )
}

/// The log-slopes along a path, from a transform on, summed.
pub open spec fn log_slopes(
    f: Functions,
    leaf: spec_fn(Term) -> real,
    chain: Seq<Step>,
    xs: Seq<real>,
    from: int,
) -> real
    decreases chain.len() - from,
{
    if from < 0 || from >= chain.len() {
        0real
    } else {
        log_slope(f, leaf, chain[from], xs[from]) + log_slopes(f, leaf, chain, xs, from + 1)
    }
}

/// The inverse of a transform at an image gives the number back.
#[verifier::spinoff_prover]
proof fn lemma_inverse(f: Functions, leaf: spec_fn(Term) -> real, step: Step, t: Tape, y: Traced, x: real)
    requires
        tame(f, leaf, step, x),
        at(f, leaf, y) == image(f, leaf, step, x),
    ensures
        step.inverse_of(t, y) matches Ok(r) ==> at(f, leaf, r.1) == x,
{
    broadcast use var::lemma_record_value;

    reveal_with_fuel(meaning::reading, 8);
    match step {
        Step::Affine(a) => {
            let (k, l) = (at(f, leaf, a.factor()), at(f, leaf, a.location()));
            assert((l + k * x - l) / k == x) by (nonlinear_arith)
                requires
                    k != 0real,
            ;
        },
        Step::Tanh(_) => {
            assert((2real * x) * (1real / 2real) == x) by (nonlinear_arith);
        },
        _ => {},
    }
}

/// The log-Jacobian of a transform is the logarithm of the magnitude of its derivative.
#[verifier::spinoff_prover]
proof fn lemma_jacobian(
    f: Functions,
    leaf: spec_fn(Term) -> real,
    step: Step,
    t: Tape,
    x: Traced,
    y: Traced,
)
    requires
        tame(f, leaf, step, at(f, leaf, x)),
        at(f, leaf, y) == image(f, leaf, step, at(f, leaf, x)),
    ensures
        step.jacobian_of(t, x, y) matches Ok(r) ==> at(f, leaf, r.1) == log_slope(
            f,
            leaf,
            step,
            at(f, leaf, x),
        ),
{
    broadcast use var::lemma_record_value;

    reveal_with_fuel(meaning::reading, 8);
    let v = at(f, leaf, x);
    match step {
        Step::Tanh(_) => {
            assert(v * (-2real) == -2real * v) by (nonlinear_arith);
            let s = (f.softplus)(-2real * v);
            let l = (f.constant)(Scalar::LnTwo);
            assert((l - (v + s)) * 2real == 2real * (l - v - s)) by (nonlinear_arith);
        },
        _ => {},
    }
}

proof fn lemma_back(
    f: Functions,
    leaf: spec_fn(Term) -> real,
    t: Tape,
    chain: Seq<Step>,
    y: Traced,
    xs: Seq<real>,
    k: nat,
)
    requires
        path(f, leaf, chain, xs),
        at(f, leaf, y) == xs.last(),
        k <= chain.len(),
    ensures
        combinator::backward_chain(t, chain, y, k) matches Ok(r) ==> {
            &&& at(f, leaf, r.1) == xs[chain.len() - k]
            &&& (k == 0 <==> r.2 is None)
            &&& r.2 matches Some(c) ==> at(f, leaf, c) == log_slopes(
                f,
                leaf,
                chain,
                xs,
                chain.len() - k,
            )
        },
    decreases k,
{
    broadcast use var::lemma_record_value;

    reveal_with_fuel(meaning::reading, 2);
    if k > 0 {
        lemma_back(f, leaf, t, chain, y, xs, (k - 1) as nat);
        let n = chain.len() - k;
        assert(tame(f, leaf, chain[n], xs[n]));
        let before = combinator::backward_chain(t, chain, y, (k - 1) as nat);
        if combinator::backward_chain(t, chain, y, k) is Ok {
            let (t1, v, sum) = before->Ok_0;
            let step = chain[n];
            lemma_inverse(f, leaf, step, t1, v, xs[n]);
            let (t2, x) = step.inverse_of(t1, v)->Ok_0;
            lemma_jacobian(f, leaf, step, t2, x, v);
            assert(log_slopes(f, leaf, chain, xs, n) == log_slope(f, leaf, step, xs[n])
                + log_slopes(f, leaf, chain, xs, n + 1));
            if k == 1 {
                assert(log_slopes(f, leaf, chain, xs, n + 1) == 0real);
            }
        }
    }
}

/// The change of variables. A number `xs[0]` that the transforms take along a path to a value
/// has, pushed forward, the base's log-density at that number, less the logarithms of the
/// magnitudes of the derivatives along the path. Returns the tape and the pulled-back value at
/// which the base is asked.
pub proof fn law_density_is_the_change_of_variables<D: Distribution>(
    f: Functions,
    leaf: spec_fn(Term) -> real,
    t: Tape,
    base: D,
    chain: Seq<Step>,
    value: Traced,
    xs: Seq<real>,
) -> (pulled: (Tape, Traced))
    requires
        combinator::transformed_log_prob(t, base, chain, value) is Ok,
        path(f, leaf, chain, xs),
        at(f, leaf, value) == xs.last(),
    ensures
        at(f, leaf, pulled.1) == xs[0],
        base.log_prob_of(pulled.0, pulled.1) is Ok,
        at(f, leaf, combinator::transformed_log_prob(t, base, chain, value)->Ok_0.1) == at(
            f,
            leaf,
            base.log_prob_of(pulled.0, pulled.1)->Ok_0.1,
        ) - log_slopes(f, leaf, chain, xs, 0),
{
    broadcast use var::lemma_record_value;

    reveal_with_fuel(meaning::reading, 2);
    lemma_back(f, leaf, t, chain, value, xs, chain.len());
    let (u, x, correction) = combinator::backward_chain(t, chain, value, chain.len())->Ok_0;
    let r = base.log_prob_of(u, x);
    assert(r is Ok);
    if correction is None {
        assert(log_slopes(f, leaf, chain, xs, 0) == 0real);
    }
    (u, x)
}

/// Pushing a value through a chain applies the transforms one after another: what comes out
/// is the end of the path that starts at the value.
pub proof fn law_pushing_follows_the_path(
    f: Functions,
    leaf: spec_fn(Term) -> real,
    t: Tape,
    chain: Seq<Step>,
    x: Traced,
    xs: Seq<real>,
    n: nat,
)
    requires
        path(f, leaf, chain, xs),
        at(f, leaf, x) == xs[0],
        n <= chain.len(),
    ensures
        combinator::forward_chain(t, chain, x, n) matches Ok(r) ==> at(f, leaf, r.1) == xs[n as int],
    decreases n,
{
    broadcast use var::lemma_record_value;

    reveal_with_fuel(meaning::reading, 4);
    if n > 0 {
        law_pushing_follows_the_path(f, leaf, t, chain, x, xs, (n - 1) as nat);
        assert(tame(f, leaf, chain[n - 1], xs[n - 1]));
        if let Step::Affine(a) = chain[n - 1] {
            let (k, l, v) = (at(f, leaf, a.factor()), at(f, leaf, a.location()), xs[n - 1]);
            assert(v * k + l == l + k * v) by (nonlinear_arith);
        }
    }
}

/// The logarithm of the density of a normal.
pub open spec fn normal_log_density(f: Functions, half_log_two_pi: real, loc: real, scale: real, x: real) -> real {
    let z = (x - loc) / scale;
    -(z * z) / 2real - (f.log)(scale) - half_log_two_pi
}

/// An affine map takes a standard normal to the normal of its location and of the magnitude of
/// its scale: the change of variables gives that normal's density.
pub proof fn law_affine_image_of_a_standard_normal(
    f: Functions,
    leaf: spec_fn(Term) -> real,
    half_log_two_pi: real,
    step: Step,
    x: real,
)
    requires
        step is Affine,
        tame(f, leaf, step, x),
        (f.log)(1real) == 0real,
    ensures
        normal_log_density(f, half_log_two_pi, 0real, 1real, x) - log_slope(f, leaf, step, x)
            == normal_log_density(
            f,
            half_log_two_pi,
            at(f, leaf, step->Affine_0.location()),
            magnitude(at(f, leaf, step->Affine_0.factor())),
            image(f, leaf, step, x),
        ),
{
    let a = step->Affine_0;
    let (l, k) = (at(f, leaf, a.location()), at(f, leaf, a.factor()));
    let m = magnitude(k);
    let z = (l + k * x - l) / m;
    assert(z == x || z == -x) by (nonlinear_arith)
        requires
            k != 0real,
            m == k || m == -k,
            z == (l + k * x - l) / m,
    ;
    assert((x - 0real) / 1real == x) by (nonlinear_arith);
    assert((-x) * (-x) == x * x) by (nonlinear_arith);
}

} // verus!
