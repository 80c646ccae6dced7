//! The hand-written adjoints are the derivatives of their functions.

use vstd::prelude::*;

use super::ops;
use super::reduce;
use super::rule;
use super::rule::RuleOf;
use crate::meaning;
use crate::meaning::Functions;
use crate::shape;
use crate::tensor;
use crate::tensor::Value;
use crate::term::{Binary, Scalar, Special, Term, Unary};

verus! {

/// What a value is at one place.
pub open spec fn at(f: Functions, leaf: spec_fn(Term) -> real, v: Value) -> real {
    meaning::reading(f, leaf, v.term)
}

/// The derivative of an elementwise function, as calculus has it.
pub open spec fn slope(f: Functions, op: Unary, x: real) -> real {
    match op {
        Unary::Neg => -1real,
        Unary::Exp => (f.exp)(x),
        Unary::Log => 1real / x,
        Unary::Sqrt => 1real / ((f.sqrt)(x) * 2real),
        Unary::Rsqrt => {
            let y = 1real / (f.sqrt)(x);
            y * y * y * (-1real / 2real)
        },
        Unary::Recip => -((1real / x) * (1real / x)),
        Unary::Abs => if x < 0real {
            -1real
        } else {
            meaning::indicator(x > 0real)
        },
        Unary::Tanh => 1real - (f.tanh)(x) * (f.tanh)(x),
        Unary::Sigmoid => (f.sigmoid)(x) * (1real - (f.sigmoid)(x)),
        Unary::Sin => (f.cos)(x),
        Unary::Cos => -(f.sin)(x),
        Unary::Erf => (f.exp)(-(x * x)) * (f.constant)(Scalar::TwoInvSqrtPi),
        Unary::Relu => meaning::indicator(x > 0real),
        // The straight-through estimators pass the gradient as it is.
        Unary::Round | Unary::WrapTo(_) => 1real,
        // The product rule on `x s` for a sigmoid `s`.
        Unary::Silu => (f.sigmoid)(x) + x * ((f.sigmoid)(x) * (1real - (f.sigmoid)(x))),
        Unary::Softplus => (f.sigmoid)(x),
        Unary::AddScalar(_) => 1real,
        Unary::MulScalar(a) => meaning::scalar(f, a),
        Unary::RsubScalar(_) => -1real,
        Unary::PowfScalar(Scalar::Bits(a)) => (f.pow)(x, (f.constant)(Scalar::BitsLessOne(a)))
            * (f.constant)(Scalar::Bits(a)),
        Unary::PowfScalar(Scalar::BitsInverse(a)) => (f.pow)(
            x,
            (f.constant)(Scalar::BitsInverseLessOne(a)),
        ) * meaning::scalar(f, Scalar::BitsInverse(a)),
        Unary::Clamp(lo, hi) => meaning::indicator(
            meaning::scalar(f, lo) < x && x < meaning::scalar(f, hi),
        ),
        Unary::Special(Special::Lgamma) => (f.special)(Special::Digamma, x),
        Unary::Special(Special::Digamma) => (f.special)(Special::Trigamma, x),
        Unary::Special(Special::Erf) => (f.special)(Special::ErfGrad, x),
        Unary::Special(Special::Erfc) => -(f.special)(Special::ErfGrad, x),
        Unary::Special(Special::Erfinv) => (f.special)(Special::ErfinvGrad, x),
        Unary::Special(Special::Ndtr) => (f.special)(Special::Ndpdf, x),
        Unary::Special(Special::Ndtri) => (f.special)(Special::NdtriGrad, x),
        Unary::Special(Special::Log1p) => 1real / (x + 1real),
        Unary::Special(Special::Expm1) => (f.exp)(x),
        Unary::Special(Special::LogI0) => (f.special)(Special::BesselRatio, x),
        _ => 0real,
    }
}

/// The functions that have an adjoint.
pub open spec fn differentiable(op: Unary) -> bool {
    match op {
        Unary::Sign | Unary::GtScalar(_) | Unary::LtScalar(_) | Unary::EqScalar(_) => false,
        Unary::PowfScalar(a) => a is Bits || a is BitsInverse,
        Unary::Special(k) => rule::special_slope(k) is Some || k is Erfc || k is Log1p || k is Expm1,
        _ => true,
    }
}

/// Where a function's derivative divides, what it divides by is not zero.
pub open spec fn regular(f: Functions, op: Unary, x: real) -> bool {
    match op {
        Unary::Log | Unary::Recip => x != 0real,
        Unary::Sqrt | Unary::Rsqrt => (f.sqrt)(x) != 0real,
        Unary::Special(Special::Log1p) => x + 1real != 0real,
        _ => true,
    }
}

proof fn lemma_divide(g: real, d: real)
    requires
        d != 0real,
    ensures
        g / d == g * (1real / d),
{
    assert(g / d == g * (1real / d)) by (nonlinear_arith)
        requires
            d != 0real,
    ;
}

/// The adjoint of an elementwise function multiplies the gradient by the function's
/// derivative at the input, element by element, whether the rule reads the saved input
/// or the saved output.
pub proof fn law_pointwise_adjoint_is_the_derivative(
    f: Functions,
    leaf: spec_fn(Term) -> real,
    op: Unary,
    x: Value,
    g: Value,
    bands: Seq<Option<Value>>,
)
    requires
        differentiable(op),
        regular(f, op, at(f, leaf, x)),
        g.dims == x.dims,
    ensures
        rule::pullback(ops::pointwise_rule(op, x), g, bands) matches Ok(grads) && grads.len() == 1
            && (grads[0] matches Some(v) && v.dims == x.dims && at(f, leaf, v) == at(f, leaf, g)
            * slope(f, op, at(f, leaf, x))),
{
    reveal(rule::pullback);
    reveal(rule::arithmetic_pullback);
    reveal_with_fuel(meaning::reading, 8);
    shape::law_broadcast_idempotent(x.dims);
    let (gr, xr) = (at(f, leaf, g), at(f, leaf, x));
    match op {
        Unary::Log => lemma_divide(gr, xr),
        Unary::Sqrt => {
            let d = (f.sqrt)(xr) * 2real;
            assert(d != 0real);
            lemma_divide(gr, d);
        },
        Unary::Special(Special::Log1p) => lemma_divide(gr, xr + 1real),
        Unary::Neg | Unary::RsubScalar(_) => {
            assert(-gr == gr * (-1real)) by (nonlinear_arith);
        },
        Unary::Clamp(lo, hi) => {
            let (a, b) = (meaning::scalar(f, lo), meaning::scalar(f, hi));
            assert(0real * 0real == 0real && 1real * 0real == 0real && 0real * 1real == 0real && 1real
                * 1real == 1real);
        },
        Unary::Special(Special::Erfc) => {
            let d = (f.special)(Special::ErfGrad, xr);
            assert(-(gr * d) == gr * (-d)) by (nonlinear_arith);
        },
        _ => {},
    }
}

/// The gradients of a quotient of operands of one shape are those of the quotient
/// rule.
pub proof fn law_quotient_rule(
    f: Functions,
    leaf: spec_fn(Term) -> real,
    a: Value,
    b: Value,
    g: Value,
    bands: Seq<Option<Value>>,
)
    requires
        a.dims == b.dims,
        g.dims == a.dims,
        at(f, leaf, b) != 0real,
    ensures
        rule::pullback(RuleOf::Div(true, true, a, b), g, bands) matches Ok(grads) && grads.len()
            == 2 && (grads[0] matches Some(l) && at(f, leaf, l) == at(f, leaf, g) / at(f, leaf, b))
            && (grads[1] matches Some(r) && at(f, leaf, r) == -(at(f, leaf, g) * at(f, leaf, a) / (
        at(f, leaf, b) * at(f, leaf, b)))),
{
    reveal(rule::pullback);
    reveal(rule::arithmetic_pullback);
    reveal_with_fuel(meaning::reading, 8);
    shape::law_broadcast_idempotent(a.dims);
}

/// The gradients of a product of operands of one shape are those of the product rule.
pub proof fn law_product_rule(
    f: Functions,
    leaf: spec_fn(Term) -> real,
    a: Value,
    b: Value,
    g: Value,
    bands: Seq<Option<Value>>,
)
    requires
        a.dims == b.dims,
        g.dims == a.dims,
    ensures
        rule::pullback(RuleOf::Mul(true, true, a, b), g, bands) matches Ok(grads) && grads.len()
            == 2 && (grads[0] matches Some(l) && at(f, leaf, l) == at(f, leaf, g) * at(f, leaf, b))
            && (grads[1] matches Some(r) && at(f, leaf, r) == at(f, leaf, g) * at(f, leaf, a)),
{
    reveal(rule::pullback);
    reveal(rule::arithmetic_pullback);
    reveal_with_fuel(meaning::reading, 8);
    shape::law_broadcast_idempotent(a.dims);
}

} // verus!
