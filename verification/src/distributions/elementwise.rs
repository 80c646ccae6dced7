//! The special functions as differentiable tensor operations.
//!
//! Every function here is one pass over its operand, and every one but the plain
//! ones at the end carries its own adjoint, so `lgamma` and `digamma` are as usable
//! inside a loss as `exp` and `log` are.

use vstd::prelude::*;

use crate::autograd::graph::Session;
use crate::autograd::ops;
use crate::autograd::var::Var;
use crate::tensor;
use crate::tensor::Tensor;
use crate::term::{Special, Unary};

verus! {

/// The logarithm of the gamma function, whose derivative is [`digamma`].
pub fn lgamma(s: &mut Session, x: &Var) -> (r: Var)
    ensures
        (final(s)@, r@) == ops::pointwise_op(old(s)@, Unary::Special(Special::Lgamma), x@),
{
    x.pointwise(s, Unary::Special(Special::Lgamma))
}

/// The derivative of [`lgamma`], whose own derivative is [`trigamma`].
pub fn digamma(s: &mut Session, x: &Var) -> (r: Var)
    ensures
        (final(s)@, r@) == ops::pointwise_op(old(s)@, Unary::Special(Special::Digamma), x@),
{
    x.pointwise(s, Unary::Special(Special::Digamma))
}

/// The Gauss error function.
pub fn erf(s: &mut Session, x: &Var) -> (r: Var)
    ensures
        (final(s)@, r@) == ops::pointwise_op(old(s)@, Unary::Special(Special::Erf), x@),
{
    x.pointwise(s, Unary::Special(Special::Erf))
}

/// The inverse error function.
pub fn erfinv(s: &mut Session, x: &Var) -> (r: Var)
    ensures
        (final(s)@, r@) == ops::pointwise_op(old(s)@, Unary::Special(Special::Erfinv), x@),
{
    x.pointwise(s, Unary::Special(Special::Erfinv))
}

/// The standard normal distribution function.
pub fn ndtr(s: &mut Session, x: &Var) -> (r: Var)
    ensures
        (final(s)@, r@) == ops::pointwise_op(old(s)@, Unary::Special(Special::Ndtr), x@),
{
    x.pointwise(s, Unary::Special(Special::Ndtr))
}

/// The standard normal quantile.
pub fn ndtri(s: &mut Session, x: &Var) -> (r: Var)
    ensures
        (final(s)@, r@) == ops::pointwise_op(old(s)@, Unary::Special(Special::Ndtri), x@),
{
    x.pointwise(s, Unary::Special(Special::Ndtri))
}

/// `ln(1 + x)`, accurate for small `x`.
pub fn log1p(s: &mut Session, x: &Var) -> (r: Var)
    ensures
        (final(s)@, r@) == ops::pointwise_op(old(s)@, Unary::Special(Special::Log1p), x@),
{
    x.pointwise(s, Unary::Special(Special::Log1p))
}

/// `exp(x) - 1`, accurate for small `x`.
pub fn expm1(s: &mut Session, x: &Var) -> (r: Var)
    ensures
        (final(s)@, r@) == ops::pointwise_op(old(s)@, Unary::Special(Special::Expm1), x@),
{
    x.pointwise(s, Unary::Special(Special::Expm1))
}

/// `1 - erf(x)`, exact in the tail where the subtraction is not.
pub fn erfc(s: &mut Session, x: &Var) -> (r: Var)
    ensures
        (final(s)@, r@) == ops::pointwise_op(old(s)@, Unary::Special(Special::Erfc), x@),
{
    x.pointwise(s, Unary::Special(Special::Erfc))
}

/// The logarithm of the modified Bessel function of order zero, whose derivative is
/// [`bessel_ratio`].
pub fn log_i0(s: &mut Session, x: &Var) -> (r: Var)
    ensures
        (final(s)@, r@) == ops::pointwise_op(old(s)@, Unary::Special(Special::LogI0), x@),
{
    x.pointwise(s, Unary::Special(Special::LogI0))
}

/// The second derivative of [`lgamma`]. It has no gradient here, and is a plain tensor
/// so that it cannot be differentiated by accident.
pub fn trigamma(x: &Tensor) -> (r: Tensor)
    ensures
        r@ == tensor::unary_of(Unary::Special(Special::Trigamma), x@),
{
    x.unary(Unary::Special(Special::Trigamma))
}

/// The logarithm of the modified Bessel function of order one.
pub fn log_i1(x: &Tensor) -> (r: Tensor)
    ensures
        r@ == tensor::unary_of(Unary::Special(Special::LogI1), x@),
{
    x.unary(Unary::Special(Special::LogI1))
}

/// The ratio of the modified Bessel functions of orders one and zero.
pub fn bessel_ratio(x: &Tensor) -> (r: Tensor)
    ensures
        r@ == tensor::unary_of(Unary::Special(Special::BesselRatio), x@),
{
    x.unary(Unary::Special(Special::BesselRatio))
}

/// The logarithm of the sigmoid; the differentiable form is minus the softplus of
/// `-x`.
pub fn log_sigmoid(x: &Tensor) -> (r: Tensor)
    ensures
        r@ == tensor::unary_of(Unary::Special(Special::LogSigmoid), x@),
{
    x.unary(Unary::Special(Special::LogSigmoid))
}

/// `ln(1 - exp(x))` for negative `x`.
pub fn log1mexp(x: &Tensor) -> (r: Tensor)
    ensures
        r@ == tensor::unary_of(Unary::Special(Special::Log1mexp), x@),
{
    x.unary(Unary::Special(Special::Log1mexp))
}

} // verus!
