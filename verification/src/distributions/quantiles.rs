//! Quantile formulas, and that their slopes, taken by the rules of calculus, are their adjoints.

use vstd::prelude::*;

use super::algebra::{
    lemma_inverse, lemma_negative_inverse, lemma_nonzero, lemma_over, lemma_over_two,
    lemma_times, lemma_vanishes,
};
use super::densities::{positive, proper, slopes_at};
use super::families;
use super::formula;
use super::formula::{
    Calculus, Call, Formula, Named, Pair, Point, Slot, call, less, minus, named, over, pair, plus,
    ratio, slot, times, whole,
};
use super::slopes;
use super::slopes::Slopes;
use super::univariate::Kind;

verus! {

/// Where the slopes of a quantile are stated: proper parameters, a probability between zero
/// and one, and no denominator that vanishes. A Laplace quantile has a corner at one half.
pub open spec fn invertible(m: Calculus, kind: Kind, p: Point) -> bool {
    &&& kind.inverts()
    &&& positive(kind, p)
    &&& 0real < p.x < 1real
    &&& match kind {
        Kind::Laplace => p.x != 1real / 2real,
        Kind::Gumbel => (m.ln)(p.x) != 0real,
        Kind::Weibull => (m.log1p)(-p.x) != 0real,
        Kind::Kumaraswamy => {
            let t = (m.log1p)(-p.x) / p.b;
            (m.expm1)(t) != 0real && (m.expm1)(t) == (m.exp)(t) - 1real
        },
        _ => true,
    }
}

#[verifier::spinoff_prover]
pub(crate) fn normal() -> (r: Formula)
    ensures
        forall|m: Calculus, p: Point| #[trigger]
            formula::meaning(m, r, p) == families::inverse(m, Kind::Normal, p),
        forall|m: Calculus, p: Point|
            proper(m) && invertible(m, Kind::Normal, p) ==> #[trigger] slopes_at(m, r, p)
                == slopes::inverse_slopes(m, Kind::Normal, p),
{
    let r = plus(slot(Slot::A), times(slot(Slot::B), call(Call::Ndtri, slot(Slot::X))));
    proof {
        assert forall|m: Calculus, p: Point|
            proper(m) && invertible(m, Kind::Normal, p) implies #[trigger] slopes_at(m, r, p)
                == slopes::inverse_slopes(m, Kind::Normal, p) by {
            broadcast use formula::lemma_along;

        }
    }
    r
}

#[verifier::spinoff_prover]
proof fn lemma_uniform_a(x: real, a: real, b: real)
    requires
        a < b,
    ensures
        1real + x * (-1real) == 1real - x,
{
    assert(1real + x * (-1real) == 1real - x) by (nonlinear_arith);
}

#[verifier::spinoff_prover]
pub(crate) fn uniform() -> (r: Formula)
    ensures
        forall|m: Calculus, p: Point| #[trigger]
            formula::meaning(m, r, p) == families::inverse(m, Kind::Uniform, p),
        forall|m: Calculus, p: Point|
            proper(m) && invertible(m, Kind::Uniform, p) ==> #[trigger] slopes_at(m, r, p)
                == slopes::inverse_slopes(m, Kind::Uniform, p),
{
    let r = plus(slot(Slot::A), times(slot(Slot::X), less(slot(Slot::B), slot(Slot::A))));
    proof {
        assert forall|m: Calculus, p: Point|
            proper(m) && invertible(m, Kind::Uniform, p) implies #[trigger] slopes_at(m, r, p)
                == slopes::inverse_slopes(m, Kind::Uniform, p) by {
            broadcast use formula::lemma_along;

            let x = p.x;
            let a = p.a;
            let b = p.b;
            lemma_uniform_a(x, a, b);
        }
    }
    r
}

#[verifier::spinoff_prover]
proof fn lemma_exponential_x(x: real, a: real)
    requires
        0real < a,
        0real < x,
        x < 1real,
    ensures
        1real / a * (-(1real / (1real + (-x)) * (-1real))) == 1real / (a * (1real - x)),
{
    let i = 1real / a;
    let j = 1real / (1real - x);
    lemma_times(1real / (1real + (-x)), -1real, j, -1real);
    lemma_times(1real / a, -(1real / (1real + (-x)) * (-1real)), i, -(j * (-1real)));
    lemma_nonzero(a, 1real - x);
    lemma_over_two(1real, a, 1real - x);
    lemma_times(1real / a, 1real / (1real - x), i, j);
    assert(i * (-(j * (-1real))) == i * j) by (nonlinear_arith);
}

#[verifier::spinoff_prover]
proof fn lemma_exponential_a(x: real, a: real, q: real)
    requires
        0real < a,
        0real < x,
        x < 1real,
    ensures
        1real / a * (-((-q) / a)) == (-((-q) / a)) / a,
{
    let i = 1real / a;
    lemma_over(-q, a);
    lemma_times(-q, 1real / a, -q, i);
    lemma_times(1real / a, -((-q) / a), i, -((-q) * i));
    lemma_over(-((-q) / a), a);
    lemma_times(-((-q) / a), 1real / a, -((-q) * i), i);
    assert(i * (-((-q) * i)) == (-((-q) * i)) * i) by (nonlinear_arith);
}

#[verifier::spinoff_prover]
pub(crate) fn exponential() -> (r: Formula)
    ensures
        forall|m: Calculus, p: Point| #[trigger]
            formula::meaning(m, r, p) == families::inverse(m, Kind::Exponential, p),
        forall|m: Calculus, p: Point|
            proper(m) && invertible(m, Kind::Exponential, p) ==> #[trigger] slopes_at(m, r, p)
                == slopes::inverse_slopes(m, Kind::Exponential, p),
{
    let r = over(minus(call(Call::Log1p, minus(slot(Slot::X)))), slot(Slot::A));
    proof {
        assert forall|m: Calculus, p: Point|
            proper(m) && invertible(m, Kind::Exponential, p) implies #[trigger] slopes_at(m, r, p)
                == slopes::inverse_slopes(m, Kind::Exponential, p) by {
            broadcast use formula::lemma_along;

            let x = p.x;
            let a = p.a;
            let q = (m.log1p)(-x);
            lemma_exponential_x(x, a);
            lemma_exponential_a(x, a, q);
        }
    }
    r
}

#[verifier::spinoff_prover]
proof fn lemma_laplace_x(b: real, d0: real, s: real)
    requires
        0real < b,
        1real - 2real * d0 != 0real,
        s == 1real || s == -1real,
    ensures
        -(b * s * (1real / (1real + (-2real) * d0) * ((-2real) * s))) == 2real * b
            / (1real - 2real * d0),
{
    let i = 1real / (1real - 2real * d0);
    lemma_times(1real / (1real + (-2real) * d0), (-2real) * s, i, (-2real) * s);
    lemma_times(b * s, 1real / (1real + (-2real) * d0) * ((-2real) * s), b * s, i * ((-2real) * s));
    lemma_over(2real * b, 1real - 2real * d0);
    lemma_times(2real * b, 1real / (1real - 2real * d0), 2real * b, i);
    assert(s * s == 1real) by (nonlinear_arith)
        requires
    s == 1real || s == -1real,
    ;
    lemma_vanishes(2real * b * i, s * s - 1real);
    assert(
        -(b * s * (i * ((-2real) * s)))
            - (2real * b * i) == (2real * b * i) * (s * s - 1real)
    ) by (nonlinear_arith);
    assert(-(b * s * (i * ((-2real) * s))) == 2real * b * i);
}

#[verifier::spinoff_prover]
proof fn lemma_laplace_b(b: real, d0: real, q: real, s: real)
    requires
        0real < b,
        1real - 2real * d0 != 0real,
        s == 1real || s == -1real,
    ensures
        -(q * s) == (-s) * q,
{
    assert(-(q * s) == (-s) * q) by (nonlinear_arith);
}

#[verifier::spinoff_prover]
pub(crate) fn laplace() -> (r: Formula)
    ensures
        forall|m: Calculus, p: Point| #[trigger]
            formula::meaning(m, r, p) == families::inverse(m, Kind::Laplace, p),
        forall|m: Calculus, p: Point|
            proper(m) && invertible(m, Kind::Laplace, p) ==> #[trigger] slopes_at(m, r, p)
                == slopes::inverse_slopes(m, Kind::Laplace, p),
{
    let d = less(slot(Slot::X), ratio(1, 2));
    let r = less(
        slot(Slot::A),
        times(
            times(slot(Slot::B), call(Call::Sign, d.clone())),
            call(Call::Log1p, times(whole(-2), call(Call::Abs, d.clone()))),
        ),
    );
    proof {
        assert forall|m: Calculus, p: Point|
            proper(m) && invertible(m, Kind::Laplace, p) implies #[trigger] slopes_at(m, r, p)
                == slopes::inverse_slopes(m, Kind::Laplace, p) by {
            broadcast use formula::lemma_along;

            let x = p.x;
            let b = p.b;
            let d = x - (1real / 2real);
            let d0 = formula::magnitude(d);
            let q = (m.log1p)((-2real) * d0);
            let s = formula::sign(d);
            lemma_laplace_x(b, d0, s);
            lemma_laplace_b(b, d0, q, s);
        }
    }
    r
}

#[verifier::spinoff_prover]
proof fn lemma_cauchy_x(b: real, t: real, pi: real)
    requires
        0real < b,
    ensures
        b * ((1real + t * t) * pi) == b * pi * (1real + t * t),
{
    assert(b * ((1real + t * t) * pi) == b * pi * (1real + t * t)) by (nonlinear_arith);
}

#[verifier::spinoff_prover]
pub(crate) fn cauchy() -> (r: Formula)
    ensures
        forall|m: Calculus, p: Point| #[trigger]
            formula::meaning(m, r, p) == families::inverse(m, Kind::Cauchy, p),
        forall|m: Calculus, p: Point|
            proper(m) && invertible(m, Kind::Cauchy, p) ==> #[trigger] slopes_at(m, r, p)
                == slopes::inverse_slopes(m, Kind::Cauchy, p),
{
    let r = plus(
        slot(Slot::A),
        times(
            slot(Slot::B),
            call(Call::Tan, times(named(Named::Pi), less(slot(Slot::X), ratio(1, 2)))),
        ),
    );
    proof {
        assert forall|m: Calculus, p: Point|
            proper(m) && invertible(m, Kind::Cauchy, p) implies #[trigger] slopes_at(m, r, p)
                == slopes::inverse_slopes(m, Kind::Cauchy, p) by {
            broadcast use formula::lemma_along;

            let x = p.x;
            let b = p.b;
            let t = (m.tan)(m.pi * (x - (1real / 2real)));
            lemma_cauchy_x(b, t, m.pi);
        }
    }
    r
}

#[verifier::spinoff_prover]
proof fn lemma_gumbel_x(x: real, b: real, l0: real)
    requires
        0real < b,
        0real < x,
        l0 != 0real,
    ensures
        -(b * (1real / (-l0) * (-(1real / x)))) == b / ((-l0) * x),
{
    let i = 1real / l0;
    let j = 1real / x;
    lemma_negative_inverse(l0);
    lemma_times(1real / (-l0), -(1real / x), -i, -j);
    lemma_times(b, 1real / (-l0) * (-(1real / x)), b, (-i) * (-j));
    lemma_nonzero(-l0, x);
    lemma_over_two(1real, -l0, x);
    lemma_times(1real / (-l0), 1real / x, -i, j);
    lemma_over(b, (-l0) * x);
    lemma_times(b, 1real / ((-l0) * x), b, (-i) * j);
    assert(-(b * ((-i) * (-j))) == b * ((-i) * j)) by (nonlinear_arith);
}

#[verifier::spinoff_prover]
pub(crate) fn gumbel() -> (r: Formula)
    ensures
        forall|m: Calculus, p: Point| #[trigger]
            formula::meaning(m, r, p) == families::inverse(m, Kind::Gumbel, p),
        forall|m: Calculus, p: Point|
            proper(m) && invertible(m, Kind::Gumbel, p) ==> #[trigger] slopes_at(m, r, p)
                == slopes::inverse_slopes(m, Kind::Gumbel, p),
{
    let r = less(
        slot(Slot::A),
        times(slot(Slot::B), call(Call::Ln, minus(call(Call::Ln, slot(Slot::X))))),
    );
    proof {
        assert forall|m: Calculus, p: Point|
            proper(m) && invertible(m, Kind::Gumbel, p) implies #[trigger] slopes_at(m, r, p)
                == slopes::inverse_slopes(m, Kind::Gumbel, p) by {
            broadcast use formula::lemma_along;

            let x = p.x;
            let b = p.b;
            let l0 = (m.ln)(x);
            lemma_gumbel_x(x, b, l0);
        }
    }
    r
}

#[verifier::spinoff_prover]
proof fn lemma_half_normal_x(a: real, e: real, sqrt_two: real)
    requires
        0real < a,
    ensures
        a * sqrt_two * ((8862269real / 10000000real) * e) == a * sqrt_two
            * (8862269real / 10000000real) * e,
{
    assert(
        a * sqrt_two * ((8862269real / 10000000real) * e) == a * sqrt_two
            * (8862269real / 10000000real) * e
    ) by (nonlinear_arith);
}

#[verifier::spinoff_prover]
proof fn lemma_half_normal_a(a: real, r0: real, sqrt_two: real)
    requires
        0real < a,
    ensures
        r0 * sqrt_two == sqrt_two * r0,
{
    assert(r0 * sqrt_two == sqrt_two * r0) by (nonlinear_arith);
}

#[verifier::spinoff_prover]
pub(crate) fn half_normal() -> (r: Formula)
    ensures
        forall|m: Calculus, p: Point| #[trigger]
            formula::meaning(m, r, p) == families::inverse(m, Kind::HalfNormal, p),
        forall|m: Calculus, p: Point|
            proper(m) && invertible(m, Kind::HalfNormal, p) ==> #[trigger] slopes_at(m, r, p)
                == slopes::inverse_slopes(m, Kind::HalfNormal, p),
{
    let r = times(times(slot(Slot::A), named(Named::SqrtTwo)), call(Call::Erfinv, slot(Slot::X)));
    proof {
        assert forall|m: Calculus, p: Point|
            proper(m) && invertible(m, Kind::HalfNormal, p) implies #[trigger] slopes_at(m, r, p)
                == slopes::inverse_slopes(m, Kind::HalfNormal, p) by {
            broadcast use formula::lemma_along;

            let x = p.x;
            let a = p.a;
            let r0 = (m.erfinv)(x);
            let e = (m.exp)(r0 * r0);
            lemma_half_normal_x(a, e, m.sqrt_two);
            lemma_half_normal_a(a, r0, m.sqrt_two);
        }
    }
    r
}

#[verifier::spinoff_prover]
proof fn lemma_half_cauchy_x(a: real, t: real, pi: real)
    requires
        0real < a,
    ensures
        a * ((1real + t * t) * ((1real / 2real) * pi)) == a * (1real / 2real) * pi
            * (1real + t * t),
{
    assert(
        a * ((1real + t * t) * ((1real / 2real) * pi)) == a * (1real / 2real) * pi
            * (1real + t * t)
    ) by (nonlinear_arith);
}

#[verifier::spinoff_prover]
pub(crate) fn half_cauchy() -> (r: Formula)
    ensures
        forall|m: Calculus, p: Point| #[trigger]
            formula::meaning(m, r, p) == families::inverse(m, Kind::HalfCauchy, p),
        forall|m: Calculus, p: Point|
            proper(m) && invertible(m, Kind::HalfCauchy, p) ==> #[trigger] slopes_at(m, r, p)
                == slopes::inverse_slopes(m, Kind::HalfCauchy, p),
{
    let r = times(
        slot(Slot::A),
        call(Call::Tan, times(times(ratio(1, 2), named(Named::Pi)), slot(Slot::X))),
    );
    proof {
        assert forall|m: Calculus, p: Point|
            proper(m) && invertible(m, Kind::HalfCauchy, p) implies #[trigger] slopes_at(m, r, p)
                == slopes::inverse_slopes(m, Kind::HalfCauchy, p) by {
            broadcast use formula::lemma_along;

            let x = p.x;
            let a = p.a;
            let t = (m.tan)((1real / 2real) * m.pi * x);
            lemma_half_cauchy_x(a, t, m.pi);
        }
    }
    r
}

#[verifier::spinoff_prover]
proof fn lemma_log_normal_x(b: real, e0: real, e1: real)
    requires
        0real < b,
    ensures
        e1 * (b * e0) == e1 * b * e0,
{
    assert(e1 * (b * e0) == e1 * b * e0) by (nonlinear_arith);
}

#[verifier::spinoff_prover]
pub(crate) fn log_normal() -> (r: Formula)
    ensures
        forall|m: Calculus, p: Point| #[trigger]
            formula::meaning(m, r, p) == families::inverse(m, Kind::LogNormal, p),
        forall|m: Calculus, p: Point|
            proper(m) && invertible(m, Kind::LogNormal, p) ==> #[trigger] slopes_at(m, r, p)
                == slopes::inverse_slopes(m, Kind::LogNormal, p),
{
    let r = call(
        Call::Exp,
        plus(slot(Slot::A), times(slot(Slot::B), call(Call::Ndtri, slot(Slot::X)))),
    );
    proof {
        assert forall|m: Calculus, p: Point|
            proper(m) && invertible(m, Kind::LogNormal, p) implies #[trigger] slopes_at(m, r, p)
                == slopes::inverse_slopes(m, Kind::LogNormal, p) by {
            broadcast use formula::lemma_along;

            let x = p.x;
            let a = p.a;
            let b = p.b;
            let n = (m.ndtri)(x);
            let e0 = (m.exp)((1real / 2real) * n * n + m.half_ln_two_pi);
            let e1 = (m.exp)(a + b * n);
            lemma_log_normal_x(b, e0, e1);
        }
    }
    r
}

#[verifier::spinoff_prover]
proof fn lemma_pareto_x(x: real, a: real, b: real, e: real)
    requires
        0real < a,
        0real < b,
        0real < x,
        x < 1real,
    ensures
        a * (e * (1real / b * (-(1real / (1real + (-x)) * (-1real))))) == a * e / (b * (1real - x)),
{
    let i = 1real / b;
    let j = 1real / (1real - x);
    lemma_times(1real / (1real + (-x)), -1real, j, -1real);
    lemma_times(1real / b, -(1real / (1real + (-x)) * (-1real)), i, -(j * (-1real)));
    lemma_times(e, 1real / b * (-(1real / (1real + (-x)) * (-1real))), e, i * (-(j * (-1real))));
    lemma_times(
        a,
        e * (1real / b * (-(1real / (1real + (-x)) * (-1real)))),
        a,
        e * (i * (-(j * (-1real)))),
    );
    lemma_nonzero(b, 1real - x);
    lemma_over_two(1real, b, 1real - x);
    lemma_times(1real / b, 1real / (1real - x), i, j);
    lemma_over(a * e, b * (1real - x));
    lemma_times(a * e, 1real / (b * (1real - x)), a * e, i * j);
    assert(a * (e * (i * (-(j * (-1real))))) == a * e * (i * j)) by (nonlinear_arith);
}

#[verifier::spinoff_prover]
proof fn lemma_pareto_a(x: real, a: real, b: real, e: real)
    requires
        0real < a,
        0real < b,
        0real < x,
        x < 1real,
    ensures
        e == a * e / a,
{
    let i = 1real / a;
    lemma_over(a * e, a);
    lemma_times(a * e, 1real / a, a * e, i);
    lemma_inverse(a);
    lemma_vanishes((-1real) * e, a * i - 1real);
    assert(e - (a * e * i) == ((-1real) * e) * (a * i - 1real)) by (nonlinear_arith);
    assert(e == a * e * i);
}

#[verifier::spinoff_prover]
proof fn lemma_pareto_b(x: real, a: real, b: real, q: real, e: real)
    requires
        0real < a,
        0real < b,
        0real < x,
        x < 1real,
    ensures
        a * (e * (1real / b * (-((-q) / b)))) == a * e * q / (b * b),
{
    let i = 1real / b;
    lemma_over(-q, b);
    lemma_times(-q, 1real / b, -q, i);
    lemma_times(1real / b, -((-q) / b), i, -((-q) * i));
    lemma_times(e, 1real / b * (-((-q) / b)), e, i * (-((-q) * i)));
    lemma_times(a, e * (1real / b * (-((-q) / b))), a, e * (i * (-((-q) * i))));
    lemma_nonzero(b, b);
    lemma_over_two(1real, b, b);
    lemma_times(1real / b, 1real / b, i, i);
    lemma_over(a * e * q, b * b);
    lemma_times(a * e * q, 1real / (b * b), a * e * q, i * i);
    assert(a * (e * (i * (-((-q) * i)))) == a * e * q * (i * i)) by (nonlinear_arith);
}

#[verifier::spinoff_prover]
pub(crate) fn pareto() -> (r: Formula)
    ensures
        forall|m: Calculus, p: Point| #[trigger]
            formula::meaning(m, r, p) == families::inverse(m, Kind::Pareto, p),
        forall|m: Calculus, p: Point|
            proper(m) && invertible(m, Kind::Pareto, p) ==> #[trigger] slopes_at(m, r, p)
                == slopes::inverse_slopes(m, Kind::Pareto, p),
{
    let r = times(
        slot(Slot::A),
        call(Call::Exp, over(minus(call(Call::Log1p, minus(slot(Slot::X)))), slot(Slot::B))),
    );
    proof {
        assert forall|m: Calculus, p: Point|
            proper(m) && invertible(m, Kind::Pareto, p) implies #[trigger] slopes_at(m, r, p)
                == slopes::inverse_slopes(m, Kind::Pareto, p) by {
            broadcast use formula::lemma_along;

            let x = p.x;
            let a = p.a;
            let b = p.b;
            let q = (m.log1p)(-x);
            let e = (m.exp)((-q) / b);
            lemma_pareto_x(x, a, b, e);
            lemma_pareto_a(x, a, b, e);
            lemma_pareto_b(x, a, b, q, e);
        }
    }
    r
}

} // verus!
