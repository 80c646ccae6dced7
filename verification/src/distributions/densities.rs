//! Log-density formulas whose slopes, taken by the rules of calculus, are the scores.

use vstd::prelude::*;

use super::algebra::{
    lemma_over, lemma_over_two, lemma_times,
};
use super::families;
use super::formula;
use super::formula::{
    Calculus, Call, Formula, Named, Pair, Point, Slot, at_most, below, both, branch, call, less,
    minus, named, over, pair, plus, ratio, slot, times, whole,
};
use super::slopes;
use super::slopes::Slopes;
use super::univariate::Kind;

verus! {

/// Where the slopes of a log-density are stated: its parameters are proper, the value lies in
/// its support, and no denominator vanishes.
pub open spec fn regular(m: Calculus, kind: Kind, p: Point) -> bool {
    match kind {
        Kind::Normal | Kind::Laplace | Kind::Cauchy | Kind::Gumbel => 0real < p.b,
        Kind::Uniform => p.a < p.x < p.b,
        Kind::Exponential | Kind::Poisson | Kind::LogitRelaxedBernoulli => 0real < p.a,
        Kind::HalfNormal | Kind::HalfCauchy => 0real < p.a && 0real <= p.x,
        Kind::LogNormal => 0real < p.b && 0real < p.x,
        Kind::Pareto => 0real < p.a <= p.x && 0real < p.b,
        Kind::Gamma | Kind::InverseGamma => 0real < p.a && 0real < p.b && 0real < p.x,
        Kind::Beta => 0real < p.a && 0real < p.b && 0real < p.x < 1real,
        Kind::VonMises | Kind::Bernoulli | Kind::Geometric => true,
        Kind::Binomial | Kind::NegativeBinomial => true,
        Kind::Weibull | Kind::FisherSnedecor => 0real < p.a && 0real < p.b && 0real < p.x,
        Kind::Kumaraswamy => 0real < p.a && 0real < p.b && 0real < p.x < 1real && (m.pow)(p.x, p.a)
            != 1real,
        Kind::StudentT => 0real < p.a && 0real < p.c,
        Kind::RelaxedBernoulli => 0real < p.a && 0real < p.x < 1real,
        Kind::ContinuousBernoulli => away_from_even(m, p.a),
    }
}

/// Whether the normaliser and the mean of a continuous Bernoulli with logit `t` are given by
/// their closed forms, which are then those of a logistic function. About an even chance both
/// are cut short to a series, after different terms.
pub open spec fn away_from_even(m: Calculus, t: real) -> bool {
    let q = 1real / (1real + (m.exp)(-t));
    &&& 2real / 100real < formula::magnitude(t)
    &&& 1real / 1000real < formula::magnitude(q - 1real / 2real)
    &&& (m.ln)(1real - q) - (m.ln)(q) == -t
    &&& (m.expm1)(-t) == (m.exp)(-t) - 1real
}

/// What the functions of a calculus share with the ones they stand for.
pub open spec fn proper(m: Calculus) -> bool {
    &&& m.pi != 0real
    &&& forall|t: real| 0real < #[trigger] (m.exp)(t)
}

/// The partial derivatives of a formula.
pub open spec fn slopes_at(m: Calculus, e: Formula, p: Point) -> Slopes {
    Slopes {
        dx: formula::slope(m, e, p, Slot::X),
        da: formula::slope(m, e, p, Slot::A),
        db: formula::slope(m, e, p, Slot::B),
        dc: formula::slope(m, e, p, Slot::C),
    }
}

/// The parameters for which a family is defined.
pub open spec fn positive(kind: Kind, p: Point) -> bool {
    match kind {
        Kind::Normal | Kind::Laplace | Kind::Cauchy | Kind::Gumbel | Kind::LogNormal => 0real < p.b,
        Kind::Uniform => p.a < p.b,
        Kind::Exponential | Kind::HalfNormal | Kind::HalfCauchy | Kind::Poisson => 0real < p.a,
        Kind::Pareto | Kind::Weibull | Kind::Kumaraswamy | Kind::Gamma => 0real < p.a && 0real
            < p.b,
        Kind::InverseGamma | Kind::Beta | Kind::FisherSnedecor => 0real < p.a && 0real < p.b,
        Kind::StudentT => 0real < p.a && 0real < p.c,
        Kind::VonMises => 0real < p.b,
        Kind::LogitRelaxedBernoulli | Kind::RelaxedBernoulli => 0real < p.a,
        _ => true,
    }
}

#[verifier::spinoff_prover]
pub(crate) fn normal() -> (r: Formula)
    ensures
        forall|m: Calculus, p: Point| #[trigger]
            formula::meaning(m, r, p) == families::log_density(m, Kind::Normal, p),
        forall|m: Calculus, p: Point|
            proper(m) && regular(m, Kind::Normal, p) ==> #[trigger] slopes_at(m, r, p)
                == slopes::score(m, Kind::Normal, p),
{
    let z = over(less(slot(Slot::X), slot(Slot::A)), slot(Slot::B));
    let r = less(
        less(times(times(ratio(-1, 2), z.clone()), z.clone()), call(Call::Ln, slot(Slot::B))),
        named(Named::HalfLnTwoPi),
    );
    proof {
        assert forall|m: Calculus, p: Point|
            proper(m) && regular(m, Kind::Normal, p) implies #[trigger] slopes_at(m, r, p)
            == slopes::score(m, Kind::Normal, p) by {
            broadcast use formula::lemma_along;

            let x = p.x;
            let a = p.a;
            let b = p.b;
            let z = (x - a) / b;
            let i = 1real / b;
            lemma_times(((-1real) / 2real), 1real / b, ((-1real) / 2real), i);
            lemma_times(z, ((-1real) / 2real) * (1real / b), z, ((-1real) / 2real) * i);
            lemma_times(((-1real) / 2real) * z, 1real / b, ((-1real) / 2real) * z, i);
            lemma_over(-z, b);
            lemma_times(1real / b, -1real, i, -1real);
            lemma_times(((-1real) / 2real), 1real / b * (-1real), ((-1real) / 2real), i * (-1real));
            lemma_times(
                z,
                ((-1real) / 2real) * (1real / b * (-1real)),
                z,
                ((-1real) / 2real) * (i * (-1real)),
            );
            lemma_times(
                ((-1real) / 2real) * z,
                1real / b * (-1real),
                ((-1real) / 2real) * z,
                i * (-1real),
            );
            lemma_over(z, b);
            lemma_times(1real / b, -z, i, -z);
            lemma_times(((-1real) / 2real), 1real / b * (-z), ((-1real) / 2real), i * (-z));
            lemma_times(
                z,
                ((-1real) / 2real) * (1real / b * (-z)),
                z,
                ((-1real) / 2real) * (i * (-z)),
            );
            lemma_times(((-1real) / 2real) * z, 1real / b * (-z), ((-1real) / 2real) * z, i * (-z));
            lemma_over(z * z - 1real, b);
            assert(
                z * (((-1real) / 2real) * i) + ((-1real) / 2real) * z * i == (-z) * i
            ) by (nonlinear_arith);
            assert(
                z * (((-1real) / 2real) * (i * (-1real)))
                    + ((-1real) / 2real) * z * (i * (-1real)) == z * i
            ) by (nonlinear_arith);
            assert(
                z * (((-1real) / 2real) * (i * (-z))) + ((-1real) / 2real) * z * (i * (-z))
                    - i == (z * z - 1real) * i
            ) by (nonlinear_arith);
        }
    }
    r
}

#[verifier::spinoff_prover]
pub(crate) fn uniform() -> (r: Formula)
    ensures
        forall|m: Calculus, p: Point| #[trigger]
            formula::meaning(m, r, p) == families::log_density(m, Kind::Uniform, p),
        forall|m: Calculus, p: Point|
            proper(m) && regular(m, Kind::Uniform, p) ==> #[trigger] slopes_at(m, r, p)
                == slopes::score(m, Kind::Uniform, p),
{
    let r = branch(
        both(at_most(slot(Slot::A), slot(Slot::X)), below(slot(Slot::X), slot(Slot::B))),
        minus(call(Call::Ln, less(slot(Slot::B), slot(Slot::A)))),
        minus(named(Named::Inf)),
    );
    proof {
        assert forall|m: Calculus, p: Point|
            proper(m) && regular(m, Kind::Uniform, p) implies #[trigger] slopes_at(m, r, p)
            == slopes::score(m, Kind::Uniform, p) by {
            broadcast use formula::lemma_along;

            let a = p.a;
            let b = p.b;
            let i = 1real / (b - a);
            lemma_times(1real / (b - a), -1real, i, -1real);
            assert(-(i * (-1real)) == i) by (nonlinear_arith);
        }
    }
    r
}

#[verifier::spinoff_prover]
pub(crate) fn exponential() -> (r: Formula)
    ensures
        forall|m: Calculus, p: Point| #[trigger]
            formula::meaning(m, r, p) == families::log_density(m, Kind::Exponential, p),
        forall|m: Calculus, p: Point|
            proper(m) && regular(m, Kind::Exponential, p) ==> #[trigger] slopes_at(m, r, p)
                == slopes::score(m, Kind::Exponential, p),
{
    let r = less(call(Call::Ln, slot(Slot::A)), times(slot(Slot::A), slot(Slot::X)));
    proof {
        assert forall|m: Calculus, p: Point|
            proper(m) && regular(m, Kind::Exponential, p) implies #[trigger] slopes_at(m, r, p)
            == slopes::score(m, Kind::Exponential, p) by {
            broadcast use formula::lemma_along;

        }
    }
    r
}

#[verifier::spinoff_prover]
pub(crate) fn cauchy() -> (r: Formula)
    ensures
        forall|m: Calculus, p: Point| #[trigger]
            formula::meaning(m, r, p) == families::log_density(m, Kind::Cauchy, p),
        forall|m: Calculus, p: Point|
            proper(m) && regular(m, Kind::Cauchy, p) ==> #[trigger] slopes_at(m, r, p)
                == slopes::score(m, Kind::Cauchy, p),
{
    let z = over(less(slot(Slot::X), slot(Slot::A)), slot(Slot::B));
    let r = less(
        less(minus(call(Call::Ln, named(Named::Pi))), call(Call::Ln, slot(Slot::B))),
        call(Call::Log1p, times(z.clone(), z.clone())),
    );
    proof {
        assert forall|m: Calculus, p: Point|
            proper(m) && regular(m, Kind::Cauchy, p) implies #[trigger] slopes_at(m, r, p)
            == slopes::score(m, Kind::Cauchy, p) by {
            broadcast use formula::lemma_along;

            let x = p.x;
            let a = p.a;
            let b = p.b;
            let z = (x - a) / b;
            let i = 1real / (1real + z * z);
            let j = 1real / b;
            assert(1real + z * z != 0real) by (nonlinear_arith);
            lemma_times(z, 1real / b, z, j);
            lemma_times(
                1real / (1real + z * z),
                z * (1real / b) + z * (1real / b),
                i,
                z * j + z * j,
            );
            lemma_over(2real * z, 1real + z * z);
            lemma_over(-(2real * z / (1real + z * z)), b);
            lemma_times(-(2real * z / (1real + z * z)), j, -(2real * z * i), j);
            lemma_times(1real / b, -1real, j, -1real);
            lemma_times(z, 1real / b * (-1real), z, j * (-1real));
            lemma_times(
                1real / (1real + z * z),
                z * (1real / b * (-1real)) + z * (1real / b * (-1real)),
                i,
                z * (j * (-1real)) + z * (j * (-1real)),
            );
            lemma_over(2real * z / (1real + z * z), b);
            lemma_times(2real * z / (1real + z * z), j, 2real * z * i, j);
            lemma_times(1real / b, -z, j, -z);
            lemma_times(z, 1real / b * (-z), z, j * (-z));
            lemma_times(
                1real / (1real + z * z),
                z * (1real / b * (-z)) + z * (1real / b * (-z)),
                i,
                z * (j * (-z)) + z * (j * (-z)),
            );
            lemma_times(z, 2real * z / (1real + z * z), z, 2real * z * i);
            lemma_over(z * (2real * z / (1real + z * z)) - 1real, b);
            lemma_times(
                z * (2real * z / (1real + z * z)) - 1real,
                j,
                z * (2real * z * i) - 1real,
                j,
            );
            assert(-(i * (z * j + z * j)) == (-(2real * z * i)) * j) by (nonlinear_arith);
            assert(
                -(i * (z * (j * (-1real)) + z * (j * (-1real)))) == 2real * z * i * j
            ) by (nonlinear_arith);
            assert(
                (-j) - i * (z * (j * (-z)) + z * (j * (-z))) == (z * (2real * z * i) - 1real) * j
            ) by (nonlinear_arith);
        }
    }
    r
}

#[verifier::spinoff_prover]
pub(crate) fn gumbel() -> (r: Formula)
    ensures
        forall|m: Calculus, p: Point| #[trigger]
            formula::meaning(m, r, p) == families::log_density(m, Kind::Gumbel, p),
        forall|m: Calculus, p: Point|
            proper(m) && regular(m, Kind::Gumbel, p) ==> #[trigger] slopes_at(m, r, p)
                == slopes::score(m, Kind::Gumbel, p),
{
    let z = over(less(slot(Slot::X), slot(Slot::A)), slot(Slot::B));
    let r = less(
        minus(plus(z.clone(), call(Call::Exp, minus(z.clone())))),
        call(Call::Ln, slot(Slot::B)),
    );
    proof {
        assert forall|m: Calculus, p: Point|
            proper(m) && regular(m, Kind::Gumbel, p) implies #[trigger] slopes_at(m, r, p)
            == slopes::score(m, Kind::Gumbel, p) by {
            broadcast use formula::lemma_along;

            let x = p.x;
            let a = p.a;
            let b = p.b;
            let z = (x - a) / b;
            let e = (m.exp)(-z);
            let i = 1real / b;
            lemma_times(e, -(1real / b), e, -i);
            lemma_over(-(1real - e), b);
            lemma_times(1real / b, -1real, i, -1real);
            lemma_times(e, -(1real / b * (-1real)), e, -(i * (-1real)));
            lemma_over(1real - e, b);
            lemma_times(1real / b, -z, i, -z);
            lemma_times(e, -(1real / b * (-z)), e, -(i * (-z)));
            lemma_over(z * (1real - e) - 1real, b);
            assert(-(i + e * (-i)) == (-(1real - e)) * i) by (nonlinear_arith);
            assert(-(i * (-1real) + e * (-(i * (-1real)))) == (1real - e) * i) by (nonlinear_arith);
            assert(
                (-(i * (-z) + e * (-(i * (-z))))) - i == (z * (1real - e) - 1real) * i
            ) by (nonlinear_arith);
        }
    }
    r
}

#[verifier::spinoff_prover]
pub(crate) fn half_normal() -> (r: Formula)
    ensures
        forall|m: Calculus, p: Point| #[trigger]
            formula::meaning(m, r, p) == families::log_density(m, Kind::HalfNormal, p),
        forall|m: Calculus, p: Point|
            proper(m) && regular(m, Kind::HalfNormal, p) ==> #[trigger] slopes_at(m, r, p)
                == slopes::score(m, Kind::HalfNormal, p),
{
    let z = over(slot(Slot::X), slot(Slot::A));
    let r = branch(
        at_most(whole(0), slot(Slot::X)),
        plus(
            less(
                less(
                    times(times(ratio(-1, 2), z.clone()), z.clone()),
                    call(Call::Ln, slot(Slot::A)),
                ),
                named(Named::HalfLnTwoPi),
            ),
            named(Named::LnTwo),
        ),
        minus(named(Named::Inf)),
    );
    proof {
        assert forall|m: Calculus, p: Point|
            proper(m) && regular(m, Kind::HalfNormal, p) implies #[trigger] slopes_at(m, r, p)
            == slopes::score(m, Kind::HalfNormal, p) by {
            broadcast use formula::lemma_along;

            let x = p.x;
            let a = p.a;
            let z = x / a;
            let i = 1real / a;
            lemma_times(((-1real) / 2real), 1real / a, ((-1real) / 2real), i);
            lemma_times(z, ((-1real) / 2real) * (1real / a), z, ((-1real) / 2real) * i);
            lemma_times(((-1real) / 2real) * z, 1real / a, ((-1real) / 2real) * z, i);
            lemma_over(-z, a);
            lemma_times(1real / a, -z, i, -z);
            lemma_times(((-1real) / 2real), 1real / a * (-z), ((-1real) / 2real), i * (-z));
            lemma_times(
                z,
                ((-1real) / 2real) * (1real / a * (-z)),
                z,
                ((-1real) / 2real) * (i * (-z)),
            );
            lemma_times(((-1real) / 2real) * z, 1real / a * (-z), ((-1real) / 2real) * z, i * (-z));
            lemma_over(z * z - 1real, a);
            assert(
                z * (((-1real) / 2real) * i) + ((-1real) / 2real) * z * i == (-z) * i
            ) by (nonlinear_arith);
            assert(
                z * (((-1real) / 2real) * (i * (-z))) + ((-1real) / 2real) * z * (i * (-z))
                    - i == (z * z - 1real) * i
            ) by (nonlinear_arith);
        }
    }
    r
}

#[verifier::spinoff_prover]
pub(crate) fn half_cauchy() -> (r: Formula)
    ensures
        forall|m: Calculus, p: Point| #[trigger]
            formula::meaning(m, r, p) == families::log_density(m, Kind::HalfCauchy, p),
        forall|m: Calculus, p: Point|
            proper(m) && regular(m, Kind::HalfCauchy, p) ==> #[trigger] slopes_at(m, r, p)
                == slopes::score(m, Kind::HalfCauchy, p),
{
    let z = over(slot(Slot::X), slot(Slot::A));
    let r = branch(
        at_most(whole(0), slot(Slot::X)),
        less(
            less(
                less(named(Named::LnTwo), call(Call::Ln, named(Named::Pi))),
                call(Call::Ln, slot(Slot::A)),
            ),
            call(Call::Log1p, times(z.clone(), z.clone())),
        ),
        minus(named(Named::Inf)),
    );
    proof {
        assert forall|m: Calculus, p: Point|
            proper(m) && regular(m, Kind::HalfCauchy, p) implies #[trigger] slopes_at(m, r, p)
            == slopes::score(m, Kind::HalfCauchy, p) by {
            broadcast use formula::lemma_along;

            let x = p.x;
            let a = p.a;
            let z = x / a;
            let i = 1real / (1real + z * z);
            let j = 1real / a;
            assert(1real + z * z != 0real) by (nonlinear_arith);
            lemma_times(z, 1real / a, z, j);
            lemma_times(
                1real / (1real + z * z),
                z * (1real / a) + z * (1real / a),
                i,
                z * j + z * j,
            );
            lemma_over(2real * z, 1real + z * z);
            lemma_over(-(2real * z / (1real + z * z)), a);
            lemma_times(-(2real * z / (1real + z * z)), j, -(2real * z * i), j);
            lemma_times(1real / a, -z, j, -z);
            lemma_times(z, 1real / a * (-z), z, j * (-z));
            lemma_times(
                1real / (1real + z * z),
                z * (1real / a * (-z)) + z * (1real / a * (-z)),
                i,
                z * (j * (-z)) + z * (j * (-z)),
            );
            lemma_times(z, 2real * z / (1real + z * z), z, 2real * z * i);
            lemma_over(z * (2real * z / (1real + z * z)) - 1real, a);
            lemma_times(
                z * (2real * z / (1real + z * z)) - 1real,
                j,
                z * (2real * z * i) - 1real,
                j,
            );
            assert(-(i * (z * j + z * j)) == (-(2real * z * i)) * j) by (nonlinear_arith);
            assert(
                (-j) - i * (z * (j * (-z)) + z * (j * (-z))) == (z * (2real * z * i) - 1real) * j
            ) by (nonlinear_arith);
        }
    }
    r
}

#[verifier::spinoff_prover]
pub(crate) fn log_normal() -> (r: Formula)
    ensures
        forall|m: Calculus, p: Point| #[trigger]
            formula::meaning(m, r, p) == families::log_density(m, Kind::LogNormal, p),
        forall|m: Calculus, p: Point|
            proper(m) && regular(m, Kind::LogNormal, p) ==> #[trigger] slopes_at(m, r, p)
                == slopes::score(m, Kind::LogNormal, p),
{
    let l = call(Call::Ln, slot(Slot::X));
    let z = over(less(l.clone(), slot(Slot::A)), slot(Slot::B));
    let r = less(
        less(
            less(times(times(ratio(-1, 2), z.clone()), z.clone()), call(Call::Ln, slot(Slot::B))),
            named(Named::HalfLnTwoPi),
        ),
        l.clone(),
    );
    proof {
        assert forall|m: Calculus, p: Point|
            proper(m) && regular(m, Kind::LogNormal, p) implies #[trigger] slopes_at(m, r, p)
            == slopes::score(m, Kind::LogNormal, p) by {
            broadcast use formula::lemma_along;

            let x = p.x;
            let a = p.a;
            let b = p.b;
            let l0 = (m.ln)(x);
            let l = l0;
            let z = (l - a) / b;
            let i = 1real / b;
            let j = 1real / x;
            lemma_times(1real / b, 1real / x, i, j);
            lemma_times(((-1real) / 2real), 1real / b * (1real / x), ((-1real) / 2real), i * j);
            lemma_times(
                z,
                ((-1real) / 2real) * (1real / b * (1real / x)),
                z,
                ((-1real) / 2real) * (i * j),
            );
            lemma_times(
                ((-1real) / 2real) * z,
                1real / b * (1real / x),
                ((-1real) / 2real) * z,
                i * j,
            );
            lemma_over(-z, b);
            lemma_over((-z) / b - 1real, x);
            lemma_times((-z) / b - 1real, j, (-z) * i - 1real, j);
            lemma_times(1real / b, -1real, i, -1real);
            lemma_times(((-1real) / 2real), 1real / b * (-1real), ((-1real) / 2real), i * (-1real));
            lemma_times(
                z,
                ((-1real) / 2real) * (1real / b * (-1real)),
                z,
                ((-1real) / 2real) * (i * (-1real)),
            );
            lemma_times(
                ((-1real) / 2real) * z,
                1real / b * (-1real),
                ((-1real) / 2real) * z,
                i * (-1real),
            );
            lemma_over(z, b);
            lemma_times(1real / b, -z, i, -z);
            lemma_times(((-1real) / 2real), 1real / b * (-z), ((-1real) / 2real), i * (-z));
            lemma_times(
                z,
                ((-1real) / 2real) * (1real / b * (-z)),
                z,
                ((-1real) / 2real) * (i * (-z)),
            );
            lemma_times(((-1real) / 2real) * z, 1real / b * (-z), ((-1real) / 2real) * z, i * (-z));
            lemma_over(z * z - 1real, b);
            assert(
                z * (((-1real) / 2real) * (i * j)) + ((-1real) / 2real) * z * (i * j)
                    - j == ((-z) * i - 1real) * j
            ) by (nonlinear_arith);
            assert(
                z * (((-1real) / 2real) * (i * (-1real)))
                    + ((-1real) / 2real) * z * (i * (-1real)) == z * i
            ) by (nonlinear_arith);
            assert(
                z * (((-1real) / 2real) * (i * (-z))) + ((-1real) / 2real) * z * (i * (-z))
                    - i == (z * z - 1real) * i
            ) by (nonlinear_arith);
        }
    }
    r
}

#[verifier::spinoff_prover]
pub(crate) fn pareto() -> (r: Formula)
    ensures
        forall|m: Calculus, p: Point| #[trigger]
            formula::meaning(m, r, p) == families::log_density(m, Kind::Pareto, p),
        forall|m: Calculus, p: Point|
            proper(m) && regular(m, Kind::Pareto, p) ==> #[trigger] slopes_at(m, r, p)
                == slopes::score(m, Kind::Pareto, p),
{
    let r = less(
        plus(call(Call::Ln, slot(Slot::B)), times(slot(Slot::B), call(Call::Ln, slot(Slot::A)))),
        times(plus(slot(Slot::B), whole(1)), call(Call::Ln, slot(Slot::X))),
    );
    proof {
        assert forall|m: Calculus, p: Point|
            proper(m) && regular(m, Kind::Pareto, p) implies #[trigger] slopes_at(m, r, p)
            == slopes::score(m, Kind::Pareto, p) by {
            broadcast use formula::lemma_along;

            let x = p.x;
            let a = p.a;
            let b = p.b;
            let i = 1real / x;
            let j = 1real / a;
            lemma_times(b + 1real, 1real / x, b + 1real, i);
            lemma_over(-(b + 1real), x);
            lemma_times(b, 1real / a, b, j);
            lemma_over(b, a);
            assert(-((b + 1real) * i) == (-(b + 1real)) * i) by (nonlinear_arith);
        }
    }
    r
}

#[verifier::spinoff_prover]
pub(crate) fn gamma() -> (r: Formula)
    ensures
        forall|m: Calculus, p: Point| #[trigger]
            formula::meaning(m, r, p) == families::log_density(m, Kind::Gamma, p),
        forall|m: Calculus, p: Point|
            proper(m) && regular(m, Kind::Gamma, p) ==> #[trigger] slopes_at(m, r, p)
                == slopes::score(m, Kind::Gamma, p),
{
    let r = less(
        less(
            plus(
                pair(Pair::Xlogy, slot(Slot::A), slot(Slot::B)),
                times(less(slot(Slot::A), whole(1)), call(Call::Ln, slot(Slot::X))),
            ),
            times(slot(Slot::B), slot(Slot::X)),
        ),
        call(Call::Lgamma, slot(Slot::A)),
    );
    proof {
        assert forall|m: Calculus, p: Point|
            proper(m) && regular(m, Kind::Gamma, p) implies #[trigger] slopes_at(m, r, p)
            == slopes::score(m, Kind::Gamma, p) by {
            broadcast use formula::lemma_along;

            let x = p.x;
            let a = p.a;
            let b = p.b;
            let i = 1real / x;
            lemma_times(a - 1real, 1real / x, a - 1real, i);
            lemma_over(a - 1real, x);
        }
    }
    r
}

#[verifier::spinoff_prover]
pub(crate) fn inverse_gamma() -> (r: Formula)
    ensures
        forall|m: Calculus, p: Point| #[trigger]
            formula::meaning(m, r, p) == families::log_density(m, Kind::InverseGamma, p),
        forall|m: Calculus, p: Point|
            proper(m) && regular(m, Kind::InverseGamma, p) ==> #[trigger] slopes_at(m, r, p)
                == slopes::score(m, Kind::InverseGamma, p),
{
    let r = less(
        less(
            less(
                times(slot(Slot::A), call(Call::Ln, slot(Slot::B))),
                call(Call::Lgamma, slot(Slot::A)),
            ),
            times(plus(slot(Slot::A), whole(1)), call(Call::Ln, slot(Slot::X))),
        ),
        over(slot(Slot::B), slot(Slot::X)),
    );
    proof {
        assert forall|m: Calculus, p: Point|
            proper(m) && regular(m, Kind::InverseGamma, p) implies #[trigger] slopes_at(m, r, p)
            == slopes::score(m, Kind::InverseGamma, p) by {
            broadcast use formula::lemma_along;

            let x = p.x;
            let a = p.a;
            let b = p.b;
            let i = 1real / x;
            let j = 1real / b;
            lemma_times(a + 1real, 1real / x, a + 1real, i);
            lemma_over(b, x);
            lemma_times(1real / x, -(b / x), i, -(b * i));
            lemma_over_two(b, x, x);
            lemma_over(a + 1real, x);
            lemma_times(a, 1real / b, a, j);
            lemma_over(a, b);
            assert(
                (-((a + 1real) * i)) - i * (-(b * i)) == b * (i * i) - (a + 1real) * i
            ) by (nonlinear_arith);
        }
    }
    r
}

#[verifier::spinoff_prover]
pub(crate) fn von_mises() -> (r: Formula)
    ensures
        forall|m: Calculus, p: Point| #[trigger]
            formula::meaning(m, r, p) == families::log_density(m, Kind::VonMises, p),
        forall|m: Calculus, p: Point|
            proper(m) && regular(m, Kind::VonMises, p) ==> #[trigger] slopes_at(m, r, p)
                == slopes::score(m, Kind::VonMises, p),
{
    let r = less(
        less(
            times(slot(Slot::B), call(Call::Cos, less(slot(Slot::X), slot(Slot::A)))),
            call(Call::Ln, times(whole(2), named(Named::Pi))),
        ),
        call(Call::LogI0, slot(Slot::B)),
    );
    proof {
        assert forall|m: Calculus, p: Point|
            proper(m) && regular(m, Kind::VonMises, p) implies #[trigger] slopes_at(m, r, p)
            == slopes::score(m, Kind::VonMises, p) by {
            broadcast use formula::lemma_along;

            let x = p.x;
            let a = p.a;
            let b = p.b;
            let sine = (m.sin)(x - a);
            assert(b * (-sine) == (-b) * sine) by (nonlinear_arith);
            assert(b * ((-sine) * (-1real)) == b * sine) by (nonlinear_arith);
        }
    }
    r
}

#[verifier::spinoff_prover]
pub(crate) fn bernoulli() -> (r: Formula)
    ensures
        forall|m: Calculus, p: Point| #[trigger]
            formula::meaning(m, r, p) == families::log_density(m, Kind::Bernoulli, p),
        forall|m: Calculus, p: Point|
            proper(m) && regular(m, Kind::Bernoulli, p) ==> #[trigger] slopes_at(m, r, p)
                == slopes::score(m, Kind::Bernoulli, p),
{
    let r = less(times(slot(Slot::X), slot(Slot::A)), call(Call::Softplus, slot(Slot::A)));
    proof {
        assert forall|m: Calculus, p: Point|
            proper(m) && regular(m, Kind::Bernoulli, p) implies #[trigger] slopes_at(m, r, p)
            == slopes::score(m, Kind::Bernoulli, p) by {
            broadcast use formula::lemma_along;

        }
    }
    r
}

#[verifier::spinoff_prover]
pub(crate) fn geometric() -> (r: Formula)
    ensures
        forall|m: Calculus, p: Point| #[trigger]
            formula::meaning(m, r, p) == families::log_density(m, Kind::Geometric, p),
        forall|m: Calculus, p: Point|
            proper(m) && regular(m, Kind::Geometric, p) ==> #[trigger] slopes_at(m, r, p)
                == slopes::score(m, Kind::Geometric, p),
{
    let r = plus(
        times(slot(Slot::X), call(Call::LogSigmoid, minus(slot(Slot::A)))),
        call(Call::LogSigmoid, slot(Slot::A)),
    );
    proof {
        assert forall|m: Calculus, p: Point|
            proper(m) && regular(m, Kind::Geometric, p) implies #[trigger] slopes_at(m, r, p)
            == slopes::score(m, Kind::Geometric, p) by {
            broadcast use formula::lemma_along;

            let x = p.x;
            let a = p.a;
            let e0 = (m.exp)(-a);
            let e1 = (m.exp)(a);
            let i = 1real / (1real + e0);
            let j = 1real / (1real + e1);
            lemma_times(1real / (1real + e0), -1real, i, -1real);
            lemma_times(x, 1real / (1real + e0) * (-1real), x, i * (-1real));
            lemma_times(x, 1real / (1real + e0), x, i);
            assert(x * (i * (-1real)) + j == j - x * i) by (nonlinear_arith);
        }
    }
    r
}

#[verifier::spinoff_prover]
pub(crate) fn poisson() -> (r: Formula)
    ensures
        forall|m: Calculus, p: Point| #[trigger]
            formula::meaning(m, r, p) == families::log_density(m, Kind::Poisson, p),
        forall|m: Calculus, p: Point|
            proper(m) && regular(m, Kind::Poisson, p) ==> #[trigger] slopes_at(m, r, p)
                == slopes::score(m, Kind::Poisson, p),
{
    let r = less(
        less(pair(Pair::Xlogy, slot(Slot::X), slot(Slot::A)), slot(Slot::A)),
        call(Call::Lgamma, plus(slot(Slot::X), whole(1))),
    );
    proof {
        assert forall|m: Calculus, p: Point|
            proper(m) && regular(m, Kind::Poisson, p) implies #[trigger] slopes_at(m, r, p)
            == slopes::score(m, Kind::Poisson, p) by {
            broadcast use formula::lemma_along;

        }
    }
    r
}

#[verifier::spinoff_prover]
pub(crate) fn binomial() -> (r: Formula)
    ensures
        forall|m: Calculus, p: Point| #[trigger]
            formula::meaning(m, r, p) == families::log_density(m, Kind::Binomial, p),
        forall|m: Calculus, p: Point|
            proper(m) && regular(m, Kind::Binomial, p) ==> #[trigger] slopes_at(m, r, p)
                == slopes::score(m, Kind::Binomial, p),
{
    let r = less(
        plus(
            pair(Pair::LogBinom, slot(Slot::A), slot(Slot::X)),
            times(slot(Slot::X), slot(Slot::B)),
        ),
        times(slot(Slot::A), call(Call::Softplus, slot(Slot::B))),
    );
    proof {
        assert forall|m: Calculus, p: Point|
            proper(m) && regular(m, Kind::Binomial, p) implies #[trigger] slopes_at(m, r, p)
            == slopes::score(m, Kind::Binomial, p) by {
            broadcast use formula::lemma_along;

            let x = p.x;
            let a = p.a;
            let b = p.b;
            let psi0 = (m.digamma)(a - x + 1real);
            let psi1 = (m.digamma)(x + 1real);
            assert(psi0 - psi1 + b == b + psi0 - psi1) by (nonlinear_arith);
        }
    }
    r
}

#[verifier::spinoff_prover]
pub(crate) fn negative_binomial() -> (r: Formula)
    ensures
        forall|m: Calculus, p: Point| #[trigger]
            formula::meaning(m, r, p) == families::log_density(m, Kind::NegativeBinomial, p),
        forall|m: Calculus, p: Point|
            proper(m) && regular(m, Kind::NegativeBinomial, p) ==> #[trigger] slopes_at(m, r, p)
                == slopes::score(m, Kind::NegativeBinomial, p),
{
    let r = less(
        less(
            plus(
                plus(
                    times(slot(Slot::A), call(Call::LogSigmoid, minus(slot(Slot::B)))),
                    times(slot(Slot::X), call(Call::LogSigmoid, slot(Slot::B))),
                ),
                call(Call::Lgamma, plus(slot(Slot::A), slot(Slot::X))),
            ),
            call(Call::Lgamma, plus(whole(1), slot(Slot::X))),
        ),
        call(Call::Lgamma, slot(Slot::A)),
    );
    proof {
        assert forall|m: Calculus, p: Point|
            proper(m) && regular(m, Kind::NegativeBinomial, p) implies #[trigger] slopes_at(m, r, p)
            == slopes::score(m, Kind::NegativeBinomial, p) by {
            broadcast use formula::lemma_along;

            let x = p.x;
            let a = p.a;
            let b = p.b;
            let e0 = (m.exp)(-b);
            let e1 = (m.exp)(b);
            let i = 1real / (1real + e0);
            let j = 1real / (1real + e1);
            lemma_times(1real / (1real + e0), -1real, i, -1real);
            lemma_times(a, 1real / (1real + e0) * (-1real), a, i * (-1real));
            lemma_times(x, 1real / (1real + e1), x, j);
            lemma_times(a, 1real / (1real + e0), a, i);
            assert(a * (i * (-1real)) + x * j == x * j - a * i) by (nonlinear_arith);
        }
    }
    r
}

#[verifier::spinoff_prover]
pub(crate) fn logit_relaxed_bernoulli() -> (r: Formula)
    ensures
        forall|m: Calculus, p: Point| #[trigger]
            formula::meaning(m, r, p) == families::log_density(m, Kind::LogitRelaxedBernoulli, p),
        forall|m: Calculus, p: Point|
            proper(m) && regular(m, Kind::LogitRelaxedBernoulli, p) ==> #[trigger] slopes_at(m, r, p)
                == slopes::score(m, Kind::LogitRelaxedBernoulli, p),
{
    let diff = less(slot(Slot::B), times(slot(Slot::X), slot(Slot::A)));
    let r = less(
        plus(call(Call::Ln, slot(Slot::A)), diff.clone()),
        times(whole(2), call(Call::Softplus, diff.clone())),
    );
    proof {
        assert forall|m: Calculus, p: Point|
            proper(m) && regular(m, Kind::LogitRelaxedBernoulli, p) implies #[trigger] slopes_at(m, r, p)
            == slopes::score(m, Kind::LogitRelaxedBernoulli, p) by {
            broadcast use formula::lemma_along;

            let x = p.x;
            let a = p.a;
            let b = p.b;
            let diff = b - x * a;
            let e = (m.exp)(-diff);
            let i = 1real / (1real + e);
            let j = 1real / a;
            lemma_times(1real / (1real + e), -a, i, -a);
            lemma_times(2real, 1real / (1real + e) * (-a), 2real, i * (-a));
            lemma_times(2real, 1real / (1real + e), 2real, i);
            lemma_times(-a, 1real - 2real * (1real / (1real + e)), -a, 1real - 2real * i);
            lemma_times(1real / (1real + e), -x, i, -x);
            lemma_times(2real, 1real / (1real + e) * (-x), 2real, i * (-x));
            lemma_times(x, 1real - 2real * (1real / (1real + e)), x, 1real - 2real * i);
            assert((-a) - 2real * (i * (-a)) == (-a) * (1real - 2real * i)) by (nonlinear_arith);
            assert(
                j + (-x) - 2real * (i * (-x)) == j - x * (1real - 2real * i)
            ) by (nonlinear_arith);
        }
    }
    r
}

#[verifier::spinoff_prover]
pub(crate) fn laplace() -> (r: Formula)
    ensures
        forall|m: Calculus, p: Point| #[trigger]
            formula::meaning(m, r, p) == families::log_density(m, Kind::Laplace, p),
        forall|m: Calculus, p: Point|
            proper(m) && regular(m, Kind::Laplace, p) ==> #[trigger] slopes_at(m, r, p)
                == slopes::score(m, Kind::Laplace, p),
{
    let r = less(
        minus(call(Call::Ln, times(whole(2), slot(Slot::B)))),
        over(call(Call::Abs, less(slot(Slot::X), slot(Slot::A))), slot(Slot::B)),
    );
    proof {
        assert forall|m: Calculus, p: Point|
            proper(m) && regular(m, Kind::Laplace, p) implies #[trigger] slopes_at(m, r, p)
            == slopes::score(m, Kind::Laplace, p) by {
            broadcast use formula::lemma_along;

            let x = p.x;
            let a = p.a;
            let b = p.b;
            let d = formula::magnitude(x - a);
            let s = formula::sign(x - a);
            let i = 1real / b;
            lemma_times(1real / b, s, i, s);
            lemma_over(s, b);
            lemma_times(1real / b, s * (-1real), i, s * (-1real));
            lemma_over_two(1real, 2real, b);
            lemma_times(1real / (2real * b), 2real, (1real / 2real) * i, 2real);
            lemma_over(d, b);
            lemma_times(1real / b, -(d / b), i, -(d * i));
            lemma_over(d / b - 1real, b);
            lemma_times(d / b - 1real, i, d * i - 1real, i);
            assert(-(i * s) == -(s * i)) by (nonlinear_arith);
            assert(-(i * (s * (-1real))) == s * i) by (nonlinear_arith);
            assert(
                (-((1real / 2real) * i * 2real)) - i * (-(d * i)) == (d * i - 1real) * i
            ) by (nonlinear_arith);
        }
    }
    r
}

#[verifier::spinoff_prover]
pub(crate) fn beta() -> (r: Formula)
    ensures
        forall|m: Calculus, p: Point| #[trigger]
            formula::meaning(m, r, p) == families::log_density(m, Kind::Beta, p),
        forall|m: Calculus, p: Point|
            proper(m) && regular(m, Kind::Beta, p) ==> #[trigger] slopes_at(m, r, p)
                == slopes::score(m, Kind::Beta, p),
{
    let r = less(
        plus(
            pair(Pair::Xlogy, less(slot(Slot::A), whole(1)), slot(Slot::X)),
            pair(Pair::Xlog1py, less(slot(Slot::B), whole(1)), minus(slot(Slot::X))),
        ),
        pair(Pair::Lbeta, slot(Slot::A), slot(Slot::B)),
    );
    proof {
        assert forall|m: Calculus, p: Point|
            proper(m) && regular(m, Kind::Beta, p) implies #[trigger] slopes_at(m, r, p)
            == slopes::score(m, Kind::Beta, p) by {
            broadcast use formula::lemma_along;

            let x = p.x;
            let a = p.a;
            let b = p.b;
            let l = (m.ln)(x);
            let psi0 = (m.digamma)(a);
            let psi1 = (m.digamma)(a + b);
            let q = (m.log1p)(-x);
            let psi2 = (m.digamma)(b);
            let i = 1real / x;
            let j = 1real / (1real - x);
            lemma_over(a - 1real, x);
            lemma_over(b - 1real, 1real + (-x));
            lemma_times((b - 1real) / (1real + (-x)), -1real, (b - 1real) * j, -1real);
            lemma_over(b - 1real, 1real - x);
            assert(
                (a - 1real) * i + (b - 1real) * j * (-1real) == (a - 1real) * i - (b - 1real) * j
            ) by (nonlinear_arith);
            assert(l - (psi0 - psi1) == l - psi0 + psi1) by (nonlinear_arith);
            assert(q - (psi2 - psi1) == q - psi2 + psi1) by (nonlinear_arith);
        }
    }
    r
}

} // verus!
