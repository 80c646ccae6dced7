//! Entropy formulas, and that their slopes, taken by the rules of calculus, are their adjoints.

use vstd::prelude::*;

use super::algebra::{
    lemma_inverse, lemma_nonzero, lemma_over, lemma_over_two, lemma_times, lemma_vanishes,
};
use super::densities::{positive, proper, slopes_at};
use super::families;
use super::formula;
use super::formula::{
    Calculus, Call, Formula, Named, Pair, Point, Slot, call, less, minus, named, over, pair, plus,
    ratio, slot, times, whole,
};
use super::slopes;
use super::slopes::Slopes;
use super::univariate::Kind;

verus! {

/// Whether the derivatives agree for every parameter a family has.
pub open spec fn agree(kind: Kind, s: Slopes, t: Slopes) -> bool {
    &&& s.dx == t.dx
    &&& s.da == t.da
    &&& kind.arity_of() > 1 ==> s.db == t.db
    &&& kind.arity_of() > 2 ==> s.dc == t.dc
}

#[verifier::spinoff_prover]
pub(crate) fn normal() -> (r: Formula)
    ensures
        forall|m: Calculus, p: Point| #[trigger]
            formula::meaning(m, r, p) == families::entropy(m, Kind::Normal, p),
        forall|m: Calculus, p: Point|
            proper(m) && positive(Kind::Normal, p) ==> agree(
                Kind::Normal,
                #[trigger] slopes_at(m, r, p),
                slopes::entropy_slopes(m, Kind::Normal, p),
            ),
{
    let r = plus(plus(call(Call::Ln, slot(Slot::B)), named(Named::HalfLnTwoPi)), ratio(1, 2));
    proof {
        assert forall|m: Calculus, p: Point|
            proper(m) && positive(Kind::Normal, p) implies agree(
                Kind::Normal,
                #[trigger] slopes_at(m, r, p),
                slopes::entropy_slopes(m, Kind::Normal, p),
            ) by {
            broadcast use formula::lemma_along;

        }
    }
    r
}

#[verifier::spinoff_prover]
pub(crate) fn uniform() -> (r: Formula)
    ensures
        forall|m: Calculus, p: Point| #[trigger]
            formula::meaning(m, r, p) == families::entropy(m, Kind::Uniform, p),
        forall|m: Calculus, p: Point|
            proper(m) && positive(Kind::Uniform, p) ==> agree(
                Kind::Uniform,
                #[trigger] slopes_at(m, r, p),
                slopes::entropy_slopes(m, Kind::Uniform, p),
            ),
{
    let r = call(Call::Ln, less(slot(Slot::B), slot(Slot::A)));
    proof {
        assert forall|m: Calculus, p: Point|
            proper(m) && positive(Kind::Uniform, p) implies agree(
                Kind::Uniform,
                #[trigger] slopes_at(m, r, p),
                slopes::entropy_slopes(m, Kind::Uniform, p),
            ) by {
            broadcast use formula::lemma_along;

            let a = p.a;
            let b = p.b;
            let i = 1real / (b - a);
            lemma_times(1real / (b - a), -1real, i, -1real);
            assert(i * (-1real) == -i) by (nonlinear_arith);
        }
    }
    r
}

#[verifier::spinoff_prover]
pub(crate) fn exponential() -> (r: Formula)
    ensures
        forall|m: Calculus, p: Point| #[trigger]
            formula::meaning(m, r, p) == families::entropy(m, Kind::Exponential, p),
        forall|m: Calculus, p: Point|
            proper(m) && positive(Kind::Exponential, p) ==> agree(
                Kind::Exponential,
                #[trigger] slopes_at(m, r, p),
                slopes::entropy_slopes(m, Kind::Exponential, p),
            ),
{
    let r = less(whole(1), call(Call::Ln, slot(Slot::A)));
    proof {
        assert forall|m: Calculus, p: Point|
            proper(m) && positive(Kind::Exponential, p) implies agree(
                Kind::Exponential,
                #[trigger] slopes_at(m, r, p),
                slopes::entropy_slopes(m, Kind::Exponential, p),
            ) by {
            broadcast use formula::lemma_along;

            let a = p.a;
            let i = 1real / a;
            lemma_over((-1real), a);
            lemma_times((-1real), 1real / a, (-1real), i);
            assert(-i == (-1real) * i) by (nonlinear_arith);
        }
    }
    r
}

#[verifier::spinoff_prover]
pub(crate) fn laplace() -> (r: Formula)
    ensures
        forall|m: Calculus, p: Point| #[trigger]
            formula::meaning(m, r, p) == families::entropy(m, Kind::Laplace, p),
        forall|m: Calculus, p: Point|
            proper(m) && positive(Kind::Laplace, p) ==> agree(
                Kind::Laplace,
                #[trigger] slopes_at(m, r, p),
                slopes::entropy_slopes(m, Kind::Laplace, p),
            ),
{
    let r = plus(whole(1), call(Call::Ln, times(whole(2), slot(Slot::B))));
    proof {
        assert forall|m: Calculus, p: Point|
            proper(m) && positive(Kind::Laplace, p) implies agree(
                Kind::Laplace,
                #[trigger] slopes_at(m, r, p),
                slopes::entropy_slopes(m, Kind::Laplace, p),
            ) by {
            broadcast use formula::lemma_along;

            let b = p.b;
            let i = 1real / b;
            lemma_nonzero(2real, b);
            lemma_over_two(1real, 2real, b);
            lemma_times(1real / 2real, 1real / b, (1real / 2real), i);
            lemma_times(1real / (2real * b), 2real, (1real / 2real) * i, 2real);
            assert((1real / 2real) * i * 2real == i) by (nonlinear_arith);
        }
    }
    r
}

#[verifier::spinoff_prover]
pub(crate) fn cauchy() -> (r: Formula)
    ensures
        forall|m: Calculus, p: Point| #[trigger]
            formula::meaning(m, r, p) == families::entropy(m, Kind::Cauchy, p),
        forall|m: Calculus, p: Point|
            proper(m) && positive(Kind::Cauchy, p) ==> agree(
                Kind::Cauchy,
                #[trigger] slopes_at(m, r, p),
                slopes::entropy_slopes(m, Kind::Cauchy, p),
            ),
{
    let r = call(Call::Ln, times(times(whole(4), named(Named::Pi)), slot(Slot::B)));
    proof {
        assert forall|m: Calculus, p: Point|
            proper(m) && positive(Kind::Cauchy, p) implies agree(
                Kind::Cauchy,
                #[trigger] slopes_at(m, r, p),
                slopes::entropy_slopes(m, Kind::Cauchy, p),
            ) by {
            broadcast use formula::lemma_along;

            let b = p.b;
            assert(4real * m.pi != 0real) by (nonlinear_arith)
                requires
                    m.pi != 0real,
            ;
            let i = 1real / m.pi;
            let j = 1real / b;
            lemma_nonzero(4real, m.pi);
            lemma_over_two(1real, 4real, m.pi);
            lemma_times(1real / 4real, 1real / m.pi, (1real / 4real), i);
            lemma_nonzero(4real * m.pi, b);
            lemma_over_two(1real, 4real * m.pi, b);
            lemma_times(1real / (4real * m.pi), 1real / b, (1real / 4real) * i, j);
            lemma_times(
                1real / (4real * m.pi * b),
                4real * m.pi,
                (1real / 4real) * i * j,
                4real * m.pi,
            );
            lemma_inverse(m.pi);
            lemma_vanishes(j, m.pi * i - 1real);
            assert(
                (1real / 4real) * i * j * (4real * m.pi) - (j) == (j) * (m.pi * i - 1real)
            ) by (nonlinear_arith);
            assert((1real / 4real) * i * j * (4real * m.pi) == j);
        }
    }
    r
}

#[verifier::spinoff_prover]
pub(crate) fn gumbel() -> (r: Formula)
    ensures
        forall|m: Calculus, p: Point| #[trigger]
            formula::meaning(m, r, p) == families::entropy(m, Kind::Gumbel, p),
        forall|m: Calculus, p: Point|
            proper(m) && positive(Kind::Gumbel, p) ==> agree(
                Kind::Gumbel,
                #[trigger] slopes_at(m, r, p),
                slopes::entropy_slopes(m, Kind::Gumbel, p),
            ),
{
    let r = plus(plus(call(Call::Ln, slot(Slot::B)), whole(1)), named(Named::EulerGamma));
    proof {
        assert forall|m: Calculus, p: Point|
            proper(m) && positive(Kind::Gumbel, p) implies agree(
                Kind::Gumbel,
                #[trigger] slopes_at(m, r, p),
                slopes::entropy_slopes(m, Kind::Gumbel, p),
            ) by {
            broadcast use formula::lemma_along;

        }
    }
    r
}

#[verifier::spinoff_prover]
pub(crate) fn half_normal() -> (r: Formula)
    ensures
        forall|m: Calculus, p: Point| #[trigger]
            formula::meaning(m, r, p) == families::entropy(m, Kind::HalfNormal, p),
        forall|m: Calculus, p: Point|
            proper(m) && positive(Kind::HalfNormal, p) ==> agree(
                Kind::HalfNormal,
                #[trigger] slopes_at(m, r, p),
                slopes::entropy_slopes(m, Kind::HalfNormal, p),
            ),
{
    let r = less(
        plus(plus(call(Call::Ln, slot(Slot::A)), named(Named::HalfLnTwoPi)), ratio(1, 2)),
        named(Named::LnTwo),
    );
    proof {
        assert forall|m: Calculus, p: Point|
            proper(m) && positive(Kind::HalfNormal, p) implies agree(
                Kind::HalfNormal,
                #[trigger] slopes_at(m, r, p),
                slopes::entropy_slopes(m, Kind::HalfNormal, p),
            ) by {
            broadcast use formula::lemma_along;

        }
    }
    r
}

#[verifier::spinoff_prover]
pub(crate) fn half_cauchy() -> (r: Formula)
    ensures
        forall|m: Calculus, p: Point| #[trigger]
            formula::meaning(m, r, p) == families::entropy(m, Kind::HalfCauchy, p),
        forall|m: Calculus, p: Point|
            proper(m) && positive(Kind::HalfCauchy, p) ==> agree(
                Kind::HalfCauchy,
                #[trigger] slopes_at(m, r, p),
                slopes::entropy_slopes(m, Kind::HalfCauchy, p),
            ),
{
    let r = call(Call::Ln, times(times(whole(2), named(Named::Pi)), slot(Slot::A)));
    proof {
        assert forall|m: Calculus, p: Point|
            proper(m) && positive(Kind::HalfCauchy, p) implies agree(
                Kind::HalfCauchy,
                #[trigger] slopes_at(m, r, p),
                slopes::entropy_slopes(m, Kind::HalfCauchy, p),
            ) by {
            broadcast use formula::lemma_along;

            let a = p.a;
            assert(2real * m.pi != 0real) by (nonlinear_arith)
                requires
                    m.pi != 0real,
            ;
            let i = 1real / m.pi;
            let j = 1real / a;
            lemma_nonzero(2real, m.pi);
            lemma_over_two(1real, 2real, m.pi);
            lemma_times(1real / 2real, 1real / m.pi, (1real / 2real), i);
            lemma_nonzero(2real * m.pi, a);
            lemma_over_two(1real, 2real * m.pi, a);
            lemma_times(1real / (2real * m.pi), 1real / a, (1real / 2real) * i, j);
            lemma_times(
                1real / (2real * m.pi * a),
                2real * m.pi,
                (1real / 2real) * i * j,
                2real * m.pi,
            );
            lemma_inverse(m.pi);
            lemma_vanishes(j, m.pi * i - 1real);
            assert(
                (1real / 2real) * i * j * (2real * m.pi) - (j) == (j) * (m.pi * i - 1real)
            ) by (nonlinear_arith);
            assert((1real / 2real) * i * j * (2real * m.pi) == j);
        }
    }
    r
}

#[verifier::spinoff_prover]
pub(crate) fn log_normal() -> (r: Formula)
    ensures
        forall|m: Calculus, p: Point| #[trigger]
            formula::meaning(m, r, p) == families::entropy(m, Kind::LogNormal, p),
        forall|m: Calculus, p: Point|
            proper(m) && positive(Kind::LogNormal, p) ==> agree(
                Kind::LogNormal,
                #[trigger] slopes_at(m, r, p),
                slopes::entropy_slopes(m, Kind::LogNormal, p),
            ),
{
    let r = plus(
        plus(plus(slot(Slot::A), call(Call::Ln, slot(Slot::B))), named(Named::HalfLnTwoPi)),
        ratio(1, 2),
    );
    proof {
        assert forall|m: Calculus, p: Point|
            proper(m) && positive(Kind::LogNormal, p) implies agree(
                Kind::LogNormal,
                #[trigger] slopes_at(m, r, p),
                slopes::entropy_slopes(m, Kind::LogNormal, p),
            ) by {
            broadcast use formula::lemma_along;

        }
    }
    r
}

#[verifier::spinoff_prover]
proof fn lemma_kumaraswamy_a(a: real, b: real, psi: real, harmonic: real, euler_gamma: real)
    requires
        harmonic == euler_gamma + psi,
        0real < a,
        0real < b,
    ensures
        harmonic * (-(1real / a * (-(1real / a)))) - 1real / a == harmonic / (a * a) - 1real / a,
{
    let i = 1real / a;
    lemma_times(1real / a, -(1real / a), i, -i);
    lemma_times(harmonic, -(1real / a * (-(1real / a))), harmonic, -(i * (-i)));
    lemma_nonzero(a, a);
    lemma_over_two(1real, a, a);
    lemma_times(1real / a, 1real / a, i, i);
    lemma_over(harmonic, a * a);
    lemma_times(harmonic, 1real / (a * a), harmonic, i * i);
    assert(harmonic * (-(i * (-i))) - i == harmonic * (i * i) - i) by (nonlinear_arith);
}

#[verifier::spinoff_prover]
proof fn lemma_kumaraswamy_b(a: real, b: real, tri: real)
    requires
        0real < a,
        0real < b,
    ensures
        (-(1real / b * (-(1real / b)))) + (1real - 1real / a) * tri - 1real / b == 1real / (b * b)
            + (1real - 1real / a) * tri - 1real / b,
{
    let i = 1real / b;
    let j = 1real / a;
    lemma_times(1real / b, -(1real / b), i, -i);
    lemma_times(1real - 1real / a, tri, 1real - j, tri);
    lemma_nonzero(b, b);
    lemma_over_two(1real, b, b);
    lemma_times(1real / b, 1real / b, i, i);
    assert(
        (-(i * (-i))) + (1real - j) * tri - i == i * i + (1real - j) * tri - i
    ) by (nonlinear_arith);
}

#[verifier::spinoff_prover]
pub(crate) fn kumaraswamy() -> (r: Formula)
    ensures
        forall|m: Calculus, p: Point| #[trigger]
            formula::meaning(m, r, p) == families::entropy(m, Kind::Kumaraswamy, p),
        forall|m: Calculus, p: Point|
            proper(m) && positive(Kind::Kumaraswamy, p) ==> agree(
                Kind::Kumaraswamy,
                #[trigger] slopes_at(m, r, p),
                slopes::entropy_slopes(m, Kind::Kumaraswamy, p),
            ),
{
    let harmonic = plus(
        named(Named::EulerGamma),
        call(Call::Digamma, plus(slot(Slot::B), whole(1))),
    );
    let r = less(
        less(
            plus(
                less(whole(1), over(whole(1), slot(Slot::B))),
                times(less(whole(1), over(whole(1), slot(Slot::A))), harmonic.clone()),
            ),
            call(Call::Ln, slot(Slot::A)),
        ),
        call(Call::Ln, slot(Slot::B)),
    );
    proof {
        assert forall|m: Calculus, p: Point|
            proper(m) && positive(Kind::Kumaraswamy, p) implies agree(
                Kind::Kumaraswamy,
                #[trigger] slopes_at(m, r, p),
                slopes::entropy_slopes(m, Kind::Kumaraswamy, p),
            ) by {
            broadcast use formula::lemma_along;

            let a = p.a;
            let b = p.b;
            let psi = (m.digamma)(b + 1real);
            let tri = (m.trigamma)(b + 1real);
            let harmonic = m.euler_gamma + psi;
            lemma_kumaraswamy_a(a, b, psi, harmonic, m.euler_gamma);
            lemma_kumaraswamy_b(a, b, tri);
        }
    }
    r
}

#[verifier::spinoff_prover]
pub(crate) fn gamma() -> (r: Formula)
    ensures
        forall|m: Calculus, p: Point| #[trigger]
            formula::meaning(m, r, p) == families::entropy(m, Kind::Gamma, p),
        forall|m: Calculus, p: Point|
            proper(m) && positive(Kind::Gamma, p) ==> agree(
                Kind::Gamma,
                #[trigger] slopes_at(m, r, p),
                slopes::entropy_slopes(m, Kind::Gamma, p),
            ),
{
    let r = plus(
        plus(less(slot(Slot::A), call(Call::Ln, slot(Slot::B))), call(Call::Lgamma, slot(Slot::A))),
        times(less(whole(1), slot(Slot::A)), call(Call::Digamma, slot(Slot::A))),
    );
    proof {
        assert forall|m: Calculus, p: Point|
            proper(m) && positive(Kind::Gamma, p) implies agree(
                Kind::Gamma,
                #[trigger] slopes_at(m, r, p),
                slopes::entropy_slopes(m, Kind::Gamma, p),
            ) by {
            broadcast use formula::lemma_along;

            let a = p.a;
            let b = p.b;
            let psi = (m.digamma)(a);
            let tri = (m.trigamma)(a);
            let i = 1real / b;
            lemma_over((-1real), b);
            lemma_times((-1real), 1real / b, (-1real), i);
            assert(
                1real + psi + (psi * (-1real) + (1real - a) * tri) == 1real + (1real - a) * tri
            ) by (nonlinear_arith);
            assert(-i == (-1real) * i) by (nonlinear_arith);
        }
    }
    r
}

#[verifier::spinoff_prover]
pub(crate) fn inverse_gamma() -> (r: Formula)
    ensures
        forall|m: Calculus, p: Point| #[trigger]
            formula::meaning(m, r, p) == families::entropy(m, Kind::InverseGamma, p),
        forall|m: Calculus, p: Point|
            proper(m) && positive(Kind::InverseGamma, p) ==> agree(
                Kind::InverseGamma,
                #[trigger] slopes_at(m, r, p),
                slopes::entropy_slopes(m, Kind::InverseGamma, p),
            ),
{
    let r = less(
        plus(plus(slot(Slot::A), call(Call::Ln, slot(Slot::B))), call(Call::Lgamma, slot(Slot::A))),
        times(plus(whole(1), slot(Slot::A)), call(Call::Digamma, slot(Slot::A))),
    );
    proof {
        assert forall|m: Calculus, p: Point|
            proper(m) && positive(Kind::InverseGamma, p) implies agree(
                Kind::InverseGamma,
                #[trigger] slopes_at(m, r, p),
                slopes::entropy_slopes(m, Kind::InverseGamma, p),
            ) by {
            broadcast use formula::lemma_along;

            let a = p.a;
            let psi = (m.digamma)(a);
            let tri = (m.trigamma)(a);
            assert(
                1real + psi - (psi + (1real + a) * tri) == 1real - (1real + a) * tri
            ) by (nonlinear_arith);
        }
    }
    r
}

#[verifier::spinoff_prover]
proof fn lemma_beta_a(a: real, b: real, psi0: real, psi2: real, tri0: real, tri1: real)
    requires
        0real < a,
        0real < b,
    ensures
        psi0 - psi2 - (psi0 + (a - 1real) * tri0)
            + (psi2 + (a + b - 2real) * tri1) == (a + b - 2real) * tri1 - (a - 1real) * tri0,
{
    assert(
        psi0 - psi2 - (psi0 + (a - 1real) * tri0)
            + (psi2 + (a + b - 2real) * tri1) == (a + b - 2real) * tri1
            - (a - 1real) * tri0
    ) by (nonlinear_arith);
}

#[verifier::spinoff_prover]
proof fn lemma_beta_b(a: real, b: real, psi1: real, psi2: real, tri1: real, tri2: real)
    requires
        0real < a,
        0real < b,
    ensures
        psi1 - psi2 - (psi1 + (b - 1real) * tri2)
            + (psi2 + (a + b - 2real) * tri1) == (a + b - 2real) * tri1 - (b - 1real) * tri2,
{
    assert(
        psi1 - psi2 - (psi1 + (b - 1real) * tri2)
            + (psi2 + (a + b - 2real) * tri1) == (a + b - 2real) * tri1
            - (b - 1real) * tri2
    ) by (nonlinear_arith);
}

#[verifier::spinoff_prover]
pub(crate) fn beta() -> (r: Formula)
    ensures
        forall|m: Calculus, p: Point| #[trigger]
            formula::meaning(m, r, p) == families::entropy(m, Kind::Beta, p),
        forall|m: Calculus, p: Point|
            proper(m) && positive(Kind::Beta, p) ==> agree(
                Kind::Beta,
                #[trigger] slopes_at(m, r, p),
                slopes::entropy_slopes(m, Kind::Beta, p),
            ),
{
    let r = plus(
        less(
            less(
                pair(Pair::Lbeta, slot(Slot::A), slot(Slot::B)),
                times(less(slot(Slot::A), whole(1)), call(Call::Digamma, slot(Slot::A))),
            ),
            times(less(slot(Slot::B), whole(1)), call(Call::Digamma, slot(Slot::B))),
        ),
        times(
            less(plus(slot(Slot::A), slot(Slot::B)), whole(2)),
            call(Call::Digamma, plus(slot(Slot::A), slot(Slot::B))),
        ),
    );
    proof {
        assert forall|m: Calculus, p: Point|
            proper(m) && positive(Kind::Beta, p) implies agree(
                Kind::Beta,
                #[trigger] slopes_at(m, r, p),
                slopes::entropy_slopes(m, Kind::Beta, p),
            ) by {
            broadcast use formula::lemma_along;

            let a = p.a;
            let b = p.b;
            let psi0 = (m.digamma)(a);
            let psi1 = (m.digamma)(b);
            let psi2 = (m.digamma)(a + b);
            let tri0 = (m.trigamma)(a);
            let tri1 = (m.trigamma)(a + b);
            let tri2 = (m.trigamma)(b);
            lemma_beta_a(a, b, psi0, psi2, tri0, tri1);
            lemma_beta_b(a, b, psi1, psi2, tri1, tri2);
        }
    }
    r
}

#[verifier::spinoff_prover]
proof fn lemma_student_t_a(a: real, c: real, half: real, psi0: real, psi1: real, tri0: real, tri1: real)
    requires
        half == (1real / 2real) * a,
        0real < a,
        0real < c,
    ensures
        (psi0 - psi1) * (1real / 2real)
            + (half + (1real / 2real)) * (tri0 * (1real / 2real) - tri1 * (1real / 2real))
            + (1real / 2real) * (1real / a)
            + (psi1 - psi0) * (1real / 2real) == (1real / 4real) * (a + 1real) * (tri0 - tri1)
            + (1real / 2real) / a,
{
    let i = 1real / a;
    lemma_times(
        half + (1real / 2real),
        tri0 * (1real / 2real) - tri1 * (1real / 2real),
        (1real / 2real) * a + (1real / 2real),
        tri0 * (1real / 2real) - tri1 * (1real / 2real),
    );
    lemma_times((1real / 2real), 1real / a, (1real / 2real), i);
    lemma_over((1real / 2real), a);
    assert(
        (psi0 - psi1) * (1real / 2real)
            + ((1real / 2real) * a + (1real / 2real)) * (tri0 * (1real / 2real) - tri1 * (1real / 2real))
            + (1real / 2real) * i
            + (psi1 - psi0) * (1real / 2real) == (1real / 4real) * (a + 1real) * (tri0 - tri1)
            + (1real / 2real) * i
    ) by (nonlinear_arith);
}

#[verifier::spinoff_prover]
pub(crate) fn student_t() -> (r: Formula)
    ensures
        forall|m: Calculus, p: Point| #[trigger]
            formula::meaning(m, r, p) == families::entropy(m, Kind::StudentT, p),
        forall|m: Calculus, p: Point|
            proper(m) && positive(Kind::StudentT, p) ==> agree(
                Kind::StudentT,
                #[trigger] slopes_at(m, r, p),
                slopes::entropy_slopes(m, Kind::StudentT, p),
            ),
{
    let half = times(ratio(1, 2), slot(Slot::A));
    let r = plus(
        plus(
            plus(
                times(
                    plus(half.clone(), ratio(1, 2)),
                    less(
                        call(Call::Digamma, plus(half.clone(), ratio(1, 2))),
                        call(Call::Digamma, half.clone()),
                    ),
                ),
                times(ratio(1, 2), call(Call::Ln, slot(Slot::A))),
            ),
            pair(Pair::Lbeta, half.clone(), ratio(1, 2)),
        ),
        call(Call::Ln, slot(Slot::C)),
    );
    proof {
        assert forall|m: Calculus, p: Point|
            proper(m) && positive(Kind::StudentT, p) implies agree(
                Kind::StudentT,
                #[trigger] slopes_at(m, r, p),
                slopes::entropy_slopes(m, Kind::StudentT, p),
            ) by {
            broadcast use formula::lemma_along;

            let a = p.a;
            let c = p.c;
            let half = (1real / 2real) * a;
            let psi0 = (m.digamma)(half + (1real / 2real));
            let psi1 = (m.digamma)(half);
            let tri0 = (m.trigamma)(half + (1real / 2real));
            let tri1 = (m.trigamma)(half);
            lemma_student_t_a(a, c, half, psi0, psi1, tri0, tri1);
        }
    }
    r
}

#[verifier::spinoff_prover]
pub(crate) fn von_mises() -> (r: Formula)
    ensures
        forall|m: Calculus, p: Point| #[trigger]
            formula::meaning(m, r, p) == families::entropy(m, Kind::VonMises, p),
        forall|m: Calculus, p: Point|
            proper(m) && positive(Kind::VonMises, p) ==> agree(
                Kind::VonMises,
                #[trigger] slopes_at(m, r, p),
                slopes::entropy_slopes(m, Kind::VonMises, p),
            ),
{
    let r = less(
        plus(call(Call::Ln, times(whole(2), named(Named::Pi))), call(Call::LogI0, slot(Slot::B))),
        times(slot(Slot::B), call(Call::BesselRatio, slot(Slot::B))),
    );
    proof {
        assert forall|m: Calculus, p: Point|
            proper(m) && positive(Kind::VonMises, p) implies agree(
                Kind::VonMises,
                #[trigger] slopes_at(m, r, p),
                slopes::entropy_slopes(m, Kind::VonMises, p),
            ) by {
            broadcast use formula::lemma_along;

            let b = p.b;
            let bessel = (m.bessel_ratio)(b);
            let i = 1real / b;
            lemma_over(bessel, b);
            lemma_times(bessel, 1real / b, bessel, i);
            lemma_times(
                b,
                1real - bessel * bessel - bessel / b,
                b,
                1real - bessel * bessel - bessel * i,
            );
            lemma_times(
                -b,
                1real - bessel * bessel - bessel / b,
                -b,
                1real - bessel * bessel - bessel * i,
            );
            assert(
                bessel
                    - (bessel + b * (1real - bessel * bessel - bessel * i)) == (-b) * (1real - bessel * bessel - bessel * i)
            ) by (nonlinear_arith);
        }
    }
    r
}

#[verifier::spinoff_prover]
proof fn lemma_bernoulli_a(a: real, e: real, p1: real)
    requires
        p1 == 1real / (1real + e),
        0real < e,
    ensures
        1real / (1real + e)
            - (a * (1real / (1real + e) * (-(p1 * (e * (-1real))))) + p1) == (-a) * p1 * (1real - p1),
{
    let i = 1real / (1real + e);
    lemma_times(p1, e * (-1real), i, e * (-1real));
    lemma_times(1real / (1real + e), -(p1 * (e * (-1real))), i, -(i * (e * (-1real))));
    lemma_times(a, 1real / (1real + e) * (-(p1 * (e * (-1real)))), a, i * (-(i * (e * (-1real)))));
    lemma_times(-a, p1, -a, i);
    lemma_times((-a) * p1, 1real - p1, (-a) * i, 1real - i);
    lemma_inverse(1real + e);
    lemma_vanishes((-1real) * a * i, (1real + e) * i - 1real);
    assert(
        i - (a * (i * (-(i * (e * (-1real))))) + i)
            - ((-a) * i * (1real - i)) == ((-1real) * a * i) * ((1real + e) * i - 1real)
    ) by (nonlinear_arith);
    assert(i - (a * (i * (-(i * (e * (-1real))))) + i) == (-a) * i * (1real - i));
}

#[verifier::spinoff_prover]
pub(crate) fn bernoulli() -> (r: Formula)
    ensures
        forall|m: Calculus, p: Point| #[trigger]
            formula::meaning(m, r, p) == families::entropy(m, Kind::Bernoulli, p),
        forall|m: Calculus, p: Point|
            proper(m) && positive(Kind::Bernoulli, p) ==> agree(
                Kind::Bernoulli,
                #[trigger] slopes_at(m, r, p),
                slopes::entropy_slopes(m, Kind::Bernoulli, p),
            ),
{
    let p1 = over(whole(1), plus(whole(1), call(Call::Exp, minus(slot(Slot::A)))));
    let r = less(call(Call::Softplus, slot(Slot::A)), times(p1.clone(), slot(Slot::A)));
    proof {
        assert forall|m: Calculus, p: Point|
            proper(m) && positive(Kind::Bernoulli, p) implies agree(
                Kind::Bernoulli,
                #[trigger] slopes_at(m, r, p),
                slopes::entropy_slopes(m, Kind::Bernoulli, p),
            ) by {
            broadcast use formula::lemma_along;

            let a = p.a;
            let e = (m.exp)(-a);
            let p1 = 1real / (1real + e);
            lemma_bernoulli_a(a, e, p1);
        }
    }
    r
}

} // verus!
