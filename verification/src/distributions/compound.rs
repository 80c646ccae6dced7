//! Log-densities, entropies and quantiles that are put together from parts, each of which has
//! its slopes simplified first.

use vstd::prelude::*;

use super::algebra::{
    lemma_cancel, lemma_inverse, lemma_nonzero, lemma_over, lemma_over_two, lemma_quotients,
    lemma_ratio_slopes, lemma_signs, lemma_times,
};
use super::densities::{away_from_even, positive, proper, regular, slopes_at};
use super::draws;
use super::entropies;
use super::families;
use super::formula;
use super::formula::{
    Calculus, Call, Formula, Named, Pair, Point, Slot, below, branch, call, less, minus, named, over, pair,
    plus, ratio, slot, times, whole,
};
use super::quantiles;
use super::slopes;
use super::slopes::Slopes;
use super::univariate::Kind;

verus! {

// -- parts ---------------------------------------------------------------------------------

/// The logarithm of the value over the first parameter.
#[verifier::spinoff_prover]
fn log_of_ratio() -> (r: Formula)
    ensures
        forall|m: Calculus, p: Point| #[trigger]
            formula::meaning(m, r, p) == (m.ln)(p.x / p.a),
        forall|m: Calculus, p: Point|
            0real < p.x && 0real < p.a ==> #[trigger] slopes_at(m, r, p) == (Slopes {
                dx: 1real / p.x,
                da: -(1real / p.a),
                db: 0real,
                dc: 0real,
            }),
{
    let r = call(Call::Ln, over(slot(Slot::X), slot(Slot::A)));
    proof {
        assert forall|m: Calculus, p: Point|
            0real < p.x && 0real < p.a implies #[trigger] slopes_at(m, r, p) == (Slopes {
                dx: 1real / p.x,
                da: -(1real / p.a),
                db: 0real,
                dc: 0real,
            }) by {
            broadcast use formula::lemma_along;

            lemma_ratio_slopes(1real, p.x, p.a);
        }
    }
    r
}

/// The value over the first parameter, raised to the second.
#[verifier::spinoff_prover]
fn power_of_ratio() -> (r: Formula)
    ensures
        forall|m: Calculus, p: Point| #[trigger]
            formula::meaning(m, r, p) == (m.pow)(p.x / p.a, p.b),
        forall|m: Calculus, p: Point|
            0real < p.x && 0real < p.a ==> #[trigger] slopes_at(m, r, p) == (Slopes {
                dx: p.b * (m.pow)(p.x / p.a, p.b) / p.x,
                da: -(p.b * (m.pow)(p.x / p.a, p.b) / p.a),
                db: (m.ln)(p.x / p.a) * (m.pow)(p.x / p.a, p.b),
                dc: 0real,
            }),
{
    let r = pair(Pair::Pow, over(slot(Slot::X), slot(Slot::A)), slot(Slot::B));
    proof {
        assert forall|m: Calculus, p: Point|
            0real < p.x && 0real < p.a implies #[trigger] slopes_at(m, r, p) == (Slopes {
                dx: p.b * (m.pow)(p.x / p.a, p.b) / p.x,
                da: -(p.b * (m.pow)(p.x / p.a, p.b) / p.a),
                db: (m.ln)(p.x / p.a) * (m.pow)(p.x / p.a, p.b),
                dc: 0real,
            }) by {
            broadcast use formula::lemma_along;

            lemma_ratio_slopes(p.b * (m.pow)(p.x / p.a, p.b), p.x, p.a);
        }
    }
    r
}

// -- Weibull -------------------------------------------------------------------------------

#[verifier::spinoff_prover]
proof fn lemma_weibull(x: real, a: real, b: real, l: real, t: real)
    requires
        0real < x,
        0real < a,
    ensures
        (b - 1real) * (1real / x) - b * t / x == (b - 1real) / x - b * t / x,
        -(1real / a) + (b - 1real) * (-(1real / a)) - (-(b * t / a)) == b * (t - 1real) / a,
        1real / b + l - l * t == 1real / b + (1real - t) * l,
{
    let j = 1real / a;
    lemma_over(b - 1real, x);
    lemma_over(b * t, a);
    lemma_over(b * (t - 1real), a);
    assert(-j + (b - 1real) * (-j) + b * t * j == b * (t - 1real) * j) by (nonlinear_arith);
    assert(l - l * t == (1real - t) * l) by (nonlinear_arith);
}

#[verifier::spinoff_prover]
pub(crate) fn weibull() -> (r: Formula)
    ensures
        forall|m: Calculus, p: Point| #[trigger]
            formula::meaning(m, r, p) == families::log_density(m, Kind::Weibull, p),
        forall|m: Calculus, p: Point|
            proper(m) && regular(m, Kind::Weibull, p) ==> #[trigger] slopes_at(m, r, p)
                == slopes::score(m, Kind::Weibull, p),
{
    let l = log_of_ratio();
    let t = power_of_ratio();
    let r = less(
        plus(
            less(call(Call::Ln, slot(Slot::B)), call(Call::Ln, slot(Slot::A))),
            times(less(slot(Slot::B), whole(1)), l.clone()),
        ),
        t.clone(),
    );
    proof {
        assert forall|m: Calculus, p: Point|
            proper(m) && regular(m, Kind::Weibull, p) implies #[trigger] slopes_at(m, r, p)
            == slopes::score(m, Kind::Weibull, p) by {
            broadcast use formula::lemma_along;

            let (dl, dt) = (slopes_at(m, l, p), slopes_at(m, t, p));
            let z = p.x / p.a;
            lemma_weibull(p.x, p.a, p.b, (m.ln)(z), (m.pow)(z, p.b));
        }
    }
    r
}

// -- Kumaraswamy ---------------------------------------------------------------------------

#[verifier::spinoff_prover]
proof fn lemma_kumaraswamy(x: real, a: real, b: real, w: real, l: real)
    requires
        0real < x,
        w != 1real,
    ensures
        (b - 1real) / (1real + (-w)) * (-(a * w / x)) == -((b - 1real) * a * w / (x * (1real - w))),
        (b - 1real) / (1real + (-w)) * (-(l * w)) == -((b - 1real) * w * l / (1real - w)),
{
    let (n, q, r) = (b - 1real, 1real - w, a * w);
    lemma_quotients(n, q, r, x);
    lemma_signs(n / q, r / x);
    assert(n * (a * w) == n * a * w) by (nonlinear_arith);
    assert(q * x == x * q) by (nonlinear_arith);
    lemma_signs(n / q, l * w);
    let i = 1real / q;
    lemma_over(n, q);
    lemma_over(n * w * l, q);
    lemma_times(n / q, l * w, n * i, l * w);
    assert(n * i * (l * w) == n * w * l * i) by (nonlinear_arith);
}

/// `(b - 1) ln(1 - x^a)`, which vanishes with its first factor.
#[verifier::spinoff_prover]
fn complement_part() -> (r: Formula)
    ensures
        forall|m: Calculus, p: Point| #[trigger]
            formula::meaning(m, r, p) == (m.xlog1py)(p.b - 1real, -(m.pow)(p.x, p.a)),
        forall|m: Calculus, p: Point|
            0real < p.x && (m.pow)(p.x, p.a) != 1real ==> #[trigger] slopes_at(m, r, p) == ({
                let w = (m.pow)(p.x, p.a);
                Slopes {
                    dx: -((p.b - 1real) * p.a * w / (p.x * (1real - w))),
                    da: -((p.b - 1real) * w * (m.ln)(p.x) / (1real - w)),
                    db: (m.log1p)(-w),
                    dc: 0real,
                }
            }),
{
    let r = pair(
        Pair::Xlog1py,
        less(slot(Slot::B), whole(1)),
        minus(pair(Pair::Pow, slot(Slot::X), slot(Slot::A))),
    );
    proof {
        assert forall|m: Calculus, p: Point|
            0real < p.x && (m.pow)(p.x, p.a) != 1real implies #[trigger] slopes_at(m, r, p) == ({
                let w = (m.pow)(p.x, p.a);
                Slopes {
                    dx: -((p.b - 1real) * p.a * w / (p.x * (1real - w))),
                    da: -((p.b - 1real) * w * (m.ln)(p.x) / (1real - w)),
                    db: (m.log1p)(-w),
                    dc: 0real,
                }
            }) by {
            broadcast use formula::lemma_along;

            lemma_kumaraswamy(p.x, p.a, p.b, (m.pow)(p.x, p.a), (m.ln)(p.x));
        }
    }
    r
}

#[verifier::spinoff_prover]
pub(crate) fn kumaraswamy() -> (r: Formula)
    ensures
        forall|m: Calculus, p: Point| #[trigger]
            formula::meaning(m, r, p) == families::log_density(m, Kind::Kumaraswamy, p),
        forall|m: Calculus, p: Point|
            proper(m) && regular(m, Kind::Kumaraswamy, p) ==> #[trigger] slopes_at(m, r, p)
                == slopes::score(m, Kind::Kumaraswamy, p),
{
    let c = complement_part();
    let r = plus(
        plus(
            plus(call(Call::Ln, slot(Slot::A)), call(Call::Ln, slot(Slot::B))),
            times(less(slot(Slot::A), whole(1)), call(Call::Ln, slot(Slot::X))),
        ),
        c.clone(),
    );
    proof {
        assert forall|m: Calculus, p: Point|
            proper(m) && regular(m, Kind::Kumaraswamy, p) implies #[trigger] slopes_at(m, r, p)
            == slopes::score(m, Kind::Kumaraswamy, p) by {
            broadcast use formula::lemma_along;

            let d = slopes_at(m, c, p);
            lemma_over(p.a - 1real, p.x);
        }
    }
    r
}

// -- Student ---------------------------------------------------------------------------

/// The squared distance from the location in units of the scale, over the degrees of freedom.
#[verifier::opaque]
pub open spec fn spread_at(p: Point) -> real {
    (p.x - p.b) / p.c * ((p.x - p.b) / p.c) / p.a
}

#[verifier::spinoff_prover]
proof fn lemma_spread_positive(p: Point)
    requires
        0real < p.a,
    ensures
        0real <= spread_at(p),
{
    reveal(spread_at);
    let z = (p.x - p.b) / p.c;
    assert(0real <= z * z) by (nonlinear_arith);
    super::algebra::lemma_quotient_sign(z * z, p.a);
}

/// The slopes of [`spread_at`], as they come from the rules of calculus.
#[verifier::opaque]
pub open spec fn spread_slopes(p: Point) -> Slopes {
    let (z, k, j) = ((p.x - p.b) / p.c, 1real / p.c, 1real / p.a);
    Slopes {
        dx: j * (2real * z * k),
        da: j * (-spread_at(p)),
        db: -(j * (2real * z * k)),
        dc: -(j * (2real * z * k) * z),
    }
}

/// The distance from the location in units of the scale.
#[verifier::spinoff_prover]
fn deviation() -> (r: Formula)
    ensures
        forall|m: Calculus, p: Point| #[trigger]
            formula::meaning(m, r, p) == (p.x - p.b) / p.c,
        forall|m: Calculus, p: Point|
            #[trigger] slopes_at(m, r, p) == ({
                let (z, k) = ((p.x - p.b) / p.c, 1real / p.c);
                Slopes { dx: k, da: 0real, db: -k, dc: -(k * z) }
            }),
{
    let r = over(less(slot(Slot::X), slot(Slot::B)), slot(Slot::C));
    proof {
        assert forall|m: Calculus, p: Point|
            #[trigger] slopes_at(m, r, p) == ({
                let (z, k) = ((p.x - p.b) / p.c, 1real / p.c);
                Slopes { dx: k, da: 0real, db: -k, dc: -(k * z) }
            }) by {
            broadcast use formula::lemma_along;

            lemma_signs(1real / p.c, (p.x - p.b) / p.c);
        }
    }
    r
}

#[verifier::spinoff_prover]
proof fn lemma_spread_products(z: real, k: real, j: real)
    ensures
        j * (z * k + z * k) == j * (2real * z * k),
        j * (z * (-k) + z * (-k)) == -(j * (2real * z * k)),
        j * (z * (-(k * z)) + z * (-(k * z))) == -(j * (2real * z * k) * z),
{
    assert(j * (z * k + z * k) == j * (2real * z * k)) by (nonlinear_arith);
    assert(j * (z * (-k) + z * (-k)) == -(j * (2real * z * k))) by (nonlinear_arith);
    assert(j * (z * (-(k * z)) + z * (-(k * z))) == -(j * (2real * z * k) * z))
        by (nonlinear_arith);
}

#[verifier::spinoff_prover]
fn spread() -> (r: Formula)
    ensures
        forall|m: Calculus, p: Point| #[trigger] formula::meaning(m, r, p) == spread_at(p),
        forall|m: Calculus, p: Point| #[trigger] slopes_at(m, r, p) == spread_slopes(p),
{
    let z = deviation();
    let r = over(times(z.clone(), z.clone()), slot(Slot::A));
    proof {
        reveal(spread_at);
        reveal(spread_slopes);
        assert forall|m: Calculus, p: Point| #[trigger] slopes_at(m, r, p) == spread_slopes(p) by {
            broadcast use formula::lemma_along;

            let d = slopes_at(m, z, p);
            lemma_spread_products((p.x - p.b) / p.c, 1real / p.c, 1real / p.a);
        }
    }
    r
}

// -- Student log --
/// The slopes of the logarithm of one more than [`spread_at`].
#[verifier::opaque]
pub open spec fn log_spread_slopes(p: Point) -> Slopes {
    let (i, d) = (1real / (1real + spread_at(p)), spread_slopes(p));
    Slopes { dx: i * d.dx, da: i * d.da, db: i * d.db, dc: i * d.dc }
}

/// The logarithm of one more than [`spread_at`].
#[verifier::spinoff_prover]
fn log_spread() -> (r: Formula)
    ensures
        forall|m: Calculus, p: Point| #[trigger]
            formula::meaning(m, r, p) == (m.log1p)(spread_at(p)),
        forall|m: Calculus, p: Point|
            #[trigger] slopes_at(m, r, p) == log_spread_slopes(p),
{
    let s = spread();
    let r = call(Call::Log1p, s.clone());
    proof {
        assert forall|m: Calculus, p: Point|
            #[trigger] slopes_at(m, r, p) == log_spread_slopes(p) by {
            let d = slopes_at(m, s, p);
            reveal(log_spread_slopes);
        }
    }
    r
}

/// The slope of the tail of a log-density in its deviation.
#[verifier::opaque]
pub open spec fn tail_slope(p: Point) -> real {
    (p.a + 1real) * ((p.x - p.b) / p.c) / (p.a * (1real + spread_at(p)))
}

#[verifier::spinoff_prover]
proof fn lemma_student_slope(a: real, z: real, c: real, sq: real)
    requires
        0real < a,
        0real < c,
        0real < sq,
    ensures
        ({
            let (i, j, k) = (1real / sq, 1real / a, 1real / c);
            let slope = (a + 1real) * z / (a * sq);
            let h = (1real / 2real) * a + (1real / 2real);
            &&& h * (i * (j * (2real * z * k))) == slope / c
            &&& h * (i * (-(j * (2real * z * k)))) == -(slope / c)
            &&& h * (i * (-(j * (2real * z * k) * z))) == -(slope * z / c)
        }),
{
    let (i, j, k) = (1real / sq, 1real / a, 1real / c);
    let slope = (a + 1real) * z / (a * sq);
    let n = (a + 1real) * z;
    lemma_nonzero(a, sq);
    lemma_over_two(n, a, sq);
    let v = n * (j * i);
    lemma_over(slope, c);
    lemma_over(slope * z, c);
    lemma_times(slope, k, v, k);
    lemma_times(slope, z, v, z);
    lemma_times(slope * z, k, v * z, k);
    lemma_student_products(a, z, i, j, k);
}

#[verifier::spinoff_prover]
proof fn lemma_student_products(a: real, z: real, i: real, j: real, k: real)
    ensures
        ({
            let h = (1real / 2real) * a + (1real / 2real);
            let v = (a + 1real) * z * (j * i);
            &&& h * (i * (j * (2real * z * k))) == v * k
            &&& h * (i * (-(j * (2real * z * k)))) == -(v * k)
            &&& h * (i * (-(j * (2real * z * k) * z))) == -(v * z * k)
        }),
{
    let h = (1real / 2real) * a + (1real / 2real);
    let v = (a + 1real) * z * (j * i);
    let d = j * (2real * z * k);
    let g = i * d;
    assert(((1real / 2real) * a + (1real / 2real)) * (i * (j * (2real * z * k))) == (a + 1real) * z
        * (j * i) * k) by (nonlinear_arith);
    lemma_signs(i, d);
    lemma_signs(h, g);
    lemma_signs(i, d * z);
    lemma_signs(h, i * (d * z));
    assert(h * (i * (d * z)) == h * (i * d) * z) by (nonlinear_arith);
    lemma_times(h * g, z, v * k, z);
    assert(v * k * z == v * z * k) by (nonlinear_arith);
}

#[verifier::spinoff_prover]
proof fn lemma_student_degrees(a: real, s: real, sq: real)
    requires
        0real < a,
        0real < sq,
    ensures
        ((1real / 2real) * a + (1real / 2real)) * (1real / sq * (1real / a * (-s))) == -((a + 1real) * s
            / (2real * a * sq)),
{
    let (i, j) = (1real / sq, 1real / a);
    let n = (a + 1real) * s;
    lemma_nonzero(2real, a);
    lemma_over_two(1real, 2real, a);
    lemma_nonzero(2real * a, sq);
    lemma_over_two(n, 2real * a, sq);
    lemma_times(1real / (2real * a), i, (1real / 2real) * j, i);
    lemma_times(n, 1real / (2real * a) * i, n, (1real / 2real) * j * i);
    assert(((1real / 2real) * a + (1real / 2real)) * (i * (j * (-s))) == -((a + 1real) * s * ((1real
        / 2real) * j * i))) by (nonlinear_arith);
}

#[verifier::spinoff_prover]
proof fn lemma_tail(p: Point)
    requires
        0real < p.a,
        0real < p.c,
    ensures
        ({
            let h = (1real / 2real) * p.a + (1real / 2real);
            let (d, t, s) = (log_spread_slopes(p), tail_slope(p), spread_at(p));
            &&& h * d.dx == t / p.c
            &&& h * d.da == -((p.a + 1real) * s / (2real * p.a * (1real + s)))
            &&& h * d.db == -(t / p.c)
            &&& h * d.dc == -(t * ((p.x - p.b) / p.c) / p.c)
        }),
{
    reveal(log_spread_slopes);
    reveal(spread_slopes);
    reveal(tail_slope);
    let (z, s) = ((p.x - p.b) / p.c, spread_at(p));
    lemma_spread_positive(p);
    lemma_student_slope(p.a, z, p.c, 1real + s);
    lemma_student_degrees(p.a, s, 1real + s);
}

/// The part of a log-density that falls with the deviation.
#[verifier::spinoff_prover]
fn student_tail() -> (r: Formula)
    ensures
        forall|m: Calculus, p: Point| #[trigger]
            formula::meaning(m, r, p) == ((1real / 2real) * p.a + (1real / 2real)) * (m.log1p)(
                spread_at(p),
            ),
        forall|m: Calculus, p: Point|
            0real < p.a && 0real < p.c ==> #[trigger] slopes_at(m, r, p) == ({
                let (t, s) = (tail_slope(p), spread_at(p));
                Slopes {
                    dx: t / p.c,
                    da: (1real / 2real) * (m.log1p)(s) - (p.a + 1real) * s / (2real * p.a * (1real
                        + s)),
                    db: -(t / p.c),
                    dc: -(t * ((p.x - p.b) / p.c) / p.c),
                }
            }),
{
    let half = times(ratio(1, 2), slot(Slot::A));
    let q = log_spread();
    let r = times(plus(half, ratio(1, 2)), q.clone());
    proof {
        assert forall|m: Calculus, p: Point|
            0real < p.a && 0real < p.c implies #[trigger] slopes_at(m, r, p) == ({
                let (t, s) = (tail_slope(p), spread_at(p));
                Slopes {
                    dx: t / p.c,
                    da: (1real / 2real) * (m.log1p)(s) - (p.a + 1real) * s / (2real * p.a * (1real
                        + s)),
                    db: -(t / p.c),
                    dc: -(t * ((p.x - p.b) / p.c) / p.c),
                }
            }) by {
            broadcast use formula::lemma_along;

            let d = slopes_at(m, q, p);
            lemma_tail(p);
        }
    }
    r
}

#[verifier::spinoff_prover]
proof fn lemma_circle(a: real, pi: real)
    requires
        0real < a,
        pi != 0real,
    ensures
        (1real / 2real) * (1real / (a * pi) * pi) == (1real / 2real) / a,
{
    let (j, u) = (1real / a, 1real / pi);
    lemma_nonzero(a, pi);
    lemma_over_two(1real, a, pi);
    lemma_inverse(pi);
    lemma_times(1real / (a * pi), pi, j * u, pi);
    lemma_times(j, pi * u, j, 1real);
    assert(j * u * pi == j * (pi * u)) by (nonlinear_arith);
    lemma_over(1real / 2real, a);
}

/// The part of a log-density that does not depend on the value.
#[verifier::spinoff_prover]
fn student_front() -> (r: Formula)
    ensures
        forall|m: Calculus, p: Point| #[trigger]
            formula::meaning(m, r, p) == ({
                let half = (1real / 2real) * p.a;
                (m.lgamma)(half + (1real / 2real)) - (m.lgamma)(half) - (1real / 2real) * (m.ln)(
                    p.a * m.pi,
                ) - (m.ln)(p.c)
            }),
        forall|m: Calculus, p: Point|
            m.pi != 0real && 0real < p.a ==> #[trigger] slopes_at(m, r, p) == ({
                let half = (1real / 2real) * p.a;
                Slopes {
                    dx: 0real,
                    da: (1real / 2real) * ((m.digamma)(half + (1real / 2real)) - (m.digamma)(half))
                        - (1real / 2real) / p.a,
                    db: 0real,
                    dc: -(1real / p.c),
                }
            }),
{
    let half = times(ratio(1, 2), slot(Slot::A));
    let r = less(
        less(
            less(
                call(Call::Lgamma, plus(half.clone(), ratio(1, 2))),
                call(Call::Lgamma, half.clone()),
            ),
            times(ratio(1, 2), call(Call::Ln, times(slot(Slot::A), named(Named::Pi)))),
        ),
        call(Call::Ln, slot(Slot::C)),
    );
    proof {
        assert forall|m: Calculus, p: Point|
            m.pi != 0real && 0real < p.a implies #[trigger] slopes_at(m, r, p) == ({
                let half = (1real / 2real) * p.a;
                Slopes {
                    dx: 0real,
                    da: (1real / 2real) * ((m.digamma)(half + (1real / 2real)) - (m.digamma)(half))
                        - (1real / 2real) / p.a,
                    db: 0real,
                    dc: -(1real / p.c),
                }
            }) by {
            broadcast use formula::lemma_along;

            lemma_circle(p.a, m.pi);
        }
    }
    r
}

#[verifier::spinoff_prover]
proof fn lemma_student_scale(t: real, z: real, c: real)
    requires
        0real < c,
    ensures
        -(1real / c) - (-(t * z / c)) == (t * z - 1real) / c,
        -(t / c) == (-t) / c,
{
    let k = 1real / c;
    lemma_over(t * z, c);
    lemma_over(t * z - 1real, c);
    assert(-k + t * z * k == (t * z - 1real) * k) by (nonlinear_arith);
    lemma_signs(t, c);
}

#[verifier::spinoff_prover]
pub(crate) fn student_t() -> (r: Formula)
    ensures
        forall|m: Calculus, p: Point| #[trigger]
            formula::meaning(m, r, p) == families::log_density(m, Kind::StudentT, p),
        forall|m: Calculus, p: Point|
            proper(m) && regular(m, Kind::StudentT, p) ==> #[trigger] slopes_at(m, r, p)
                == slopes::score(m, Kind::StudentT, p),
{
    let f = student_front();
    let t = student_tail();
    let r = less(f.clone(), t.clone());
    proof {
        reveal(spread_at);
        assert forall|m: Calculus, p: Point|
            proper(m) && regular(m, Kind::StudentT, p) implies #[trigger] slopes_at(m, r, p)
            == slopes::score(m, Kind::StudentT, p) by {
            let (df, dt) = (slopes_at(m, f, p), slopes_at(m, t, p));
            reveal(tail_slope);
            lemma_student_scale(tail_slope(p), (p.x - p.b) / p.c, p.c);
        }
    }
    r
}

// -- Fisher-Snedecor -----------------------------------------------------------------------

/// The logarithm of the first parameter over the second.
#[verifier::spinoff_prover]
pub(crate) fn log_of_parameters() -> (r: Formula)
    ensures
        forall|m: Calculus, p: Point| #[trigger]
            formula::meaning(m, r, p) == (m.ln)(p.a / p.b),
        forall|m: Calculus, p: Point|
            0real < p.a && 0real < p.b ==> #[trigger] slopes_at(m, r, p) == (Slopes {
                dx: 0real,
                da: 1real / p.a,
                db: -(1real / p.b),
                dc: 0real,
            }),
{
    let r = call(Call::Ln, over(slot(Slot::A), slot(Slot::B)));
    proof {
        assert forall|m: Calculus, p: Point|
            0real < p.a && 0real < p.b implies #[trigger] slopes_at(m, r, p) == (Slopes {
                dx: 0real,
                da: 1real / p.a,
                db: -(1real / p.b),
                dc: 0real,
            }) by {
            broadcast use formula::lemma_along;

            lemma_ratio_slopes(1real, p.a, p.b);
        }
    }
    r
}

/// The logarithm of one more than the value times the ratio of the parameters.
#[verifier::spinoff_prover]
fn log_odds_part() -> (r: Formula)
    ensures
        forall|m: Calculus, p: Point| #[trigger]
            formula::meaning(m, r, p) == (m.log1p)(p.a / p.b * p.x),
        forall|m: Calculus, p: Point|
            #[trigger] slopes_at(m, r, p) == ({
                let (g, i) = (p.a / p.b, 1real / (1real + p.a / p.b * p.x));
                Slopes {
                    dx: i * g,
                    da: i * (p.x * (1real / p.b)),
                    db: i * (p.x * (1real / p.b * (-g))),
                    dc: 0real,
                }
            }),
{
    let g = over(slot(Slot::A), slot(Slot::B));
    let r = call(Call::Log1p, times(g, slot(Slot::X)));
    proof {
        assert forall|m: Calculus, p: Point|
            #[trigger] slopes_at(m, r, p) == ({
                let (g, i) = (p.a / p.b, 1real / (1real + p.a / p.b * p.x));
                Slopes {
                    dx: i * g,
                    da: i * (p.x * (1real / p.b)),
                    db: i * (p.x * (1real / p.b * (-g))),
                    dc: 0real,
                }
            }) by {
            broadcast use formula::lemma_along;

        }
    }
    r
}

#[verifier::spinoff_prover]
proof fn lemma_fisher(a: real, b: real, x: real, g: real, h: real, d: real)
    requires
        0real < a,
        0real < b,
        0real < x,
        0real < d,
    ensures
        h * (1real / d * g) == h * g / d,
        h * (1real / d * (x * (1real / b))) == h * x / (b * d),
        h * (1real / d * (x * (1real / b * (-g)))) == -(h * g * x / (b * d)),
        (1real / 2real) * a * (1real / a) == 1real / 2real,
        (1real / 2real) * a * (-(1real / b)) == -((1real / 2real) * a / b),
{
    let (i, k, u) = (1real / d, 1real / b, 1real / a);
    lemma_over(h * g, d);
    assert(h * (i * g) == h * g * i) by (nonlinear_arith);
    lemma_nonzero(b, d);
    lemma_over_two(h * x, b, d);
    assert(h * (i * (x * k)) == h * x * (k * i)) by (nonlinear_arith);
    lemma_over_two(h * g * x, b, d);
    assert(h * (i * (x * (k * (-g)))) == -(h * g * x * (k * i))) by (nonlinear_arith);
    lemma_inverse(a);
    assert((1real / 2real) * a * u == (1real / 2real) * (a * u)) by (nonlinear_arith);
    lemma_over((1real / 2real) * a, b);
    lemma_signs((1real / 2real) * a, k);
}

#[verifier::spinoff_prover]
pub(crate) fn fisher_snedecor() -> (r: Formula)
    ensures
        forall|m: Calculus, p: Point| #[trigger]
            formula::meaning(m, r, p) == families::log_density(m, Kind::FisherSnedecor, p),
        forall|m: Calculus, p: Point|
            proper(m) && regular(m, Kind::FisherSnedecor, p) ==> #[trigger] slopes_at(m, r, p)
                == slopes::score(m, Kind::FisherSnedecor, p),
{
    let h1 = times(ratio(1, 2), slot(Slot::A));
    let h2 = times(ratio(1, 2), slot(Slot::B));
    let l = log_of_parameters();
    let q = log_odds_part();
    let r = less(
        plus(
            plus(
                less(
                    less(
                        call(Call::Lgamma, plus(h1.clone(), h2.clone())),
                        call(Call::Lgamma, h1.clone()),
                    ),
                    call(Call::Lgamma, h2.clone()),
                ),
                times(h1.clone(), l.clone()),
            ),
            times(less(h1.clone(), whole(1)), call(Call::Ln, slot(Slot::X))),
        ),
        times(plus(h1.clone(), h2.clone()), q.clone()),
    );
    proof {
        assert forall|m: Calculus, p: Point|
            proper(m) && regular(m, Kind::FisherSnedecor, p) implies #[trigger] slopes_at(m, r, p)
            == slopes::score(m, Kind::FisherSnedecor, p) by {
            broadcast use formula::lemma_along;

            let (dl, dq) = (slopes_at(m, l, p), slopes_at(m, q, p));
            let g = p.a / p.b;
            let h1 = (1real / 2real) * p.a;
            let h = h1 + (1real / 2real) * p.b;
            super::algebra::lemma_positive_quotient(p.a, p.b);
            assert(0real < g * p.x) by (nonlinear_arith)
                requires
                    0real < g,
                    0real < p.x,
            ;
            lemma_fisher(p.a, p.b, p.x, g, h, 1real + g * p.x);
            lemma_over(h1 - 1real, p.x);
        }
    }
    r
}

// -- relaxed Bernoulli ---------------------------------------------------------------------

/// The logit of the value.
#[verifier::spinoff_prover]
fn logit_of_value() -> (r: Formula)
    ensures
        forall|m: Calculus, p: Point| #[trigger]
            formula::meaning(m, r, p) == (m.ln)(p.x) - (m.log1p)(-p.x),
        forall|m: Calculus, p: Point|
            0real < p.x < 1real ==> #[trigger] slopes_at(m, r, p) == (Slopes {
                dx: 1real / (p.x * (1real - p.x)),
                da: 0real,
                db: 0real,
                dc: 0real,
            }),
{
    let r = less(call(Call::Ln, slot(Slot::X)), call(Call::Log1p, minus(slot(Slot::X))));
    proof {
        assert forall|m: Calculus, p: Point|
            0real < p.x < 1real implies #[trigger] slopes_at(m, r, p) == (Slopes {
                dx: 1real / (p.x * (1real - p.x)),
                da: 0real,
                db: 0real,
                dc: 0real,
            }) by {
            broadcast use formula::lemma_along;

            lemma_split_inverse(p.x);
        }
    }
    r
}

/// `1 / (x (1 - x))` is the sum of the two inverses.
#[verifier::spinoff_prover]
proof fn lemma_split_inverse(x: real)
    requires
        0real < x < 1real,
    ensures
        1real / x - (-(1real / (1real - x))) == 1real / (x * (1real - x)),
{
    let (i, j) = (1real / x, 1real / (1real - x));
    lemma_inverse(x);
    lemma_inverse(1real - x);
    lemma_over_two(1real, x, 1real - x);
    assert(i * j == i + j) by (nonlinear_arith)
        requires
            x * i == 1real,
            (1real - x) * j == 1real,
    ;
}

#[verifier::spinoff_prover]
proof fn lemma_relaxed(a: real, y: real, n: real, s: real)
    requires
        n != 0real,
    ensures
        -(a * (1real / n)) - 2real * (s * (-(a * (1real / n)))) == (-a) * (1real - 2real * s) / n,
        -y - 2real * (s * (-y)) == -(y * (1real - 2real * s)),
{
    let i = 1real / n;
    lemma_over((-a) * (1real - 2real * s), n);
    assert(-(a * i) - 2real * (s * (-(a * i))) == (-a) * (1real - 2real * s) * i)
        by (nonlinear_arith);
    assert(-y - 2real * (s * (-y)) == -(y * (1real - 2real * s))) by (nonlinear_arith);
}

#[verifier::spinoff_prover]
pub(crate) fn relaxed_bernoulli() -> (r: Formula)
    ensures
        forall|m: Calculus, p: Point| #[trigger]
            formula::meaning(m, r, p) == families::log_density(m, Kind::RelaxedBernoulli, p),
        forall|m: Calculus, p: Point|
            proper(m) && regular(m, Kind::RelaxedBernoulli, p) ==> #[trigger] slopes_at(m, r, p)
                == slopes::score(m, Kind::RelaxedBernoulli, p),
{
    let y = logit_of_value();
    let diff = less(slot(Slot::B), times(y.clone(), slot(Slot::A)));
    let r = less(
        less(
            less(
                plus(call(Call::Ln, slot(Slot::A)), diff.clone()),
                times(whole(2), call(Call::Softplus, diff.clone())),
            ),
            call(Call::Ln, slot(Slot::X)),
        ),
        call(Call::Log1p, minus(slot(Slot::X))),
    );
    proof {
        assert forall|m: Calculus, p: Point|
            proper(m) && regular(m, Kind::RelaxedBernoulli, p) implies #[trigger] slopes_at(m, r, p)
            == slopes::score(m, Kind::RelaxedBernoulli, p) by {
            broadcast use formula::lemma_along;

            let d = slopes_at(m, y, p);
            let v = (m.ln)(p.x) - (m.log1p)(-p.x);
            let s = 1real / (1real + (m.exp)(-(p.b - v * p.a)));
            lemma_nonzero(p.x, 1real - p.x);
            lemma_relaxed(p.a, v, p.x * (1real - p.x), s);
        }
    }
    r
}

// -- continuous Bernoulli ------------------------------------------------------------------

/// The chance of a logit, and its slope.
#[verifier::spinoff_prover]
fn chance() -> (r: Formula)
    ensures
        forall|m: Calculus, p: Point| #[trigger]
            formula::meaning(m, r, p) == 1real / (1real + (m.exp)(-p.a)),
        forall|m: Calculus, p: Point|
            proper(m) ==> #[trigger] slopes_at(m, r, p) == ({
                let q = 1real / (1real + (m.exp)(-p.a));
                Slopes { dx: 0real, da: q * (1real - q), db: 0real, dc: 0real }
            }),
        forall|m: Calculus, p: Point| #[trigger] formula::slope(m, r, p, Slot::X) == 0real,
{
    let r = over(whole(1), plus(whole(1), call(Call::Exp, minus(slot(Slot::A)))));
    proof {
        assert forall|m: Calculus, p: Point| #[trigger]
            formula::slope(m, r, p, Slot::X) == 0real by {
            broadcast use formula::lemma_along;

        }
        assert forall|m: Calculus, p: Point|
            proper(m) implies #[trigger] slopes_at(m, r, p) == ({
                let q = 1real / (1real + (m.exp)(-p.a));
                Slopes { dx: 0real, da: q * (1real - q), db: 0real, dc: 0real }
            }) by {
            broadcast use formula::lemma_along;

            lemma_chance((m.exp)(-p.a));
        }
    }
    r
}

#[verifier::spinoff_prover]
proof fn lemma_chance(e: real)
    requires
        0real < e,
    ensures
        ({
            let q = 1real / (1real + e);
            &&& q * (-(q * (-e))) == q * (1real - q)
            &&& 0real < q < 1real
            &&& q * (1real + e) == 1real
        }),
{
    let q = 1real / (1real + e);
    lemma_inverse(1real + e);
    assert((1real + e) * q == q * (1real + e)) by (nonlinear_arith);
    assert(q * e == 1real - q) by (nonlinear_arith)
        requires
            q * (1real + e) == 1real,
    ;
    assert(-(q * (-e)) == q * e) by (nonlinear_arith);
    lemma_times(q, -(q * (-e)), q, 1real - q);
    super::algebra::lemma_positive_quotient(1real, 1real + e);
    assert(q * e > 0real) by (nonlinear_arith)
        requires
            q > 0real,
            e > 0real,
    ;
}

/// The slope of the logarithm of a magnitude.
#[verifier::spinoff_prover]
proof fn lemma_log_magnitude(u: real, d: real)
    requires
        u != 0real,
    ensures
        1real / formula::magnitude(u) * (formula::sign(u) * d) == d / u,
{
    lemma_over(d, u);
    if u < 0real {
        super::algebra::lemma_negative_inverse(u);
        let i = 1real / u;
        assert((-i) * ((-1real) * d) == d * i) by (nonlinear_arith);
        lemma_times(1real / formula::magnitude(u), formula::sign(u) * d, -i, (-1real) * d);
    } else {
        let i = 1real / u;
        assert(i * (1real * d) == d * i) by (nonlinear_arith);
        lemma_times(1real / formula::magnitude(u), formula::sign(u) * d, i, 1real * d);
    }
}

/// The logarithm of the distance between the logarithms of the two chances.
#[verifier::spinoff_prover]
fn log_gap() -> (r: Formula)
    ensures
        forall|m: Calculus, p: Point| #[trigger]
            formula::meaning(m, r, p) == ({
                let q = 1real / (1real + (m.exp)(-p.a));
                (m.ln)(formula::magnitude((m.ln)(1real - q) - (m.ln)(q)))
            }),
        forall|m: Calculus, p: Point|
            proper(m) && away_from_even(m, p.a) ==> #[trigger] slopes_at(m, r, p) == (Slopes {
                dx: 0real,
                da: 1real / p.a,
                db: 0real,
                dc: 0real,
            }),
        forall|m: Calculus, p: Point| #[trigger] formula::slope(m, r, p, Slot::X) == 0real,
{
    let q = chance();
    let gap = less(call(Call::Ln, less(whole(1), q.clone())), call(Call::Ln, q.clone()));
    let r = call(Call::Ln, call(Call::Abs, gap));
    proof {
        assert forall|m: Calculus, p: Point| #[trigger]
            formula::slope(m, r, p, Slot::X) == 0real by {
            broadcast use formula::lemma_along;

        }
        assert forall|m: Calculus, p: Point|
            proper(m) && away_from_even(m, p.a) implies #[trigger] slopes_at(m, r, p) == (Slopes {
                dx: 0real,
                da: 1real / p.a,
                db: 0real,
                dc: 0real,
            }) by {
            broadcast use formula::lemma_along;

            let d = slopes_at(m, q, p);
            lemma_chance((m.exp)(-p.a));
            let c = 1real / (1real + (m.exp)(-p.a));
            lemma_gap_slope(c);
            lemma_log_magnitude(-p.a, -1real);
            super::algebra::lemma_negative_inverse(p.a);
            lemma_over(-1real, -p.a);
            lemma_signs(1real, 1real / (-p.a));
        }
    }
    r
}

#[verifier::spinoff_prover]
proof fn lemma_gap_slope(q: real)
    requires
        0real < q < 1real,
    ensures
        1real / (1real - q) * (-(q * (1real - q))) - 1real / q * (q * (1real - q)) == -1real,
{
    let (i, j) = (1real / (1real - q), 1real / q);
    lemma_inverse(1real - q);
    lemma_inverse(q);
    let s = 1real - q;
    lemma_times(q, s * i, q, 1real);
    lemma_times(s, q * j, s, 1real);
    assert(i * (-(q * s)) == -(q * (s * i))) by (nonlinear_arith);
    assert(j * (q * s) == s * (q * j)) by (nonlinear_arith);
}

/// The logarithm of the distance of twice the chance from one.
#[verifier::spinoff_prover]
fn log_tilt() -> (r: Formula)
    ensures
        forall|m: Calculus, p: Point| #[trigger]
            formula::meaning(m, r, p) == ({
                let q = 1real / (1real + (m.exp)(-p.a));
                (m.ln)(formula::magnitude(1real - 2real * q))
            }),
        forall|m: Calculus, p: Point|
            proper(m) && away_from_even(m, p.a) ==> #[trigger] slopes_at(m, r, p) == ({
                let q = 1real / (1real + (m.exp)(-p.a));
                Slopes {
                    dx: 0real,
                    da: (-(2real * (q * (1real - q)))) / (1real - 2real * q),
                    db: 0real,
                    dc: 0real,
                }
            }),
        forall|m: Calculus, p: Point| #[trigger] formula::slope(m, r, p, Slot::X) == 0real,
{
    let q = chance();
    let r = call(Call::Ln, call(Call::Abs, less(whole(1), times(whole(2), q.clone()))));
    proof {
        assert forall|m: Calculus, p: Point| #[trigger]
            formula::slope(m, r, p, Slot::X) == 0real by {
            broadcast use formula::lemma_along;

        }
        assert forall|m: Calculus, p: Point|
            proper(m) && away_from_even(m, p.a) implies #[trigger] slopes_at(m, r, p) == ({
                let q = 1real / (1real + (m.exp)(-p.a));
                Slopes {
                    dx: 0real,
                    da: (-(2real * (q * (1real - q)))) / (1real - 2real * q),
                    db: 0real,
                    dc: 0real,
                }
            }) by {
            broadcast use formula::lemma_along;

            let d = slopes_at(m, q, p);
            let c = 1real / (1real + (m.exp)(-p.a));
            lemma_log_magnitude(1real - 2real * c, -(2real * (c * (1real - c))));
        }
    }
    r
}

#[verifier::spinoff_prover]
proof fn lemma_mean_slope(e: real, t: real)
    requires
        0real < e,
        e != 1real,
    ensures
        ({
            let q = 1real / (1real + e);
            -q + (1real / t - (-(2real * (q * (1real - q)))) / (1real - 2real * q)) == -(1real / (-(e
                - 1real)) - 1real / t)
        }),
{
    let q = 1real / (1real + e);
    lemma_chance(e);
    let (s, u, n) = (1real - e, 1real - 2real * q, 2real * (q * (1real - q)));
    let i = 1real / s;
    lemma_inverse(s);
    assert(q * s == q - q * e && q * (1real + e) == q + q * e) by (nonlinear_arith)
        requires
            s == 1real - e,
    ;
    assert(u == -(q * s));
    lemma_nonzero(q, s);
    lemma_times(q - i, u, q - i, -(q * s));
    assert((q - i) * (-(q * s)) == q * (s * i) - q * (q * s)) by (nonlinear_arith);
    lemma_times(q, s * i, q, 1real);
    lemma_times(q, q * s, q, 2real * q - 1real);
    assert(q - q * (2real * q - 1real) == 2real * (q * (1real - q))) by (nonlinear_arith);
    lemma_cancel(q - i, u);
    lemma_signs(n, u);
}

/// The logarithm of the normaliser.
#[verifier::spinoff_prover]
fn log_normaliser() -> (r: Formula)
    ensures
        forall|m: Calculus, p: Point| #[trigger]
            formula::meaning(m, r, p) == families::log_norm_at(m, p.a),
        forall|m: Calculus, p: Point| #[trigger] formula::slope(m, r, p, Slot::X) == 0real,
        forall|m: Calculus, p: Point|
            proper(m) && away_from_even(m, p.a) ==> #[trigger] slopes_at(m, r, p) == ({
                let q = 1real / (1real + (m.exp)(-p.a));
                Slopes {
                    dx: 0real,
                    da: 1real / p.a - (-(2real * (q * (1real - q)))) / (1real - 2real * q),
                    db: 0real,
                    dc: 0real,
                }
            }),
{
    let q = chance();
    let d = less(q.clone(), ratio(1, 2));
    let d2 = times(d.clone(), d.clone());
    let g = log_gap();
    let t = log_tilt();
    let r = branch(
        below(ratio(1, 1000), call(Call::Abs, d.clone())),
        less(g.clone(), t.clone()),
        plus(
            named(Named::LnTwo),
            times(
                plus(over(whole(4), whole(3)), times(over(whole(104), whole(45)), d2.clone())),
                d2.clone(),
            ),
        ),
    );
    proof {
        assert forall|m: Calculus, p: Point| #[trigger]
            formula::slope(m, r, p, Slot::X) == 0real by {
            broadcast use formula::lemma_along;

        }
        assert forall|m: Calculus, p: Point|
            proper(m) && away_from_even(m, p.a) implies #[trigger] slopes_at(m, r, p) == ({
                let q = 1real / (1real + (m.exp)(-p.a));
                Slopes {
                    dx: 0real,
                    da: 1real / p.a - (-(2real * (q * (1real - q)))) / (1real - 2real * q),
                    db: 0real,
                    dc: 0real,
                }
            }) by {
            let (dg, dt) = (slopes_at(m, g, p), slopes_at(m, t, p));
        }
    }
    r
}

#[verifier::spinoff_prover]
pub(crate) fn continuous_bernoulli() -> (r: Formula)
    ensures
        forall|m: Calculus, p: Point| #[trigger]
            formula::meaning(m, r, p) == families::log_density(m, Kind::ContinuousBernoulli, p),
        forall|m: Calculus, p: Point| #[trigger] formula::slope(m, r, p, Slot::X) == p.a,
        forall|m: Calculus, p: Point|
            proper(m) && regular(m, Kind::ContinuousBernoulli, p) ==> #[trigger] slopes_at(m, r, p)
                == slopes::score(m, Kind::ContinuousBernoulli, p),
{
    let n = log_normaliser();
    let r = plus(
        less(times(slot(Slot::X), slot(Slot::A)), call(Call::Softplus, slot(Slot::A))),
        n.clone(),
    );
    proof {
        assert forall|m: Calculus, p: Point| #[trigger]
            formula::slope(m, r, p, Slot::X) == p.a by {
            broadcast use formula::lemma_along;

        }
        assert forall|m: Calculus, p: Point|
            proper(m) && regular(m, Kind::ContinuousBernoulli, p) implies #[trigger] slopes_at(
            m,
            r,
            p,
        ) == slopes::score(m, Kind::ContinuousBernoulli, p) by {
            broadcast use formula::lemma_along;

            let d = slopes_at(m, n, p);
            let e = (m.exp)(-p.a);
            if e == 1real {
                assert(1real / (1real + e) == 1real / 2real);
            }
            lemma_mean_slope(e, p.a);
        }
    }
    r
}

// -- entropies -----------------------------------------------------------------------------

#[verifier::spinoff_prover]
proof fn lemma_inverse_slopes(b: real, n: real)
    requires
        b != 0real,
    ensures
        -(1real / b) + 1real / b * (-(1real / b)) == (-(1real + 1real / b)) / b,
        n * (-(1real / b * (-(1real / b)))) == n / (b * b),
{
    let j = 1real / b;
    lemma_over(-(1real + j), b);
    assert(-j + j * (-j) == (-(1real + j)) * j) by (nonlinear_arith);
    lemma_nonzero(b, b);
    lemma_over_two(n, b, b);
    assert(n * (-(j * (-j))) == n * (j * j)) by (nonlinear_arith);
}

#[verifier::spinoff_prover]
pub(crate) fn pareto_entropy() -> (r: Formula)
    ensures
        forall|m: Calculus, p: Point| #[trigger]
            formula::meaning(m, r, p) == families::entropy(m, Kind::Pareto, p),
        forall|m: Calculus, p: Point|
            proper(m) && positive(Kind::Pareto, p) ==> entropies::agree(
                Kind::Pareto,
                #[trigger] slopes_at(m, r, p),
                slopes::entropy_slopes(m, Kind::Pareto, p),
            ),
{
    let l = log_of_parameters();
    let r = plus(plus(l.clone(), whole(1)), over(whole(1), slot(Slot::B)));
    proof {
        assert forall|m: Calculus, p: Point|
            proper(m) && positive(Kind::Pareto, p) implies entropies::agree(
            Kind::Pareto,
            #[trigger] slopes_at(m, r, p),
            slopes::entropy_slopes(m, Kind::Pareto, p),
        ) by {
            broadcast use formula::lemma_along;

            let d = slopes_at(m, l, p);
            lemma_inverse_slopes(p.b, 1real);
        }
    }
    r
}

#[verifier::spinoff_prover]
pub(crate) fn weibull_entropy() -> (r: Formula)
    ensures
        forall|m: Calculus, p: Point| #[trigger]
            formula::meaning(m, r, p) == families::entropy(m, Kind::Weibull, p),
        forall|m: Calculus, p: Point|
            proper(m) && positive(Kind::Weibull, p) ==> entropies::agree(
                Kind::Weibull,
                #[trigger] slopes_at(m, r, p),
                slopes::entropy_slopes(m, Kind::Weibull, p),
            ),
{
    let l = log_of_parameters();
    let r = plus(
        plus(
            times(named(Named::EulerGamma), less(whole(1), over(whole(1), slot(Slot::B)))),
            l.clone(),
        ),
        whole(1),
    );
    proof {
        assert forall|m: Calculus, p: Point|
            proper(m) && positive(Kind::Weibull, p) implies entropies::agree(
            Kind::Weibull,
            #[trigger] slopes_at(m, r, p),
            slopes::entropy_slopes(m, Kind::Weibull, p),
        ) by {
            broadcast use formula::lemma_along;

            let d = slopes_at(m, l, p);
            lemma_inverse_slopes(p.b, m.euler_gamma);
        }
    }
    r
}

/// The entropy of one flip.
#[verifier::spinoff_prover]
fn flip_entropy() -> (r: Formula)
    ensures
        forall|m: Calculus, p: Point| #[trigger]
            formula::meaning(m, r, p) == (m.softplus)(p.a) - 1real / (1real + (m.exp)(-p.a)) * p.a,
        forall|m: Calculus, p: Point|
            proper(m) ==> #[trigger] slopes_at(m, r, p) == ({
                let q = 1real / (1real + (m.exp)(-p.a));
                Slopes { dx: 0real, da: (-p.a) * q * (1real - q), db: 0real, dc: 0real }
            }),
{
    let q = chance();
    let r = less(call(Call::Softplus, slot(Slot::A)), times(q.clone(), slot(Slot::A)));
    proof {
        assert forall|m: Calculus, p: Point|
            proper(m) implies #[trigger] slopes_at(m, r, p) == ({
                let q = 1real / (1real + (m.exp)(-p.a));
                Slopes { dx: 0real, da: (-p.a) * q * (1real - q), db: 0real, dc: 0real }
            }) by {
            broadcast use formula::lemma_along;

            let d = slopes_at(m, q, p);
            let (a, c) = (p.a, 1real / (1real + (m.exp)(-p.a)));
            assert(c - (a * (c * (1real - c)) + c) == (-a) * c * (1real - c)) by (nonlinear_arith);
        }
    }
    r
}

#[verifier::spinoff_prover]
proof fn lemma_quotient_rule(d: real, n: real, q: real)
    requires
        q != 0real,
    ensures
        1real / q * (d - n / q * (q * (1real - q))) == (d * q - n * q * (1real - q)) / (q * q),
{
    let (c, s) = (n / q, 1real - q);
    lemma_cancel(n, q);
    lemma_times(c * q, s, n, s);
    assert(c * (q * s) == c * q * s) by (nonlinear_arith);
    lemma_quotient_by_square(d, n * s, q);
    assert(n * s * q == n * q * s) by (nonlinear_arith);
}

#[verifier::spinoff_prover]
proof fn lemma_quotient_by_square(d: real, n: real, q: real)
    requires
        q != 0real,
    ensures
        1real / q * (d - n) == (d * q - n * q) / (q * q),
{
    let v = d - n;
    lemma_quotients(v, q, q, q);
    lemma_cancel(1real, q);
    assert(v / q * 1real == v / q);
    lemma_times(v / q, q / q, v / q, 1real);
    lemma_over(v, q);
    assert(v * (1real / q) == 1real / q * v) by (nonlinear_arith);
    assert((d - n) * q == d * q - n * q) by (nonlinear_arith);
}

#[verifier::spinoff_prover]
pub(crate) fn geometric_entropy() -> (r: Formula)
    ensures
        forall|m: Calculus, p: Point| #[trigger]
            formula::meaning(m, r, p) == families::entropy(m, Kind::Geometric, p),
        forall|m: Calculus, p: Point|
            proper(m) && positive(Kind::Geometric, p) ==> entropies::agree(
                Kind::Geometric,
                #[trigger] slopes_at(m, r, p),
                slopes::entropy_slopes(m, Kind::Geometric, p),
            ),
{
    let q = chance();
    let h = flip_entropy();
    let r = over(h.clone(), q.clone());
    proof {
        assert forall|m: Calculus, p: Point|
            proper(m) && positive(Kind::Geometric, p) implies entropies::agree(
            Kind::Geometric,
            #[trigger] slopes_at(m, r, p),
            slopes::entropy_slopes(m, Kind::Geometric, p),
        ) by {
            broadcast use formula::lemma_along;

            let (dq, dh) = (slopes_at(m, q, p), slopes_at(m, h, p));
            let c = 1real / (1real + (m.exp)(-p.a));
            lemma_chance((m.exp)(-p.a));
            lemma_quotient_rule(
                (-p.a) * c * (1real - c),
                (m.softplus)(p.a) - c * p.a,
                c,
            );
        }
    }
    r
}

// -- quantiles -----------------------------------------------------------------------------

/// The time a unit hazard takes to reach a probability.
#[verifier::spinoff_prover]
fn hazard() -> (r: Formula)
    ensures
        forall|m: Calculus, p: Point| #[trigger]
            formula::meaning(m, r, p) == -(m.log1p)(-p.x),
        forall|m: Calculus, p: Point|
            #[trigger] slopes_at(m, r, p) == (Slopes {
                dx: 1real / (1real - p.x),
                da: 0real,
                db: 0real,
                dc: 0real,
            }),
{
    let r = minus(call(Call::Log1p, minus(slot(Slot::X))));
    proof {
        assert forall|m: Calculus, p: Point|
            #[trigger] slopes_at(m, r, p) == (Slopes {
                dx: 1real / (1real - p.x),
                da: 0real,
                db: 0real,
                dc: 0real,
            }) by {
            broadcast use formula::lemma_along;

        }
    }
    r
}

#[verifier::spinoff_prover]
proof fn lemma_root_slopes(l: real, b: real, w: real, s: real, g: real)
    requires
        l != 0real,
        b != 0real,
        s != 0real,
    ensures
        1real / b * w / l * (1real / s) == w / (b * l * s),
        g * w * (1real / b * (-(1real / b))) == (-w) * g / (b * b),
{
    let (j, i, k) = (1real / b, 1real / l, 1real / s);
    lemma_over(j * w, l);
    lemma_nonzero(b, l);
    lemma_nonzero(b * l, s);
    lemma_over_two(1real, b, l);
    lemma_over_two(w, b * l, s);
    lemma_times(1real / (b * l), k, j * i, k);
    lemma_times(w, 1real / (b * l) * k, w, j * i * k);
    lemma_times(j * w / l, k, j * w * i, k);
    assert(j * w * i * k == w * (j * i * k)) by (nonlinear_arith);
    lemma_nonzero(b, b);
    lemma_over_two((-w) * g, b, b);
    assert(g * w * (j * (-j)) == (-w) * g * (j * j)) by (nonlinear_arith);
}

/// The hazard's time raised to the inverse of the second parameter.
#[verifier::spinoff_prover]
fn hazard_root() -> (r: Formula)
    ensures
        forall|m: Calculus, p: Point| #[trigger]
            formula::meaning(m, r, p) == (m.pow)(-(m.log1p)(-p.x), 1real / p.b),
        forall|m: Calculus, p: Point|
            0real < p.b && p.x < 1real && (m.log1p)(-p.x) != 0real ==> #[trigger] slopes_at(m, r, p)
                == ({
                let l = -(m.log1p)(-p.x);
                let w = (m.pow)(l, 1real / p.b);
                Slopes {
                    dx: w / (p.b * l * (1real - p.x)),
                    da: 0real,
                    db: (-w) * (m.ln)(l) / (p.b * p.b),
                    dc: 0real,
                }
            }),
{
    let h = hazard();
    let r = pair(Pair::Pow, h.clone(), over(whole(1), slot(Slot::B)));
    proof {
        assert forall|m: Calculus, p: Point|
            0real < p.b && p.x < 1real && (m.log1p)(-p.x) != 0real implies #[trigger] slopes_at(
            m,
            r,
            p,
        ) == ({
            let l = -(m.log1p)(-p.x);
            let w = (m.pow)(l, 1real / p.b);
            Slopes {
                dx: w / (p.b * l * (1real - p.x)),
                da: 0real,
                db: (-w) * (m.ln)(l) / (p.b * p.b),
                dc: 0real,
            }
        }) by {
            broadcast use formula::lemma_along;

            let d = slopes_at(m, h, p);
            let l = -(m.log1p)(-p.x);
            lemma_root_slopes(l, p.b, (m.pow)(l, 1real / p.b), 1real - p.x, (m.ln)(l));
        }
    }
    r
}

#[verifier::spinoff_prover]
proof fn lemma_scaled(a: real, w: real, d: real, g: real, c: real)
    requires
        a != 0real,
        d != 0real,
        c != 0real,
    ensures
        a * (w / d) == a * w / d,
        w == a * w / a,
        a * ((-w) * g / c) == (-(a * w)) * g / c,
{
    let (i, k) = (1real / d, 1real / c);
    lemma_over(w, d);
    lemma_over(a * w, d);
    assert(a * (w * i) == a * w * i) by (nonlinear_arith);
    lemma_cancel(w, a);
    assert(w * a == a * w) by (nonlinear_arith);
    lemma_over((-w) * g, c);
    lemma_over((-(a * w)) * g, c);
    assert(a * ((-w) * g * k) == (-(a * w)) * g * k) by (nonlinear_arith);
}

#[verifier::spinoff_prover]
pub(crate) fn weibull_quantile() -> (r: Formula)
    ensures
        forall|m: Calculus, p: Point| #[trigger]
            formula::meaning(m, r, p) == families::inverse(m, Kind::Weibull, p),
        forall|m: Calculus, p: Point|
            proper(m) && quantiles::invertible(m, Kind::Weibull, p) ==> #[trigger] slopes_at(m, r, p)
                == slopes::inverse_slopes(m, Kind::Weibull, p),
{
    let w = hazard_root();
    let r = times(slot(Slot::A), w.clone());
    proof {
        assert forall|m: Calculus, p: Point|
            proper(m) && quantiles::invertible(m, Kind::Weibull, p) implies #[trigger] slopes_at(
            m,
            r,
            p,
        ) == slopes::inverse_slopes(m, Kind::Weibull, p) by {
            broadcast use formula::lemma_along;

            let d = slopes_at(m, w, p);
            let l = -(m.log1p)(-p.x);
            let v = (m.pow)(l, 1real / p.b);
            lemma_nonzero(p.b, l);
            lemma_nonzero(p.b * l, 1real - p.x);
            lemma_nonzero(p.b, p.b);
            lemma_scaled(p.a, v, p.b * l * (1real - p.x), (m.ln)(l), p.b * p.b);
        }
    }
    r
}

#[verifier::spinoff_prover]
proof fn lemma_survival_slopes(e: real, l: real, b: real, s: real)
    requires
        b != 0real,
        s != 0real,
    ensures
        -(e * (1real / b * (-(1real / s)))) == e / (b * s),
        -(e * (1real / b * (-(l / b)))) == e * l / (b * b),
{
    let (j, k) = (1real / b, 1real / s);
    lemma_nonzero(b, s);
    lemma_over_two(e, b, s);
    assert(-(e * (j * (-k))) == e * (j * k)) by (nonlinear_arith);
    lemma_nonzero(b, b);
    lemma_over_two(e * l, b, b);
    lemma_over(l, b);
    lemma_times(j, -(l / b), j, -(l * j));
    lemma_times(e, j * (-(l / b)), e, j * (-(l * j)));
    assert(-(e * (j * (-(l * j)))) == e * l * (j * j)) by (nonlinear_arith);
}

/// One less the survival, raised to the inverse of the second parameter.
#[verifier::spinoff_prover]
fn failure() -> (r: Formula)
    ensures
        forall|m: Calculus, p: Point| #[trigger]
            formula::meaning(m, r, p) == -(m.expm1)((m.log1p)(-p.x) / p.b),
        forall|m: Calculus, p: Point|
            0real < p.b && p.x < 1real && (m.expm1)((m.log1p)(-p.x) / p.b) == (m.exp)(
                (m.log1p)(-p.x) / p.b,
            ) - 1real ==> #[trigger] slopes_at(m, r, p) == ({
                let l = (m.log1p)(-p.x);
                let w = -(m.expm1)(l / p.b);
                Slopes {
                    dx: (1real - w) / (p.b * (1real - p.x)),
                    da: 0real,
                    db: (1real - w) * l / (p.b * p.b),
                    dc: 0real,
                }
            }),
{
    let l = call(Call::Log1p, minus(slot(Slot::X)));
    let r = minus(call(Call::Expm1, over(l, slot(Slot::B))));
    proof {
        assert forall|m: Calculus, p: Point|
            0real < p.b && p.x < 1real && (m.expm1)((m.log1p)(-p.x) / p.b) == (m.exp)(
                (m.log1p)(-p.x) / p.b,
            ) - 1real implies #[trigger] slopes_at(m, r, p) == ({
            let l = (m.log1p)(-p.x);
            let w = -(m.expm1)(l / p.b);
            Slopes {
                dx: (1real - w) / (p.b * (1real - p.x)),
                da: 0real,
                db: (1real - w) * l / (p.b * p.b),
                dc: 0real,
            }
        }) by {
            broadcast use formula::lemma_along;

            let l = (m.log1p)(-p.x);
            lemma_survival_slopes((m.exp)(l / p.b), l, p.b, 1real - p.x);
        }
    }
    r
}

#[verifier::spinoff_prover]
proof fn lemma_chain_slopes(a: real, w: real, v: real, n: real, d: real)
    requires
        a != 0real,
        w != 0real,
        d != 0real,
    ensures
        1real / a * v / w * (n / d) == v / (a * w) * n / d,
{
    let (j, i, k) = (1real / a, 1real / w, 1real / d);
    lemma_over(j * v, w);
    lemma_over(n, d);
    lemma_nonzero(a, w);
    lemma_over_two(v, a, w);
    let c = v / (a * w);
    lemma_over(c * n, d);
    lemma_times(c, n, v * (j * i), n);
    lemma_times(c * n, k, v * (j * i) * n, k);
    lemma_times(j * v / w, n / d, j * v * i, n * k);
    assert(j * v * i * (n * k) == v * (j * i) * n * k) by (nonlinear_arith);
}

#[verifier::spinoff_prover]
pub(crate) fn kumaraswamy_quantile() -> (r: Formula)
    ensures
        forall|m: Calculus, p: Point| #[trigger]
            formula::meaning(m, r, p) == families::inverse(m, Kind::Kumaraswamy, p),
        forall|m: Calculus, p: Point|
            proper(m) && quantiles::invertible(m, Kind::Kumaraswamy, p) ==> #[trigger] slopes_at(
                m,
                r,
                p,
            ) == slopes::inverse_slopes(m, Kind::Kumaraswamy, p),
{
    let w = failure();
    let r = pair(Pair::Pow, w.clone(), over(whole(1), slot(Slot::A)));
    proof {
        assert forall|m: Calculus, p: Point|
            proper(m) && quantiles::invertible(m, Kind::Kumaraswamy, p) implies #[trigger] slopes_at(
            m,
            r,
            p,
        ) == slopes::inverse_slopes(m, Kind::Kumaraswamy, p) by {
            broadcast use formula::lemma_along;

            let d = slopes_at(m, w, p);
            let l = (m.log1p)(-p.x);
            let v = -(m.expm1)(l / p.b);
            let at = (m.pow)(v, 1real / p.a);
            lemma_nonzero(p.b, 1real - p.x);
            lemma_nonzero(p.b, p.b);
            lemma_chain_slopes(p.a, v, at, 1real - v, p.b * (1real - p.x));
            lemma_chain_slopes(p.a, v, at, (1real - v) * l, p.b * p.b);
            let c = at / (p.a * v);
            assert(c * ((1real - v) * l) == c * (1real - v) * l) by (nonlinear_arith);
            lemma_root_slopes(1real, p.a, at, 1real, (m.ln)(v));
        }
    }
    r
}

// -- relaxed draws -------------------------------------------------------------------------

/// A relaxed draw before it is squashed.
#[verifier::spinoff_prover]
pub(crate) fn logit_draw() -> (r: Formula)
    ensures
        forall|m: Calculus, p: Point| #[trigger]
            formula::meaning(m, r, p) == draws::lane_draw(m, Kind::LogitRelaxedBernoulli, p),
        forall|m: Calculus, p: Point|
            0real < p.a ==> draws::follows(
                #[trigger] slopes_at(m, r, p),
                draws::path_slopes(m, Kind::LogitRelaxedBernoulli, p),
            ),
{
    let r = over(
        less(plus(slot(Slot::B), call(Call::Ln, slot(Slot::X))), call(Call::Log1p, minus(slot(Slot::X)))),
        slot(Slot::A),
    );
    proof {
        assert forall|m: Calculus, p: Point|
            0real < p.a implies draws::follows(
            #[trigger] slopes_at(m, r, p),
            draws::path_slopes(m, Kind::LogitRelaxedBernoulli, p),
        ) by {
            broadcast use formula::lemma_along;

            let y = (p.b + (m.ln)(p.x) - (m.log1p)(-p.x)) / p.a;
            lemma_over(-y, p.a);
            assert(1real / p.a * (-y) == (-y) * (1real / p.a)) by (nonlinear_arith);
        }
    }
    r
}

#[verifier::spinoff_prover]
proof fn lemma_squashed(e: real, y: real, a: real)
    requires
        0real < e,
        0real < a,
    ensures
        ({
            let s = 1real / (1real + e);
            let jac = s * (1real - s);
            &&& s * (-(s * (e * (-((-y) / a))))) == (-jac) * y / a
            &&& s * (-(s * (e * (-(1real / a))))) == jac / a
        }),
{
    let s = 1real / (1real + e);
    let jac = s * (1real - s);
    let k = 1real / a;
    lemma_chance(e);
    assert(s * (1real + e) == s + s * e) by (nonlinear_arith);
    assert(s * e == 1real - s);
    lemma_over(-y, a);
    lemma_over((-jac) * y, a);
    lemma_over(jac, a);
    let t = (-y) / a;
    assert(s * (-(s * (e * (-t)))) == s * (s * e) * t) by (nonlinear_arith);
    assert(s * (-(s * (e * (-k)))) == s * (s * e) * k) by (nonlinear_arith);
    lemma_times(s, s * e, s, 1real - s);
    lemma_times(s * (s * e), t, jac, (-y) * k);
    lemma_times(s * (s * e), k, jac, k);
    assert(jac * ((-y) * k) == (-jac) * y * k) by (nonlinear_arith);
}

/// A relaxed draw.
#[verifier::spinoff_prover]
pub(crate) fn relaxed_draw() -> (r: Formula)
    ensures
        forall|m: Calculus, p: Point| #[trigger]
            formula::meaning(m, r, p) == draws::lane_draw(m, Kind::RelaxedBernoulli, p),
        forall|m: Calculus, p: Point|
            proper(m) && 0real < p.a ==> draws::follows(
                #[trigger] slopes_at(m, r, p),
                draws::path_slopes(m, Kind::RelaxedBernoulli, p),
            ),
{
    let y = logit_draw();
    let r = over(whole(1), plus(whole(1), call(Call::Exp, minus(y.clone()))));
    proof {
        assert forall|m: Calculus, p: Point|
            proper(m) && 0real < p.a implies draws::follows(
            #[trigger] slopes_at(m, r, p),
            draws::path_slopes(m, Kind::RelaxedBernoulli, p),
        ) by {
            broadcast use formula::lemma_along;

            let d = slopes_at(m, y, p);
            let v = (p.b + (m.ln)(p.x) - (m.log1p)(-p.x)) / p.a;
            lemma_squashed((m.exp)(-v), v, p.a);
        }
    }
    r
}

} // verus!
