//! The scalar families, their formulas evaluated in double precision.

use mamba3::distributions::draws::{
    angle_trial, binomial_first, binomial_next, binomial_trial, combine_of, draws_half_open,
    first_parameter_of, flat_angle, gamma_boost, gamma_trial, poisson_first, poisson_next,
    poisson_trial, rsample_grad_of, sample_from_bits_of, sample_of, second_parameter_of, trials,
    unfolded, wrap_angle, Ingredient, Trial,
};
use mamba3::distributions::families::{
    cdf_of, closed_form_icdf_of, entropy_of, icdf_of, kind_of, log_prob_of, mean_of, mode_of,
    moment_of, pointwise_of, variance_of,
};
use mamba3::distributions::formula::{Call, Formula, Named, Pair, Slot, Test};
use mamba3::distributions::kernels::{draw_word, element_of};
use mamba3::distributions::rng::{draw_block, draw_lane, unit_half_open, unit_open};
use mamba3::distributions::search::{
    angle_is_flat, binomial_walks, poisson_walks, Search, Walk, BINOMIAL_STEPS, POISSON_STEPS,
};
use mamba3::distributions::slopes::{entropy_grad_of, icdf_grad_of, log_prob_grad_of, Grad4};
use mamba3::distributions::univariate::{attempt_stream, Kind, MAX_TRIES};
use mamba3::term::Fused;

#[derive(Clone, Copy, Debug)]
struct At {
    x: f64,
    a: f64,
    b: f64,
    c: f64,
    u: f64,
    v: f64,
}

fn at(x: f64, a: f64, b: f64, c: f64) -> At {
    At { x, a, b, c, u: 0.0, v: 0.0 }
}

const PI: f64 = std::f64::consts::PI;

fn lgamma(x: f64) -> f64 {
    let mut x = x;
    let mut shift = 0.0;
    while x < 12.0 {
        shift -= x.ln();
        x += 1.0;
    }
    let i = 1.0 / x;
    let i2 = i * i;
    shift + (x - 0.5) * x.ln() - x + 0.5 * (2.0 * PI).ln()
        + i * (1.0 / 12.0 - i2 * (1.0 / 360.0 - i2 * (1.0 / 1260.0 - i2 / 1680.0)))
}

fn digamma(x: f64) -> f64 {
    let mut x = x;
    let mut shift = 0.0;
    while x < 12.0 {
        shift -= 1.0 / x;
        x += 1.0;
    }
    let i2 = 1.0 / (x * x);
    shift + x.ln() - 0.5 / x - i2 * (1.0 / 12.0 - i2 * (1.0 / 120.0 - i2 / 252.0))
}

fn trigamma(x: f64) -> f64 {
    let mut x = x;
    let mut shift = 0.0;
    while x < 12.0 {
        shift += 1.0 / (x * x);
        x += 1.0;
    }
    let i = 1.0 / x;
    let i2 = i * i;
    shift + i + 0.5 * i2 + i * i2 * (1.0 / 6.0 - i2 * (1.0 / 30.0 - i2 / 42.0))
}

fn erf(x: f64) -> f64 {
    if x.abs() > 4.0 {
        return x.signum();
    }
    let mut term = x;
    let mut sum = x;
    for n in 1..100 {
        term *= -x * x / n as f64;
        sum += term / (2 * n + 1) as f64;
    }
    sum * 2.0 / PI.sqrt()
}

fn erfinv(p: f64) -> f64 {
    let (mut lo, mut hi) = (-4.0, 4.0);
    for _ in 0..60 {
        let mid = 0.5 * (lo + hi);
        if erf(mid) < p {
            lo = mid;
        } else {
            hi = mid;
        }
    }
    0.5 * (lo + hi)
}

/// The modified Bessel functions of orders zero and one.
fn bessel(x: f64) -> (f64, f64) {
    let q = x * x / 4.0;
    let (mut t0, mut t1) = (1.0, x / 2.0);
    let (mut s0, mut s1) = (t0, t1);
    for k in 1..80 {
        let k = k as f64;
        t0 *= q / (k * k);
        t1 *= q / (k * (k + 1.0));
        s0 += t0;
        s1 += t1;
    }
    (s0, s1)
}

fn gammainc(a: f64, x: f64) -> f64 {
    if x <= 0.0 {
        return 0.0;
    }
    let mut term = 1.0 / a;
    let mut sum = term;
    for k in 1..400 {
        term *= x / (a + k as f64);
        sum += term;
    }
    sum * (a * x.ln() - x - lgamma(a)).exp()
}

fn softplus(x: f64) -> f64 {
    x.max(0.0) + (-x.abs()).exp().ln_1p()
}

fn named(n: Named) -> f64 {
    match n {
        Named::Inf => f64::INFINITY,
        Named::Nan => f64::NAN,
        Named::HalfLnTwoPi => 0.5 * (2.0 * PI).ln(),
        Named::LnTwo => 2.0f64.ln(),
        Named::Pi => PI,
        Named::EulerGamma => -digamma(1.0),
        Named::SqrtTwo => 2.0f64.sqrt(),
    }
}

fn call(c: Call, x: f64) -> f64 {
    match c {
        Call::Abs => x.abs(),
        Call::Sign => {
            if x > 0.0 {
                1.0
            } else if x < 0.0 {
                -1.0
            } else {
                0.0
            }
        }
        Call::Exp => x.exp(),
        Call::Ln => x.ln(),
        Call::Sqrt => x.sqrt(),
        Call::Sin => x.sin(),
        Call::Cos => x.cos(),
        Call::Tan => x.tan(),
        Call::Atan => x.atan(),
        Call::Acos => x.acos(),
        Call::Floor => x.floor(),
        Call::Lgamma => lgamma(x),
        Call::Digamma => digamma(x),
        Call::Trigamma => trigamma(x),
        Call::Erf => erf(x),
        Call::Erfinv => erfinv(x),
        Call::Log1p => x.ln_1p(),
        Call::Expm1 => x.exp_m1(),
        Call::LogI0 => bessel(x).0.ln(),
        Call::BesselRatio => bessel(x).1 / bessel(x).0,
        Call::Ndtr => 0.5 * (1.0 + erf(x / 2.0f64.sqrt())),
        Call::Ndtri => 2.0f64.sqrt() * erfinv(2.0 * x - 1.0),
        Call::Softplus => softplus(x),
        Call::LogSigmoid => -softplus(-x),
    }
}

fn pair(c: Pair, x: f64, y: f64) -> f64 {
    match c {
        Pair::Pow => x.powf(y),
        Pair::Xlogy => {
            if x == 0.0 {
                0.0
            } else {
                x * y.ln()
            }
        }
        Pair::Xlog1py => {
            if x == 0.0 {
                0.0
            } else {
                x * y.ln_1p()
            }
        }
        Pair::Lbeta => lgamma(x) + lgamma(y) - lgamma(x + y),
        Pair::LogBinom => lgamma(x + 1.0) - lgamma(y + 1.0) - lgamma(x - y + 1.0),
        Pair::Gammainc => gammainc(x, y),
    }
}

fn eval(e: &Formula, p: At) -> f64 {
    match e {
        Formula::Slot(Slot::X) => p.x,
        Formula::Slot(Slot::A) => p.a,
        Formula::Slot(Slot::B) => p.b,
        Formula::Slot(Slot::C) => p.c,
        Formula::Slot(Slot::U) => p.u,
        Formula::Slot(Slot::V) => p.v,
        Formula::Int(n) => *n as f64,
        Formula::Ratio(n, d) => *n as f64 / *d as f64,
        Formula::Named(n) => named(*n),
        Formula::Neg(a) => -eval(a, p),
        Formula::Sum(a, b) => eval(a, p) + eval(b, p),
        Formula::Difference(a, b) => eval(a, p) - eval(b, p),
        Formula::Product(a, b) => eval(a, p) * eval(b, p),
        Formula::Quotient(a, b) => eval(a, p) / eval(b, p),
        Formula::Call(c, a) => call(*c, eval(a, p)),
        Formula::Pair(c, a, b) => pair(*c, eval(a, p), eval(b, p)),
        Formula::Clamp(a, lo, hi) => eval(a, p).max(eval(lo, p)).min(eval(hi, p)),
        Formula::Branch(t, a, b) => {
            if holds(t, p) {
                eval(a, p)
            } else {
                eval(b, p)
            }
        }
    }
}

fn holds(t: &Test, p: At) -> bool {
    match t {
        Test::Below(a, b) => eval(a, p) < eval(b, p),
        Test::AtMost(a, b) => eval(a, p) <= eval(b, p),
        Test::Both(a, b) => holds(a, p) && holds(b, p),
        Test::Either(a, b) => holds(a, p) || holds(b, p),
    }
}

/// A family at ordinary parameters, with the interval its density lives on.
struct Case {
    kind: Kind,
    p: At,
    lo: f64,
    hi: f64,
    discrete: bool,
}

fn case(kind: Kind, p: At, lo: f64, hi: f64) -> Case {
    Case { kind, p, lo, hi, discrete: false }
}

fn counts(kind: Kind, p: At, hi: f64) -> Case {
    Case { kind, p, lo: 0.0, hi, discrete: true }
}

fn cases() -> Vec<Case> {
    vec![
        case(Kind::Normal, at(0.7, 0.4, 0.9, 0.0), -9.0, 10.0),
        case(Kind::Uniform, at(0.7, 0.2, 1.7, 0.0), 0.2, 1.7),
        case(Kind::Exponential, at(0.7, 1.3, 0.0, 0.0), 0.0, 25.0),
        case(Kind::Laplace, at(0.7, 0.3, 0.8, 0.0), -20.0, 20.0),
        case(Kind::Cauchy, at(0.7, 0.3, 0.8, 0.0), -50.0, 50.0),
        case(Kind::Gumbel, at(0.7, 0.5, 0.8, 0.0), -4.0, 30.0),
        case(Kind::HalfNormal, at(0.7, 1.2, 0.0, 0.0), 0.0, 12.0),
        case(Kind::HalfCauchy, at(0.7, 1.2, 0.0, 0.0), 0.0, 50.0),
        case(Kind::LogNormal, at(0.7, 0.1, 0.4, 0.0), 0.0, 15.0),
        case(Kind::Pareto, at(1.9, 1.5, 6.0, 0.0), 1.5, 60.0),
        case(Kind::Weibull, at(0.7, 1.3, 2.2, 0.0), 0.0, 8.0),
        case(Kind::Kumaraswamy, at(0.7, 2.3, 1.8, 0.0), 0.0, 1.0),
        case(Kind::Gamma, at(0.7, 2.5, 1.4, 0.0), 0.0, 30.0),
        case(Kind::InverseGamma, at(0.7, 6.0, 3.0, 0.0), 0.0, 60.0),
        case(Kind::Beta, at(0.7, 2.4, 3.1, 0.0), 0.0, 1.0),
        case(Kind::StudentT, at(0.7, 12.0, 0.3, 0.8), -40.0, 40.0),
        case(Kind::FisherSnedecor, at(0.7, 5.0, 14.0, 0.0), 0.0, 120.0),
        case(Kind::VonMises, at(0.7, 0.4, 1.7, 0.0), 0.4 - PI, 0.4 + PI),
        case(Kind::ContinuousBernoulli, at(0.7, 0.9, 0.0, 0.0), 0.0, 1.0),
        counts(Kind::Bernoulli, at(1.0, 0.3, 0.0, 0.0), 1.0),
        counts(Kind::Geometric, at(2.0, 0.2, 0.0, 0.0), 120.0),
        counts(Kind::Poisson, at(2.0, 3.4, 0.0, 0.0), 60.0),
        counts(Kind::Binomial, at(2.0, 7.0, 0.4, 0.0), 7.0),
        counts(Kind::NegativeBinomial, at(2.0, 2.5, -0.3, 0.0), 200.0),
        case(Kind::LogitRelaxedBernoulli, at(0.7, 0.8, 0.3, 0.0), -60.0, 60.0),
        case(Kind::RelaxedBernoulli, at(0.7, 1.6, 0.3, 0.0), 0.0, 1.0),
    ]
}

fn near(a: f64, b: f64, tolerance: f64) -> bool {
    (a - b).abs() <= tolerance * (1.0 + b.abs())
}

fn with_slot(p: At, slot: Slot, t: f64) -> At {
    match slot {
        Slot::X => At { x: t, ..p },
        Slot::A => At { a: t, ..p },
        Slot::B => At { b: t, ..p },
        Slot::C => At { c: t, ..p },
        Slot::U => At { u: t, ..p },
        Slot::V => At { v: t, ..p },
    }
}

fn slope(e: &Formula, p: At, slot: Slot) -> f64 {
    let t = eval(&Formula::Slot(slot), p);
    let h = 1e-5;
    (eval(e, with_slot(p, slot, t + h)) - eval(e, with_slot(p, slot, t - h))) / (2.0 * h)
}

/// The sum, or the integral, of a function of the value against the density.
fn expected(c: &Case, f: &dyn Fn(f64, f64) -> f64) -> f64 {
    let e = log_prob_of(c.kind);
    let mut sum = 0.0;
    if c.discrete {
        for k in 0..c.hi as usize + 1 {
            let x = k as f64;
            let l = eval(&e, At { x, ..c.p });
            sum += l.exp() * f(x, l);
        }
    } else {
        let n = 12000;
        let h = (c.hi - c.lo) / n as f64;
        for i in 0..n {
            let x = c.lo + (i as f64 + 0.5) * h;
            let l = eval(&e, At { x, ..c.p });
            if l > -600.0 {
                sum += l.exp() * f(x, l) * h;
            }
        }
    }
    sum
}

fn heavy(kind: Kind) -> bool {
    kind == Kind::Cauchy || kind == Kind::HalfCauchy
}

#[test]
fn densities_have_unit_mass() {
    for c in cases() {
        let mass = expected(&c, &|_, _| 1.0);
        let want = if heavy(c.kind) {
            let f = cdf_of(c.kind);
            eval(&f, At { x: c.hi, ..c.p }) - eval(&f, At { x: c.lo, ..c.p })
        } else {
            1.0
        };
        assert!(near(mass, want, 2e-4), "{:?}: {} and {}", c.kind, mass, want);
    }
}

#[test]
fn means_and_variances_are_those_of_the_density() {
    for c in cases() {
        let mean = eval(&mean_of(c.kind), c.p);
        if mean.is_finite() {
            let got = expected(&c, &|x, _| x);
            assert!(near(got, mean, 5e-4), "{:?}: {} and {}", c.kind, got, mean);
        }
        let variance = eval(&variance_of(c.kind), c.p);
        if variance.is_finite() {
            let got = if c.kind == Kind::VonMises {
                expected(&c, &|x, _| 1.0 - (x - mean).cos())
            } else {
                expected(&c, &|x, _| (x - mean) * (x - mean))
            };
            assert!(near(got, variance, 2e-3), "{:?}: {} and {}", c.kind, got, variance);
        }
    }
}

#[test]
fn entropies_are_those_of_the_density() {
    for c in cases() {
        let entropy = eval(&entropy_of(c.kind), c.p);
        assert_eq!(entropy.is_nan(), !c.kind.has_entropy());
        if c.kind.has_entropy() && !heavy(c.kind) {
            let got = expected(&c, &|_, l| -l);
            assert!(near(got, entropy, 1e-3), "{:?}: {} and {}", c.kind, got, entropy);
        }
    }
}

#[test]
fn modes_are_highest() {
    for c in cases() {
        let mode = eval(&mode_of(c.kind), c.p);
        if mode.is_nan() {
            continue;
        }
        let e = log_prob_of(c.kind);
        let top = eval(&e, At { x: mode, ..c.p });
        let h = if c.discrete { 1.0 } else { 1e-3 };
        for x in [mode - h, mode + h] {
            if x >= c.lo && x <= c.hi {
                assert!(eval(&e, At { x, ..c.p }) <= top + 1e-12, "{:?}", c.kind);
            }
        }
    }
}

#[test]
fn distribution_functions_gather_the_density() {
    for c in cases() {
        let f = cdf_of(c.kind);
        assert_eq!(eval(&f, c.p).is_nan(), !c.kind.has_cdf());
        if !c.kind.has_cdf() {
            continue;
        }
        let e = log_prob_of(c.kind);
        if c.discrete {
            let mut total = 0.0;
            for k in 0..6 {
                let x = k as f64;
                if x <= c.hi {
                    total += eval(&e, At { x, ..c.p }).exp();
                    assert!(near(eval(&f, At { x, ..c.p }), total, 1e-9), "{:?}", c.kind);
                }
            }
            assert_eq!(eval(&f, At { x: -1.0, ..c.p }), 0.0);
        } else {
            let density = eval(&e, c.p).exp();
            assert!(near(slope(&f, c.p, Slot::X), density, 1e-6), "{:?}", c.kind);
        }
    }
}

#[test]
fn quantiles_invert_the_distribution_function() {
    for c in cases() {
        let q = icdf_of(c.kind);
        assert_eq!(eval(&q, At { x: 0.3, ..c.p }).is_nan(), !c.kind.has_icdf());
        if !c.kind.has_icdf() || c.discrete {
            continue;
        }
        let f = cdf_of(c.kind);
        for level in [0.1, 0.45, 0.5, 0.8] {
            let x = eval(&q, At { x: level, ..c.p });
            let back = eval(&f, At { x, ..c.p });
            assert!(near(back, level, 1e-9), "{:?}: {} and {}", c.kind, back, level);
        }
    }
    let geometric = icdf_of(Kind::Geometric);
    assert_eq!(eval(&geometric, at(0.3, 0.0, 0.0, 0.0)), 0.0);
    assert_eq!(eval(&geometric, at(0.8, 0.0, 0.0, 0.0)), 2.0);
}

fn same_slopes(kind: Kind, e: &Formula, g: &Grad4, p: At, with_value: bool) {
    let mut list = vec![(Slot::A, &g.da)];
    if with_value {
        list.push((Slot::X, &g.dx));
    }
    if kind.arity() > 1 {
        list.push((Slot::B, &g.db));
    }
    if kind.arity() > 2 {
        list.push((Slot::C, &g.dc));
    }
    for (slot, d) in list {
        let want = slope(e, p, slot);
        let got = eval(d, p);
        assert!(near(got, want, 2e-6), "{:?} {:?}: {} and {}", kind, slot, got, want);
    }
}

#[test]
fn scores_are_slopes_of_the_log_density() {
    for c in cases() {
        same_slopes(c.kind, &log_prob_of(c.kind), &log_prob_grad_of(c.kind), c.p, true);
    }
}

#[test]
fn entropy_slopes_are_slopes_of_the_entropy() {
    for c in cases() {
        if c.kind.has_entropy() {
            same_slopes(c.kind, &entropy_of(c.kind), &entropy_grad_of(c.kind), c.p, false);
        }
    }
}

#[test]
fn quantile_slopes_are_slopes_of_the_quantile() {
    for c in cases() {
        if c.kind.has_icdf_grad() {
            let p = At { x: 0.3, ..c.p };
            let e = closed_form_icdf_of(c.kind);
            same_slopes(c.kind, &e, &icdf_grad_of(c.kind), p, true);
        }
    }
}

#[test]
fn path_slopes_are_slopes_of_the_draw() {
    for c in cases() {
        if c.kind.reparameterised() {
            let p = At { x: 0.3, ..c.p };
            let e = sample_from_bits_of(c.kind);
            same_slopes(c.kind, &e, &rsample_grad_of(c.kind), p, false);
        }
    }
}

#[test]
fn exact_values() {
    let value = |kind, p| eval(&log_prob_of(kind), p);
    assert!(near(value(Kind::Normal, at(0.0, 0.0, 1.0, 0.0)), -0.918_938_533_204_672_7, 1e-12));
    assert!(near(value(Kind::Exponential, at(2.0, 0.5, 0.0, 0.0)), 0.5f64.ln() - 1.0, 1e-12));
    assert!(near(value(Kind::Poisson, at(3.0, 2.0, 0.0, 0.0)), (8.0f64 / 6.0).ln() - 2.0, 1e-9));
    assert!(near(value(Kind::Binomial, at(1.0, 2.0, 0.0, 0.0)), 0.5f64.ln(), 1e-9));
    assert!(near(value(Kind::Geometric, at(1.0, 0.0, 0.0, 0.0)), 0.25f64.ln(), 1e-12));
    assert!(near(value(Kind::Cauchy, at(0.0, 0.0, 1.0, 0.0)), -PI.ln(), 1e-12));
    assert_eq!(value(Kind::Uniform, at(3.0, 0.0, 1.0, 0.0)), f64::NEG_INFINITY);
    assert_eq!(value(Kind::Uniform, at(1.0, 0.0, 1.0, 0.0)), f64::NEG_INFINITY);
    assert_eq!(value(Kind::HalfNormal, at(-1.0, 1.0, 0.0, 0.0)), f64::NEG_INFINITY);
    assert_eq!(eval(&mean_of(Kind::Pareto), at(0.0, 1.0, 0.5, 0.0)), f64::INFINITY);
    assert!(eval(&mean_of(Kind::StudentT), at(0.0, 1.0, 0.0, 1.0)).is_nan());
    assert!(eval(&mean_of(Kind::Cauchy), at(0.0, 0.0, 1.0, 0.0)).is_nan());
    assert_eq!(eval(&variance_of(Kind::StudentT), at(0.0, 1.5, 0.0, 1.0)), f64::INFINITY);
    assert_eq!(eval(&mode_of(Kind::Binomial), at(0.0, 4.0, 0.0, 0.0)), 2.0);
}

#[test]
fn codes_choose_the_formula() {
    for c in cases() {
        assert_eq!(kind_of(c.kind.code()), Some(c.kind));
        let p = c.p;
        assert_eq!(eval(&pointwise_of(c.kind, 0), p), eval(&log_prob_of(c.kind), p));
        assert_eq!(eval(&moment_of(c.kind, 0), p).to_bits(), eval(&mean_of(c.kind), p).to_bits());
    }
    assert_eq!(kind_of(26), None);
}

#[test]
fn opcodes_choose_the_formula() {
    for c in cases() {
        let (code, p) = (c.kind.code(), c.p);
        let read = |op| eval(&element_of(op).unwrap(), p).to_bits();
        assert_eq!(read(Fused::Density(code, 0)), eval(&log_prob_of(c.kind), p).to_bits());
        assert_eq!(read(Fused::Summary(code, 0)), eval(&mean_of(c.kind), p).to_bits());
        assert_eq!(element_of(Fused::Draw(code, 1, 0)).is_some(), c.kind.lane_sampled());
        assert_eq!(element_of(Fused::DrawGrad(code, 1, 0, 1)).is_some(), c.kind.reparameterised());
        let up = At { u: 2.0, ..p };
        let g = eval(&element_of(Fused::DensityGrad(code, 0, 1)).unwrap(), up);
        let want = 2.0 * eval(&log_prob_grad_of(c.kind).da, up);
        assert!(near(g, want, 1e-12) || (g.is_nan() && want.is_nan()));
    }
    assert!(element_of(Fused::Density(26, 0)).is_none());
    assert!(element_of(Fused::RowProbs).is_none());
    // The word of an element is the same however many are drawn.
    assert_eq!(draw_word(7, 5), draw_lane(5, 0, 0, 7, 0, true));
    assert_eq!(draw_word(7, 1 << 32), draw_lane(0, 1, 0, 7, 0, true));
}

#[test]
fn inverting_families_draw_their_quantile() {
    for c in cases() {
        if c.kind.has_icdf_grad() {
            let p = At { x: 0.37, ..c.p };
            let quantile = eval(&closed_form_icdf_of(c.kind), p);
            assert_eq!(eval(&sample_from_bits_of(c.kind), p), quantile);
        }
    }
}

fn open(bits: u32) -> f64 {
    unit_open(bits) as f64 / 16_777_216.0
}

fn reject(trial: &Trial, p: At, index: u32, base: u32) -> f64 {
    let mut search = Search::new();
    let mut last = p;
    while let Search::Trying(i) = search {
        let bits = draw_block(index, 0, base + attempt_stream(0, i), 17, 23, true);
        last = At { u: open(bits.a), v: open(bits.b), x: open(bits.c), ..p };
        search = search.after(holds(&trial.accept, last));
    }
    match search {
        Search::Taken(_) => eval(&trial.candidate, last),
        _ => eval(&trial.fallback, p),
    }
}

fn lane(index: u32, stream: u32) -> f64 {
    open(draw_lane(index, 0, stream, 17, 23, true))
}

fn walk(first: f64, next: &Formula, p: At, last: f64, limit: u32, target: f64) -> f64 {
    let mut w = Walk::new(limit);
    let mut term = first;
    let mut total = term;
    while !w.over {
        let k = w.count as f64;
        let past = target > total && k < last;
        if past {
            term = eval(next, At { u: term, v: k, ..p });
            total += term;
        }
        w = w.after(past, limit);
    }
    w.count as f64
}

fn piece(i: Ingredient, parameter: f64, p: At, index: u32, base: u32) -> f64 {
    let q = At { a: parameter, ..p };
    match i {
        Ingredient::Uniform => lane(index, base),
        Ingredient::Gamma => {
            let boost = At { u: lane(index, base + MAX_TRIES), ..q };
            eval(&gamma_boost(), boost) * reject(&gamma_trial(), q, index, base)
        }
        Ingredient::Angle => {
            if holds(&angle_is_flat(), q) {
                eval(&flat_angle(), At { u: lane(index, base), ..q })
            } else {
                reject(&angle_trial(), q, index, base)
            }
        }
        Ingredient::Poisson => {
            if holds(&poisson_walks(), q) {
                let first = eval(&poisson_first(), q);
                let target = lane(index, base);
                walk(first, &poisson_next(), q, f64::INFINITY, POISSON_STEPS, target)
            } else {
                reject(&poisson_trial(), q, index, base)
            }
        }
        Ingredient::Binomial => {
            let drawn = if holds(&binomial_walks(), p) {
                let first = eval(&binomial_first(), p);
                let last = eval(&trials(), p);
                walk(first, &binomial_next(), p, last, BINOMIAL_STEPS, lane(index, base))
            } else {
                reject(&binomial_trial(), p, index, base)
            };
            eval(&unfolded(), At { u: drawn, ..p })
        }
    }
}

fn draw(kind: Kind, p: At, index: u32) -> f64 {
    match sample_of(kind) {
        None => {
            let bits = draw_lane(index, 0, 0, 17, 23, true);
            let x = if draws_half_open(kind) {
                unit_half_open(bits) as f64 / 8_388_608.0
            } else {
                open(bits)
            };
            eval(&sample_from_bits_of(kind), At { x, ..p })
        }
        Some((first, second)) => {
            let u = piece(first, eval(&first_parameter_of(kind), p), p, index, 0);
            let p = At { u, ..p };
            let v = match second {
                Some(s) => {
                    let parameter = eval(&second_parameter_of(kind), p);
                    piece(s, parameter, p, index, attempt_stream(1, 0))
                }
                None => 0.0,
            };
            eval(&combine_of(kind), At { v, ..p })
        }
    }
}

/// Draws whose average lies within five standard errors of the mean.
fn averages(kind: Kind, p: At) {
    let n = 600;
    let mean = eval(&mean_of(kind), p);
    let variance = eval(&variance_of(kind), p);
    let sum: f64 = (0..n).map(|i| draw(kind, p, i)).sum();
    let error = (variance / n as f64).sqrt();
    assert!((sum / n as f64 - mean).abs() < 5.0 * error, "{:?}: {}", kind, sum / n as f64);
}

#[test]
fn draws_average_to_the_mean() {
    for c in cases() {
        let mean = eval(&mean_of(c.kind), c.p);
        if mean.is_finite() && c.kind != Kind::VonMises {
            averages(c.kind, c.p);
        }
    }
    averages(Kind::Gamma, at(0.0, 0.4, 2.0, 0.0));
    averages(Kind::Poisson, at(0.0, 40.0, 0.0, 0.0));
    averages(Kind::Binomial, at(0.0, 50.0, 0.6, 0.0));
    averages(Kind::Binomial, at(0.0, 50.0, -0.6, 0.0));
}

#[test]
fn angles_gather_about_their_centre() {
    let p = at(0.0, 0.4, 3.0, 0.0);
    let n = 600;
    let cosine: f64 = (0..n).map(|i| (draw(Kind::VonMises, p, i) - 0.4).cos()).sum();
    let want = bessel(3.0).1 / bessel(3.0).0;
    assert!((cosine / n as f64 - want).abs() < 0.06);
    for i in 0..50 {
        let x = draw(Kind::VonMises, at(0.0, 3.0, 0.5, 0.0), i);
        assert!((-PI..PI + 1e-9).contains(&x));
        let flat = draw(Kind::VonMises, at(0.0, 0.0, 1e-5, 0.0), i);
        assert!((-PI..PI + 1e-9).contains(&flat));
    }
    let wrapped = eval(&wrap_angle(), At { u: 3.0 * PI + 0.1, ..p });
    assert!(near(wrapped, -PI + 0.1, 1e-9));
}

#[test]
fn a_search_takes_the_first_attempt_it_may() {
    let mut s = Search::new();
    for _ in 0..3 {
        s = s.after(false);
    }
    assert_eq!(s, Search::Trying(3));
    assert_eq!(s.after(true), Search::Taken(3));
    assert_eq!(s.after(true).after(false), Search::Taken(3));
    let mut s = Search::new();
    for _ in 0..MAX_TRIES {
        s = s.after(false);
    }
    assert_eq!(s, Search::Exhausted);
}

#[test]
fn a_walk_stops_where_it_is_told() {
    let mut w = Walk::new(5);
    w = w.after(true, 5).after(true, 5);
    assert_eq!(w, Walk { count: 2, over: false });
    assert_eq!(w.after(false, 5), Walk { count: 2, over: true });
    for _ in 0..9 {
        w = w.after(true, 5);
    }
    assert_eq!(w, Walk { count: 5, over: true });
    assert_eq!(Walk::new(0), Walk { count: 0, over: true });
}
