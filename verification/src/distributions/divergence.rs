//! What the divergences are over the real numbers.

use vstd::prelude::*;

use super::algebra;
use super::algebra::{lemma_over, lemma_positive_quotient, lemma_vanishes};
use super::families;
use super::formula;
use super::formula::Point;
use super::kl;
use super::scalar;
use super::scalar::Family;
use super::univariate;
use super::univariate::Kind;
use crate::autograd::graph::Tape;
use crate::autograd::ops;
use crate::autograd::var;
use crate::autograd::var::Traced;
use crate::error::Fault;
use crate::meaning;
use crate::meaning::Functions;
use crate::tensor;
use crate::term::{Binary, Scalar, Special, Term, Unary};

verus! {

/// What a value is at one place.
pub open spec fn at(f: Functions, leaf: spec_fn(Term) -> real, v: Traced) -> real {
    meaning::reading(f, leaf, v.value.term)
}

pub open spec fn half() -> real {
    1real / 2real
}

pub open spec fn square(x: real) -> real {
    x * x
}

pub open spec fn magnitude(x: real) -> real {
    if x < 0real {
        -x
    } else {
        x
    }
}

pub open spec fn normal(f: Functions, lp: real, sp: real, lq: real, sq: real) -> real {
    let ratio = square(sp / sq);
    (ratio + square((lp - lq) / sq) - (f.log)(ratio) - 1real) * half()
}

pub open spec fn cauchy(f: Functions, lp: real, sp: real, lq: real, sq: real) -> real {
    (f.log)(square(sp + sq) + square(lp - lq)) - (f.log)(sp * sq * 4real)
}

pub open spec fn exponential(f: Functions, p: real, q: real) -> real {
    q / p - (f.log)(q / p) - 1real
}

pub open spec fn laplace(f: Functions, lp: real, sp: real, lq: real, sq: real) -> real {
    let gap = magnitude(lp - lq);
    -(f.log)(sp / sq) + gap / sq + (sp / sq) * (f.exp)(-(gap / sp)) - 1real
}

pub open spec fn uniform(f: Functions, pl: real, ph: real, ql: real, qh: real) -> real {
    (f.log)((qh - ql) / (ph - pl))
}

pub open spec fn pareto(f: Functions, sp: real, ap: real, sq: real, aq: real) -> real {
    aq * (f.log)(sp / sq) - (f.log)(aq / ap) + aq / ap - 1real
}

pub open spec fn lgamma(f: Functions, x: real) -> real {
    (f.special)(Special::Lgamma, x)
}

pub open spec fn digamma(f: Functions, x: real) -> real {
    (f.special)(Special::Digamma, x)
}

pub open spec fn gamma(f: Functions, cp: real, rp: real, cq: real, rq: real) -> real {
    cq * (f.log)(rp / rq) + (lgamma(f, cq) - lgamma(f, cp)) + (cp - cq) * digamma(f, cp) + (rq - rp)
        * (cp / rp)
}

pub open spec fn gumbel(f: Functions, lp: real, sp: real, lq: real, sq: real) -> real {
    let euler = (f.constant)(Scalar::EulerGamma);
    -(f.log)(sp / sq) - lq / sq + lp / sq + (sp / sq) * euler + (f.exp)(
        lq / sq + lgamma(f, sp / sq + 1real) - lp / sq,
    ) + (f.constant)(Scalar::MinusOneLessEulerGamma)
}

pub open spec fn beta(f: Functions, pa: real, pb: real, qa: real, qb: real) -> real {
    lgamma(f, qa) + lgamma(f, qb) + lgamma(f, pa + pb) - (lgamma(f, pa) + lgamma(f, pb) + lgamma(
        f,
        qa + qb,
    )) + (pa - qa) * digamma(f, pa) + (pb - qb) * digamma(f, pb) + ((qa + qb) - (pa + pb))
        * digamma(f, pa + pb)
}

/// From two logits; the logarithm of a sigmoid is minus the softplus of the negation.
pub open spec fn bernoulli(f: Functions, a: real, b: real) -> real {
    let p = (f.sigmoid)(a);
    -(p * ((f.softplus)(-a) - (f.softplus)(-b)) + (1real - p) * ((f.softplus)(a) - (f.softplus)(b)))
}

pub open spec fn poisson(f: Functions, p: real, q: real) -> real {
    p * ((f.log)(p) - (f.log)(q)) - p + q
}

/// From two logits: minus the entropy of the first, less the expected logarithm of the mass of
/// the second.
pub open spec fn geometric(f: Functions, a: real, b: real) -> real {
    let p = (f.sigmoid)(a);
    -(((f.softplus)(a) - p * a) / p) + (f.softplus)(b) / p - b
}

/// The divergence of the family with parameters `(pa, pb)` from the one with
/// parameters `(qa, qb)`.
pub open spec fn divergence(f: Functions, kind: Kind, pa: real, pb: real, qa: real, qb: real) -> real {
    match kind {
        Kind::Normal | Kind::LogNormal => normal(f, pa, pb, qa, qb),
        Kind::HalfNormal => normal(f, 0real, pa, 0real, qa),
        Kind::Uniform => uniform(f, pa, pb, qa, qb),
        Kind::Exponential => exponential(f, pa, qa),
        Kind::Laplace => laplace(f, pa, pb, qa, qb),
        Kind::Cauchy => cauchy(f, pa, pb, qa, qb),
        Kind::HalfCauchy => cauchy(f, 0real, pa, 0real, qa),
        Kind::Gumbel => gumbel(f, pa, pb, qa, qb),
        Kind::Pareto => pareto(f, pa, pb, qa, qb),
        Kind::Gamma | Kind::InverseGamma => gamma(f, pa, pb, qa, qb),
        Kind::Beta => beta(f, pa, pb, qa, qb),
        Kind::Bernoulli => bernoulli(f, pa, qa),
        Kind::Geometric => geometric(f, pa, qa),
        Kind::Poisson => poisson(f, pa, qa),
        _ => 0real,
    }
}

/// Whether an interpretation reads the entropy that the divergence of a geometric family
/// starts from as the formula of that entropy.
pub open spec fn reads_entropy(f: Functions, leaf: spec_fn(Term) -> real, p: Family) -> bool {
    let a = at(f, leaf, p.a);
    &&& (f.sigmoid)(a) == 1real / (1real + (f.exp)(-a))
    &&& leaf(scalar::summary_of(p, univariate::ENTROPY).term) == families::entropy(
        formula::calculus(f),
        Kind::Geometric,
        Point { x: 0real, a, b: at(f, leaf, p.b), c: at(f, leaf, p.c), u: 0real, v: 0real },
    )
}

/// Whether the first distribution's support is inside the second's.
pub open spec fn inside(kind: Kind, pa: real, pb: real, qa: real, qb: real) -> bool {
    match kind {
        Kind::Uniform => qa <= pa && pb <= qb,
        Kind::Pareto => qa <= pa,
        _ => true,
    }
}

proof fn lemma_normal(f: Functions, leaf: spec_fn(Term) -> real, t: Tape, lp: Traced, sp: Traced, lq: Traced, sq: Traced)
    requires
        kl::normal_like_op(t, lp, sp, lq, sq) is Ok,
    ensures
        at(f, leaf, kl::normal_like_op(t, lp, sp, lq, sq)->Ok_0.1) == normal(
            f,
            at(f, leaf, lp),
            at(f, leaf, sp),
            at(f, leaf, lq),
            at(f, leaf, sq),
        ),
{
    broadcast use var::lemma_record_value;

    reveal_with_fuel(meaning::reading, 10);
}

proof fn lemma_cauchy(f: Functions, leaf: spec_fn(Term) -> real, t: Tape, lp: Traced, sp: Traced, lq: Traced, sq: Traced)
    requires
        kl::cauchy_like_op(t, lp, sp, lq, sq) is Ok,
    ensures
        at(f, leaf, kl::cauchy_like_op(t, lp, sp, lq, sq)->Ok_0.1) == cauchy(
            f,
            at(f, leaf, lp),
            at(f, leaf, sp),
            at(f, leaf, lq),
            at(f, leaf, sq),
        ),
{
    broadcast use var::lemma_record_value;

    reveal_with_fuel(meaning::reading, 10);
}

proof fn lemma_exponential(f: Functions, leaf: spec_fn(Term) -> real, t: Tape, p: Traced, q: Traced)
    requires
        kl::exponential_like_op(t, p, q) is Ok,
    ensures
        at(f, leaf, kl::exponential_like_op(t, p, q)->Ok_0.1) == exponential(
            f,
            at(f, leaf, p),
            at(f, leaf, q),
        ),
{
    broadcast use var::lemma_record_value;

    reveal_with_fuel(meaning::reading, 10);
}

proof fn lemma_laplace(f: Functions, leaf: spec_fn(Term) -> real, t: Tape, lp: Traced, sp: Traced, lq: Traced, sq: Traced)
    requires
        kl::laplace_like_op(t, lp, sp, lq, sq) is Ok,
    ensures
        at(f, leaf, kl::laplace_like_op(t, lp, sp, lq, sq)->Ok_0.1) == laplace(
            f,
            at(f, leaf, lp),
            at(f, leaf, sp),
            at(f, leaf, lq),
            at(f, leaf, sq),
        ),
{
    broadcast use var::lemma_record_value;

    reveal_with_fuel(meaning::reading, 10);
}

proof fn lemma_gumbel(f: Functions, leaf: spec_fn(Term) -> real, t: Tape, lp: Traced, sp: Traced, lq: Traced, sq: Traced)
    requires
        kl::gumbel_like_op(t, lp, sp, lq, sq) is Ok,
    ensures
        at(f, leaf, kl::gumbel_like_op(t, lp, sp, lq, sq)->Ok_0.1) == gumbel(
            f,
            at(f, leaf, lp),
            at(f, leaf, sp),
            at(f, leaf, lq),
            at(f, leaf, sq),
        ),
{
    broadcast use var::lemma_record_value;

    reveal_with_fuel(meaning::reading, 10);
}

proof fn lemma_gamma(f: Functions, leaf: spec_fn(Term) -> real, t: Tape, cp: Traced, rp: Traced, cq: Traced, rq: Traced)
    requires
        kl::gamma_like_op(t, cp, rp, cq, rq) is Ok,
    ensures
        at(f, leaf, kl::gamma_like_op(t, cp, rp, cq, rq)->Ok_0.1) == gamma(
            f,
            at(f, leaf, cp),
            at(f, leaf, rp),
            at(f, leaf, cq),
            at(f, leaf, rq),
        ),
{
    broadcast use var::lemma_record_value;

    reveal_with_fuel(meaning::reading, 10);
}

#[verifier::rlimit(60)]
proof fn lemma_beta(f: Functions, leaf: spec_fn(Term) -> real, t: Tape, pa: Traced, pb: Traced, qa: Traced, qb: Traced)
    requires
        kl::beta_like_op(t, pa, pb, qa, qb) is Ok,
    ensures
        at(f, leaf, kl::beta_like_op(t, pa, pb, qa, qb)->Ok_0.1) == beta(
            f,
            at(f, leaf, pa),
            at(f, leaf, pb),
            at(f, leaf, qa),
            at(f, leaf, qb),
        ),
{
    broadcast use var::lemma_record_value;

    reveal_with_fuel(meaning::reading, 10);
}

proof fn lemma_bernoulli(f: Functions, leaf: spec_fn(Term) -> real, t: Tape, a: Traced, b: Traced)
    requires
        kl::bernoulli_like_op(t, a, b) is Ok,
    ensures
        at(f, leaf, kl::bernoulli_like_op(t, a, b)->Ok_0.1) == bernoulli(
            f,
            at(f, leaf, a),
            at(f, leaf, b),
        ),
{
    broadcast use var::lemma_record_value;

    reveal_with_fuel(meaning::reading, 10);
}

proof fn lemma_poisson(f: Functions, leaf: spec_fn(Term) -> real, t: Tape, p: Traced, q: Traced)
    requires
        kl::poisson_like_op(t, p, q) is Ok,
    ensures
        at(f, leaf, kl::poisson_like_op(t, p, q)->Ok_0.1) == poisson(
            f,
            at(f, leaf, p),
            at(f, leaf, q),
        ),
{
    broadcast use var::lemma_record_value;

    reveal_with_fuel(meaning::reading, 10);
}

proof fn lemma_geometric(f: Functions, leaf: spec_fn(Term) -> real, t: Tape, h: Traced, p: Traced, q: Traced)
    requires
        kl::geometric_like_op(t, h, p, q) is Ok,
        at(f, leaf, h) == ((f.softplus)(at(f, leaf, p)) - (f.sigmoid)(at(f, leaf, p)) * at(
            f,
            leaf,
            p,
        )) / (f.sigmoid)(at(f, leaf, p)),
        (f.sigmoid)(at(f, leaf, p)) != 0real,
    ensures
        at(f, leaf, kl::geometric_like_op(t, h, p, q)->Ok_0.1) == geometric(
            f,
            at(f, leaf, p),
            at(f, leaf, q),
        ),
{
    broadcast use var::lemma_record_value;

    reveal_with_fuel(meaning::reading, 10);
    let (s, i) = ((f.softplus)(at(f, leaf, q)), 1real / (f.sigmoid)(at(f, leaf, p)));
    lemma_over(s, (f.sigmoid)(at(f, leaf, p)));
    assert(-((-s) * i) == s * i) by (nonlinear_arith);
}

proof fn lemma_uniform(f: Functions, leaf: spec_fn(Term) -> real, t: Tape, pl: Traced, ph: Traced, ql: Traced, qh: Traced)
    requires
        kl::uniform_like_op(t, pl, ph, ql, qh) is Ok,
        at(f, leaf, ql) <= at(f, leaf, pl),
        at(f, leaf, ph) <= at(f, leaf, qh),
    ensures
        at(f, leaf, kl::uniform_like_op(t, pl, ph, ql, qh)->Ok_0.1) == uniform(
            f,
            at(f, leaf, pl),
            at(f, leaf, ph),
            at(f, leaf, ql),
            at(f, leaf, qh),
        ),
{
    broadcast use var::lemma_record_value;

    reveal_with_fuel(meaning::reading, 10);
    let h = (f.constant)(Scalar::HalfOverflow);
    assert(0real * h * h == 0real) by (nonlinear_arith);
}

proof fn lemma_pareto(f: Functions, leaf: spec_fn(Term) -> real, t: Tape, sp: Traced, ap: Traced, sq: Traced, aq: Traced)
    requires
        kl::pareto_like_op(t, sp, ap, sq, aq) is Ok,
        at(f, leaf, sq) <= at(f, leaf, sp),
    ensures
        at(f, leaf, kl::pareto_like_op(t, sp, ap, sq, aq)->Ok_0.1) == pareto(
            f,
            at(f, leaf, sp),
            at(f, leaf, ap),
            at(f, leaf, sq),
            at(f, leaf, aq),
        ),
{
    broadcast use var::lemma_record_value;

    reveal_with_fuel(meaning::reading, 10);
    let h = (f.constant)(Scalar::HalfOverflow);
    assert(0real * h * h == 0real) by (nonlinear_arith);
}

proof fn lemma_formula(f: Functions, leaf: spec_fn(Term) -> real, t: Tape, p: Family, q: Family)
    requires
        kl::kl_formula_op(t, p, q) is Ok,
        p.kind is Geometric ==> reads_entropy(f, leaf, p) && (f.sigmoid)(at(f, leaf, p.a)) != 0real,
        inside(p.kind, at(f, leaf, p.a), at(f, leaf, p.b), at(f, leaf, q.a), at(f, leaf, q.b)),
    ensures
        at(f, leaf, kl::kl_formula_op(t, p, q)->Ok_0.1) == divergence(
            f,
            p.kind,
            at(f, leaf, p.a),
            at(f, leaf, p.b),
            at(f, leaf, q.a),
            at(f, leaf, q.b),
        ),
{
    broadcast use var::lemma_record_value;

    let zero = kl::zero_like(p.a);
    assert(at(f, leaf, zero) == 0real);
    match p.kind {
        Kind::Normal | Kind::LogNormal => lemma_normal(f, leaf, t, p.a, p.b, q.a, q.b),
        Kind::HalfNormal => lemma_normal(f, leaf, t, zero, p.a, zero, q.a),
        Kind::Uniform => lemma_uniform(f, leaf, t, p.a, p.b, q.a, q.b),
        Kind::Exponential => lemma_exponential(f, leaf, t, p.a, q.a),
        Kind::Laplace => lemma_laplace(f, leaf, t, p.a, p.b, q.a, q.b),
        Kind::Cauchy => lemma_cauchy(f, leaf, t, p.a, p.b, q.a, q.b),
        Kind::HalfCauchy => lemma_cauchy(f, leaf, t, zero, p.a, zero, q.a),
        Kind::Gumbel => lemma_gumbel(f, leaf, t, p.a, p.b, q.a, q.b),
        Kind::Pareto => lemma_pareto(f, leaf, t, p.a, p.b, q.a, q.b),
        Kind::Gamma | Kind::InverseGamma => lemma_gamma(f, leaf, t, p.a, p.b, q.a, q.b),
        Kind::Beta => lemma_beta(f, leaf, t, p.a, p.b, q.a, q.b),
        Kind::Bernoulli => lemma_bernoulli(f, leaf, t, p.a, q.a),
        Kind::Geometric => {
            let (u, h) = scalar::entropy_op(t, p)->Ok_0;
            assert(at(f, leaf, h) == leaf(scalar::summary_of(p, univariate::ENTROPY).term));
            lemma_geometric(f, leaf, u, h, p.a, q.a);
        },
        Kind::Poisson => lemma_poisson(f, leaf, t, p.a, q.a),
        _ => {},
    }
}

/// Every divergence is the textbook formula of its family, element by element, wherever
/// the first support is inside the second. That of the geometric family starts from an
/// entropy, which is read as its formula.
pub proof fn law_divergence_is_the_textbook_formula(
    f: Functions,
    leaf: spec_fn(Term) -> real,
    t: Tape,
    p: Family,
    q: Family,
)
    requires
        kl::kl_op(t, p, q) is Ok,
        p.kind is Geometric ==> reads_entropy(f, leaf, p) && (f.sigmoid)(at(f, leaf, p.a)) != 0real,
        inside(p.kind, at(f, leaf, p.a), at(f, leaf, p.b), at(f, leaf, q.a), at(f, leaf, q.b)),
    ensures
        at(f, leaf, kl::kl_op(t, p, q)->Ok_0.1) == divergence(
            f,
            p.kind,
            at(f, leaf, p.a),
            at(f, leaf, p.b),
            at(f, leaf, q.a),
            at(f, leaf, q.b),
        ),
{
    broadcast use var::lemma_record_value;

    let (u, v) = kl::kl_formula_op(t, p, q)->Ok_0;
    assert(at(f, leaf, kl::shaped_op(u, v, p.batch, q.batch)->Ok_0.1) == at(f, leaf, v));
    lemma_formula(f, leaf, t, p, q);
}

/// How many bounds of the first support lie outside the second.
pub open spec fn bounds_outside(kind: Kind, pa: real, pb: real, qa: real, qb: real) -> real {
    match kind {
        Kind::Uniform => meaning::indicator(qa > pa) + meaning::indicator(pb > qb),
        Kind::Pareto => meaning::indicator(qa > pa),
        _ => 0real,
    }
}

/// Where the first support is not inside the second, the divergence is the formula plus, for
/// every bound that lies outside, the square of a number whose square is infinite in single
/// precision.
pub proof fn law_divergence_overflows_outside_the_support(
    f: Functions,
    leaf: spec_fn(Term) -> real,
    t: Tape,
    p: Family,
    q: Family,
)
    requires
        kl::kl_op(t, p, q) is Ok,
        p.kind is Uniform || p.kind is Pareto,
    ensures
        ({
            let (pa, pb) = (at(f, leaf, p.a), at(f, leaf, p.b));
            let (qa, qb) = (at(f, leaf, q.a), at(f, leaf, q.b));
            let h = (f.constant)(Scalar::HalfOverflow);
            let n = bounds_outside(p.kind, pa, pb, qa, qb);
            &&& at(f, leaf, kl::kl_op(t, p, q)->Ok_0.1) == divergence(f, p.kind, pa, pb, qa, qb) + n
                * h * h
            &&& !inside(p.kind, pa, pb, qa, qb) ==> n >= 1real
        }),
{
    broadcast use var::lemma_record_value;

    let (u, v) = kl::kl_formula_op(t, p, q)->Ok_0;
    assert(at(f, leaf, kl::shaped_op(u, v, p.batch, q.batch)->Ok_0.1) == at(f, leaf, v));
    if p.kind is Uniform {
        lemma_uniform_anywhere(f, leaf, t, p.a, p.b, q.a, q.b);
    } else {
        lemma_pareto_anywhere(f, leaf, t, p.a, p.b, q.a, q.b);
    }
}

proof fn lemma_uniform_anywhere(f: Functions, leaf: spec_fn(Term) -> real, t: Tape, pl: Traced, ph: Traced, ql: Traced, qh: Traced)
    requires
        kl::uniform_like_op(t, pl, ph, ql, qh) is Ok,
    ensures
        ({
            let h = (f.constant)(Scalar::HalfOverflow);
            at(f, leaf, kl::uniform_like_op(t, pl, ph, ql, qh)->Ok_0.1) == uniform(
                f,
                at(f, leaf, pl),
                at(f, leaf, ph),
                at(f, leaf, ql),
                at(f, leaf, qh),
            ) + (meaning::indicator(at(f, leaf, ql) > at(f, leaf, pl)) + meaning::indicator(
                at(f, leaf, ph) > at(f, leaf, qh),
            )) * h * h
        }),
{
    broadcast use var::lemma_record_value;

    reveal_with_fuel(meaning::reading, 10);
}

proof fn lemma_pareto_anywhere(f: Functions, leaf: spec_fn(Term) -> real, t: Tape, sp: Traced, ap: Traced, sq: Traced, aq: Traced)
    requires
        kl::pareto_like_op(t, sp, ap, sq, aq) is Ok,
    ensures
        ({
            let h = (f.constant)(Scalar::HalfOverflow);
            at(f, leaf, kl::pareto_like_op(t, sp, ap, sq, aq)->Ok_0.1) == pareto(
                f,
                at(f, leaf, sp),
                at(f, leaf, ap),
                at(f, leaf, sq),
                at(f, leaf, aq),
            ) + meaning::indicator(at(f, leaf, sq) > at(f, leaf, sp)) * h * h
        }),
{
    broadcast use var::lemma_record_value;

    reveal_with_fuel(meaning::reading, 10);
}

/// Whether parameters are ones that a family is defined for, as far as its divergence
/// asks.
pub open spec fn proper(kind: Kind, a: real, b: real) -> bool {
    match kind {
        Kind::Normal | Kind::LogNormal | Kind::Laplace | Kind::Cauchy | Kind::Gumbel => b > 0real,
        Kind::HalfNormal | Kind::HalfCauchy | Kind::Exponential | Kind::Poisson => a > 0real,
        Kind::Uniform => a < b,
        Kind::Pareto | Kind::Gamma | Kind::InverseGamma | Kind::Beta => a > 0real && b > 0real,
        _ => true,
    }
}

/// The facts about the functions that make a distribution no distance from itself.
pub open spec fn elementary(f: Functions) -> bool {
    &&& (f.log)(1real) == 0real
    &&& (f.exp)(0real) == 1real
    &&& lgamma(f, 2real) == 0real
    &&& (f.constant)(Scalar::MinusOneLessEulerGamma) == -1real - (f.constant)(Scalar::EulerGamma)
}

/// A distribution is no distance from itself.
pub proof fn law_self_divergence_is_zero(f: Functions, kind: Kind, a: real, b: real)
    requires
        elementary(f),
        proper(kind, a, b),
        kind is Geometric ==> (f.sigmoid)(a) != 0real,
    ensures
        divergence(f, kind, a, b, a, b) == 0real,
{
    let euler = (f.constant)(Scalar::EulerGamma);
    if a > 0real {
        assert(a / a == 1real) by (nonlinear_arith)
            requires
                a > 0real,
        ;
        assert(0real / a == 0real) by (nonlinear_arith)
            requires
                a > 0real,
        ;
        assert(square(a + a) == a * a * 4real) by (nonlinear_arith);
    }
    if b > 0real {
        assert(b / b == 1real) by (nonlinear_arith)
            requires
                b > 0real,
        ;
        assert(0real / b == 0real) by (nonlinear_arith)
            requires
                b > 0real,
        ;
        assert(square(b + b) == b * b * 4real) by (nonlinear_arith);
    }
    if a < b {
        assert((b - a) / (b - a) == 1real) by (nonlinear_arith)
            requires
                a < b,
        ;
    }
    assert(1real * euler == euler);
    let da = digamma(f, a);
    let db = digamma(f, b);
    let ds = digamma(f, a + b);
    assert(0real * da == 0real && 0real * db == 0real && 0real * ds == 0real) by (nonlinear_arith);
    assert(b * 0real == 0real && a * 0real == 0real) by (nonlinear_arith);
    let m = a / b;
    assert(0real * m == 0real) by (nonlinear_arith);
    let pr = (f.sigmoid)(a);
    if kind is Geometric {
        let (sp, i) = ((f.softplus)(a), 1real / pr);
        lemma_over(sp - pr * a, pr);
        lemma_over(sp, pr);
        algebra::lemma_inverse(pr);
        lemma_vanishes(a, pr * i - 1real);
        assert(-((sp - pr * a) * i) + sp * i - a == a * (pr * i - 1real)) by (nonlinear_arith);
    }
    assert(pr * 0real == 0real && (1real - pr) * 0real == 0real) by (nonlinear_arith);
    assert(square(1real) == 1real && square(0real) == 0real);
    assert(0real * half() == 0real);
    assert((a - a) / b == 0real / b);
}

// -- never negative --------------------------------------------------------------------------

/// The logarithm lies below its tangent at one.
#[verifier::opaque]
pub open spec fn log_is_below(f: Functions) -> bool {
    forall|t: real| t > 0real ==> #[trigger] (f.log)(t) <= t - 1real
}

/// The logarithm increases.
#[verifier::opaque]
pub open spec fn log_grows(f: Functions) -> bool {
    forall|s: real, t: real| 0real < s <= t ==> #[trigger] (f.log)(s) <= #[trigger] (f.log)(t)
}

/// The logarithm of a quotient is the difference of the logarithms.
#[verifier::opaque]
pub open spec fn log_divides(f: Functions) -> bool {
    &&& (f.log)(1real) == 0real
    &&& forall|s: real, t: real|
        0real < s && 0real < t ==> #[trigger] (f.log)(s / t) == (f.log)(s) - (f.log)(t)
}

/// The exponential lies above its tangent at zero.
#[verifier::opaque]
pub open spec fn exp_is_above(f: Functions) -> bool {
    forall|t: real| #[trigger] (f.exp)(t) >= 1real + t
}

/// The softplus lies above its tangents, whose slope is the sigmoid.
#[verifier::opaque]
pub open spec fn softplus_is_above(f: Functions) -> bool {
    &&& forall|t: real| 0real < #[trigger] (f.sigmoid)(t) < 1real
    &&& forall|t: real| #[trigger] (f.softplus)(-t) == (f.softplus)(t) - t
    &&& forall|s: real, t: real|
        #[trigger] (f.softplus)(t) >= #[trigger] (f.softplus)(s) + (f.sigmoid)(s) * (t - s)
}

/// The logarithm of the gamma function lies above its tangent at one, whose slope is minus
/// the Euler-Mascheroni constant; what it exceeds `t ln t - t` by lies above its tangents too.
#[verifier::opaque]
pub open spec fn lgamma_is_above(f: Functions) -> bool {
    &&& forall|t: real|
        t > 0real ==> #[trigger] lgamma(f, t + 1real) >= (f.log)(t) - (f.constant)(
            Scalar::EulerGamma,
        ) * (t - 1real)
    &&& (f.constant)(Scalar::MinusOneLessEulerGamma) == -1real - (f.constant)(Scalar::EulerGamma)
    &&& forall|s: real, t: real|
        0real < s && 0real < t ==> #[trigger] lgamma(f, t) - #[trigger] lgamma(f, s) - (t - s)
            * digamma(f, s) + (t - s) - t * ((f.log)(t) - (f.log)(s)) >= 0real
}

/// The logarithm of the beta function.
pub open spec fn lbeta(f: Functions, a: real, b: real) -> real {
    lgamma(f, a) + lgamma(f, b) - lgamma(f, a + b)
}

/// The logarithm of the beta function lies above its tangent planes, whose slopes are
/// differences of digammas.
#[verifier::opaque]
pub open spec fn lbeta_is_above(f: Functions) -> bool {
    forall|a: real, b: real, c: real, d: real|
        0real < a && 0real < b && 0real < c && 0real < d ==> #[trigger] lbeta(f, c, d)
            >= #[trigger] lbeta(f, a, b) + (c - a) * (digamma(f, a) - digamma(f, a + b)) + (d - b)
            * (digamma(f, b) - digamma(f, a + b))
}

proof fn lemma_beta_gap(f: Functions, a: real, b: real, c: real, d: real)
    requires
        convex(f),
        0real < a,
        0real < b,
        0real < c,
        0real < d,
    ensures
        beta(f, a, b, c, d) >= 0real,
{
    reveal(lbeta_is_above);
    let (x, y, z) = (digamma(f, a), digamma(f, b), digamma(f, a + b));
    assert(lbeta(f, c, d) >= lbeta(f, a, b) + (c - a) * (x - z) + (d - b) * (y - z));
    assert((a - c) * x + (b - d) * y + ((c + d) - (a + b)) * z == -((c - a) * (x - z)) - (d - b) * (y
        - z)) by (nonlinear_arith);
}

/// The inequalities that keep a divergence from being negative.
pub open spec fn convex(f: Functions) -> bool {
    &&& log_is_below(f)
    &&& log_grows(f)
    &&& log_divides(f)
    &&& exp_is_above(f)
    &&& softplus_is_above(f)
    &&& lgamma_is_above(f)
    &&& lbeta_is_above(f)
}

proof fn lemma_log_grows(f: Functions, s: real, t: real)
    requires
        convex(f),
        0real < s <= t,
    ensures
        (f.log)(s) <= (f.log)(t),
{
    reveal(log_grows);
}

proof fn lemma_log_divides(f: Functions, s: real, t: real)
    requires
        convex(f),
        0real < s,
        0real < t,
    ensures
        (f.log)(s / t) == (f.log)(s) - (f.log)(t),
        (f.log)(1real) == 0real,
{
    reveal(log_divides);
}

proof fn lemma_exp_above(f: Functions, t: real)
    requires
        convex(f),
    ensures
        (f.exp)(t) >= 1real + t,
{
    reveal(exp_is_above);
}

proof fn lemma_gamma_tangent(f: Functions, s: real, t: real)
    requires
        convex(f),
        0real < s,
        0real < t,
    ensures
        lgamma(f, t) - lgamma(f, s) - (t - s) * digamma(f, s) + (t - s) - t * ((f.log)(t) - (f.log)(
            s,
        )) >= 0real,
{
    reveal(lgamma_is_above);
}

proof fn lemma_gamma_at_one(f: Functions, t: real)
    requires
        convex(f),
        0real < t,
    ensures
        lgamma(f, t + 1real) >= (f.log)(t) - (f.constant)(Scalar::EulerGamma) * (t - 1real),
        (f.constant)(Scalar::MinusOneLessEulerGamma) == -1real - (f.constant)(Scalar::EulerGamma),
{
    reveal(lgamma_is_above);
}

proof fn lemma_softplus_tangent(f: Functions, s: real, t: real)
    requires
        convex(f),
    ensures
        (f.softplus)(t) >= (f.softplus)(s) + (f.sigmoid)(s) * (t - s),
        0real < (f.sigmoid)(s) < 1real,
        (f.softplus)(-s) == (f.softplus)(s) - s,
        (f.softplus)(-t) == (f.softplus)(t) - t,
{
    reveal(softplus_is_above);
}

/// What a tangent of the logarithm leaves: `t - 1 - ln t`.
proof fn lemma_gap(f: Functions, t: real)
    requires
        convex(f),
        t > 0real,
    ensures
        t - (f.log)(t) - 1real >= 0real,
{
    reveal(log_is_below);
}

proof fn lemma_normal_gap(f: Functions, lp: real, sp: real, lq: real, sq: real)
    requires
        convex(f),
        sp > 0real,
        sq > 0real,
    ensures
        normal(f, lp, sp, lq, sq) >= 0real,
{
    let (r, d) = (sp / sq, (lp - lq) / sq);
    lemma_positive_quotient(sp, sq);
    assert(r * r > 0real) by (nonlinear_arith)
        requires
            r > 0real,
    ;
    assert(d * d >= 0real) by (nonlinear_arith);
    lemma_gap(f, r * r);
    let g = square(r) + square(d) - (f.log)(square(r)) - 1real;
    assert(g >= 0real);
    assert(g * half() >= 0real) by (nonlinear_arith)
        requires
            g >= 0real,
            half() == 1real / 2real,
    ;
}

proof fn lemma_cauchy_gap(f: Functions, lp: real, sp: real, lq: real, sq: real)
    requires
        convex(f),
        sp > 0real,
        sq > 0real,
    ensures
        cauchy(f, lp, sp, lq, sq) >= 0real,
{
    let d = lp - lq;
    assert(sp * sq * 4real > 0real) by (nonlinear_arith)
        requires
            sp > 0real,
            sq > 0real,
    ;
    assert((sp + sq) * (sp + sq) - sp * sq * 4real == (sp - sq) * (sp - sq)) by (nonlinear_arith);
    let e = sp - sq;
    assert(e * e >= 0real && d * d >= 0real) by (nonlinear_arith);
    assert(square(sp + sq) + square(d) >= sp * sq * 4real);
    lemma_log_grows(f, sp * sq * 4real, square(sp + sq) + square(d));
}

proof fn lemma_laplace_gap(f: Functions, lp: real, sp: real, lq: real, sq: real)
    requires
        convex(f),
        sp > 0real,
        sq > 0real,
    ensures
        laplace(f, lp, sp, lq, sq) >= 0real,
{
    let gap = magnitude(lp - lq);
    let (i, j) = (1real / sp, 1real / sq);
    let r = sp / sq;
    lemma_positive_quotient(sp, sq);
    lemma_gap(f, r);
    lemma_over(gap, sp);
    lemma_over(gap, sq);
    lemma_over(sp, sq);
    algebra::lemma_inverse(sp);
    let e = (f.exp)(-(gap / sp));
    lemma_exp_above(f, -(gap / sp));
    assert(r * e >= r * (1real - gap * i)) by (nonlinear_arith)
        requires
            e >= 1real - gap * i,
            r > 0real,
    ;
    algebra::lemma_times(r, 1real - gap * i, sp * j, 1real - gap * i);
    lemma_vanishes(gap * j, sp * i - 1real);
    assert(sp * j * (1real - gap * i) == sp * j - gap * j - gap * j * (sp * i - 1real))
        by (nonlinear_arith);
}

proof fn lemma_gumbel_gap(f: Functions, lp: real, sp: real, lq: real, sq: real)
    requires
        convex(f),
        sp > 0real,
        sq > 0real,
    ensures
        gumbel(f, lp, sp, lq, sq) >= 0real,
{
    let euler = (f.constant)(Scalar::EulerGamma);
    let r = sp / sq;
    lemma_positive_quotient(sp, sq);
    let t = lq / sq + lgamma(f, r + 1real) - lp / sq;
    lemma_exp_above(f, t);
    lemma_gamma_at_one(f, r);
    assert(euler * (r - 1real) == r * euler - euler) by (nonlinear_arith);
}

proof fn lemma_gamma_gap(f: Functions, cp: real, rp: real, cq: real, rq: real)
    requires
        convex(f),
        cp > 0real,
        rp > 0real,
        cq > 0real,
        rq > 0real,
    ensures
        gamma(f, cp, rp, cq, rq) >= 0real,
{
    let (i, j) = (1real / rp, 1real / cq);
    let (lp, lq) = ((f.log)(rp), (f.log)(rq));
    let (kp, kq) = ((f.log)(cp), (f.log)(cq));
    let d = digamma(f, cp);
    lemma_log_divides(f, rp, rq);
    algebra::lemma_times(cq, (f.log)(rp / rq), cq, lp - lq);
    let t = rq / rp;
    lemma_positive_quotient(rq, rp);
    lemma_positive_quotient(cp, cq);
    // The tangent of the logarithm at the ratio of the two means.
    let w = t * (cp / cq);
    assert(w > 0real) by (nonlinear_arith)
        requires
            w == t * (cp / cq),
            t > 0real,
            cp / cq > 0real,
    ;
    lemma_gap(f, w);
    lemma_log_divides(f, rq, rp);
    lemma_log_divides(f, cp, cq);
    let v = 1real / (cp / cq);
    lemma_positive_quotient(1real, cp / cq);
    lemma_log_divides(f, t, v);
    lemma_log_divides(f, 1real, cp / cq);
    algebra::lemma_inverse(cp / cq);
    algebra::lemma_only_inverse(v, cp / cq);
    lemma_over(t, v);
    assert(t / v == w);
    let g = w - (f.log)(w) - 1real;
    assert(g == w - (lq - lp) - (kp - kq) - 1real);
    assert(cq * g >= 0real) by (nonlinear_arith)
        requires
            g >= 0real,
            cq > 0real,
    ;
    // `cq w` is `cp t`.
    lemma_over(cp, cq);
    algebra::lemma_inverse(cq);
    algebra::lemma_times(t, cp / cq, t, cp * j);
    lemma_vanishes(t * cp, cq * j - 1real);
    assert(cq * (t * (cp * j)) - t * cp == t * cp * (cq * j - 1real)) by (nonlinear_arith);
    algebra::lemma_times(cq, w, cq, t * (cp * j));
    assert(cq * g == cq * w - cq * (lq - lp) - cq * (kp - kq) - cq) by (nonlinear_arith)
        requires
            g == w - (lq - lp) - (kp - kq) - 1real,
    ;
    lemma_over(rq, rp);
    lemma_over(cp, rp);
    algebra::lemma_inverse(rp);
    algebra::lemma_times(rq - rp, cp / rp, rq - rp, cp * i);
    algebra::lemma_times(t, cp, rq * i, cp);
    lemma_vanishes(cp, rp * i - 1real);
    assert((rq - rp) * (cp * i) == rq * i * cp - cp - cp * (rp * i - 1real)) by (nonlinear_arith);
    let tangent = lgamma(f, cq) - lgamma(f, cp) - (cq - cp) * d + (cq - cp) - cq * (kq - kp);
    lemma_gamma_tangent(f, cp, cq);
    assert((cp - cq) * d == -((cq - cp) * d)) by (nonlinear_arith);
    assert(cq * (kp - kq) == -(cq * (kq - kp))) by (nonlinear_arith);
    assert(cq * (lp - lq) == -(cq * (lq - lp))) by (nonlinear_arith);
}

proof fn lemma_logit_gap(f: Functions, a: real, b: real)
    requires
        convex(f),
    ensures
        (f.softplus)(b) - (f.softplus)(a) - (f.sigmoid)(a) * (b - a) >= 0real,
        bernoulli(f, a, b) >= 0real,
        geometric(f, a, b) >= 0real,
{
    let p = (f.sigmoid)(a);
    let (sa, sb) = ((f.softplus)(a), (f.softplus)(b));
    let gap = sb - sa - p * (b - a);
    lemma_softplus_tangent(f, a, b);
    algebra::lemma_times(p, (f.softplus)(-a) - (f.softplus)(-b), p, (sa - a) - (sb - b));
    assert(-(p * ((sa - a) - (sb - b)) + (1real - p) * (sa - sb)) == sb - sa - p * (b - a))
        by (nonlinear_arith);
    let i = 1real / p;
    algebra::lemma_inverse(p);
    lemma_over(sa - p * a, p);
    lemma_over(sb, p);
    lemma_positive_quotient(1real, p);
    assert(gap * i >= 0real) by (nonlinear_arith)
        requires
            gap >= 0real,
            i > 0real,
    ;
    lemma_vanishes(b, p * i - 1real);
    assert(-((sa - p * a) * i) + sb * i - b - (sb - sa - p * (b - a)) * i == b * (p * i - 1real))
        by (nonlinear_arith);
    algebra::lemma_times(gap, i, sb - sa - p * (b - a), i);
}

/// A divergence is never negative, wherever the parameters of both are proper and the first
/// support is inside the second.
pub proof fn law_divergence_is_not_negative(f: Functions, kind: Kind, pa: real, pb: real, qa: real, qb: real)
    requires
        convex(f),
        proper(kind, pa, pb),
        proper(kind, qa, qb),
        inside(kind, pa, pb, qa, qb),
    ensures
        divergence(f, kind, pa, pb, qa, qb) >= 0real,
{
    match kind {
        Kind::Normal | Kind::LogNormal => lemma_normal_gap(f, pa, pb, qa, qb),
        Kind::HalfNormal => lemma_normal_gap(f, 0real, pa, 0real, qa),
        Kind::Uniform => {
            let (n, d) = (qb - qa, pb - pa);
            lemma_log_divides(f, n, d);
            lemma_log_grows(f, d, n);
        },
        Kind::Exponential => {
            lemma_positive_quotient(qa, pa);
            lemma_gap(f, qa / pa);
        },
        Kind::Laplace => lemma_laplace_gap(f, pa, pb, qa, qb),
        Kind::Cauchy => lemma_cauchy_gap(f, pa, pb, qa, qb),
        Kind::HalfCauchy => lemma_cauchy_gap(f, 0real, pa, 0real, qa),
        Kind::Gumbel => lemma_gumbel_gap(f, pa, pb, qa, qb),
        Kind::Pareto => {
            lemma_positive_quotient(qb, pb);
            lemma_gap(f, qb / pb);
            let l = (f.log)(pa / qa);
            lemma_log_divides(f, pa, qa);
            lemma_log_grows(f, qa, pa);
            assert(qb * l >= 0real) by (nonlinear_arith)
                requires
                    qb > 0real,
                    l >= 0real,
            ;
        },
        Kind::Gamma | Kind::InverseGamma => lemma_gamma_gap(f, pa, pb, qa, qb),
        Kind::Beta => lemma_beta_gap(f, pa, pb, qa, qb),
        Kind::Bernoulli | Kind::Geometric => lemma_logit_gap(f, pa, qa),
        Kind::Poisson => {
            lemma_positive_quotient(qa, pa);
            lemma_gap(f, qa / pa);
            lemma_log_divides(f, qa, pa);
            let g = qa / pa - (f.log)(qa / pa) - 1real;
            let i = 1real / pa;
            lemma_over(qa, pa);
            algebra::lemma_inverse(pa);
            lemma_vanishes(qa, pa * i - 1real);
            assert(pa * g >= 0real) by (nonlinear_arith)
                requires
                    g >= 0real,
                    pa > 0real,
            ;
            let (lp, lq) = ((f.log)(pa), (f.log)(qa));
            algebra::lemma_times(pa, g, pa, qa * i - (lq - lp) - 1real);
            assert(pa * (qa * i - (lq - lp) - 1real) == pa * (lp - lq) - pa + qa + qa * (pa * i - 1real))
                by (nonlinear_arith);
        },
        _ => {},
    }
}

} // verus!
