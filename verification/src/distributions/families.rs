//! The formulas of the scalar families: densities, distribution functions, quantiles and
//! summaries.
//!
//! Each is given twice: as mathematics, and as the tree an executor evaluates, whose
//! meaning is proved to be the mathematics. The parameters are those of the family, in
//! the order of its slots; a quantile reads its probability from the value.

use vstd::prelude::*;

use super::compound;
use super::densities;
use super::entropies;
use super::formula;
use super::formula::{
    Calculus, Call, Formula, Named, Pair, Point, Slot, at_most, below, both, branch, call, clamp,
    less, minus, named, over, pair, plus, ratio, slot, times, whole,
};
use super::quantiles;
use super::slopes;
use super::univariate;
use super::univariate::Kind;

verus! {

/// The mean of a continuous Bernoulli with logit `t`. Near zero, where the two parts of
/// the closed form cancel, its series stands in.
pub open spec fn bernoulli_mean_at(m: Calculus, t: real) -> real {
    if (2real / 100real) < formula::magnitude(t) {
        1real / (-(m.expm1)(-t)) - 1real / t
    } else {
        (1real / 2real) + t * (1real / 12real - t * t / 720real)
    }
}

/// The logarithm of the normaliser of a continuous Bernoulli with logit `t`. Near an even
/// chance, where the closed form has a removable singularity, its series stands in.
pub open spec fn log_norm_at(m: Calculus, t: real) -> real {
    let q = 1real / (1real + (m.exp)(-t));
    let d = q - (1real / 2real);
    let d2 = d * d;
    if (1real / 1000real) < formula::magnitude(d) {
        (m.ln)(formula::magnitude((m.ln)(1real - q) - (m.ln)(q)))
            - (m.ln)(formula::magnitude(1real - 2real * q))
    } else {
        m.ln_two + (4real / 3real + 104real / 45real * d2) * d2
    }
}

/// The mean of a continuous Bernoulli.
pub fn cont_bernoulli_mean(t: Formula) -> (r: Formula)
    ensures
        forall|m: Calculus, p: Point| #[trigger]
            formula::meaning(m, r, p) == bernoulli_mean_at(m, formula::meaning(m, t, p)),
{
    branch(
        below(ratio(2, 100), call(Call::Abs, t.clone())),
        less(over(whole(1), minus(call(Call::Expm1, minus(t.clone())))), over(whole(1), t.clone())),
        plus(
            ratio(1, 2),
            times(
                t.clone(),
                less(over(whole(1), whole(12)), over(times(t.clone(), t.clone()), whole(720))),
            ),
        ),
    )
}

/// The logarithm of the normaliser of a continuous Bernoulli.
pub fn cont_bernoulli_log_norm(t: Formula) -> (r: Formula)
    ensures
        forall|m: Calculus, p: Point| #[trigger]
            formula::meaning(m, r, p) == log_norm_at(m, formula::meaning(m, t, p)),
{
    let q = over(whole(1), plus(whole(1), call(Call::Exp, minus(t.clone()))));
    let d = less(q.clone(), ratio(1, 2));
    let d2 = times(d.clone(), d.clone());
    branch(
        below(ratio(1, 1000), call(Call::Abs, d.clone())),
        less(
            call(
                Call::Ln,
                call(
                    Call::Abs,
                    less(call(Call::Ln, less(whole(1), q.clone())), call(Call::Ln, q.clone())),
                ),
            ),
            call(Call::Ln, call(Call::Abs, less(whole(1), times(whole(2), q.clone())))),
        ),
        plus(
            named(Named::LnTwo),
            times(
                plus(over(whole(4), whole(3)), times(over(whole(104), whole(45)), d2.clone())),
                d2.clone(),
            ),
        ),
    )
}

/// The log-density, or log-mass, at the value.
pub open spec fn log_density(m: Calculus, kind: Kind, p: Point) -> real {
    match kind {
        Kind::Normal => {
            let z = (p.x - p.a) / p.b;
            ((-1real) / 2real) * z * z - (m.ln)(p.b) - m.half_ln_two_pi
        },
        Kind::Uniform => if p.a <= p.x && p.x < p.b { -(m.ln)(p.b - p.a) } else { -m.inf },
        Kind::Exponential => (m.ln)(p.a) - p.a * p.x,
        Kind::Laplace => (-(m.ln)(2real * p.b)) - formula::magnitude(p.x - p.a) / p.b,
        Kind::Cauchy => {
            let z = (p.x - p.a) / p.b;
            (-(m.ln)(m.pi)) - (m.ln)(p.b) - (m.log1p)(z * z)
        },
        Kind::Gumbel => {
            let z = (p.x - p.a) / p.b;
            (-(z + (m.exp)(-z))) - (m.ln)(p.b)
        },
        Kind::HalfNormal => {
            let z = p.x / p.a;
            if 0real <= p.x {
                ((-1real) / 2real) * z * z - (m.ln)(p.a) - m.half_ln_two_pi + m.ln_two
            } else {
                -m.inf
            }
        },
        Kind::HalfCauchy => {
            let z = p.x / p.a;
            if 0real <= p.x {
                m.ln_two - (m.ln)(m.pi) - (m.ln)(p.a) - (m.log1p)(z * z)
            } else {
                -m.inf
            }
        },
        Kind::LogNormal => {
            let l = (m.ln)(p.x);
            let z = (l - p.a) / p.b;
            ((-1real) / 2real) * z * z - (m.ln)(p.b) - m.half_ln_two_pi - l
        },
        Kind::Pareto => (m.ln)(p.b) + p.b * (m.ln)(p.a) - (p.b + 1real) * (m.ln)(p.x),
        Kind::Weibull => {
            let z = p.x / p.a;
            (m.ln)(p.b) - (m.ln)(p.a) + (p.b - 1real) * (m.ln)(z) - (m.pow)(z, p.b)
        },
        Kind::Kumaraswamy => {
            (m.ln)(p.a) + (m.ln)(p.b) + (p.a - 1real) * (m.ln)(p.x)
                + (m.xlog1py)(p.b - 1real, -(m.pow)(p.x, p.a))
        },
        Kind::Gamma => {
            (m.xlogy)(p.a, p.b) + (p.a - 1real) * (m.ln)(p.x) - p.b * p.x - (m.lgamma)(p.a)
        },
        Kind::InverseGamma => {
            p.a * (m.ln)(p.b) - (m.lgamma)(p.a) - (p.a + 1real) * (m.ln)(p.x) - p.b / p.x
        },
        Kind::Beta => {
            (m.xlogy)(p.a - 1real, p.x) + (m.xlog1py)(p.b - 1real, -p.x) - (m.lbeta)(p.a, p.b)
        },
        Kind::StudentT => {
            let z = (p.x - p.b) / p.c;
            let half = (1real / 2real) * p.a;
            (m.lgamma)(half + (1real / 2real)) - (m.lgamma)(half)
                - (1real / 2real) * (m.ln)(p.a * m.pi) - (m.ln)(p.c)
                - (half + (1real / 2real)) * (m.log1p)(z * z / p.a)
        },
        Kind::FisherSnedecor => {
            let h1 = (1real / 2real) * p.a;
            let h2 = (1real / 2real) * p.b;
            let ratio_ab = p.a / p.b;
            (m.lgamma)(h1 + h2) - (m.lgamma)(h1) - (m.lgamma)(h2) + h1 * (m.ln)(ratio_ab)
                + (h1 - 1real) * (m.ln)(p.x) - (h1 + h2) * (m.log1p)(ratio_ab * p.x)
        },
        Kind::VonMises => p.b * (m.cos)(p.x - p.a) - (m.ln)(2real * m.pi) - (m.log_i0)(p.b),
        Kind::ContinuousBernoulli => p.x * p.a - (m.softplus)(p.a) + log_norm_at(m, p.a),
        Kind::Bernoulli => p.x * p.a - (m.softplus)(p.a),
        Kind::Geometric => p.x * (m.log_sigmoid)(-p.a) + (m.log_sigmoid)(p.a),
        Kind::Poisson => (m.xlogy)(p.x, p.a) - p.a - (m.lgamma)(p.x + 1real),
        Kind::Binomial => (m.log_binom)(p.a, p.x) + p.x * p.b - p.a * (m.softplus)(p.b),
        Kind::NegativeBinomial => {
            p.a * (m.log_sigmoid)(-p.b) + p.x * (m.log_sigmoid)(p.b) + (m.lgamma)(p.a + p.x)
                - (m.lgamma)(1real + p.x) - (m.lgamma)(p.a)
        },
        Kind::LogitRelaxedBernoulli => {
            let diff = p.b - p.x * p.a;
            (m.ln)(p.a) + diff - 2real * (m.softplus)(diff)
        },
        Kind::RelaxedBernoulli => {
            let y = (m.ln)(p.x) - (m.log1p)(-p.x);
            let diff = p.b - y * p.a;
            (m.ln)(p.a) + diff - 2real * (m.softplus)(diff) - (m.ln)(p.x) - (m.log1p)(-p.x)
        },
    }
}

/// The log-density, or log-mass, at the value. Where [`densities::regular`] holds, the slopes
/// of the formula, taken by the rules of calculus, are the score; that in the value of a
/// continuous Bernoulli is so everywhere.
pub fn log_prob_of(kind: Kind) -> (r: Formula)
    ensures
        forall|m: Calculus, p: Point| #[trigger]
            formula::meaning(m, r, p) == log_density(m, kind, p),
        forall|m: Calculus, p: Point|
            densities::proper(m) && densities::regular(m, kind, p) ==> #[trigger]
                densities::slopes_at(m, r, p) == slopes::score(m, kind, p),
        kind is ContinuousBernoulli ==> forall|m: Calculus, p: Point| #[trigger]
            formula::slope(m, r, p, Slot::X) == slopes::score(m, kind, p).dx,
{
    match kind {
        Kind::Normal => densities::normal(),
        Kind::Uniform => densities::uniform(),
        Kind::Exponential => densities::exponential(),
        Kind::Laplace => densities::laplace(),
        Kind::Cauchy => densities::cauchy(),
        Kind::Gumbel => densities::gumbel(),
        Kind::HalfNormal => densities::half_normal(),
        Kind::HalfCauchy => densities::half_cauchy(),
        Kind::LogNormal => densities::log_normal(),
        Kind::Pareto => densities::pareto(),
        Kind::Weibull => compound::weibull(),
        Kind::Kumaraswamy => compound::kumaraswamy(),
        Kind::Gamma => densities::gamma(),
        Kind::InverseGamma => densities::inverse_gamma(),
        Kind::Beta => densities::beta(),
        Kind::StudentT => compound::student_t(),
        Kind::FisherSnedecor => compound::fisher_snedecor(),
        Kind::VonMises => densities::von_mises(),
        Kind::ContinuousBernoulli => compound::continuous_bernoulli(),
        Kind::Bernoulli => densities::bernoulli(),
        Kind::Geometric => densities::geometric(),
        Kind::Poisson => densities::poisson(),
        Kind::Binomial => densities::binomial(),
        Kind::NegativeBinomial => densities::negative_binomial(),
        Kind::LogitRelaxedBernoulli => densities::logit_relaxed_bernoulli(),
        Kind::RelaxedBernoulli => compound::relaxed_bernoulli(),
    }
}

/// The distribution function at the value; undefined where there is no closed form.
pub open spec fn distribution(m: Calculus, kind: Kind, p: Point) -> real {
    match kind {
        Kind::Normal => (m.ndtr)((p.x - p.a) / p.b),
        Kind::Uniform => formula::clamped((p.x - p.a) / (p.b - p.a), 0real, 1real),
        Kind::Exponential => -(m.expm1)((-p.a) * p.x),
        Kind::Laplace => {
            let z = (p.x - p.a) / p.b;
            (1real / 2real)
                - (1real / 2real) * formula::sign(z) * (m.expm1)(-formula::magnitude(z))
        },
        Kind::Cauchy => (m.atan)((p.x - p.a) / p.b) / m.pi + (1real / 2real),
        Kind::Gumbel => (m.exp)(-(m.exp)((-(p.x - p.a)) / p.b)),
        Kind::HalfNormal => if 0real < p.x { (m.erf)(p.x / (p.a * m.sqrt_two)) } else { 0real },
        Kind::HalfCauchy => if 0real < p.x { 2real / m.pi * (m.atan)(p.x / p.a) } else { 0real },
        Kind::LogNormal => if 0real < p.x { (m.ndtr)(((m.ln)(p.x) - p.a) / p.b) } else { 0real },
        Kind::Pareto => if p.a < p.x {
            -(m.expm1)(p.b * ((m.ln)(p.a) - (m.ln)(p.x)))
        } else {
            0real
        },
        Kind::Weibull => if 0real < p.x { -(m.expm1)(-(m.pow)(p.x / p.a, p.b)) } else { 0real },
        Kind::Kumaraswamy => if 0real < p.x {
            -(m.expm1)(p.b * (m.log1p)(-(m.pow)(p.x, p.a)))
        } else {
            0real
        },
        Kind::Gamma => (m.gammainc)(p.a, p.b * p.x),
        Kind::InverseGamma => if 0real < p.x {
            1real - (m.gammainc)(p.a, p.b / p.x)
        } else {
            0real
        },
        Kind::ContinuousBernoulli => {
            let p1 = 1real / (1real + (m.exp)(-p.a));
            let t = formula::clamped(p.x, 0real, 1real);
            formula::clamped(
                if (1real / 1000real) < formula::magnitude(p1 - (1real / 2real)) {
                    ((m.pow)(p1, t) * (m.pow)(1real - p1, 1real - t) + p1 - 1real)
                        / (2real * p1 - 1real)
                } else {
                    t
                },
                0real,
                1real,
            )
        },
        Kind::Bernoulli => if p.x < 0real {
            0real
        } else {
            if p.x < 1real { 1real / (1real + (m.exp)(p.a)) } else { 1real }
        },
        Kind::Geometric => if 0real <= p.x {
            -(m.expm1)(((m.floor)(p.x) + 1real) * (m.log_sigmoid)(-p.a))
        } else {
            0real
        },
        Kind::Poisson => if 0real <= p.x {
            1real - (m.gammainc)((m.floor)(p.x) + 1real, p.a)
        } else {
            0real
        },
        _ => m.nan,
    }
}

/// The distribution function at the value; undefined where there is no closed form.
pub fn cdf_of(kind: Kind) -> (r: Formula)
    ensures
        forall|m: Calculus, p: Point| #[trigger] formula::meaning(m, r, p) == distribution(m, kind, p),
{
    match kind {
        Kind::Normal => call(Call::Ndtr, over(less(slot(Slot::X), slot(Slot::A)), slot(Slot::B))),
        Kind::Uniform => clamp(
            over(less(slot(Slot::X), slot(Slot::A)), less(slot(Slot::B), slot(Slot::A))),
            whole(0),
            whole(1),
        ),
        Kind::Exponential => minus(call(Call::Expm1, times(minus(slot(Slot::A)), slot(Slot::X)))),
        Kind::Laplace => {
            let z = over(less(slot(Slot::X), slot(Slot::A)), slot(Slot::B));
            less(
                ratio(1, 2),
                times(
                    times(ratio(1, 2), call(Call::Sign, z.clone())),
                    call(Call::Expm1, minus(call(Call::Abs, z.clone()))),
                ),
            )
        },
        Kind::Cauchy => plus(
            over(
                call(Call::Atan, over(less(slot(Slot::X), slot(Slot::A)), slot(Slot::B))),
                named(Named::Pi),
            ),
            ratio(1, 2),
        ),
        Kind::Gumbel => call(
            Call::Exp,
            minus(call(Call::Exp, over(minus(less(slot(Slot::X), slot(Slot::A))), slot(Slot::B)))),
        ),
        Kind::HalfNormal => branch(
            below(whole(0), slot(Slot::X)),
            call(Call::Erf, over(slot(Slot::X), times(slot(Slot::A), named(Named::SqrtTwo)))),
            whole(0),
        ),
        Kind::HalfCauchy => branch(
            below(whole(0), slot(Slot::X)),
            times(
                over(whole(2), named(Named::Pi)),
                call(Call::Atan, over(slot(Slot::X), slot(Slot::A))),
            ),
            whole(0),
        ),
        Kind::LogNormal => branch(
            below(whole(0), slot(Slot::X)),
            call(
                Call::Ndtr,
                over(less(call(Call::Ln, slot(Slot::X)), slot(Slot::A)), slot(Slot::B)),
            ),
            whole(0),
        ),
        Kind::Pareto => branch(
            below(slot(Slot::A), slot(Slot::X)),
            minus(
                call(
                    Call::Expm1,
                    times(
                        slot(Slot::B),
                        less(call(Call::Ln, slot(Slot::A)), call(Call::Ln, slot(Slot::X))),
                    ),
                ),
            ),
            whole(0),
        ),
        Kind::Weibull => branch(
            below(whole(0), slot(Slot::X)),
            minus(
                call(
                    Call::Expm1,
                    minus(pair(Pair::Pow, over(slot(Slot::X), slot(Slot::A)), slot(Slot::B))),
                ),
            ),
            whole(0),
        ),
        Kind::Kumaraswamy => branch(
            below(whole(0), slot(Slot::X)),
            minus(
                call(
                    Call::Expm1,
                    times(
                        slot(Slot::B),
                        call(Call::Log1p, minus(pair(Pair::Pow, slot(Slot::X), slot(Slot::A)))),
                    ),
                ),
            ),
            whole(0),
        ),
        Kind::Gamma => pair(Pair::Gammainc, slot(Slot::A), times(slot(Slot::B), slot(Slot::X))),
        Kind::InverseGamma => branch(
            below(whole(0), slot(Slot::X)),
            less(whole(1), pair(Pair::Gammainc, slot(Slot::A), over(slot(Slot::B), slot(Slot::X)))),
            whole(0),
        ),
        Kind::ContinuousBernoulli => {
            let p1 = over(whole(1), plus(whole(1), call(Call::Exp, minus(slot(Slot::A)))));
            let t = clamp(slot(Slot::X), whole(0), whole(1));
            clamp(
                branch(
                    below(ratio(1, 1000), call(Call::Abs, less(p1.clone(), ratio(1, 2)))),
                    over(
                        less(
                            plus(
                                times(
                                    pair(Pair::Pow, p1.clone(), t.clone()),
                                    pair(
                                        Pair::Pow,
                                        less(whole(1), p1.clone()),
                                        less(whole(1), t.clone()),
                                    ),
                                ),
                                p1.clone(),
                            ),
                            whole(1),
                        ),
                        less(times(whole(2), p1.clone()), whole(1)),
                    ),
                    t.clone(),
                ),
                whole(0),
                whole(1),
            )
        },
        Kind::Bernoulli => branch(
            below(slot(Slot::X), whole(0)),
            whole(0),
            branch(
                below(slot(Slot::X), whole(1)),
                over(whole(1), plus(whole(1), call(Call::Exp, slot(Slot::A)))),
                whole(1),
            ),
        ),
        Kind::Geometric => branch(
            at_most(whole(0), slot(Slot::X)),
            minus(
                call(
                    Call::Expm1,
                    times(
                        plus(call(Call::Floor, slot(Slot::X)), whole(1)),
                        call(Call::LogSigmoid, minus(slot(Slot::A))),
                    ),
                ),
            ),
            whole(0),
        ),
        Kind::Poisson => branch(
            at_most(whole(0), slot(Slot::X)),
            less(
                whole(1),
                pair(
                    Pair::Gammainc,
                    plus(call(Call::Floor, slot(Slot::X)), whole(1)),
                    slot(Slot::A),
                ),
            ),
            whole(0),
        ),
        _ => named(Named::Nan),
    }
}

/// The quantile of a family that has a closed form, and zero for one that has none.
pub open spec fn inverse(m: Calculus, kind: Kind, p: Point) -> real {
    match kind {
        Kind::Normal => p.a + p.b * (m.ndtri)(p.x),
        Kind::Uniform => p.a + p.x * (p.b - p.a),
        Kind::Exponential => (-(m.log1p)(-p.x)) / p.a,
        Kind::Laplace => {
            let d = p.x - (1real / 2real);
            p.a - p.b * formula::sign(d) * (m.log1p)((-2real) * formula::magnitude(d))
        },
        Kind::Cauchy => p.a + p.b * (m.tan)(m.pi * (p.x - (1real / 2real))),
        Kind::Gumbel => p.a - p.b * (m.ln)(-(m.ln)(p.x)),
        Kind::HalfNormal => p.a * m.sqrt_two * (m.erfinv)(p.x),
        Kind::HalfCauchy => p.a * (m.tan)((1real / 2real) * m.pi * p.x),
        Kind::LogNormal => (m.exp)(p.a + p.b * (m.ndtri)(p.x)),
        Kind::Pareto => p.a * (m.exp)((-(m.log1p)(-p.x)) / p.b),
        Kind::Weibull => p.a * (m.pow)(-(m.log1p)(-p.x), 1real / p.b),
        Kind::Kumaraswamy => (m.pow)(-(m.expm1)((m.log1p)(-p.x) / p.b), 1real / p.a),
        Kind::ContinuousBernoulli => {
            let p1 = 1real / (1real + (m.exp)(-p.a));
            let r = 1real - p1;
            formula::clamped(
                if (1real / 1000real) < formula::magnitude(p1 - (1real / 2real)) {
                    (m.log1p)(p.x * (2real * p1 - 1real) / r) / ((m.ln)(p1) - (m.ln)(r))
                } else {
                    p.x
                },
                0real,
                1real,
            )
        },
        Kind::Bernoulli => if 1real / (1real + (m.exp)(p.a)) < p.x { 1real } else { 0real },
        Kind::Geometric => (m.floor)((m.log1p)(-p.x) / (m.log_sigmoid)(-p.a)),
        _ => 0real,
    }
}

/// The quantile of a family that has a closed form, and zero for one that has none. Where
/// [`quantiles::invertible`] holds, the slopes of the formula, taken by the rules of calculus,
/// are those of its adjoint.
pub fn closed_form_icdf_of(kind: Kind) -> (r: Formula)
    ensures
        forall|m: Calculus, p: Point| #[trigger] formula::meaning(m, r, p) == inverse(m, kind, p),
        forall|m: Calculus, p: Point|
            densities::proper(m) && quantiles::invertible(m, kind, p) ==> #[trigger]
                densities::slopes_at(m, r, p) == slopes::inverse_slopes(m, kind, p),
{
    match kind {
        Kind::Normal => quantiles::normal(),
        Kind::Uniform => quantiles::uniform(),
        Kind::Exponential => quantiles::exponential(),
        Kind::Laplace => quantiles::laplace(),
        Kind::Cauchy => quantiles::cauchy(),
        Kind::Gumbel => quantiles::gumbel(),
        Kind::HalfNormal => quantiles::half_normal(),
        Kind::HalfCauchy => quantiles::half_cauchy(),
        Kind::LogNormal => quantiles::log_normal(),
        Kind::Pareto => quantiles::pareto(),
        Kind::Weibull => compound::weibull_quantile(),
        Kind::Kumaraswamy => compound::kumaraswamy_quantile(),
        Kind::ContinuousBernoulli => {
            let p1 = over(whole(1), plus(whole(1), call(Call::Exp, minus(slot(Slot::A)))));
            let r = less(whole(1), p1.clone());
            clamp(
                branch(
                    below(ratio(1, 1000), call(Call::Abs, less(p1.clone(), ratio(1, 2)))),
                    over(
                        call(
                            Call::Log1p,
                            over(
                                times(slot(Slot::X), less(times(whole(2), p1.clone()), whole(1))),
                                r.clone(),
                            ),
                        ),
                        less(call(Call::Ln, p1.clone()), call(Call::Ln, r.clone())),
                    ),
                    slot(Slot::X),
                ),
                whole(0),
                whole(1),
            )
        },
        Kind::Bernoulli => branch(
            below(over(whole(1), plus(whole(1), call(Call::Exp, slot(Slot::A)))), slot(Slot::X)),
            whole(1),
            whole(0),
        ),
        Kind::Geometric => call(
            Call::Floor,
            over(
                call(Call::Log1p, minus(slot(Slot::X))),
                call(Call::LogSigmoid, minus(slot(Slot::A))),
            ),
        ),
        _ => whole(0),
    }
}

/// The entropy; undefined where there is no closed form.
pub open spec fn entropy(m: Calculus, kind: Kind, p: Point) -> real {
    match kind {
        Kind::Normal => (m.ln)(p.b) + m.half_ln_two_pi + (1real / 2real),
        Kind::Uniform => (m.ln)(p.b - p.a),
        Kind::Exponential => 1real - (m.ln)(p.a),
        Kind::Laplace => 1real + (m.ln)(2real * p.b),
        Kind::Cauchy => (m.ln)(4real * m.pi * p.b),
        Kind::Gumbel => (m.ln)(p.b) + 1real + m.euler_gamma,
        Kind::HalfNormal => (m.ln)(p.a) + m.half_ln_two_pi + (1real / 2real) - m.ln_two,
        Kind::HalfCauchy => (m.ln)(2real * m.pi * p.a),
        Kind::LogNormal => p.a + (m.ln)(p.b) + m.half_ln_two_pi + (1real / 2real),
        Kind::Pareto => (m.ln)(p.a / p.b) + 1real + 1real / p.b,
        Kind::Weibull => m.euler_gamma * (1real - 1real / p.b) + (m.ln)(p.a / p.b) + 1real,
        Kind::Kumaraswamy => {
            let harmonic = m.euler_gamma + (m.digamma)(p.b + 1real);
            1real - 1real / p.b + (1real - 1real / p.a) * harmonic - (m.ln)(p.a) - (m.ln)(p.b)
        },
        Kind::Gamma => p.a - (m.ln)(p.b) + (m.lgamma)(p.a) + (1real - p.a) * (m.digamma)(p.a),
        Kind::InverseGamma => {
            p.a + (m.ln)(p.b) + (m.lgamma)(p.a) - (1real + p.a) * (m.digamma)(p.a)
        },
        Kind::Beta => {
            (m.lbeta)(p.a, p.b) - (p.a - 1real) * (m.digamma)(p.a)
                - (p.b - 1real) * (m.digamma)(p.b) + (p.a + p.b - 2real) * (m.digamma)(p.a + p.b)
        },
        Kind::StudentT => {
            let half = (1real / 2real) * p.a;
            (half + (1real / 2real)) * ((m.digamma)(half + (1real / 2real)) - (m.digamma)(half))
                + (1real / 2real) * (m.ln)(p.a) + (m.lbeta)(half, (1real / 2real)) + (m.ln)(p.c)
        },
        Kind::VonMises => (m.ln)(2real * m.pi) + (m.log_i0)(p.b) - p.b * (m.bessel_ratio)(p.b),
        Kind::Bernoulli => {
            let p1 = 1real / (1real + (m.exp)(-p.a));
            (m.softplus)(p.a) - p1 * p.a
        },
        Kind::Geometric => {
            let p1 = 1real / (1real + (m.exp)(-p.a));
            ((m.softplus)(p.a) - p1 * p.a) / p1
        },
        _ => m.nan,
    }
}

/// The entropy; undefined where there is no closed form. The slopes of the formula, taken by
/// the rules of calculus, are those of its adjoint.
pub fn entropy_of(kind: Kind) -> (r: Formula)
    ensures
        forall|m: Calculus, p: Point| #[trigger] formula::meaning(m, r, p) == entropy(m, kind, p),
        kind.entropy_exists() ==> forall|m: Calculus, p: Point|
            densities::proper(m) && densities::positive(kind, p) ==> entropies::agree(
                kind,
                #[trigger] densities::slopes_at(m, r, p),
                slopes::entropy_slopes(m, kind, p),
            ),
{
    match kind {
        Kind::Normal => entropies::normal(),
        Kind::Uniform => entropies::uniform(),
        Kind::Exponential => entropies::exponential(),
        Kind::Laplace => entropies::laplace(),
        Kind::Cauchy => entropies::cauchy(),
        Kind::Gumbel => entropies::gumbel(),
        Kind::HalfNormal => entropies::half_normal(),
        Kind::HalfCauchy => entropies::half_cauchy(),
        Kind::LogNormal => entropies::log_normal(),
        Kind::Pareto => compound::pareto_entropy(),
        Kind::Weibull => compound::weibull_entropy(),
        Kind::Kumaraswamy => entropies::kumaraswamy(),
        Kind::Gamma => entropies::gamma(),
        Kind::InverseGamma => entropies::inverse_gamma(),
        Kind::Beta => entropies::beta(),
        Kind::StudentT => entropies::student_t(),
        Kind::VonMises => entropies::von_mises(),
        Kind::Bernoulli => entropies::bernoulli(),
        Kind::Geometric => compound::geometric_entropy(),
        _ => named(Named::Nan),
    }
}

/// The mean; undefined where it does not exist, infinite where it diverges.
pub open spec fn mean(m: Calculus, kind: Kind, p: Point) -> real {
    match kind {
        Kind::Normal => p.a,
        Kind::Uniform => (1real / 2real) * (p.a + p.b),
        Kind::Exponential => 1real / p.a,
        Kind::Laplace => p.a,
        Kind::Gumbel => p.a + p.b * m.euler_gamma,
        Kind::HalfNormal => p.a * (m.sqrt)(2real / m.pi),
        Kind::HalfCauchy => m.inf,
        Kind::LogNormal => (m.exp)(p.a + (1real / 2real) * (p.b * p.b)),
        Kind::Pareto => if 1real < p.b { p.a * p.b / (p.b - 1real) } else { m.inf },
        Kind::Weibull => p.a * (m.exp)((m.lgamma)(1real + 1real / p.b)),
        Kind::Kumaraswamy => (m.exp)((m.ln)(p.b) + (m.lbeta)(1real + 1real / p.a, p.b)),
        Kind::Gamma => p.a / p.b,
        Kind::InverseGamma => if 1real < p.a { p.b / (p.a - 1real) } else { m.inf },
        Kind::Beta => p.a / (p.a + p.b),
        Kind::StudentT => if 1real < p.a { p.b } else { m.nan },
        Kind::FisherSnedecor => if 2real < p.b { p.b / (p.b - 2real) } else { m.nan },
        Kind::VonMises => p.a,
        Kind::ContinuousBernoulli => bernoulli_mean_at(m, p.a),
        Kind::Bernoulli => 1real / (1real + (m.exp)(-p.a)),
        Kind::Geometric => (m.exp)(-p.a),
        Kind::Poisson => p.a,
        Kind::Binomial => p.a * (1real / (1real + (m.exp)(-p.b))),
        Kind::NegativeBinomial => p.a * (m.exp)(p.b),
        _ => m.nan,
    }
}

/// The mean; undefined where it does not exist, infinite where it diverges.
pub fn mean_of(kind: Kind) -> (r: Formula)
    ensures
        forall|m: Calculus, p: Point| #[trigger] formula::meaning(m, r, p) == mean(m, kind, p),
{
    match kind {
        Kind::Normal => slot(Slot::A),
        Kind::Uniform => times(ratio(1, 2), plus(slot(Slot::A), slot(Slot::B))),
        Kind::Exponential => over(whole(1), slot(Slot::A)),
        Kind::Laplace => slot(Slot::A),
        Kind::Gumbel => plus(slot(Slot::A), times(slot(Slot::B), named(Named::EulerGamma))),
        Kind::HalfNormal => times(
            slot(Slot::A),
            call(Call::Sqrt, over(whole(2), named(Named::Pi))),
        ),
        Kind::HalfCauchy => named(Named::Inf),
        Kind::LogNormal => call(
            Call::Exp,
            plus(slot(Slot::A), times(ratio(1, 2), times(slot(Slot::B), slot(Slot::B)))),
        ),
        Kind::Pareto => branch(
            below(whole(1), slot(Slot::B)),
            over(times(slot(Slot::A), slot(Slot::B)), less(slot(Slot::B), whole(1))),
            named(Named::Inf),
        ),
        Kind::Weibull => times(
            slot(Slot::A),
            call(Call::Exp, call(Call::Lgamma, plus(whole(1), over(whole(1), slot(Slot::B))))),
        ),
        Kind::Kumaraswamy => call(
            Call::Exp,
            plus(
                call(Call::Ln, slot(Slot::B)),
                pair(Pair::Lbeta, plus(whole(1), over(whole(1), slot(Slot::A))), slot(Slot::B)),
            ),
        ),
        Kind::Gamma => over(slot(Slot::A), slot(Slot::B)),
        Kind::InverseGamma => branch(
            below(whole(1), slot(Slot::A)),
            over(slot(Slot::B), less(slot(Slot::A), whole(1))),
            named(Named::Inf),
        ),
        Kind::Beta => over(slot(Slot::A), plus(slot(Slot::A), slot(Slot::B))),
        Kind::StudentT => branch(below(whole(1), slot(Slot::A)), slot(Slot::B), named(Named::Nan)),
        Kind::FisherSnedecor => branch(
            below(whole(2), slot(Slot::B)),
            over(slot(Slot::B), less(slot(Slot::B), whole(2))),
            named(Named::Nan),
        ),
        Kind::VonMises => slot(Slot::A),
        Kind::ContinuousBernoulli => cont_bernoulli_mean(slot(Slot::A)),
        Kind::Bernoulli => over(whole(1), plus(whole(1), call(Call::Exp, minus(slot(Slot::A))))),
        Kind::Geometric => call(Call::Exp, minus(slot(Slot::A))),
        Kind::Poisson => slot(Slot::A),
        Kind::Binomial => times(
            slot(Slot::A),
            over(whole(1), plus(whole(1), call(Call::Exp, minus(slot(Slot::B))))),
        ),
        Kind::NegativeBinomial => times(slot(Slot::A), call(Call::Exp, slot(Slot::B))),
        _ => named(Named::Nan),
    }
}

/// The variance; undefined where it does not exist, infinite where it diverges.
pub open spec fn variance(m: Calculus, kind: Kind, p: Point) -> real {
    match kind {
        Kind::Normal => p.b * p.b,
        Kind::Uniform => {
            let width = p.b - p.a;
            width * width / 12real
        },
        Kind::Exponential => 1real / (p.a * p.a),
        Kind::Laplace => 2real * p.b * p.b,
        Kind::Cauchy => m.inf,
        Kind::Gumbel => m.pi * m.pi * p.b * p.b / 6real,
        Kind::HalfNormal => p.a * p.a * (1real - 2real / m.pi),
        Kind::HalfCauchy => m.inf,
        Kind::LogNormal => {
            let square = p.b * p.b;
            (m.expm1)(square) * (m.exp)(2real * p.a + square)
        },
        Kind::Pareto => {
            let d = p.b - 1real;
            if 2real < p.b { p.a * p.a * p.b / (d * d * (p.b - 2real)) } else { m.inf }
        },
        Kind::Weibull => {
            let g1 = (m.exp)((m.lgamma)(1real + 1real / p.b));
            let g2 = (m.exp)((m.lgamma)(1real + 2real / p.b));
            p.a * p.a * (g2 - g1 * g1)
        },
        Kind::Kumaraswamy => {
            let m1 = (m.exp)((m.ln)(p.b) + (m.lbeta)(1real + 1real / p.a, p.b));
            let m2 = (m.exp)((m.ln)(p.b) + (m.lbeta)(1real + 2real / p.a, p.b));
            m2 - m1 * m1
        },
        Kind::Gamma => p.a / (p.b * p.b),
        Kind::InverseGamma => {
            let d = p.a - 1real;
            if 2real < p.a { p.b * p.b / (d * d * (p.a - 2real)) } else { m.inf }
        },
        Kind::Beta => {
            let total = p.a + p.b;
            p.a * p.b / (total * total * (total + 1real))
        },
        Kind::StudentT => if 2real < p.a {
            p.c * p.c * p.a / (p.a - 2real)
        } else {
            if 1real < p.a { m.inf } else { m.nan }
        },
        Kind::FisherSnedecor => {
            let d = p.b - 2real;
            if 4real < p.b {
                2real * p.b * p.b * (p.a + p.b - 2real) / (p.a * d * d * (p.b - 4real))
            } else {
                m.nan
            }
        },
        Kind::VonMises => 1real - (m.bessel_ratio)(p.b),
        Kind::ContinuousBernoulli => {
            let e = (m.expm1)(p.a);
            let t2 = p.a * p.a;
            if (2real / 100real) < formula::magnitude(p.a) {
                1real / (p.a * p.a) - (e + 1real) / (e * e)
            } else {
                1real / 12real - t2 * (1real / 240real - t2 / 6048real)
            }
        },
        Kind::Bernoulli => {
            let p1 = 1real / (1real + (m.exp)(-p.a));
            p1 * (1real - p1)
        },
        Kind::Geometric => {
            let odds = (m.exp)(-p.a);
            odds * (1real + odds)
        },
        Kind::Poisson => p.a,
        Kind::Binomial => {
            let p1 = 1real / (1real + (m.exp)(-p.b));
            p.a * p1 * (1real - p1)
        },
        Kind::NegativeBinomial => {
            let odds = (m.exp)(p.b);
            p.a * odds * (1real + odds)
        },
        _ => m.nan,
    }
}

/// The variance; undefined where it does not exist, infinite where it diverges.
pub fn variance_of(kind: Kind) -> (r: Formula)
    ensures
        forall|m: Calculus, p: Point| #[trigger] formula::meaning(m, r, p) == variance(m, kind, p),
{
    match kind {
        Kind::Normal => times(slot(Slot::B), slot(Slot::B)),
        Kind::Uniform => {
            let width = less(slot(Slot::B), slot(Slot::A));
            over(times(width.clone(), width.clone()), whole(12))
        },
        Kind::Exponential => over(whole(1), times(slot(Slot::A), slot(Slot::A))),
        Kind::Laplace => times(times(whole(2), slot(Slot::B)), slot(Slot::B)),
        Kind::Cauchy => named(Named::Inf),
        Kind::Gumbel => over(
            times(times(times(named(Named::Pi), named(Named::Pi)), slot(Slot::B)), slot(Slot::B)),
            whole(6),
        ),
        Kind::HalfNormal => times(
            times(slot(Slot::A), slot(Slot::A)),
            less(whole(1), over(whole(2), named(Named::Pi))),
        ),
        Kind::HalfCauchy => named(Named::Inf),
        Kind::LogNormal => {
            let square = times(slot(Slot::B), slot(Slot::B));
            times(
                call(Call::Expm1, square.clone()),
                call(Call::Exp, plus(times(whole(2), slot(Slot::A)), square.clone())),
            )
        },
        Kind::Pareto => {
            let d = less(slot(Slot::B), whole(1));
            branch(
                below(whole(2), slot(Slot::B)),
                over(
                    times(times(slot(Slot::A), slot(Slot::A)), slot(Slot::B)),
                    times(times(d.clone(), d.clone()), less(slot(Slot::B), whole(2))),
                ),
                named(Named::Inf),
            )
        },
        Kind::Weibull => {
            let g1 = call(
                Call::Exp,
                call(Call::Lgamma, plus(whole(1), over(whole(1), slot(Slot::B)))),
            );
            let g2 = call(
                Call::Exp,
                call(Call::Lgamma, plus(whole(1), over(whole(2), slot(Slot::B)))),
            );
            times(
                times(slot(Slot::A), slot(Slot::A)),
                less(g2.clone(), times(g1.clone(), g1.clone())),
            )
        },
        Kind::Kumaraswamy => {
            let m1 = call(
                Call::Exp,
                plus(
                    call(Call::Ln, slot(Slot::B)),
                    pair(Pair::Lbeta, plus(whole(1), over(whole(1), slot(Slot::A))), slot(Slot::B)),
                ),
            );
            let m2 = call(
                Call::Exp,
                plus(
                    call(Call::Ln, slot(Slot::B)),
                    pair(Pair::Lbeta, plus(whole(1), over(whole(2), slot(Slot::A))), slot(Slot::B)),
                ),
            );
            less(m2.clone(), times(m1.clone(), m1.clone()))
        },
        Kind::Gamma => over(slot(Slot::A), times(slot(Slot::B), slot(Slot::B))),
        Kind::InverseGamma => {
            let d = less(slot(Slot::A), whole(1));
            branch(
                below(whole(2), slot(Slot::A)),
                over(
                    times(slot(Slot::B), slot(Slot::B)),
                    times(times(d.clone(), d.clone()), less(slot(Slot::A), whole(2))),
                ),
                named(Named::Inf),
            )
        },
        Kind::Beta => {
            let total = plus(slot(Slot::A), slot(Slot::B));
            over(
                times(slot(Slot::A), slot(Slot::B)),
                times(times(total.clone(), total.clone()), plus(total.clone(), whole(1))),
            )
        },
        Kind::StudentT => branch(
            below(whole(2), slot(Slot::A)),
            over(
                times(times(slot(Slot::C), slot(Slot::C)), slot(Slot::A)),
                less(slot(Slot::A), whole(2)),
            ),
            branch(below(whole(1), slot(Slot::A)), named(Named::Inf), named(Named::Nan)),
        ),
        Kind::FisherSnedecor => {
            let d = less(slot(Slot::B), whole(2));
            branch(
                below(whole(4), slot(Slot::B)),
                over(
                    times(
                        times(times(whole(2), slot(Slot::B)), slot(Slot::B)),
                        less(plus(slot(Slot::A), slot(Slot::B)), whole(2)),
                    ),
                    times(
                        times(times(slot(Slot::A), d.clone()), d.clone()),
                        less(slot(Slot::B), whole(4)),
                    ),
                ),
                named(Named::Nan),
            )
        },
        Kind::VonMises => less(whole(1), call(Call::BesselRatio, slot(Slot::B))),
        Kind::ContinuousBernoulli => {
            let e = call(Call::Expm1, slot(Slot::A));
            let t2 = times(slot(Slot::A), slot(Slot::A));
            branch(
                below(ratio(2, 100), call(Call::Abs, slot(Slot::A))),
                less(
                    over(whole(1), times(slot(Slot::A), slot(Slot::A))),
                    over(plus(e.clone(), whole(1)), times(e.clone(), e.clone())),
                ),
                less(
                    over(whole(1), whole(12)),
                    times(
                        t2.clone(),
                        less(over(whole(1), whole(240)), over(t2.clone(), whole(6048))),
                    ),
                ),
            )
        },
        Kind::Bernoulli => {
            let p1 = over(whole(1), plus(whole(1), call(Call::Exp, minus(slot(Slot::A)))));
            times(p1.clone(), less(whole(1), p1.clone()))
        },
        Kind::Geometric => {
            let odds = call(Call::Exp, minus(slot(Slot::A)));
            times(odds.clone(), plus(whole(1), odds.clone()))
        },
        Kind::Poisson => slot(Slot::A),
        Kind::Binomial => {
            let p1 = over(whole(1), plus(whole(1), call(Call::Exp, minus(slot(Slot::B)))));
            times(times(slot(Slot::A), p1.clone()), less(whole(1), p1.clone()))
        },
        Kind::NegativeBinomial => {
            let odds = call(Call::Exp, slot(Slot::B));
            times(times(slot(Slot::A), odds.clone()), plus(whole(1), odds.clone()))
        },
        _ => named(Named::Nan),
    }
}

/// The mode; undefined where there is none.
pub open spec fn mode(m: Calculus, kind: Kind, p: Point) -> real {
    match kind {
        Kind::Normal => p.a,
        Kind::Exponential => 0real,
        Kind::Laplace => p.a,
        Kind::Cauchy => p.a,
        Kind::Gumbel => p.a,
        Kind::HalfNormal => 0real,
        Kind::HalfCauchy => 0real,
        Kind::LogNormal => (m.exp)(p.a - p.b * p.b),
        Kind::Pareto => p.a,
        Kind::Weibull => if 1real < p.b {
            p.a * (m.pow)((p.b - 1real) / p.b, 1real / p.b)
        } else {
            0real
        },
        Kind::Kumaraswamy => if 1real <= p.a && 1real <= p.b {
            (m.pow)((p.a - 1real) / (p.a * p.b - 1real), 1real / p.a)
        } else {
            m.nan
        },
        Kind::Gamma => if 1real <= p.a { (p.a - 1real) / p.b } else { 0real },
        Kind::InverseGamma => p.b / (p.a + 1real),
        Kind::Beta => if 1real < p.a && 1real < p.b {
            (p.a - 1real) / (p.a + p.b - 2real)
        } else {
            m.nan
        },
        Kind::StudentT => p.b,
        Kind::VonMises => p.a,
        Kind::Bernoulli => if 0real < p.a { 1real } else { 0real },
        Kind::Geometric => 0real,
        Kind::Poisson => (m.floor)(p.a),
        Kind::Binomial => formula::clamped(
            (m.floor)((p.a + 1real) * (1real / (1real + (m.exp)(-p.b)))),
            0real,
            p.a,
        ),
        Kind::NegativeBinomial => if 1real < p.a {
            (m.floor)((p.a - 1real) * (m.exp)(p.b))
        } else {
            0real
        },
        _ => m.nan,
    }
}

/// The mode; undefined where there is none.
pub fn mode_of(kind: Kind) -> (r: Formula)
    ensures
        forall|m: Calculus, p: Point| #[trigger] formula::meaning(m, r, p) == mode(m, kind, p),
{
    match kind {
        Kind::Normal => slot(Slot::A),
        Kind::Exponential => whole(0),
        Kind::Laplace => slot(Slot::A),
        Kind::Cauchy => slot(Slot::A),
        Kind::Gumbel => slot(Slot::A),
        Kind::HalfNormal => whole(0),
        Kind::HalfCauchy => whole(0),
        Kind::LogNormal => call(
            Call::Exp,
            less(slot(Slot::A), times(slot(Slot::B), slot(Slot::B))),
        ),
        Kind::Pareto => slot(Slot::A),
        Kind::Weibull => branch(
            below(whole(1), slot(Slot::B)),
            times(
                slot(Slot::A),
                pair(
                    Pair::Pow,
                    over(less(slot(Slot::B), whole(1)), slot(Slot::B)),
                    over(whole(1), slot(Slot::B)),
                ),
            ),
            whole(0),
        ),
        Kind::Kumaraswamy => branch(
            both(at_most(whole(1), slot(Slot::A)), at_most(whole(1), slot(Slot::B))),
            pair(
                Pair::Pow,
                over(
                    less(slot(Slot::A), whole(1)),
                    less(times(slot(Slot::A), slot(Slot::B)), whole(1)),
                ),
                over(whole(1), slot(Slot::A)),
            ),
            named(Named::Nan),
        ),
        Kind::Gamma => branch(
            at_most(whole(1), slot(Slot::A)),
            over(less(slot(Slot::A), whole(1)), slot(Slot::B)),
            whole(0),
        ),
        Kind::InverseGamma => over(slot(Slot::B), plus(slot(Slot::A), whole(1))),
        Kind::Beta => branch(
            both(below(whole(1), slot(Slot::A)), below(whole(1), slot(Slot::B))),
            over(less(slot(Slot::A), whole(1)), less(plus(slot(Slot::A), slot(Slot::B)), whole(2))),
            named(Named::Nan),
        ),
        Kind::StudentT => slot(Slot::B),
        Kind::VonMises => slot(Slot::A),
        Kind::Bernoulli => branch(below(whole(0), slot(Slot::A)), whole(1), whole(0)),
        Kind::Geometric => whole(0),
        Kind::Poisson => call(Call::Floor, slot(Slot::A)),
        Kind::Binomial => clamp(
            call(
                Call::Floor,
                times(
                    plus(slot(Slot::A), whole(1)),
                    over(whole(1), plus(whole(1), call(Call::Exp, minus(slot(Slot::B))))),
                ),
            ),
            whole(0),
            slot(Slot::A),
        ),
        Kind::NegativeBinomial => branch(
            below(whole(1), slot(Slot::A)),
            call(Call::Floor, times(less(slot(Slot::A), whole(1)), call(Call::Exp, slot(Slot::B)))),
            whole(0),
        ),
        _ => named(Named::Nan),
    }
}

/// The quantile: undefined for a family that has none.
pub open spec fn quantile(m: Calculus, kind: Kind, p: Point) -> real {
    if kind.icdf_exists() {
        inverse(m, kind, p)
    } else {
        m.nan
    }
}

/// The quantile of a family.
pub fn icdf_of(kind: Kind) -> (r: Formula)
    ensures
        forall|m: Calculus, p: Point| #[trigger] formula::meaning(m, r, p) == quantile(m, kind, p),
{
    if kind.has_icdf() {
        closed_form_icdf_of(kind)
    } else {
        named(Named::Nan)
    }
}

/// A mean, a variance or a mode, by its code.
pub open spec fn statistic(m: Calculus, kind: Kind, which: u32, p: Point) -> real {
    if which == univariate::MEAN {
        mean(m, kind, p)
    } else if which == univariate::VARIANCE {
        variance(m, kind, p)
    } else {
        mode(m, kind, p)
    }
}

/// A summary of a family: its mean, variance or mode, selected by `which`.
pub fn moment_of(kind: Kind, which: u32) -> (r: Formula)
    ensures
        forall|m: Calculus, p: Point| #[trigger]
            formula::meaning(m, r, p) == statistic(m, kind, which, p),
{
    if which == univariate::MEAN {
        mean_of(kind)
    } else if which == univariate::VARIANCE {
        variance_of(kind)
    } else {
        mode_of(kind)
    }
}

/// A density, a distribution function or a quantile, by its code.
pub open spec fn pointwise(m: Calculus, kind: Kind, which: u32, p: Point) -> real {
    if which == univariate::LOG_PROB {
        log_density(m, kind, p)
    } else if which == univariate::CDF {
        distribution(m, kind, p)
    } else {
        quantile(m, kind, p)
    }
}

/// The formula of a value-taking operation, selected by `which`.
pub fn pointwise_of(kind: Kind, which: u32) -> (r: Formula)
    ensures
        forall|m: Calculus, p: Point| #[trigger]
            formula::meaning(m, r, p) == pointwise(m, kind, which, p),
{
    if which == univariate::LOG_PROB {
        log_prob_of(kind)
    } else if which == univariate::CDF {
        cdf_of(kind)
    } else {
        icdf_of(kind)
    }
}

/// The kind a code names.
pub fn kind_of(code: u32) -> (r: Option<Kind>)
    ensures
        match r {
            Some(k) => k.code_of() == code,
            None => code >= 26,
        },
{
    let all = Kind::all();
    if code < 26 {
        Some(all[code as usize])
    } else {
        None
    }
}

// -- laws --------------------------------------------------------------------------------

/// What is used of logarithms and exponentials: they undo each other, and their shifted
/// forms are shifted.
pub open spec fn exponential(m: Calculus) -> bool {
    &&& forall|t: real| #[trigger] (m.ln)((m.exp)(t)) == t
    &&& forall|t: real| t > 0real ==> #[trigger] (m.exp)((m.ln)(t)) == t
    &&& forall|t: real| #[trigger] (m.exp)(t) > 0real
    &&& forall|t: real| #[trigger] (m.log1p)(t) == (m.ln)(1real + t)
    &&& forall|t: real| #[trigger] (m.expm1)(t) == (m.exp)(t) - 1real
}

/// A point with another value.
pub open spec fn with_value(p: Point, x: real) -> Point {
    Point { x, ..p }
}

/// The quantile of an exponential undoes its distribution function, and the other way
/// round.
pub proof fn law_exponential_quantile_inverts(m: Calculus, p: Point)
    requires
        exponential(m),
        p.a != 0real,
    ensures
        inverse(
            m,
            Kind::Exponential,
            with_value(p, distribution(m, Kind::Exponential, p)),
        ) == p.x,
        p.x < 1real ==> distribution(
            m,
            Kind::Exponential,
            with_value(p, inverse(m, Kind::Exponential, p)),
        ) == p.x,
{
    let (x, a) = (p.x, p.a);
    let q = distribution(m, Kind::Exponential, p);
    assert(q == 1real - (m.exp)((-a) * x));
    assert((m.log1p)(-q) == (m.ln)((m.exp)((-a) * x)));
    lemma_cancel(x, a);
    if x < 1real {
        let l = (m.ln)(1real - x);
        assert((m.log1p)(-x) == (m.ln)(1real + -x));
        assert(1real + -x == 1real - x);
        lemma_back(l, a);
    }
}

proof fn lemma_cancel(x: real, a: real)
    requires
        a != 0real,
    ensures
        (-((-a) * x)) / a == x,
{
    assert((-((-a) * x)) / a == x) by (nonlinear_arith)
        requires
            a != 0real,
    ;
}

proof fn lemma_back(l: real, a: real)
    requires
        a != 0real,
    ensures
        (-a) * ((-l) / a) == l,
{
    assert((-a) * ((-l) / a) == l) by (nonlinear_arith)
        requires
            a != 0real,
    ;
}

/// The quantile of a uniform undoes its distribution function between its bounds.
pub proof fn law_uniform_quantile_inverts(m: Calculus, p: Point)
    requires
        p.a < p.b,
        p.a <= p.x <= p.b,
    ensures
        inverse(m, Kind::Uniform, with_value(p, distribution(m, Kind::Uniform, p))) == p.x,
{
    let (x, a, w) = (p.x, p.a, p.b - p.a);
    assert(0real <= (x - a) / w <= 1real && a + (x - a) / w * w == x) by (nonlinear_arith)
        requires
            w > 0real,
            a <= x,
            x - a <= w,
    ;
}

/// The quantile of a Gumbel undoes its distribution function.
pub proof fn law_gumbel_quantile_inverts(m: Calculus, p: Point)
    requires
        exponential(m),
        p.b != 0real,
    ensures
        inverse(m, Kind::Gumbel, with_value(p, distribution(m, Kind::Gumbel, p))) == p.x,
{
    let (x, a, b) = (p.x, p.a, p.b);
    let z = (-(x - a)) / b;
    let q = distribution(m, Kind::Gumbel, p);
    assert(q == (m.exp)(-(m.exp)(z)));
    assert((m.ln)(q) == -(m.exp)(z));
    assert(-(-(m.exp)(z)) == (m.exp)(z));
    assert((m.ln)(-(m.ln)(q)) == z);
    assert(a - b * z == x) by (nonlinear_arith)
        requires
            z == (-(x - a)) / b,
            b != 0real,
    ;
}

} // verus!
