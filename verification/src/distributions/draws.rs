//! How the scalar families are drawn.
//!
//! A family with an elementary quantile, and a few others, turn one uniform number into a
//! draw. The rest reject: an attempt proposes and a test accepts, up to a fixed number of
//! attempts, and a draw is made of one or two such pieces.

use vstd::prelude::*;

use super::compound;
use super::densities;
use super::families;
use super::formula;
use super::formula::{
    Calculus, Call, Formula, Named, Pair, Point, Slot, Test, at_most, below, both, branch, call,
    clamp, either, less, minus, named, over, pair, plus, ratio, slot, times, whole,
};
use super::quantiles;
use super::slopes;
use super::slopes::{Grad4, Slopes};
use super::univariate::Kind;

verus! {

/// One attempt of a rejection sampler as mathematics.
pub struct Attempt {
    pub candidate: real,
    pub accepted: bool,
    pub fallback: real,
}

/// One attempt of a rejection sampler: what it proposes, when the proposal is taken, and
/// what stands in when every attempt has failed. The uniform numbers of the attempt stand
/// in `u` and `v`.
#[derive(Debug)]
pub struct Trial {
    pub candidate: Formula,
    pub accept: Test,
    pub fallback: Formula,
}

impl Trial {
    /// What the attempt means at a point.
    pub open spec fn at(self, m: Calculus, p: Point) -> Attempt {
        Attempt {
            candidate: formula::meaning(m, self.candidate, p),
            accepted: formula::holds(m, self.accept, p),
            fallback: formula::meaning(m, self.fallback, p),
        }
    }
}

/// A draw from one uniform number, which stands in the value. Zero for a family that needs
/// more than one.
pub open spec fn lane_draw(m: Calculus, kind: Kind, p: Point) -> real {
    match kind {
        Kind::Normal => p.a + p.b * (m.ndtri)(p.x),
        Kind::Uniform => p.a + p.x * (p.b - p.a),
        Kind::Exponential => (-(m.log1p)(-p.x)) / p.a,
        Kind::Laplace => {
            let d = p.x - (1real / 2real);
            p.a - p.b * formula::sign(d) * (m.log1p)((-2real) * formula::magnitude(d))
        },
        Kind::Cauchy => p.a + p.b * (m.tan)(m.pi * (p.x - (1real / 2real))),
        Kind::Gumbel => p.a - p.b * (m.ln)(-(m.ln)(p.x)),
        Kind::HalfNormal => p.a * m.sqrt_two * (m.erfinv)(p.x),
        Kind::HalfCauchy => p.a * (m.tan)((1real / 2real) * m.pi * p.x),
        Kind::LogNormal => (m.exp)(p.a + p.b * (m.ndtri)(p.x)),
        Kind::Pareto => p.a * (m.exp)((-(m.log1p)(-p.x)) / p.b),
        Kind::Weibull => p.a * (m.pow)(-(m.log1p)(-p.x), 1real / p.b),
        Kind::Kumaraswamy => (m.pow)(-(m.expm1)((m.log1p)(-p.x) / p.b), 1real / p.a),
        Kind::ContinuousBernoulli => {
            let p1 = 1real / (1real + (m.exp)(-p.a));
            let r = 1real - p1;
            formula::clamped(
                if (1real / 1000real) < formula::magnitude(p1 - (1real / 2real)) {
                    (m.log1p)(p.x * (2real * p1 - 1real) / r) / ((m.ln)(p1) - (m.ln)(r))
                } else {
                    p.x
                },
                0real,
                1real,
            )
        },
        Kind::Bernoulli => if p.x < 1real / (1real + (m.exp)(-p.a)) { 1real } else { 0real },
        Kind::Geometric => (m.floor)((m.ln)(p.x) / (m.log_sigmoid)(-p.a)),
        Kind::LogitRelaxedBernoulli => (p.b + (m.ln)(p.x) - (m.log1p)(-p.x)) / p.a,
        Kind::RelaxedBernoulli => {
            let y = (p.b + (m.ln)(p.x) - (m.log1p)(-p.x)) / p.a;
            1real / (1real + (m.exp)(-y))
        },
        _ => 0real,
    }
}

/// Where the path derivatives of a draw are stated: those of a quantile where a draw inverts
/// it, and a positive temperature for the relaxed families.
pub open spec fn drawable(m: Calculus, kind: Kind, p: Point) -> bool {
    quantiles::invertible(m, kind, p) || ((kind is LogitRelaxedBernoulli || kind is RelaxedBernoulli)
        && 0real < p.a)
}

/// A draw from one uniform number, for the families that need no more. Where [`drawable`]
/// holds, the slopes of the formula in the parameters, taken by the rules of calculus, are the
/// path derivatives.
pub fn sample_from_bits_of(kind: Kind) -> (r: Formula)
    ensures
        forall|m: Calculus, p: Point| #[trigger] formula::meaning(m, r, p) == lane_draw(m, kind, p),
        forall|m: Calculus, p: Point|
            densities::proper(m) && drawable(m, kind, p) ==> follows(
                #[trigger] densities::slopes_at(m, r, p),
                path_slopes(m, kind, p),
            ),
{
    if kind.has_icdf_grad() {
        let r = families::closed_form_icdf_of(kind);
        proof {
            assert forall|m: Calculus, p: Point| #[trigger]
                formula::meaning(m, r, p) == lane_draw(m, kind, p) by {
                law_draws_invert(m, kind, p);
            }
            assert forall|m: Calculus, p: Point|
                densities::proper(m) && drawable(m, kind, p) implies follows(
                #[trigger] densities::slopes_at(m, r, p),
                path_slopes(m, kind, p),
            ) by {
                law_paths_follow_the_quantile(m, kind, p);
            }
        }
        return r;
    }
    match kind {
        Kind::ContinuousBernoulli => {
            let r = families::closed_form_icdf_of(kind);
            proof {
                assert forall|m: Calculus, p: Point| #[trigger]
                    formula::meaning(m, r, p) == lane_draw(m, kind, p) by {
                    law_draws_invert(m, kind, p);
                }
            }
            r
        },
        Kind::Bernoulli => branch(
            below(
                slot(Slot::X),
                over(whole(1), plus(whole(1), call(Call::Exp, minus(slot(Slot::A))))),
            ),
            whole(1),
            whole(0),
        ),
        Kind::Geometric => call(
            Call::Floor,
            over(call(Call::Ln, slot(Slot::X)), call(Call::LogSigmoid, minus(slot(Slot::A)))),
        ),
        Kind::LogitRelaxedBernoulli => compound::logit_draw(),
        Kind::RelaxedBernoulli => compound::relaxed_draw(),
        _ => whole(0),
    }
}

/// Every path derivative of a draw at the uniform number it was made from, which stands in
/// the value.
pub open spec fn path_slopes(m: Calculus, kind: Kind, p: Point) -> Slopes {
    match kind {
        Kind::Normal => {
            let z = (m.ndtri)(p.x);
            Slopes {
                dx: p.b * (m.exp)((1real / 2real) * z * z + m.half_ln_two_pi),
                da: 1real,
                db: z,
                dc: 0real,
            }
        },
        Kind::Uniform => {
            Slopes { dx: p.b - p.a, da: 1real - p.x, db: p.x, dc: 0real }
        },
        Kind::Exponential => {
            let at = (-(m.log1p)(-p.x)) / p.a;
            Slopes { dx: 1real / (p.a * (1real - p.x)), da: (-at) / p.a, db: 0real, dc: 0real }
        },
        Kind::Laplace => {
            let d = p.x - (1real / 2real);
            Slopes {
                dx: 2real * p.b / (1real - 2real * formula::magnitude(d)),
                da: 1real,
                db: (-formula::sign(d)) * (m.log1p)((-2real) * formula::magnitude(d)),
                dc: 0real,
            }
        },
        Kind::Cauchy => {
            let t = (m.tan)(m.pi * (p.x - (1real / 2real)));
            Slopes { dx: p.b * m.pi * (1real + t * t), da: 1real, db: t, dc: 0real }
        },
        Kind::Gumbel => {
            let l = -(m.ln)(p.x);
            Slopes { dx: p.b / (l * p.x), da: 1real, db: -(m.ln)(l), dc: 0real }
        },
        Kind::HalfNormal => {
            let e = (m.erfinv)(p.x);
            Slopes {
                dx: p.a * m.sqrt_two * (8862269real / 10000000real) * (m.exp)(e * e),
                da: m.sqrt_two * e,
                db: 0real,
                dc: 0real,
            }
        },
        Kind::HalfCauchy => {
            let t = (m.tan)((1real / 2real) * m.pi * p.x);
            Slopes {
                dx: p.a * (1real / 2real) * m.pi * (1real + t * t),
                da: t,
                db: 0real,
                dc: 0real,
            }
        },
        Kind::LogNormal => {
            let z = (m.ndtri)(p.x);
            let at = (m.exp)(p.a + p.b * z);
            Slopes {
                dx: at * p.b * (m.exp)((1real / 2real) * z * z + m.half_ln_two_pi),
                da: at,
                db: at * z,
                dc: 0real,
            }
        },
        Kind::Pareto => {
            let l = (m.log1p)(-p.x);
            let at = p.a * (m.exp)((-l) / p.b);
            Slopes {
                dx: at / (p.b * (1real - p.x)),
                da: at / p.a,
                db: at * l / (p.b * p.b),
                dc: 0real,
            }
        },
        Kind::Weibull => {
            let l = -(m.log1p)(-p.x);
            let at = p.a * (m.pow)(l, 1real / p.b);
            Slopes {
                dx: at / (p.b * l * (1real - p.x)),
                da: at / p.a,
                db: (-at) * (m.ln)(l) / (p.b * p.b),
                dc: 0real,
            }
        },
        Kind::Kumaraswamy => {
            let l = (m.log1p)(-p.x);
            let w = -(m.expm1)(l / p.b);
            let at = (m.pow)(w, 1real / p.a);
            let chain = at / (p.a * w);
            Slopes {
                dx: chain * (1real - w) / (p.b * (1real - p.x)),
                da: (-at) * (m.ln)(w) / (p.a * p.a),
                db: chain * (1real - w) * l / (p.b * p.b),
                dc: 0real,
            }
        },
        Kind::LogitRelaxedBernoulli => {
            let y = (p.b + (m.ln)(p.x) - (m.log1p)(-p.x)) / p.a;
            Slopes { dx: 0real, da: (-y) / p.a, db: 1real / p.a, dc: 0real }
        },
        Kind::RelaxedBernoulli => {
            let y = (p.b + (m.ln)(p.x) - (m.log1p)(-p.x)) / p.a;
            let s = 1real / (1real + (m.exp)(-y));
            let jac = s * (1real - s);
            Slopes { dx: 0real, da: (-jac) * y / p.a, db: jac / p.a, dc: 0real }
        },
        _ => {
            Slopes { dx: 0real, da: 0real, db: 0real, dc: 0real }
        },
    }
}

/// Whether slopes agree for every parameter: the uniform number of a draw is no parameter.
pub open spec fn follows(s: Slopes, t: Slopes) -> bool {
    s.da == t.da && s.db == t.db && s.dc == t.dc
}

/// Every path derivative of a draw at the uniform number it was made from.
pub fn rsample_grad_of(kind: Kind) -> (r: Grad4)
    ensures
        forall|m: Calculus, p: Point| #[trigger] r.at(m, p) == path_slopes(m, kind, p),
{
    match kind {
        Kind::Normal => {
            let z = call(Call::Ndtri, slot(Slot::X));
            Grad4 {
                dx: times(
                    slot(Slot::B),
                    call(
                        Call::Exp,
                        plus(
                            times(times(ratio(1, 2), z.clone()), z.clone()),
                            named(Named::HalfLnTwoPi),
                        ),
                    ),
                ),
                da: whole(1),
                db: z.clone(),
                dc: whole(0),
            }
        },
        Kind::Uniform => {
            Grad4 {
                dx: less(slot(Slot::B), slot(Slot::A)),
                da: less(whole(1), slot(Slot::X)),
                db: slot(Slot::X),
                dc: whole(0),
            }
        },
        Kind::Exponential => {
            let at = over(minus(call(Call::Log1p, minus(slot(Slot::X)))), slot(Slot::A));
            Grad4 {
                dx: over(whole(1), times(slot(Slot::A), less(whole(1), slot(Slot::X)))),
                da: over(minus(at.clone()), slot(Slot::A)),
                db: whole(0),
                dc: whole(0),
            }
        },
        Kind::Laplace => {
            let d = less(slot(Slot::X), ratio(1, 2));
            Grad4 {
                dx: over(
                    times(whole(2), slot(Slot::B)),
                    less(whole(1), times(whole(2), call(Call::Abs, d.clone()))),
                ),
                da: whole(1),
                db: times(
                    minus(call(Call::Sign, d.clone())),
                    call(Call::Log1p, times(whole(-2), call(Call::Abs, d.clone()))),
                ),
                dc: whole(0),
            }
        },
        Kind::Cauchy => {
            let t = call(Call::Tan, times(named(Named::Pi), less(slot(Slot::X), ratio(1, 2))));
            Grad4 {
                dx: times(
                    times(slot(Slot::B), named(Named::Pi)),
                    plus(whole(1), times(t.clone(), t.clone())),
                ),
                da: whole(1),
                db: t.clone(),
                dc: whole(0),
            }
        },
        Kind::Gumbel => {
            let l = minus(call(Call::Ln, slot(Slot::X)));
            Grad4 {
                dx: over(slot(Slot::B), times(l.clone(), slot(Slot::X))),
                da: whole(1),
                db: minus(call(Call::Ln, l.clone())),
                dc: whole(0),
            }
        },
        Kind::HalfNormal => {
            let e = call(Call::Erfinv, slot(Slot::X));
            Grad4 {
                dx: times(
                    times(times(slot(Slot::A), named(Named::SqrtTwo)), ratio(8862269, 10000000)),
                    call(Call::Exp, times(e.clone(), e.clone())),
                ),
                da: times(named(Named::SqrtTwo), e.clone()),
                db: whole(0),
                dc: whole(0),
            }
        },
        Kind::HalfCauchy => {
            let t = call(Call::Tan, times(times(ratio(1, 2), named(Named::Pi)), slot(Slot::X)));
            Grad4 {
                dx: times(
                    times(times(slot(Slot::A), ratio(1, 2)), named(Named::Pi)),
                    plus(whole(1), times(t.clone(), t.clone())),
                ),
                da: t.clone(),
                db: whole(0),
                dc: whole(0),
            }
        },
        Kind::LogNormal => {
            let z = call(Call::Ndtri, slot(Slot::X));
            let at = call(Call::Exp, plus(slot(Slot::A), times(slot(Slot::B), z.clone())));
            Grad4 {
                dx: times(
                    times(at.clone(), slot(Slot::B)),
                    call(
                        Call::Exp,
                        plus(
                            times(times(ratio(1, 2), z.clone()), z.clone()),
                            named(Named::HalfLnTwoPi),
                        ),
                    ),
                ),
                da: at.clone(),
                db: times(at.clone(), z.clone()),
                dc: whole(0),
            }
        },
        Kind::Pareto => {
            let l = call(Call::Log1p, minus(slot(Slot::X)));
            let at = times(slot(Slot::A), call(Call::Exp, over(minus(l.clone()), slot(Slot::B))));
            Grad4 {
                dx: over(at.clone(), times(slot(Slot::B), less(whole(1), slot(Slot::X)))),
                da: over(at.clone(), slot(Slot::A)),
                db: over(times(at.clone(), l.clone()), times(slot(Slot::B), slot(Slot::B))),
                dc: whole(0),
            }
        },
        Kind::Weibull => {
            let l = minus(call(Call::Log1p, minus(slot(Slot::X))));
            let at = times(
                slot(Slot::A),
                pair(Pair::Pow, l.clone(), over(whole(1), slot(Slot::B))),
            );
            Grad4 {
                dx: over(
                    at.clone(),
                    times(times(slot(Slot::B), l.clone()), less(whole(1), slot(Slot::X))),
                ),
                da: over(at.clone(), slot(Slot::A)),
                db: over(
                    times(minus(at.clone()), call(Call::Ln, l.clone())),
                    times(slot(Slot::B), slot(Slot::B)),
                ),
                dc: whole(0),
            }
        },
        Kind::Kumaraswamy => {
            let l = call(Call::Log1p, minus(slot(Slot::X)));
            let w = minus(call(Call::Expm1, over(l.clone(), slot(Slot::B))));
            let at = pair(Pair::Pow, w.clone(), over(whole(1), slot(Slot::A)));
            let chain = over(at.clone(), times(slot(Slot::A), w.clone()));
            Grad4 {
                dx: over(
                    times(chain.clone(), less(whole(1), w.clone())),
                    times(slot(Slot::B), less(whole(1), slot(Slot::X))),
                ),
                da: over(
                    times(minus(at.clone()), call(Call::Ln, w.clone())),
                    times(slot(Slot::A), slot(Slot::A)),
                ),
                db: over(
                    times(times(chain.clone(), less(whole(1), w.clone())), l.clone()),
                    times(slot(Slot::B), slot(Slot::B)),
                ),
                dc: whole(0),
            }
        },
        Kind::LogitRelaxedBernoulli => {
            let y = over(
                less(
                    plus(slot(Slot::B), call(Call::Ln, slot(Slot::X))),
                    call(Call::Log1p, minus(slot(Slot::X))),
                ),
                slot(Slot::A),
            );
            Grad4 {
                dx: whole(0),
                da: over(minus(y.clone()), slot(Slot::A)),
                db: over(whole(1), slot(Slot::A)),
                dc: whole(0),
            }
        },
        Kind::RelaxedBernoulli => {
            let y = over(
                less(
                    plus(slot(Slot::B), call(Call::Ln, slot(Slot::X))),
                    call(Call::Log1p, minus(slot(Slot::X))),
                ),
                slot(Slot::A),
            );
            let s = over(whole(1), plus(whole(1), call(Call::Exp, minus(y.clone()))));
            let jac = times(s.clone(), less(whole(1), s.clone()));
            Grad4 {
                dx: whole(0),
                da: over(times(minus(jac.clone()), y.clone()), slot(Slot::A)),
                db: over(jac.clone(), slot(Slot::A)),
                dc: whole(0),
            }
        },
        _ => {
            Grad4 { dx: whole(0), da: whole(0), db: whole(0), dc: whole(0) }
        },
    }
}

/// One attempt at a draw from `Gamma(a, 1)`: a cubed linear function of a normal number, by the
/// squeeze of Marsaglia and Tsang. A shape below one is raised by one; [`gamma_boost`] makes up
/// for it.
pub open spec fn gamma_trial_at(m: Calculus, p: Point) -> Attempt {
    let alpha = if p.a < 1real { p.a + 1real } else { p.a };
    let d = alpha - 1real / 3real;
    let cc = 1real / (m.sqrt)(9real * d);
    let z = (m.ndtri)(p.u);
    let root = 1real + cc * z;
    let cube = root * root * root;
    let z2 = z * z;
    Attempt {
        candidate: d * cube,
        accepted: 0real < root
            && (p.v < 1real - (331real / 10000real) * z2 * z2
                    || (m.ln)(p.v) < (1real / 2real) * z2 + d * (1real - cube + (m.ln)(cube))),
        fallback: d,
    }
}

/// One attempt at a draw from `Gamma(a, 1)`: a cubed linear function of a normal number, by the
/// squeeze of Marsaglia and Tsang. A shape below one is raised by one; [`gamma_boost`] makes up
/// for it.
pub fn gamma_trial() -> (r: Trial)
    ensures
        forall|m: Calculus, p: Point| #[trigger] r.at(m, p) == gamma_trial_at(m, p),
{
    let alpha = branch(
        below(slot(Slot::A), whole(1)),
        plus(slot(Slot::A), whole(1)),
        slot(Slot::A),
    );
    let d = less(alpha.clone(), over(whole(1), whole(3)));
    let cc = over(whole(1), call(Call::Sqrt, times(whole(9), d.clone())));
    let z = call(Call::Ndtri, slot(Slot::U));
    let root = plus(whole(1), times(cc.clone(), z.clone()));
    let cube = times(times(root.clone(), root.clone()), root.clone());
    let z2 = times(z.clone(), z.clone());
    Trial {
        candidate: times(d.clone(), cube.clone()),
        accept: both(
            below(whole(0), root.clone()),
            either(
                below(
                    slot(Slot::V),
                    less(whole(1), times(times(ratio(331, 10000), z2.clone()), z2.clone())),
                ),
                below(
                    call(Call::Ln, slot(Slot::V)),
                    plus(
                        times(ratio(1, 2), z2.clone()),
                        times(
                            d.clone(),
                            plus(less(whole(1), cube.clone()), call(Call::Ln, cube.clone())),
                        ),
                    ),
                ),
            ),
        ),
        fallback: d.clone(),
    }
}

/// One attempt at a draw from `Poisson(a)` for a rate of at least ten, by transformed
/// rejection.
pub open spec fn poisson_trial_at(m: Calculus, p: Point) -> Attempt {
    let bb = (931real / 1000real) + (253real / 100real) * (m.sqrt)(p.a);
    let aa = (2483real / 100000real) * bb - (59real / 1000real);
    let inv_alpha = (11239real / 10000real) + (11328real / 10000real) / (bb - (34real / 10real));
    let vr = (9277real / 10000real) - (36224real / 10000real) / (bb - 2real);
    let t = p.u - (1real / 2real);
    let us = (1real / 2real) - formula::magnitude(t);
    let k = (m.floor)((2real * aa / us + bb) * t + p.a + (43real / 100real));
    Attempt {
        candidate: k,
        accepted: ((7real / 100real) <= us && p.v <= vr || 0real <= k
                && ((13real / 1000real) <= us || p.v <= us)
                && (m.ln)(
                    p.v * inv_alpha / (aa / (us * us) + bb),
                ) <= k * (m.ln)(p.a) - p.a - (m.lgamma)(k + 1real)),
        fallback: (m.floor)(p.a),
    }
}

/// One attempt at a draw from `Poisson(a)` for a rate of at least ten, by transformed
/// rejection.
pub fn poisson_trial() -> (r: Trial)
    ensures
        forall|m: Calculus, p: Point| #[trigger] r.at(m, p) == poisson_trial_at(m, p),
{
    let bb = plus(ratio(931, 1000), times(ratio(253, 100), call(Call::Sqrt, slot(Slot::A))));
    let aa = less(times(ratio(2483, 100000), bb.clone()), ratio(59, 1000));
    let inv_alpha = plus(
        ratio(11239, 10000),
        over(ratio(11328, 10000), less(bb.clone(), ratio(34, 10))),
    );
    let vr = less(ratio(9277, 10000), over(ratio(36224, 10000), less(bb.clone(), whole(2))));
    let t = less(slot(Slot::U), ratio(1, 2));
    let us = less(ratio(1, 2), call(Call::Abs, t.clone()));
    let k = call(
        Call::Floor,
        plus(
            plus(
                times(plus(over(times(whole(2), aa.clone()), us.clone()), bb.clone()), t.clone()),
                slot(Slot::A),
            ),
            ratio(43, 100),
        ),
    );
    Trial {
        candidate: k.clone(),
        accept: either(
            both(at_most(ratio(7, 100), us.clone()), at_most(slot(Slot::V), vr.clone())),
            both(
                both(
                    at_most(whole(0), k.clone()),
                    either(
                        at_most(ratio(13, 1000), us.clone()),
                        at_most(slot(Slot::V), us.clone()),
                    ),
                ),
                at_most(
                    call(
                        Call::Ln,
                        over(
                            times(slot(Slot::V), inv_alpha.clone()),
                            plus(over(aa.clone(), times(us.clone(), us.clone())), bb.clone()),
                        ),
                    ),
                    less(
                        less(times(k.clone(), call(Call::Ln, slot(Slot::A))), slot(Slot::A)),
                        call(Call::Lgamma, plus(k.clone(), whole(1))),
                    ),
                ),
            ),
        ),
        fallback: call(Call::Floor, slot(Slot::A)),
    }
}

/// One attempt at a draw from `Binomial(a, p)` with logit `b`, folded about an even chance, for
/// a mean of at least ten, by transformed rejection.
pub open spec fn binomial_trial_at(m: Calculus, p: Point) -> Attempt {
    let raw = 1real / (1real + (m.exp)(-p.b));
    let p1 = if (1real / 2real) < raw { 1real - raw } else { raw };
    let n = (m.floor)(p.a + (1real / 2real));
    let q = 1real - p1;
    let spq = (m.sqrt)(n * p1 * q);
    let bb = (115real / 100real) + (253real / 100real) * spq;
    let aa = (248real / 10000real) * bb + (1real / 100real) * p1 - (873real / 10000real);
    let vr = (92real / 100real) - (42real / 10real) / bb;
    let alpha = ((283real / 100real) + (51real / 10real) / bb) * spq;
    let ln_p = (m.ln)(p1);
    let ln_q = (m.ln)(q);
    let centre = (m.floor)((n + 1real) * p1);
    let log_trials = (m.lgamma)(n + 1real);
    let log_mode = log_trials - (m.lgamma)(centre + 1real) - (m.lgamma)(n - centre + 1real)
        + centre * ln_p + (n - centre) * ln_q;
    let t = p.u - (1real / 2real);
    let us = (1real / 2real) - formula::magnitude(t);
    let k = (m.floor)((2real * aa / us + bb) * t + (n * p1 + (1real / 2real)));
    Attempt {
        candidate: k,
        accepted: 0real <= k && k <= n
            && ((7real / 100real) <= us && p.v <= vr
                    || (m.ln)(
                        p.v * alpha / (aa / (us * us) + bb),
                    ) <= log_trials - (m.lgamma)(k + 1real) - (m.lgamma)(n - k + 1real) + k * ln_p + (n - k) * ln_q - log_mode),
        fallback: centre,
    }
}

/// One attempt at a draw from `Binomial(a, p)` with logit `b`, folded about an even chance, for
/// a mean of at least ten, by transformed rejection.
pub fn binomial_trial() -> (r: Trial)
    ensures
        forall|m: Calculus, p: Point| #[trigger] r.at(m, p) == binomial_trial_at(m, p),
{
    let raw = over(whole(1), plus(whole(1), call(Call::Exp, minus(slot(Slot::B)))));
    let p1 = branch(below(ratio(1, 2), raw.clone()), less(whole(1), raw.clone()), raw.clone());
    let n = call(Call::Floor, plus(slot(Slot::A), ratio(1, 2)));
    let q = less(whole(1), p1.clone());
    let spq = call(Call::Sqrt, times(times(n.clone(), p1.clone()), q.clone()));
    let bb = plus(ratio(115, 100), times(ratio(253, 100), spq.clone()));
    let aa = less(
        plus(times(ratio(248, 10000), bb.clone()), times(ratio(1, 100), p1.clone())),
        ratio(873, 10000),
    );
    let vr = less(ratio(92, 100), over(ratio(42, 10), bb.clone()));
    let alpha = times(plus(ratio(283, 100), over(ratio(51, 10), bb.clone())), spq.clone());
    let ln_p = call(Call::Ln, p1.clone());
    let ln_q = call(Call::Ln, q.clone());
    let centre = call(Call::Floor, times(plus(n.clone(), whole(1)), p1.clone()));
    let log_trials = call(Call::Lgamma, plus(n.clone(), whole(1)));
    let log_mode = plus(
        plus(
            less(
                less(log_trials.clone(), call(Call::Lgamma, plus(centre.clone(), whole(1)))),
                call(Call::Lgamma, plus(less(n.clone(), centre.clone()), whole(1))),
            ),
            times(centre.clone(), ln_p.clone()),
        ),
        times(less(n.clone(), centre.clone()), ln_q.clone()),
    );
    let t = less(slot(Slot::U), ratio(1, 2));
    let us = less(ratio(1, 2), call(Call::Abs, t.clone()));
    let k = call(
        Call::Floor,
        plus(
            times(plus(over(times(whole(2), aa.clone()), us.clone()), bb.clone()), t.clone()),
            plus(times(n.clone(), p1.clone()), ratio(1, 2)),
        ),
    );
    Trial {
        candidate: k.clone(),
        accept: both(
            both(at_most(whole(0), k.clone()), at_most(k.clone(), n.clone())),
            either(
                both(at_most(ratio(7, 100), us.clone()), at_most(slot(Slot::V), vr.clone())),
                at_most(
                    call(
                        Call::Ln,
                        over(
                            times(slot(Slot::V), alpha.clone()),
                            plus(over(aa.clone(), times(us.clone(), us.clone())), bb.clone()),
                        ),
                    ),
                    less(
                        plus(
                            plus(
                                less(
                                    less(
                                        log_trials.clone(),
                                        call(Call::Lgamma, plus(k.clone(), whole(1))),
                                    ),
                                    call(Call::Lgamma, plus(less(n.clone(), k.clone()), whole(1))),
                                ),
                                times(k.clone(), ln_p.clone()),
                            ),
                            times(less(n.clone(), k.clone()), ln_q.clone()),
                        ),
                        log_mode.clone(),
                    ),
                ),
            ),
        ),
        fallback: centre.clone(),
    }
}

/// One attempt at an angle about zero with concentration `a`, by the wrapped-Cauchy rejection
/// of Best and Fisher. The third uniform number, in the value, picks the side.
pub open spec fn angle_trial_at(m: Calculus, p: Point) -> Attempt {
    let tau = 1real + (m.sqrt)(1real + 4real * p.a * p.a);
    let rho = (tau - (m.sqrt)(2real * tau)) / (2real * p.a);
    let r = (1real + rho * rho) / (2real * rho);
    let z = (m.cos)(m.pi * p.u);
    let f = (1real + r * z) / (r + z);
    let cc = p.a * (r - f);
    Attempt {
        candidate: formula::sign(p.x - (1real / 2real))
            * (m.acos)(formula::clamped(f, (-1real), 1real)),
        accepted: (p.v < cc * (2real - cc) || 0real <= (m.ln)(cc / p.v) + 1real - cc),
        fallback: 0real,
    }
}

/// One attempt at an angle about zero with concentration `a`, by the wrapped-Cauchy rejection
/// of Best and Fisher. The third uniform number, in the value, picks the side.
pub fn angle_trial() -> (r: Trial)
    ensures
        forall|m: Calculus, p: Point| #[trigger] r.at(m, p) == angle_trial_at(m, p),
{
    let tau = plus(
        whole(1),
        call(Call::Sqrt, plus(whole(1), times(times(whole(4), slot(Slot::A)), slot(Slot::A)))),
    );
    let rho = over(
        less(tau.clone(), call(Call::Sqrt, times(whole(2), tau.clone()))),
        times(whole(2), slot(Slot::A)),
    );
    let r = over(plus(whole(1), times(rho.clone(), rho.clone())), times(whole(2), rho.clone()));
    let z = call(Call::Cos, times(named(Named::Pi), slot(Slot::U)));
    let f = over(plus(whole(1), times(r.clone(), z.clone())), plus(r.clone(), z.clone()));
    let cc = times(slot(Slot::A), less(r.clone(), f.clone()));
    Trial {
        candidate: times(
            call(Call::Sign, less(slot(Slot::X), ratio(1, 2))),
            call(Call::Acos, clamp(f.clone(), whole(-1), whole(1))),
        ),
        accept: either(
            below(slot(Slot::V), times(cc.clone(), less(whole(2), cc.clone()))),
            at_most(
                whole(0),
                less(plus(call(Call::Ln, over(cc.clone(), slot(Slot::V))), whole(1)), cc.clone()),
            ),
        ),
        fallback: whole(0),
    }
}

/// What a draw of a raised shape is multiplied by.
pub open spec fn boost_at(m: Calculus, p: Point) -> real {
    if p.a < 1real { (m.pow)(p.u, 1real / p.a) } else { 1real }
}

/// What a draw of a raised shape is multiplied by.
pub fn gamma_boost() -> (r: Formula)
    ensures
        forall|m: Calculus, p: Point| #[trigger] formula::meaning(m, r, p) == boost_at(m, p),
{
    branch(
        below(slot(Slot::A), whole(1)),
        pair(Pair::Pow, slot(Slot::U), over(whole(1), slot(Slot::A))),
        whole(1),
    )
}

/// An angle anywhere on the circle: the limit of a vanishing concentration.
pub open spec fn flat_angle_at(m: Calculus, p: Point) -> real {
    m.pi * (2real * p.u - 1real)
}

/// An angle anywhere on the circle: the limit of a vanishing concentration.
pub fn flat_angle() -> (r: Formula)
    ensures
        forall|m: Calculus, p: Point| #[trigger] formula::meaning(m, r, p) == flat_angle_at(m, p),
{
    times(named(Named::Pi), less(times(whole(2), slot(Slot::U)), whole(1)))
}

/// A count of successes, from one folded about an even chance.
pub open spec fn unfolded_at(m: Calculus, p: Point) -> real {
    let raw = 1real / (1real + (m.exp)(-p.b));
    let n = (m.floor)(p.a + (1real / 2real));
    if (1real / 2real) < raw { n - p.u } else { p.u }
}

/// A count of successes, from one folded about an even chance.
pub fn unfolded() -> (r: Formula)
    ensures
        forall|m: Calculus, p: Point| #[trigger] formula::meaning(m, r, p) == unfolded_at(m, p),
{
    let raw = over(whole(1), plus(whole(1), call(Call::Exp, minus(slot(Slot::B)))));
    let n = call(Call::Floor, plus(slot(Slot::A), ratio(1, 2)));
    branch(below(ratio(1, 2), raw.clone()), less(n.clone(), slot(Slot::U)), slot(Slot::U))
}

/// The mean of a binomial count folded about an even chance.
pub open spec fn binomial_mean_at(m: Calculus, p: Point) -> real {
    let raw = 1real / (1real + (m.exp)(-p.b));
    let p1 = if (1real / 2real) < raw { 1real - raw } else { raw };
    let n = (m.floor)(p.a + (1real / 2real));
    n * p1
}

/// The mean of a binomial count folded about an even chance.
pub fn binomial_mean() -> (r: Formula)
    ensures
        forall|m: Calculus, p: Point| #[trigger] formula::meaning(m, r, p) == binomial_mean_at(m, p),
{
    let raw = over(whole(1), plus(whole(1), call(Call::Exp, minus(slot(Slot::B)))));
    let p1 = branch(below(ratio(1, 2), raw.clone()), less(whole(1), raw.clone()), raw.clone());
    let n = call(Call::Floor, plus(slot(Slot::A), ratio(1, 2)));
    times(n.clone(), p1.clone())
}

/// The mass of no event at all.
pub open spec fn poisson_first_at(m: Calculus, p: Point) -> real {
    (m.exp)(-p.a)
}

/// The mass of no event at all.
pub fn poisson_first() -> (r: Formula)
    ensures
        forall|m: Calculus, p: Point| #[trigger] formula::meaning(m, r, p) == poisson_first_at(m, p),
{
    call(Call::Exp, minus(slot(Slot::A)))
}

/// The mass of one event more, from the mass of `v` events.
pub open spec fn poisson_next_at(m: Calculus, p: Point) -> real {
    p.u * p.a / (p.v + 1real)
}

/// The mass of one event more, from the mass of `v` events.
pub fn poisson_next() -> (r: Formula)
    ensures
        forall|m: Calculus, p: Point| #[trigger] formula::meaning(m, r, p) == poisson_next_at(m, p),
{
    over(times(slot(Slot::U), slot(Slot::A)), plus(slot(Slot::V), whole(1)))
}

/// The mass of no success at all, folded about an even chance.
pub open spec fn binomial_first_at(m: Calculus, p: Point) -> real {
    let raw = 1real / (1real + (m.exp)(-p.b));
    let p1 = if (1real / 2real) < raw { 1real - raw } else { raw };
    let n = (m.floor)(p.a + (1real / 2real));
    let q = 1real - p1;
    (m.exp)(n * (m.ln)(q))
}

/// The mass of no success at all, folded about an even chance.
pub fn binomial_first() -> (r: Formula)
    ensures
        forall|m: Calculus, p: Point| #[trigger] formula::meaning(m, r, p) == binomial_first_at(m, p),
{
    let raw = over(whole(1), plus(whole(1), call(Call::Exp, minus(slot(Slot::B)))));
    let p1 = branch(below(ratio(1, 2), raw.clone()), less(whole(1), raw.clone()), raw.clone());
    let n = call(Call::Floor, plus(slot(Slot::A), ratio(1, 2)));
    let q = less(whole(1), p1.clone());
    call(Call::Exp, times(n.clone(), call(Call::Ln, q.clone())))
}

/// The mass of one success more, from the mass of `v` successes.
pub open spec fn binomial_next_at(m: Calculus, p: Point) -> real {
    let raw = 1real / (1real + (m.exp)(-p.b));
    let p1 = if (1real / 2real) < raw { 1real - raw } else { raw };
    let n = (m.floor)(p.a + (1real / 2real));
    let q = 1real - p1;
    let odds = p1 / q;
    p.u * odds * (n - p.v) / (p.v + 1real)
}

/// The mass of one success more, from the mass of `v` successes.
pub fn binomial_next() -> (r: Formula)
    ensures
        forall|m: Calculus, p: Point| #[trigger] formula::meaning(m, r, p) == binomial_next_at(m, p),
{
    let raw = over(whole(1), plus(whole(1), call(Call::Exp, minus(slot(Slot::B)))));
    let p1 = branch(below(ratio(1, 2), raw.clone()), less(whole(1), raw.clone()), raw.clone());
    let n = call(Call::Floor, plus(slot(Slot::A), ratio(1, 2)));
    let q = less(whole(1), p1.clone());
    let odds = over(p1.clone(), q.clone());
    over(
        times(times(slot(Slot::U), odds.clone()), less(n.clone(), slot(Slot::V))),
        plus(slot(Slot::V), whole(1)),
    )
}

/// The whole number of trials.
pub open spec fn trials_at(m: Calculus, p: Point) -> real {
    (m.floor)(p.a + (1real / 2real))
}

/// The whole number of trials.
pub fn trials() -> (r: Formula)
    ensures
        forall|m: Calculus, p: Point| #[trigger] formula::meaning(m, r, p) == trials_at(m, p),
{
    call(Call::Floor, plus(slot(Slot::A), ratio(1, 2)))
}

/// An angle brought into `[-pi, pi)`.
pub open spec fn wrapped_at(m: Calculus, p: Point) -> real {
    let two_pi = 2real * m.pi;
    let shifted = p.u + m.pi;
    shifted - two_pi * (m.floor)(shifted / two_pi) - m.pi
}

/// An angle brought into `[-pi, pi)`.
pub fn wrap_angle() -> (r: Formula)
    ensures
        forall|m: Calculus, p: Point| #[trigger] formula::meaning(m, r, p) == wrapped_at(m, p),
{
    let two_pi = times(whole(2), named(Named::Pi));
    let shifted = plus(slot(Slot::U), named(Named::Pi));
    less(
        less(
            shifted.clone(),
            times(two_pi.clone(), call(Call::Floor, over(shifted.clone(), two_pi.clone()))),
        ),
        named(Named::Pi),
    )
}

/// A draw from the two it is made of, for the families that reject.
pub open spec fn combined(m: Calculus, kind: Kind, p: Point) -> real {
    match kind {
        Kind::Gamma => p.u / p.b,
        Kind::InverseGamma => p.b / p.u,
        Kind::Beta => p.u / (p.u + p.v),
        Kind::StudentT => p.b + p.c * (m.ndtri)(p.u) * (m.sqrt)((1real / 2real) * p.a / p.v),
        Kind::FisherSnedecor => p.u / ((1real / 2real) * p.a) / (p.v / ((1real / 2real) * p.b)),
        Kind::VonMises => {
            let two_pi = 2real * m.pi;
            let shifted = p.a + p.u + m.pi;
            shifted - two_pi * (m.floor)(shifted / two_pi) - m.pi
        },
        Kind::Poisson => p.u,
        Kind::Binomial => p.u,
        Kind::NegativeBinomial => p.v,
        _ => 0real,
    }
}

/// A draw from the two it is made of, for the families that reject.
pub fn combine_of(kind: Kind) -> (r: Formula)
    ensures
        forall|m: Calculus, p: Point| #[trigger] formula::meaning(m, r, p) == combined(m, kind, p),
{
    match kind {
        Kind::Gamma => over(slot(Slot::U), slot(Slot::B)),
        Kind::InverseGamma => over(slot(Slot::B), slot(Slot::U)),
        Kind::Beta => over(slot(Slot::U), plus(slot(Slot::U), slot(Slot::V))),
        Kind::StudentT => plus(
            slot(Slot::B),
            times(
                times(slot(Slot::C), call(Call::Ndtri, slot(Slot::U))),
                call(Call::Sqrt, over(times(ratio(1, 2), slot(Slot::A)), slot(Slot::V))),
            ),
        ),
        Kind::FisherSnedecor => over(
            over(slot(Slot::U), times(ratio(1, 2), slot(Slot::A))),
            over(slot(Slot::V), times(ratio(1, 2), slot(Slot::B))),
        ),
        Kind::VonMises => {
            let two_pi = times(whole(2), named(Named::Pi));
            let shifted = plus(plus(slot(Slot::A), slot(Slot::U)), named(Named::Pi));
            less(
                less(
                    shifted.clone(),
                    times(two_pi.clone(), call(Call::Floor, over(shifted.clone(), two_pi.clone()))),
                ),
                named(Named::Pi),
            )
        },
        Kind::Poisson => slot(Slot::U),
        Kind::Binomial => slot(Slot::U),
        Kind::NegativeBinomial => slot(Slot::V),
        _ => whole(0),
    }
}

/// The parameter of the first draw.
pub open spec fn first_parameter(m: Calculus, kind: Kind, p: Point) -> real {
    match kind {
        Kind::Gamma => p.a,
        Kind::InverseGamma => p.a,
        Kind::Beta => p.a,
        Kind::StudentT => p.a,
        Kind::FisherSnedecor => (1real / 2real) * p.a,
        Kind::VonMises => p.b,
        Kind::Poisson => p.a,
        Kind::Binomial => p.a,
        Kind::NegativeBinomial => p.a,
        _ => 0real,
    }
}

/// The parameter of the first draw.
pub fn first_parameter_of(kind: Kind) -> (r: Formula)
    ensures
        forall|m: Calculus, p: Point| #[trigger] formula::meaning(m, r, p) == first_parameter(m, kind, p),
{
    match kind {
        Kind::Gamma => slot(Slot::A),
        Kind::InverseGamma => slot(Slot::A),
        Kind::Beta => slot(Slot::A),
        Kind::StudentT => slot(Slot::A),
        Kind::FisherSnedecor => times(ratio(1, 2), slot(Slot::A)),
        Kind::VonMises => slot(Slot::B),
        Kind::Poisson => slot(Slot::A),
        Kind::Binomial => slot(Slot::A),
        Kind::NegativeBinomial => slot(Slot::A),
        _ => whole(0),
    }
}

/// The parameter of the second draw, which may read the first.
pub open spec fn second_parameter(m: Calculus, kind: Kind, p: Point) -> real {
    match kind {
        Kind::Beta => p.b,
        Kind::StudentT => (1real / 2real) * p.a,
        Kind::FisherSnedecor => (1real / 2real) * p.b,
        Kind::NegativeBinomial => p.u * (m.exp)(p.b),
        _ => 0real,
    }
}

/// The parameter of the second draw, which may read the first.
pub fn second_parameter_of(kind: Kind) -> (r: Formula)
    ensures
        forall|m: Calculus, p: Point| #[trigger] formula::meaning(m, r, p) == second_parameter(m, kind, p),
{
    match kind {
        Kind::Beta => slot(Slot::B),
        Kind::StudentT => times(ratio(1, 2), slot(Slot::A)),
        Kind::FisherSnedecor => times(ratio(1, 2), slot(Slot::B)),
        Kind::NegativeBinomial => times(slot(Slot::U), call(Call::Exp, slot(Slot::B))),
        _ => whole(0),
    }
}

/// What a draw of a rejection family is made of.
#[derive(Debug, Clone, Copy, PartialEq, Eq, Structural)]
pub enum Ingredient {
    /// One uniform number.
    Uniform,
    /// A gamma draw of unit rate.
    Gamma,
    /// An angle about zero.
    Angle,
    /// A count of a Poisson process.
    Poisson,
    /// A count of successes.
    Binomial,
}

/// What the first draw of a family is, and the second where there is one. Families that
/// take one uniform number have no recipe.
pub open spec fn recipe(kind: Kind) -> Option<(Ingredient, Option<Ingredient>)> {
    match kind {
        Kind::Gamma | Kind::InverseGamma => Some((Ingredient::Gamma, None)),
        Kind::Beta | Kind::FisherSnedecor => Some((Ingredient::Gamma, Some(Ingredient::Gamma))),
        Kind::StudentT => Some((Ingredient::Uniform, Some(Ingredient::Gamma))),
        Kind::VonMises => Some((Ingredient::Angle, None)),
        Kind::Poisson => Some((Ingredient::Poisson, None)),
        Kind::Binomial => Some((Ingredient::Binomial, None)),
        Kind::NegativeBinomial => Some((Ingredient::Gamma, Some(Ingredient::Poisson))),
        _ => None,
    }
}

/// What a draw is made of.
pub fn sample_of(kind: Kind) -> (r: Option<(Ingredient, Option<Ingredient>)>)
    ensures
        r == recipe(kind),
        r is None <==> kind.is_lane_sampled(),
{
    match kind {
        Kind::Gamma | Kind::InverseGamma => Some((Ingredient::Gamma, None)),
        Kind::Beta | Kind::FisherSnedecor => Some((Ingredient::Gamma, Some(Ingredient::Gamma))),
        Kind::StudentT => Some((Ingredient::Uniform, Some(Ingredient::Gamma))),
        Kind::VonMises => Some((Ingredient::Angle, None)),
        Kind::Poisson => Some((Ingredient::Poisson, None)),
        Kind::Binomial => Some((Ingredient::Binomial, None)),
        Kind::NegativeBinomial => Some((Ingredient::Gamma, Some(Ingredient::Poisson))),
        _ => None,
    }
}

/// Whether the uniform number of a draw may be zero: a chance of zero must never come up,
/// and every other family takes a logarithm.
pub fn draws_half_open(kind: Kind) -> (r: bool)
    ensures
        r == (kind is Bernoulli),
{
    match kind {
        Kind::Bernoulli => true,
        _ => false,
    }
}

/// A draw that inverts the quantile is the quantile at its uniform number.
pub proof fn law_draws_invert(m: Calculus, kind: Kind, p: Point)
    requires
        kind.inverts() || kind is ContinuousBernoulli,
    ensures
        lane_draw(m, kind, p) == families::quantile(m, kind, p),
{
}

/// Where a draw has a path derivative, it is the derivative of the quantile.
pub proof fn law_paths_follow_the_quantile(m: Calculus, kind: Kind, p: Point)
    requires
        kind.inverts(),
    ensures
        path_slopes(m, kind, p) == slopes::inverse_slopes(m, kind, p),
{
}

} // verus!
