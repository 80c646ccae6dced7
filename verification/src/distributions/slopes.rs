//! The partial derivatives of the formulas of the scalar families.
//!
//! They are written out rather than composed: the four partial derivatives of a density
//! share almost all of their work.

use vstd::prelude::*;

use super::families;
use super::families::cont_bernoulli_mean;
use super::formula;
use super::formula::{
    Calculus, Call, Formula, Named, Pair, Point, Slot, call, less, minus, named, over, pair, plus,
    ratio, slot, times, whole,
};
use super::univariate::Kind;

verus! {

/// Partial derivatives with respect to the value and the three parameters.
pub struct Slopes {
    pub dx: real,
    pub da: real,
    pub db: real,
    pub dc: real,
}

/// The formulas of the partial derivatives with respect to the value and the three
/// parameters.
#[derive(Debug)]
pub struct Grad4 {
    pub dx: Formula,
    pub da: Formula,
    pub db: Formula,
    pub dc: Formula,
}

impl Grad4 {
    /// What the formulas mean at a point.
    pub open spec fn at(self, m: Calculus, p: Point) -> Slopes {
        Slopes {
            dx: formula::meaning(m, self.dx, p),
            da: formula::meaning(m, self.da, p),
            db: formula::meaning(m, self.db, p),
            dc: formula::meaning(m, self.dc, p),
        }
    }
}

/// Every partial derivative of the log-density. Slots a family does not use are zero.
pub open spec fn score(m: Calculus, kind: Kind, p: Point) -> Slopes {
    match kind {
        Kind::Normal => {
            let z = (p.x - p.a) / p.b;
            Slopes { dx: (-z) / p.b, da: z / p.b, db: (z * z - 1real) / p.b, dc: 0real }
        },
        Kind::Uniform => {
            let w = 1real / (p.b - p.a);
            Slopes { dx: 0real, da: w, db: -w, dc: 0real }
        },
        Kind::Exponential => {
            Slopes { dx: -p.a, da: 1real / p.a - p.x, db: 0real, dc: 0real }
        },
        Kind::Laplace => {
            let s = formula::sign(p.x - p.a) / p.b;
            Slopes {
                dx: -s,
                da: s,
                db: (formula::magnitude(p.x - p.a) / p.b - 1real) / p.b,
                dc: 0real,
            }
        },
        Kind::Cauchy => {
            let z = (p.x - p.a) / p.b;
            let g = 2real * z / (1real + z * z);
            Slopes { dx: (-g) / p.b, da: g / p.b, db: (z * g - 1real) / p.b, dc: 0real }
        },
        Kind::Gumbel => {
            let z = (p.x - p.a) / p.b;
            let g = 1real - (m.exp)(-z);
            Slopes { dx: (-g) / p.b, da: g / p.b, db: (z * g - 1real) / p.b, dc: 0real }
        },
        Kind::HalfNormal => {
            let z = p.x / p.a;
            Slopes { dx: (-z) / p.a, da: (z * z - 1real) / p.a, db: 0real, dc: 0real }
        },
        Kind::HalfCauchy => {
            let z = p.x / p.a;
            let g = 2real * z / (1real + z * z);
            Slopes { dx: (-g) / p.a, da: (z * g - 1real) / p.a, db: 0real, dc: 0real }
        },
        Kind::LogNormal => {
            let l = (m.ln)(p.x);
            let z = (l - p.a) / p.b;
            Slopes {
                dx: ((-z) / p.b - 1real) / p.x,
                da: z / p.b,
                db: (z * z - 1real) / p.b,
                dc: 0real,
            }
        },
        Kind::Pareto => {
            Slopes {
                dx: (-(p.b + 1real)) / p.x,
                da: p.b / p.a,
                db: 1real / p.b + (m.ln)(p.a) - (m.ln)(p.x),
                dc: 0real,
            }
        },
        Kind::Weibull => {
            let z = p.x / p.a;
            let t = (m.pow)(z, p.b);
            Slopes {
                dx: (p.b - 1real) / p.x - p.b * t / p.x,
                da: p.b * (t - 1real) / p.a,
                db: 1real / p.b + (1real - t) * (m.ln)(z),
                dc: 0real,
            }
        },
        Kind::Kumaraswamy => {
            let lx = (m.ln)(p.x);
            let w = (m.pow)(p.x, p.a);
            let rest = 1real - w;
            Slopes {
                dx: (p.a - 1real) / p.x - (p.b - 1real) * p.a * w / (p.x * rest),
                da: 1real / p.a + lx - (p.b - 1real) * w * lx / rest,
                db: 1real / p.b + (m.log1p)(-w),
                dc: 0real,
            }
        },
        Kind::Gamma => {
            Slopes {
                dx: (p.a - 1real) / p.x - p.b,
                da: (m.ln)(p.b) + (m.ln)(p.x) - (m.digamma)(p.a),
                db: p.a / p.b - p.x,
                dc: 0real,
            }
        },
        Kind::InverseGamma => {
            Slopes {
                dx: p.b / (p.x * p.x) - (p.a + 1real) / p.x,
                da: (m.ln)(p.b) - (m.digamma)(p.a) - (m.ln)(p.x),
                db: p.a / p.b - 1real / p.x,
                dc: 0real,
            }
        },
        Kind::Beta => {
            let psi_sum = (m.digamma)(p.a + p.b);
            Slopes {
                dx: (p.a - 1real) / p.x - (p.b - 1real) / (1real - p.x),
                da: (m.ln)(p.x) - (m.digamma)(p.a) + psi_sum,
                db: (m.log1p)(-p.x) - (m.digamma)(p.b) + psi_sum,
                dc: 0real,
            }
        },
        Kind::StudentT => {
            let z = (p.x - p.b) / p.c;
            let half = (1real / 2real) * p.a;
            let scaled = z * z / p.a;
            let sq = 1real + scaled;
            let slope = (p.a + 1real) * z / (p.a * sq);
            Slopes {
                dx: (-slope) / p.c,
                da: (1real / 2real) * ((m.digamma)(half + (1real / 2real)) - (m.digamma)(half))
                    - (1real / 2real) / p.a - (1real / 2real) * (m.log1p)(scaled)
                    + (p.a + 1real) * scaled / (2real * p.a * sq),
                db: slope / p.c,
                dc: (slope * z - 1real) / p.c,
            }
        },
        Kind::FisherSnedecor => {
            let h1 = (1real / 2real) * p.a;
            let h2 = (1real / 2real) * p.b;
            let r = p.a / p.b;
            let denom = 1real + r * p.x;
            let psi_sum = (m.digamma)(h1 + h2);
            Slopes {
                dx: (h1 - 1real) / p.x - (h1 + h2) * r / denom,
                da: (1real / 2real) * (psi_sum - (m.digamma)(h1) + (m.ln)(r) + 1real + (m.ln)(p.x) - (m.log1p)(r * p.x))
                    - (h1 + h2) * p.x / (p.b * denom),
                db: (1real / 2real) * (psi_sum - (m.digamma)(h2) - (m.log1p)(r * p.x)) - h1 / p.b
                    + (h1 + h2) * r * p.x / (p.b * denom),
                dc: 0real,
            }
        },
        Kind::VonMises => {
            let s = (m.sin)(p.x - p.a);
            Slopes {
                dx: (-p.b) * s,
                da: p.b * s,
                db: (m.cos)(p.x - p.a) - (m.bessel_ratio)(p.b),
                dc: 0real,
            }
        },
        Kind::ContinuousBernoulli => {
            Slopes { dx: p.a, da: p.x - families::bernoulli_mean_at(m, p.a), db: 0real, dc: 0real }
        },
        Kind::Bernoulli => {
            Slopes { dx: p.a, da: p.x - 1real / (1real + (m.exp)(-p.a)), db: 0real, dc: 0real }
        },
        Kind::Geometric => {
            Slopes {
                dx: (m.log_sigmoid)(-p.a),
                da: 1real / (1real + (m.exp)(-(-p.a))) - p.x * (1real / (1real + (m.exp)(-p.a))),
                db: 0real,
                dc: 0real,
            }
        },
        Kind::Poisson => {
            Slopes {
                dx: (m.ln)(p.a) - (m.digamma)(p.x + 1real),
                da: p.x / p.a - 1real,
                db: 0real,
                dc: 0real,
            }
        },
        Kind::Binomial => {
            Slopes {
                dx: p.b + (m.digamma)(p.a - p.x + 1real) - (m.digamma)(p.x + 1real),
                da: (m.digamma)(p.a + 1real) - (m.digamma)(p.a - p.x + 1real) - (m.softplus)(p.b),
                db: p.x - p.a * (1real / (1real + (m.exp)(-p.b))),
                dc: 0real,
            }
        },
        Kind::NegativeBinomial => {
            let psi_sum = (m.digamma)(p.a + p.x);
            Slopes {
                dx: (m.log_sigmoid)(p.b) + psi_sum - (m.digamma)(1real + p.x),
                da: (m.log_sigmoid)(-p.b) + psi_sum - (m.digamma)(p.a),
                db: p.x * (1real / (1real + (m.exp)(-(-p.b))))
                    - p.a * (1real / (1real + (m.exp)(-p.b))),
                dc: 0real,
            }
        },
        Kind::LogitRelaxedBernoulli => {
            let diff = p.b - p.x * p.a;
            let g = 1real - 2real * (1real / (1real + (m.exp)(-diff)));
            Slopes { dx: (-p.a) * g, da: 1real / p.a - p.x * g, db: g, dc: 0real }
        },
        Kind::RelaxedBernoulli => {
            let y = (m.ln)(p.x) - (m.log1p)(-p.x);
            let diff = p.b - y * p.a;
            let g = 1real - 2real * (1real / (1real + (m.exp)(-diff)));
            Slopes {
                dx: (-p.a) * g / (p.x * (1real - p.x)) - 1real / p.x + 1real / (1real - p.x),
                da: 1real / p.a - y * g,
                db: g,
                dc: 0real,
            }
        },
    }
}

/// Every partial derivative of the log-density. Slots a family does not use are zero.
pub fn log_prob_grad_of(kind: Kind) -> (r: Grad4)
    ensures
        forall|m: Calculus, p: Point| #[trigger] r.at(m, p) == score(m, kind, p),
{
    match kind {
        Kind::Normal => {
            let z = over(less(slot(Slot::X), slot(Slot::A)), slot(Slot::B));
            Grad4 {
                dx: over(minus(z.clone()), slot(Slot::B)),
                da: over(z.clone(), slot(Slot::B)),
                db: over(less(times(z.clone(), z.clone()), whole(1)), slot(Slot::B)),
                dc: whole(0),
            }
        },
        Kind::Uniform => {
            let w = over(whole(1), less(slot(Slot::B), slot(Slot::A)));
            Grad4 { dx: whole(0), da: w.clone(), db: minus(w.clone()), dc: whole(0) }
        },
        Kind::Exponential => {
            Grad4 {
                dx: minus(slot(Slot::A)),
                da: less(over(whole(1), slot(Slot::A)), slot(Slot::X)),
                db: whole(0),
                dc: whole(0),
            }
        },
        Kind::Laplace => {
            let s = over(call(Call::Sign, less(slot(Slot::X), slot(Slot::A))), slot(Slot::B));
            Grad4 {
                dx: minus(s.clone()),
                da: s.clone(),
                db: over(
                    less(
                        over(call(Call::Abs, less(slot(Slot::X), slot(Slot::A))), slot(Slot::B)),
                        whole(1),
                    ),
                    slot(Slot::B),
                ),
                dc: whole(0),
            }
        },
        Kind::Cauchy => {
            let z = over(less(slot(Slot::X), slot(Slot::A)), slot(Slot::B));
            let g = over(times(whole(2), z.clone()), plus(whole(1), times(z.clone(), z.clone())));
            Grad4 {
                dx: over(minus(g.clone()), slot(Slot::B)),
                da: over(g.clone(), slot(Slot::B)),
                db: over(less(times(z.clone(), g.clone()), whole(1)), slot(Slot::B)),
                dc: whole(0),
            }
        },
        Kind::Gumbel => {
            let z = over(less(slot(Slot::X), slot(Slot::A)), slot(Slot::B));
            let g = less(whole(1), call(Call::Exp, minus(z.clone())));
            Grad4 {
                dx: over(minus(g.clone()), slot(Slot::B)),
                da: over(g.clone(), slot(Slot::B)),
                db: over(less(times(z.clone(), g.clone()), whole(1)), slot(Slot::B)),
                dc: whole(0),
            }
        },
        Kind::HalfNormal => {
            let z = over(slot(Slot::X), slot(Slot::A));
            Grad4 {
                dx: over(minus(z.clone()), slot(Slot::A)),
                da: over(less(times(z.clone(), z.clone()), whole(1)), slot(Slot::A)),
                db: whole(0),
                dc: whole(0),
            }
        },
        Kind::HalfCauchy => {
            let z = over(slot(Slot::X), slot(Slot::A));
            let g = over(times(whole(2), z.clone()), plus(whole(1), times(z.clone(), z.clone())));
            Grad4 {
                dx: over(minus(g.clone()), slot(Slot::A)),
                da: over(less(times(z.clone(), g.clone()), whole(1)), slot(Slot::A)),
                db: whole(0),
                dc: whole(0),
            }
        },
        Kind::LogNormal => {
            let l = call(Call::Ln, slot(Slot::X));
            let z = over(less(l.clone(), slot(Slot::A)), slot(Slot::B));
            Grad4 {
                dx: over(less(over(minus(z.clone()), slot(Slot::B)), whole(1)), slot(Slot::X)),
                da: over(z.clone(), slot(Slot::B)),
                db: over(less(times(z.clone(), z.clone()), whole(1)), slot(Slot::B)),
                dc: whole(0),
            }
        },
        Kind::Pareto => {
            Grad4 {
                dx: over(minus(plus(slot(Slot::B), whole(1))), slot(Slot::X)),
                da: over(slot(Slot::B), slot(Slot::A)),
                db: less(
                    plus(over(whole(1), slot(Slot::B)), call(Call::Ln, slot(Slot::A))),
                    call(Call::Ln, slot(Slot::X)),
                ),
                dc: whole(0),
            }
        },
        Kind::Weibull => {
            let z = over(slot(Slot::X), slot(Slot::A));
            let t = pair(Pair::Pow, z.clone(), slot(Slot::B));
            Grad4 {
                dx: less(
                    over(less(slot(Slot::B), whole(1)), slot(Slot::X)),
                    over(times(slot(Slot::B), t.clone()), slot(Slot::X)),
                ),
                da: over(times(slot(Slot::B), less(t.clone(), whole(1))), slot(Slot::A)),
                db: plus(
                    over(whole(1), slot(Slot::B)),
                    times(less(whole(1), t.clone()), call(Call::Ln, z.clone())),
                ),
                dc: whole(0),
            }
        },
        Kind::Kumaraswamy => {
            let lx = call(Call::Ln, slot(Slot::X));
            let w = pair(Pair::Pow, slot(Slot::X), slot(Slot::A));
            let rest = less(whole(1), w.clone());
            Grad4 {
                dx: less(
                    over(less(slot(Slot::A), whole(1)), slot(Slot::X)),
                    over(
                        times(times(less(slot(Slot::B), whole(1)), slot(Slot::A)), w.clone()),
                        times(slot(Slot::X), rest.clone()),
                    ),
                ),
                da: less(
                    plus(over(whole(1), slot(Slot::A)), lx.clone()),
                    over(
                        times(times(less(slot(Slot::B), whole(1)), w.clone()), lx.clone()),
                        rest.clone(),
                    ),
                ),
                db: plus(over(whole(1), slot(Slot::B)), call(Call::Log1p, minus(w.clone()))),
                dc: whole(0),
            }
        },
        Kind::Gamma => {
            Grad4 {
                dx: less(over(less(slot(Slot::A), whole(1)), slot(Slot::X)), slot(Slot::B)),
                da: less(
                    plus(call(Call::Ln, slot(Slot::B)), call(Call::Ln, slot(Slot::X))),
                    call(Call::Digamma, slot(Slot::A)),
                ),
                db: less(over(slot(Slot::A), slot(Slot::B)), slot(Slot::X)),
                dc: whole(0),
            }
        },
        Kind::InverseGamma => {
            Grad4 {
                dx: less(
                    over(slot(Slot::B), times(slot(Slot::X), slot(Slot::X))),
                    over(plus(slot(Slot::A), whole(1)), slot(Slot::X)),
                ),
                da: less(
                    less(call(Call::Ln, slot(Slot::B)), call(Call::Digamma, slot(Slot::A))),
                    call(Call::Ln, slot(Slot::X)),
                ),
                db: less(over(slot(Slot::A), slot(Slot::B)), over(whole(1), slot(Slot::X))),
                dc: whole(0),
            }
        },
        Kind::Beta => {
            let psi_sum = call(Call::Digamma, plus(slot(Slot::A), slot(Slot::B)));
            Grad4 {
                dx: less(
                    over(less(slot(Slot::A), whole(1)), slot(Slot::X)),
                    over(less(slot(Slot::B), whole(1)), less(whole(1), slot(Slot::X))),
                ),
                da: plus(
                    less(call(Call::Ln, slot(Slot::X)), call(Call::Digamma, slot(Slot::A))),
                    psi_sum.clone(),
                ),
                db: plus(
                    less(
                        call(Call::Log1p, minus(slot(Slot::X))),
                        call(Call::Digamma, slot(Slot::B)),
                    ),
                    psi_sum.clone(),
                ),
                dc: whole(0),
            }
        },
        Kind::StudentT => {
            let z = over(less(slot(Slot::X), slot(Slot::B)), slot(Slot::C));
            let half = times(ratio(1, 2), slot(Slot::A));
            let scaled = over(times(z.clone(), z.clone()), slot(Slot::A));
            let sq = plus(whole(1), scaled.clone());
            let slope = over(
                times(plus(slot(Slot::A), whole(1)), z.clone()),
                times(slot(Slot::A), sq.clone()),
            );
            Grad4 {
                dx: over(minus(slope.clone()), slot(Slot::C)),
                da: plus(
                    less(
                        less(
                            times(
                                ratio(1, 2),
                                less(
                                    call(Call::Digamma, plus(half.clone(), ratio(1, 2))),
                                    call(Call::Digamma, half.clone()),
                                ),
                            ),
                            over(ratio(1, 2), slot(Slot::A)),
                        ),
                        times(ratio(1, 2), call(Call::Log1p, scaled.clone())),
                    ),
                    over(
                        times(plus(slot(Slot::A), whole(1)), scaled.clone()),
                        times(times(whole(2), slot(Slot::A)), sq.clone()),
                    ),
                ),
                db: over(slope.clone(), slot(Slot::C)),
                dc: over(less(times(slope.clone(), z.clone()), whole(1)), slot(Slot::C)),
            }
        },
        Kind::FisherSnedecor => {
            let h1 = times(ratio(1, 2), slot(Slot::A));
            let h2 = times(ratio(1, 2), slot(Slot::B));
            let r = over(slot(Slot::A), slot(Slot::B));
            let denom = plus(whole(1), times(r.clone(), slot(Slot::X)));
            let psi_sum = call(Call::Digamma, plus(h1.clone(), h2.clone()));
            Grad4 {
                dx: less(
                    over(less(h1.clone(), whole(1)), slot(Slot::X)),
                    over(times(plus(h1.clone(), h2.clone()), r.clone()), denom.clone()),
                ),
                da: less(
                    times(
                        ratio(1, 2),
                        less(
                            plus(
                                plus(
                                    plus(
                                        less(psi_sum.clone(), call(Call::Digamma, h1.clone())),
                                        call(Call::Ln, r.clone()),
                                    ),
                                    whole(1),
                                ),
                                call(Call::Ln, slot(Slot::X)),
                            ),
                            call(Call::Log1p, times(r.clone(), slot(Slot::X))),
                        ),
                    ),
                    over(
                        times(plus(h1.clone(), h2.clone()), slot(Slot::X)),
                        times(slot(Slot::B), denom.clone()),
                    ),
                ),
                db: plus(
                    less(
                        times(
                            ratio(1, 2),
                            less(
                                less(psi_sum.clone(), call(Call::Digamma, h2.clone())),
                                call(Call::Log1p, times(r.clone(), slot(Slot::X))),
                            ),
                        ),
                        over(h1.clone(), slot(Slot::B)),
                    ),
                    over(
                        times(times(plus(h1.clone(), h2.clone()), r.clone()), slot(Slot::X)),
                        times(slot(Slot::B), denom.clone()),
                    ),
                ),
                dc: whole(0),
            }
        },
        Kind::VonMises => {
            let s = call(Call::Sin, less(slot(Slot::X), slot(Slot::A)));
            Grad4 {
                dx: times(minus(slot(Slot::B)), s.clone()),
                da: times(slot(Slot::B), s.clone()),
                db: less(
                    call(Call::Cos, less(slot(Slot::X), slot(Slot::A))),
                    call(Call::BesselRatio, slot(Slot::B)),
                ),
                dc: whole(0),
            }
        },
        Kind::ContinuousBernoulli => {
            Grad4 {
                dx: slot(Slot::A),
                da: less(slot(Slot::X), cont_bernoulli_mean(slot(Slot::A))),
                db: whole(0),
                dc: whole(0),
            }
        },
        Kind::Bernoulli => {
            Grad4 {
                dx: slot(Slot::A),
                da: less(
                    slot(Slot::X),
                    over(whole(1), plus(whole(1), call(Call::Exp, minus(slot(Slot::A))))),
                ),
                db: whole(0),
                dc: whole(0),
            }
        },
        Kind::Geometric => {
            Grad4 {
                dx: call(Call::LogSigmoid, minus(slot(Slot::A))),
                da: less(
                    over(whole(1), plus(whole(1), call(Call::Exp, minus(minus(slot(Slot::A)))))),
                    times(
                        slot(Slot::X),
                        over(whole(1), plus(whole(1), call(Call::Exp, minus(slot(Slot::A))))),
                    ),
                ),
                db: whole(0),
                dc: whole(0),
            }
        },
        Kind::Poisson => {
            Grad4 {
                dx: less(
                    call(Call::Ln, slot(Slot::A)),
                    call(Call::Digamma, plus(slot(Slot::X), whole(1))),
                ),
                da: less(over(slot(Slot::X), slot(Slot::A)), whole(1)),
                db: whole(0),
                dc: whole(0),
            }
        },
        Kind::Binomial => {
            Grad4 {
                dx: less(
                    plus(
                        slot(Slot::B),
                        call(Call::Digamma, plus(less(slot(Slot::A), slot(Slot::X)), whole(1))),
                    ),
                    call(Call::Digamma, plus(slot(Slot::X), whole(1))),
                ),
                da: less(
                    less(
                        call(Call::Digamma, plus(slot(Slot::A), whole(1))),
                        call(Call::Digamma, plus(less(slot(Slot::A), slot(Slot::X)), whole(1))),
                    ),
                    call(Call::Softplus, slot(Slot::B)),
                ),
                db: less(
                    slot(Slot::X),
                    times(
                        slot(Slot::A),
                        over(whole(1), plus(whole(1), call(Call::Exp, minus(slot(Slot::B))))),
                    ),
                ),
                dc: whole(0),
            }
        },
        Kind::NegativeBinomial => {
            let psi_sum = call(Call::Digamma, plus(slot(Slot::A), slot(Slot::X)));
            Grad4 {
                dx: less(
                    plus(call(Call::LogSigmoid, slot(Slot::B)), psi_sum.clone()),
                    call(Call::Digamma, plus(whole(1), slot(Slot::X))),
                ),
                da: less(
                    plus(call(Call::LogSigmoid, minus(slot(Slot::B))), psi_sum.clone()),
                    call(Call::Digamma, slot(Slot::A)),
                ),
                db: less(
                    times(
                        slot(Slot::X),
                        over(
                            whole(1),
                            plus(whole(1), call(Call::Exp, minus(minus(slot(Slot::B))))),
                        ),
                    ),
                    times(
                        slot(Slot::A),
                        over(whole(1), plus(whole(1), call(Call::Exp, minus(slot(Slot::B))))),
                    ),
                ),
                dc: whole(0),
            }
        },
        Kind::LogitRelaxedBernoulli => {
            let diff = less(slot(Slot::B), times(slot(Slot::X), slot(Slot::A)));
            let g = less(
                whole(1),
                times(
                    whole(2),
                    over(whole(1), plus(whole(1), call(Call::Exp, minus(diff.clone())))),
                ),
            );
            Grad4 {
                dx: times(minus(slot(Slot::A)), g.clone()),
                da: less(over(whole(1), slot(Slot::A)), times(slot(Slot::X), g.clone())),
                db: g.clone(),
                dc: whole(0),
            }
        },
        Kind::RelaxedBernoulli => {
            let y = less(call(Call::Ln, slot(Slot::X)), call(Call::Log1p, minus(slot(Slot::X))));
            let diff = less(slot(Slot::B), times(y.clone(), slot(Slot::A)));
            let g = less(
                whole(1),
                times(
                    whole(2),
                    over(whole(1), plus(whole(1), call(Call::Exp, minus(diff.clone())))),
                ),
            );
            Grad4 {
                dx: plus(
                    less(
                        over(
                            times(minus(slot(Slot::A)), g.clone()),
                            times(slot(Slot::X), less(whole(1), slot(Slot::X))),
                        ),
                        over(whole(1), slot(Slot::X)),
                    ),
                    over(whole(1), less(whole(1), slot(Slot::X))),
                ),
                da: less(over(whole(1), slot(Slot::A)), times(y.clone(), g.clone())),
                db: g.clone(),
                dc: whole(0),
            }
        },
    }
}

/// Every partial derivative of the entropy; undefined where the entropy is.
pub open spec fn entropy_slopes(m: Calculus, kind: Kind, p: Point) -> Slopes {
    match kind {
        Kind::Normal => {
            Slopes { dx: 0real, da: 0real, db: 1real / p.b, dc: 0real }
        },
        Kind::Uniform => {
            let w = 1real / (p.b - p.a);
            Slopes { dx: 0real, da: -w, db: w, dc: 0real }
        },
        Kind::Exponential => {
            Slopes { dx: 0real, da: (-1real) / p.a, db: m.nan, dc: 0real }
        },
        Kind::Laplace => {
            Slopes { dx: 0real, da: 0real, db: 1real / p.b, dc: 0real }
        },
        Kind::Cauchy => {
            Slopes { dx: 0real, da: 0real, db: 1real / p.b, dc: 0real }
        },
        Kind::Gumbel => {
            Slopes { dx: 0real, da: 0real, db: 1real / p.b, dc: 0real }
        },
        Kind::HalfNormal => {
            Slopes { dx: 0real, da: 1real / p.a, db: m.nan, dc: 0real }
        },
        Kind::HalfCauchy => {
            Slopes { dx: 0real, da: 1real / p.a, db: m.nan, dc: 0real }
        },
        Kind::LogNormal => {
            Slopes { dx: 0real, da: 1real, db: 1real / p.b, dc: 0real }
        },
        Kind::Pareto => {
            Slopes { dx: 0real, da: 1real / p.a, db: (-(1real + 1real / p.b)) / p.b, dc: 0real }
        },
        Kind::Weibull => {
            Slopes {
                dx: 0real,
                da: 1real / p.a,
                db: m.euler_gamma / (p.b * p.b) - 1real / p.b,
                dc: 0real,
            }
        },
        Kind::Kumaraswamy => {
            let harmonic = m.euler_gamma + (m.digamma)(p.b + 1real);
            Slopes {
                dx: 0real,
                da: harmonic / (p.a * p.a) - 1real / p.a,
                db: 1real / (p.b * p.b) + (1real - 1real / p.a) * (m.trigamma)(p.b + 1real)
                    - 1real / p.b,
                dc: 0real,
            }
        },
        Kind::Gamma => {
            Slopes {
                dx: 0real,
                da: 1real + (1real - p.a) * (m.trigamma)(p.a),
                db: (-1real) / p.b,
                dc: 0real,
            }
        },
        Kind::InverseGamma => {
            Slopes {
                dx: 0real,
                da: 1real - (1real + p.a) * (m.trigamma)(p.a),
                db: 1real / p.b,
                dc: 0real,
            }
        },
        Kind::Beta => {
            let tri_sum = (m.trigamma)(p.a + p.b);
            Slopes {
                dx: 0real,
                da: (p.a + p.b - 2real) * tri_sum - (p.a - 1real) * (m.trigamma)(p.a),
                db: (p.a + p.b - 2real) * tri_sum - (p.b - 1real) * (m.trigamma)(p.b),
                dc: 0real,
            }
        },
        Kind::StudentT => {
            let half = (1real / 2real) * p.a;
            let hi = half + (1real / 2real);
            Slopes {
                dx: 0real,
                da: (1real / 4real) * (p.a + 1real) * ((m.trigamma)(hi) - (m.trigamma)(half))
                    + (1real / 2real) / p.a,
                db: 0real,
                dc: 1real / p.c,
            }
        },
        Kind::VonMises => {
            let q = (m.bessel_ratio)(p.b);
            let dq = 1real - q * q - q / p.b;
            Slopes { dx: 0real, da: 0real, db: (-p.b) * dq, dc: 0real }
        },
        Kind::Bernoulli => {
            let p1 = 1real / (1real + (m.exp)(-p.a));
            Slopes { dx: 0real, da: (-p.a) * p1 * (1real - p1), db: m.nan, dc: 0real }
        },
        Kind::Geometric => {
            let p1 = 1real / (1real + (m.exp)(-p.a));
            let bern = (m.softplus)(p.a) - p1 * p.a;
            let dbern = (-p.a) * p1 * (1real - p1);
            Slopes {
                dx: 0real,
                da: (dbern * p1 - bern * p1 * (1real - p1)) / (p1 * p1),
                db: m.nan,
                dc: 0real,
            }
        },
        _ => {
            Slopes { dx: 0real, da: m.nan, db: m.nan, dc: 0real }
        },
    }
}

/// Every partial derivative of the entropy; undefined where the entropy is.
pub fn entropy_grad_of(kind: Kind) -> (r: Grad4)
    ensures
        forall|m: Calculus, p: Point| #[trigger] r.at(m, p) == entropy_slopes(m, kind, p),
{
    match kind {
        Kind::Normal => {
            Grad4 { dx: whole(0), da: whole(0), db: over(whole(1), slot(Slot::B)), dc: whole(0) }
        },
        Kind::Uniform => {
            let w = over(whole(1), less(slot(Slot::B), slot(Slot::A)));
            Grad4 { dx: whole(0), da: minus(w.clone()), db: w.clone(), dc: whole(0) }
        },
        Kind::Exponential => {
            Grad4 {
                dx: whole(0),
                da: over(whole(-1), slot(Slot::A)),
                db: named(Named::Nan),
                dc: whole(0),
            }
        },
        Kind::Laplace => {
            Grad4 { dx: whole(0), da: whole(0), db: over(whole(1), slot(Slot::B)), dc: whole(0) }
        },
        Kind::Cauchy => {
            Grad4 { dx: whole(0), da: whole(0), db: over(whole(1), slot(Slot::B)), dc: whole(0) }
        },
        Kind::Gumbel => {
            Grad4 { dx: whole(0), da: whole(0), db: over(whole(1), slot(Slot::B)), dc: whole(0) }
        },
        Kind::HalfNormal => {
            Grad4 {
                dx: whole(0),
                da: over(whole(1), slot(Slot::A)),
                db: named(Named::Nan),
                dc: whole(0),
            }
        },
        Kind::HalfCauchy => {
            Grad4 {
                dx: whole(0),
                da: over(whole(1), slot(Slot::A)),
                db: named(Named::Nan),
                dc: whole(0),
            }
        },
        Kind::LogNormal => {
            Grad4 { dx: whole(0), da: whole(1), db: over(whole(1), slot(Slot::B)), dc: whole(0) }
        },
        Kind::Pareto => {
            Grad4 {
                dx: whole(0),
                da: over(whole(1), slot(Slot::A)),
                db: over(minus(plus(whole(1), over(whole(1), slot(Slot::B)))), slot(Slot::B)),
                dc: whole(0),
            }
        },
        Kind::Weibull => {
            Grad4 {
                dx: whole(0),
                da: over(whole(1), slot(Slot::A)),
                db: less(
                    over(named(Named::EulerGamma), times(slot(Slot::B), slot(Slot::B))),
                    over(whole(1), slot(Slot::B)),
                ),
                dc: whole(0),
            }
        },
        Kind::Kumaraswamy => {
            let harmonic = plus(
                named(Named::EulerGamma),
                call(Call::Digamma, plus(slot(Slot::B), whole(1))),
            );
            Grad4 {
                dx: whole(0),
                da: less(
                    over(harmonic.clone(), times(slot(Slot::A), slot(Slot::A))),
                    over(whole(1), slot(Slot::A)),
                ),
                db: less(
                    plus(
                        over(whole(1), times(slot(Slot::B), slot(Slot::B))),
                        times(
                            less(whole(1), over(whole(1), slot(Slot::A))),
                            call(Call::Trigamma, plus(slot(Slot::B), whole(1))),
                        ),
                    ),
                    over(whole(1), slot(Slot::B)),
                ),
                dc: whole(0),
            }
        },
        Kind::Gamma => {
            Grad4 {
                dx: whole(0),
                da: plus(
                    whole(1),
                    times(less(whole(1), slot(Slot::A)), call(Call::Trigamma, slot(Slot::A))),
                ),
                db: over(whole(-1), slot(Slot::B)),
                dc: whole(0),
            }
        },
        Kind::InverseGamma => {
            Grad4 {
                dx: whole(0),
                da: less(
                    whole(1),
                    times(plus(whole(1), slot(Slot::A)), call(Call::Trigamma, slot(Slot::A))),
                ),
                db: over(whole(1), slot(Slot::B)),
                dc: whole(0),
            }
        },
        Kind::Beta => {
            let tri_sum = call(Call::Trigamma, plus(slot(Slot::A), slot(Slot::B)));
            Grad4 {
                dx: whole(0),
                da: less(
                    times(less(plus(slot(Slot::A), slot(Slot::B)), whole(2)), tri_sum.clone()),
                    times(less(slot(Slot::A), whole(1)), call(Call::Trigamma, slot(Slot::A))),
                ),
                db: less(
                    times(less(plus(slot(Slot::A), slot(Slot::B)), whole(2)), tri_sum.clone()),
                    times(less(slot(Slot::B), whole(1)), call(Call::Trigamma, slot(Slot::B))),
                ),
                dc: whole(0),
            }
        },
        Kind::StudentT => {
            let half = times(ratio(1, 2), slot(Slot::A));
            let hi = plus(half.clone(), ratio(1, 2));
            Grad4 {
                dx: whole(0),
                da: plus(
                    times(
                        times(ratio(1, 4), plus(slot(Slot::A), whole(1))),
                        less(call(Call::Trigamma, hi.clone()), call(Call::Trigamma, half.clone())),
                    ),
                    over(ratio(1, 2), slot(Slot::A)),
                ),
                db: whole(0),
                dc: over(whole(1), slot(Slot::C)),
            }
        },
        Kind::VonMises => {
            let q = call(Call::BesselRatio, slot(Slot::B));
            let dq = less(
                less(whole(1), times(q.clone(), q.clone())),
                over(q.clone(), slot(Slot::B)),
            );
            Grad4 {
                dx: whole(0),
                da: whole(0),
                db: times(minus(slot(Slot::B)), dq.clone()),
                dc: whole(0),
            }
        },
        Kind::Bernoulli => {
            let p1 = over(whole(1), plus(whole(1), call(Call::Exp, minus(slot(Slot::A)))));
            Grad4 {
                dx: whole(0),
                da: times(times(minus(slot(Slot::A)), p1.clone()), less(whole(1), p1.clone())),
                db: named(Named::Nan),
                dc: whole(0),
            }
        },
        Kind::Geometric => {
            let p1 = over(whole(1), plus(whole(1), call(Call::Exp, minus(slot(Slot::A)))));
            let bern = less(call(Call::Softplus, slot(Slot::A)), times(p1.clone(), slot(Slot::A)));
            let dbern = times(times(minus(slot(Slot::A)), p1.clone()), less(whole(1), p1.clone()));
            Grad4 {
                dx: whole(0),
                da: over(
                    less(
                        times(dbern.clone(), p1.clone()),
                        times(times(bern.clone(), p1.clone()), less(whole(1), p1.clone())),
                    ),
                    times(p1.clone(), p1.clone()),
                ),
                db: named(Named::Nan),
                dc: whole(0),
            }
        },
        _ => {
            Grad4 { dx: whole(0), da: named(Named::Nan), db: named(Named::Nan), dc: whole(0) }
        },
    }
}

/// Every partial derivative of the quantile: the path derivative of a draw that inverts it.
pub open spec fn inverse_slopes(m: Calculus, kind: Kind, p: Point) -> Slopes {
    match kind {
        Kind::Normal => {
            let z = (m.ndtri)(p.x);
            Slopes {
                dx: p.b * (m.exp)((1real / 2real) * z * z + m.half_ln_two_pi),
                da: 1real,
                db: z,
                dc: 0real,
            }
        },
        Kind::Uniform => {
            Slopes { dx: p.b - p.a, da: 1real - p.x, db: p.x, dc: 0real }
        },
        Kind::Exponential => {
            let at = (-(m.log1p)(-p.x)) / p.a;
            Slopes { dx: 1real / (p.a * (1real - p.x)), da: (-at) / p.a, db: 0real, dc: 0real }
        },
        Kind::Laplace => {
            let d = p.x - (1real / 2real);
            Slopes {
                dx: 2real * p.b / (1real - 2real * formula::magnitude(d)),
                da: 1real,
                db: (-formula::sign(d)) * (m.log1p)((-2real) * formula::magnitude(d)),
                dc: 0real,
            }
        },
        Kind::Cauchy => {
            let t = (m.tan)(m.pi * (p.x - (1real / 2real)));
            Slopes { dx: p.b * m.pi * (1real + t * t), da: 1real, db: t, dc: 0real }
        },
        Kind::Gumbel => {
            let l = -(m.ln)(p.x);
            Slopes { dx: p.b / (l * p.x), da: 1real, db: -(m.ln)(l), dc: 0real }
        },
        Kind::HalfNormal => {
            let e = (m.erfinv)(p.x);
            Slopes {
                dx: p.a * m.sqrt_two * (8862269real / 10000000real) * (m.exp)(e * e),
                da: m.sqrt_two * e,
                db: 0real,
                dc: 0real,
            }
        },
        Kind::HalfCauchy => {
            let t = (m.tan)((1real / 2real) * m.pi * p.x);
            Slopes {
                dx: p.a * (1real / 2real) * m.pi * (1real + t * t),
                da: t,
                db: 0real,
                dc: 0real,
            }
        },
        Kind::LogNormal => {
            let z = (m.ndtri)(p.x);
            let at = (m.exp)(p.a + p.b * z);
            Slopes {
                dx: at * p.b * (m.exp)((1real / 2real) * z * z + m.half_ln_two_pi),
                da: at,
                db: at * z,
                dc: 0real,
            }
        },
        Kind::Pareto => {
            let l = (m.log1p)(-p.x);
            let at = p.a * (m.exp)((-l) / p.b);
            Slopes {
                dx: at / (p.b * (1real - p.x)),
                da: at / p.a,
                db: at * l / (p.b * p.b),
                dc: 0real,
            }
        },
        Kind::Weibull => {
            let l = -(m.log1p)(-p.x);
            let at = p.a * (m.pow)(l, 1real / p.b);
            Slopes {
                dx: at / (p.b * l * (1real - p.x)),
                da: at / p.a,
                db: (-at) * (m.ln)(l) / (p.b * p.b),
                dc: 0real,
            }
        },
        Kind::Kumaraswamy => {
            let l = (m.log1p)(-p.x);
            let w = -(m.expm1)(l / p.b);
            let at = (m.pow)(w, 1real / p.a);
            let chain = at / (p.a * w);
            Slopes {
                dx: chain * (1real - w) / (p.b * (1real - p.x)),
                da: (-at) * (m.ln)(w) / (p.a * p.a),
                db: chain * (1real - w) * l / (p.b * p.b),
                dc: 0real,
            }
        },
        _ => {
            Slopes { dx: 0real, da: 0real, db: 0real, dc: 0real }
        },
    }
}

/// Every partial derivative of the quantile: the path derivative of a draw that inverts it.
pub fn icdf_grad_of(kind: Kind) -> (r: Grad4)
    ensures
        forall|m: Calculus, p: Point| #[trigger] r.at(m, p) == inverse_slopes(m, kind, p),
{
    match kind {
        Kind::Normal => {
            let z = call(Call::Ndtri, slot(Slot::X));
            Grad4 {
                dx: times(
                    slot(Slot::B),
                    call(
                        Call::Exp,
                        plus(
                            times(times(ratio(1, 2), z.clone()), z.clone()),
                            named(Named::HalfLnTwoPi),
                        ),
                    ),
                ),
                da: whole(1),
                db: z.clone(),
                dc: whole(0),
            }
        },
        Kind::Uniform => {
            Grad4 {
                dx: less(slot(Slot::B), slot(Slot::A)),
                da: less(whole(1), slot(Slot::X)),
                db: slot(Slot::X),
                dc: whole(0),
            }
        },
        Kind::Exponential => {
            let at = over(minus(call(Call::Log1p, minus(slot(Slot::X)))), slot(Slot::A));
            Grad4 {
                dx: over(whole(1), times(slot(Slot::A), less(whole(1), slot(Slot::X)))),
                da: over(minus(at.clone()), slot(Slot::A)),
                db: whole(0),
                dc: whole(0),
            }
        },
        Kind::Laplace => {
            let d = less(slot(Slot::X), ratio(1, 2));
            Grad4 {
                dx: over(
                    times(whole(2), slot(Slot::B)),
                    less(whole(1), times(whole(2), call(Call::Abs, d.clone()))),
                ),
                da: whole(1),
                db: times(
                    minus(call(Call::Sign, d.clone())),
                    call(Call::Log1p, times(whole(-2), call(Call::Abs, d.clone()))),
                ),
                dc: whole(0),
            }
        },
        Kind::Cauchy => {
            let t = call(Call::Tan, times(named(Named::Pi), less(slot(Slot::X), ratio(1, 2))));
            Grad4 {
                dx: times(
                    times(slot(Slot::B), named(Named::Pi)),
                    plus(whole(1), times(t.clone(), t.clone())),
                ),
                da: whole(1),
                db: t.clone(),
                dc: whole(0),
            }
        },
        Kind::Gumbel => {
            let l = minus(call(Call::Ln, slot(Slot::X)));
            Grad4 {
                dx: over(slot(Slot::B), times(l.clone(), slot(Slot::X))),
                da: whole(1),
                db: minus(call(Call::Ln, l.clone())),
                dc: whole(0),
            }
        },
        Kind::HalfNormal => {
            let e = call(Call::Erfinv, slot(Slot::X));
            Grad4 {
                dx: times(
                    times(times(slot(Slot::A), named(Named::SqrtTwo)), ratio(8862269, 10000000)),
                    call(Call::Exp, times(e.clone(), e.clone())),
                ),
                da: times(named(Named::SqrtTwo), e.clone()),
                db: whole(0),
                dc: whole(0),
            }
        },
        Kind::HalfCauchy => {
            let t = call(Call::Tan, times(times(ratio(1, 2), named(Named::Pi)), slot(Slot::X)));
            Grad4 {
                dx: times(
                    times(times(slot(Slot::A), ratio(1, 2)), named(Named::Pi)),
                    plus(whole(1), times(t.clone(), t.clone())),
                ),
                da: t.clone(),
                db: whole(0),
                dc: whole(0),
            }
        },
        Kind::LogNormal => {
            let z = call(Call::Ndtri, slot(Slot::X));
            let at = call(Call::Exp, plus(slot(Slot::A), times(slot(Slot::B), z.clone())));
            Grad4 {
                dx: times(
                    times(at.clone(), slot(Slot::B)),
                    call(
                        Call::Exp,
                        plus(
                            times(times(ratio(1, 2), z.clone()), z.clone()),
                            named(Named::HalfLnTwoPi),
                        ),
                    ),
                ),
                da: at.clone(),
                db: times(at.clone(), z.clone()),
                dc: whole(0),
            }
        },
        Kind::Pareto => {
            let l = call(Call::Log1p, minus(slot(Slot::X)));
            let at = times(slot(Slot::A), call(Call::Exp, over(minus(l.clone()), slot(Slot::B))));
            Grad4 {
                dx: over(at.clone(), times(slot(Slot::B), less(whole(1), slot(Slot::X)))),
                da: over(at.clone(), slot(Slot::A)),
                db: over(times(at.clone(), l.clone()), times(slot(Slot::B), slot(Slot::B))),
                dc: whole(0),
            }
        },
        Kind::Weibull => {
            let l = minus(call(Call::Log1p, minus(slot(Slot::X))));
            let at = times(
                slot(Slot::A),
                pair(Pair::Pow, l.clone(), over(whole(1), slot(Slot::B))),
            );
            Grad4 {
                dx: over(
                    at.clone(),
                    times(times(slot(Slot::B), l.clone()), less(whole(1), slot(Slot::X))),
                ),
                da: over(at.clone(), slot(Slot::A)),
                db: over(
                    times(minus(at.clone()), call(Call::Ln, l.clone())),
                    times(slot(Slot::B), slot(Slot::B)),
                ),
                dc: whole(0),
            }
        },
        Kind::Kumaraswamy => {
            let l = call(Call::Log1p, minus(slot(Slot::X)));
            let w = minus(call(Call::Expm1, over(l.clone(), slot(Slot::B))));
            let at = pair(Pair::Pow, w.clone(), over(whole(1), slot(Slot::A)));
            let chain = over(at.clone(), times(slot(Slot::A), w.clone()));
            Grad4 {
                dx: over(
                    times(chain.clone(), less(whole(1), w.clone())),
                    times(slot(Slot::B), less(whole(1), slot(Slot::X))),
                ),
                da: over(
                    times(minus(at.clone()), call(Call::Ln, w.clone())),
                    times(slot(Slot::A), slot(Slot::A)),
                ),
                db: over(
                    times(times(chain.clone(), less(whole(1), w.clone())), l.clone()),
                    times(slot(Slot::B), slot(Slot::B)),
                ),
                dc: whole(0),
            }
        },
        _ => {
            Grad4 { dx: whole(0), da: whole(0), db: whole(0), dc: whole(0) }
        },
    }
}

} // verus!
