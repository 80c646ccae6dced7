//! Analytic Kullback-Leibler divergences.
//!
//! Everything here is composed out of ordinary operations and the differentiable
//! special functions, not written as a kernel: a divergence is evaluated once per
//! update, and composing it means that its gradient needs no second derivation.
//!
//! Where the support of the first distribution is not inside that of the second, the
//! divergence is infinite. It gets there by overflow rather than by a branch, so that
//! the shape of the computation does not depend on the data.

use vstd::prelude::*;

use super::base::Distribution;
use super::categorical::{Categorical, Choice};
use super::elementwise::{digamma, lgamma};
use super::scalar;
use super::scalar::{Family, Univariate};
use super::simplex::{Dirichlet, Simplex};
use super::univariate::Kind;
use crate::autograd::graph::{Session, Tape};
use crate::autograd::ops;
use crate::autograd::var;
use crate::autograd::var::{Traced, Var};
use crate::error::{Error, Fault};
use crate::shape;
use crate::shape::Shape;
use crate::tensor;
use crate::tensor::{Tensor, Value};
use crate::term::{Binary, Scalar, Special, Unary};
use crate::text::append_decimal;

verus! {

/// One where the left operand is larger, zero elsewhere, as a constant.
pub open spec fn greater_of(t: Tape, a: Traced, b: Traced) -> Result<(Tape, Traced), Fault> {
    match tensor::binary_of(Binary::Greater, a.value, b.value) {
        Ok(v) => Ok((t, ops::untracked(v))),
        Err(f) => Err(f),
    }
}

fn greater(a: &Var, b: &Var) -> (r: Result<Var, Error>)
    ensures
        match (r, tensor::binary_of(Binary::Greater, a@.value, b@.value)) {
            (Ok(v), Ok(x)) => v@ == ops::untracked(x),
            (Err(e), Err(f)) => e@ == f,
            _ => false,
        },
{
    Ok(Var::constant(Tensor::binary(Binary::Greater, a.tensor(), b.tensor())?))
}

/// The divergence of one Gaussian from another, by locations and scales.
pub open spec fn normal_like_op(t: Tape, lp: Traced, sp: Traced, lq: Traced, sq: Traced) -> Result<(Tape, Traced), Fault> {
    ops::next(
        ops::binary_op(t, Binary::Div, sp, sq),
        |t1: Tape, ratio: Traced|
            ops::next(
                ops::binary_op(t1, Binary::Mul, ratio, ratio),
                |t2: Tape, vr: Traced|
                    ops::next(
                        ops::binary_op(t2, Binary::Sub, lp, lq),
                        |t3: Tape, gap: Traced|
                            ops::next(
                                ops::binary_op(t3, Binary::Div, gap, sq),
                                |t4: Tape, shift: Traced|
                                    ops::next(
                                        ops::binary_op(t4, Binary::Mul, shift, shift),
                                        |t5: Tape, square: Traced|
                                            ops::next(
                                                ops::binary_op(t5, Binary::Add, vr, square),
                                                |t6: Tape, sum: Traced|
                                                    {
                                                        let (t7, lv) = ops::pointwise_op(t6, Unary::Log, vr);
                                                        ops::next(
                                                            ops::binary_op(t7, Binary::Sub, sum, lv),
                                                            |t8: Tape, rest: Traced|
                                                                {
                                                                    let (t9, less) = ops::pointwise_op(t8, Unary::AddScalar(Scalar::Int((-1) as i64)), rest);
                                                                    Ok(ops::pointwise_op(t9, Unary::MulScalar(Scalar::Frac(1, 2)), less))
                                                                },
                                                        )
                                                    },
                                            ),
                                    ),
                            ),
                    ),
            ),
    )
}

fn normal_like(s: &mut Session, lp: &Var, sp: &Var, lq: &Var, sq: &Var) -> (r: Result<Var, Error>)
    ensures
        ops::same_value(r, final(s)@, normal_like_op(old(s)@, lp@, sp@, lq@, sq@)),
{
    let ratio = sp.div(s, sq)?;
    let vr = ratio.mul(s, &ratio)?;
    let gap = lp.sub(s, lq)?;
    let shift = gap.div(s, sq)?;
    let square = shift.mul(s, &shift)?;
    let sum = vr.add(s, &square)?;
    let lv = vr.log(s);
    let rest = sum.sub(s, &lv)?;
    let less = rest.add_scalar(s, Scalar::Int(-1));
    Ok(less.mul_scalar(s, Scalar::Frac(1, 2)))
}

/// The divergence of one Cauchy from another.
pub open spec fn cauchy_like_op(t: Tape, lp: Traced, sp: Traced, lq: Traced, sq: Traced) -> Result<(Tape, Traced), Fault> {
    ops::next(
        ops::binary_op(t, Binary::Add, sp, sq),
        |t1: Tape, sum: Traced|
            ops::next(
                ops::binary_op(t1, Binary::Sub, lp, lq),
                |t2: Tape, shift: Traced|
                    ops::next(
                        ops::binary_op(t2, Binary::Mul, sum, sum),
                        |t3: Tape, ss: Traced|
                            ops::next(
                                ops::binary_op(t3, Binary::Mul, shift, shift),
                                |t4: Tape, dd: Traced|
                                    ops::next(
                                        ops::binary_op(t4, Binary::Add, ss, dd),
                                        |t5: Tape, numer: Traced|
                                            ops::next(
                                                ops::binary_op(t5, Binary::Mul, sp, sq),
                                                |t6: Tape, prod: Traced|
                                                    {
                                                        let (t7, denom) = ops::pointwise_op(t6, Unary::MulScalar(Scalar::Int(4)), prod);
                                                        let (t8, ln) = ops::pointwise_op(t7, Unary::Log, numer);
                                                        let (t9, ld) = ops::pointwise_op(t8, Unary::Log, denom);
                                                        ops::binary_op(t9, Binary::Sub, ln, ld)
                                                    },
                                            ),
                                    ),
                            ),
                    ),
            ),
    )
}

fn cauchy_like(s: &mut Session, lp: &Var, sp: &Var, lq: &Var, sq: &Var) -> (r: Result<Var, Error>)
    ensures
        ops::same_value(r, final(s)@, cauchy_like_op(old(s)@, lp@, sp@, lq@, sq@)),
{
    let sum = sp.add(s, sq)?;
    let shift = lp.sub(s, lq)?;
    let ss = sum.mul(s, &sum)?;
    let dd = shift.mul(s, &shift)?;
    let numer = ss.add(s, &dd)?;
    let prod = sp.mul(s, sq)?;
    let denom = prod.mul_scalar(s, Scalar::Int(4));
    let ln = numer.log(s);
    let ld = denom.log(s);
    ln.sub(s, &ld)
}

/// The divergence of one Gamma from another, which is also the inverse Gamma's.
pub open spec fn gamma_like_op(t: Tape, cp: Traced, rp: Traced, cq: Traced, rq: Traced) -> Result<(Tape, Traced), Fault> {
    ops::next(
        ops::binary_op(t, Binary::Div, rp, rq),
        |t1: Tape, ratio: Traced|
            {
                let (t2, lr) = ops::pointwise_op(t1, Unary::Log, ratio);
                ops::next(
                    ops::binary_op(t2, Binary::Mul, cq, lr),
                    |t3: Tape, one: Traced|
                        {
                            let (t4, gq) = ops::pointwise_op(t3, Unary::Special(Special::Lgamma), cq);
                            let (t5, gp) = ops::pointwise_op(t4, Unary::Special(Special::Lgamma), cp);
                            ops::next(
                                ops::binary_op(t5, Binary::Sub, gq, gp),
                                |t6: Tape, two: Traced|
                                    ops::next(
                                        ops::binary_op(t6, Binary::Sub, cp, cq),
                                        |t7: Tape, gap: Traced|
                                            {
                                                let (t8, dp) = ops::pointwise_op(t7, Unary::Special(Special::Digamma), cp);
                                                ops::next(
                                                    ops::binary_op(t8, Binary::Mul, gap, dp),
                                                    |t9: Tape, three: Traced|
                                                        ops::next(
                                                            ops::binary_op(t9, Binary::Sub, rq, rp),
                                                            |t10: Tape, rgap: Traced|
                                                                ops::next(
                                                                    ops::binary_op(t10, Binary::Div, cp, rp),
                                                                    |t11: Tape, mean: Traced|
                                                                        ops::next(
                                                                            ops::binary_op(t11, Binary::Mul, rgap, mean),
                                                                            |t12: Tape, four: Traced|
                                                                                ops::next(
                                                                                    ops::binary_op(t12, Binary::Add, one, two),
                                                                                    |t13: Tape, a: Traced|
                                                                                        ops::next(
                                                                                            ops::binary_op(t13, Binary::Add, a, three),
                                                                                            |t14: Tape, b: Traced|
                                                                                                ops::binary_op(t14, Binary::Add, b, four),
                                                                                        ),
                                                                                ),
                                                                        ),
                                                                ),
                                                        ),
                                                )
                                            },
                                    ),
                            )
                        },
                )
            },
    )
}

fn gamma_like(s: &mut Session, cp: &Var, rp: &Var, cq: &Var, rq: &Var) -> (r: Result<Var, Error>)
    ensures
        ops::same_value(r, final(s)@, gamma_like_op(old(s)@, cp@, rp@, cq@, rq@)),
{
    let ratio = rp.div(s, rq)?;
    let lr = ratio.log(s);
    let one = cq.mul(s, &lr)?;
    let gq = lgamma(s, cq);
    let gp = lgamma(s, cp);
    let two = gq.sub(s, &gp)?;
    let gap = cp.sub(s, cq)?;
    let dp = digamma(s, cp);
    let three = gap.mul(s, &dp)?;
    let rgap = rq.sub(s, rp)?;
    let mean = cp.div(s, rp)?;
    let four = rgap.mul(s, &mean)?;
    let a = one.add(s, &two)?;
    let b = a.add(s, &three)?;
    b.add(s, &four)
}

/// The divergence of one coin from another, from two logits; every logarithm is a softplus,
/// so that a probability of one keeps its digits.
pub open spec fn bernoulli_like_op(t: Tape, a: Traced, b: Traced) -> Result<(Tape, Traced), Fault> {
    let (t1, p) = ops::pointwise_op(t, Unary::Sigmoid, a);
    let (t2, na) = ops::pointwise_op(t1, Unary::Neg, a);
    let (t3, sna) = ops::pointwise_op(t2, Unary::Softplus, na);
    let (t4, nb) = ops::pointwise_op(t3, Unary::Neg, b);
    let (t5, snb) = ops::pointwise_op(t4, Unary::Softplus, nb);
    ops::next(
        ops::binary_op(t5, Binary::Sub, sna, snb),
        |t6: Tape, head: Traced|
            {
                let (t7, sa) = ops::pointwise_op(t6, Unary::Softplus, a);
                let (t8, sb) = ops::pointwise_op(t7, Unary::Softplus, b);
                ops::next(
                    ops::binary_op(t8, Binary::Sub, sa, sb),
                    |t9: Tape, tail: Traced|
                        {
                            let (t10, q) = ops::pointwise_op(t9, Unary::RsubScalar(Scalar::Int(1)), p);
                            ops::next(
                                ops::binary_op(t10, Binary::Mul, p, head),
                                |t11: Tape, ph: Traced|
                                    ops::next(
                                        ops::binary_op(t11, Binary::Mul, q, tail),
                                        |t12: Tape, qt: Traced|
                                            ops::next(
                                                ops::binary_op(t12, Binary::Add, ph, qt),
                                                |t13: Tape, sum: Traced|
                                                    Ok(ops::pointwise_op(t13, Unary::Neg, sum)),
                                            ),
                                    ),
                            )
                        },
                )
            },
    )
}

fn bernoulli_like(s: &mut Session, a: &Var, b: &Var) -> (r: Result<Var, Error>)
    ensures
        ops::same_value(r, final(s)@, bernoulli_like_op(old(s)@, a@, b@)),
{
    let p = a.sigmoid(s);
    let na = a.neg(s);
    let sna = na.softplus(s);
    let nb = b.neg(s);
    let snb = nb.softplus(s);
    let head = sna.sub(s, &snb)?;
    let sa = a.softplus(s);
    let sb = b.softplus(s);
    let tail = sa.sub(s, &sb)?;
    let q = p.rsub_scalar(s, Scalar::Int(1));
    let ph = p.mul(s, &head)?;
    let qt = q.mul(s, &tail)?;
    let sum = ph.add(s, &qt)?;
    Ok(sum.neg(s))
}

/// The logarithm of the ratio of the widths, and infinite unless the first interval lies
/// inside the second.
pub open spec fn uniform_like_op(t: Tape, pl: Traced, ph: Traced, ql: Traced, qh: Traced) -> Result<(Tape, Traced), Fault> {
    ops::next(
        ops::binary_op(t, Binary::Sub, qh, ql),
        |t1: Tape, wq: Traced|
            ops::next(
                ops::binary_op(t1, Binary::Sub, ph, pl),
                |t2: Tape, wp: Traced|
                    ops::next(
                        ops::binary_op(t2, Binary::Div, wq, wp),
                        |t3: Tape, quotient: Traced|
                            {
                                let (t4, ratio) = ops::pointwise_op(t3, Unary::Log, quotient);
                                ops::next(
                                    greater_of(t4, ql, pl),
                                    |t5: Tape, below: Traced|
                                        ops::next(
                                            greater_of(t5, ph, qh),
                                            |t6: Tape, above: Traced|
                                                ops::next(
                                                    ops::binary_op(t6, Binary::Add, below, above),
                                                    |t7: Tape, outside: Traced|
                                                        {
                                                            let (t8, half) = ops::pointwise_op(t7, Unary::MulScalar(Scalar::HalfOverflow), outside);
                                                            let (t9, blown) = ops::pointwise_op(t8, Unary::MulScalar(Scalar::HalfOverflow), half);
                                                            ops::binary_op(t9, Binary::Add, ratio, blown)
                                                        },
                                                ),
                                        ),
                                )
                            },
                    ),
            ),
    )
}

fn uniform_like(s: &mut Session, pl: &Var, ph: &Var, ql: &Var, qh: &Var) -> (r: Result<Var, Error>)
    ensures
        ops::same_value(r, final(s)@, uniform_like_op(old(s)@, pl@, ph@, ql@, qh@)),
{
    let wq = qh.sub(s, ql)?;
    let wp = ph.sub(s, pl)?;
    let quotient = wq.div(s, &wp)?;
    let ratio = quotient.log(s);
    let below = greater(ql, pl)?;
    let above = greater(ph, qh)?;
    let outside = below.add(s, &above)?;
    let half = outside.mul_scalar(s, Scalar::HalfOverflow);
    let blown = half.mul_scalar(s, Scalar::HalfOverflow);
    ratio.add(s, &blown)
}

/// The divergence of one exponential from another.
pub open spec fn exponential_like_op(t: Tape, p: Traced, q: Traced) -> Result<(Tape, Traced), Fault> {
    ops::next(
        ops::binary_op(t, Binary::Div, q, p),
        |t1: Tape, ratio: Traced|
            {
                let (t2, lr) = ops::pointwise_op(t1, Unary::Log, ratio);
                ops::next(
                    ops::binary_op(t2, Binary::Sub, ratio, lr),
                    |t3: Tape, gap: Traced|
                        Ok(ops::pointwise_op(t3, Unary::AddScalar(Scalar::Int((-1) as i64)), gap)),
                )
            },
    )
}

fn exponential_like(s: &mut Session, p: &Var, q: &Var) -> (r: Result<Var, Error>)
    ensures
        ops::same_value(r, final(s)@, exponential_like_op(old(s)@, p@, q@)),
{
    let ratio = q.div(s, p)?;
    let lr = ratio.log(s);
    let gap = ratio.sub(s, &lr)?;
    Ok(gap.add_scalar(s, Scalar::Int(-1)))
}

/// The divergence of one Laplace from another.
pub open spec fn laplace_like_op(t: Tape, lp: Traced, sp: Traced, lq: Traced, sq: Traced) -> Result<(Tape, Traced), Fault> {
    ops::next(
        ops::binary_op(t, Binary::Div, sp, sq),
        |t1: Tape, ratio: Traced|
            ops::next(
                ops::binary_op(t1, Binary::Sub, lp, lq),
                |t2: Tape, shift: Traced|
                    {
                        let (t3, gap) = ops::pointwise_op(t2, Unary::Abs, shift);
                        ops::next(
                            ops::binary_op(t3, Binary::Div, gap, sq),
                            |t4: Tape, two: Traced|
                                ops::next(
                                    ops::binary_op(t4, Binary::Div, gap, sp),
                                    |t5: Tape, own: Traced|
                                        {
                                            let (t6, nown) = ops::pointwise_op(t5, Unary::Neg, own);
                                            let (t7, decay) = ops::pointwise_op(t6, Unary::Exp, nown);
                                            ops::next(
                                                ops::binary_op(t7, Binary::Mul, ratio, decay),
                                                |t8: Tape, three: Traced|
                                                    {
                                                        let (t9, lr) = ops::pointwise_op(t8, Unary::Log, ratio);
                                                        let (t10, nlr) = ops::pointwise_op(t9, Unary::Neg, lr);
                                                        ops::next(
                                                            ops::binary_op(t10, Binary::Add, nlr, two),
                                                            |t11: Tape, a: Traced|
                                                                ops::next(
                                                                    ops::binary_op(t11, Binary::Add, a, three),
                                                                    |t12: Tape, b: Traced|
                                                                        Ok(ops::pointwise_op(t12, Unary::AddScalar(Scalar::Int((-1) as i64)), b)),
                                                                ),
                                                        )
                                                    },
                                            )
                                        },
                                ),
                        )
                    },
            ),
    )
}

fn laplace_like(s: &mut Session, lp: &Var, sp: &Var, lq: &Var, sq: &Var) -> (r: Result<Var, Error>)
    ensures
        ops::same_value(r, final(s)@, laplace_like_op(old(s)@, lp@, sp@, lq@, sq@)),
{
    let ratio = sp.div(s, sq)?;
    let shift = lp.sub(s, lq)?;
    let gap = shift.abs(s);
    let two = gap.div(s, sq)?;
    let own = gap.div(s, sp)?;
    let nown = own.neg(s);
    let decay = nown.exp(s);
    let three = ratio.mul(s, &decay)?;
    let lr = ratio.log(s);
    let nlr = lr.neg(s);
    let a = nlr.add(s, &two)?;
    let b = a.add(s, &three)?;
    Ok(b.add_scalar(s, Scalar::Int(-1)))
}

/// The divergence of one Gumbel from another, arranged so that every term stays finite for
/// scales that differ by orders of magnitude.
pub open spec fn gumbel_like_op(t: Tape, lp: Traced, sp: Traced, lq: Traced, sq: Traced) -> Result<(Tape, Traced), Fault> {
    ops::next(
        ops::binary_op(t, Binary::Div, sp, sq),
        |t1: Tape, one: Traced|
            ops::next(
                ops::binary_op(t1, Binary::Div, lq, sq),
                |t2: Tape, two: Traced|
                    ops::next(
                        ops::binary_op(t2, Binary::Div, lp, sq),
                        |t3: Tape, three: Traced|
                            {
                                let (t4, lo) = ops::pointwise_op(t3, Unary::Log, one);
                                let (t5, nlo) = ops::pointwise_op(t4, Unary::Neg, lo);
                                ops::next(
                                    ops::binary_op(t5, Binary::Sub, nlo, two),
                                    |t6: Tape, a: Traced|
                                        ops::next(
                                            ops::binary_op(t6, Binary::Add, a, three),
                                            |t7: Tape, first: Traced|
                                                {
                                                    let (t8, second) = ops::pointwise_op(t7, Unary::MulScalar(Scalar::EulerGamma), one);
                                                    let (t9, more) = ops::pointwise_op(t8, Unary::AddScalar(Scalar::Int(1)), one);
                                                    let (t10, lg) = ops::pointwise_op(t9, Unary::Special(Special::Lgamma), more);
                                                    ops::next(
                                                        ops::binary_op(t10, Binary::Add, two, lg),
                                                        |t11: Tape, b: Traced|
                                                            ops::next(
                                                                ops::binary_op(t11, Binary::Sub, b, three),
                                                                |t12: Tape, c: Traced|
                                                                    {
                                                                        let (t13, third) = ops::pointwise_op(t12, Unary::Exp, c);
                                                                        ops::next(
                                                                            ops::binary_op(t13, Binary::Add, first, second),
                                                                            |t14: Tape, d: Traced|
                                                                                ops::next(
                                                                                    ops::binary_op(t14, Binary::Add, d, third),
                                                                                    |t15: Tape, e: Traced|
                                                                                        Ok(ops::pointwise_op(t15, Unary::AddScalar(Scalar::MinusOneLessEulerGamma), e)),
                                                                                ),
                                                                        )
                                                                    },
                                                            ),
                                                    )
                                                },
                                        ),
                                )
                            },
                    ),
            ),
    )
}

fn gumbel_like(s: &mut Session, lp: &Var, sp: &Var, lq: &Var, sq: &Var) -> (r: Result<Var, Error>)
    ensures
        ops::same_value(r, final(s)@, gumbel_like_op(old(s)@, lp@, sp@, lq@, sq@)),
{
    let one = sp.div(s, sq)?;
    let two = lq.div(s, sq)?;
    let three = lp.div(s, sq)?;
    let lo = one.log(s);
    let nlo = lo.neg(s);
    let a = nlo.sub(s, &two)?;
    let first = a.add(s, &three)?;
    let second = one.mul_scalar(s, Scalar::EulerGamma);
    let more = one.add_scalar(s, Scalar::Int(1));
    let lg = lgamma(s, &more);
    let b = two.add(s, &lg)?;
    let c = b.sub(s, &three)?;
    let third = c.exp(s);
    let d = first.add(s, &second)?;
    let e = d.add(s, &third)?;
    Ok(e.add_scalar(s, Scalar::MinusOneLessEulerGamma))
}

/// The divergence of one Pareto from another, by scales and exponents.
pub open spec fn pareto_like_op(t: Tape, sp: Traced, ap: Traced, sq: Traced, aq: Traced) -> Result<(Tape, Traced), Fault> {
    ops::next(
        ops::binary_op(t, Binary::Div, sp, sq),
        |t1: Tape, scales: Traced|
            ops::next(
                ops::binary_op(t1, Binary::Div, aq, ap),
                |t2: Tape, alphas: Traced|
                    {
                        let (t3, ls) = ops::pointwise_op(t2, Unary::Log, scales);
                        ops::next(
                            ops::binary_op(t3, Binary::Mul, aq, ls),
                            |t4: Tape, one: Traced|
                                {
                                    let (t5, la) = ops::pointwise_op(t4, Unary::Log, alphas);
                                    let (t6, two) = ops::pointwise_op(t5, Unary::Neg, la);
                                    ops::next(
                                        greater_of(t6, sq, sp),
                                        |t7: Tape, below: Traced|
                                            ops::next(
                                                ops::binary_op(t7, Binary::Add, one, two),
                                                |t8: Tape, a: Traced|
                                                    ops::next(
                                                        ops::binary_op(t8, Binary::Add, a, alphas),
                                                        |t9: Tape, b: Traced|
                                                            {
                                                                let (t10, c) = ops::pointwise_op(t9, Unary::AddScalar(Scalar::Int((-1) as i64)), b);
                                                                let (t11, half) = ops::pointwise_op(t10, Unary::MulScalar(Scalar::HalfOverflow), below);
                                                                let (t12, blown) = ops::pointwise_op(t11, Unary::MulScalar(Scalar::HalfOverflow), half);
                                                                ops::binary_op(t12, Binary::Add, c, blown)
                                                            },
                                                    ),
                                            ),
                                    )
                                },
                        )
                    },
            ),
    )
}

fn pareto_like(s: &mut Session, sp: &Var, ap: &Var, sq: &Var, aq: &Var) -> (r: Result<Var, Error>)
    ensures
        ops::same_value(r, final(s)@, pareto_like_op(old(s)@, sp@, ap@, sq@, aq@)),
{
    let scales = sp.div(s, sq)?;
    let alphas = aq.div(s, ap)?;
    let ls = scales.log(s);
    let one = aq.mul(s, &ls)?;
    let la = alphas.log(s);
    let two = la.neg(s);
    let below = greater(sq, sp)?;
    let a = one.add(s, &two)?;
    let b = a.add(s, &alphas)?;
    let c = b.add_scalar(s, Scalar::Int(-1));
    let half = below.mul_scalar(s, Scalar::HalfOverflow);
    let blown = half.mul_scalar(s, Scalar::HalfOverflow);
    c.add(s, &blown)
}

/// The divergence of one Beta from another.
pub open spec fn beta_like_op(t: Tape, pa: Traced, pb: Traced, qa: Traced, qb: Traced) -> Result<(Tape, Traced), Fault> {
    ops::next(
        ops::binary_op(t, Binary::Add, pa, pb),
        |t1: Tape, sp: Traced|
            ops::next(
                ops::binary_op(t1, Binary::Add, qa, qb),
                |t2: Tape, sq: Traced|
                    {
                        let (t3, gqa) = ops::pointwise_op(t2, Unary::Special(Special::Lgamma), qa);
                        let (t4, gqb) = ops::pointwise_op(t3, Unary::Special(Special::Lgamma), qb);
                        ops::next(
                            ops::binary_op(t4, Binary::Add, gqa, gqb),
                            |t5: Tape, x1: Traced|
                                {
                                    let (t6, gsp) = ops::pointwise_op(t5, Unary::Special(Special::Lgamma), sp);
                                    ops::next(
                                        ops::binary_op(t6, Binary::Add, x1, gsp),
                                        |t7: Tape, one: Traced|
                                            {
                                                let (t8, gpa) = ops::pointwise_op(t7, Unary::Special(Special::Lgamma), pa);
                                                let (t9, gpb) = ops::pointwise_op(t8, Unary::Special(Special::Lgamma), pb);
                                                ops::next(
                                                    ops::binary_op(t9, Binary::Add, gpa, gpb),
                                                    |t10: Tape, x2: Traced|
                                                        {
                                                            let (t11, gsq) = ops::pointwise_op(t10, Unary::Special(Special::Lgamma), sq);
                                                            ops::next(
                                                                ops::binary_op(t11, Binary::Add, x2, gsq),
                                                                |t12: Tape, two: Traced|
                                                                    ops::next(
                                                                        ops::binary_op(t12, Binary::Sub, pa, qa),
                                                                        |t13: Tape, da: Traced|
                                                                            {
                                                                                let (t14, pda) = ops::pointwise_op(t13, Unary::Special(Special::Digamma), pa);
                                                                                ops::next(
                                                                                    ops::binary_op(t14, Binary::Mul, da, pda),
                                                                                    |t15: Tape, three: Traced|
                                                                                        ops::next(
                                                                                            ops::binary_op(t15, Binary::Sub, pb, qb),
                                                                                            |t16: Tape, db: Traced|
                                                                                                {
                                                                                                    let (t17, pdb) = ops::pointwise_op(t16, Unary::Special(Special::Digamma), pb);
                                                                                                    ops::next(
                                                                                                        ops::binary_op(t17, Binary::Mul, db, pdb),
                                                                                                        |t18: Tape, four: Traced|
                                                                                                            ops::next(
                                                                                                                ops::binary_op(t18, Binary::Sub, sq, sp),
                                                                                                                |t19: Tape, ds: Traced|
                                                                                                                    {
                                                                                                                        let (t20, psp) = ops::pointwise_op(t19, Unary::Special(Special::Digamma), sp);
                                                                                                                        ops::next(
                                                                                                                            ops::binary_op(t20, Binary::Mul, ds, psp),
                                                                                                                            |t21: Tape, five: Traced|
                                                                                                                                ops::next(
                                                                                                                                    ops::binary_op(t21, Binary::Sub, one, two),
                                                                                                                                    |t22: Tape, y1: Traced|
                                                                                                                                        ops::next(
                                                                                                                                            ops::binary_op(t22, Binary::Add, y1, three),
                                                                                                                                            |t23: Tape, y2: Traced|
                                                                                                                                                ops::next(
                                                                                                                                                    ops::binary_op(t23, Binary::Add, y2, four),
                                                                                                                                                    |t24: Tape, y3: Traced|
                                                                                                                                                        ops::binary_op(t24, Binary::Add, y3, five),
                                                                                                                                                ),
                                                                                                                                        ),
                                                                                                                                ),
                                                                                                                        )
                                                                                                                    },
                                                                                                            ),
                                                                                                    )
                                                                                                },
                                                                                        ),
                                                                                )
                                                                            },
                                                                    ),
                                                            )
                                                        },
                                                )
                                            },
                                    )
                                },
                        )
                    },
            ),
    )
}

fn beta_like(s: &mut Session, pa: &Var, pb: &Var, qa: &Var, qb: &Var) -> (r: Result<Var, Error>)
    ensures
        ops::same_value(r, final(s)@, beta_like_op(old(s)@, pa@, pb@, qa@, qb@)),
{
    let sp = pa.add(s, pb)?;
    let sq = qa.add(s, qb)?;
    let gqa = lgamma(s, qa);
    let gqb = lgamma(s, qb);
    let x1 = gqa.add(s, &gqb)?;
    let gsp = lgamma(s, &sp);
    let one = x1.add(s, &gsp)?;
    let gpa = lgamma(s, pa);
    let gpb = lgamma(s, pb);
    let x2 = gpa.add(s, &gpb)?;
    let gsq = lgamma(s, &sq);
    let two = x2.add(s, &gsq)?;
    let da = pa.sub(s, qa)?;
    let pda = digamma(s, pa);
    let three = da.mul(s, &pda)?;
    let db = pb.sub(s, qb)?;
    let pdb = digamma(s, pb);
    let four = db.mul(s, &pdb)?;
    let ds = sq.sub(s, &sp)?;
    let psp = digamma(s, &sp);
    let five = ds.mul(s, &psp)?;
    let y1 = one.sub(s, &two)?;
    let y2 = y1.add(s, &three)?;
    let y3 = y2.add(s, &four)?;
    y3.add(s, &five)
}

/// Minus the entropy, less the expected logarithms under the second; `h` is the entropy of
/// the first.
pub open spec fn geometric_like_op(t: Tape, h: Traced, p: Traced, q: Traced) -> Result<(Tape, Traced), Fault> {
    let (t1, prob) = ops::pointwise_op(t, Unary::Sigmoid, p);
    let (t2, inv) = ops::pointwise_op(t1, Unary::Recip, prob);
    let (t3, soft) = ops::pointwise_op(t2, Unary::Softplus, q);
    let (t4, miss) = ops::pointwise_op(t3, Unary::Neg, soft);
    let (t5, nh) = ops::pointwise_op(t4, Unary::Neg, h);
    ops::next(
        ops::binary_op(t5, Binary::Mul, miss, inv),
        |t6: Tape, scaled: Traced|
            ops::next(
                ops::binary_op(t6, Binary::Sub, nh, scaled),
                |t7: Tape, a: Traced|
                    ops::binary_op(t7, Binary::Sub, a, q),
            ),
    )
}

fn geometric_like(s: &mut Session, h: &Var, p: &Var, q: &Var) -> (r: Result<Var, Error>)
    ensures
        ops::same_value(r, final(s)@, geometric_like_op(old(s)@, h@, p@, q@)),
{
    let prob = p.sigmoid(s);
    let inv = prob.recip(s);
    let soft = q.softplus(s);
    let miss = soft.neg(s);
    let nh = h.neg(s);
    let scaled = miss.mul(s, &inv)?;
    let a = nh.sub(s, &scaled)?;
    a.sub(s, q)
}

/// The divergence of one Poisson from another.
pub open spec fn poisson_like_op(t: Tape, p: Traced, q: Traced) -> Result<(Tape, Traced), Fault> {
    let (t1, lp) = ops::pointwise_op(t, Unary::Log, p);
    let (t2, lq) = ops::pointwise_op(t1, Unary::Log, q);
    ops::next(
        ops::binary_op(t2, Binary::Sub, lp, lq),
        |t3: Tape, ratio: Traced|
            ops::next(
                ops::binary_op(t3, Binary::Mul, p, ratio),
                |t4: Tape, a: Traced|
                    ops::next(
                        ops::binary_op(t4, Binary::Sub, a, p),
                        |t5: Tape, b: Traced|
                            ops::binary_op(t5, Binary::Add, b, q),
                    ),
            ),
    )
}

fn poisson_like(s: &mut Session, p: &Var, q: &Var) -> (r: Result<Var, Error>)
    ensures
        ops::same_value(r, final(s)@, poisson_like_op(old(s)@, p@, q@)),
{
    let lp = p.log(s);
    let lq = q.log(s);
    let ratio = lp.sub(s, &lq)?;
    let a = p.mul(s, &ratio)?;
    let b = a.sub(s, p)?;
    b.add(s, q)
}

/// A zero of the shape of a value.
pub open spec fn zero_like(v: Traced) -> Traced {
    ops::untracked(tensor::fill_of(Scalar::Int(0), v.value.dims))
}

fn zeros_like(v: &Var) -> (r: Var)
    ensures
        r@ == zero_like(v@),
{
    Var::constant(Tensor::zeros(v.shape().clone()))
}

pub open spec fn pair_message(p: Kind, q: Kind) -> Seq<char> {
    "no closed-form divergence between "@ + p.name_of() + " and "@ + q.name_of()
        + "; estimate it from samples of p scored under both"@
}

pub open spec fn kind_message(k: Kind) -> Seq<char> {
    "no closed-form divergence for a pair of "@ + k.name_of()
        + "; estimate it from samples of p scored under both"@
}

/// A value of the shape that two batches broadcast to.
pub open spec fn shaped_op(t: Tape, v: Traced, p: Seq<usize>, q: Seq<usize>) -> Result<
    (Tape, Traced),
    Fault,
> {
    match shape::broadcast(p, q) {
        Err(f) => Err(f),
        Ok(d) => if v.value.dims == d {
            Ok((t, v))
        } else {
            ops::reshape_op(t, v, d)
        },
    }
}

fn shaped(s: &mut Session, v: Var, p: &Univariate, q: &Univariate) -> (r: Result<Var, Error>)
    ensures
        ops::same_value(r, final(s)@, shaped_op(old(s)@, v@, p@.batch, q@.batch)),
{
    let d = broadcast_shape(p, q)?;
    if v.shape().same(&d) {
        Ok(v)
    } else {
        v.reshape(s, &d)
    }
}

/// The divergence of one distribution from another of the same family, in the shape of the
/// two batches: a single parameter is kept as one element, whatever its axes.
pub open spec fn kl_op(t: Tape, p: Family, q: Family) -> Result<(Tape, Traced), Fault> {
    ops::next(
        kl_formula_op(t, p, q),
        |u: Tape, v: Traced| shaped_op(u, v, p.batch, q.batch),
    )
}

/// The formula of a divergence, in the shape its parameters broadcast to.
pub open spec fn kl_formula_op(t: Tape, p: Family, q: Family) -> Result<(Tape, Traced), Fault> {
    if p.kind != q.kind {
        Err(Fault::Unsupported(pair_message(p.kind, q.kind)))
    } else {
        match p.kind {
            Kind::Normal => normal_like_op(t, p.a, p.b, q.a, q.b),
            Kind::LogNormal => normal_like_op(t, p.a, p.b, q.a, q.b),
            Kind::HalfNormal => normal_like_op(t, zero_like(p.a), p.a, zero_like(p.a), q.a),
            Kind::Uniform => uniform_like_op(t, p.a, p.b, q.a, q.b),
            Kind::Exponential => exponential_like_op(t, p.a, q.a),
            Kind::Laplace => laplace_like_op(t, p.a, p.b, q.a, q.b),
            Kind::Cauchy => cauchy_like_op(t, p.a, p.b, q.a, q.b),
            Kind::HalfCauchy => cauchy_like_op(t, zero_like(p.a), p.a, zero_like(p.a), q.a),
            Kind::Gumbel => gumbel_like_op(t, p.a, p.b, q.a, q.b),
            Kind::Pareto => pareto_like_op(t, p.a, p.b, q.a, q.b),
            Kind::Gamma => gamma_like_op(t, p.a, p.b, q.a, q.b),
            Kind::InverseGamma => gamma_like_op(t, p.a, p.b, q.a, q.b),
            Kind::Beta => beta_like_op(t, p.a, p.b, q.a, q.b),
            Kind::Bernoulli => bernoulli_like_op(t, p.a, q.a),
            Kind::Geometric => ops::next(
                scalar::entropy_op(t, p),
                |u: Tape, h: Traced| geometric_like_op(u, h, p.a, q.a),
            ),
            Kind::Poisson => poisson_like_op(t, p.a, q.a),
            _ => Err(Fault::Unsupported(kind_message(p.kind))),
        }
    }
}

fn pair_error(p: Kind, q: Kind) -> (e: Error)
    ensures
        e@ == Fault::Unsupported(pair_message(p, q)),
{
    let mut text = String::new();
    text.append("no closed-form divergence between ");
    text.append(p.name());
    text.append(" and ");
    text.append(q.name());
    text.append("; estimate it from samples of p scored under both");
    proof {
        assert(text@ =~= pair_message(p, q));
    }
    Error::Unsupported(text)
}

fn kind_error(k: Kind) -> (e: Error)
    ensures
        e@ == Fault::Unsupported(kind_message(k)),
{
    let mut text = String::new();
    text.append("no closed-form divergence for a pair of ");
    text.append(k.name());
    text.append("; estimate it from samples of p scored under both");
    proof {
        assert(text@ =~= kind_message(k));
    }
    Error::Unsupported(text)
}

/// The divergence of `p` from `q`, two scalar distributions of the same family.
///
/// The result has the broadcast of the two batch shapes, and is differentiable with
/// respect to both sets of parameters.
pub fn kl_divergence(s: &mut Session, p: &Univariate, q: &Univariate) -> (r: Result<Var, Error>)
    ensures
        ops::same_value(r, final(s)@, kl_op(old(s)@, p@, q@)),
        r matches Ok(v) ==> v@.value.dims == shape::broadcast_dims(p@.batch, q@.batch),
{
    broadcast use var::lemma_record_value;

    let v = kl_formula(s, p, q)?;
    shaped(s, v, p, q)
}

fn kl_formula(s: &mut Session, p: &Univariate, q: &Univariate) -> (r: Result<Var, Error>)
    ensures
        ops::same_value(r, final(s)@, kl_formula_op(old(s)@, p@, q@)),
{
    if p.kind() != q.kind() {
        return Err(pair_error(p.kind(), q.kind()));
    }
    let (pa, pb, qa, qb) = (p.first(), p.second(), q.first(), q.second());
    match p.kind() {
        Kind::Normal | Kind::LogNormal => normal_like(s, pa, pb, qa, qb),
        Kind::HalfNormal => {
            let zero = zeros_like(pa);
            normal_like(s, &zero, pa, &zero, qa)
        },
        Kind::Uniform => uniform_like(s, pa, pb, qa, qb),
        Kind::Exponential => exponential_like(s, pa, qa),
        Kind::Laplace => laplace_like(s, pa, pb, qa, qb),
        Kind::Cauchy => cauchy_like(s, pa, pb, qa, qb),
        Kind::HalfCauchy => {
            let zero = zeros_like(pa);
            cauchy_like(s, &zero, pa, &zero, qa)
        },
        Kind::Gumbel => gumbel_like(s, pa, pb, qa, qb),
        Kind::Pareto => pareto_like(s, pa, pb, qa, qb),
        Kind::Gamma | Kind::InverseGamma => gamma_like(s, pa, pb, qa, qb),
        Kind::Beta => beta_like(s, pa, pb, qa, qb),
        Kind::Bernoulli => bernoulli_like(s, pa, qa),
        Kind::Geometric => {
            let h = p.entropy(s)?;
            geometric_like(s, &h, pa, qa)
        },
        Kind::Poisson => poisson_like(s, pa, qa),
        other => Err(kind_error(other)),
    }
}

// -- rows --------------------------------------------------------------------------------

pub open spec fn ways_message(p: usize, q: usize) -> Seq<char> {
    "cannot compare a "@ + crate::text::decimal(p as nat) + "-way categorical with a "@
        + crate::text::decimal(q as nat) + "-way one"@
}

pub open spec fn simplex_message(p: usize, q: usize) -> Seq<char> {
    "cannot compare a "@ + crate::text::decimal(p as nat) + "-class Dirichlet with a "@
        + crate::text::decimal(q as nat) + "-class one"@
}

/// The sum of `p (ln p - ln q)` over the classes, in log space, so that a class the
/// first never visits contributes nothing.
pub open spec fn categorical_op(t: Tape, p: Choice, q: Choice) -> Result<(Tape, Traced), Fault> {
    if p.classes() != q.classes() {
        Err(Fault::Shape(ways_message(p.classes(), q.classes())))
    } else {
        ops::next(
            ops::log_softmax_op(t, p.logits, p.axis()),
            |t1: Tape, lp: Traced|
                ops::next(
                    ops::log_softmax_op(t1, q.logits, p.axis()),
                    |t2: Tape, lq: Traced|
                        {
                            let (t3, probs) = ops::pointwise_op(t2, Unary::Exp, lp);
                            ops::next(
                                ops::binary_op(t3, Binary::Sub, lp, lq),
                                |t4: Tape, gap: Traced|
                                    ops::next(
                                        ops::binary_op(t4, Binary::Mul, probs, gap),
                                        |t5: Tape, v: Traced| ops::sum_away_op(t5, v, p.axis()),
                                    ),
                            )
                        },
                ),
        )
    }
}

/// The divergence of one Dirichlet from another over the same simplex.
pub open spec fn dirichlet_op(t: Tape, p: Simplex, q: Simplex) -> Result<(Tape, Traced), Fault> {
    let (cp, cq, axis) = (p.concentration, q.concentration, p.axis());
    if p.classes() != q.classes() {
        Err(Fault::Shape(simplex_message(p.classes(), q.classes())))
    } else {
        ops::next(
            ops::reduce_op(t, crate::term::Reduce::Sum, cp, axis),
            |t1: Tape, sp: Traced|
                ops::next(
                    ops::reduce_op(t1, crate::term::Reduce::Sum, cq, axis),
                    |t2: Tape, sq: Traced| dirichlet_rest(t2, cp, cq, sp, sq, axis),
                ),
        )
    }
}

pub open spec fn dirichlet_rest(t: Tape, cp: Traced, cq: Traced, sp: Traced, sq: Traced, axis: usize) -> Result<
    (Tape, Traced),
    Fault,
> {
    let (t1, gsp) = ops::pointwise_op(t, Unary::Special(Special::Lgamma), sp);
    let (t2, gsq) = ops::pointwise_op(t1, Unary::Special(Special::Lgamma), sq);
    ops::next(
        ops::next(
            ops::binary_op(t2, Binary::Sub, gsp, gsq),
            |t3: Tape, v: Traced|
                if axis < v.value.dims.len() {
                    ops::squeeze_op(t3, v, axis)
                } else {
                    Err(Fault::Shape(tensor::axis_message(axis, v.value.dims)))
                },
        ),
        |t4: Tape, one: Traced|
            {
                let (t5, gcp) = ops::pointwise_op(t4, Unary::Special(Special::Lgamma), cp);
                let (t6, gcq) = ops::pointwise_op(t5, Unary::Special(Special::Lgamma), cq);
                ops::next(
                    ops::next(
                        ops::binary_op(t6, Binary::Sub, gcp, gcq),
                        |t7: Tape, v: Traced| ops::sum_away_op(t7, v, axis),
                    ),
                    |t8: Tape, two: Traced|
                        ops::next(
                            ops::binary_op(t8, Binary::Sub, cp, cq),
                            |t9: Tape, three: Traced| dirichlet_end(t9, cp, sp, one, two, three, axis),
                        ),
                )
            },
    )
}

pub open spec fn dirichlet_end(
    t: Tape,
    cp: Traced,
    sp: Traced,
    one: Traced,
    two: Traced,
    three: Traced,
    axis: usize,
) -> Result<(Tape, Traced), Fault> {
    let (t1, dcp) = ops::pointwise_op(t, Unary::Special(Special::Digamma), cp);
    let (t2, dsp) = ops::pointwise_op(t1, Unary::Special(Special::Digamma), sp);
    ops::next(
        ops::expand_op(t2, dsp, cp.value.dims),
        |t3: Tape, wide: Traced|
            ops::next(
                ops::binary_op(t3, Binary::Sub, dcp, wide),
                |t4: Tape, four: Traced|
                    ops::next(
                        ops::binary_op(t4, Binary::Sub, one, two),
                        |t5: Tape, head: Traced|
                            ops::next(
                                ops::next(
                                    ops::binary_op(t5, Binary::Mul, three, four),
                                    |t6: Tape, v: Traced| ops::sum_away_op(t6, v, axis),
                                ),
                                |t7: Tape, tail: Traced| ops::binary_op(t7, Binary::Add, head, tail),
                            ),
                    ),
            ),
    )
}

/// The divergence of one categorical from another over the same class axis.
pub fn categorical(s: &mut Session, p: &Categorical, q: &Categorical) -> (r: Result<Var, Error>)
    ensures
        ops::same_value(r, final(s)@, categorical_op(old(s)@, p@, q@)),
{
    if p.classes() != q.classes() {
        let mut text = String::new();
        text.append("cannot compare a ");
        append_decimal(&mut text, p.classes() as u64);
        text.append("-way categorical with a ");
        append_decimal(&mut text, q.classes() as u64);
        text.append("-way one");
        proof {
            assert(text@ =~= ways_message(p@.classes(), q@.classes()));
        }
        return Err(Error::Shape(text));
    }
    let axis: usize = p.axis();
    let lp = p.logits().log_softmax(s, axis)?;
    let lq = q.logits().log_softmax(s, axis)?;
    let probs = lp.exp(s);
    let gap = lp.sub(s, &lq)?;
    let v = probs.mul(s, &gap)?;
    v.sum_away(s, axis)
}

/// The divergence of one Dirichlet from another over the same simplex.
pub fn dirichlet(s: &mut Session, p: &Dirichlet, q: &Dirichlet) -> (r: Result<Var, Error>)
    ensures
        ops::same_value(r, final(s)@, dirichlet_op(old(s)@, p@, q@)),
{
    if p.classes() != q.classes() {
        let mut text = String::new();
        text.append("cannot compare a ");
        append_decimal(&mut text, p.classes() as u64);
        text.append("-class Dirichlet with a ");
        append_decimal(&mut text, q.classes() as u64);
        text.append("-class one");
        proof {
            assert(text@ =~= simplex_message(p@.classes(), q@.classes()));
        }
        return Err(Error::Shape(text));
    }
    let cp = p.concentration();
    let cq = q.concentration();
    let axis: usize = cp.rank() - 1;
    let sp = cp.sum_dim(s, axis)?;
    let sq = cq.sum_dim(s, axis)?;
    rest(s, cp, cq, &sp, &sq, axis)
}

fn rest(s: &mut Session, cp: &Var, cq: &Var, sp: &Var, sq: &Var, axis: usize) -> (r: Result<Var, Error>)
    ensures
        ops::same_value(
            r,
            final(s)@,
            dirichlet_rest(old(s)@, cp@, cq@, sp@, sq@, axis),
        ),
{
    let gsp = lgamma(s, sp);
    let gsq = lgamma(s, sq);
    let totals = gsp.sub(s, &gsq)?;
    if axis >= totals.rank() {
        return Err(axis_error(axis, totals.shape()));
    }
    let one = totals.squeeze(s, axis)?;
    let gcp = lgamma(s, cp);
    let gcq = lgamma(s, cq);
    let each = gcp.sub(s, &gcq)?;
    let two = each.sum_away(s, axis)?;
    let three = cp.sub(s, cq)?;
    end(s, cp, sp, &one, &two, &three, axis)
}

fn end(s: &mut Session, cp: &Var, sp: &Var, one: &Var, two: &Var, three: &Var, axis: usize) -> (r: Result<
    Var,
    Error,
>)
    ensures
        ops::same_value(
            r,
            final(s)@,
            dirichlet_end(old(s)@, cp@, sp@, one@, two@, three@, axis),
        ),
{
    let dcp = digamma(s, cp);
    let dsp = digamma(s, sp);
    let wide = dsp.expand(s, cp.shape())?;
    let four = dcp.sub(s, &wide)?;
    let head = one.sub(s, two)?;
    let weighted = three.mul(s, &four)?;
    let tail = weighted.sum_away(s, axis)?;
    head.add(s, &tail)
}

fn axis_error(axis: usize, shape: &Shape) -> (e: Error)
    ensures
        e@ == Fault::Shape(tensor::axis_message(axis, shape@)),
{
    let mut text = String::new();
    text.append("axis ");
    append_decimal(&mut text, axis as u64);
    text.append(" is out of range for ");
    crate::text::append_bracketed(&mut text, shape.dims());
    proof {
        assert(text@ =~= tensor::axis_message(axis, shape@));
    }
    Error::Shape(text)
}

/// The batch shape a divergence between two distributions would have.
pub fn broadcast_shape(p: &Univariate, q: &Univariate) -> (r: Result<Shape, Error>)
    ensures
        crate::error::agrees(r, shape::broadcast(p@.batch, q@.batch)),
{
    Shape::broadcast(&p.batch_shape(), &q.batch_shape())
}

} // verus!
