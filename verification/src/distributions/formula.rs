//! Formulas over one value and three parameters, as data.
//!
//! A family of distributions is a handful of formulas. They are held as trees, so that
//! what they say can be stated and proved over the real numbers, and so that one executor
//! evaluates all of them.

use vstd::prelude::*;

use crate::meaning::Functions;
use crate::term::{Scalar, Special};

verus! {

/// A variable of a formula: the value, one of the three parameters, or one of two random
/// numbers.
#[derive(Debug, Clone, Copy, PartialEq, Eq, Structural)]
pub enum Slot {
    X,
    A,
    B,
    C,
    U,
    V,
}

/// A number with a name.
#[derive(Debug, Clone, Copy, PartialEq, Eq, Structural)]
pub enum Named {
    /// What stands for a statistic that diverges.
    Inf,
    /// What stands for a statistic that does not exist.
    Nan,
    HalfLnTwoPi,
    LnTwo,
    Pi,
    EulerGamma,
    SqrtTwo,
}

/// A function of one number.
#[derive(Debug, Clone, Copy, PartialEq, Eq, Structural)]
pub enum Call {
    Abs,
    /// Minus one, zero or one.
    Sign,
    Exp,
    Ln,
    Sqrt,
    Sin,
    Cos,
    Tan,
    Atan,
    Acos,
    Floor,
    Lgamma,
    Digamma,
    Trigamma,
    Erf,
    Erfinv,
    Log1p,
    Expm1,
    LogI0,
    BesselRatio,
    Ndtr,
    Ndtri,
    Softplus,
    LogSigmoid,
}

/// A function of two numbers.
#[derive(Debug, Clone, Copy, PartialEq, Eq, Structural)]
pub enum Pair {
    Pow,
    /// `x ln y`, zero where `x` is.
    Xlogy,
    /// `x ln(1 + y)`, zero where `x` is.
    Xlog1py,
    /// The logarithm of the beta function.
    Lbeta,
    /// The logarithm of a binomial coefficient.
    LogBinom,
    /// The regularised lower incomplete gamma function.
    Gammainc,
}

/// A formula.
#[derive(Debug)]
pub enum Formula {
    Slot(Slot),
    Int(i64),
    /// A quotient of two whole numbers.
    Ratio(i64, u64),
    Named(Named),
    Neg(Box<Formula>),
    Sum(Box<Formula>, Box<Formula>),
    Difference(Box<Formula>, Box<Formula>),
    Product(Box<Formula>, Box<Formula>),
    Quotient(Box<Formula>, Box<Formula>),
    Call(Call, Box<Formula>),
    Pair(Pair, Box<Formula>, Box<Formula>),
    /// A number brought between two others.
    Clamp(Box<Formula>, Box<Formula>, Box<Formula>),
    Branch(Box<Test>, Box<Formula>, Box<Formula>),
}

/// What a formula branches on.
#[derive(Debug)]
pub enum Test {
    Below(Box<Formula>, Box<Formula>),
    AtMost(Box<Formula>, Box<Formula>),
    Both(Box<Test>, Box<Test>),
    Either(Box<Test>, Box<Test>),
}

/// The functions and constants of the formulas, over the reals. The transcendental ones
/// stay abstract.
pub struct Calculus {
    pub exp: spec_fn(real) -> real,
    pub ln: spec_fn(real) -> real,
    pub sqrt: spec_fn(real) -> real,
    pub sin: spec_fn(real) -> real,
    pub cos: spec_fn(real) -> real,
    pub tan: spec_fn(real) -> real,
    pub atan: spec_fn(real) -> real,
    pub acos: spec_fn(real) -> real,
    pub floor: spec_fn(real) -> real,
    pub lgamma: spec_fn(real) -> real,
    pub digamma: spec_fn(real) -> real,
    pub trigamma: spec_fn(real) -> real,
    pub erf: spec_fn(real) -> real,
    pub erfinv: spec_fn(real) -> real,
    pub log1p: spec_fn(real) -> real,
    pub expm1: spec_fn(real) -> real,
    pub log_i0: spec_fn(real) -> real,
    pub bessel_ratio: spec_fn(real) -> real,
    pub ndtr: spec_fn(real) -> real,
    pub ndtri: spec_fn(real) -> real,
    pub softplus: spec_fn(real) -> real,
    pub log_sigmoid: spec_fn(real) -> real,
    pub pow: spec_fn(real, real) -> real,
    pub xlogy: spec_fn(real, real) -> real,
    pub xlog1py: spec_fn(real, real) -> real,
    pub lbeta: spec_fn(real, real) -> real,
    pub log_binom: spec_fn(real, real) -> real,
    pub gammainc: spec_fn(real, real) -> real,
    pub inf: real,
    pub nan: real,
    pub half_ln_two_pi: real,
    pub ln_two: real,
    pub pi: real,
    pub euler_gamma: real,
    pub sqrt_two: real,
}

/// `x` times a logarithm, zero where `x` is.
pub open spec fn vanishing(x: real, l: real) -> real {
    if x == 0real {
        0real
    } else {
        x * l
    }
}

/// The calculus of the functions that terms are made of.
pub open spec fn calculus(f: Functions) -> Calculus {
    Calculus {
        exp: f.exp,
        ln: f.log,
        sqrt: f.sqrt,
        sin: f.sin,
        cos: f.cos,
        tan: |x: real| (f.sin)(x) / (f.cos)(x),
        atan: f.atan,
        acos: f.acos,
        floor: f.floor,
        lgamma: |x: real| (f.special)(Special::Lgamma, x),
        digamma: |x: real| (f.special)(Special::Digamma, x),
        trigamma: |x: real| (f.special)(Special::Trigamma, x),
        erf: f.erf,
        erfinv: |x: real| (f.special)(Special::Erfinv, x),
        log1p: |x: real| (f.special)(Special::Log1p, x),
        expm1: |x: real| (f.special)(Special::Expm1, x),
        log_i0: |x: real| (f.special)(Special::LogI0, x),
        bessel_ratio: |x: real| (f.special)(Special::BesselRatio, x),
        ndtr: |x: real| (f.special)(Special::Ndtr, x),
        ndtri: |x: real| (f.special)(Special::Ndtri, x),
        softplus: f.softplus,
        log_sigmoid: |x: real| (f.special)(Special::LogSigmoid, x),
        pow: f.pow,
        xlogy: |x: real, y: real| vanishing(x, (f.log)(y)),
        xlog1py: |x: real, y: real| vanishing(x, (f.special)(Special::Log1p, y)),
        lbeta: |x: real, y: real|
            (f.special)(Special::Lgamma, x) + (f.special)(Special::Lgamma, y) - (f.special)(
                Special::Lgamma,
                x + y,
            ),
        log_binom: |x: real, y: real|
            (f.special)(Special::Lgamma, x + 1real) - (f.special)(Special::Lgamma, y + 1real) - (
            f.special)(Special::Lgamma, x - y + 1real),
        gammainc: f.gammainc,
        inf: f.inf,
        nan: f.nan,
        half_ln_two_pi: (f.constant)(Scalar::HalfLnTwoPiTimes(1)),
        ln_two: (f.constant)(Scalar::LnTwo),
        pi: (f.constant)(Scalar::Pi),
        euler_gamma: (f.constant)(Scalar::EulerGamma),
        sqrt_two: (f.sqrt)(2real),
    }
}

/// A place a formula is read at.
pub struct Point {
    pub x: real,
    pub a: real,
    pub b: real,
    pub c: real,
    pub u: real,
    pub v: real,
}

pub open spec fn magnitude(x: real) -> real {
    if x < 0real {
        -x
    } else {
        x
    }
}

pub open spec fn sign(x: real) -> real {
    if x > 0real {
        1real
    } else if x < 0real {
        -1real
    } else {
        0real
    }
}

pub open spec fn clamped(x: real, lo: real, hi: real) -> real {
    if x < lo {
        lo
    } else if hi < x {
        hi
    } else {
        x
    }
}

pub open spec fn at_slot(s: Slot, p: Point) -> real {
    match s {
        Slot::X => p.x,
        Slot::A => p.a,
        Slot::B => p.b,
        Slot::C => p.c,
        Slot::U => p.u,
        Slot::V => p.v,
    }
}

pub open spec fn constant(m: Calculus, n: Named) -> real {
    match n {
        Named::Inf => m.inf,
        Named::Nan => m.nan,
        Named::HalfLnTwoPi => m.half_ln_two_pi,
        Named::LnTwo => m.ln_two,
        Named::Pi => m.pi,
        Named::EulerGamma => m.euler_gamma,
        Named::SqrtTwo => m.sqrt_two,
    }
}

pub open spec fn called(m: Calculus, c: Call, x: real) -> real {
    match c {
        Call::Abs => magnitude(x),
        Call::Sign => sign(x),
        Call::Exp => (m.exp)(x),
        Call::Ln => (m.ln)(x),
        Call::Sqrt => (m.sqrt)(x),
        Call::Sin => (m.sin)(x),
        Call::Cos => (m.cos)(x),
        Call::Tan => (m.tan)(x),
        Call::Atan => (m.atan)(x),
        Call::Acos => (m.acos)(x),
        Call::Floor => (m.floor)(x),
        Call::Lgamma => (m.lgamma)(x),
        Call::Digamma => (m.digamma)(x),
        Call::Trigamma => (m.trigamma)(x),
        Call::Erf => (m.erf)(x),
        Call::Erfinv => (m.erfinv)(x),
        Call::Log1p => (m.log1p)(x),
        Call::Expm1 => (m.expm1)(x),
        Call::LogI0 => (m.log_i0)(x),
        Call::BesselRatio => (m.bessel_ratio)(x),
        Call::Ndtr => (m.ndtr)(x),
        Call::Ndtri => (m.ndtri)(x),
        Call::Softplus => (m.softplus)(x),
        Call::LogSigmoid => (m.log_sigmoid)(x),
    }
}

pub open spec fn paired(m: Calculus, c: Pair, x: real, y: real) -> real {
    match c {
        Pair::Pow => (m.pow)(x, y),
        Pair::Xlogy => (m.xlogy)(x, y),
        Pair::Xlog1py => (m.xlog1py)(x, y),
        Pair::Lbeta => (m.lbeta)(x, y),
        Pair::LogBinom => (m.log_binom)(x, y),
        Pair::Gammainc => (m.gammainc)(x, y),
    }
}

/// What a formula means at a point.
pub open spec fn meaning(m: Calculus, e: Formula, p: Point) -> real
    decreases e,
{
    match e {
        Formula::Slot(s) => at_slot(s, p),
        Formula::Int(n) => n as int as real,
        Formula::Ratio(n, d) => n as int as real / d as int as real,
        Formula::Named(n) => constant(m, n),
        Formula::Neg(a) => -meaning(m, *a, p),
        Formula::Sum(a, b) => meaning(m, *a, p) + meaning(m, *b, p),
        Formula::Difference(a, b) => meaning(m, *a, p) - meaning(m, *b, p),
        Formula::Product(a, b) => meaning(m, *a, p) * meaning(m, *b, p),
        Formula::Quotient(a, b) => meaning(m, *a, p) / meaning(m, *b, p),
        Formula::Call(c, a) => called(m, c, meaning(m, *a, p)),
        Formula::Pair(c, a, b) => paired(m, c, meaning(m, *a, p), meaning(m, *b, p)),
        Formula::Clamp(a, lo, hi) => clamped(
            meaning(m, *a, p),
            meaning(m, *lo, p),
            meaning(m, *hi, p),
        ),
        Formula::Branch(t, a, b) => if holds(m, *t, p) {
            meaning(m, *a, p)
        } else {
            meaning(m, *b, p)
        },
    }
}

/// Whether a test holds at a point.
pub open spec fn holds(m: Calculus, t: Test, p: Point) -> bool
    decreases t,
{
    match t {
        Test::Below(a, b) => meaning(m, *a, p) < meaning(m, *b, p),
        Test::AtMost(a, b) => meaning(m, *a, p) <= meaning(m, *b, p),
        Test::Both(a, b) => holds(m, *a, p) && holds(m, *b, p),
        Test::Either(a, b) => holds(m, *a, p) || holds(m, *b, p),
    }
}

// -- slopes --------------------------------------------------------------------------------

/// The derivative of a function of one number. A step is flat; what has no name here has no
/// slope.
pub open spec fn call_slope(m: Calculus, c: Call, x: real) -> real {
    match c {
        Call::Abs => sign(x),
        Call::Sign => 0real,
        Call::Exp => (m.exp)(x),
        Call::Ln => 1real / x,
        Call::Sqrt => 1real / (2real * (m.sqrt)(x)),
        Call::Sin => (m.cos)(x),
        Call::Cos => -(m.sin)(x),
        Call::Tan => 1real + (m.tan)(x) * (m.tan)(x),
        Call::Atan => 1real / (1real + x * x),
        Call::Acos => -(1real / (m.sqrt)(1real - x * x)),
        Call::Floor => 0real,
        Call::Lgamma => (m.digamma)(x),
        Call::Digamma => (m.trigamma)(x),
        Call::Trigamma => m.nan,
        Call::Erf => 2real / (m.sqrt)(m.pi) * (m.exp)(-(x * x)),
        Call::Erfinv => (8862269real / 10000000real) * (m.exp)((m.erfinv)(x) * (m.erfinv)(x)),
        Call::Log1p => 1real / (1real + x),
        Call::Expm1 => (m.exp)(x),
        Call::LogI0 => (m.bessel_ratio)(x),
        Call::BesselRatio => 1real - (m.bessel_ratio)(x) * (m.bessel_ratio)(x)
            - (m.bessel_ratio)(x) / x,
        Call::Ndtr => (m.exp)((-1real / 2real) * x * x - m.half_ln_two_pi),
        Call::Ndtri => (m.exp)(
            (1real / 2real) * (m.ndtri)(x) * (m.ndtri)(x) + m.half_ln_two_pi,
        ),
        Call::Softplus => 1real / (1real + (m.exp)(-x)),
        Call::LogSigmoid => 1real / (1real + (m.exp)(x)),
    }
}

/// The derivative of a function of two numbers with respect to the first.
pub open spec fn left_slope(m: Calculus, c: Pair, x: real, y: real) -> real {
    match c {
        Pair::Pow => y * (m.pow)(x, y) / x,
        Pair::Xlogy => (m.ln)(y),
        Pair::Xlog1py => (m.log1p)(y),
        Pair::Lbeta => (m.digamma)(x) - (m.digamma)(x + y),
        Pair::LogBinom => (m.digamma)(x + 1real) - (m.digamma)(x - y + 1real),
        Pair::Gammainc => m.nan,
    }
}

/// The derivative of a function of two numbers with respect to the second.
pub open spec fn right_slope(m: Calculus, c: Pair, x: real, y: real) -> real {
    match c {
        Pair::Pow => (m.ln)(x) * (m.pow)(x, y),
        Pair::Xlogy => x / y,
        Pair::Xlog1py => x / (1real + y),
        Pair::Lbeta => (m.digamma)(y) - (m.digamma)(x + y),
        Pair::LogBinom => (m.digamma)(x - y + 1real) - (m.digamma)(y + 1real),
        Pair::Gammainc => (m.exp)((x - 1real) * (m.ln)(y) - y - (m.lgamma)(x)),
    }
}

/// A weight times a slope.
pub open spec fn along(weight: real, d: real) -> real {
    weight * d
}

/// A slope that is nothing, one or minus one leaves nothing, the weight or its opposite.
pub(crate) broadcast proof fn lemma_along(weight: real, d: real)
    ensures
        d == 0real ==> #[trigger] along(weight, d) == 0real,
        d == 1real ==> along(weight, d) == weight,
        d == -1real ==> along(weight, d) == -weight,
        d == 1real / 2real ==> along(weight, d) == weight * (1real / 2real),
{
    if d == 0real {
        assert(weight * d == 0real) by (nonlinear_arith)
            requires
                d == 0real,
        ;
    }
    if d == 1real {
        assert(weight * d == weight) by (nonlinear_arith)
            requires
                d == 1real,
        ;
    }
    if d == 1real / 2real {
        assert(weight * d == weight * (1real / 2real)) by (nonlinear_arith)
            requires
                d == 1real / 2real,
        ;
    }
    if d == -1real {
        assert(weight * d == -weight) by (nonlinear_arith)
            requires
                d == -1real,
        ;
    }
}

/// The partial derivative of a formula with respect to a variable, by the rules of calculus.
pub open spec fn slope(m: Calculus, e: Formula, p: Point, s: Slot) -> real
    decreases e,
{
    match e {
        Formula::Slot(t) => if t == s {
            1real
        } else {
            0real
        },
        Formula::Int(_) | Formula::Ratio(_, _) | Formula::Named(_) => 0real,
        Formula::Neg(a) => -slope(m, *a, p, s),
        Formula::Sum(a, b) => slope(m, *a, p, s) + slope(m, *b, p, s),
        Formula::Difference(a, b) => slope(m, *a, p, s) - slope(m, *b, p, s),
        Formula::Product(a, b) => along(meaning(m, *b, p), slope(m, *a, p, s)) + along(
            meaning(m, *a, p),
            slope(m, *b, p, s),
        ),
        Formula::Quotient(a, b) => along(
            1real / meaning(m, *b, p),
            slope(m, *a, p, s) - along(
                meaning(m, *a, p) / meaning(m, *b, p),
                slope(m, *b, p, s),
            ),
        ),
        Formula::Call(c, a) => along(call_slope(m, c, meaning(m, *a, p)), slope(m, *a, p, s)),
        Formula::Pair(c, a, b) => along(
            left_slope(m, c, meaning(m, *a, p), meaning(m, *b, p)),
            slope(m, *a, p, s),
        ) + along(
            right_slope(m, c, meaning(m, *a, p), meaning(m, *b, p)),
            slope(m, *b, p, s),
        ),
        Formula::Clamp(a, lo, hi) => if meaning(m, *a, p) < meaning(m, *lo, p) {
            slope(m, *lo, p, s)
        } else if meaning(m, *hi, p) < meaning(m, *a, p) {
            slope(m, *hi, p, s)
        } else {
            slope(m, *a, p, s)
        },
        Formula::Branch(t, a, b) => if holds(m, *t, p) {
            slope(m, *a, p, s)
        } else {
            slope(m, *b, p, s)
        },
    }
}

impl Clone for Formula {
    fn clone(&self) -> (r: Self)
        ensures
            r == *self,
        decreases self,
    {
        match self {
            Formula::Slot(s) => Formula::Slot(*s),
            Formula::Int(n) => Formula::Int(*n),
            Formula::Ratio(n, d) => Formula::Ratio(*n, *d),
            Formula::Named(n) => Formula::Named(*n),
            Formula::Neg(a) => Formula::Neg(Box::new((&**a).clone())),
            Formula::Sum(a, b) => Formula::Sum(
                Box::new((&**a).clone()),
                Box::new((&**b).clone()),
            ),
            Formula::Difference(a, b) => Formula::Difference(
                Box::new((&**a).clone()),
                Box::new((&**b).clone()),
            ),
            Formula::Product(a, b) => Formula::Product(
                Box::new((&**a).clone()),
                Box::new((&**b).clone()),
            ),
            Formula::Quotient(a, b) => Formula::Quotient(
                Box::new((&**a).clone()),
                Box::new((&**b).clone()),
            ),
            Formula::Call(c, a) => Formula::Call(*c, Box::new((&**a).clone())),
            Formula::Pair(c, a, b) => Formula::Pair(
                *c,
                Box::new((&**a).clone()),
                Box::new((&**b).clone()),
            ),
            Formula::Clamp(a, lo, hi) => Formula::Clamp(
                Box::new((&**a).clone()),
                Box::new((&**lo).clone()),
                Box::new((&**hi).clone()),
            ),
            Formula::Branch(t, a, b) => Formula::Branch(
                Box::new((&**t).clone()),
                Box::new((&**a).clone()),
                Box::new((&**b).clone()),
            ),
        }
    }
}

impl Clone for Test {
    fn clone(&self) -> (r: Self)
        ensures
            r == *self,
        decreases self,
    {
        match self {
            Test::Below(a, b) => Test::Below(
                Box::new((&**a).clone()),
                Box::new((&**b).clone()),
            ),
            Test::AtMost(a, b) => Test::AtMost(
                Box::new((&**a).clone()),
                Box::new((&**b).clone()),
            ),
            Test::Both(a, b) => Test::Both(Box::new((&**a).clone()), Box::new((&**b).clone())),
            Test::Either(a, b) => Test::Either(
                Box::new((&**a).clone()),
                Box::new((&**b).clone()),
            ),
        }
    }
}

// -- building ------------------------------------------------------------------------------

pub(crate) fn slot(s: Slot) -> (r: Formula)
    ensures
        forall|m: Calculus, p: Point| #[trigger] meaning(m, r, p) == (at_slot(s, p)),
        forall|m: Calculus, p: Point, t: Slot| #[trigger] slope(m, r, p, t) == (if s == t { 1real } else { 0real }),
{
    Formula::Slot(s)
}

pub(crate) fn whole(n: i64) -> (r: Formula)
    ensures
        forall|m: Calculus, p: Point| #[trigger] meaning(m, r, p) == (n as int as real),
        forall|m: Calculus, p: Point, t: Slot| #[trigger] slope(m, r, p, t) == (0real),
{
    Formula::Int(n)
}

pub(crate) fn ratio(n: i64, d: u64) -> (r: Formula)
    ensures
        forall|m: Calculus, p: Point| #[trigger] meaning(m, r, p) == (n as int as real / d as int as real),
        forall|m: Calculus, p: Point, t: Slot| #[trigger] slope(m, r, p, t) == (0real),
{
    Formula::Ratio(n, d)
}

pub(crate) fn named(n: Named) -> (r: Formula)
    ensures
        forall|m: Calculus, p: Point| #[trigger] meaning(m, r, p) == (constant(m, n)),
        forall|m: Calculus, p: Point, t: Slot| #[trigger] slope(m, r, p, t) == (0real),
{
    Formula::Named(n)
}

pub(crate) fn minus(a: Formula) -> (r: Formula)
    ensures
        forall|m: Calculus, p: Point| #[trigger] meaning(m, r, p) == (-meaning(m, a, p)),
        forall|m: Calculus, p: Point, t: Slot| #[trigger] slope(m, r, p, t) == (-slope(m, a, p, t)),
{
    Formula::Neg(Box::new(a))
}

pub(crate) fn plus(a: Formula, b: Formula) -> (r: Formula)
    ensures
        forall|m: Calculus, p: Point| #[trigger] meaning(m, r, p) == (meaning(m, a, p) + meaning(m, b, p)),
        forall|m: Calculus, p: Point, t: Slot| #[trigger] slope(m, r, p, t) == (slope(m, a, p, t) + slope(m, b, p, t)),
{
    Formula::Sum(Box::new(a), Box::new(b))
}

pub(crate) fn less(a: Formula, b: Formula) -> (r: Formula)
    ensures
        forall|m: Calculus, p: Point| #[trigger] meaning(m, r, p) == (meaning(m, a, p) - meaning(m, b, p)),
        forall|m: Calculus, p: Point, t: Slot| #[trigger] slope(m, r, p, t) == (slope(m, a, p, t) - slope(m, b, p, t)),
{
    Formula::Difference(Box::new(a), Box::new(b))
}

pub(crate) fn times(a: Formula, b: Formula) -> (r: Formula)
    ensures
        forall|m: Calculus, p: Point| #[trigger] meaning(m, r, p) == (meaning(m, a, p) * meaning(m, b, p)),
        forall|m: Calculus, p: Point, t: Slot| #[trigger] slope(m, r, p, t) == along(meaning(m, b, p), slope(m, a, p, t)) + along(meaning(m, a, p), slope(m, b, p, t)),
{
    Formula::Product(Box::new(a), Box::new(b))
}

pub(crate) fn over(a: Formula, b: Formula) -> (r: Formula)
    ensures
        forall|m: Calculus, p: Point| #[trigger] meaning(m, r, p) == (meaning(m, a, p) / meaning(m, b, p)),
        forall|m: Calculus, p: Point, t: Slot| #[trigger] slope(m, r, p, t) == along(1real / meaning(m, b, p), slope(m, a, p, t) - along(meaning(m, a, p) / meaning(m, b, p), slope(m, b, p, t))),
{
    Formula::Quotient(Box::new(a), Box::new(b))
}

pub(crate) fn call(c: Call, a: Formula) -> (r: Formula)
    ensures
        forall|m: Calculus, p: Point| #[trigger] meaning(m, r, p) == (called(m, c, meaning(m, a, p))),
        forall|m: Calculus, p: Point, t: Slot| #[trigger] slope(m, r, p, t) == along(call_slope(m, c, meaning(m, a, p)), slope(m, a, p, t)),
{
    Formula::Call(c, Box::new(a))
}

pub(crate) fn pair(c: Pair, a: Formula, b: Formula) -> (r: Formula)
    ensures
        forall|m: Calculus, p: Point| #[trigger] meaning(m, r, p) == (paired(m, c, meaning(m, a, p), meaning(m, b, p))),
        forall|m: Calculus, p: Point, t: Slot| #[trigger] slope(m, r, p, t) == along(left_slope(m, c, meaning(m, a, p), meaning(m, b, p)), slope(m, a, p, t)) + along(right_slope(m, c, meaning(m, a, p), meaning(m, b, p)), slope(m, b, p, t)),
{
    Formula::Pair(c, Box::new(a), Box::new(b))
}

pub(crate) fn clamp(a: Formula, lo: Formula, hi: Formula) -> (r: Formula)
    ensures
        forall|m: Calculus, p: Point| #[trigger] meaning(m, r, p) == (clamped(meaning(m, a, p), meaning(m, lo, p), meaning(m, hi, p))),
        forall|m: Calculus, p: Point, t: Slot| #[trigger] slope(m, r, p, t) == (if meaning(m, a, p) < meaning(m, lo, p) { slope(m, lo, p, t) } else if meaning(m, hi, p) < meaning(m, a, p) { slope(m, hi, p, t) } else { slope(m, a, p, t) }),
{
    Formula::Clamp(Box::new(a), Box::new(lo), Box::new(hi))
}

pub(crate) fn branch(t: Test, a: Formula, b: Formula) -> (r: Formula)
    ensures
        forall|m: Calculus, p: Point| #[trigger] meaning(m, r, p) == (if holds(m, t, p) { meaning(m, a, p) } else { meaning(m, b, p) }),
        forall|m: Calculus, p: Point, v: Slot| #[trigger] slope(m, r, p, v) == (if holds(m, t, p) { slope(m, a, p, v) } else { slope(m, b, p, v) }),
{
    Formula::Branch(Box::new(t), Box::new(a), Box::new(b))
}

pub(crate) fn below(a: Formula, b: Formula) -> (r: Test)
    ensures
        forall|m: Calculus, p: Point| #[trigger] holds(m, r, p) == (meaning(m, a, p) < meaning(m, b, p)),
{
    Test::Below(Box::new(a), Box::new(b))
}

pub(crate) fn at_most(a: Formula, b: Formula) -> (r: Test)
    ensures
        forall|m: Calculus, p: Point| #[trigger] holds(m, r, p) == (meaning(m, a, p) <= meaning(m, b, p)),
{
    Test::AtMost(Box::new(a), Box::new(b))
}

pub(crate) fn both(a: Test, b: Test) -> (r: Test)
    ensures
        forall|m: Calculus, p: Point| #[trigger] holds(m, r, p) == (holds(m, a, p) && holds(m, b, p)),
{
    Test::Both(Box::new(a), Box::new(b))
}

pub(crate) fn either(a: Test, b: Test) -> (r: Test)
    ensures
        forall|m: Calculus, p: Point| #[trigger] holds(m, r, p) == (holds(m, a, p) || holds(m, b, p)),
{
    Test::Either(Box::new(a), Box::new(b))
}

} // verus!
