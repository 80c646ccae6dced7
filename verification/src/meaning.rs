//! What elementwise terms mean over the real numbers.
//!
//! A tensor is described by a term, and an executor evaluates terms in floating point.
//! Over the reals an elementwise term has a meaning of its own, element by element,
//! and that is what the laws on formulas speak of. The transcendental functions stay
//! abstract: a law names the few facts about them that it needs.

use std::sync::Arc;

use vstd::prelude::*;

use crate::single;
use crate::term::{Binary, Scalar, Special, Term, Unary};

verus! {

/// The functions that a formula is made of, over the reals.
pub struct Functions {
    pub exp: spec_fn(real) -> real,
    pub log: spec_fn(real) -> real,
    pub sqrt: spec_fn(real) -> real,
    pub tanh: spec_fn(real) -> real,
    pub sigmoid: spec_fn(real) -> real,
    pub sin: spec_fn(real) -> real,
    pub cos: spec_fn(real) -> real,
    pub erf: spec_fn(real) -> real,
    pub softplus: spec_fn(real) -> real,
    pub round: spec_fn(real) -> real,
    pub pow: spec_fn(real, real) -> real,
    pub wrap: spec_fn(real, real) -> real,
    pub special: spec_fn(Special, real) -> real,
    pub atan: spec_fn(real) -> real,
    pub acos: spec_fn(real) -> real,
    pub floor: spec_fn(real) -> real,
    /// The regularised lower incomplete gamma function.
    pub gammainc: spec_fn(real, real) -> real,
    /// What stands for a statistic that diverges.
    pub inf: real,
    /// What stands for a statistic that does not exist.
    pub nan: real,
    /// A draw that takes more than one uniform number: what is drawn, seed, element, and
    /// three parameters.
    pub rejection: spec_fn(u32, u64, int, real, real, real) -> real,
    /// What a class takes of the trials of a row: trials, seed, row, logits, class.
    pub share: spec_fn(u64, u64, int, Seq<real>, int) -> real,
    /// The constants that are not quotients of whole numbers.
    pub constant: spec_fn(Scalar) -> real,
}

pub open spec fn scalar(f: Functions, s: Scalar) -> real {
    match s {
        Scalar::Int(i) => i as int as real,
        Scalar::Frac(a, b) => a as int as real / b as int as real,
        Scalar::Count(n) => n as int as real,
        // The reciprocal of one is one.
        Scalar::BitsInverse(b) => if b == single::ONE {
            1real
        } else {
            (f.constant)(s)
        },
        _ => (f.constant)(s),
    }
}

pub open spec fn indicator(b: bool) -> real {
    if b {
        1real
    } else {
        0real
    }
}

pub open spec fn unary(f: Functions, op: Unary, x: real) -> real {
    match op {
        Unary::Neg => -x,
        Unary::Exp => (f.exp)(x),
        Unary::Log => (f.log)(x),
        Unary::Sqrt => (f.sqrt)(x),
        Unary::Rsqrt => 1real / (f.sqrt)(x),
        Unary::Recip => 1real / x,
        Unary::Abs => if x < 0real {
            -x
        } else {
            x
        },
        Unary::Sign => if x < 0real {
            -1real
        } else {
            indicator(x > 0real)
        },
        Unary::Tanh => (f.tanh)(x),
        Unary::Sigmoid => (f.sigmoid)(x),
        Unary::Sin => (f.sin)(x),
        Unary::Cos => (f.cos)(x),
        Unary::Erf => (f.erf)(x),
        Unary::Relu => if x > 0real {
            x
        } else {
            0real
        },
        Unary::Round => (f.round)(x),
        Unary::Silu => x * (f.sigmoid)(x),
        Unary::Softplus => (f.softplus)(x),
        Unary::AddScalar(a) => x + scalar(f, a),
        Unary::MulScalar(a) => x * scalar(f, a),
        Unary::RsubScalar(a) => scalar(f, a) - x,
        Unary::PowfScalar(a) => (f.pow)(x, scalar(f, a)),
        Unary::Clamp(lo, hi) => if x < scalar(f, lo) {
            scalar(f, lo)
        } else if x > scalar(f, hi) {
            scalar(f, hi)
        } else {
            x
        },
        Unary::GtScalar(a) => indicator(x > scalar(f, a)),
        Unary::LtScalar(a) => indicator(x < scalar(f, a)),
        Unary::EqScalar(a) => indicator(x == scalar(f, a)),
        Unary::WrapTo(a) => (f.wrap)(x, scalar(f, a)),
        Unary::Special(k) => (f.special)(k, x),
    }
}

pub open spec fn binary(f: Functions, op: Binary, x: real, y: real) -> real {
    match op {
        Binary::Add => x + y,
        Binary::Sub => x - y,
        Binary::Mul => x * y,
        Binary::Div => x / y,
        Binary::Maximum => if x > y {
            x
        } else {
            y
        },
        Binary::Greater => indicator(x > y),
        Binary::Gated => if x == 0real {
            0real
        } else {
            y
        },
        // The gradient times the slope at the input: `s + x s (1 - s)` for a sigmoid
        // `s`, and the sigmoid itself.
        Binary::SiluBackward => x * ((f.sigmoid)(y) + y * ((f.sigmoid)(y) * (1real
            - (f.sigmoid)(y)))),
        Binary::SoftplusBackward => x * (f.sigmoid)(y),
    }
}

/// What one element of an elementwise term is, given what the terms it is made of are
/// at the same place.
pub open spec fn reading(f: Functions, leaf: spec_fn(Term) -> real, t: Term) -> real
    decreases t,
{
    match t {
        Term::Fill(s, _) => scalar(f, s),
        Term::Unary(op, a) => unary(f, op, reading(f, leaf, *a)),
        Term::Binary(op, a, b) => binary(f, op, reading(f, leaf, *a), reading(f, leaf, *b)),
        Term::Expand(_, a) => reading(f, leaf, *a),
        Term::Reshape(_, a) => reading(f, leaf, *a),
        _ => leaf(t),
    }
}

/// An interpretation: the functions, and what the terms that are not elementwise are.
pub struct Model {
    pub f: Functions,
    pub leaf: spec_fn(Term) -> real,
}

impl Model {
    /// What a term is.
    pub open spec fn of(self, t: Term) -> real {
        reading(self.f, self.leaf, t)
    }

    /// What a row of terms is.
    pub open spec fn row(self, c: Seq<Arc<Term>>) -> Seq<real> {
        c.map_values(|t: Arc<Term>| self.of(*t))
    }
}

} // verus!
