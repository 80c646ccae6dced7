//! The row kernels of the distributions on the simplex, as formulas.

use std::sync::Arc;

use vstd::prelude::*;

use super::divergence;
use super::rows;
use super::rows::{Cell, bin, number, row_log_total, row_sum, un};
use crate::meaning;
use crate::meaning::Model;
use crate::term::{Binary, Scalar, Special, Term, Unary};

verus! {

pub open spec fn trigamma(m: Model, x: real) -> real {
    (m.f.special)(Special::Trigamma, x)
}

/// `x ln y`, which is zero where `x` is.
pub open spec fn x_log_y(m: Model, x: real, y: real) -> real {
    if x == 0real {
        0real
    } else {
        x * (m.f.log)(y)
    }
}

/// One class's part of a log-density: `(a - 1) ln x - ln gamma(a)`.
pub open spec fn density_term(m: Model, conc: Seq<real>, value: Seq<real>, i: int) -> real {
    x_log_y(m, conc[i] - 1real, value[i]) - divergence::lgamma(m.f, conc[i])
}

pub fn density_terms(conc: &Vec<Cell>, value: &Vec<Cell>) -> (r: Vec<Cell>)
    requires
        value@.len() == conc@.len(),
    ensures
        r@.len() == conc@.len(),
        forall|m: Model, i: int|
            0 <= i < conc@.len() ==> #[trigger] m.row(r@)[i] == density_term(m, m.row(conc@), m.row(value@), i),
{
    let mut out: Vec<Cell> = Vec::new();
    let mut i: usize = 0;
    while i < conc.len()
        invariant
            i <= conc@.len(),
            out@.len() == i,
            value@.len() == conc@.len(),
            forall|m: Model, k: int|
                0 <= k < i ==> m.of(*#[trigger] out@[k]) == #[trigger] density_term(m, m.row(conc@), m.row(value@), k),
        decreases conc@.len() - i,
    {
        let less = un(Unary::AddScalar(Scalar::Int(-1)), &conc[i]);
        let l = un(Unary::Log, &value[i]);
        let product = bin(Binary::Mul, &less, &l);
        let gated = bin(Binary::Gated, &less, &product);
        let lg = un(Unary::Special(Special::Lgamma), &conc[i]);
        let v = bin(Binary::Sub, &gated, &lg);
        proof {
            assert forall|m: Model| m.of(*v) == #[trigger] density_term(m, m.row(conc@), m.row(value@), i as int) by {
                assert(m.row(conc@)[i as int] == m.of(*conc@[i as int]));
                assert(m.row(value@)[i as int] == m.of(*value@[i as int]));
                assert(m.of(*less) == m.of(*less));
                assert(m.of(*l) == m.of(*l));
                assert(m.of(*product) == m.of(*product));
                assert(m.of(*gated) == m.of(*gated));
                assert(m.of(*lg) == m.of(*lg));
                assert(m.of(*v) == m.of(*v));
            }
        }
        out.push(v);
        i += 1;
    }
    proof {
        assert forall|m: Model, i: int| 0 <= i < conc@.len() implies #[trigger] m.row(out@)[i]
            == density_term(m, m.row(conc@), m.row(value@), i) by {
            assert(m.of(*out@[i]) == density_term(m, m.row(conc@), m.row(value@), i));
        }
    }
    out
}

/// `sum((a - 1) ln x - ln gamma(a)) + ln gamma(sum a)`.
pub open spec fn dirichlet_density(m: Model, conc: Seq<real>, value: Seq<real>) -> real {
    rows::sum(Seq::new(conc.len(), |i: int| density_term(m, conc, value, i)), conc.len())
        + divergence::lgamma(m.f, rows::sum(conc, conc.len()))
}

/// The log-density of one row.
pub fn dirichlet_log_prob(conc: &Vec<Cell>, value: &Vec<Cell>) -> (r: Cell)
    requires
        value@.len() == conc@.len(),
    ensures
        forall|m: Model|
            #[trigger] m.of(*r) == dirichlet_density(m, m.row(conc@), m.row(value@)),
{
    let parts = density_terms(conc, value);
    let acc = row_sum(&parts);
    let total = row_sum(conc);
    let lg = un(Unary::Special(Special::Lgamma), &total);
    let r = bin(Binary::Add, &acc, &lg);
    proof {
        assert forall|m: Model|
            #[trigger] m.of(*r) == dirichlet_density(m, m.row(conc@), m.row(value@)) by {
            let want = Seq::new(
                conc@.len(),
                |i: int| density_term(m, m.row(conc@), m.row(value@), i),
            );
            assert(m.row(parts@) =~= want);
            assert(m.of(*acc) == rows::sum(m.row(parts@), parts@.len()));
            assert(m.of(*total) == rows::sum(m.row(conc@), conc@.len()));
            assert(m.of(*lg) == divergence::lgamma(m.f, m.of(*total)));
        }
    }
    r
}

/// The gradient for a concentration: `g (ln x + psi(sum a) - psi(a))`.
pub open spec fn conc_slope(m: Model, conc: Seq<real>, value: Seq<real>, g: real, i: int) -> real {
    g * ((m.f.log)(value[i]) + divergence::digamma(m.f, rows::sum(conc, conc.len()))
        - divergence::digamma(m.f, conc[i]))
}

pub fn dirichlet_grad_conc(conc: &Vec<Cell>, value: &Vec<Cell>, g: &Cell) -> (r: Vec<Cell>)
    requires
        value@.len() == conc@.len(),
    ensures
        r@.len() == conc@.len(),
        forall|m: Model, i: int|
            0 <= i < conc@.len() ==> #[trigger] m.row(r@)[i] == conc_slope(m, m.row(conc@), m.row(value@), m.of(**g), i),
{
    let total = row_sum(conc);
    let whole = un(Unary::Special(Special::Digamma), &total);
    proof {
        assert forall|m: Model|
            #[trigger] m.of(*whole) == divergence::digamma(
                m.f,
                rows::sum(m.row(conc@), conc@.len()),
            ) by {
            assert(m.of(*total) == rows::sum(m.row(conc@), conc@.len()));
        }
    }
    let mut out: Vec<Cell> = Vec::new();
    let mut i: usize = 0;
    while i < conc.len()
        invariant
            i <= conc@.len(),
            out@.len() == i,
            value@.len() == conc@.len(),
            forall|m: Model|
                #[trigger] m.of(*whole) == divergence::digamma(
                    m.f,
                    rows::sum(m.row(conc@), conc@.len()),
                ),
            forall|m: Model, k: int|
                0 <= k < i ==> m.of(*#[trigger] out@[k]) == #[trigger] conc_slope(m, m.row(conc@), m.row(value@), m.of(**g), k),
        decreases conc@.len() - i,
    {
        let l = un(Unary::Log, &value[i]);
        let d = un(Unary::Special(Special::Digamma), &conc[i]);
        let a = bin(Binary::Add, &l, &whole);
        let b = bin(Binary::Sub, &a, &d);
        let v = bin(Binary::Mul, g, &b);
        proof {
            assert forall|m: Model| m.of(*v) == #[trigger] conc_slope(m, m.row(conc@), m.row(value@), m.of(**g), i as int) by {
                assert(m.row(conc@)[i as int] == m.of(*conc@[i as int]));
                assert(m.row(value@)[i as int] == m.of(*value@[i as int]));
                assert(m.of(*whole) == m.of(*whole));
                assert(m.of(*l) == m.of(*l));
                assert(m.of(*d) == m.of(*d));
                assert(m.of(*a) == m.of(*a));
                assert(m.of(*b) == m.of(*b));
                assert(m.of(*v) == m.of(*v));
            }
        }
        out.push(v);
        i += 1;
    }
    proof {
        assert forall|m: Model, i: int| 0 <= i < conc@.len() implies #[trigger] m.row(out@)[i]
            == conc_slope(m, m.row(conc@), m.row(value@), m.of(**g), i) by {
            assert(m.of(*out@[i]) == conc_slope(m, m.row(conc@), m.row(value@), m.of(**g), i));
        }
    }
    out
}

/// The gradient for a value: `g (a - 1) / x`.
pub open spec fn value_slope(m: Model, conc: Seq<real>, value: Seq<real>, g: real, i: int) -> real {
    g * (conc[i] - 1real) / value[i]
}

pub fn dirichlet_grad_value(conc: &Vec<Cell>, value: &Vec<Cell>, g: &Cell) -> (r: Vec<Cell>)
    requires
        value@.len() == conc@.len(),
    ensures
        r@.len() == conc@.len(),
        forall|m: Model, i: int|
            0 <= i < conc@.len() ==> #[trigger] m.row(r@)[i] == value_slope(m, m.row(conc@), m.row(value@), m.of(**g), i),
{
    let mut out: Vec<Cell> = Vec::new();
    let mut i: usize = 0;
    while i < conc.len()
        invariant
            i <= conc@.len(),
            out@.len() == i,
            value@.len() == conc@.len(),
            forall|m: Model, k: int|
                0 <= k < i ==> m.of(*#[trigger] out@[k]) == #[trigger] value_slope(m, m.row(conc@), m.row(value@), m.of(**g), k),
        decreases conc@.len() - i,
    {
        let less = un(Unary::AddScalar(Scalar::Int(-1)), &conc[i]);
        let a = bin(Binary::Mul, g, &less);
        let v = bin(Binary::Div, &a, &value[i]);
        proof {
            assert forall|m: Model| m.of(*v) == #[trigger] value_slope(m, m.row(conc@), m.row(value@), m.of(**g), i as int) by {
                assert(m.row(conc@)[i as int] == m.of(*conc@[i as int]));
                assert(m.row(value@)[i as int] == m.of(*value@[i as int]));
                assert(m.of(*less) == m.of(*less));
                assert(m.of(*a) == m.of(*a));
                assert(m.of(*v) == m.of(*v));
            }
        }
        out.push(v);
        i += 1;
    }
    proof {
        assert forall|m: Model, i: int| 0 <= i < conc@.len() implies #[trigger] m.row(out@)[i]
            == value_slope(m, m.row(conc@), m.row(value@), m.of(**g), i) by {
            assert(m.of(*out@[i]) == value_slope(m, m.row(conc@), m.row(value@), m.of(**g), i));
        }
    }
    out
}

/// One class's part of an entropy: `ln gamma(a) - (a - 1) psi(a)`.
pub open spec fn entropy_term(m: Model, conc: Seq<real>, i: int) -> real {
    divergence::lgamma(m.f, conc[i]) - (conc[i] - 1real) * divergence::digamma(m.f, conc[i])
}

pub fn entropy_terms(conc: &Vec<Cell>) -> (r: Vec<Cell>)
    ensures
        r@.len() == conc@.len(),
        forall|m: Model, i: int|
            0 <= i < conc@.len() ==> #[trigger] m.row(r@)[i] == entropy_term(m, m.row(conc@), i),
{
    let mut out: Vec<Cell> = Vec::new();
    let mut i: usize = 0;
    while i < conc.len()
        invariant
            i <= conc@.len(),
            out@.len() == i,
            forall|m: Model, k: int|
                0 <= k < i ==> m.of(*#[trigger] out@[k]) == #[trigger] entropy_term(m, m.row(conc@), k),
        decreases conc@.len() - i,
    {
        let less = un(Unary::AddScalar(Scalar::Int(-1)), &conc[i]);
        let lg = un(Unary::Special(Special::Lgamma), &conc[i]);
        let d = un(Unary::Special(Special::Digamma), &conc[i]);
        let product = bin(Binary::Mul, &less, &d);
        let v = bin(Binary::Sub, &lg, &product);
        proof {
            assert forall|m: Model| m.of(*v) == #[trigger] entropy_term(m, m.row(conc@), i as int) by {
                assert(m.row(conc@)[i as int] == m.of(*conc@[i as int]));
                assert(m.of(*less) == m.of(*less));
                assert(m.of(*lg) == m.of(*lg));
                assert(m.of(*d) == m.of(*d));
                assert(m.of(*product) == m.of(*product));
                assert(m.of(*v) == m.of(*v));
            }
        }
        out.push(v);
        i += 1;
    }
    proof {
        assert forall|m: Model, i: int| 0 <= i < conc@.len() implies #[trigger] m.row(out@)[i]
            == entropy_term(m, m.row(conc@), i) by {
            assert(m.of(*out@[i]) == entropy_term(m, m.row(conc@), i));
        }
    }
    out
}

/// `ln B(a) + (sum a - k) psi(sum a) - sum((a - 1) psi(a))`.
pub open spec fn dirichlet_entropy_of(m: Model, conc: Seq<real>) -> real {
    let total = rows::sum(conc, conc.len());
    rows::sum(Seq::new(conc.len(), |i: int| entropy_term(m, conc, i)), conc.len())
        - divergence::lgamma(m.f, total) + (total - (conc.len() as u64) as int as real)
        * divergence::digamma(m.f, total)
}

/// The entropy of one row.
pub fn dirichlet_entropy(conc: &Vec<Cell>) -> (r: Cell)
    ensures
        forall|m: Model| #[trigger] m.of(*r) == dirichlet_entropy_of(m, m.row(conc@)),
{
    let parts = entropy_terms(conc);
    let acc = row_sum(&parts);
    let total = row_sum(conc);
    let lg = un(Unary::Special(Special::Lgamma), &total);
    let count = number(Scalar::Count(conc.len() as u64));
    let over = bin(Binary::Sub, &total, &count);
    let d = un(Unary::Special(Special::Digamma), &total);
    let product = bin(Binary::Mul, &over, &d);
    let less = bin(Binary::Sub, &acc, &lg);
    let r = bin(Binary::Add, &less, &product);
    proof {
        assert forall|m: Model| #[trigger] m.of(*r) == dirichlet_entropy_of(m, m.row(conc@)) by {
            let want = Seq::new(conc@.len(), |i: int| entropy_term(m, m.row(conc@), i));
            assert(m.row(parts@) =~= want);
            assert(m.of(*acc) == rows::sum(m.row(parts@), parts@.len()));
            assert(m.of(*total) == rows::sum(m.row(conc@), conc@.len()));
            assert(m.of(*lg) == divergence::lgamma(m.f, m.of(*total)));
            assert(m.of(*over) == m.of(*total) - m.of(*count));
            assert(m.of(*d) == divergence::digamma(m.f, m.of(*total)));
            assert(m.of(*product) == m.of(*over) * m.of(*d));
            assert(m.of(*less) == m.of(*acc) - m.of(*lg));
        }
    }
    r
}

/// What every class's entropy adjoint shares.
pub open spec fn shared_slope(m: Model, conc: Seq<real>) -> real {
    let total = rows::sum(conc, conc.len());
    (total - (conc.len() as u64) as int as real) * trigamma(m, total)
}

/// The adjoint of an entropy: `g ((sum a - k) psi'(sum a) - (a - 1) psi'(a))`.
pub open spec fn entropy_slope(m: Model, conc: Seq<real>, g: real, i: int) -> real {
    let total = rows::sum(conc, conc.len());
    g * ((total - (conc.len() as u64) as int as real) * trigamma(m, total) - (conc[i] - 1real)
        * trigamma(m, conc[i]))
}

pub fn dirichlet_entropy_grad(conc: &Vec<Cell>, g: &Cell) -> (r: Vec<Cell>)
    ensures
        r@.len() == conc@.len(),
        forall|m: Model, i: int|
            0 <= i < conc@.len() ==> #[trigger] m.row(r@)[i] == entropy_slope(m, m.row(conc@), m.of(**g), i),
{
    let total = row_sum(conc);
    let count = number(Scalar::Count(conc.len() as u64));
    let over = bin(Binary::Sub, &total, &count);
    let t = un(Unary::Special(Special::Trigamma), &total);
    let shared = bin(Binary::Mul, &over, &t);
    proof {
        assert forall|m: Model| #[trigger] m.of(*shared) == shared_slope(m, m.row(conc@)) by {
            assert(m.of(*total) == rows::sum(m.row(conc@), conc@.len()));
            assert(m.of(*over) == m.of(*total) - m.of(*count));
            assert(m.of(*t) == trigamma(m, m.of(*total)));
        }
    }
    let mut out: Vec<Cell> = Vec::new();
    let mut i: usize = 0;
    while i < conc.len()
        invariant
            i <= conc@.len(),
            out@.len() == i,
            forall|m: Model| #[trigger] m.of(*shared) == shared_slope(m, m.row(conc@)),
            forall|m: Model, k: int|
                0 <= k < i ==> m.of(*#[trigger] out@[k]) == #[trigger] entropy_slope(m, m.row(conc@), m.of(**g), k),
        decreases conc@.len() - i,
    {
        let less = un(Unary::AddScalar(Scalar::Int(-1)), &conc[i]);
        let t = un(Unary::Special(Special::Trigamma), &conc[i]);
        let product = bin(Binary::Mul, &less, &t);
        let gap = bin(Binary::Sub, &shared, &product);
        let v = bin(Binary::Mul, g, &gap);
        proof {
            assert forall|m: Model| m.of(*v) == #[trigger] entropy_slope(m, m.row(conc@), m.of(**g), i as int) by {
                assert(m.row(conc@)[i as int] == m.of(*conc@[i as int]));
                assert(m.of(*shared) == shared_slope(m, m.row(conc@)));
                assert(m.of(*less) == m.of(*less));
                assert(m.of(*t) == m.of(*t));
                assert(m.of(*product) == m.of(*product));
                assert(m.of(*gap) == m.of(*gap));
                assert(m.of(*v) == m.of(*v));
            }
        }
        out.push(v);
        i += 1;
    }
    proof {
        assert forall|m: Model, i: int| 0 <= i < conc@.len() implies #[trigger] m.row(out@)[i]
            == entropy_slope(m, m.row(conc@), m.of(**g), i) by {
            assert(m.of(*out@[i]) == entropy_slope(m, m.row(conc@), m.of(**g), i));
        }
    }
    out
}

/// The mean of a class: `a / sum a`.
pub open spec fn mean_of_class(m: Model, conc: Seq<real>, i: int) -> real {
    conc[i] / rows::sum(conc, conc.len())
}

pub fn dirichlet_mean(conc: &Vec<Cell>) -> (r: Vec<Cell>)
    ensures
        r@.len() == conc@.len(),
        forall|m: Model, i: int|
            0 <= i < conc@.len() ==> #[trigger] m.row(r@)[i] == mean_of_class(m, m.row(conc@), i),
{
    let total = row_sum(conc);
    let mut out: Vec<Cell> = Vec::new();
    let mut i: usize = 0;
    while i < conc.len()
        invariant
            i <= conc@.len(),
            out@.len() == i,
            forall|m: Model| #[trigger] m.of(*total) == rows::sum(m.row(conc@), conc@.len()),
            forall|m: Model, k: int|
                0 <= k < i ==> m.of(*#[trigger] out@[k]) == #[trigger] mean_of_class(m, m.row(conc@), k),
        decreases conc@.len() - i,
    {
        let v = bin(Binary::Div, &conc[i], &total);
        proof {
            assert forall|m: Model| m.of(*v) == #[trigger] mean_of_class(m, m.row(conc@), i as int) by {
                assert(m.row(conc@)[i as int] == m.of(*conc@[i as int]));
                assert(m.of(*total) == rows::sum(m.row(conc@), conc@.len()));
                assert(m.of(*v) == m.of(*v));
            }
        }
        out.push(v);
        i += 1;
    }
    proof {
        assert forall|m: Model, i: int| 0 <= i < conc@.len() implies #[trigger] m.row(out@)[i]
            == mean_of_class(m, m.row(conc@), i) by {
            assert(m.of(*out@[i]) == mean_of_class(m, m.row(conc@), i));
        }
    }
    out
}

/// The variance of a class: `a (s - a) / (s^2 (s + 1))` for the sum `s`.
pub open spec fn variance_of_class(m: Model, conc: Seq<real>, i: int) -> real {
    let s = rows::sum(conc, conc.len());
    conc[i] * (s - conc[i]) / (s * s * (s + 1real))
}

pub fn dirichlet_variance(conc: &Vec<Cell>) -> (r: Vec<Cell>)
    ensures
        r@.len() == conc@.len(),
        forall|m: Model, i: int|
            0 <= i < conc@.len() ==> #[trigger] m.row(r@)[i] == variance_of_class(m, m.row(conc@), i),
{
    let total = row_sum(conc);
    let mut out: Vec<Cell> = Vec::new();
    let mut i: usize = 0;
    while i < conc.len()
        invariant
            i <= conc@.len(),
            out@.len() == i,
            forall|m: Model| #[trigger] m.of(*total) == rows::sum(m.row(conc@), conc@.len()),
            forall|m: Model, k: int|
                0 <= k < i ==> m.of(*#[trigger] out@[k]) == #[trigger] variance_of_class(m, m.row(conc@), k),
        decreases conc@.len() - i,
    {
        let rest = bin(Binary::Sub, &total, &conc[i]);
        let num = bin(Binary::Mul, &conc[i], &rest);
        let sq = bin(Binary::Mul, &total, &total);
        let more = un(Unary::AddScalar(Scalar::Int(1)), &total);
        let den = bin(Binary::Mul, &sq, &more);
        let v = bin(Binary::Div, &num, &den);
        proof {
            assert forall|m: Model| m.of(*v) == #[trigger] variance_of_class(m, m.row(conc@), i as int) by {
                assert(m.row(conc@)[i as int] == m.of(*conc@[i as int]));
                assert(m.of(*total) == rows::sum(m.row(conc@), conc@.len()));
                assert(m.of(*rest) == m.of(*rest));
                assert(m.of(*num) == m.of(*num));
                assert(m.of(*sq) == m.of(*sq));
                assert(m.of(*more) == m.of(*more));
                assert(m.of(*den) == m.of(*den));
                assert(m.of(*v) == m.of(*v));
            }
        }
        out.push(v);
        i += 1;
    }
    proof {
        assert forall|m: Model, i: int| 0 <= i < conc@.len() implies #[trigger] m.row(out@)[i]
            == variance_of_class(m, m.row(conc@), i) by {
            assert(m.of(*out@[i]) == variance_of_class(m, m.row(conc@), i));
        }
    }
    out
}

/// The mode of a class: `(a - 1) / (sum a - k)`.
pub open spec fn mode_of_class(m: Model, conc: Seq<real>, i: int) -> real {
    (conc[i] - 1real) / (rows::sum(conc, conc.len()) - (conc.len() as u64) as int as real)
}

pub fn dirichlet_mode(conc: &Vec<Cell>) -> (r: Vec<Cell>)
    ensures
        r@.len() == conc@.len(),
        forall|m: Model, i: int|
            0 <= i < conc@.len() ==> #[trigger] m.row(r@)[i] == mode_of_class(m, m.row(conc@), i),
{
    let total = row_sum(conc);
    let count = number(Scalar::Count(conc.len() as u64));
    let mut out: Vec<Cell> = Vec::new();
    let mut i: usize = 0;
    while i < conc.len()
        invariant
            i <= conc@.len(),
            out@.len() == i,
            forall|m: Model| #[trigger] m.of(*total) == rows::sum(m.row(conc@), conc@.len()),
            forall|m: Model| #[trigger] m.of(*count) == (conc@.len() as u64) as int as real,
            forall|m: Model, k: int|
                0 <= k < i ==> m.of(*#[trigger] out@[k]) == #[trigger] mode_of_class(m, m.row(conc@), k),
        decreases conc@.len() - i,
    {
        let less = un(Unary::AddScalar(Scalar::Int(-1)), &conc[i]);
        let over = bin(Binary::Sub, &total, &count);
        let v = bin(Binary::Div, &less, &over);
        proof {
            assert forall|m: Model| m.of(*v) == #[trigger] mode_of_class(m, m.row(conc@), i as int) by {
                assert(m.row(conc@)[i as int] == m.of(*conc@[i as int]));
                assert(m.of(*total) == rows::sum(m.row(conc@), conc@.len()));
                assert(m.of(*count) == (conc@.len() as u64) as int as real);
                assert(m.of(*less) == m.of(*less));
                assert(m.of(*over) == m.of(*over));
                assert(m.of(*v) == m.of(*v));
            }
        }
        out.push(v);
        i += 1;
    }
    proof {
        assert forall|m: Model, i: int| 0 <= i < conc@.len() implies #[trigger] m.row(out@)[i]
            == mode_of_class(m, m.row(conc@), i) by {
            assert(m.of(*out@[i]) == mode_of_class(m, m.row(conc@), i));
        }
    }
    out
}

// -- multinomial -----------------------------------------------------------------------------

/// One class's part of a log-mass: `x (l - lse) - ln gamma(x + 1)`.
pub open spec fn count_term(m: Model, logits: Seq<real>, value: Seq<real>, i: int) -> real {
    value[i] * (logits[i] - rows::log_total(m, logits)) - divergence::lgamma(m.f, value[i] + 1real)
}

pub fn count_terms(logits: &Vec<Cell>, value: &Vec<Cell>) -> (r: Vec<Cell>)
    requires
        value@.len() == logits@.len(),
    ensures
        r@.len() == logits@.len(),
        forall|m: Model, i: int|
            0 <= i < logits@.len() ==> #[trigger] m.row(r@)[i] == count_term(m, m.row(logits@), m.row(value@), i),
{
    if logits.len() == 0 {
        return Vec::new();
    }
    let lse = row_log_total(logits);
    let mut out: Vec<Cell> = Vec::new();
    let mut i: usize = 0;
    while i < logits.len()
        invariant
            i <= logits@.len(),
            out@.len() == i,
            value@.len() == logits@.len(),
            forall|m: Model| #[trigger] m.of(*lse) == rows::log_total(m, m.row(logits@)),
            forall|m: Model, k: int|
                0 <= k < i ==> m.of(*#[trigger] out@[k]) == #[trigger] count_term(m, m.row(logits@), m.row(value@), k),
        decreases logits@.len() - i,
    {
        let shifted = bin(Binary::Sub, &logits[i], &lse);
        let product = bin(Binary::Mul, &value[i], &shifted);
        let more = un(Unary::AddScalar(Scalar::Int(1)), &value[i]);
        let lg = un(Unary::Special(Special::Lgamma), &more);
        let v = bin(Binary::Sub, &product, &lg);
        proof {
            assert forall|m: Model| m.of(*v) == #[trigger] count_term(m, m.row(logits@), m.row(value@), i as int) by {
                assert(m.row(logits@)[i as int] == m.of(*logits@[i as int]));
                assert(m.row(value@)[i as int] == m.of(*value@[i as int]));
                assert(m.of(*lse) == rows::log_total(m, m.row(logits@)));
                assert(m.of(*shifted) == m.of(*shifted));
                assert(m.of(*product) == m.of(*product));
                assert(m.of(*more) == m.of(*more));
                assert(m.of(*lg) == m.of(*lg));
                assert(m.of(*v) == m.of(*v));
            }
        }
        out.push(v);
        i += 1;
    }
    proof {
        assert forall|m: Model, i: int| 0 <= i < logits@.len() implies #[trigger] m.row(out@)[i]
            == count_term(m, m.row(logits@), m.row(value@), i) by {
            assert(m.of(*out@[i]) == count_term(m, m.row(logits@), m.row(value@), i));
        }
    }
    out
}

/// `ln n! + sum(x ln p - ln x!)`.
pub open spec fn multinomial_mass(m: Model, trials: u64, logits: Seq<real>, value: Seq<real>) -> real {
    divergence::lgamma(m.f, trials as int as real + 1real) + rows::sum(
        Seq::new(logits.len(), |i: int| count_term(m, logits, value, i)),
        logits.len(),
    )
}

/// The log-mass of one row of counts.
pub fn multinomial_log_prob(trials: u64, logits: &Vec<Cell>, value: &Vec<Cell>) -> (r: Cell)
    requires
        value@.len() == logits@.len(),
    ensures
        forall|m: Model|
            #[trigger] m.of(*r) == multinomial_mass(m, trials, m.row(logits@), m.row(value@)),
{
    let n = number(Scalar::Count(trials));
    let more = un(Unary::AddScalar(Scalar::Int(1)), &n);
    let head = un(Unary::Special(Special::Lgamma), &more);
    let parts = count_terms(logits, value);
    let tail = row_sum(&parts);
    let r = bin(Binary::Add, &head, &tail);
    proof {
        assert forall|m: Model|
            #[trigger] m.of(*r) == multinomial_mass(m, trials, m.row(logits@), m.row(value@)) by {
            let want = Seq::new(
                logits@.len(),
                |i: int| count_term(m, m.row(logits@), m.row(value@), i),
            );
            assert(m.row(parts@) =~= want);
            assert(m.of(*n) == trials as int as real);
            assert(m.of(*more) == m.of(*n) + 1real);
            assert(m.of(*head) == divergence::lgamma(m.f, m.of(*more)));
            assert(m.of(*tail) == rows::sum(m.row(parts@), parts@.len()));
        }
    }
    r
}

/// What a class takes of the trials that are left: nothing of nothing, everything if it
/// is the last, and otherwise what its binomial drew.
pub fn share(left: u64, last: bool, drawn: u64) -> (r: u64)
    requires
        drawn <= left,
    ensures
        r == taken(left as int, last, drawn as int),
        r <= left,
{
    if left == 0 {
        0
    } else if last {
        left
    } else {
        drawn
    }
}

pub open spec fn taken(left: int, last: bool, drawn: int) -> int {
    if left == 0 {
        0
    } else if last {
        left
    } else {
        drawn
    }
}

/// The trials left after the first `n` of `classes` classes took their shares.
pub open spec fn left_after(total: int, drawn: Seq<int>, classes: nat, n: nat) -> int
    decreases n,
{
    if n == 0 {
        total
    } else {
        let left = left_after(total, drawn, classes, (n - 1) as nat);
        left - taken(left, n == classes, drawn[n - 1])
    }
}

/// Nothing is left after the last class: the counts of a draw sum to the trials.
pub proof fn law_counts_sum_to_the_trials(total: int, drawn: Seq<int>, classes: nat)
    requires
        classes > 0,
    ensures
        left_after(total, drawn, classes, classes) == 0,
{
}

/// The first stream of a class's conditional binomial.
pub open spec fn binomial_stream(class: int) -> int {
    class * super::univariate::SUB_DRAW * 2
}

/// The first stream of a class's Gamma.
pub open spec fn gamma_stream(class: int) -> int {
    class * super::univariate::SUB_DRAW
}

/// Different classes of a row draw from streams that do not meet: a Gamma uses one
/// block of streams, a binomial two.
pub proof fn law_class_streams_are_apart(a: int, b: int, i: int, j: int)
    requires
        0 <= a < b,
        i >= 0,
        j >= 0,
    ensures
        i < super::univariate::SUB_DRAW ==> gamma_stream(a) + i < gamma_stream(b) + j,
        i < 2 * super::univariate::SUB_DRAW ==> binomial_stream(a) + i < binomial_stream(b) + j,
{
    let s = super::univariate::SUB_DRAW as int;
    assert(a * s + s <= b * s) by (nonlinear_arith)
        requires
            a + 1 <= b,
            s > 0,
    ;
    assert(a * s * 2 == 2 * (a * s) && b * s * 2 == 2 * (b * s)) by (nonlinear_arith);
}

} // verus!
