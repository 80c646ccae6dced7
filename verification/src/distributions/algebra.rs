//! The algebra of quotients that the slopes of formulas need.

use vstd::prelude::*;

verus! {

pub(crate) proof fn lemma_over(t: real, d: real)
    requires
        d != 0real,
    ensures
        t / d == t * (1real / d),
{
    assert(t / d == t * (1real / d)) by (nonlinear_arith)
        requires
            d != 0real,
    ;
}

pub(crate) proof fn lemma_inverse(d: real)
    requires
        d != 0real,
    ensures
        d * (1real / d) == 1real,
{
    assert(d * (1real / d) == 1real) by (nonlinear_arith)
        requires
            d != 0real,
    ;
}

pub(crate) proof fn lemma_only_inverse(d: real, u: real)
    requires
        d * u == 1real,
    ensures
        d != 0real,
        u == 1real / d,
{
    assert(d != 0real) by (nonlinear_arith)
        requires
            d * u == 1real,
    ;
    assert(u == 1real / d) by (nonlinear_arith)
        requires
            d * u == 1real,
            d != 0real,
    ;
}

pub(crate) proof fn lemma_times(u: real, v: real, s: real, t: real)
    requires
        u == s,
        v == t,
    ensures
        u * v == s * t,
{
}

pub(crate) proof fn lemma_swap(d: real, e: real, i: real, j: real)
    ensures
        (d * e) * (i * j) == (d * i) * (e * j),
{
    assert((d * e) * (i * j) == (d * i) * (e * j)) by (nonlinear_arith);
}

pub(crate) proof fn lemma_over_two(t: real, d: real, e: real)
    requires
        d != 0real,
        e != 0real,
    ensures
        1real / (d * e) == (1real / d) * (1real / e),
        t / (d * e) == t * ((1real / d) * (1real / e)),
{
    let i = 1real / d;
    let j = 1real / e;
    lemma_inverse(d);
    lemma_inverse(e);
    lemma_times(d * i, e * j, 1real, 1real);
    lemma_swap(d, e, i, j);
    lemma_only_inverse(d * e, i * j);
    lemma_over(t, d * e);
}

pub(crate) proof fn lemma_negative_inverse(d: real)
    requires
        d != 0real,
    ensures
        1real / (-d) == -(1real / d),
{
    let i = 1real / d;
    lemma_inverse(d);
    assert((-d) * (-i) == d * i) by (nonlinear_arith);
    lemma_only_inverse(-d, -i);
}

/// A quotient of positive numbers is positive.
pub(crate) proof fn lemma_positive_quotient(n: real, d: real)
    requires
        0real < n,
        0real < d,
    ensures
        0real < n / d,
{
    lemma_quotient_sign(n, d);
}

/// A quotient by a positive number has the sign of its numerator.
pub(crate) proof fn lemma_quotient_sign(n: real, d: real)
    requires
        0real <= n,
        0real < d,
    ensures
        0real <= n / d,
        0real < n ==> 0real < n / d,
{
    let i = 1real / d;
    lemma_inverse(d);
    lemma_over(n, d);
    assert(0real < i) by (nonlinear_arith)
        requires
            d * i == 1real,
            0real < d,
    ;
    assert(0real <= n * i && (0real < n ==> 0real < n * i)) by (nonlinear_arith)
        requires
            0real < i,
            0real <= n,
    ;
}

/// A product of numbers that are not zero is not zero.
pub(crate) proof fn lemma_nonzero(d: real, e: real)
    requires
        d != 0real,
        e != 0real,
    ensures
        d * e != 0real,
{
    assert(d * e != 0real) by (nonlinear_arith)
        requires
            d != 0real,
            e != 0real,
    ;
}

/// Anything times nothing is nothing.
pub(crate) proof fn lemma_vanishes(weight: real, nothing: real)
    requires
        nothing == 0real,
    ensures
        weight * nothing == 0real,
{
    assert(weight * nothing == 0real) by (nonlinear_arith)
        requires
            nothing == 0real,
    ;
}

/// The inverse of a quotient.
pub(crate) proof fn lemma_inverse_of_quotient(n: real, d: real)
    requires
        n != 0real,
        d != 0real,
    ensures
        1real / (n / d) == d * (1real / n),
        n / d != 0real,
{
    let (i, j) = (1real / n, 1real / d);
    lemma_inverse(n);
    lemma_inverse(d);
    lemma_over(n, d);
    lemma_times(n * i, d * j, 1real, 1real);
    assert((n * j) * (d * i) == (n * i) * (d * j)) by (nonlinear_arith);
    lemma_times(n / d, d * i, n * j, d * i);
    lemma_only_inverse(n / d, d * i);
}

/// A product of quotients.
pub(crate) proof fn lemma_quotients(p: real, q: real, r: real, s: real)
    requires
        q != 0real,
        s != 0real,
    ensures
        (p / q) * (r / s) == (p * r) / (q * s),
{
    let (i, j) = (1real / q, 1real / s);
    lemma_over(p, q);
    lemma_over(r, s);
    lemma_over_two(p * r, q, s);
    lemma_swap(p, i, r, j);
}

/// Dividing a product by one of its factors.
pub(crate) proof fn lemma_cancel(n: real, d: real)
    requires
        d != 0real,
    ensures
        n * d / d == n,
        n / d * d == n,
{
    let i = 1real / d;
    lemma_inverse(d);
    lemma_over(n * d, d);
    lemma_over(n, d);
    lemma_times(n, d * i, n, 1real);
    assert(n * d * i == n * (d * i) && n * i * d == n * (d * i)) by (nonlinear_arith);
}

/// Moving a sign through a product or a quotient.
pub(crate) proof fn lemma_signs(n: real, d: real)
    ensures
        n * (-d) == -(n * d),
        (-n) * d == -(n * d),
        d != 0real ==> (-n) / d == -(n / d),
{
    assert(n * (-d) == -(n * d) && (-n) * d == -(n * d)) by (nonlinear_arith);
    if d != 0real {
        let i = 1real / d;
        lemma_over(-n, d);
        lemma_over(n, d);
        assert((-n) * i == -(n * i)) by (nonlinear_arith);
    }
}

/// The slopes of a function of `z = x / a`, whose derivative is `n / z`.
pub(crate) proof fn lemma_ratio_slopes(n: real, x: real, a: real)
    requires
        x != 0real,
        a != 0real,
    ensures
        n / (x / a) * (1real / a) == n / x,
        n / (x / a) * (1real / a * (-(x / a))) == -(n / a),
{
    let (z, i, j) = (x / a, 1real / x, 1real / a);
    lemma_inverse_of_quotient(x, a);
    lemma_inverse(a);
    lemma_over(n, z);
    lemma_over(n, x);
    lemma_over(n, a);
    lemma_times(n, 1real / z, n, a * i);
    lemma_times(n / z, j, n * (a * i), j);
    lemma_times(n * i, a * j, n * i, 1real);
    assert(n * (a * i) * j == n * i * (a * j)) by (nonlinear_arith);
    lemma_cancel(n, z);
    let q = n / z;
    assert(q * (j * (-z)) == -(q * z * j)) by (nonlinear_arith);
    lemma_times(q * z, j, n, j);
}

} // verus!
