//! Single-precision numbers, by their bit patterns.
//!
//! A configuration carries its real-valued settings as bit patterns. What has to be
//! decided about them - whether a temperature is negative, whether a rate lies in a
//! range - is decided here, exactly, on the patterns.

use vstd::arithmetic::power2::{lemma_pow2_pos, lemma_pow2_strictly_increases, lemma_pow2_unfold, pow2};
use vstd::prelude::*;

verus! {

pub const ZERO: u32 = 0;

pub const ONE: u32 = 0x3f80_0000;

pub const INFINITY: u32 = 0x7f80_0000;

/// The pattern without its sign.
pub open spec fn magnitude(b: u32) -> int {
    if b >= 0x8000_0000 {
        b - 0x8000_0000
    } else {
        b as int
    }
}

pub open spec fn is_nan(b: u32) -> bool {
    magnitude(b) > 0x7f80_0000
}

/// An integer that orders the patterns as the numbers they stand for are ordered.
pub open spec fn rank(b: u32) -> int {
    if b >= 0x8000_0000 {
        -magnitude(b)
    } else {
        magnitude(b)
    }
}

/// `a < b` as numbers; a pattern that is not a number is unordered.
pub open spec fn below(a: u32, b: u32) -> bool {
    !is_nan(a) && !is_nan(b) && rank(a) < rank(b)
}

/// `a <= b` as numbers.
pub open spec fn at_most(a: u32, b: u32) -> bool {
    !is_nan(a) && !is_nan(b) && rank(a) <= rank(b)
}

/// `a == b` as numbers: the two zeros are equal.
pub open spec fn equals(a: u32, b: u32) -> bool {
    !is_nan(a) && !is_nan(b) && rank(a) == rank(b)
}

fn rank_of(b: u32) -> (r: i64)
    ensures
        r == rank(b),
{
    if b >= 0x8000_0000 {
        0 - ((b - 0x8000_0000) as i64)
    } else {
        b as i64
    }
}

pub fn nan(b: u32) -> (r: bool)
    ensures
        r == is_nan(b),
{
    let m: u32 = if b >= 0x8000_0000 {
        b - 0x8000_0000
    } else {
        b
    };
    m > 0x7f80_0000
}

pub fn lt(a: u32, b: u32) -> (r: bool)
    ensures
        r == below(a, b),
{
    !nan(a) && !nan(b) && rank_of(a) < rank_of(b)
}

pub fn le(a: u32, b: u32) -> (r: bool)
    ensures
        r == at_most(a, b),
{
    !nan(a) && !nan(b) && rank_of(a) <= rank_of(b)
}

pub fn eq(a: u32, b: u32) -> (r: bool)
    ensures
        r == equals(a, b),
{
    !nan(a) && !nan(b) && rank_of(a) == rank_of(b)
}

/// What a finite pattern stands for, times two to the hundred and forty-nine: an
/// eight-bit exponent over twenty-three bits of fraction, with a hidden leading one
/// unless the exponent is zero.
pub open spec fn scaled(b: u32) -> int {
    let m = magnitude(b);
    let e = m / 0x80_0000;
    let f = m % 0x80_0000;
    let v = if e == 0 {
        f
    } else {
        (f + 0x80_0000) * pow2((e - 1) as nat)
    };
    if b >= 0x8000_0000 {
        -v
    } else {
        v
    }
}

spec fn unsigned(m: int) -> int {
    if m / 0x80_0000 == 0 {
        m % 0x80_0000
    } else {
        (m % 0x80_0000 + 0x80_0000) * pow2((m / 0x80_0000 - 1) as nat)
    }
}

proof fn lemma_unsigned_increases(a: int, b: int)
    requires
        0 <= a < b,
    ensures
        0 <= unsigned(a) < unsigned(b),
{
    let (ea, fa) = (a / 0x80_0000, a % 0x80_0000);
    let (eb, fb) = (b / 0x80_0000, b % 0x80_0000);
    if ea > 0 {
        lemma_pow2_pos((ea - 1) as nat);
        let p = pow2((ea - 1) as nat) as int;
        assert((fa + 0x80_0000) * p >= 0) by (nonlinear_arith)
            requires
                fa >= 0,
                p > 0,
        ;
        if ea == eb {
            assert((fa + 0x80_0000) * p < (fb + 0x80_0000) * p) by (nonlinear_arith)
                requires
                    fa < fb,
                    p > 0,
            ;
        } else {
            let q = pow2((eb - 1) as nat) as int;
            lemma_pow2_unfold(ea as nat);
            if ea < eb - 1 {
                lemma_pow2_strictly_increases(ea as nat, (eb - 1) as nat);
            }
            assert(2 * p <= q);
            assert((fa + 0x80_0000) * p < (fb + 0x80_0000) * q) by (nonlinear_arith)
                requires
                    0 <= fa < 0x80_0000,
                    0 <= fb,
                    p > 0,
                    2 * p <= q,
            ;
        }
    } else if eb > 0 {
        lemma_pow2_pos((eb - 1) as nat);
        let q = pow2((eb - 1) as nat) as int;
        assert(fa < (fb + 0x80_0000) * q) by (nonlinear_arith)
            requires
                0 <= fa < 0x80_0000,
                0 <= fb,
                q > 0,
        ;
    }
}

/// The order on patterns is the order of the numbers they stand for, wherever both
/// are finite.
pub proof fn law_order_is_numeric(a: u32, b: u32)
    requires
        magnitude(a) < 0x7f80_0000,
        magnitude(b) < 0x7f80_0000,
    ensures
        below(a, b) <==> scaled(a) < scaled(b),
        equals(a, b) <==> scaled(a) == scaled(b),
{
    let (m, n) = (magnitude(a), magnitude(b));
    assert(scaled(a) == if a >= 0x8000_0000 { -unsigned(m) } else { unsigned(m) });
    assert(scaled(b) == if b >= 0x8000_0000 { -unsigned(n) } else { unsigned(n) });
    assert(unsigned(0) == 0);
    if m < n {
        lemma_unsigned_increases(m, n);
    } else if n < m {
        lemma_unsigned_increases(n, m);
    }
    if m > 0 {
        lemma_unsigned_increases(0, m);
    }
    if n > 0 {
        lemma_unsigned_increases(0, n);
    }
}

} // verus!
