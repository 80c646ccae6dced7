//! What fake quantization computes, element by element over the real numbers.

use vstd::prelude::*;

use super::flow;
use super::flow::World;
use super::quant;
use super::quant::{Granularity, QuantScheme, Quantizer};
use crate::autograd::graph::Tape;
use crate::autograd::ops;
use crate::autograd::var;
use crate::autograd::var::Traced;
use crate::meaning;
use crate::meaning::Functions;
use crate::tensor;
use crate::tensor::Value;
use crate::term::{Binary, Scalar, Term, Unary};

verus! {

/// What a value is at one place.
pub open spec fn at(f: Functions, leaf: spec_fn(Term) -> real, v: Value) -> real {
    meaning::reading(f, leaf, v.term)
}

/// A number brought between two bounds.
pub open spec fn clamped(x: real, lo: real, hi: real) -> real {
    if x < lo {
        lo
    } else if x > hi {
        hi
    } else {
        x
    }
}

/// The code of a number on a grid: its distance from the zero point in steps, rounded, and
/// brought into the range of codes.
pub open spec fn code(f: Functions, x: real, scale: real, zero: real, lo: i64, hi: i64) -> real {
    clamped((f.round)(x * (1real / scale) + zero), lo as int as real, hi as int as real)
}

/// The level of a grid that a number is snapped to.
pub open spec fn snapped(f: Functions, x: real, scale: real, zero: real, lo: i64, hi: i64) -> real {
    (code(f, x, scale, zero, lo, hi) - zero) * scale
}

/// Quantizing snaps every element to the level of its code: the code less the zero point,
/// times the scale.
#[verifier::spinoff_prover]
pub proof fn law_quantizing_snaps_to_the_grid(
    f: Functions,
    leaf: spec_fn(Term) -> real,
    t: Tape,
    x: Traced,
    scale: Value,
    zero: Value,
    lo: i64,
    hi: i64,
)
    requires
        at(f, leaf, scale) != 0real,
    ensures
        quant::snapped_op(t, x, scale, zero, lo, hi) matches Ok(y) ==> at(f, leaf, y.1.value)
            == snapped(f, at(f, leaf, x.value), at(f, leaf, scale), at(f, leaf, zero), lo, hi),
        quant::channels_op(t, x, scale, zero, lo, hi) matches Ok(y) ==> at(f, leaf, y.1.value)
            == snapped(f, at(f, leaf, x.value), at(f, leaf, scale), at(f, leaf, zero), lo, hi),
{
    broadcast use var::lemma_record_value;

    reveal_with_fuel(meaning::reading, 8);
    crate::distributions::algebra::lemma_over(at(f, leaf, x.value), at(f, leaf, scale));
}

/// The larger of two numbers.
pub open spec fn larger(x: real, y: real) -> real {
    if x > y {
        x
    } else {
        y
    }
}

pub open spec fn magnitude(x: real) -> real {
    if x < 0real {
        -x
    } else {
        x
    }
}

/// The scale of a range: a symmetric one spreads the larger magnitude over the positive codes,
/// an affine one the width of the range over all of them; neither is below its floor.
#[verifier::spinoff_prover]
pub proof fn law_a_scale_spreads_the_range(
    f: Functions,
    leaf: spec_fn(Term) -> real,
    lo: Value,
    hi: Value,
    bounds: (int, int),
    scheme: QuantScheme,
)
    requires
        i64::MIN <= bounds.0 <= i64::MAX,
        i64::MIN <= bounds.1 <= i64::MAX,
        i64::MIN <= bounds.1 - bounds.0 <= i64::MAX,
    ensures
        ({
            let (scale, zero) = quant::solved(lo, hi, bounds, scheme);
            let (l, h) = (at(f, leaf, lo), at(f, leaf, hi));
            let floor = meaning::scalar(f, Scalar::Bits(quant::SCALE_FLOOR));
            match scheme {
                QuantScheme::Symmetric => at(f, leaf, scale) == larger(
                    larger(magnitude(l), magnitude(h)),
                    floor,
                ) / (bounds.1 as real) && at(f, leaf, zero) == 0real,
                QuantScheme::Affine => at(f, leaf, scale) == larger(
                    (h - l) / ((bounds.1 - bounds.0) as real),
                    floor,
                ) && at(f, leaf, zero) == bounds.0 as real - l / at(f, leaf, scale),
            }
        }),
{
    reveal_with_fuel(meaning::reading, 6);
}

/// A quantizer that follows a range snaps to the grid of that range, and remembers the range.
#[verifier::spinoff_prover]
pub proof fn law_a_quantizer_snaps_to_its_range(
    f: Functions,
    leaf: spec_fn(Term) -> real,
    w: World,
    q: Quantizer,
    x: Traced,
)
    requires
        quant::quantize_op(w, q, x) is Ok,
        w.store.gauges.contains_key(q.id),
        w.store.gauges[q.id].enabled,
        q.config.granularity is PerTensor,
        !q.config.dynamic,
    ensures
        ({
            let y = quant::quantize_op(w, q, x)->Ok_0;
            let b = quant::bounds_of(q.config.bits, q.config.scheme);
            &&& y.0.store.gauges[q.id].range is Some
            &&& ({
                let (lo, hi) = y.0.store.gauges[q.id].range->0;
                let (scale, zero) = quant::solved(lo, hi, b, q.config.scheme);
                at(f, leaf, scale) != 0real ==> at(f, leaf, y.1.value) == snapped(
                    f,
                    at(f, leaf, x.value),
                    at(f, leaf, scale),
                    at(f, leaf, zero),
                    b.0 as i64,
                    b.1 as i64,
                )
            })
        }),
{
    let b = quant::bounds_of(q.config.bits, q.config.scheme);
    let (lo, hi) = quant::observed(w.store.gauges[q.id], q.config.momentum, x.value)->Ok_0;
    let (scale, zero) = quant::solved(lo, hi, b, q.config.scheme);
    if at(f, leaf, scale) != 0real {
        law_quantizing_snaps_to_the_grid(
            f,
            leaf,
            w.tape,
            x,
            scale,
            zero,
            b.0 as i64,
            b.1 as i64,
        );
    }
}

/// Quantizing what is already on the grid changes nothing: a level whose code rounds to itself
/// and lies in range is kept.
#[verifier::spinoff_prover]
pub proof fn law_levels_are_kept(f: Functions, c: real, scale: real, zero: real, lo: i64, hi: i64)
    requires
        scale != 0real,
        (f.round)(c) == c,
        lo as int as real <= c <= hi as int as real,
    ensures
        snapped(f, (c - zero) * scale, scale, zero, lo, hi) == (c - zero) * scale,
{
    let d = c - zero;
    let i = 1real / scale;
    crate::distributions::algebra::lemma_inverse(scale);
    assert((d * scale) * i == d * (scale * i)) by (nonlinear_arith);
    crate::distributions::algebra::lemma_times(d, scale * i, d, 1real);
    assert(d * 1real == d) by (nonlinear_arith);
}

} // verus!
