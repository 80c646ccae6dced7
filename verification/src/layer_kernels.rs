//! What the kernels of the layers write, over the real numbers.

use vstd::prelude::*;

use crate::buffer::Buffer;
use crate::distributions::launches;
use crate::distributions::rows;
use crate::meaning;
use crate::meaning::{Functions, Model};
use crate::shape;
use crate::term::{Fused, Scalar};

verus! {

// -- normalisation -------------------------------------------------------------------------

/// The entries of two rows, multiplied.
pub open spec fn products(a: Seq<real>, b: Seq<real>) -> Seq<real> {
    Seq::new(a.len(), |j: int| a[j] * b[j])
}

/// The sum of the products of two rows.
pub open spec fn dot(a: Seq<real>, b: Seq<real>) -> real {
    rows::sum(products(a, b), a.len())
}

/// The mean square of a row.
pub open spec fn mean_square(x: Seq<real>) -> real {
    dot(x, x) / (x.len() as int as real)
}

/// The reciprocal root mean square of a row.
pub open spec fn rms_scale(f: Functions, eps: Scalar, x: Seq<real>) -> real {
    1real / (f.sqrt)(mean_square(x) + meaning::scalar(f, eps))
}

/// A gain that may be missing.
pub open spec fn gain_at(args: Seq<Buffer>, given: bool, k: int, j: int) -> real {
    if given {
        (args[k].at)(j)
    } else {
        1real
    }
}

/// What the adjoint of a normalisation gives entry `j` of a row.
pub open spec fn rms_slope(g: Seq<real>, x: Seq<real>, r: real, j: int) -> real {
    r * g[j] - (r * r * r / (x.len() as int as real)) * x[j] * dot(g, x)
}

/// A row of a gradient times the gain.
pub open spec fn weighted_row(g: Buffer, args: Seq<Buffer>, given: bool, at: int, r: int, k: int) -> Seq<real> {
    Seq::new(k as nat, |j: int| (g.at)(r * k + j) * gain_at(args, given, at, j))
}

// -- rotation ------------------------------------------------------------------------------

/// The two tables of a rotation; from an angle, those of a rotation by minus the angle.
pub open spec fn turn_cos(f: Functions, by_angle: bool, c: Buffer, i: int) -> real {
    if by_angle {
        (f.cos)((c.at)(i))
    } else {
        (c.at)(i)
    }
}

pub open spec fn turn_sin(f: Functions, by_angle: bool, s: Buffer, i: int) -> real {
    if by_angle {
        -(f.sin)((s.at)(i))
    } else {
        (s.at)(i)
    }
}

/// The angle of pair `j` at position `p`: the position over the base to the power of
/// `2 j / dim`.
pub open spec fn rotary_angle(f: Functions, base: u32, dim: int, p: int, j: int) -> real {
    (p as real) * (1real / (f.pow)((f.constant)(Scalar::Bits(base)), 2real * (j as real) / (
    dim as real)))
}

// -- convolution ---------------------------------------------------------------------------

/// What lies at position `t` of a sequence that a history precedes; zero before both.
pub open spec fn heard(x: Buffer, h: Option<Buffer>, taps: int, b: int, t: int, c: int) -> real {
    let (n, ch) = (x.dims[1] as int, x.dims[2] as int);
    if t >= 0 {
        (x.at)((b * n + t) * ch + c)
    } else {
        match h {
            Some(v) => if t + taps - 1 >= 0 {
                (v.at)((b * (taps - 1) + (t + taps - 1)) * ch + c)
            } else {
                0real
            },
            None => 0real,
        }
    }
}

/// What a convolution computes at a position: tap `k` reaches `taps - 1 - k` back.
pub open spec fn convolved(x: Buffer, h: Option<Buffer>, w: Buffer, b: int, t: int, c: int) -> real {
    let (taps, ch) = (w.dims[0] as int, x.dims[2] as int);
    let s = Seq::new(
        taps as nat,
        |k: int| (w.at)(k * ch + c) * heard(x, h, taps, b, t - (taps - 1 - k), c),
    );
    rows::sum(s, s.len())
}

/// The gradients of the results that read position `t`, each times its tap.
pub open spec fn convolved_back(g: Buffer, w: Buffer, b: int, t: int, c: int) -> real {
    let (taps, n, ch) = (w.dims[0] as int, g.dims[1] as int, g.dims[2] as int);
    let s = Seq::new(
        taps as nat,
        |k: int|
            {
                let u = t + (taps - 1 - k);
                if 0 <= u < n {
                    (w.at)(k * ch + c) * (g.at)((b * n + u) * ch + c)
                } else {
                    0real
                }
            },
    );
    rows::sum(s, s.len())
}

/// The sum over all sequences and positions of the gradient times what the tap read.
pub open spec fn tap_slope(g: Buffer, x: Buffer, h: Option<Buffer>, taps: int, k: int, c: int) -> real {
    let (n, ch) = (g.dims[1] as int, g.dims[2] as int);
    let s = Seq::new(
        (g.dims[0] * g.dims[1]) as nat,
        |r: int| (g.at)(r * ch + c) * heard(x, h, taps, r / n, r % n - (taps - 1 - k), c),
    );
    rows::sum(s, s.len())
}

/// The sum of a channel of a gradient.
pub open spec fn channel_sum(g: Buffer, c: int) -> real {
    let ch = g.dims[2] as int;
    let s = Seq::new((g.dims[0] * g.dims[1]) as nat, |r: int| (g.at)(r * ch + c));
    rows::sum(s, s.len())
}

/// A history that may be among the operands.
pub open spec fn history(args: Seq<Buffer>, given: bool, k: int) -> Option<Buffer> {
    if given {
        Some(args[k])
    } else {
        None
    }
}

pub open spec fn conv_written(op: Fused, out: Seq<usize>, a: Seq<Buffer>) -> Option<Buffer> {
    match op {
        Fused::Conv(hh, hb) => {
            let (x, h) = (a[0], history(a, hh, 1));
            let at = if hh {
                2int
            } else {
                1int
            };
            let (n, ch) = (x.dims[1] as int, x.dims[2] as int);
            Some(
                Buffer {
                    dims: out,
                    at: |i: int|
                        convolved(x, h, a[at], i / (n * ch), (i / ch) % n, i % ch) + if hb {
                            (a[at + 1].at)(i % ch)
                        } else {
                            0real
                        },
                },
            )
        },
        Fused::ConvDx(hh, hb) => {
            let g = a[0];
            let w = a[if hh {
                3int
            } else {
                2int
            }];
            let (n, ch) = (g.dims[1] as int, g.dims[2] as int);
            Some(
                Buffer {
                    dims: out,
                    at: |i: int| convolved_back(g, w, i / (n * ch), (i / ch) % n, i % ch),
                },
            )
        },
        Fused::ConvDhistory(hh, hb) => {
            let (g, w) = (a[0], a[3]);
            let (m, ch) = (w.dims[0] - 1, g.dims[2] as int);
            Some(
                Buffer {
                    dims: out,
                    at: |i: int| convolved_back(g, w, i / (m * ch), (i / ch) % m - m, i % ch),
                },
            )
        },
        Fused::ConvDweight(hh, hb) => {
            let (g, x, h) = (a[0], a[1], history(a, hh, 2));
            let ch = g.dims[2] as int;
            Some(
                Buffer {
                    dims: out,
                    at: |i: int| tap_slope(g, x, h, out[0] as int, i / ch, i % ch),
                },
            )
        },
        Fused::ConvDbias(hh, hb) => Some(
            Buffer { dims: out, at: |i: int| channel_sum(a[0], i) },
        ),
        Fused::ConvHistory(hh) => {
            let (x, h) = (a[0], history(a, hh, 1));
            let (n, m, ch) = (x.dims[1] as int, out[1] as int, x.dims[2] as int);
            Some(
                Buffer {
                    dims: out,
                    at: |i: int|
                        heard(x, h, m + 1, i / (m * ch), n - m + (i / ch) % m, i % ch),
                },
            )
        },
        Fused::ConvHistoryDx(hh) => {
            let g = a[0];
            let (n, m, ch) = (out[1] as int, g.dims[1] as int, g.dims[2] as int);
            Some(
                Buffer {
                    dims: out,
                    at: |i: int|
                        {
                            let q = (i / ch) % n - (n - m);
                            if q >= 0 {
                                (g.at)(((i / (n * ch)) * m + q) * ch + i % ch)
                            } else {
                                0real
                            }
                        },
                },
            )
        },
        Fused::ConvHistoryDhistory(_) => {
            let (g, x) = (a[0], a[1]);
            let (n, m, ch) = (x.dims[1] as int, g.dims[1] as int, g.dims[2] as int);
            Some(
                Buffer {
                    dims: out,
                    at: |i: int|
                        {
                            let q = (i / ch) % m - n;
                            if q >= 0 {
                                (g.at)(((i / (m * ch)) * m + q) * ch + i % ch)
                            } else {
                                0real
                            }
                        },
                },
            )
        },
        _ => None,
    }
}

// -- all of them ---------------------------------------------------------------------------

/// What stands for attention that is not allowed.
pub open spec fn forbidden() -> real {
    -1000000000real
}

/// What a kernel of the layers writes into a result of the given extents; nothing for those
/// of the state-space scan.
#[verifier::opaque]
pub open spec fn written(m: Model, op: Fused, out: Seq<usize>, a: Seq<Buffer>) -> Option<Buffer> {
    match op {
        Fused::RmsNorm(eps) => {
            let k = a[0].dims.last() as int;
            Some(
                Buffer {
                    dims: out,
                    at: |i: int|
                        (a[0].at)(i) * rms_scale(m.f, eps, launches::row_at(a[0], i / k, k))
                            * gain_at(a, a.len() == 2, 1, i % k),
                },
            )
        },
        Fused::RmsScale(eps) => {
            let k = a[0].dims.last() as int;
            Some(
                Buffer {
                    dims: out,
                    at: |r: int| rms_scale(m.f, eps, launches::row_at(a[0], r, k)),
                },
            )
        },
        Fused::RmsNormDx => {
            let k = a[1].dims.last() as int;
            let given = a.len() == 4;
            let s = a[a.len() - 1];
            Some(
                Buffer {
                    dims: out,
                    at: |i: int|
                        rms_slope(
                            weighted_row(a[0], a, given, 2, i / k, k),
                            launches::row_at(a[1], i / k, k),
                            (s.at)(i / k),
                            i % k,
                        ),
                },
            )
        },
        Fused::RmsNormDw => {
            let k = a[1].dims.last() as int;
            let n = shape::product(a[1].dims.drop_last());
            Some(
                Buffer {
                    dims: out,
                    at: |j: int|
                        rows::sum(
                            Seq::new(
                                n,
                                |r: int| (a[0].at)(r * k + j) * (a[1].at)(r * k + j) * (a[2].at)(r),
                            ),
                            n,
                        ),
                },
            )
        },
        Fused::Rotate(by) => {
            let h = (a[0].dims.last() / 2) as int;
            Some(
                Buffer {
                    dims: out,
                    at: |i: int|
                        {
                            let (r, j) = (i / (2 * h), i % (2 * h));
                            let p = r * h + j % h;
                            let (c, s) = (turn_cos(m.f, by, a[1], p), turn_sin(m.f, by, a[2], p));
                            let (lo, hi) = (
                                (a[0].at)(r * (2 * h) + j % h),
                                (a[0].at)(r * (2 * h) + h + j % h),
                            );
                            if j < h {
                                lo * c - hi * s
                            } else {
                                lo * s + hi * c
                            }
                        },
                },
            )
        },
        Fused::RotateDx(by) => {
            let h = (a[1].dims.last() / 2) as int;
            Some(
                Buffer {
                    dims: out,
                    at: |i: int|
                        {
                            let (r, j) = (i / (2 * h), i % (2 * h));
                            let p = r * h + j % h;
                            let (c, s) = (turn_cos(m.f, by, a[2], p), turn_sin(m.f, by, a[3], p));
                            let (lo, hi) = (
                                (a[0].at)(r * (2 * h) + j % h),
                                (a[0].at)(r * (2 * h) + h + j % h),
                            );
                            if j < h {
                                lo * c + hi * s
                            } else {
                                hi * c - lo * s
                            }
                        },
                },
            )
        },
        Fused::RotateDcos(by) => {
            let h = (a[1].dims.last() / 2) as int;
            Some(
                Buffer {
                    dims: out,
                    at: |i: int|
                        {
                            let (r, j) = (i / h, i % h);
                            let (c, s) = (turn_cos(m.f, by, a[2], i), turn_sin(m.f, by, a[3], i));
                            let (g1, g2) = (
                                (a[0].at)(r * (2 * h) + j),
                                (a[0].at)(r * (2 * h) + h + j),
                            );
                            let (x1, x2) = (
                                (a[1].at)(r * (2 * h) + j),
                                (a[1].at)(r * (2 * h) + h + j),
                            );
                            if by {
                                g1 * (x1 * s + x2 * c) - g2 * (x1 * c - x2 * s)
                            } else {
                                g1 * x1 + g2 * x2
                            }
                        },
                },
            )
        },
        Fused::RotateDsin(by) => {
            let h = (a[1].dims.last() / 2) as int;
            Some(
                Buffer {
                    dims: out,
                    at: |i: int|
                        {
                            let (r, j) = (i / h, i % h);
                            (a[0].at)(r * (2 * h) + h + j) * (a[1].at)(r * (2 * h) + j)
                                - (a[0].at)(r * (2 * h) + j) * (a[1].at)(r * (2 * h) + h + j)
                        },
                },
            )
        },
        Fused::RotaryAngles(base, dim) => {
            let h = out[1] as int;
            Some(
                Buffer {
                    dims: out,
                    at: |i: int| rotary_angle(m.f, base, dim as int, i / h, i % h),
                },
            )
        },
        Fused::CausalMask(past) => {
            let (q, k) = (out[2] as int, out[3] as int);
            Some(
                Buffer {
                    dims: out,
                    at: |i: int|
                        if i % k <= past + (i / k) % q {
                            0real
                        } else {
                            forbidden()
                        },
                },
            )
        },
        Fused::SsmAngle(prev) => {
            let n = a[1].dims.last() as int;
            Some(
                Buffer {
                    dims: out,
                    at: |i: int|
                        (m.f.wrap)(
                            (if prev {
                                (a[2].at)(i)
                            } else {
                                0real
                            }) + (a[0].at)(i / n) * (a[1].at)(i),
                            2real * (m.f.constant)(Scalar::Pi),
                        ),
                },
            )
        },
        // The multiple that wrapping takes away is locally constant.
        Fused::SsmAngleDdt(_) => {
            let n = a[2].dims.last() as int;
            Some(
                Buffer {
                    dims: out,
                    at: |r: int|
                        dot(launches::row_at(a[0], r, n), launches::row_at(a[2], r, n)),
                },
            )
        },
        Fused::SsmAngleDtheta(_) => {
            let n = a[2].dims.last() as int;
            Some(Buffer { dims: out, at: |i: int| (a[0].at)(i) * (a[1].at)(i / n) })
        },
        Fused::SsmAngleDprev(_) => Some(Buffer { dims: out, at: |i: int| (a[0].at)(i) }),
        Fused::SsmState => {
            let n = a[3].dims[1] as int;
            let inner = shape::product(a[0].dims) as int / n;
            Some(
                Buffer {
                    dims: out,
                    at: |i: int|
                        (a[0].at)(i) * (a[3].at)(i / inner) + (a[1].at)(i) * (a[3].at)(
                            n + i / inner,
                        ) + (a[2].at)(i) * (a[3].at)(2 * n + i / inner),
                },
            )
        },
        Fused::SsmStateDx(k) => {
            let n = a[4].dims[1] as int;
            let inner = shape::product(a[0].dims) as int / n;
            Some(
                Buffer {
                    dims: out,
                    at: |i: int| (a[0].at)(i) * (a[4].at)(k * n + i / inner),
                },
            )
        },
        Fused::SsmStateDscales => {
            let n = a[4].dims[1] as int;
            let inner = shape::product(a[0].dims) as int / n;
            Some(
                Buffer {
                    dims: out,
                    at: |i: int|
                        dot(
                            launches::row_at(a[0], i % n, inner),
                            launches::row_at(a[1 + i / n], i % n, inner),
                        ),
                },
            )
        },
        _ => conv_written(op, out, a),
    }
}

} // verus!
