//! Backward rules: how a gradient flowing into a value reaches its operands.

use vstd::prelude::*;

use super::reduce;
use super::reduce::{reduce_grad_to, weight_grad};
use crate::error::{Error, Fault};
use crate::shape::Shape;
use crate::tensor;
use crate::tensor::{IdTensor, IdValue, Tensor, Value};
use crate::term::{Binary, Extras, Fused, Product, Reduce, Scalar, Scan, Special, Unary};

verus! {

/// A backward rule over tensors `T`, shapes `S` and ids `I`. The flags of a binary
/// rule say which operand is on the tape and wants a gradient.
pub enum RuleOf<T, S, I> {
    /// A leaf has no operands.
    Leaf,
    /// The gradient passes unchanged.
    Identity,
    Negate,
    /// The gradient is multiplied by a scalar.
    Scale(Scalar),
    /// An elementwise function, with the input or output its derivative is read from.
    Pointwise(Unary, T),
    Add(bool, bool, S, S),
    Sub(bool, bool, S, S),
    Mul(bool, bool, T, T),
    Div(bool, bool, T, T),
    Maximum(T, T),
    MatMul(bool, bool, T, T),
    MatMulNt(bool, bool, T, T),
    /// A sum: the gradient spreads over the summed shape.
    ExpandTo(S),
    /// A mean over an axis of the given extent.
    MeanDim(S, usize),
    /// A maximum over an axis: input, then maxima.
    MaxDim(usize, T, T),
    Reshape(S),
    /// A permutation, with its inverse.
    Permute(S),
    /// A broadcast: the gradient is summed back down.
    ReduceTo(S),
    Flip(usize),
    /// A slice of a shape along an axis from a start.
    Slice(S, usize, usize),
    /// The source of a split: full shape, sizes and axis.
    SplitSink(S, S, usize),
    /// Piece `index` of `count` pieces.
    SplitPiece(usize, usize),
    /// Values laid end to end along an axis, with their extents.
    Cat(usize, S),
    TakeAlongLast(I, usize),
    /// Rows of a table: ids, height and width.
    Embedding(I, usize, usize),
    CumSum(usize),
    CumSumExclusive(usize),
    /// Input, optional gain, scale.
    RmsNorm(T, Option<T>, T),
    /// Input, cosines, sines.
    Rotate(T, T, T),
    /// Input, angle.
    RotateByAngle(T, T),
    /// Input, optional history, weight, optional bias.
    Conv(T, Option<T>, T, Option<T>),
    /// Input, optional history, weight.
    ConvHistory(T, Option<T>, T),
    /// Step sizes, angular speeds, and whether a previous angle was given.
    SsmAngle(T, T, bool),
    /// Three states and their scales.
    SsmState(T, T, T, T),
    /// Log decay, step sizes, mixing coefficients.
    SsmCoefficients(T, T, T),
    SsdBand(Scalar, T, T, T),
    /// A result of the state-space scan: chunk length, which result, operands.
    SsmScan(u64, u8, ScanOf<T>),
    /// A density or quantile of a scalar family: code, which, wants, value, slots.
    Density(u32, u32, Wants, T, T, T, T),
    /// An entropy of a scalar family: code, wants, slots.
    Entropy(u32, Wants, T, T, T),
    /// A reparameterised draw: code, batch length, seed, wants, slots.
    Draw(u32, u64, u64, Wants, T, T, T),
    /// The log-probability of one class per row: logits, classes.
    RowLogProb(T, I),
    RowEntropy(T),
    /// Flags and operands: value, location, factor.
    MvnLogProb(bool, bool, bool, T, T, T),
    /// Flags and operands: value, concentration.
    DirichletLogProb(bool, bool, T, T),
    DirichletEntropy(T),
}

/// The operands of a state-space scan.
pub struct ScanOf<T> {
    pub x: T,
    pub b: T,
    pub c: T,
    pub dt: T,
    pub a_log: T,
    pub lambda: T,
    pub theta: Option<T>,
    pub skip: Option<T>,
    pub state: Option<T>,
    pub angle: Option<T>,
}

/// Which of the four gradient slots of a scalar family a caller wants.
#[derive(Debug, Clone, Copy, PartialEq, Eq, Structural)]
pub struct Wants {
    /// With respect to the value.
    pub x: bool,
    /// With respect to the first parameter.
    pub a: bool,
    /// With respect to the second parameter.
    pub b: bool,
    /// With respect to the third parameter.
    pub c: bool,
}

/// A rule as the tape stores it.
pub type Rule = RuleOf<Tensor, Shape, IdTensor>;

/// A rule as a mathematical value.
pub type Adjoint = RuleOf<Value, Seq<usize>, IdValue>;

pub open spec fn opt(t: Option<Tensor>) -> Option<Value> {
    match t {
        Some(v) => Some(v@),
        None => None,
    }
}

/// The operands of a scan as mathematical values.
pub open spec fn scan_values(o: ScanOf<Tensor>) -> ScanOf<Value> {
    ScanOf {
        x: o.x@,
        b: o.b@,
        c: o.c@,
        dt: o.dt@,
        a_log: o.a_log@,
        lambda: o.lambda@,
        theta: opt(o.theta),
        skip: opt(o.skip),
        state: opt(o.state),
        angle: opt(o.angle),
    }
}

/// What a stored rule says.
pub open spec fn adjoint(r: Rule) -> Adjoint {
    match r {
        RuleOf::Leaf => RuleOf::Leaf,
        RuleOf::Identity => RuleOf::Identity,
        RuleOf::Negate => RuleOf::Negate,
        RuleOf::Scale(s) => RuleOf::Scale(s),
        RuleOf::Pointwise(op, t) => RuleOf::Pointwise(op, t@),
        RuleOf::Add(l, r, a, b) => RuleOf::Add(l, r, a@, b@),
        RuleOf::Sub(l, r, a, b) => RuleOf::Sub(l, r, a@, b@),
        RuleOf::Mul(l, r, a, b) => RuleOf::Mul(l, r, a@, b@),
        RuleOf::Div(l, r, a, b) => RuleOf::Div(l, r, a@, b@),
        RuleOf::Maximum(a, b) => RuleOf::Maximum(a@, b@),
        RuleOf::MatMul(l, r, a, b) => RuleOf::MatMul(l, r, a@, b@),
        RuleOf::MatMulNt(l, r, a, b) => RuleOf::MatMulNt(l, r, a@, b@),
        RuleOf::ExpandTo(s) => RuleOf::ExpandTo(s@),
        RuleOf::MeanDim(s, n) => RuleOf::MeanDim(s@, n),
        RuleOf::MaxDim(axis, x, m) => RuleOf::MaxDim(axis, x@, m@),
        RuleOf::Reshape(s) => RuleOf::Reshape(s@),
        RuleOf::Permute(s) => RuleOf::Permute(s@),
        RuleOf::ReduceTo(s) => RuleOf::ReduceTo(s@),
        RuleOf::Flip(axis) => RuleOf::Flip(axis),
        RuleOf::Slice(s, axis, start) => RuleOf::Slice(s@, axis, start),
        RuleOf::SplitSink(full, sizes, axis) => RuleOf::SplitSink(full@, sizes@, axis),
        RuleOf::SplitPiece(i, n) => RuleOf::SplitPiece(i, n),
        RuleOf::Cat(axis, sizes) => RuleOf::Cat(axis, sizes@),
        RuleOf::TakeAlongLast(ids, last) => RuleOf::TakeAlongLast(ids@, last),
        RuleOf::Embedding(ids, rows, width) => RuleOf::Embedding(ids@, rows, width),
        RuleOf::CumSum(axis) => RuleOf::CumSum(axis),
        RuleOf::CumSumExclusive(axis) => RuleOf::CumSumExclusive(axis),
        RuleOf::RmsNorm(x, w, s) => RuleOf::RmsNorm(x@, opt(w), s@),
        RuleOf::Rotate(x, c, s) => RuleOf::Rotate(x@, c@, s@),
        RuleOf::RotateByAngle(x, p) => RuleOf::RotateByAngle(x@, p@),
        RuleOf::Conv(x, h, w, b) => RuleOf::Conv(x@, opt(h), w@, opt(b)),
        RuleOf::ConvHistory(x, h, w) => RuleOf::ConvHistory(x@, opt(h), w@),
        RuleOf::SsmAngle(d, t, p) => RuleOf::SsmAngle(d@, t@, p),
        RuleOf::SsmState(a, b, c, s) => RuleOf::SsmState(a@, b@, c@, s@),
        RuleOf::SsmCoefficients(a, d, l) => RuleOf::SsmCoefficients(a@, d@, l@),
        RuleOf::SsdBand(f, a, w, g) => RuleOf::SsdBand(f, a@, w@, g@),
        RuleOf::SsmScan(n, k, o) => RuleOf::SsmScan(n, k, scan_values(o)),
        RuleOf::Density(k, n, w, x, a, b, c) => RuleOf::Density(k, n, w, x@, a@, b@, c@),
        RuleOf::Entropy(k, w, a, b, c) => RuleOf::Entropy(k, w, a@, b@, c@),
        RuleOf::Draw(k, n, s, w, a, b, c) => RuleOf::Draw(k, n, s, w, a@, b@, c@),
        RuleOf::RowLogProb(l, ids) => RuleOf::RowLogProb(l@, ids@),
        RuleOf::RowEntropy(l) => RuleOf::RowEntropy(l@),
        RuleOf::MvnLogProb(v, l, t, x, loc, tril) => RuleOf::MvnLogProb(
            v,
            l,
            t,
            x@,
            loc@,
            tril@,
        ),
        RuleOf::DirichletLogProb(v, c, x, conc) => RuleOf::DirichletLogProb(v, c, x@, conc@),
        RuleOf::DirichletEntropy(conc) => RuleOf::DirichletEntropy(conc@),
    }
}

// -- combining partial results -----------------------------------------------

/// The gradients of a list of operands, `None` where an operand gets none.
pub open spec fn slots(s: Seq<Option<Tensor>>) -> Seq<Option<Value>> {
    s.map_values(|t: Option<Tensor>| opt(t))
}

pub open spec fn onward(
    r: Result<Value, Fault>,
    f: spec_fn(Value) -> Result<Value, Fault>,
) -> Result<Value, Fault> {
    match r {
        Ok(v) => f(v),
        Err(e) => Err(e),
    }
}

/// A single operand's gradient.
pub open spec fn single(r: Result<Value, Fault>) -> Result<Seq<Option<Value>>, Fault> {
    match r {
        Ok(v) => Ok(seq![Some(v)]),
        Err(e) => Err(e),
    }
}

/// A gradient that is computed only where it is wanted.
pub open spec fn wanted(want: bool, r: Result<Value, Fault>) -> Result<Option<Value>, Fault> {
    if want {
        match r {
            Ok(v) => Ok(Some(v)),
            Err(e) => Err(e),
        }
    } else {
        Ok(None)
    }
}

/// Two operands' gradients; the left one's failure comes first.
pub open spec fn pair(
    a: Result<Option<Value>, Fault>,
    b: Result<Option<Value>, Fault>,
) -> Result<Seq<Option<Value>>, Fault> {
    match a {
        Err(e) => Err(e),
        Ok(x) => match b {
            Err(e) => Err(e),
            Ok(y) => Ok(seq![x, y]),
        },
    }
}

// -- what each rule computes ---------------------------------------------------

/// The special function that is the derivative of another, where the table holds it.
pub open spec fn special_slope(f: Special) -> Option<Special> {
    match f {
        Special::Lgamma => Some(Special::Digamma),
        Special::Digamma => Some(Special::Trigamma),
        Special::Erf => Some(Special::ErfGrad),
        Special::Erfinv => Some(Special::ErfinvGrad),
        Special::Ndtr => Some(Special::Ndpdf),
        Special::Ndtri => Some(Special::NdtriGrad),
        Special::LogI0 => Some(Special::BesselRatio),
        _ => None,
    }
}

/// The derivative of an elementwise function, from its saved input or output.
pub open spec fn derivative(op: Unary, t: Value) -> Result<Value, Fault> {
    match op {
        // The output itself.
        Unary::Exp => Ok(t),
        // Twice the output, divided into the gradient.
        Unary::Sqrt => Ok(tensor::unary_of(Unary::MulScalar(Scalar::Int(2)), t)),
        // Minus half the cube of the output.
        Unary::Rsqrt => onward(
            tensor::binary_of(Binary::Mul, t, t),
            |sq: Value|
                onward(
                    tensor::binary_of(Binary::Mul, sq, t),
                    |cube: Value| Ok(tensor::unary_of(Unary::MulScalar(Scalar::Frac((-1) as i64, 2)), cube)),
                ),
        ),
        // Minus the square of the output.
        Unary::Recip => onward(
            tensor::binary_of(Binary::Mul, t, t),
            |sq: Value| Ok(tensor::unary_of(Unary::Neg, sq)),
        ),
        Unary::Abs => Ok(tensor::unary_of(Unary::Sign, t)),
        // One minus the square of the output.
        Unary::Tanh => onward(
            tensor::binary_of(Binary::Mul, t, t),
            |sq: Value| Ok(tensor::unary_of(Unary::RsubScalar(Scalar::Int(1)), sq)),
        ),
        // The output times one minus the output.
        Unary::Sigmoid => tensor::binary_of(
            Binary::Mul,
            t,
            tensor::unary_of(Unary::RsubScalar(Scalar::Int(1)), t),
        ),
        Unary::Sin => Ok(tensor::unary_of(Unary::Cos, t)),
        Unary::Cos => Ok(tensor::unary_of(Unary::Neg, tensor::unary_of(Unary::Sin, t))),
        // Two over root pi, times the exponential of minus the squared input.
        Unary::Erf => onward(
            tensor::binary_of(Binary::Mul, t, t),
            |sq: Value|
                Ok(
                    tensor::unary_of(
                        Unary::MulScalar(Scalar::TwoInvSqrtPi),
                        tensor::unary_of(Unary::Exp, tensor::unary_of(Unary::Neg, sq)),
                    ),
                ),
        ),
        Unary::Relu => Ok(tensor::unary_of(Unary::GtScalar(Scalar::Int(0)), t)),
        // `a x^(a - 1)`.
        Unary::PowfScalar(Scalar::Bits(a)) => Ok(
            tensor::unary_of(
                Unary::MulScalar(Scalar::Bits(a)),
                tensor::unary_of(Unary::PowfScalar(Scalar::BitsLessOne(a)), t),
            ),
        ),
        Unary::PowfScalar(Scalar::BitsInverse(a)) => Ok(
            tensor::unary_of(
                Unary::MulScalar(Scalar::BitsInverse(a)),
                tensor::unary_of(Unary::PowfScalar(Scalar::BitsInverseLessOne(a)), t),
            ),
        ),
        // One strictly inside the range, zero elsewhere.
        Unary::Clamp(lo, hi) => tensor::binary_of(
            Binary::Mul,
            tensor::unary_of(Unary::GtScalar(lo), t),
            tensor::unary_of(Unary::LtScalar(hi), t),
        ),
        Unary::Special(Special::Expm1) => Ok(tensor::unary_of(Unary::Exp, t)),
        Unary::Special(Special::Erfc) => Ok(tensor::unary_of(Unary::Special(Special::ErfGrad), t)),
        Unary::Special(f) => match special_slope(f) {
            Some(slope) => Ok(tensor::unary_of(Unary::Special(slope), t)),
            None => Ok(t),
        },
        _ => Ok(t),
    }
}

/// The gradient through an elementwise function.
pub open spec fn pointwise_pullback(op: Unary, t: Value, g: Value) -> Result<Value, Fault> {
    match op {
        Unary::Log => tensor::binary_of(Binary::Div, g, t),
        Unary::Sqrt => onward(derivative(op, t), |d: Value| tensor::binary_of(Binary::Div, g, d)),
        Unary::Silu => tensor::binary_of(Binary::SiluBackward, g, t),
        Unary::Softplus => tensor::binary_of(Binary::SoftplusBackward, g, t),
        Unary::Special(Special::Log1p) => tensor::binary_of(
            Binary::Div,
            g,
            tensor::unary_of(Unary::AddScalar(Scalar::Int(1)), t),
        ),
        Unary::Special(Special::Erfc) => onward(
            derivative(op, t),
            |d: Value|
                onward(tensor::binary_of(Binary::Mul, g, d), |v: Value| Ok(tensor::unary_of(Unary::Neg, v))),
        ),
        _ => onward(derivative(op, t), |d: Value| tensor::binary_of(Binary::Mul, g, d)),
    }
}

/// The gradient of the divisor of a quotient: `-g a / b^2`.
pub open spec fn divisor_grad(a: Value, b: Value, g: Value) -> Result<Value, Fault> {
    onward(
        tensor::binary_of(Binary::Mul, b, b),
        |b2: Value|
            onward(
                tensor::binary_of(Binary::Mul, g, a),
                |ga: Value|
                    onward(
                        tensor::binary_of(Binary::Div, ga, b2),
                        |q: Value| reduce::reduce_to(tensor::unary_of(Unary::Neg, q), b.dims),
                    ),
            ),
    )
}

/// The gradients of a maximum: each operand gets it where that operand won.
pub open spec fn maximum_pullback(a: Value, b: Value, g: Value) -> Result<
    Seq<Option<Value>>,
    Fault,
> {
    match tensor::binary_of(Binary::Greater, a, b) {
        Err(e) => Err(e),
        Ok(aw) => {
            let bw = tensor::unary_of(Unary::RsubScalar(Scalar::Int(1)), aw);
            pair(
                wanted(
                    true,
                    onward(tensor::binary_of(Binary::Mul, g, aw), |v: Value| reduce::reduce_to(v, a.dims)),
                ),
                wanted(
                    true,
                    onward(tensor::binary_of(Binary::Mul, g, bw), |v: Value| reduce::reduce_to(v, b.dims)),
                ),
            )
        },
    }
}

/// The gradient of a maximum along an axis: ties share it.
pub open spec fn max_dim_pullback(axis: usize, x: Value, maxes: Value, g: Value) -> Result<
    Value,
    Fault,
> {
    onward(
        tensor::expand_of(maxes, x.dims),
        |spread: Value|
            onward(
                tensor::binary_of(Binary::Sub, x, spread),
                |hit: Value|
                    {
                        let mask = tensor::unary_of(Unary::EqScalar(Scalar::Int(0)), hit);
                        onward(
                            tensor::reduce_of(Reduce::Sum, mask, axis),
                            |count: Value|
                                onward(
                                    tensor::expand_of(count, x.dims),
                                    |counts: Value|
                                        onward(
                                            tensor::binary_of(Binary::Div, mask, counts),
                                            |share: Value|
                                                onward(
                                                    tensor::expand_of(g, x.dims),
                                                    |up: Value| tensor::binary_of(Binary::Mul, up, share),
                                                ),
                                        ),
                                ),
                        )
                    },
            ),
    )
}

/// The token a piece of a split hands its source. It carries nothing: all it does
/// is put the source on the worklist.
pub open spec fn token() -> Value {
    tensor::empty_of(seq![0usize])
}

/// The band a piece that received no gradient leaves: zeros of its shape.
pub open spec fn blank_band(full: Seq<usize>, axis: usize, size: usize) -> Value {
    tensor::fill_of(
        Scalar::Int(0),
        if axis < full.len() {
            full.update(axis as int, size)
        } else {
            full
        },
    )
}

/// The bands of a split in order, zeros where a piece left none.
pub open spec fn bands_of(
    full: Seq<usize>,
    sizes: Seq<usize>,
    axis: usize,
    bands: Seq<Option<Value>>,
) -> Seq<Value> {
    Seq::new(
        sizes.len(),
        |i: int|
            if i < bands.len() && bands[i] is Some {
                bands[i]->0
            } else {
                blank_band(full, axis, sizes[i])
            },
    )
}

/// The rows an embedding's gradient is laid out in.
pub open spec fn embedding_rows(g: Seq<usize>, width: usize) -> usize {
    if width != 0 && crate::shape::fits(g) {
        (crate::shape::product(g) / width as nat) as usize
    } else {
        0
    }
}

/// A shape with its trailing extent halved.
pub open spec fn half_last(s: Seq<usize>) -> Seq<usize> {
    if s.len() == 0 {
        s
    } else {
        s.update(s.len() - 1, (s.last() / 2) as usize)
    }
}

pub open spec fn with_optional(a: Seq<Value>, o: Option<Value>) -> Seq<Value> {
    match o {
        Some(v) => a.push(v),
        None => a,
    }
}

/// The operands of a convolution in order.
pub open spec fn conv_args(x: Value, h: Option<Value>, w: Value, b: Option<Value>) -> Seq<Value> {
    with_optional(with_optional(seq![x], h).push(w), b)
}

/// The gradients through arithmetic.
#[verifier::opaque]
pub open spec fn arithmetic_pullback(r: Adjoint, g: Value) -> Result<
    Seq<Option<Value>>,
    Fault,
> {
    match r {
        RuleOf::Leaf => Ok(Seq::empty()),
        RuleOf::Identity => Ok(seq![Some(g)]),
        RuleOf::Negate => Ok(seq![Some(tensor::unary_of(Unary::Neg, g))]),
        RuleOf::Scale(s) => Ok(seq![Some(tensor::unary_of(Unary::MulScalar(s), g))]),
        RuleOf::Pointwise(op, t) => single(pointwise_pullback(op, t, g)),
        RuleOf::Add(wl, wr, ls, rs) => pair(
            wanted(wl, reduce::reduce_to(g, ls)),
            wanted(wr, reduce::reduce_to(g, rs)),
        ),
        RuleOf::Sub(wl, wr, ls, rs) => pair(
            wanted(wl, reduce::reduce_to(g, ls)),
            wanted(wr, reduce::reduce_to(tensor::unary_of(Unary::Neg, g), rs)),
        ),
        RuleOf::Mul(wl, wr, a, b) => pair(
            wanted(wl, onward(tensor::binary_of(Binary::Mul, g, b), |v: Value| reduce::reduce_to(v, a.dims))),
            wanted(wr, onward(tensor::binary_of(Binary::Mul, g, a), |v: Value| reduce::reduce_to(v, b.dims))),
        ),
        RuleOf::Div(wl, wr, a, b) => pair(
            wanted(wl, onward(tensor::binary_of(Binary::Div, g, b), |v: Value| reduce::reduce_to(v, a.dims))),
            wanted(wr, divisor_grad(a, b, g)),
        ),
        RuleOf::Maximum(a, b) => maximum_pullback(a, b, g),
        RuleOf::MatMul(wl, wr, a, b) => pair(
            wanted(
                wl,
                onward(
                    tensor::product_of(Product::RightTransposed, g, b),
                    |v: Value| reduce::reduce_to(v, a.dims),
                ),
            ),
            wanted(wr, reduce::weight_grad_of(a, g, b.dims)),
        ),
        RuleOf::MatMulNt(wl, wr, a, b) => pair(
            wanted(
                wl,
                onward(tensor::product_of(Product::Plain, g, b), |v: Value| reduce::reduce_to(v, a.dims)),
            ),
            wanted(wr, reduce::weight_grad_of(g, a, b.dims)),
        ),
        _ => Ok(Seq::empty()),
    }
}

/// The gradients through reductions, movement and indexing. `bands` holds what the
/// pieces of a split have stashed for their source.
#[verifier::opaque]
pub open spec fn movement_pullback(r: Adjoint, g: Value, bands: Seq<Option<Value>>) -> Result<
    Seq<Option<Value>>,
    Fault,
> {
    match r {
        RuleOf::ExpandTo(s) => single(tensor::expand_of(g, s)),
        RuleOf::MeanDim(s, n) => single(
            onward(
                tensor::expand_of(g, s),
                |v: Value| Ok(tensor::unary_of(Unary::MulScalar(Scalar::Frac(1, n as u64)), v)),
            ),
        ),
        RuleOf::MaxDim(axis, x, maxes) => single(max_dim_pullback(axis, x, maxes, g)),
        RuleOf::Reshape(s) => single(tensor::reshape_of(g, s)),
        RuleOf::Permute(inverse) => single(tensor::permute_of(g, inverse)),
        RuleOf::ReduceTo(s) => single(reduce::reduce_to(g, s)),
        RuleOf::Flip(axis) => single(tensor::flip_of(g, axis)),
        RuleOf::Slice(full, axis, start) => Ok(seq![Some(tensor::unslice_of(g, full, axis, start))]),
        RuleOf::SplitSink(full, sizes, axis) => single(
            tensor::cat_of(bands_of(full, sizes, axis, bands), axis),
        ),
        RuleOf::SplitPiece(_, _) => Ok(seq![Some(token())]),
        RuleOf::Cat(axis, sizes) => match tensor::split_of(g, sizes, axis) {
            Err(e) => Err(e),
            Ok(pieces) => Ok(pieces.map_values(|v: Value| Some(v))),
        },
        RuleOf::TakeAlongLast(ids, last) => single(
            onward(
                tensor::reshape_of(g, g.dims.push(1usize)),
                |spread: Value| tensor::binary_of(Binary::Mul, tensor::one_hot_of(ids, last), spread),
            ),
        ),
        RuleOf::Embedding(ids, rows, width) => single(
            onward(
                tensor::reshape_of(g, seq![embedding_rows(g.dims, width), width]),
                |flat: Value| tensor::scatter_add_rows_of(flat, ids, rows),
            ),
        ),
        RuleOf::CumSum(axis) => single(tensor::scan_of(Scan::Reverse, g, axis)),
        RuleOf::CumSumExclusive(axis) => single(tensor::scan_of(Scan::ReverseExclusive, g, axis)),
        _ => Ok(Seq::empty()),
    }
}

/// The gradients through root-mean-square normalisation.
pub open spec fn rms_norm_pullback(x: Value, w: Option<Value>, s: Value, g: Value) -> Result<
    Seq<Option<Value>>,
    Fault,
> {
    let dx = tensor::fused_of(
        Fused::RmsNormDx,
        with_optional(seq![g, x], w).push(s),
        x.dims,
    );
    match w {
        Some(gain) => Ok(
            seq![Some(dx), Some(tensor::fused_of(Fused::RmsNormDw, seq![g, x, s], gain.dims))],
        ),
        None => Ok(seq![Some(dx)]),
    }
}

/// The gradients through a rotation by given tables.
pub open spec fn rotate_pullback(x: Value, c: Value, s: Value, g: Value) -> Result<
    Seq<Option<Value>>,
    Fault,
> {
    let args = seq![g, x, c, s];
    match pair(
        wanted(
            true,
            reduce::reduce_to(tensor::fused_of(Fused::RotateDcos(false), args, half_last(x.dims)), c.dims),
        ),
        wanted(
            true,
            reduce::reduce_to(tensor::fused_of(Fused::RotateDsin(false), args, half_last(x.dims)), c.dims),
        ),
    ) {
        Err(e) => Err(e),
        Ok(tables) => Ok(
            seq![Some(tensor::fused_of(Fused::RotateDx(false), args, x.dims))] + tables,
        ),
    }
}

/// The gradients through a rotation by an angle.
pub open spec fn rotate_by_angle_pullback(x: Value, p: Value, g: Value) -> Result<
    Seq<Option<Value>>,
    Fault,
> {
    let args = seq![g, x, p, p];
    match reduce::reduce_to(tensor::fused_of(Fused::RotateDcos(true), args, half_last(x.dims)), p.dims) {
        Err(e) => Err(e),
        Ok(dp) => Ok(
            seq![Some(tensor::fused_of(Fused::RotateDx(true), args, x.dims)), Some(dp)],
        ),
    }
}

/// The gradients through a causal convolution: input, weight, then history and bias where given.
pub open spec fn conv_pullback(x: Value, h: Option<Value>, w: Value, b: Option<Value>, g: Value) -> Result<
    Seq<Option<Value>>,
    Fault,
> {
    let args = seq![g] + conv_args(x, h, w, b);
    let (hh, hb) = (h is Some, b is Some);
    let base = seq![
        Some(tensor::fused_of(Fused::ConvDx(hh, hb), args, x.dims)),
        Some(tensor::fused_of(Fused::ConvDweight(hh, hb), args, w.dims)),
    ];
    let with_history = match h {
        Some(v) => base.push(Some(tensor::fused_of(Fused::ConvDhistory(hh, hb), args, v.dims))),
        None => base,
    };
    Ok(
        match b {
            Some(v) => with_history.push(
                Some(tensor::fused_of(Fused::ConvDbias(hh, hb), args, v.dims)),
            ),
            None => with_history,
        },
    )
}

/// The gradients through the history a convolution hands on.
pub open spec fn conv_history_pullback(x: Value, h: Option<Value>, w: Value, g: Value) -> Result<
    Seq<Option<Value>>,
    Fault,
> {
    let args = seq![g] + conv_args(x, h, w, None);
    let base = seq![Some(tensor::fused_of(Fused::ConvHistoryDx(h is Some), args, x.dims))];
    Ok(
        match h {
            Some(v) => base.push(
                Some(tensor::fused_of(Fused::ConvHistoryDhistory(true), args, v.dims)),
            ),
            None => base,
        },
    )
}

/// The gradients through one step of the rotating frame.
pub open spec fn ssm_angle_pullback(dt: Value, theta: Value, prev: bool, g: Value) -> Result<
    Seq<Option<Value>>,
    Fault,
> {
    let args = seq![g, dt, theta];
    match reduce::reduce_to(tensor::fused_of(Fused::SsmAngleDdt(prev), args, dt.dims), dt.dims) {
        Err(e) => Err(e),
        Ok(ddt) => {
            let base = seq![
                Some(ddt),
                Some(tensor::fused_of(Fused::SsmAngleDtheta(prev), args, theta.dims)),
            ];
            Ok(
                if prev {
                    base.push(Some(tensor::fused_of(Fused::SsmAngleDprev(prev), args, theta.dims)))
                } else {
                    base
                },
            )
        },
    }
}

/// The gradients through a state update.
pub open spec fn ssm_state_pullback(x0: Value, x1: Value, x2: Value, s: Value, g: Value) -> Result<
    Seq<Option<Value>>,
    Fault,
> {
    let args = seq![g, x0, x1, x2, s];
    Ok(
        seq![
            Some(tensor::fused_of(Fused::SsmStateDx(0), args, x0.dims)),
            Some(tensor::fused_of(Fused::SsmStateDx(1), args, x1.dims)),
            Some(tensor::fused_of(Fused::SsmStateDx(2), args, x2.dims)),
            Some(tensor::fused_of(Fused::SsmStateDscales, args, s.dims)),
        ],
    )
}

/// The gradients through the per-head coefficients.
pub open spec fn ssm_coefficients_pullback(a: Value, d: Value, l: Value, g: Value) -> Result<
    Seq<Option<Value>>,
    Fault,
> {
    let args = seq![g, a, d, l];
    match reduce::reduce_to(tensor::fused_of(Fused::SsmCoefficientsDa, args, d.dims), a.dims) {
        Err(e) => Err(e),
        Ok(da) => match pair(
            wanted(
                true,
                tensor::reshape_of(tensor::fused_of(Fused::SsmCoefficientsDdt, args, d.dims), d.dims),
            ),
            wanted(
                true,
                tensor::reshape_of(tensor::fused_of(Fused::SsmCoefficientsDlambda, args, d.dims), l.dims),
            ),
        ) {
            Err(e) => Err(e),
            Ok(rest) => Ok(seq![Some(da)] + rest),
        },
    }
}

/// The gradients through the intra-chunk band.
pub open spec fn ssd_band_pullback(floor: Scalar, a: Value, w: Value, gv: Value, g: Value) -> Result<
    Seq<Option<Value>>,
    Fault,
> {
    let args = seq![g, a, w, gv];
    Ok(
        seq![
            Some(tensor::fused_of(Fused::SsdBandDacum(floor), args, a.dims)),
            Some(tensor::fused_of(Fused::SsdBandDw(floor), args, w.dims)),
            Some(tensor::fused_of(Fused::SsdBandDg(floor), args, gv.dims)),
        ],
    )
}

/// Which optional operands a scan has.
pub open spec fn scan_extras<T>(o: ScanOf<T>) -> Extras {
    Extras {
        theta: o.theta is Some,
        skip: o.skip is Some,
        state: o.state is Some,
        angle: o.angle is Some,
    }
}

/// The operands of a scan in order.
pub open spec fn scan_args(o: ScanOf<Value>) -> Seq<Value> {
    with_optional(
        with_optional(
            with_optional(
                with_optional(seq![o.x, o.b, o.c, o.dt, o.a_log, o.lambda], o.theta),
                o.skip,
            ),
            o.state,
        ),
        o.angle,
    )
}

/// The gradients through a result of the scan: one kernel per operand.
pub open spec fn scan_pullback(n: u64, k: u8, o: ScanOf<Value>, g: Value) -> Result<
    Seq<Option<Value>>,
    Fault,
> {
    let args = scan_args(o);
    Ok(
        Seq::new(
            args.len(),
            |i: int|
                Some(
                    tensor::fused_of(
                        Fused::SsmScanGrad(n, k, scan_extras(o), i as u8),
                        seq![g] + args,
                        args[i].dims,
                    ),
                ),
        ),
    )
}

/// The gradients through kernels of several operands.
#[verifier::opaque]
pub open spec fn fused_pullback(r: Adjoint, g: Value) -> Result<
    Seq<Option<Value>>,
    Fault,
> {
    match r {
        RuleOf::RmsNorm(x, w, s) => rms_norm_pullback(x, w, s, g),
        RuleOf::Rotate(x, c, s) => rotate_pullback(x, c, s, g),
        RuleOf::RotateByAngle(x, p) => rotate_by_angle_pullback(x, p, g),
        RuleOf::Conv(x, h, w, b) => conv_pullback(x, h, w, b, g),
        RuleOf::ConvHistory(x, h, w) => conv_history_pullback(x, h, w, g),
        RuleOf::SsmAngle(dt, theta, prev) => ssm_angle_pullback(dt, theta, prev, g),
        RuleOf::SsmState(x0, x1, x2, s) => ssm_state_pullback(x0, x1, x2, s, g),
        RuleOf::SsmCoefficients(a, d, l) => ssm_coefficients_pullback(a, d, l, g),
        RuleOf::SsdBand(floor, a, w, gv) => ssd_band_pullback(floor, a, w, gv, g),
        RuleOf::SsmScan(n, k, o) => scan_pullback(n, k, o, g),
        _ => Ok(Seq::empty()),
    }
}

/// A gradient of a scalar family's kernel for one slot, summed down to that slot's
/// shape, where it is wanted.
pub open spec fn slot_grad(want: bool, op: Fused, args: Seq<Value>, like: Seq<usize>, target: Seq<
    usize,
>) -> Result<Option<Value>, Fault> {
    wanted(want, reduce::reduce_to(tensor::fused_of(op, args, like), target))
}

/// Two more gradients after two.
pub open spec fn joined(
    a: Result<Seq<Option<Value>>, Fault>,
    b: Result<Seq<Option<Value>>, Fault>,
) -> Result<Seq<Option<Value>>, Fault> {
    match a {
        Err(e) => Err(e),
        Ok(x) => match b {
            Err(e) => Err(e),
            Ok(y) => Ok(x + y),
        },
    }
}

/// One more gradient.
pub open spec fn followed(
    a: Result<Seq<Option<Value>>, Fault>,
    b: Result<Option<Value>, Fault>,
) -> Result<Seq<Option<Value>>, Fault> {
    match a {
        Err(e) => Err(e),
        Ok(x) => match b {
            Err(e) => Err(e),
            Ok(y) => Ok(x.push(y)),
        },
    }
}

#[verifier::opaque]
pub open spec fn density_pullback(
    kind: u32,
    which: u32,
    w: Wants,
    x: Value,
    a: Value,
    b: Value,
    c: Value,
    g: Value,
) -> Result<Seq<Option<Value>>, Fault> {
    let args = seq![g, x, a, b, c];
    joined(
        pair(
            slot_grad(w.x, Fused::DensityGrad(kind, which, 0), args, x.dims, x.dims),
            slot_grad(w.a, Fused::DensityGrad(kind, which, 1), args, x.dims, a.dims),
        ),
        pair(
            slot_grad(w.b, Fused::DensityGrad(kind, which, 2), args, x.dims, b.dims),
            slot_grad(w.c, Fused::DensityGrad(kind, which, 3), args, x.dims, c.dims),
        ),
    )
}

#[verifier::opaque]
pub open spec fn entropy_pullback(
    kind: u32,
    w: Wants,
    a: Value,
    b: Value,
    c: Value,
    g: Value,
) -> Result<Seq<Option<Value>>, Fault> {
    let args = seq![g, a, b, c];
    followed(
        pair(
            slot_grad(w.a, Fused::EntropyGrad(kind, 1), args, g.dims, a.dims),
            slot_grad(w.b, Fused::EntropyGrad(kind, 2), args, g.dims, b.dims),
        ),
        slot_grad(w.c, Fused::EntropyGrad(kind, 3), args, g.dims, c.dims),
    )
}

#[verifier::opaque]
pub open spec fn draw_pullback(
    kind: u32,
    batch: u64,
    seed: u64,
    w: Wants,
    a: Value,
    b: Value,
    c: Value,
    g: Value,
) -> Result<Seq<Option<Value>>, Fault> {
    let args = seq![g, a, b, c];
    followed(
        pair(
            slot_grad(w.a, Fused::DrawGrad(kind, batch, seed, 1), args, g.dims, a.dims),
            slot_grad(w.b, Fused::DrawGrad(kind, batch, seed, 2), args, g.dims, b.dims),
        ),
        slot_grad(w.c, Fused::DrawGrad(kind, batch, seed, 3), args, g.dims, c.dims),
    )
}

#[verifier::opaque]
pub open spec fn mvn_pullback(
    wv: bool,
    wl: bool,
    wt: bool,
    x: Value,
    loc: Value,
    tril: Value,
    g: Value,
) -> Result<Seq<Option<Value>>, Fault> {
    let args = seq![loc, tril, x, g];
    followed(
        pair(
            slot_grad(wv, Fused::MvnGrad(0), args, x.dims, x.dims),
            slot_grad(wl, Fused::MvnGrad(1), args, x.dims, loc.dims),
        ),
        slot_grad(
            wt,
            Fused::MvnGrad(2),
            args,
            if x.dims.len() > 0 {
                x.dims.push(x.dims.last())
            } else {
                x.dims
            },
            tril.dims,
        ),
    )
}

#[verifier::opaque]
pub open spec fn dirichlet_pullback(wv: bool, wc: bool, x: Value, conc: Value, g: Value) -> Result<
    Seq<Option<Value>>,
    Fault,
> {
    let args = seq![conc, x, g];
    pair(
        slot_grad(wv, Fused::DirichletGrad(0), args, x.dims, x.dims),
        slot_grad(wc, Fused::DirichletGrad(1), args, x.dims, conc.dims),
    )
}

/// The gradient of a row kernel.
#[verifier::opaque]
pub open spec fn row_grad(op: Fused, args: Seq<Value>, like: Seq<usize>) -> Result<Value, Fault> {
    reduce::reduce_to(tensor::fused_of(op, args, like), like)
}

/// The gradients through the distributions' kernels.
#[verifier::opaque]
pub open spec fn kernel_pullback(r: Adjoint, g: Value) -> Result<Seq<Option<Value>>, Fault> {
    match r {
        RuleOf::Density(k, n, w, x, a, b, c) => density_pullback(k, n, w, x, a, b, c, g),
        RuleOf::Entropy(k, w, a, b, c) => entropy_pullback(k, w, a, b, c, g),
        RuleOf::Draw(k, n, s, w, a, b, c) => draw_pullback(k, n, s, w, a, b, c, g),
        RuleOf::RowLogProb(l, ids) => single(
            row_grad(Fused::RowLogProbGrad, seq![l, tensor::id_operand(ids), g], l.dims),
        ),
        RuleOf::RowEntropy(l) => single(row_grad(Fused::RowEntropyGrad, seq![l, g], l.dims)),
        RuleOf::MvnLogProb(wv, wl, wt, x, loc, tril) => mvn_pullback(wv, wl, wt, x, loc, tril, g),
        RuleOf::DirichletLogProb(wv, wc, x, conc) => dirichlet_pullback(wv, wc, x, conc, g),
        RuleOf::DirichletEntropy(conc) => single(
            row_grad(Fused::DirichletEntropyGrad, seq![conc, g], conc.dims),
        ),
        _ => Ok(Seq::empty()),
    }
}

/// Which of the groups a rule belongs to.
pub enum Group {
    Arithmetic,
    Movement,
    Fused,
    Kernel,
}

pub open spec fn group<T, S, I>(r: RuleOf<T, S, I>) -> Group {
    match r {
        RuleOf::Leaf | RuleOf::Identity | RuleOf::Negate | RuleOf::Scale(_) | RuleOf::Pointwise(
            _,
            _,
        ) | RuleOf::Add(_, _, _, _) | RuleOf::Sub(_, _, _, _) | RuleOf::Mul(_, _, _, _)
        | RuleOf::Div(_, _, _, _) | RuleOf::Maximum(_, _) | RuleOf::MatMul(_, _, _, _)
        | RuleOf::MatMulNt(_, _, _, _) => Group::Arithmetic,
        RuleOf::RmsNorm(_, _, _) | RuleOf::Rotate(_, _, _) | RuleOf::RotateByAngle(_, _)
        | RuleOf::Conv(_, _, _, _) | RuleOf::ConvHistory(_, _, _) | RuleOf::SsmAngle(_, _, _)
        | RuleOf::SsmState(_, _, _, _) | RuleOf::SsmCoefficients(_, _, _) | RuleOf::SsdBand(
            _,
            _,
            _,
            _,
        ) | RuleOf::SsmScan(_, _, _) => Group::Fused,
        RuleOf::Density(_, _, _, _, _, _, _) | RuleOf::Entropy(_, _, _, _, _) | RuleOf::Draw(
            _,
            _,
            _,
            _,
            _,
            _,
            _,
        ) | RuleOf::RowLogProb(_, _) | RuleOf::RowEntropy(_) | RuleOf::MvnLogProb(_, _, _, _, _, _)
        | RuleOf::DirichletLogProb(_, _, _, _) | RuleOf::DirichletEntropy(_) => Group::Kernel,
        _ => Group::Movement,
    }
}

/// The gradient for each operand, in the order the operands were registered.
pub open spec fn pullback(r: Adjoint, g: Value, bands: Seq<Option<Value>>) -> Result<
    Seq<Option<Value>>,
    Fault,
> {
    match group(r) {
        Group::Arithmetic => arithmetic_pullback(r, g),
        Group::Movement => movement_pullback(r, g, bands),
        Group::Fused => fused_pullback(r, g),
        Group::Kernel => kernel_pullback(r, g),
    }
}

// -- applying a rule -----------------------------------------------------------

fn one(t: Tensor) -> (r: Vec<Option<Tensor>>)
    ensures
        slots(r@) == seq![Some(t@)],
{
    let mut out: Vec<Option<Tensor>> = Vec::new();
    out.push(Some(t));
    proof {
        assert(slots(out@) =~= seq![Some(t@)]);
    }
    out
}

fn two(a: Option<Tensor>, b: Option<Tensor>) -> (r: Vec<Option<Tensor>>)
    ensures
        slots(r@) == seq![opt(a), opt(b)],
{
    let mut out: Vec<Option<Tensor>> = Vec::new();
    out.push(a);
    out.push(b);
    proof {
        assert(slots(out@) =~= seq![opt(a), opt(b)]);
    }
    out
}

fn push_slot(out: &mut Vec<Option<Tensor>>, t: Tensor)
    ensures
        slots(final(out)@) == slots(old(out)@).push(Some(t@)),
{
    let ghost before = slots(out@);
    out.push(Some(t));
    proof {
        assert(slots(out@) =~= before.push(Some(t@)));
    }
}

fn derivative_tensor(op: Unary, t: &Tensor) -> (r: Result<Tensor, Error>)
    ensures
        crate::error::agrees(r, derivative(op, t@)),
{
    match op {
        Unary::Exp => Ok(t.clone()),
        Unary::Sqrt => Ok(t.unary(Unary::MulScalar(Scalar::Int(2)))),
        Unary::Rsqrt => {
            let sq = Tensor::binary(Binary::Mul, t, t)?;
            let cube = Tensor::binary(Binary::Mul, &sq, t)?;
            Ok(cube.unary(Unary::MulScalar(Scalar::Frac(-1, 2))))
        },
        Unary::Recip => {
            let sq = Tensor::binary(Binary::Mul, t, t)?;
            Ok(sq.unary(Unary::Neg))
        },
        Unary::Abs => Ok(t.unary(Unary::Sign)),
        Unary::Tanh => {
            let sq = Tensor::binary(Binary::Mul, t, t)?;
            Ok(sq.unary(Unary::RsubScalar(Scalar::Int(1))))
        },
        Unary::Sigmoid => {
            let rest = t.unary(Unary::RsubScalar(Scalar::Int(1)));
            Tensor::binary(Binary::Mul, t, &rest)
        },
        Unary::Sin => Ok(t.unary(Unary::Cos)),
        Unary::Cos => Ok(t.unary(Unary::Sin).unary(Unary::Neg)),
        Unary::Erf => {
            let sq = Tensor::binary(Binary::Mul, t, t)?;
            Ok(sq.unary(Unary::Neg).unary(Unary::Exp).unary(Unary::MulScalar(Scalar::TwoInvSqrtPi)))
        },
        Unary::Relu => Ok(t.unary(Unary::GtScalar(Scalar::Int(0)))),
        Unary::PowfScalar(Scalar::Bits(a)) => Ok(
            t.unary(Unary::PowfScalar(Scalar::BitsLessOne(a))).unary(
                Unary::MulScalar(Scalar::Bits(a)),
            ),
        ),
        Unary::PowfScalar(Scalar::BitsInverse(a)) => Ok(
            t.unary(Unary::PowfScalar(Scalar::BitsInverseLessOne(a))).unary(
                Unary::MulScalar(Scalar::BitsInverse(a)),
            ),
        ),
        Unary::Clamp(lo, hi) => {
            let above = t.unary(Unary::GtScalar(lo));
            let below = t.unary(Unary::LtScalar(hi));
            Tensor::binary(Binary::Mul, &above, &below)
        },
        Unary::Special(f) => match f {
            Special::Expm1 => Ok(t.unary(Unary::Exp)),
            Special::Erfc => Ok(t.unary(Unary::Special(Special::ErfGrad))),
            Special::Lgamma => Ok(t.unary(Unary::Special(Special::Digamma))),
            Special::Digamma => Ok(t.unary(Unary::Special(Special::Trigamma))),
            Special::Erf => Ok(t.unary(Unary::Special(Special::ErfGrad))),
            Special::Erfinv => Ok(t.unary(Unary::Special(Special::ErfinvGrad))),
            Special::Ndtr => Ok(t.unary(Unary::Special(Special::Ndpdf))),
            Special::Ndtri => Ok(t.unary(Unary::Special(Special::NdtriGrad))),
            Special::LogI0 => Ok(t.unary(Unary::Special(Special::BesselRatio))),
            _ => Ok(t.clone()),
        },
        _ => Ok(t.clone()),
    }
}

fn pointwise_grad(op: Unary, t: &Tensor, g: &Tensor) -> (r: Result<Tensor, Error>)
    ensures
        crate::error::agrees(r, pointwise_pullback(op, t@, g@)),
{
    match op {
        Unary::Log => Tensor::binary(Binary::Div, g, t),
        Unary::Sqrt => {
            let d = derivative_tensor(op, t)?;
            Tensor::binary(Binary::Div, g, &d)
        },
        Unary::Silu => Tensor::binary(Binary::SiluBackward, g, t),
        Unary::Softplus => Tensor::binary(Binary::SoftplusBackward, g, t),
        Unary::Special(Special::Log1p) => {
            let denom = t.unary(Unary::AddScalar(Scalar::Int(1)));
            Tensor::binary(Binary::Div, g, &denom)
        },
        Unary::Special(Special::Erfc) => {
            let d = derivative_tensor(op, t)?;
            let v = Tensor::binary(Binary::Mul, g, &d)?;
            Ok(v.unary(Unary::Neg))
        },
        _ => {
            let d = derivative_tensor(op, t)?;
            Tensor::binary(Binary::Mul, g, &d)
        },
    }
}

fn divisor_tensor(a: &Tensor, b: &Tensor, g: &Tensor) -> (r: Result<Tensor, Error>)
    ensures
        crate::error::agrees(r, divisor_grad(a@, b@, g@)),
{
    let b2 = Tensor::binary(Binary::Mul, b, b)?;
    let ga = Tensor::binary(Binary::Mul, g, a)?;
    let q = Tensor::binary(Binary::Div, &ga, &b2)?;
    reduce_grad_to(&q.unary(Unary::Neg), b.shape())
}

fn max_dim_tensor(axis: usize, x: &Tensor, maxes: &Tensor, g: &Tensor) -> (r: Result<
    Tensor,
    Error,
>)
    ensures
        crate::error::agrees(r, max_dim_pullback(axis, x@, maxes@, g@)),
{
    let spread = maxes.expand(x.shape())?;
    let hit = Tensor::binary(Binary::Sub, x, &spread)?;
    let mask = hit.unary(Unary::EqScalar(Scalar::Int(0)));
    let count = mask.reduce(Reduce::Sum, axis)?;
    let counts = count.expand(x.shape())?;
    let share = Tensor::binary(Binary::Div, &mask, &counts)?;
    let up = g.expand(x.shape())?;
    Tensor::binary(Binary::Mul, &up, &share)
}

/// The shape of a piece of a split.
fn band_shape(full: &Shape, axis: usize, size: usize) -> (r: Shape)
    ensures
        blank_band(full@, axis, size) == tensor::fill_of(Scalar::Int(0), r@),
{
    if axis < full.rank() {
        full.with_dim(axis, size)
    } else {
        full.clone()
    }
}

fn assemble(full: &Shape, sizes: &Shape, axis: usize, bands: &Vec<Option<Tensor>>) -> (r: Result<
    Tensor,
    Error,
>)
    ensures
        crate::error::agrees(r, tensor::cat_of(bands_of(full@, sizes@, axis, slots(bands@)), axis)),
{
    let count: usize = sizes.rank();
    let mut parts: Vec<Tensor> = Vec::with_capacity(count);
    let ghost want = bands_of(full@, sizes@, axis, slots(bands@));
    let mut i: usize = 0;
    while i < count
        invariant
            i <= count,
            count == sizes@.len(),
            want == bands_of(full@, sizes@, axis, slots(bands@)),
            tensor::values(parts@) == want.take(i as int),
        decreases count - i,
    {
        let ghost before = tensor::values(parts@);
        let part = if i < bands.len() {
            proof {
                assert(slots(bands@)[i as int] == opt(bands@[i as int]));
            }
            match &bands[i] {
                Some(t) => t.clone(),
                None => Tensor::zeros(band_shape(full, axis, sizes.dim(i))),
            }
        } else {
            Tensor::zeros(band_shape(full, axis, sizes.dim(i)))
        };
        proof {
            assert(part@ == want[i as int]);
        }
        parts.push(part);
        proof {
            assert(tensor::values(parts@) =~= before.push(part@));
            assert(want.take(i as int + 1) =~= want.take(i as int).push(want[i as int]));
        }
        i += 1;
    }
    proof {
        assert(want.take(count as int) =~= want);
    }
    Tensor::cat(&parts, axis)
}

fn half_shape(s: &Shape) -> (r: Shape)
    ensures
        r@ == half_last(s@),
{
    let rank: usize = s.rank();
    if rank == 0 {
        s.clone()
    } else {
        s.with_dim(rank - 1, s.dim(rank - 1) / 2)
    }
}

fn conv_operands(
    first: Option<&Tensor>,
    x: &Tensor,
    h: &Option<Tensor>,
    w: &Tensor,
    b: &Option<Tensor>,
) -> (r: Vec<Tensor>)
    ensures
        tensor::values(r@) == (match first {
            Some(g) => seq![g@],
            None => Seq::<Value>::empty(),
        }) + conv_args(x@, opt(*h), w@, opt(*b)),
{
    let mut out: Vec<Tensor> = Vec::new();
    if let Some(g) = first {
        out.push(g.clone());
    }
    out.push(x.clone());
    if let Some(t) = h {
        out.push(t.clone());
    }
    out.push(w.clone());
    if let Some(t) = b {
        out.push(t.clone());
    }
    proof {
        assert(tensor::values(out@) =~= (match first {
            Some(g) => seq![g@],
            None => Seq::<Value>::empty(),
        }) + conv_args(x@, opt(*h), w@, opt(*b)));
    }
    out
}

/// The operands of a convolution in order.
pub fn conv_inputs(x: &Tensor, h: &Option<Tensor>, w: &Tensor, b: &Option<Tensor>) -> (r: Vec<
    Tensor,
>)
    ensures
        tensor::values(r@) == conv_args(x@, opt(*h), w@, opt(*b)),
{
    let r = conv_operands(None, x, h, w, b);
    proof {
        assert(Seq::<Value>::empty() + conv_args(x@, opt(*h), w@, opt(*b)) =~= conv_args(
            x@,
            opt(*h),
            w@,
            opt(*b),
        ));
    }
    r
}

fn list3(a: &Tensor, b: &Tensor, c: &Tensor) -> (r: Vec<Tensor>)
    ensures
        tensor::values(r@) == seq![a@, b@, c@],
{
    let mut out: Vec<Tensor> = Vec::new();
    out.push(a.clone());
    out.push(b.clone());
    out.push(c.clone());
    proof {
        assert(tensor::values(out@) =~= seq![a@, b@, c@]);
    }
    out
}

fn list4(a: &Tensor, b: &Tensor, c: &Tensor, d: &Tensor) -> (r: Vec<Tensor>)
    ensures
        tensor::values(r@) == seq![a@, b@, c@, d@],
{
    let mut out = list3(a, b, c);
    let ghost before = tensor::values(out@);
    out.push(d.clone());
    proof {
        assert(tensor::values(out@) =~= before.push(d@));
        assert(tensor::values(out@) =~= seq![a@, b@, c@, d@]);
    }
    out
}

/// Whether an executable list of gradients says what a mathematical one does.
pub open spec fn same_slots(
    r: Result<Vec<Option<Tensor>>, Error>,
    s: Result<Seq<Option<Value>>, Fault>,
) -> bool {
    match (r, s) {
        (Ok(x), Ok(y)) => slots(x@) == y,
        (Err(e), Err(f)) => e@ == f,
        _ => false,
    }
}

fn apply_arithmetic(rule: &Rule, g: &Tensor) -> (r: Result<Vec<Option<Tensor>>, Error>)
    requires
        group(*rule) is Arithmetic,
    ensures
        same_slots(r, arithmetic_pullback(adjoint(*rule), g@)),
{
    proof {
        reveal(arithmetic_pullback);
    }
    match rule {
        RuleOf::Leaf => {
            let out: Vec<Option<Tensor>> = Vec::new();
            proof {
                assert(slots(out@) =~= Seq::<Option<Value>>::empty());
            }
            Ok(out)
        },
        RuleOf::Identity => Ok(one(g.clone())),
        RuleOf::Negate => Ok(one(g.unary(Unary::Neg))),
        RuleOf::Scale(s) => Ok(one(g.unary(Unary::MulScalar(*s)))),
        RuleOf::Pointwise(op, t) => Ok(one(pointwise_grad(*op, t, g)?)),
        RuleOf::Add(wl, wr, ls, rs) => {
            let a = if *wl {
                Some(reduce_grad_to(g, ls)?)
            } else {
                None
            };
            let b = if *wr {
                Some(reduce_grad_to(g, rs)?)
            } else {
                None
            };
            Ok(two(a, b))
        },
        RuleOf::Sub(wl, wr, ls, rs) => {
            let a = if *wl {
                Some(reduce_grad_to(g, ls)?)
            } else {
                None
            };
            let b = if *wr {
                Some(reduce_grad_to(&g.unary(Unary::Neg), rs)?)
            } else {
                None
            };
            Ok(two(a, b))
        },
        RuleOf::Mul(wl, wr, a, b) => {
            let da = if *wl {
                let v = Tensor::binary(Binary::Mul, g, b)?;
                Some(reduce_grad_to(&v, a.shape())?)
            } else {
                None
            };
            let db = if *wr {
                let v = Tensor::binary(Binary::Mul, g, a)?;
                Some(reduce_grad_to(&v, b.shape())?)
            } else {
                None
            };
            Ok(two(da, db))
        },
        RuleOf::Div(wl, wr, a, b) => {
            let da = if *wl {
                let v = Tensor::binary(Binary::Div, g, b)?;
                Some(reduce_grad_to(&v, a.shape())?)
            } else {
                None
            };
            let db = if *wr {
                Some(divisor_tensor(a, b, g)?)
            } else {
                None
            };
            Ok(two(da, db))
        },
        RuleOf::Maximum(a, b) => {
            let aw = Tensor::binary(Binary::Greater, a, b)?;
            let bw = aw.unary(Unary::RsubScalar(Scalar::Int(1)));
            let va = Tensor::binary(Binary::Mul, g, &aw)?;
            let da = reduce_grad_to(&va, a.shape())?;
            let vb = Tensor::binary(Binary::Mul, g, &bw)?;
            let db = reduce_grad_to(&vb, b.shape())?;
            Ok(two(Some(da), Some(db)))
        },
        RuleOf::MatMul(wl, wr, a, b) => {
            let da = if *wl {
                let v = Tensor::product(Product::RightTransposed, g, b)?;
                Some(reduce_grad_to(&v, a.shape())?)
            } else {
                None
            };
            let db = if *wr {
                Some(weight_grad(a, g, b.shape())?)
            } else {
                None
            };
            Ok(two(da, db))
        },
        RuleOf::MatMulNt(wl, wr, a, b) => {
            let da = if *wl {
                let v = Tensor::product(Product::Plain, g, b)?;
                Some(reduce_grad_to(&v, a.shape())?)
            } else {
                None
            };
            let db = if *wr {
                Some(weight_grad(g, a, b.shape())?)
            } else {
                None
            };
            Ok(two(da, db))
        },
        _ => Ok(Vec::new()),
    }
}

fn apply_movement(rule: &Rule, g: &Tensor, bands: &Vec<Option<Tensor>>) -> (r: Result<Vec<Option<Tensor>>, Error>)
    requires
        group(*rule) is Movement,
    ensures
        same_slots(r, movement_pullback(adjoint(*rule), g@, slots(bands@))),
{
    proof {
        reveal(movement_pullback);
    }
    match rule {
        RuleOf::ExpandTo(s) => Ok(one(g.expand(s)?)),
        RuleOf::MeanDim(s, n) => {
            let v = g.expand(s)?;
            Ok(one(v.unary(Unary::MulScalar(Scalar::Frac(1, *n as u64)))))
        },
        RuleOf::MaxDim(axis, x, maxes) => Ok(one(max_dim_tensor(*axis, x, maxes, g)?)),
        RuleOf::Reshape(s) => Ok(one(g.reshape(s)?)),
        RuleOf::Permute(inverse) => Ok(one(g.permute(inverse.dims())?)),
        RuleOf::ReduceTo(s) => Ok(one(reduce_grad_to(g, s)?)),
        RuleOf::Flip(axis) => Ok(one(g.flip(*axis)?)),
        RuleOf::Slice(full, axis, start) => Ok(one(g.unslice(full, *axis, *start))),
        RuleOf::SplitSink(full, sizes, axis) => Ok(one(assemble(full, sizes, *axis, bands)?)),
        RuleOf::SplitPiece(_, _) => {
            let mut dims: Vec<usize> = Vec::new();
            dims.push(0);
            proof {
                assert(dims@ =~= seq![0usize]);
            }
            Ok(one(Tensor::empty(Shape::new(dims))))
        },
        RuleOf::Cat(axis, sizes) => {
            let pieces = g.split(sizes.dims(), *axis)?;
            let mut out: Vec<Option<Tensor>> = Vec::with_capacity(pieces.len());
            let ghost want = tensor::values(pieces@).map_values(|v: Value| Some(v));
            let mut i: usize = 0;
            while i < pieces.len()
                invariant
                    i <= pieces.len(),
                    want == tensor::values(pieces@).map_values(|v: Value| Some(v)),
                    slots(out@) == want.take(i as int),
                decreases pieces.len() - i,
            {
                let ghost before = slots(out@);
                out.push(Some(pieces[i].clone()));
                proof {
                    assert(slots(out@) =~= before.push(Some(pieces@[i as int]@)));
                    assert(want.take(i as int + 1) =~= want.take(i as int).push(want[i as int]));
                }
                i += 1;
            }
            proof {
                assert(want.take(pieces@.len() as int) =~= want);
            }
            Ok(out)
        },
        RuleOf::TakeAlongLast(ids, last) => {
            let target = g.shape().unsqueezed(g.rank());
            proof {
                assert(target@ =~= g@.dims.push(1usize));
            }
            let spread = g.reshape(&target)?;
            let hot = Tensor::one_hot(ids, *last);
            Ok(one(Tensor::binary(Binary::Mul, &hot, &spread)?))
        },
        RuleOf::Embedding(ids, rows, width) => {
            let count: usize = match g.shape().checked_elements() {
                Some(n) => if *width != 0 {
                    n / *width
                } else {
                    0
                },
                None => 0,
            };
            let mut dims: Vec<usize> = Vec::new();
            dims.push(count);
            dims.push(*width);
            proof {
                assert(dims@ =~= seq![embedding_rows(g@.dims, *width), *width]);
            }
            let flat = g.reshape(&Shape::new(dims))?;
            Ok(one(flat.scatter_add_rows(ids, *rows)?))
        },
        RuleOf::CumSum(axis) => Ok(one(g.scan(Scan::Reverse, *axis)?)),
        RuleOf::CumSumExclusive(axis) => Ok(one(g.scan(Scan::ReverseExclusive, *axis)?)),
        _ => Ok(Vec::new()),
    }
}

fn rms_norm_grads(x: &Tensor, w: &Option<Tensor>, s: &Tensor, g: &Tensor) -> (r: Result<
    Vec<Option<Tensor>>,
    Error,
>)
    ensures
        same_slots(r, rms_norm_pullback(x@, opt(*w), s@, g@)),
{
    match w {
        Some(gain) => {
            let dx = Tensor::fused(
                Fused::RmsNormDx,
                &list4(g, x, gain, s),
                x.shape().clone(),
            );
            let dw = Tensor::fused(
                Fused::RmsNormDw,
                &list3(g, x, s),
                gain.shape().clone(),
            );
            proof {
                assert(with_optional(seq![g@, x@], Some(gain@)).push(s@) =~= seq![
                    g@,
                    x@,
                    gain@,
                    s@,
                ]);
            }
            Ok(two(Some(dx), Some(dw)))
        },
        None => {
            proof {
                assert(seq![g@, x@].push(s@) =~= seq![g@, x@, s@]);
            }
            Ok(
                one(
                    Tensor::fused(
                        Fused::RmsNormDx,
                        &list3(g, x, s),
                        x.shape().clone(),
                    ),
                ),
            )
        },
    }
}

fn rotate_grads(x: &Tensor, c: &Tensor, s: &Tensor, g: &Tensor) -> (r: Result<
    Vec<Option<Tensor>>,
    Error,
>)
    ensures
        same_slots(r, rotate_pullback(x@, c@, s@, g@)),
{
    let args = list4(g, x, c, s);
    let half = half_shape(x.shape());
    let raw_c = Tensor::fused(Fused::RotateDcos(false), &args, half.clone());
    let dc = reduce_grad_to(&raw_c, c.shape())?;
    let raw_s = Tensor::fused(Fused::RotateDsin(false), &args, half);
    let ds = reduce_grad_to(&raw_s, c.shape())?;
    let dx = Tensor::fused(Fused::RotateDx(false), &args, x.shape().clone());
    let mut out = one(dx);
    push_slot(&mut out, dc);
    push_slot(&mut out, ds);
    proof {
        assert(slots(out@) =~= seq![Some(dx@)] + seq![Some(dc@), Some(ds@)]);
    }
    Ok(out)
}

fn rotate_by_angle_grads(x: &Tensor, p: &Tensor, g: &Tensor) -> (r: Result<
    Vec<Option<Tensor>>,
    Error,
>)
    ensures
        same_slots(r, rotate_by_angle_pullback(x@, p@, g@)),
{
    let args = list4(g, x, p, p);
    let raw = Tensor::fused(Fused::RotateDcos(true), &args, half_shape(x.shape()));
    let dp = reduce_grad_to(&raw, p.shape())?;
    let dx = Tensor::fused(Fused::RotateDx(true), &args, x.shape().clone());
    Ok(two(Some(dx), Some(dp)))
}

fn conv_grads(x: &Tensor, h: &Option<Tensor>, w: &Tensor, b: &Option<Tensor>, g: &Tensor) -> (r: Result<
    Vec<Option<Tensor>>,
    Error,
>)
    ensures
        same_slots(r, conv_pullback(x@, opt(*h), w@, opt(*b), g@)),
{
    let args = conv_operands(Some(g), x, h, w, b);
    let hh: bool = h.is_some();
    let hb: bool = b.is_some();
    let dx = Tensor::fused(Fused::ConvDx(hh, hb), &args, x.shape().clone());
    let dw = Tensor::fused(Fused::ConvDweight(hh, hb), &args, w.shape().clone());
    let mut out = two(Some(dx), Some(dw));
    let ghost mut want = slots(out@);
    if let Some(t) = h {
        let dh = Tensor::fused(Fused::ConvDhistory(hh, hb), &args, t.shape().clone());
        push_slot(&mut out, dh);
        proof {
            assert(slots(out@) =~= want.push(Some(dh@)));
            want = slots(out@);
        }
    }
    if let Some(t) = b {
        let db = Tensor::fused(Fused::ConvDbias(hh, hb), &args, t.shape().clone());
        push_slot(&mut out, db);
        proof {
            assert(slots(out@) =~= want.push(Some(db@)));
        }
    }
    Ok(out)
}

fn conv_history_grads(x: &Tensor, h: &Option<Tensor>, w: &Tensor, g: &Tensor) -> (r: Result<
    Vec<Option<Tensor>>,
    Error,
>)
    ensures
        same_slots(r, conv_history_pullback(x@, opt(*h), w@, g@)),
{
    let args = conv_operands(Some(g), x, h, w, &None);
    let mut out = one(
        Tensor::fused(Fused::ConvHistoryDx(h.is_some()), &args, x.shape().clone()),
    );
    let ghost want = slots(out@);
    if let Some(t) = h {
        let dh = Tensor::fused(Fused::ConvHistoryDhistory(true), &args, t.shape().clone());
        push_slot(&mut out, dh);
        proof {
            assert(slots(out@) =~= want.push(Some(dh@)));
        }
    }
    Ok(out)
}

fn ssm_angle_grads(dt: &Tensor, theta: &Tensor, prev: bool, g: &Tensor) -> (r: Result<
    Vec<Option<Tensor>>,
    Error,
>)
    ensures
        same_slots(r, ssm_angle_pullback(dt@, theta@, prev, g@)),
{
    let args = list3(g, dt, theta);
    let raw = Tensor::fused(Fused::SsmAngleDdt(prev), &args, dt.shape().clone());
    let ddt = reduce_grad_to(&raw, dt.shape())?;
    let dtheta = Tensor::fused(Fused::SsmAngleDtheta(prev), &args, theta.shape().clone());
    let mut out = two(Some(ddt), Some(dtheta));
    let ghost want = slots(out@);
    if prev {
        let dp = Tensor::fused(Fused::SsmAngleDprev(prev), &args, theta.shape().clone());
        push_slot(&mut out, dp);
        proof {
            assert(slots(out@) =~= want.push(Some(dp@)));
        }
    }
    Ok(out)
}

fn ssm_state_grads(x0: &Tensor, x1: &Tensor, x2: &Tensor, s: &Tensor, g: &Tensor) -> (r: Result<
    Vec<Option<Tensor>>,
    Error,
>)
    ensures
        same_slots(r, ssm_state_pullback(x0@, x1@, x2@, s@, g@)),
{
    let mut args = list4(g, x0, x1, x2);
    let ghost before = tensor::values(args@);
    args.push(s.clone());
    proof {
        assert(tensor::values(args@) =~= before.push(s@));
        assert(tensor::values(args@) =~= seq![g@, x0@, x1@, x2@, s@]);
    }
    let d0 = Tensor::fused(Fused::SsmStateDx(0), &args, x0.shape().clone());
    let d1 = Tensor::fused(Fused::SsmStateDx(1), &args, x1.shape().clone());
    let d2 = Tensor::fused(Fused::SsmStateDx(2), &args, x2.shape().clone());
    let ds = Tensor::fused(Fused::SsmStateDscales, &args, s.shape().clone());
    let mut out = two(Some(d0), Some(d1));
    push_slot(&mut out, d2);
    push_slot(&mut out, ds);
    proof {
        assert(slots(out@) =~= seq![Some(d0@), Some(d1@), Some(d2@), Some(ds@)]);
    }
    Ok(out)
}

fn ssm_coefficients_grads(a: &Tensor, d: &Tensor, l: &Tensor, g: &Tensor) -> (r: Result<
    Vec<Option<Tensor>>,
    Error,
>)
    ensures
        same_slots(r, ssm_coefficients_pullback(a@, d@, l@, g@)),
{
    let args = list4(g, a, d, l);
    let raw_a = Tensor::fused(Fused::SsmCoefficientsDa, &args, d.shape().clone());
    let da = reduce_grad_to(&raw_a, a.shape())?;
    let raw_d = Tensor::fused(Fused::SsmCoefficientsDdt, &args, d.shape().clone());
    let dd = raw_d.reshape(d.shape())?;
    let raw_l = Tensor::fused(Fused::SsmCoefficientsDlambda, &args, d.shape().clone());
    let dl = raw_l.reshape(l.shape())?;
    let mut out = one(da);
    push_slot(&mut out, dd);
    push_slot(&mut out, dl);
    proof {
        assert(slots(out@) =~= seq![Some(da@)] + seq![Some(dd@), Some(dl@)]);
    }
    Ok(out)
}

fn ssd_band_grads(floor: Scalar, a: &Tensor, w: &Tensor, gv: &Tensor, g: &Tensor) -> (r: Result<
    Vec<Option<Tensor>>,
    Error,
>)
    ensures
        same_slots(r, ssd_band_pullback(floor, a@, w@, gv@, g@)),
{
    let args = list4(g, a, w, gv);
    let da = Tensor::fused(Fused::SsdBandDacum(floor), &args, a.shape().clone());
    let dw = Tensor::fused(Fused::SsdBandDw(floor), &args, w.shape().clone());
    let dg = Tensor::fused(Fused::SsdBandDg(floor), &args, gv.shape().clone());
    let mut out = two(Some(da), Some(dw));
    push_slot(&mut out, dg);
    proof {
        assert(slots(out@) =~= seq![Some(da@), Some(dw@), Some(dg@)]);
    }
    Ok(out)
}

fn append_tensor(list: &mut Vec<Tensor>, t: &Tensor)
    ensures
        tensor::values(final(list)@) == tensor::values(old(list)@).push(t@),
{
    let ghost before = tensor::values(list@);
    list.push(t.clone());
    proof {
        assert(tensor::values(list@) =~= before.push(t@));
    }
}

fn append_given(list: &mut Vec<Tensor>, t: &Option<Tensor>)
    ensures
        tensor::values(final(list)@) == with_optional(tensor::values(old(list)@), opt(*t)),
{
    if let Some(v) = t {
        append_tensor(list, v);
    }
}

/// The operands of a scan in order.
pub(crate) fn scan_inputs(o: &ScanOf<Tensor>) -> (r: Vec<Tensor>)
    ensures
        tensor::values(r@) == scan_args(scan_values(*o)),
{
    let mut out: Vec<Tensor> = Vec::new();
    append_tensor(&mut out, &o.x);
    append_tensor(&mut out, &o.b);
    append_tensor(&mut out, &o.c);
    append_tensor(&mut out, &o.dt);
    append_tensor(&mut out, &o.a_log);
    append_tensor(&mut out, &o.lambda);
    proof {
        let v = scan_values(*o);
        assert(tensor::values(out@) =~= seq![v.x, v.b, v.c, v.dt, v.a_log, v.lambda]);
    }
    append_given(&mut out, &o.theta);
    append_given(&mut out, &o.skip);
    append_given(&mut out, &o.state);
    append_given(&mut out, &o.angle);
    out
}

pub(crate) fn extras_of(o: &ScanOf<Tensor>) -> (r: Extras)
    ensures
        r == scan_extras(scan_values(*o)),
{
    Extras {
        theta: o.theta.is_some(),
        skip: o.skip.is_some(),
        state: o.state.is_some(),
        angle: o.angle.is_some(),
    }
}

fn scan_grads(n: u64, k: u8, o: &ScanOf<Tensor>, g: &Tensor) -> (r: Result<
    Vec<Option<Tensor>>,
    Error,
>)
    ensures
        same_slots(r, scan_pullback(n, k, scan_values(*o), g@)),
{
    let args = scan_inputs(o);
    let extras = extras_of(o);
    let mut all: Vec<Tensor> = Vec::new();
    append_tensor(&mut all, g);
    let ghost vs = tensor::values(args@);
    let mut i: usize = 0;
    proof {
        assert(tensor::values(all@) =~= seq![g@] + vs.take(0));
    }
    while i < args.len()
        invariant
            i <= args.len(),
            vs == tensor::values(args@),
            tensor::values(all@) == seq![g@] + vs.take(i as int),
        decreases args.len() - i,
    {
        append_tensor(&mut all, &args[i]);
        proof {
            assert(vs[i as int] == args@[i as int]@);
            assert(tensor::values(all@) =~= seq![g@] + vs.take(i as int + 1));
        }
        i += 1;
    }
    proof {
        assert(vs.take(args.len() as int) =~= vs);
    }
    let ghost want = scan_pullback(n, k, scan_values(*o), g@)->Ok_0;
    let mut out: Vec<Option<Tensor>> = Vec::new();
    let mut j: usize = 0;
    while j < args.len()
        invariant
            j <= args.len(),
            args.len() <= 10,
            vs == tensor::values(args@),
            vs == scan_args(scan_values(*o)),
            extras == scan_extras(scan_values(*o)),
            tensor::values(all@) == seq![g@] + vs,
            want == scan_pullback(n, k, scan_values(*o), g@)->Ok_0,
            slots(out@) == want.take(j as int),
        decreases args.len() - j,
    {
        let d = Tensor::fused(
            Fused::SsmScanGrad(n, k, extras, j as u8),
            &all,
            args[j].shape().clone(),
        );
        proof {
            assert(vs[j as int] == args@[j as int]@);
            assert(want[j as int] == Some(d@));
        }
        let ghost before = slots(out@);
        out.push(Some(d));
        proof {
            assert(slots(out@) =~= before.push(Some(d@)));
            assert(want.take(j as int + 1) =~= want.take(j as int).push(want[j as int]));
        }
        j += 1;
    }
    proof {
        assert(want.take(args.len() as int) =~= want);
    }
    Ok(out)
}

fn apply_fused(rule: &Rule, g: &Tensor) -> (r: Result<Vec<Option<Tensor>>, Error>)
    requires
        group(*rule) is Fused,
    ensures
        same_slots(r, fused_pullback(adjoint(*rule), g@)),
{
    proof {
        reveal(fused_pullback);
    }
    match rule {
        RuleOf::RmsNorm(x, w, s) => rms_norm_grads(x, w, s, g),
        RuleOf::Rotate(x, c, s) => rotate_grads(x, c, s, g),
        RuleOf::RotateByAngle(x, p) => rotate_by_angle_grads(x, p, g),
        RuleOf::Conv(x, h, w, b) => conv_grads(x, h, w, b, g),
        RuleOf::ConvHistory(x, h, w) => conv_history_grads(x, h, w, g),
        RuleOf::SsmAngle(dt, theta, prev) => ssm_angle_grads(dt, theta, *prev, g),
        RuleOf::SsmState(x0, x1, x2, s) => ssm_state_grads(x0, x1, x2, s, g),
        RuleOf::SsmCoefficients(a, d, l) => ssm_coefficients_grads(a, d, l, g),
        RuleOf::SsdBand(floor, a, w, gv) => ssd_band_grads(*floor, a, w, gv, g),
        RuleOf::SsmScan(n, k, o) => scan_grads(*n, *k, o, g),
        _ => Ok(Vec::new()),
    }
}

fn slot_tensor(want: bool, op: Fused, args: &Vec<Tensor>, like: &Shape, target: &Shape) -> (r:
    Result<Option<Tensor>, Error>)
    ensures
        match (r, slot_grad(want, op, tensor::values(args@), like@, target@)) {
            (Ok(x), Ok(y)) => opt(x) == y,
            (Err(e), Err(f)) => e@ == f,
            _ => false,
        },
{
    if want {
        let raw = Tensor::fused(op, args, like.clone());
        Ok(Some(reduce_grad_to(&raw, target)?))
    } else {
        Ok(None)
    }
}

fn push_opt(out: &mut Vec<Option<Tensor>>, t: Option<Tensor>)
    ensures
        slots(final(out)@) == slots(old(out)@).push(opt(t)),
{
    let ghost before = slots(out@);
    out.push(t);
    proof {
        assert(slots(out@) =~= before.push(opt(t)));
    }
}

fn density_grads(
    kind: u32,
    which: u32,
    w: Wants,
    x: &Tensor,
    a: &Tensor,
    b: &Tensor,
    c: &Tensor,
    g: &Tensor,
) -> (r: Result<Vec<Option<Tensor>>, Error>)
    ensures
        same_slots(r, density_pullback(kind, which, w, x@, a@, b@, c@, g@)),
{
    proof {
        reveal(density_pullback);
    }
    let mut args = list4(g, x, a, b);
    let ghost before = tensor::values(args@);
    args.push(c.clone());
    proof {
        assert(tensor::values(args@) =~= before.push(c@));
        assert(tensor::values(args@) =~= seq![g@, x@, a@, b@, c@]);
    }
    let gx = slot_tensor(w.x, Fused::DensityGrad(kind, which, 0), &args, x.shape(), x.shape())?;
    let ga = slot_tensor(w.a, Fused::DensityGrad(kind, which, 1), &args, x.shape(), a.shape())?;
    let gb = slot_tensor(w.b, Fused::DensityGrad(kind, which, 2), &args, x.shape(), b.shape())?;
    let gc = slot_tensor(w.c, Fused::DensityGrad(kind, which, 3), &args, x.shape(), c.shape())?;
    let mut out = two(gx, ga);
    push_opt(&mut out, gb);
    push_opt(&mut out, gc);
    proof {
        assert(slots(out@) =~= seq![opt(gx), opt(ga)] + seq![opt(gb), opt(gc)]);
    }
    Ok(out)
}

fn entropy_grads(kind: u32, w: Wants, a: &Tensor, b: &Tensor, c: &Tensor, g: &Tensor) -> (r: Result<
    Vec<Option<Tensor>>,
    Error,
>)
    ensures
        same_slots(r, entropy_pullback(kind, w, a@, b@, c@, g@)),
{
    proof {
        reveal(entropy_pullback);
    }
    let args = list4(g, a, b, c);
    let ga = slot_tensor(w.a, Fused::EntropyGrad(kind, 1), &args, g.shape(), a.shape())?;
    let gb = slot_tensor(w.b, Fused::EntropyGrad(kind, 2), &args, g.shape(), b.shape())?;
    let gc = slot_tensor(w.c, Fused::EntropyGrad(kind, 3), &args, g.shape(), c.shape())?;
    let mut out = two(ga, gb);
    push_opt(&mut out, gc);
    Ok(out)
}

fn draw_grads(
    kind: u32,
    batch: u64,
    seed: u64,
    w: Wants,
    a: &Tensor,
    b: &Tensor,
    c: &Tensor,
    g: &Tensor,
) -> (r: Result<Vec<Option<Tensor>>, Error>)
    ensures
        same_slots(r, draw_pullback(kind, batch, seed, w, a@, b@, c@, g@)),
{
    proof {
        reveal(draw_pullback);
    }
    let args = list4(g, a, b, c);
    let ga = slot_tensor(w.a, Fused::DrawGrad(kind, batch, seed, 1), &args, g.shape(), a.shape())?;
    let gb = slot_tensor(w.b, Fused::DrawGrad(kind, batch, seed, 2), &args, g.shape(), b.shape())?;
    let gc = slot_tensor(w.c, Fused::DrawGrad(kind, batch, seed, 3), &args, g.shape(), c.shape())?;
    let mut out = two(ga, gb);
    push_opt(&mut out, gc);
    Ok(out)
}

fn mvn_grads(
    wv: bool,
    wl: bool,
    wt: bool,
    x: &Tensor,
    loc: &Tensor,
    tril: &Tensor,
    g: &Tensor,
) -> (r: Result<Vec<Option<Tensor>>, Error>)
    ensures
        same_slots(r, mvn_pullback(wv, wl, wt, x@, loc@, tril@, g@)),
{
    proof {
        reveal(mvn_pullback);
    }
    let args = list4(loc, tril, x, g);
    let mut dims = crate::shape::copied(x.dims());
    let rank: usize = dims.len();
    if rank > 0 {
        let last: usize = dims[rank - 1];
        dims.push(last);
    }
    let wide = Shape::new(dims);
    let gv = slot_tensor(wv, Fused::MvnGrad(0), &args, x.shape(), x.shape())?;
    let gl = slot_tensor(wl, Fused::MvnGrad(1), &args, x.shape(), loc.shape())?;
    let gt = slot_tensor(wt, Fused::MvnGrad(2), &args, &wide, tril.shape())?;
    let mut out = two(gv, gl);
    push_opt(&mut out, gt);
    Ok(out)
}

fn list2(a: &Tensor, b: &Tensor) -> (r: Vec<Tensor>)
    ensures
        tensor::values(r@) == seq![a@, b@],
{
    let mut out: Vec<Tensor> = Vec::new();
    out.push(a.clone());
    out.push(b.clone());
    proof {
        assert(tensor::values(out@) =~= seq![a@, b@]);
    }
    out
}

fn row_tensor(op: Fused, args: &Vec<Tensor>, like: &Shape) -> (r: Result<Tensor, Error>)
    ensures
        crate::error::agrees(r, row_grad(op, tensor::values(args@), like@)),
{
    proof {
        reveal(row_grad);
    }
    let raw = Tensor::fused(op, args, like.clone());
    reduce_grad_to(&raw, like)
}

fn dirichlet_grads(wv: bool, wc: bool, x: &Tensor, conc: &Tensor, g: &Tensor) -> (r: Result<
    Vec<Option<Tensor>>,
    Error,
>)
    ensures
        same_slots(r, dirichlet_pullback(wv, wc, x@, conc@, g@)),
{
    proof {
        reveal(dirichlet_pullback);
    }
    let args = list3(conc, x, g);
    let gv = slot_tensor(wv, Fused::DirichletGrad(0), &args, x.shape(), x.shape())?;
    let gc = slot_tensor(wc, Fused::DirichletGrad(1), &args, x.shape(), conc.shape())?;
    Ok(two(gv, gc))
}

fn apply_kernel(rule: &Rule, g: &Tensor) -> (r: Result<Vec<Option<Tensor>>, Error>)
    requires
        group(*rule) is Kernel,
    ensures
        same_slots(r, kernel_pullback(adjoint(*rule), g@)),
{
    proof {
        reveal(kernel_pullback);
    }
    match rule {
        RuleOf::Density(k, n, w, x, a, b, c) => density_grads(*k, *n, *w, x, a, b, c, g),
        RuleOf::Entropy(k, w, a, b, c) => entropy_grads(*k, *w, a, b, c, g),
        RuleOf::Draw(k, n, s, w, a, b, c) => draw_grads(*k, *n, *s, *w, a, b, c, g),
        RuleOf::RowLogProb(l, ids) => Ok(
            one(
                row_tensor(
                    Fused::RowLogProbGrad,
                    &list3(l, &ids.operand(), g),
                    l.shape(),
                )?,
            ),
        ),
        RuleOf::RowEntropy(l) => Ok(
            one(row_tensor(Fused::RowEntropyGrad, &list2(l, g), l.shape())?),
        ),
        RuleOf::MvnLogProb(wv, wl, wt, x, loc, tril) => mvn_grads(*wv, *wl, *wt, x, loc, tril, g),
        RuleOf::DirichletLogProb(wv, wc, x, conc) => dirichlet_grads(*wv, *wc, x, conc, g),
        RuleOf::DirichletEntropy(conc) => Ok(
            one(row_tensor(Fused::DirichletEntropyGrad, &list2(conc, g), conc.shape())?),
        ),
        _ => Ok(Vec::new()),
    }
}

/// Apply a rule to the gradient flowing into its output.
pub fn apply(rule: &Rule, g: &Tensor, bands: &Vec<Option<Tensor>>) -> (r: Result<
    Vec<Option<Tensor>>,
    Error,
>)
    ensures
        same_slots(r, pullback(adjoint(*rule), g@, slots(bands@))),
{
    match rule {
        RuleOf::Leaf | RuleOf::Identity | RuleOf::Negate | RuleOf::Scale(_) | RuleOf::Pointwise(
            _,
            _,
        ) | RuleOf::Add(_, _, _, _) | RuleOf::Sub(_, _, _, _) | RuleOf::Mul(_, _, _, _)
        | RuleOf::Div(_, _, _, _) | RuleOf::Maximum(_, _) | RuleOf::MatMul(_, _, _, _)
        | RuleOf::MatMulNt(_, _, _, _) => apply_arithmetic(rule, g),
        RuleOf::RmsNorm(_, _, _) | RuleOf::Rotate(_, _, _) | RuleOf::RotateByAngle(_, _)
        | RuleOf::Conv(_, _, _, _) | RuleOf::ConvHistory(_, _, _) | RuleOf::SsmAngle(_, _, _)
        | RuleOf::SsmState(_, _, _, _) | RuleOf::SsmCoefficients(_, _, _) | RuleOf::SsdBand(
            _,
            _,
            _,
            _,
        ) | RuleOf::SsmScan(_, _, _) => apply_fused(rule, g),
        RuleOf::Density(_, _, _, _, _, _, _) | RuleOf::Entropy(_, _, _, _, _) | RuleOf::Draw(
            _,
            _,
            _,
            _,
            _,
            _,
            _,
        ) | RuleOf::RowLogProb(_, _) | RuleOf::RowEntropy(_) | RuleOf::MvnLogProb(_, _, _, _, _, _)
        | RuleOf::DirichletLogProb(_, _, _, _) | RuleOf::DirichletEntropy(_) => apply_kernel(rule, g),
        _ => apply_movement(rule, g, bands),
    }
}

} // verus!
