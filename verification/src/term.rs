//! Terms: what a tensor is made of.
//!
//! A term names the primitive that computes a value and the terms it reads. Terms
//! share their operands, so describing a computation costs one node per primitive
//! however often an intermediate is used.

use std::sync::Arc;

use vstd::prelude::*;

verus! {

/// A scalar operand.
#[derive(Clone, Copy, PartialEq, Eq, Structural, Debug)]
pub enum Scalar {
    /// A whole number.
    Int(i64),
    /// A quotient of two whole numbers.
    Frac(i64, u64),
    /// A single-precision number given by its bit pattern.
    Bits(u32),
    /// One less than a single-precision number given by its bit pattern.
    BitsLessOne(u32),
    /// The reciprocal of a single-precision number given by its bit pattern.
    BitsInverse(u32),
    /// One less than the reciprocal of a single-precision number given by its bit
    /// pattern.
    BitsInverseLessOne(u32),
    /// Half a single-precision number given by its bit pattern.
    BitsHalved(u32),
    /// `ln(p / (1 - p))` for a single-precision `p` given by its bit pattern.
    BitsLogit(u32),
    /// `1 / sqrt(n)`.
    InvSqrt(u64),
    /// `2 / sqrt(pi)`.
    TwoInvSqrtPi,
    /// Pi.
    Pi,
    /// The Euler-Mascheroni constant.
    EulerGamma,
    /// The logarithm of two.
    LnTwo,
    /// Minus one, less the Euler-Mascheroni constant.
    MinusOneLessEulerGamma,
    /// Ten to the thirty-eighth, whose square overflows to infinity.
    HalfOverflow,
    /// The logarithm of the magnitude of a single-precision number given by its bit
    /// pattern.
    BitsLnAbs(u32),
    /// `d (1 + ln(2 pi)) / 2`, the entropy of a standard normal over `d` dimensions.
    NormalEntropy(u64),
    /// `ln gamma(k) + (k - 1) ln t` for a whole `k` and a single-precision `t`.
    RelaxedScale(u64, u32),
    /// A count.
    Count(u64),
    /// Ten to the minus twentieth, the floor of a pivot.
    PivotFloor,
    /// Half the logarithm of two pi, times a whole number.
    HalfLnTwoPiTimes(u64),
    /// One, less a single-precision number given by its bit pattern.
    OneLessBits(u32),
    /// A single-precision number given by its bit pattern, over a whole number.
    BitsOver(u32, u64),
    /// The logarithm of a single-precision number given by its bit pattern.
    BitsLn(u32),
    /// `g sqrt(k / (a + b))` for a single-precision `g` and whole `k`, `a` and `b`.
    BitsTimesRoot(u32, u64, u64, u64),
}

/// Elementwise functions of one operand.
#[derive(Clone, Copy, PartialEq, Eq, Structural, Debug)]
pub enum Unary {
    Neg,
    Exp,
    Log,
    Sqrt,
    Rsqrt,
    Recip,
    Abs,
    Sign,
    Tanh,
    Sigmoid,
    Sin,
    Cos,
    Erf,
    Relu,
    Round,
    Silu,
    Softplus,
    AddScalar(Scalar),
    MulScalar(Scalar),
    RsubScalar(Scalar),
    PowfScalar(Scalar),
    Clamp(Scalar, Scalar),
    GtScalar(Scalar),
    LtScalar(Scalar),
    EqScalar(Scalar),
    WrapTo(Scalar),
    Special(Special),
}

/// Special functions, each evaluated in one pass.
#[derive(Clone, Copy, PartialEq, Eq, Structural, Debug)]
pub enum Special {
    /// The logarithm of the gamma function.
    Lgamma,
    Digamma,
    Trigamma,
    Erf,
    Erfc,
    Erfinv,
    Log1p,
    Expm1,
    /// The logarithm of the modified Bessel function of order zero.
    LogI0,
    LogI1,
    /// The ratio of the modified Bessel functions of orders one and zero.
    BesselRatio,
    /// The standard normal distribution function.
    Ndtr,
    /// The standard normal quantile.
    Ndtri,
    LogSigmoid,
    /// `ln(1 - exp(x))`.
    Log1mexp,
    ErfinvGrad,
    NdtriGrad,
    /// The standard normal density.
    Ndpdf,
    ErfGrad,
}

/// Elementwise functions of two operands, broadcast against each other.
#[derive(Clone, Copy, PartialEq, Eq, Structural, Debug)]
pub enum Binary {
    Add,
    Sub,
    Mul,
    Div,
    Maximum,
    /// One where the left operand is larger, zero elsewhere.
    Greater,
    /// The right operand where the left one is not zero, zero elsewhere.
    Gated,
    /// The adjoint of `Silu`: gradient, then input.
    SiluBackward,
    /// The adjoint of `Softplus`: gradient, then input.
    SoftplusBackward,
}

/// Batched matrix products, by which operand is read transposed.
#[derive(Clone, Copy, PartialEq, Eq, Structural, Debug)]
pub enum Product {
    /// `A B`.
    Plain,
    /// `A` times `B` transposed.
    RightTransposed,
    /// `A` transposed times `B`.
    LeftTransposed,
}

/// Reductions along one axis, which stays with extent one.
#[derive(Clone, Copy, PartialEq, Eq, Structural, Debug)]
pub enum Reduce {
    Sum,
    Mean,
    Max,
    Min,
}

/// Running sums along one axis.
#[derive(Clone, Copy, PartialEq, Eq, Structural, Debug)]
pub enum Scan {
    /// Everything up to and including the position.
    Inclusive,
    /// Everything before the position.
    Exclusive,
    /// Everything from the position on.
    Reverse,
    /// Everything after the position.
    ReverseExclusive,
}

/// Kernels of several operands that are evaluated in one pass.
#[derive(Clone, Copy, PartialEq, Eq, Structural, Debug)]
pub enum Fused {
    /// Root-mean-square normalisation: input, then an optional gain.
    RmsNorm(Scalar),
    /// The reciprocal root mean square of each row.
    RmsScale(Scalar),
    /// Input adjoint: gradient, input, optional gain, scale.
    RmsNormDx,
    /// Gain adjoint: gradient, input, scale.
    RmsNormDw,
    /// Rotation of the two halves of the trailing axis; the flag says that the two
    /// tables hold the angle itself.
    Rotate(bool),
    RotateDx(bool),
    RotateDcos(bool),
    RotateDsin(bool),
    /// Depthwise causal convolution; the flags say whether a history and a bias are
    /// among the operands: input, history, weight, bias.
    Conv(bool, bool),
    ConvDx(bool, bool),
    ConvDhistory(bool, bool),
    ConvDweight(bool, bool),
    ConvDbias(bool, bool),
    /// The trailing positions a convolution hands the next window.
    ConvHistory(bool),
    ConvHistoryDx(bool),
    ConvHistoryDhistory(bool),
    /// One step of the rotating frame; the flag says that a previous angle is given.
    SsmAngle(bool),
    SsmAngleDdt(bool),
    SsmAngleDtheta(bool),
    SsmAngleDprev(bool),
    /// Three states scaled per head and summed.
    SsmState,
    SsmStateDx(u8),
    SsmStateDscales,
    /// The per-head coefficients of one step.
    SsmCoefficients,
    SsmCoefficientsDa,
    SsmCoefficientsDdt,
    SsmCoefficientsDlambda,
    /// The intra-chunk band of the chunked scan.
    SsdBand(Scalar),
    SsdBandDacum(Scalar),
    SsdBandDw(Scalar),
    SsdBandDg(Scalar),
    /// A density, distribution function or quantile of a scalar family: value, then
    /// the three parameter slots. Family code, then which of the three.
    Density(u32, u32),
    /// The adjoint of `Density` for one slot: gradient, value, parameters.
    DensityGrad(u32, u32, u8),
    /// A mean, variance, mode or entropy of a scalar family.
    Summary(u32, u32),
    /// The adjoint of an entropy for one slot: gradient, parameters.
    EntropyGrad(u32, u8),
    /// Draws from a scalar family whose parameters tile every so many elements:
    /// family code, batch length, seed.
    Draw(u32, u64, u64),
    /// The path derivative of a draw for one slot: gradient, parameters.
    DrawGrad(u32, u64, u64, u8),
    /// The softmax of every row.
    RowProbs,
    /// The log-probability of one class per row: logits, classes.
    RowLogProb,
    /// Logits, classes, gradient.
    RowLogProbGrad,
    RowEntropy,
    /// Logits, gradient.
    RowEntropyGrad,
    /// One class per row, drawn with the logits multiplied by a scalar; the flag says
    /// that the most likely class is taken instead. Scalar, rows of parameters, seed.
    RowDraw(bool, Scalar, u64, u64),
    /// The log-probability of the class a `RowDraw` chooses.
    RowDrawScore(bool, Scalar, u64, u64),
    IdsToFloat,
    FloatToIds,
    /// A square identity matrix.
    Eye,
    /// A square matrix of ones on and below the diagonal, zero above it.
    Lower,
    /// The lower-triangular factor of every matrix.
    Cholesky,
    /// Location, factor, value.
    MvnLogProb,
    /// The adjoint for value, location or factor: location, factor, value, gradient.
    MvnGrad(u8),
    /// Location and factor of both distributions.
    MvnKl,
    /// Concentration, value.
    DirichletLogProb,
    /// The adjoint for value or concentration: concentration, value, gradient.
    DirichletGrad(u8),
    DirichletEntropy,
    DirichletEntropyGrad,
    /// Rows of parameters, seed.
    DirichletDraw(u64, u64),
    DirichletMoment(u32),
    GumbelNoise(u64),
    /// Trials, rows of parameters, seed.
    MultinomialDraw(u64, u64, u64),
    /// Trials.
    MultinomialLogProb(u64),
    /// Normal noise of a mean and a deviation: seed, then the number of the draw.
    Normal(Scalar, Scalar, u64, u64),
    /// Uniform noise between two bounds: seed, then the number of the draw.
    Uniform(Scalar, Scalar, u64, u64),
    /// Uniform noise between minus a bound and the bound.
    UniformWithin(Scalar, u64, u64),
    /// Zero with a single-precision probability, and the reciprocal of its complement
    /// otherwise: probability, seed.
    DropMask(u32, u64),
    /// Position times frequency for every position and pair of a head: single-precision
    /// base, head width.
    RotaryAngles(u32, u64),
    /// A large negative number where a key comes after its query, zero elsewhere:
    /// positions before the first query.
    CausalMask(u64),
    /// The state-space scan: input, input map, output map, step sizes, log decay, mixing
    /// coefficients, then angular speeds, skip weights, state and angle as far as they
    /// are given. Chunk length (none for a single step), which result (output, final
    /// state or final angle), and which optional operands are given.
    SsmScan(u64, u8, Extras),
    /// The adjoint of a scan result for one operand: gradient, then the operands.
    SsmScanGrad(u64, u8, Extras, u8),
}

/// Which optional operands a scan is given.
#[derive(Clone, Copy, PartialEq, Eq, Structural, Debug)]
pub struct Extras {
    /// Angular speeds.
    pub theta: bool,
    /// Skip weights.
    pub skip: bool,
    /// A state to resume from.
    pub state: bool,
    /// The angle of the state to resume from.
    pub angle: bool,
}

/// An immutable list of extents or axes inside a term.
pub enum Dims {
    Nil,
    Cons(usize, Arc<Dims>),
}

/// The list that holds the entries of `s` in order.
pub open spec fn dims(s: Seq<usize>) -> Dims
    decreases s.len(),
{
    if s.len() == 0 {
        Dims::Nil
    } else {
        Dims::Cons(s[0], Arc::new(dims(s.drop_first())))
    }
}

/// The entries of a list in order.
pub open spec fn entries(d: Dims) -> Seq<usize>
    decreases d,
{
    match d {
        Dims::Nil => Seq::empty(),
        Dims::Cons(n, rest) => seq![n] + entries(*rest),
    }
}

/// A list holds exactly the entries it was made from.
pub proof fn law_dims_entries(s: Seq<usize>)
    ensures
        entries(dims(s)) == s,
    decreases s.len(),
{
    if s.len() > 0 {
        law_dims_entries(s.drop_first());
        assert(seq![s[0]] + s.drop_first() =~= s);
    } else {
        assert(s =~= Seq::<usize>::empty());
    }
}

/// The list inside a term that holds the entries of `list`.
pub fn dims_of(list: &Vec<usize>) -> (r: Dims)
    ensures
        r == dims(list@),
{
    let mut out = Dims::Nil;
    let mut i: usize = list.len();
    proof {
        assert(list@.skip(list.len() as int) =~= Seq::<usize>::empty());
    }
    while i > 0
        invariant
            i <= list.len(),
            out == dims(list@.skip(i as int)),
        decreases i,
    {
        i -= 1;
        proof {
            assert(list@.skip(i as int).drop_first() =~= list@.skip(i as int + 1));
        }
        out = Dims::Cons(list[i], Arc::new(out));
    }
    proof {
        assert(list@.skip(0) =~= list@);
    }
    out
}

impl Dims {
    /// The entries in order.
    pub fn to_vec(&self) -> (r: Vec<usize>)
        ensures
            r@ == entries(*self),
    {
        let mut out: Vec<usize> = Vec::new();
        self.extend_into(&mut out);
        proof {
            assert(out@ =~= entries(*self));
        }
        out
    }

    fn extend_into(&self, out: &mut Vec<usize>)
        ensures
            final(out)@ == old(out)@ + entries(*self),
        decreases *self,
    {
        let ghost before = out@;
        match self {
            Dims::Nil => {
                proof {
                    assert(out@ =~= before + entries(*self));
                }
            },
            Dims::Cons(n, rest) => {
                out.push(*n);
                rest.extend_into(out);
                proof {
                    assert(out@ =~= before + entries(*self));
                }
            },
        }
    }
}

/// A list of terms.
pub enum Terms {
    Nil,
    Cons(Arc<Term>, Arc<Terms>),
}

/// What computes a value.
pub enum Term {
    /// A tensor the executor already holds, by its handle.
    Input(u64),
    /// Integer ids the executor already holds, by their handle.
    Ids(u64),
    /// A scalar filled into every element of a shape.
    Fill(Scalar, Dims),
    /// A buffer of a shape whose contents nobody reads.
    Empty(Dims),
    Unary(Unary, Arc<Term>),
    Binary(Binary, Arc<Term>, Arc<Term>),
    Product(Product, Arc<Term>, Arc<Term>),
    Reduce(Reduce, usize, Arc<Term>),
    /// The sum of every element.
    SumAll(Arc<Term>),
    Scan(Scan, usize, Arc<Term>),
    Reshape(Dims, Arc<Term>),
    Expand(Dims, Arc<Term>),
    /// Axis `i` of the result is axis `order[i]` of the operand.
    Permute(Dims, Arc<Term>),
    Flip(usize, Arc<Term>),
    /// Axis, start and length.
    Slice(usize, usize, usize, Arc<Term>),
    /// A zero buffer of a shape with the operand written at a start along an axis.
    Unslice(Dims, usize, usize, Arc<Term>),
    Cat(usize, Arc<Terms>),
    /// For each row, the element an id names.
    TakeAlongLast(Arc<Term>, Arc<Term>),
    /// For each id, a row of the given width with a single one.
    OneHot(usize, Arc<Term>),
    /// Rows of a table, by id.
    GatherRows(Arc<Term>, Arc<Term>),
    /// Rows added into a table of the given height, by id.
    ScatterAddRows(usize, Arc<Term>, Arc<Term>),
    /// A kernel of several operands, with the shape of its result.
    Fused(Fused, Dims, Arc<Terms>),
}

pub open spec fn unary_term(op: Unary, a: Term) -> Term {
    Term::Unary(op, Arc::new(a))
}

pub open spec fn binary_term(op: Binary, a: Term, b: Term) -> Term {
    Term::Binary(op, Arc::new(a), Arc::new(b))
}

/// A list of terms holding the entries of `s` in order.
pub open spec fn terms(s: Seq<Term>) -> Terms
    decreases s.len(),
{
    if s.len() == 0 {
        Terms::Nil
    } else {
        Terms::Cons(Arc::new(s[0]), Arc::new(terms(s.drop_first())))
    }
}

pub open spec fn fused_term(op: Fused, shape: Seq<usize>, args: Seq<Term>) -> Term {
    Term::Fused(op, dims(shape), Arc::new(terms(args)))
}

/// The terms of a list of shared terms.
pub open spec fn plain(s: Seq<Arc<Term>>) -> Seq<Term> {
    s.map_values(|t: Arc<Term>| *t)
}

/// The list that holds shared terms in order.
pub fn terms_of(list: &Vec<Arc<Term>>) -> (r: Terms)
    ensures
        r == terms(plain(list@)),
{
    let mut out = Terms::Nil;
    let mut i: usize = list.len();
    proof {
        assert(plain(list@).skip(list.len() as int) =~= Seq::<Term>::empty());
    }
    while i > 0
        invariant
            i <= list.len(),
            out == terms(plain(list@).skip(i as int)),
        decreases i,
    {
        i -= 1;
        proof {
            assert(plain(list@).skip(i as int).drop_first() =~= plain(list@).skip(i as int + 1));
        }
        out = Terms::Cons(list[i].clone(), Arc::new(out));
    }
    proof {
        assert(plain(list@).skip(0) =~= plain(list@));
    }
    out
}

} // verus!
