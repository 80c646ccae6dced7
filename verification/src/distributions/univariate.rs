//! The scalar families: what each of them offers, and how their kernels address
//! parameters, elements and random streams.

use vstd::prelude::*;

use super::rng;
use crate::shape;

verus! {

/// Which distribution a kernel is specialised to. The parameters of each family are
/// listed in the order of its slots.
#[derive(Debug, Clone, Copy, PartialEq, Eq, Structural)]
pub enum Kind {
    /// The Gaussian: loc, scale.
    Normal,
    /// Flat on `[low, high)`: low, high.
    Uniform,
    /// The waiting time of a Poisson process: rate.
    Exponential,
    /// Two exponential tails back to back: loc, scale.
    Laplace,
    /// The ratio of two standard normals; no mean: loc, scale.
    Cauchy,
    /// The limit of a maximum: loc, scale.
    Gumbel,
    /// The absolute value of a centred Gaussian: scale.
    HalfNormal,
    /// The absolute value of a centred Cauchy: scale.
    HalfCauchy,
    /// A Gaussian in the log: loc, scale.
    LogNormal,
    /// A power-law tail above a scale: scale, alpha.
    Pareto,
    /// A stretched exponential: scale, concentration.
    Weibull,
    /// A Beta-shaped density with a closed-form quantile: concentration1, concentration0.
    Kumaraswamy,
    /// The Gamma: concentration, rate.
    Gamma,
    /// The reciprocal of a Gamma: concentration, rate.
    InverseGamma,
    /// The Beta: concentration1, concentration0.
    Beta,
    /// Student's t: df, loc, scale.
    StudentT,
    /// The ratio of two scaled chi-squares: df1, df2.
    FisherSnedecor,
    /// The circular analogue of a Gaussian: loc, concentration.
    VonMises,
    /// A continuous relaxation of a Bernoulli: logits.
    ContinuousBernoulli,
    /// A single coin flip: logits.
    Bernoulli,
    /// Failures before the first success: logits.
    Geometric,
    /// Counts from a Poisson process: rate.
    Poisson,
    /// Successes in a fixed number of trials: total_count, logits.
    Binomial,
    /// Failures before a fixed number of successes: total_count, logits.
    NegativeBinomial,
    /// The pre-sigmoid relaxation of a single bit: temperature, logits.
    LogitRelaxedBernoulli,
    /// `LogitRelaxedBernoulli` pushed through a sigmoid: temperature, logits.
    RelaxedBernoulli,
}

/// Which of the value-taking operations a pointwise kernel performs: the log-density.
pub const LOG_PROB: u32 = 0;

/// The cumulative distribution function.
pub const CDF: u32 = 1;

/// The quantile function.
pub const ICDF: u32 = 2;

/// Which summary a parameter kernel returns: the mean.
pub const MEAN: u32 = 0;

/// The variance.
pub const VARIANCE: u32 = 1;

/// The mode.
pub const MODE: u32 = 2;

/// The entropy.
pub const ENTROPY: u32 = 3;

/// Streams per sub-draw: the second of two independent draws starts this many
/// streams after the first.
pub const SUB_DRAW: u32 = 64;

/// The upper bound on rejection attempts.
pub const MAX_TRIES: u32 = 60;

/// Elements one unit of a pointwise kernel handles.
pub const POINTWISE_GROUP: usize = 4;

impl Kind {
    /// The code the kernels switch on.
    pub open spec fn code_of(self) -> u32 {
        match self {
            Kind::Normal => 0,
            Kind::Uniform => 1,
            Kind::Exponential => 2,
            Kind::Laplace => 3,
            Kind::Cauchy => 4,
            Kind::Gumbel => 5,
            Kind::HalfNormal => 6,
            Kind::HalfCauchy => 7,
            Kind::LogNormal => 8,
            Kind::Pareto => 9,
            Kind::Weibull => 10,
            Kind::Kumaraswamy => 11,
            Kind::Gamma => 12,
            Kind::InverseGamma => 13,
            Kind::Beta => 14,
            Kind::StudentT => 15,
            Kind::FisherSnedecor => 16,
            Kind::VonMises => 17,
            Kind::ContinuousBernoulli => 18,
            Kind::Bernoulli => 19,
            Kind::Geometric => 20,
            Kind::Poisson => 21,
            Kind::Binomial => 22,
            Kind::NegativeBinomial => 23,
            Kind::LogitRelaxedBernoulli => 24,
            Kind::RelaxedBernoulli => 25,
        }
    }

    /// The family's name.
    pub open spec fn name_of(self) -> Seq<char> {
        match self {
            Kind::Normal => "Normal"@,
            Kind::Uniform => "Uniform"@,
            Kind::Exponential => "Exponential"@,
            Kind::Laplace => "Laplace"@,
            Kind::Cauchy => "Cauchy"@,
            Kind::Gumbel => "Gumbel"@,
            Kind::HalfNormal => "HalfNormal"@,
            Kind::HalfCauchy => "HalfCauchy"@,
            Kind::LogNormal => "LogNormal"@,
            Kind::Pareto => "Pareto"@,
            Kind::Weibull => "Weibull"@,
            Kind::Kumaraswamy => "Kumaraswamy"@,
            Kind::Gamma => "Gamma"@,
            Kind::InverseGamma => "InverseGamma"@,
            Kind::Beta => "Beta"@,
            Kind::StudentT => "StudentT"@,
            Kind::FisherSnedecor => "FisherSnedecor"@,
            Kind::VonMises => "VonMises"@,
            Kind::ContinuousBernoulli => "ContinuousBernoulli"@,
            Kind::Bernoulli => "Bernoulli"@,
            Kind::Geometric => "Geometric"@,
            Kind::Poisson => "Poisson"@,
            Kind::Binomial => "Binomial"@,
            Kind::NegativeBinomial => "NegativeBinomial"@,
            Kind::LogitRelaxedBernoulli => "LogitRelaxedBernoulli"@,
            Kind::RelaxedBernoulli => "RelaxedBernoulli"@,
        }
    }

    /// How many of the three parameter slots the family reads.
    pub open spec fn arity_of(self) -> usize {
        if self is Exponential || self is HalfNormal || self is HalfCauchy || self is ContinuousBernoulli || self is Bernoulli || self is Geometric || self is Poisson {
            1
        } else if self is StudentT {
            3
        } else {
            2
        }
    }

    /// Whether the family is one of those with an elementary quantile that a draw
    /// simply inverts.
    pub open spec fn inverts(self) -> bool {
        self.code_of() <= Kind::Kumaraswamy.code_of()
    }

    pub open spec fn is_reparameterised(self) -> bool {
        self.inverts() || self is LogitRelaxedBernoulli || self is RelaxedBernoulli
    }

    pub open spec fn cdf_exists(self) -> bool {
        !(self is Beta || self is StudentT || self is FisherSnedecor || self is VonMises || self is Binomial || self is NegativeBinomial || self is LogitRelaxedBernoulli || self is RelaxedBernoulli)
    }

    pub open spec fn icdf_exists(self) -> bool {
        self.inverts() || self is ContinuousBernoulli || self is Bernoulli || self is Geometric
    }

    pub open spec fn entropy_exists(self) -> bool {
        !(self is FisherSnedecor || self is ContinuousBernoulli || self is Poisson || self is Binomial || self is NegativeBinomial || self is LogitRelaxedBernoulli || self is RelaxedBernoulli)
    }

    pub open spec fn is_lane_sampled(self) -> bool {
        self.inverts() || self is ContinuousBernoulli || self is Bernoulli || self is Geometric || self is LogitRelaxedBernoulli || self is RelaxedBernoulli
    }

    /// The code the kernels switch on.
    pub fn code(self) -> (r: u32)
        ensures
            r == self.code_of(),
    {
        match self {
            Kind::Normal => 0,
            Kind::Uniform => 1,
            Kind::Exponential => 2,
            Kind::Laplace => 3,
            Kind::Cauchy => 4,
            Kind::Gumbel => 5,
            Kind::HalfNormal => 6,
            Kind::HalfCauchy => 7,
            Kind::LogNormal => 8,
            Kind::Pareto => 9,
            Kind::Weibull => 10,
            Kind::Kumaraswamy => 11,
            Kind::Gamma => 12,
            Kind::InverseGamma => 13,
            Kind::Beta => 14,
            Kind::StudentT => 15,
            Kind::FisherSnedecor => 16,
            Kind::VonMises => 17,
            Kind::ContinuousBernoulli => 18,
            Kind::Bernoulli => 19,
            Kind::Geometric => 20,
            Kind::Poisson => 21,
            Kind::Binomial => 22,
            Kind::NegativeBinomial => 23,
            Kind::LogitRelaxedBernoulli => 24,
            Kind::RelaxedBernoulli => 25,
        }
    }

    /// The family's name.
    pub fn name(self) -> (r: &'static str)
        ensures
            r@ == self.name_of(),
    {
        match self {
            Kind::Normal => "Normal",
            Kind::Uniform => "Uniform",
            Kind::Exponential => "Exponential",
            Kind::Laplace => "Laplace",
            Kind::Cauchy => "Cauchy",
            Kind::Gumbel => "Gumbel",
            Kind::HalfNormal => "HalfNormal",
            Kind::HalfCauchy => "HalfCauchy",
            Kind::LogNormal => "LogNormal",
            Kind::Pareto => "Pareto",
            Kind::Weibull => "Weibull",
            Kind::Kumaraswamy => "Kumaraswamy",
            Kind::Gamma => "Gamma",
            Kind::InverseGamma => "InverseGamma",
            Kind::Beta => "Beta",
            Kind::StudentT => "StudentT",
            Kind::FisherSnedecor => "FisherSnedecor",
            Kind::VonMises => "VonMises",
            Kind::ContinuousBernoulli => "ContinuousBernoulli",
            Kind::Bernoulli => "Bernoulli",
            Kind::Geometric => "Geometric",
            Kind::Poisson => "Poisson",
            Kind::Binomial => "Binomial",
            Kind::NegativeBinomial => "NegativeBinomial",
            Kind::LogitRelaxedBernoulli => "LogitRelaxedBernoulli",
            Kind::RelaxedBernoulli => "RelaxedBernoulli",
        }
    }

    /// How many of the three parameter slots this distribution reads.
    pub fn arity(self) -> (r: usize)
        ensures
            r == self.arity_of(),
            1 <= r <= 3,
    {
        match self {
            Kind::Exponential | Kind::HalfNormal | Kind::HalfCauchy | Kind::ContinuousBernoulli | Kind::Bernoulli | Kind::Geometric | Kind::Poisson => 1,
            Kind::StudentT => 3,
            _ => 2,
        }
    }

    /// Whether a draw from this distribution is a differentiable function of its
    /// parameters: true exactly when the sampler transforms a draw that does not
    /// itself depend on the parameters.
    pub fn reparameterised(self) -> (r: bool)
        ensures
            r == self.is_reparameterised(),
    {
        match self {
            Kind::Normal | Kind::Uniform | Kind::Exponential | Kind::Laplace | Kind::Cauchy | Kind::Gumbel | Kind::HalfNormal | Kind::HalfCauchy | Kind::LogNormal | Kind::Pareto | Kind::Weibull | Kind::Kumaraswamy | Kind::LogitRelaxedBernoulli | Kind::RelaxedBernoulli => true,
            _ => false,
        }
    }

    /// Whether the distribution function has a closed form for this kind.
    pub fn has_cdf(self) -> (r: bool)
        ensures
            r == self.cdf_exists(),
    {
        match self {
            Kind::Beta | Kind::StudentT | Kind::FisherSnedecor | Kind::VonMises | Kind::Binomial | Kind::NegativeBinomial | Kind::LogitRelaxedBernoulli | Kind::RelaxedBernoulli => false,
            _ => true,
        }
    }

    /// Whether the quantile has a closed form for this kind.
    pub fn has_icdf(self) -> (r: bool)
        ensures
            r == self.icdf_exists(),
    {
        match self {
            Kind::Normal | Kind::Uniform | Kind::Exponential | Kind::Laplace | Kind::Cauchy | Kind::Gumbel | Kind::HalfNormal | Kind::HalfCauchy | Kind::LogNormal | Kind::Pareto | Kind::Weibull | Kind::Kumaraswamy | Kind::ContinuousBernoulli | Kind::Bernoulli | Kind::Geometric => true,
            _ => false,
        }
    }

    /// [`Kind::has_icdf`] for a kind given by its code; `false` for a code that names
    /// no kind.
    pub fn code_has_icdf(code: u32) -> (r: bool)
        ensures
            r == (exists|k: Kind| #[trigger] k.code_of() == code && k.icdf_exists()),
    {
        let all = Kind::all();
        let mut i: usize = 0;
        while i < all.len()
            invariant
                i <= all.len(),
                all@.len() == 26,
                forall|j: int| 0 <= j < 26 ==> (#[trigger] all@[j]).code_of() == j,
                code >= i,
            decreases all.len() - i,
        {
            if all[i].code() == code {
                proof {
                    if exists|k: Kind| #[trigger] k.code_of() == code && k.icdf_exists() {
                        let k = choose|k: Kind| #[trigger] k.code_of() == code && k.icdf_exists();
                        law_codes_name_kinds(k, all@[i as int]);
                    }
                }
                return all[i].has_icdf();
            }
            i += 1;
        }
        false
    }

    /// Whether the entropy has a closed form for this kind.
    pub fn has_entropy(self) -> (r: bool)
        ensures
            r == self.entropy_exists(),
    {
        match self {
            Kind::FisherSnedecor | Kind::ContinuousBernoulli | Kind::Poisson | Kind::Binomial | Kind::NegativeBinomial | Kind::LogitRelaxedBernoulli | Kind::RelaxedBernoulli => false,
            _ => true,
        }
    }

    /// Whether the quantile of this kind is differentiable.
    pub fn has_icdf_grad(self) -> (r: bool)
        ensures
            r == self.inverts(),
    {
        self.code() <= Kind::Kumaraswamy.code() && self.has_icdf()
    }

    /// Whether one draw costs exactly one uniform, so four consecutive elements can
    /// share a single evaluation of the generator.
    pub fn lane_sampled(self) -> (r: bool)
        ensures
            r == self.is_lane_sampled(),
    {
        self.code() <= Kind::Kumaraswamy.code() || match self {
            Kind::ContinuousBernoulli | Kind::Bernoulli | Kind::Geometric | Kind::LogitRelaxedBernoulli | Kind::RelaxedBernoulli => true,
            _ => false,
        }
    }

    /// Every kind, in the order of the codes.
    pub fn all() -> (r: Vec<Kind>)
        ensures
            r@.len() == 26,
            forall|i: int| 0 <= i < 26 ==> (#[trigger] r@[i]).code_of() == i,
    {
        let mut out: Vec<Kind> = Vec::with_capacity(26);
        out.push(Kind::Normal);
        out.push(Kind::Uniform);
        out.push(Kind::Exponential);
        out.push(Kind::Laplace);
        out.push(Kind::Cauchy);
        out.push(Kind::Gumbel);
        out.push(Kind::HalfNormal);
        out.push(Kind::HalfCauchy);
        out.push(Kind::LogNormal);
        out.push(Kind::Pareto);
        out.push(Kind::Weibull);
        out.push(Kind::Kumaraswamy);
        out.push(Kind::Gamma);
        out.push(Kind::InverseGamma);
        out.push(Kind::Beta);
        out.push(Kind::StudentT);
        out.push(Kind::FisherSnedecor);
        out.push(Kind::VonMises);
        out.push(Kind::ContinuousBernoulli);
        out.push(Kind::Bernoulli);
        out.push(Kind::Geometric);
        out.push(Kind::Poisson);
        out.push(Kind::Binomial);
        out.push(Kind::NegativeBinomial);
        out.push(Kind::LogitRelaxedBernoulli);
        out.push(Kind::RelaxedBernoulli);
        out
    }
}

/// A code names at most one kind, and every code is below the number of kinds.
pub proof fn law_codes_name_kinds(a: Kind, b: Kind)
    ensures
        a.code_of() == b.code_of() ==> a == b,
        a.code_of() < 26,
{
}

/// Every family whose draw has a path derivative costs one uniform per draw, and every
/// family with a differentiable quantile is sampled through it.
pub proof fn law_reparameterised_families_are_lane_sampled(k: Kind)
    ensures
        k.is_reparameterised() ==> k.is_lane_sampled(),
        k.inverts() ==> k.icdf_exists() && k.is_reparameterised() && k.cdf_exists(),
{
}

/// Roughly how many element operations one lane of a kernel performs.
pub open spec fn work_of(kind: Kind) -> usize {
    if kind is Gamma || kind is InverseGamma || kind is Beta || kind is StudentT || kind is FisherSnedecor || kind is Poisson || kind is Binomial || kind is NegativeBinomial || kind is Kumaraswamy {
        200
    } else if kind is VonMises {
        120
    } else if kind is Normal || kind is LogNormal || kind is HalfNormal {
        40
    } else {
        16
    }
}

/// Roughly how many element operations one lane of a kernel for `kind` performs. The
/// number only picks a thread count.
pub fn work_per_element(kind: Kind) -> (r: usize)
    ensures
        r == work_of(kind),
{
    match kind {
        Kind::Gamma | Kind::InverseGamma | Kind::Beta | Kind::StudentT | Kind::FisherSnedecor | Kind::Poisson | Kind::Binomial | Kind::NegativeBinomial | Kind::Kumaraswamy => 200,
        Kind::VonMises => 120,
        Kind::Normal | Kind::LogNormal | Kind::HalfNormal => 40,
        _ => 16,
    }
}

/// How far a parameter's buffer advances per batch element: one where it is
/// batch-shaped, zero where it is a single broadcast value.
pub open spec fn stride_of(len: usize, batch: usize) -> usize {
    if len == batch && batch != 1 {
        1
    } else {
        0
    }
}

/// The stride a parameter of `len` values is bound with against a batch.
pub fn bound_stride(len: usize, batch: usize) -> (r: usize)
    ensures
        r == stride_of(len, batch),
{
    if len == batch && batch != 1 {
        1
    } else {
        0
    }
}

/// The place in a parameter's buffer that element `i` of a value reads: the parameter
/// broadcasts against the value, and a single one is read by every element. It is always
/// inside the buffer.
pub fn param_index(i: usize, value: &Vec<usize>, param: &Vec<usize>) -> (r: usize)
    requires
        i < shape::product(value@),
        shape::fits(param@),
        shape::product(param@) == 1 || (shape::compatible(param@, value@)
            && shape::broadcast_dims(param@, value@) == value@),
    ensures
        r == shape::place(i as int, value@, param@),
        r < shape::product(param@),
{
    shape::place_of(i, value, param)
}

/// A value with further leading axes tiles the batch: element `i` reads the parameters of
/// batch element `i` modulo the batch, and each row of draws reads all of them in turn.
pub proof fn law_leading_axes_tile_the_batch(i: int, lead: Seq<usize>, batch: Seq<usize>)
    requires
        i >= 0,
        shape::product(batch) > 0,
    ensures
        shape::place(i, lead + batch, batch) == i % (shape::product(batch) as int),
{
    shape::lemma_place_tiles(i, lead, batch);
}

/// The elements unit `unit` handles when every unit takes `group` consecutive ones:
/// the first, and one past the last, of `n` in all.
pub open spec fn unit_range(unit: int, group: int, n: int) -> (int, int) {
    let first = unit * group;
    let end = first + group;
    (
        if first < n {
            first
        } else {
            n
        },
        if end < n {
            end
        } else {
            n
        },
    )
}

/// The elements a unit handles.
pub fn unit_elements(unit: usize, group: usize, n: usize) -> (r: (usize, usize))
    requires
        unit * group + group <= usize::MAX,
    ensures
        (r.0 as int, r.1 as int) == unit_range(unit as int, group as int, n as int),
{
    proof {
        assert(unit * group >= 0) by (nonlinear_arith);
    }
    let first: usize = unit * group;
    let end: usize = first + group;
    (
        if first < n {
            first
        } else {
            n
        },
        if end < n {
            end
        } else {
            n
        },
    )
}

/// How many units cover `n` elements, `group` at a time.
pub open spec fn units_for(n: int, group: int) -> int {
    (n + group - 1) / group
}

/// Every element is handled by exactly one of the units that cover a launch.
pub proof fn law_units_partition_elements(n: int, group: int, i: int)
    requires
        0 <= i < n,
        group > 0,
    ensures
        0 <= i / group < units_for(n, group),
        unit_range(i / group, group, n).0 <= i < unit_range(i / group, group, n).1,
        forall|u: int|
            0 <= u && (#[trigger] unit_range(u, group, n)).0 <= i < unit_range(u, group, n).1
                ==> u == i / group,
{
    let q = i / group;
    vstd::arithmetic::div_mod::lemma_fundamental_div_mod(i, group);
    assert(group * q == q * group) by (nonlinear_arith);
    assert(0 <= q) by {
        vstd::arithmetic::div_mod::lemma_div_pos_is_pos(i, group);
    }
    assert(q < units_for(n, group)) by {
        vstd::arithmetic::div_mod::lemma_div_is_ordered(i + group, n + group - 1, group);
        vstd::arithmetic::div_mod::lemma_div_plus_one(i, group);
    }
    assert forall|u: int|
        0 <= u && (#[trigger] unit_range(u, group, n)).0 <= i < unit_range(u, group, n).1 implies u
        == i / group by {
        assert(u * group <= i < u * group + group);
        vstd::arithmetic::div_mod::lemma_fundamental_div_mod_converse(
            i,
            group,
            u,
            i - u * group,
        );
    }
}

/// Whether a launch can draw four elements per evaluation of the generator.
pub open spec fn batches_lanes(kind: Kind, offset: u64) -> bool {
    kind.is_lane_sampled() && offset % 4 == 0
}

/// How many units a draw of `n` elements launches, and whether each of them takes
/// four elements: that needs a family that spends one uniform per draw, and an offset
/// that is a whole number of evaluations.
pub fn draw_plan(kind: Kind, offset: u64, n: usize) -> (r: (usize, bool))
    ensures
        r.1 == batches_lanes(kind, offset),
        r.0 == if r.1 {
            units_for(n as int, 4)
        } else {
            n as int
        },
{
    let four: bool = kind.lane_sampled() && offset % 4 == 0;
    if four {
        let whole: usize = n / 4;
        if n % 4 == 0 {
            (whole, true)
        } else {
            (whole + 1, true)
        }
    } else {
        (n, false)
    }
}

/// The stream that attempt `i` of sub-draw `sub` reads.
pub open spec fn attempt(sub: int, i: int) -> int {
    sub * SUB_DRAW + i
}

/// The stream that attempt `i` of sub-draw `sub` reads. The attempt after the last is
/// the one that boosts a small shape.
pub fn attempt_stream(sub: u32, i: u32) -> (r: u32)
    requires
        i <= MAX_TRIES,
        sub < 0x400_0000,
    ensures
        r == attempt(sub as int, i as int),
{
    sub * SUB_DRAW + i
}

/// Different sub-draws, and different attempts of one, never share a stream.
pub proof fn law_streams_are_disjoint(sub: int, i: int, other: int, j: int)
    requires
        0 <= sub,
        0 <= other,
        0 <= i <= MAX_TRIES,
        0 <= j <= MAX_TRIES,
        attempt(sub, i) == attempt(other, j),
    ensures
        sub == other,
        i == j,
{
}

} // verus!
