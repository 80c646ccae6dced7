//! What the results of the distributions hold over the real numbers: the formulas proved for
//! them, at the values and parameters each element reads.

use vstd::prelude::*;

use super::categorical;
use super::categorical::Choice;
use super::combinator;
use super::draws;
use super::families;
use super::formula;
use super::formula::Point;
use super::kernels;
use super::launches;
use super::multivariate;
use super::multivariate::Gaussian;
use super::rows;
use super::scalar;
use super::scalar::Family;
use super::simplex;
use super::simplex::{Simplex, Trials};
use super::simplex_rows;
use super::slopes;
use super::triangular;
use super::univariate;
use crate::autograd::graph::Tape;
use crate::autograd::var;
use crate::autograd::var::Traced;
use crate::buffer;
use crate::buffer::{Buffer, Reader};
use crate::error::Fault;
use crate::shape;
use crate::single;
use crate::tensor;
use crate::tensor::{IdValue, Value};
use crate::term;
use crate::term::{Binary, Fused, Reduce, Term};

verus! {

/// What operands hold.
pub open spec fn operands(w: Reader, args: Seq<Value>) -> Seq<Buffer> {
    args.map_values(|v: Value| w.of(v.term))
}

pub proof fn lemma_kernel(w: Reader, op: Fused, args: Seq<Value>, dims: Seq<usize>)
    ensures
        launches::written(w.m, op, dims, operands(w, args)) matches Some(b) ==> w.of(
            tensor::fused_of(op, args, dims).term,
        ) == b,
{
    let terms = args.map_values(|v: Value| v.term);
    buffer::lemma_fused(w, op, dims, terms);
    assert(terms.map_values(|t: Term| buffer::holds(w, t)) =~= operands(w, args));
}

// -- scalar families -----------------------------------------------------------------------

/// A value `x` with the parameters that element `i` of a result of the given extents reads.
pub open spec fn point_at(w: Reader, f: Family, out: Seq<usize>, x: real, i: int) -> Point {
    Point {
        x,
        a: w.at(f.a.value, shape::place(i, out, f.a.value.dims)),
        b: w.at(f.b.value, shape::place(i, out, f.b.value.dims)),
        c: w.at(f.c.value, shape::place(i, out, f.c.value.dims)),
        u: 0real,
        v: 0real,
    }
}

/// Whether an interpretation gives every parameter its shape.
pub open spec fn fits_family(w: Reader, f: Family) -> bool {
    w.fits(f.a.value) && w.fits(f.b.value) && w.fits(f.c.value)
}

proof fn lemma_density(w: Reader, f: Family, x: Value, which: u32, i: int)
    requires
        fits_family(w, f),
    ensures
        w.at(scalar::density_of(f, x, which), i) == families::pointwise(
            formula::calculus(w.m.f),
            f.kind,
            which,
            point_at(w, f, x.dims, w.at(x, i), i),
        ),
{
    let args = seq![x, f.a.value, f.b.value, f.c.value];
    let op = Fused::Density(f.kind.code_of(), which);
    kernels::lemma_family(f.kind);
    lemma_kernel(w, op, args, x.dims);
    let held = operands(w, args);
    assert(held[0] == w.of(x.term) && held[1] == w.of(f.a.value.term) && held[2] == w.of(
        f.b.value.term,
    ) && held[3] == w.of(f.c.value.term));
    assert(launches::point_for(op, x.dims, held, i) == point_at(w, f, x.dims, w.at(x, i), i));
}

/// A log-density is the formula of its family: every element at its value and the parameters
/// that broadcast to it.
pub proof fn law_log_prob_is_the_log_density(w: Reader, t: Tape, f: Family, x: Traced, i: int)
    requires
        fits_family(w, f),
        scalar::log_prob_op(t, f, x) is Ok,
    ensures
        scalar::log_prob_op(t, f, x)->Ok_0.1.value.dims == x.value.dims,
        w.at(scalar::log_prob_op(t, f, x)->Ok_0.1.value, i) == families::log_density(
            formula::calculus(w.m.f),
            f.kind,
            point_at(w, f, x.value.dims, w.at(x.value, i), i),
        ),
{
    broadcast use var::lemma_record_value;

    lemma_density(w, f, x.value, univariate::LOG_PROB, i);
}

/// A distribution function is the formula of its family.
pub proof fn law_cdf_is_the_distribution_function(w: Reader, f: Family, x: Value, i: int)
    requires
        fits_family(w, f),
        scalar::cdf_value(f, x) is Ok,
    ensures
        scalar::cdf_value(f, x)->Ok_0.dims == x.dims,
        w.at(scalar::cdf_value(f, x)->Ok_0, i) == families::distribution(
            formula::calculus(w.m.f),
            f.kind,
            point_at(w, f, x.dims, w.at(x, i), i),
        ),
{
    lemma_density(w, f, x, univariate::CDF, i);
}

/// A quantile is the formula of its family.
pub proof fn law_icdf_is_the_quantile(w: Reader, t: Tape, f: Family, q: Traced, i: int)
    requires
        fits_family(w, f),
        scalar::icdf_op(t, f, q) is Ok,
    ensures
        scalar::icdf_op(t, f, q)->Ok_0.1.value.dims == q.value.dims,
        w.at(scalar::icdf_op(t, f, q)->Ok_0.1.value, i) == families::inverse(
            formula::calculus(w.m.f),
            f.kind,
            point_at(w, f, q.value.dims, w.at(q.value, i), i),
        ),
{
    broadcast use var::lemma_record_value;

    lemma_density(w, f, q.value, univariate::ICDF, i);
}

proof fn lemma_summary(w: Reader, f: Family, which: u32, i: int)
    requires
        fits_family(w, f),
    ensures
        w.at(scalar::summary_of(f, which), i) == kernels::element(
            formula::calculus(w.m.f),
            Fused::Summary(f.kind.code_of(), which),
            point_at(w, f, f.batch, 0real, i),
        ),
        kernels::family(f.kind.code_of()) == f.kind,
{
    let args = seq![f.a.value, f.b.value, f.c.value];
    let op = Fused::Summary(f.kind.code_of(), which);
    kernels::lemma_family(f.kind);
    lemma_kernel(w, op, args, f.batch);
    let held = operands(w, args);
    assert(held[0] == w.of(f.a.value.term) && held[1] == w.of(f.b.value.term) && held[2] == w.of(
        f.c.value.term,
    ));
    assert(launches::point_for(op, f.batch, held, i) == point_at(w, f, f.batch, 0real, i));
}

/// An entropy is the formula of its family.
pub proof fn law_entropy_is_the_formula(w: Reader, t: Tape, f: Family, i: int)
    requires
        fits_family(w, f),
        scalar::entropy_op(t, f) is Ok,
    ensures
        scalar::entropy_op(t, f)->Ok_0.1.value.dims == f.batch,
        w.at(scalar::entropy_op(t, f)->Ok_0.1.value, i) == families::entropy(
            formula::calculus(w.m.f),
            f.kind,
            point_at(w, f, f.batch, 0real, i),
        ),
{
    broadcast use var::lemma_record_value;

    lemma_summary(w, f, univariate::ENTROPY, i);
}

/// A mean, a variance and a mode are the formulas of their family.
pub proof fn law_moments_are_the_formulas(w: Reader, f: Family, i: int)
    requires
        fits_family(w, f),
    ensures
        ({
            let (m, p) = (formula::calculus(w.m.f), point_at(w, f, f.batch, 0real, i));
            &&& w.at(scalar::summary_of(f, univariate::MEAN), i) == families::mean(m, f.kind, p)
            &&& w.at(scalar::summary_of(f, univariate::VARIANCE), i) == families::variance(
                m,
                f.kind,
                p,
            )
            &&& w.at(scalar::summary_of(f, univariate::MODE), i) == families::mode(m, f.kind, p)
        }),
{
    lemma_summary(w, f, univariate::MEAN, i);
    lemma_summary(w, f, univariate::VARIANCE, i);
    lemma_summary(w, f, univariate::MODE, i);
}

/// The parameters that element `i` of a draw reads: those of batch element `i` modulo the
/// batch.
pub open spec fn drawn_point(w: Reader, f: Family, seed: u64, i: int) -> Point {
    let n = shape::product(f.batch) as u64;
    Point {
        x: kernels::uniform_at(f.kind is Bernoulli, seed, i),
        a: launches::tiled(w.of(f.a.value.term), n, i),
        b: launches::tiled(w.of(f.b.value.term), n, i),
        c: launches::tiled(w.of(f.c.value.term), n, i),
        u: 0real,
        v: 0real,
    }
}

/// A draw from one uniform number is the formula of its family at the uniform number of its
/// element.
pub proof fn law_draw_is_the_formula(w: Reader, f: Family, dims: Seq<usize>, seed: u64, i: int)
    requires
        f.kind.is_lane_sampled(),
    ensures
        w.at(scalar::draw_of(f, dims, seed), i) == draws::lane_draw(
            formula::calculus(w.m.f),
            f.kind,
            drawn_point(w, f, seed, i),
        ),
{
    let args = seq![f.a.value, f.b.value, f.c.value];
    let n = shape::product(f.batch) as u64;
    let op = Fused::Draw(f.kind.code_of(), n, seed);
    kernels::lemma_family(f.kind);
    lemma_kernel(w, op, args, dims);
    let held = operands(w, args);
    assert(held[0] == w.of(f.a.value.term) && held[1] == w.of(f.b.value.term) && held[2] == w.of(
        f.c.value.term,
    ));
    assert(launches::point_for(op, dims, held, i) == drawn_point(w, f, seed, i));
}

/// A draw depends on its seed, its element and the parameters of that element alone: what
/// element `i` holds is the same however many are drawn. So `n` samples are the first `n` of
/// any larger number, and the first row of them is the single sample.
pub proof fn law_samples_are_a_prefix(
    w: Reader,
    f: Family,
    dims: Seq<usize>,
    other: Seq<usize>,
    seed: u64,
    i: int,
)
    ensures
        w.at(scalar::draw_of(f, dims, seed), i) == w.at(scalar::draw_of(f, other, seed), i),
{
    let args = seq![f.a.value, f.b.value, f.c.value];
    let op = Fused::Draw(f.kind.code_of(), shape::product(f.batch) as u64, seed);
    kernels::lemma_family(f.kind);
    lemma_kernel(w, op, args, dims);
    lemma_kernel(w, op, args, other);
    let held = operands(w, args);
    assert(launches::point_for(op, dims, held, i) == launches::point_for(op, other, held, i));
}

/// What the adjoint of a density, or of a quantile, adds for one slot is the gradient times
/// the slope of its family.
pub proof fn law_density_adjoint_is_the_slope(
    w: Reader,
    f: Family,
    which: u32,
    s: u8,
    g: Value,
    x: Value,
    i: int,
)
    requires
        fits_family(w, f),
        which == univariate::LOG_PROB || which == univariate::ICDF,
    ensures
        ({
            let m = formula::calculus(w.m.f);
            let p = Point { u: w.at(g, i), ..point_at(w, f, x.dims, w.at(x, i), i) };
            w.at(
                tensor::fused_of(
                    Fused::DensityGrad(f.kind.code_of(), which, s),
                    seq![g, x, f.a.value, f.b.value, f.c.value],
                    x.dims,
                ),
                i,
            ) == w.at(g, i) * kernels::partial(
                if which == univariate::ICDF {
                    slopes::inverse_slopes(m, f.kind, p)
                } else {
                    slopes::score(m, f.kind, p)
                },
                s,
            )
        }),
{
    let args = seq![g, x, f.a.value, f.b.value, f.c.value];
    let op = Fused::DensityGrad(f.kind.code_of(), which, s);
    kernels::lemma_family(f.kind);
    lemma_kernel(w, op, args, x.dims);
    let held = operands(w, args);
    assert(held[0] == w.of(g.term) && held[1] == w.of(x.term) && held[2] == w.of(f.a.value.term)
        && held[3] == w.of(f.b.value.term) && held[4] == w.of(f.c.value.term));
    let p = Point { u: w.at(g, i), ..point_at(w, f, x.dims, w.at(x, i), i) };
    assert(launches::point_for(op, x.dims, held, i) == p);
}

/// What the adjoint of an entropy adds for one slot is the gradient times the slope of the
/// entropy.
pub proof fn law_entropy_adjoint_is_the_slope(w: Reader, f: Family, s: u8, g: Value, i: int)
    requires
        fits_family(w, f),
    ensures
        ({
            let m = formula::calculus(w.m.f);
            let p = Point { u: w.at(g, i), ..point_at(w, f, g.dims, 0real, i) };
            w.at(
                tensor::fused_of(
                    Fused::EntropyGrad(f.kind.code_of(), s),
                    seq![g, f.a.value, f.b.value, f.c.value],
                    g.dims,
                ),
                i,
            ) == w.at(g, i) * kernels::partial(slopes::entropy_slopes(m, f.kind, p), s)
        }),
{
    let args = seq![g, f.a.value, f.b.value, f.c.value];
    let op = Fused::EntropyGrad(f.kind.code_of(), s);
    kernels::lemma_family(f.kind);
    lemma_kernel(w, op, args, g.dims);
    let held = operands(w, args);
    assert(held[0] == w.of(g.term) && held[1] == w.of(f.a.value.term) && held[2] == w.of(
        f.b.value.term,
    ) && held[3] == w.of(f.c.value.term));
    let p = Point { u: w.at(g, i), ..point_at(w, f, g.dims, 0real, i) };
    assert(launches::point_for(op, g.dims, held, i) == p);
}

/// What the adjoint of a draw adds for one slot is the gradient times the path derivative at
/// the uniform number the draw was made from.
pub proof fn law_draw_adjoint_is_the_slope(w: Reader, f: Family, seed: u64, s: u8, g: Value, i: int)
    requires
        f.kind.is_reparameterised(),
    ensures
        ({
            let p = Point { u: w.at(g, i), ..drawn_point(w, f, seed, i) };
            w.at(
                tensor::fused_of(
                    Fused::DrawGrad(
                        f.kind.code_of(),
                        shape::product(f.batch) as u64,
                        seed,
                        s,
                    ),
                    seq![g, f.a.value, f.b.value, f.c.value],
                    g.dims,
                ),
                i,
            ) == w.at(g, i) * kernels::partial(
                draws::path_slopes(formula::calculus(w.m.f), f.kind, p),
                s,
            )
        }),
{
    let args = seq![g, f.a.value, f.b.value, f.c.value];
    let op = Fused::DrawGrad(f.kind.code_of(), shape::product(f.batch) as u64, seed, s);
    kernels::lemma_family(f.kind);
    lemma_kernel(w, op, args, g.dims);
    let held = operands(w, args);
    assert(held[0] == w.of(g.term) && held[1] == w.of(f.a.value.term) && held[2] == w.of(
        f.b.value.term,
    ) && held[3] == w.of(f.c.value.term));
    let p = Point { u: w.at(g, i), ..drawn_point(w, f, seed, i) };
    assert(launches::point_for(op, g.dims, held, i) == p);
}

// -- categorical ---------------------------------------------------------------------------

/// A row of logits.
pub open spec fn logits_at(w: Reader, c: Choice, r: int) -> Seq<real> {
    launches::row_at(w.of(c.logits.value.term), r, c.classes() as int)
}

/// Probabilities are the softmax of their row.
pub proof fn law_probs_are_the_softmax(w: Reader, c: Choice, r: int, j: int)
    requires
        c.wf(),
        w.fits(c.logits.value),
        0 <= r,
        0 <= j < c.classes(),
    ensures
        w.at(categorical::probs_of(c), r * c.classes() + j) == rows::probabilities(
            w.m,
            logits_at(w, c, r),
        )[j],
{
    let args = seq![c.logits.value];
    lemma_kernel(w, Fused::RowProbs, args, c.logits.value.dims);
    let held = operands(w, args);
    assert(held[0] == w.of(c.logits.value.term));
    let k = c.classes() as int;
    vstd::arithmetic::div_mod::lemma_fundamental_div_mod_converse(r * k + j, k, r, j);
}

/// The log-probability of a class is its logit less the logarithm of the total of its row.
pub proof fn law_log_prob_ids_is_the_log_probability(
    w: Reader,
    t: Tape,
    c: Choice,
    ids: IdValue,
    r: int,
    class: nat,
)
    requires
        c.wf(),
        w.fits(c.logits.value),
        categorical::log_prob_ids_op(t, c, ids) is Ok,
        (w.of(ids.term).at)(r) == launches::number_of(class),
    ensures
        w.at(categorical::log_prob_ids_op(t, c, ids)->Ok_0.1.value, r) == logits_at(
            w,
            c,
            r,
        )[class as int] - rows::log_total(w.m, logits_at(w, c, r)),
{
    broadcast use var::lemma_record_value;

    let args = seq![c.logits.value, tensor::id_operand(ids)];
    lemma_kernel(w, Fused::RowLogProb, args, c.batch());
    let held = operands(w, args);
    assert(held[0] == w.of(c.logits.value.term) && held[1] == w.of(ids.term));
    launches::lemma_id(class);
    assert(r / 1 == r && r % 1 == 0);
}

/// An entropy is that of its row.
pub proof fn law_row_entropy_is_the_formula(w: Reader, t: Tape, c: Choice, r: int)
    requires
        w.fits(c.logits.value),
    ensures
        w.at(categorical::entropy_op(t, c).1.value, r) == rows::entropy(
            w.m,
            logits_at(w, c, r),
        ),
{
    broadcast use var::lemma_record_value;

    let args = seq![c.logits.value];
    lemma_kernel(w, Fused::RowEntropy, args, c.batch());
    let held = operands(w, args);
    assert(held[0] == w.of(c.logits.value.term));
    assert(r / 1 == r && r % 1 == 0);
}

/// The logits that row `r` of a draw reads, sharpened by its temperature.
pub open spec fn sharp_at(w: Reader, c: Choice, temperature: u32, r: int) -> Seq<real> {
    kernels::sharpened(
        w.m,
        logits_at(w, c, r % (c.rows() as int)),
        categorical::sharpness(temperature),
    )
}

proof fn lemma_drawn(w: Reader, c: Choice, dims: Seq<usize>, temperature: u32, seed: u64, r: int)
    requires
        w.fits(c.logits.value),
    ensures
        (w.of(categorical::drawn(c, dims, temperature, seed).term).at)(r) == launches::number_of(
            kernels::class_drawn(
                w.m,
                categorical::is_greedy(temperature),
                sharp_at(w, c, temperature, r),
                kernels::uniform_at(false, seed, r),
            ),
        ),
{
    let args = seq![c.logits.value];
    let op = Fused::RowDraw(
        categorical::is_greedy(temperature),
        categorical::sharpness(temperature),
        c.rows(),
        seed,
    );
    lemma_kernel(w, op, args, dims);
    let held = operands(w, args);
    assert(held[0] == w.of(c.logits.value.term));
}

/// A class that is drawn is below the number of classes. At a temperature of zero it is a
/// most likely class of its row, of several the lowest, and the same for every seed.
pub proof fn law_drawn_classes(
    w: Reader,
    c: Choice,
    dims: Seq<usize>,
    temperature: u32,
    seed: u64,
    other: u64,
    r: int,
)
    requires
        c.wf(),
        w.fits(c.logits.value),
    ensures
        ({
            let s = sharp_at(w, c, temperature, r);
            let greedy = categorical::is_greedy(temperature);
            let k = kernels::class_drawn(w.m, greedy, s, kernels::uniform_at(false, seed, r));
            let ids = categorical::drawn(c, dims, temperature, seed);
            &&& (w.of(ids.term).at)(r) == launches::number_of(k)
            &&& k < c.classes()
            &&& greedy ==> forall|j: int| 0 <= j < c.classes() ==> #[trigger] s[j] <= s[k as int]
            &&& greedy ==> forall|j: int| 0 <= j < k ==> #[trigger] s[j] < s[k as int]
            &&& greedy ==> (w.of(categorical::drawn(c, dims, temperature, other).term).at)(r)
                == launches::number_of(k)
        }),
{
    let s = sharp_at(w, c, temperature, r);
    lemma_drawn(w, c, dims, temperature, seed, r);
    lemma_drawn(w, c, dims, temperature, other, r);
    kernels::law_drawn_class_is_one_of_the_row(
        w.m,
        categorical::is_greedy(temperature),
        s,
        kernels::uniform_at(false, seed, r),
    );
}

/// The mode of a row is a class that no logit exceeds, of several the lowest.
pub proof fn law_mode_is_the_lowest_best_class(w: Reader, c: Choice, r: int)
    requires
        c.wf(),
        w.fits(c.logits.value),
        0 <= r < c.rows(),
    ensures
        ({
            let s = logits_at(w, c, r);
            let k = kernels::first_largest(s, s.len());
            &&& (w.of(categorical::mode_ids_of(c).term).at)(r) == launches::number_of(k)
            &&& k < c.classes()
            &&& forall|j: int| 0 <= j < c.classes() ==> #[trigger] s[j] <= s[k as int]
            &&& forall|j: int| 0 <= j < k ==> #[trigger] s[j] < s[k as int]
        }),
{
    let s = logits_at(w, c, r);
    vstd::arithmetic::div_mod::lemma_small_mod(r as nat, c.rows() as nat);
    lemma_drawn(w, c, c.batch(), single::ZERO, 0, r);
    assert(categorical::is_greedy(single::ZERO));
    assert(sharp_at(w, c, single::ZERO, r) =~= s) by {
        assert forall|j: int| 0 <= j < s.len() implies sharp_at(w, c, single::ZERO, r)[j] == s[j] by {
            assert(s[j] * 1real == s[j]);
        }
    }
    kernels::law_drawn_class_is_one_of_the_row(w.m, true, s, kernels::uniform_at(false, 0, r));
}

/// Drawing and scoring in one pass is drawing, then scoring: the score of a fused draw is the
/// log-probability of the class it takes, under the logits as its temperature sharpens them.
pub proof fn law_fused_score_is_the_score_of_the_draw(
    w: Reader,
    c: Choice,
    temperature: u32,
    seed: u64,
    r: int,
)
    requires
        c.wf(),
        w.fits(c.logits.value),
    ensures
        ({
            let s = sharp_at(w, c, temperature, r);
            let k = kernels::class_drawn(
                w.m,
                categorical::is_greedy(temperature),
                s,
                kernels::uniform_at(false, seed, r),
            );
            &&& (w.of(categorical::drawn(c, c.batch(), temperature, seed).term).at)(r)
                == launches::number_of(k)
            &&& w.at(categorical::drawn_score(c, c.batch(), temperature, seed), r) == s[k as int]
                - rows::log_total(w.m, s)
        }),
{
    lemma_drawn(w, c, c.batch(), temperature, seed, r);
    let args = seq![c.logits.value];
    let op = Fused::RowDrawScore(
        categorical::is_greedy(temperature),
        categorical::sharpness(temperature),
        c.rows(),
        seed,
    );
    lemma_kernel(w, op, args, c.batch());
    let held = operands(w, args);
    assert(held[0] == w.of(c.logits.value.term));
    assert(r / 1 == r && r % 1 == 0);
}

/// At a temperature of one the fused score is what scoring the drawn classes gives.
pub proof fn law_plain_fused_score_is_log_prob_ids(w: Reader, t: Tape, c: Choice, seed: u64, r: int)
    requires
        c.wf(),
        w.fits(c.logits.value),
        0 <= r < c.rows(),
    ensures
        categorical::log_prob_ids_op(t, c, categorical::plain_draw(c, seed)) is Ok,
        w.at(
            categorical::log_prob_ids_op(t, c, categorical::plain_draw(c, seed))->Ok_0.1.value,
            r,
        ) == w.at(categorical::drawn_score(c, c.batch(), single::ONE, seed), r),
{
    let s = logits_at(w, c, r);
    vstd::arithmetic::div_mod::lemma_small_mod(r as nat, c.rows() as nat);
    assert(!categorical::is_greedy(single::ONE));
    assert(sharp_at(w, c, single::ONE, r) =~= s) by {
        assert forall|j: int| 0 <= j < s.len() implies sharp_at(w, c, single::ONE, r)[j] == s[j] by {
            assert(s[j] * 1real == s[j]);
        }
    }
    law_fused_score_is_the_score_of_the_draw(w, c, single::ONE, seed, r);
    let k = kernels::class_drawn(w.m, false, s, kernels::uniform_at(false, seed, r));
    law_log_prob_ids_is_the_log_probability(w, t, c, categorical::plain_draw(c, seed), r, k);
}

// -- multivariate normal -------------------------------------------------------------------

/// The row of the parameters that row `r` of a value reads.
pub open spec fn gaussian_row(g: Gaussian, x: Value, r: int) -> int {
    launches::param_row(r, x.dims.drop_last(), g.batch())
}

/// The matrix of a row of the parameters.
pub open spec fn matrix_of(w: Reader, v: Value, r: int, dim: int) -> Seq<Seq<real>> {
    kernels::square(launches::row_at(w.of(v.term), r, dim * dim), dim as nat)
}

/// The log-density of a multivariate normal is `-|L^-1 (x - loc)|^2 / 2 - sum(ln |L_ii|) -
/// (d / 2) ln(2 pi)`, row by row.
pub proof fn law_normal_log_prob_is_the_density(w: Reader, t: Tape, g: Gaussian, x: Traced, r: int)
    requires
        g.wf(),
        w.fits(g.loc.value),
        w.fits(g.tril.value),
        w.fits(x.value),
        multivariate::mvn_log_prob_op(t, g, x) is Ok,
    ensures
        ({
            let (p, d) = (gaussian_row(g, x.value, r), g.dim() as int);
            w.at(multivariate::mvn_log_prob_op(t, g, x)->Ok_0.1.value, r)
                == triangular::normal_density(
                w.m,
                launches::row_at(w.of(g.loc.value.term), p, d),
                matrix_of(w, g.tril.value, p, d),
                launches::row_at(w.of(x.value.term), r, d),
            )
        }),
{
    broadcast use var::lemma_record_value;

    let args = seq![g.loc.value, g.tril.value, x.value];
    lemma_kernel(w, Fused::MvnLogProb, args, x.value.dims.drop_last());
    let held = operands(w, args);
    assert(held[0] == w.of(g.loc.value.term) && held[1] == w.of(g.tril.value.term) && held[2]
        == w.of(x.value.term));
    assert(r / 1 == r && r % 1 == 0);
}

/// The log-density reads nothing above the diagonal of the factor.
pub proof fn law_density_ignores_the_upper_triangle(
    m: crate::meaning::Model,
    loc: Seq<real>,
    l: Seq<Seq<real>>,
    other: Seq<Seq<real>>,
    x: Seq<real>,
)
    requires
        l.len() == x.len(),
        other.len() == x.len(),
        forall|i: int, j: int|
            0 <= j <= i < x.len() ==> #[trigger] l[i][j] == #[trigger] other[i][j],
    ensures
        triangular::normal_density(m, loc, l, x) == triangular::normal_density(m, loc, other, x),
{
    triangular::lemma_forward_reads_the_triangle(l, other, triangular::minus(x, loc), x.len());
    assert(triangular::log_diagonal(m, l) =~= triangular::log_diagonal(m, other)) by {
        assert forall|i: int| 0 <= i < x.len() implies triangular::log_diagonal(m, l)[i]
            == triangular::log_diagonal(m, other)[i] by {
            assert(l[i][i] == other[i][i]);
        }
    }
}

/// The factor of a distribution made from a covariance is the lower-triangular factor of every
/// matrix of it.
pub proof fn law_covariance_is_factored(w: Reader, covariance: Value, r: int, i: int, j: int)
    requires
        covariance.dims.len() > 0,
        w.fits(covariance),
        0 <= r,
        0 <= i < covariance.dims.last(),
        0 <= j < covariance.dims.last(),
    ensures
        ({
            let d = covariance.dims.last() as int;
            w.at(multivariate::factored(covariance), r * (d * d) + (i * d + j))
                == triangular::factor(w.m, matrix_of(w, covariance, r, d), d as nat)[i][j]
        }),
{
    let args = seq![covariance];
    lemma_kernel(w, Fused::Cholesky, args, covariance.dims);
    let held = operands(w, args);
    assert(held[0] == w.of(covariance.term));
    let d = covariance.dims.last() as int;
    kernels::lemma_square_bound(i, j, d);
    vstd::arithmetic::div_mod::lemma_fundamental_div_mod_converse(
        r * (d * d) + (i * d + j),
        d * d,
        r,
        i * d + j,
    );
}

proof fn lemma_lower(w: Reader, tril: Value, dim: usize, i: int)
    requires
        w.fits(tril),
        tril.dims.len() >= 2,
        tril.dims.last() == dim,
        tril.dims[tril.dims.len() - 2] == dim,
        0 <= i < shape::product(tril.dims),
    ensures
        multivariate::lower_of(tril, dim) is Ok,
        multivariate::lower_of(tril, dim)->Ok_0.dims == tril.dims,
        w.fits(multivariate::lower_of(tril, dim)->Ok_0),
        w.at(multivariate::lower_of(tril, dim)->Ok_0, i) == if i % (dim as int) <= (i / dim as int) % (
        dim as int) {
            w.at(tril, i)
        } else {
            0real
        },
{
    let d = dim as int;
    let square = seq![dim, dim];
    let out = tril.dims;
    let lead = out.take(out.len() - 2);
    assert(out =~= lead + square);
    let n = shape::max_rank(square, out);
    assert forall|k: int| 0 <= k < n implies shape::extents_agree(
        #[trigger] shape::left_padded(square, n)[k],
        shape::left_padded(out, n)[k],
    ) by {}
    assert(shape::broadcast_dims(square, out) =~= out);
    lemma_kernel(w, Fused::Lower, Seq::empty(), square);
    let mask = multivariate::triangle(dim);
    assert(tensor::fused_of(Fused::Lower, Seq::empty(), square) == mask);
    assert(w.of(mask.term).dims == square);
    assert(square.drop_last() =~= seq![dim]);
    assert(seq![dim].drop_last() =~= Seq::<usize>::empty());
    assert(shape::product(seq![dim]) == dim) by {
        assert(shape::product(Seq::<usize>::empty()) * dim as nat == 1 * dim as nat);
    }
    assert(shape::product(square) == dim * dim);
    if dim == 0 {
        shape::lemma_product_zero(out, out.len() - 1);
    }
    assert(d * d > 0) by (nonlinear_arith)
        requires
            d > 0,
    ;
    shape::lemma_place_tiles(i, lead, square);
    shape::lemma_place_same(i, out);
    let q = i % (d * d);
    // The row and the column of an element of a square.
    vstd::arithmetic::div_mod::lemma_breakdown(i, d, d);
    let (r, c) = ((i / d) % d, i % d);
    assert(q == d * r + c);
    assert(d * r == r * d) by (nonlinear_arith);
    vstd::arithmetic::div_mod::lemma_fundamental_div_mod_converse(q, d, r, c);
}

/// A row of the lower triangle of a factor, squared.
pub open spec fn lower_squares(l: Seq<Seq<real>>, i: int) -> Seq<real> {
    Seq::new(
        l.len(),
        |j: int|
            if j <= i {
                l[i][j] * l[i][j]
            } else {
                0real
            },
    )
}

/// The variance of an axis is the sum of the squares of its row of the factor, of which only
/// the lower triangle is read.
pub proof fn law_normal_variance_is_the_row_of_squares(w: Reader, g: Gaussian, r: int, i: int)
    requires
        g.wf(),
        w.fits(g.tril.value),
        shape::fits(g.tril.value.dims),
        0 <= i < g.dim(),
        0 <= r,
        r * (g.dim() * g.dim()) + i * g.dim() + g.dim() <= shape::product(g.tril.value.dims),
        multivariate::variance_of_factor(g.tril.value, g.dim()) is Ok,
    ensures
        w.at(
            multivariate::variance_of_factor(g.tril.value, g.dim())->Ok_0,
            r * g.dim() + i,
        ) == rows::sum(
            lower_squares(matrix_of(w, g.tril.value, r, g.dim() as int), i),
            g.dim() as nat,
        ),
{
    let (tril, dim) = (g.tril.value, g.dim());
    let d = dim as int;
    let out = tril.dims;
    let axis = out.len() - 1;
    assert(out[out.len() - 2] == g.loc.value.dims.last());
    let start = r * (d * d) + i * d;
    lemma_lower(w, tril, dim, start);
    let l = multivariate::lower_of(tril, dim)->Ok_0;
    shape::law_broadcast_idempotent(out);
    let v = tensor::binary_of(Binary::Mul, l, l)->Ok_0;
    assert(w.of(v.term).dims == out);
    let e = r * d + i;
    assert(out.skip(axis + 1) =~= Seq::<usize>::empty());
    assert(buffer::inner(out, axis) == 1);
    let got = buffer::fibre(w.of(v.term), axis, e);
    let want = lower_squares(matrix_of(w, tril, r, d), i);
    assert forall|j: int| 0 <= j < d implies got[j] == want[j] by {
        let k = start + j;
        assert(e / 1 == e && e % 1 == 0);
        assert((e * d + j) * 1 + 0 == k) by (nonlinear_arith)
            requires
                e == r * d + i,
                k == r * (d * d) + i * d + j,
        ;
        assert(k >= 0) by (nonlinear_arith)
            requires
                k == r * (d * d) + i * d + j,
                r >= 0,
                i >= 0,
                j >= 0,
                d >= 0,
        ;
        shape::lemma_place_same(k, out);
        lemma_lower(w, tril, dim, k);
        assert(k == e * d + j);
        vstd::arithmetic::div_mod::lemma_fundamental_div_mod_converse(k, d, e, j);
        vstd::arithmetic::div_mod::lemma_fundamental_div_mod_converse(e, d, r, i);
        kernels::lemma_square_bound(i, j, d);
        let entry = matrix_of(w, tril, r, d)[i][j];
        assert(entry == launches::row_at(w.of(tril.term), r, d * d)[i * d + j]);
        assert(r * (d * d) + (i * d + j) == k);
        assert(entry == w.at(tril, k));
        let x = w.at(l, k);
        assert(got[j] == (w.of(v.term).at)(k));
        assert((w.of(v.term).at)(k) == x * x);
        assert(0real * 0real == 0real);
    }
    assert(got =~= want);
    let total = tensor::reduce_of(Reduce::Sum, v, axis as usize)->Ok_0;
    assert(w.at(total, e) == rows::sum(got, got.len()));
}

/// A divergence is the formula of its two rows.
pub proof fn law_normal_divergence_is_the_formula(w: Reader, p: Gaussian, q: Gaussian, r: int)
    requires
        p.wf(),
        w.fits(p.loc.value),
        multivariate::divergence(p, q) is Ok,
    ensures
        ({
            let d = p.dim() as int;
            w.at(multivariate::divergence(p, q)->Ok_0, r) == triangular::normal_divergence(
                w.m,
                launches::row_at(w.of(p.loc.value.term), r, d),
                matrix_of(w, p.tril.value, r, d),
                launches::row_at(w.of(q.loc.value.term), r, d),
                matrix_of(w, q.tril.value, r, d),
            )
        }),
{
    let args = seq![p.loc.value, p.tril.value, q.loc.value, q.tril.value];
    lemma_kernel(w, Fused::MvnKl, args, p.batch());
    let held = operands(w, args);
    assert(held[0] == w.of(p.loc.value.term) && held[1] == w.of(p.tril.value.term) && held[2]
        == w.of(q.loc.value.term) && held[3] == w.of(q.tril.value.term));
    assert(r / 1 == r && r % 1 == 0);
}

// -- simplices -----------------------------------------------------------------------------

/// A row of concentrations.
pub open spec fn concentration_at(w: Reader, d: Simplex, r: int) -> Seq<real> {
    launches::row_at(w.of(d.concentration.value.term), r, d.classes() as int)
}

/// The log-density of a Dirichlet is the formula of its row.
pub proof fn law_dirichlet_log_prob_is_the_density(w: Reader, t: Tape, d: Simplex, x: Traced, r: int)
    requires
        w.fits(d.concentration.value),
        w.fits(x.value),
        simplex::dirichlet_log_prob_op(t, d, x) is Ok,
    ensures
        w.at(simplex::dirichlet_log_prob_op(t, d, x)->Ok_0.1.value, r)
            == simplex_rows::dirichlet_density(
            w.m,
            concentration_at(
                w,
                d,
                launches::param_row(r, x.value.dims.drop_last(), d.batch()),
            ),
            launches::row_at(w.of(x.value.term), r, d.classes() as int),
        ),
{
    broadcast use var::lemma_record_value;

    let args = seq![d.concentration.value, x.value];
    lemma_kernel(w, Fused::DirichletLogProb, args, x.value.dims.drop_last());
    let held = operands(w, args);
    assert(held[0] == w.of(d.concentration.value.term) && held[1] == w.of(x.value.term));
    assert(r / 1 == r && r % 1 == 0);
}

/// The entropy of a Dirichlet is the formula of its row.
pub proof fn law_dirichlet_entropy_is_the_formula(w: Reader, t: Tape, d: Simplex, r: int)
    requires
        w.fits(d.concentration.value),
    ensures
        w.at(simplex::dirichlet_entropy_op(t, d).1.value, r) == simplex_rows::dirichlet_entropy_of(
            w.m,
            concentration_at(w, d, r),
        ),
{
    broadcast use var::lemma_record_value;

    let args = seq![d.concentration.value];
    lemma_kernel(w, Fused::DirichletEntropy, args, d.batch());
    let held = operands(w, args);
    assert(held[0] == w.of(d.concentration.value.term));
    assert(r / 1 == r && r % 1 == 0);
}

/// The mean, variance and mode of a Dirichlet are the formulas of their class.
pub proof fn law_dirichlet_moments_are_the_formulas(w: Reader, d: Simplex, r: int, j: int)
    requires
        w.fits(d.concentration.value),
        0 <= r,
        0 <= j < d.classes(),
    ensures
        ({
            let (c, i) = (concentration_at(w, d, r), r * d.classes() + j);
            &&& w.at(simplex::dirichlet_moment(d, univariate::MEAN), i)
                == simplex_rows::mean_of_class(w.m, c, j)
            &&& w.at(simplex::dirichlet_moment(d, univariate::VARIANCE), i)
                == simplex_rows::variance_of_class(w.m, c, j)
            &&& w.at(simplex::dirichlet_moment(d, univariate::MODE), i)
                == simplex_rows::mode_of_class(w.m, c, j)
        }),
{
    let args = seq![d.concentration.value];
    lemma_kernel(w, Fused::DirichletMoment(univariate::MEAN), args, d.dims());
    lemma_kernel(w, Fused::DirichletMoment(univariate::VARIANCE), args, d.dims());
    lemma_kernel(w, Fused::DirichletMoment(univariate::MODE), args, d.dims());
    let held = operands(w, args);
    assert(held[0] == w.of(d.concentration.value.term));
    let k = d.classes() as int;
    vstd::arithmetic::div_mod::lemma_fundamental_div_mod_converse(r * k + j, k, r, j);
}

/// The log-mass of a multinomial is the formula of its row.
pub proof fn law_multinomial_log_prob_is_the_mass(w: Reader, m: Trials, counts: Value, r: int)
    requires
        w.fits(m.each.logits.value),
        w.fits(counts),
    ensures
        w.at(simplex::multinomial_log_prob(m, counts), r) == simplex_rows::multinomial_mass(
            w.m,
            m.count as u64,
            logits_at(
                w,
                m.each,
                launches::param_row(r, counts.dims.drop_last(), m.each.batch()),
            ),
            launches::row_at(w.of(counts.term), r, m.each.classes() as int),
        ),
{
    let args = seq![m.each.logits.value, counts];
    lemma_kernel(w, Fused::MultinomialLogProb(m.count as u64), args, m.each.batch());
    let held = operands(w, args);
    assert(held[0] == w.of(m.each.logits.value.term) && held[1] == w.of(counts.term));
    assert(r / 1 == r && r % 1 == 0);
}

/// A draw of a Dirichlet sums to one along its classes, wherever its Gammas do not vanish
/// together.
pub proof fn law_dirichlet_draw_sums_to_one(
    w: Reader,
    d: Simplex,
    dims: Seq<usize>,
    seed: u64,
    r: int,
)
    requires
        w.fits(d.concentration.value),
        0 <= r,
        d.classes() > 0,
        ({
            let g = launches::gammas(
                w.m,
                seed,
                r,
                concentration_at(w, d, r % (d.rows() as int)),
            );
            rows::sum(g, g.len()) != 0real
        }),
    ensures
        rows::sum(
            launches::row_at(
                w.of(simplex::dirichlet_draw(d, dims, seed).term),
                r,
                d.classes() as int,
            ),
            d.classes() as nat,
        ) == 1real,
{
    let args = seq![d.concentration.value];
    lemma_kernel(w, Fused::DirichletDraw(d.rows(), seed), args, dims);
    let held = operands(w, args);
    assert(held[0] == w.of(d.concentration.value.term));
    let k = d.classes() as int;
    let g = launches::gammas(w.m, seed, r, concentration_at(w, d, r % (d.rows() as int)));
    let total = rows::sum(g, g.len());
    let out = launches::row_at(w.of(simplex::dirichlet_draw(d, dims, seed).term), r, k);
    assert forall|j: int| 0 <= j < k implies #[trigger] out[j] == g[j] / total by {
        vstd::arithmetic::div_mod::lemma_fundamental_div_mod_converse(r * k + j, k, r, j);
    }
    rows::lemma_sum_quotient(g, out, total, k as nat);
    assert(total / total == 1real) by (nonlinear_arith)
        requires
            total != 0real,
    ;
}

// -- samples -------------------------------------------------------------------------------

/// What row `r` of a categorical draw holds is the same however many are drawn.
pub proof fn law_drawn_classes_are_a_prefix(
    w: Reader,
    c: Choice,
    dims: Seq<usize>,
    other: Seq<usize>,
    temperature: u32,
    seed: u64,
    r: int,
)
    requires
        w.fits(c.logits.value),
    ensures
        (w.of(categorical::drawn(c, dims, temperature, seed).term).at)(r) == (w.of(
            categorical::drawn(c, other, temperature, seed).term,
        ).at)(r),
{
    lemma_drawn(w, c, dims, temperature, seed, r);
    lemma_drawn(w, c, other, temperature, seed, r);
}

/// What element `i` of a draw from a Dirichlet or a multinomial holds is the same however many
/// are drawn.
pub proof fn law_simplex_samples_are_a_prefix(
    w: Reader,
    d: Simplex,
    m: Trials,
    dims: Seq<usize>,
    other: Seq<usize>,
    seed: u64,
    i: int,
)
    ensures
        w.at(simplex::dirichlet_draw(d, dims, seed), i) == w.at(
            simplex::dirichlet_draw(d, other, seed),
            i,
        ),
        w.at(simplex::multinomial_draw(m, dims, seed), i) == w.at(
            simplex::multinomial_draw(m, other, seed),
            i,
        ),
{
    let args = seq![d.concentration.value];
    lemma_kernel(w, Fused::DirichletDraw(d.rows(), seed), args, dims);
    lemma_kernel(w, Fused::DirichletDraw(d.rows(), seed), args, other);
    let logits = seq![m.each.logits.value];
    let op = Fused::MultinomialDraw(m.count as u64, m.each.rows(), seed);
    lemma_kernel(w, op, logits, dims);
    lemma_kernel(w, op, logits, other);
}

/// The draws of every component of which one is kept, as a row.
pub open spec fn choices_of(w: Reader, all: Value, ids: IdValue, k: int, r: int) -> Seq<real> {
    Seq::new(
        k as nat,
        |j: int|
            w.at(all, r * k + j) * crate::meaning::indicator((w.of(ids.term).at)(r) == j as real),
    )
}

proof fn lemma_kept(w: Reader, all: Value, ids: IdValue, classes: usize, r: int)
    requires
        w.fits(all),
        w.of(ids.term).dims == ids.dims,
        all.dims == ids.dims.push(classes),
        shape::fits(all.dims),
        all.dims.len() <= usize::MAX,
        classes > 0,
        0 <= r < shape::product(ids.dims),
    ensures
        combinator::kept(all, ids, classes) is Ok,
        combinator::kept(all, ids, classes)->Ok_0.dims == ids.dims,
        w.at(combinator::kept(all, ids, classes)->Ok_0, r) == rows::sum(
            choices_of(w, all, ids, classes as int, r),
            classes as nat,
        ),
{
    let k = classes as int;
    let hot = tensor::one_hot_of(ids, classes);
    let out = all.dims;
    let axis = out.len() - 1;
    shape::law_broadcast_idempotent(out);
    let v = tensor::binary_of(Binary::Mul, all, hot)->Ok_0;
    let h = w.of(hot.term);
    assert(h.dims == out);
    assert(w.of(v.term).dims == out);
    assert(out.drop_last() =~= ids.dims);
    assert(shape::product(out) == shape::product(ids.dims) * classes as nat);
    let n = shape::product(ids.dims) as int;
    assert(out.update(axis, 1usize).remove(axis) =~= ids.dims);
    let total = tensor::reduce_of(Reduce::Sum, v, axis as usize)->Ok_0;
    assert(total.dims.drop_last() =~= ids.dims);
    assert(shape::product(total.dims) == shape::product(ids.dims) * 1);
    assert(n <= n * k) by (nonlinear_arith)
        requires
            n >= 0,
            k >= 1,
    ;
    assert(out.skip(axis + 1) =~= Seq::<usize>::empty());
    assert(buffer::inner(out, axis) == 1);
    let got = buffer::fibre(w.of(v.term), axis, r);
    let want = choices_of(w, all, ids, k, r);
    assert forall|j: int| 0 <= j < k implies got[j] == want[j] by {
        let e = r * k + j;
        assert(0 <= e < n * k) by (nonlinear_arith)
            requires
                0 <= r < n,
                0 <= j < k,
                e == r * k + j,
        ;
        shape::lemma_place_same(e, out);
        vstd::arithmetic::div_mod::lemma_fundamental_div_mod_converse(e, k, r, j);
        assert(r / 1 == r && r % 1 == 0);
        assert((r * k + j) * 1 + 0 == e);
        assert((h.at)(e) == crate::meaning::indicator((w.of(ids.term).at)(r) == j as real));
        assert((w.of(v.term).at)(e) == w.at(all, e) * (h.at)(e));
    }
    assert(got =~= want);
    assert(w.at(total, r) == rows::sum(got, got.len()));
}

/// Row `r` of a mixture's samples is the same however many are drawn: the single sample is the
/// first row of any number of them.
pub proof fn law_mixture_samples_are_a_prefix(
    w: Reader,
    c: Choice,
    f: Family,
    lead: Seq<usize>,
    seed: u64,
    r: int,
)
    requires
        c.wf(),
        w.fits(c.logits.value),
        f.batch == c.batch().push(c.classes()),
        shape::fits(f.batch),
        shape::fits(lead + f.batch),
        (lead + f.batch).len() <= usize::MAX,
        0 <= r < shape::product(c.batch()),
        r < shape::product(lead + c.batch()),
    ensures
        ({
            let s = combinator::choice_seed(seed);
            let k = c.classes();
            let one = combinator::kept(
                scalar::draw_of(f, f.batch, seed),
                categorical::drawn(c, c.batch(), single::ONE, s),
                k,
            );
            let many = combinator::kept(
                scalar::draw_of(f, lead + f.batch, seed),
                categorical::drawn(c, lead + c.batch(), single::ONE, s),
                k,
            );
            &&& one is Ok
            &&& many is Ok
            &&& one->Ok_0.dims == c.batch()
            &&& many->Ok_0.dims == lead + c.batch()
            &&& w.at(one->Ok_0, r) == w.at(many->Ok_0, r)
        }),
{
    let s = combinator::choice_seed(seed);
    let k = c.classes() as int;
    let (a, b) = (scalar::draw_of(f, f.batch, seed), scalar::draw_of(f, lead + f.batch, seed));
    let (x, y) = (
        categorical::drawn(c, c.batch(), single::ONE, s),
        categorical::drawn(c, lead + c.batch(), single::ONE, s),
    );
    assert((lead + f.batch) =~= (lead + c.batch()).push(c.classes()));
    lemma_draw_dims(w, f, f.batch, seed);
    lemma_draw_dims(w, f, lead + f.batch, seed);
    lemma_drawn_dims(w, c, c.batch(), single::ONE, s);
    lemma_drawn_dims(w, c, lead + c.batch(), single::ONE, s);
    lemma_kept(w, a, x, c.classes(), r);
    lemma_kept(w, b, y, c.classes(), r);
    law_drawn_classes_are_a_prefix(w, c, c.batch(), lead + c.batch(), single::ONE, s, r);
    assert(choices_of(w, a, x, k, r) =~= choices_of(w, b, y, k, r)) by {
        assert forall|j: int| 0 <= j < k implies choices_of(w, a, x, k, r)[j] == choices_of(
            w,
            b,
            y,
            k,
            r,
        )[j] by {
            law_samples_are_a_prefix(w, f, f.batch, lead + f.batch, seed, r * k + j);
        }
    }
}

pub proof fn lemma_draw_dims(w: Reader, f: Family, dims: Seq<usize>, seed: u64)
    ensures
        w.fits(scalar::draw_of(f, dims, seed)),
{
    let args = seq![f.a.value, f.b.value, f.c.value];
    let op = Fused::Draw(f.kind.code_of(), shape::product(f.batch) as u64, seed);
    lemma_kernel(w, op, args, dims);
}

proof fn lemma_drawn_dims(w: Reader, c: Choice, dims: Seq<usize>, temperature: u32, seed: u64)
    ensures
        w.of(categorical::drawn(c, dims, temperature, seed).term).dims == dims,
{
    let op = Fused::RowDraw(
        categorical::is_greedy(temperature),
        categorical::sharpness(temperature),
        c.rows(),
        seed,
    );
    lemma_kernel(w, op, seq![c.logits.value], dims);
}

} // verus!
