//! What distributions built out of other distributions compute, over the real numbers.

use vstd::prelude::*;

use super::base;
use super::base::Distribution;
use super::categorical;
use super::categorical::Choice;
use super::combinator;
use super::rows;
use crate::autograd::expansion;
use crate::autograd::expansion::total;
use crate::autograd::graph::Tape;
use crate::autograd::ops;
use crate::autograd::rule;
use crate::autograd::var;
use crate::autograd::var::Traced;
use crate::buffer;
use crate::buffer::Reader;
use crate::error::Fault;
use crate::meaning;
use crate::meaning::Functions;
use crate::nn::value_readings::{
    heights, inside, lemma_each, lemma_entry, lemma_pair, lemma_reduced, lemma_reshaped,
    lemma_rows, row,
};
use crate::shape;
use crate::tensor;
use crate::tensor::Value;
use crate::term;
use crate::term::{Binary, Reduce, Unary};

verus! {

// -- logarithms of sums --------------------------------------------------------------------

/// The exponentials of a row, its largest entry taken off.
pub open spec fn risen(f: Functions, s: Seq<real>) -> Seq<real> {
    Seq::new(s.len(), |j: int| (f.exp)(s[j] - rows::largest(s, s.len())))
}

/// The logarithm of the sum of the exponentials of a row.
pub open spec fn log_sum(f: Functions, s: Seq<real>) -> real {
    let e = risen(f, s);
    (f.log)(rows::sum(e, e.len())) + rows::largest(s, s.len())
}

/// The entries of a row less the logarithm of the sum of their exponentials.
pub open spec fn log_shares(f: Functions, s: Seq<real>) -> Seq<real> {
    Seq::new(s.len(), |j: int| s[j] - log_sum(f, s))
}

/// The largest entry of every row, and the exponentials of what is left above it.
#[verifier::spinoff_prover]
proof fn lemma_risen(w: Reader, x: Value, r: int)
    requires
        w.fits(x),
        0 < x.dims.len() <= usize::MAX,
        0 <= r < heights(x.dims),
        0 < x.dims.last(),
    ensures
        ({
            let last = (x.dims.len() - 1) as usize;
            let k = x.dims.last() as int;
            let s = row(w, x, r, k);
            let top = tensor::reduce_of(Reduce::Max, x, last);
            let low = tensor::binary_of(Binary::Sub, x, top->Ok_0);
            let e = tensor::unary_of(Unary::Exp, low->Ok_0);
            let sum = tensor::reduce_of(Reduce::Sum, e, last);
            let l = tensor::unary_of(Unary::Log, sum->Ok_0);
            &&& top is Ok && low is Ok && sum is Ok
            &&& w.fits(top->Ok_0) && w.fits(low->Ok_0) && w.fits(e) && w.fits(sum->Ok_0) && w.fits(l)
            &&& top->Ok_0.dims == x.dims.update(x.dims.len() - 1, 1usize)
            &&& low->Ok_0.dims == x.dims
            &&& l.dims == top->Ok_0.dims
            &&& w.at(top->Ok_0, r) == rows::largest(s, s.len())
            &&& forall|c: int|
                0 <= c < k ==> #[trigger] w.at(low->Ok_0, r * k + c) == s[c] - rows::largest(
                    s,
                    s.len(),
                )
            &&& w.at(l, r) == (w.m.f.log)(rows::sum(risen(w.m.f, s), s.len()))
        }),
{
    let last = (x.dims.len() - 1) as usize;
    let k = x.dims.last() as int;
    let s = row(w, x, r, k);
    lemma_reduced(w, Reduce::Max, x, r);
    let top = tensor::reduce_of(Reduce::Max, x, last)->Ok_0;
    lemma_rows(w, Binary::Sub, x, top, r, 0);
    let low = tensor::binary_of(Binary::Sub, x, top)->Ok_0;
    let e = tensor::unary_of(Unary::Exp, low);
    lemma_each(w, Unary::Exp, low, r * k);
    lemma_reduced(w, Reduce::Sum, e, r);
    let sum = tensor::reduce_of(Reduce::Sum, e, last)->Ok_0;
    lemma_each(w, Unary::Log, sum, r);
    let up = risen(w.m.f, s);
    assert forall|c: int| 0 <= c < k implies #[trigger] w.at(low, r * k + c) == s[c] - rows::largest(
        s,
        s.len(),
    ) by {
        lemma_rows(w, Binary::Sub, x, top, r, c);
    }
    assert forall|c: int| 0 <= c < k implies row(w, e, r, k)[c] == up[c] by {
        lemma_rows(w, Binary::Sub, x, top, r, c);
        lemma_each(w, Unary::Exp, low, r * k + c);
    }
    assert(row(w, e, r, k) =~= up);
}

/// The logarithm of the sum of exponentials along the last axis.
#[verifier::spinoff_prover]
pub proof fn law_logsumexp_along_the_last_axis(w: Reader, t: Tape, x: Traced, r: int)
    requires
        w.fits(x.value),
        0 < x.value.dims.len() <= usize::MAX,
        0 <= r < heights(x.value.dims),
        0 < x.value.dims.last(),
    ensures
        ({
            let y = ops::logsumexp_op(t, x, (x.value.dims.len() - 1) as usize);
            &&& y is Ok
            &&& y->Ok_0.1.value.dims == x.value.dims.update(x.value.dims.len() - 1, 1usize)
            &&& w.fits(y->Ok_0.1.value)
            &&& w.at(y->Ok_0.1.value, r) == log_sum(
                w.m.f,
                row(w, x.value, r, x.value.dims.last() as int),
            )
        }),
{
    broadcast use var::lemma_record_value;

    let d = x.value.dims;
    let last = (d.len() - 1) as usize;
    lemma_risen(w, x.value, r);
    let top = tensor::reduce_of(Reduce::Max, x.value, last)->Ok_0;
    let low = tensor::binary_of(Binary::Sub, x.value, top)->Ok_0;
    let e = tensor::unary_of(Unary::Exp, low);
    let sum = tensor::reduce_of(Reduce::Sum, e, last)->Ok_0;
    let l = tensor::unary_of(Unary::Log, sum);
    let one = d.update(d.len() - 1, 1usize);
    assert(one.drop_last() =~= d.drop_last());
    assert(shape::product(one) == heights(d)) by {
        let h = heights(d);
        assert(h * 1usize as nat == h) by (nonlinear_arith);
    }
    lemma_pair(w, Binary::Add, l, top, r);
    let r1 = ops::reduce_op(t, Reduce::Max, x, last)->Ok_0;
    let r2 = ops::binary_op(r1.0, Binary::Sub, x, r1.1)->Ok_0;
    let r3 = ops::pointwise_op(r2.0, Unary::Exp, r2.1);
    let r4 = ops::reduce_op(r3.0, Reduce::Sum, r3.1, last)->Ok_0;
    let r5 = ops::pointwise_op(r4.0, Unary::Log, r4.1);
    assert(r1.1.value == top && r2.1.value == low && r3.1.value == e && r4.1.value == sum
        && r5.1.value == l);
    let r6 = ops::binary_op(r5.0, Binary::Add, r5.1, r1.1);
    assert(r6 is Ok);
    assert(ops::logsumexp_op(t, x, last) == r6);
}

/// The logarithms of the shares along the last axis.
#[verifier::spinoff_prover]
pub proof fn law_log_softmax_along_the_last_axis(w: Reader, t: Tape, x: Traced, r: int, c: int)
    requires
        w.fits(x.value),
        x.value.dims.len() <= usize::MAX,
        inside(x.value.dims, r, c),
    ensures
        ({
            let k = x.value.dims.last() as int;
            let y = ops::log_softmax_op(t, x, (x.value.dims.len() - 1) as usize);
            &&& y is Ok
            &&& y->Ok_0.1.value.dims == x.value.dims
            &&& w.fits(y->Ok_0.1.value)
            &&& w.at(y->Ok_0.1.value, r * k + c) == log_shares(w.m.f, row(w, x.value, r, k))[c]
        }),
{
    broadcast use var::lemma_record_value;

    let d = x.value.dims;
    let last = (d.len() - 1) as usize;
    lemma_risen(w, x.value, r);
    let top = tensor::reduce_of(Reduce::Max, x.value, last)->Ok_0;
    let low = tensor::binary_of(Binary::Sub, x.value, top)->Ok_0;
    let e = tensor::unary_of(Unary::Exp, low);
    let sum = tensor::reduce_of(Reduce::Sum, e, last)->Ok_0;
    let l = tensor::unary_of(Unary::Log, sum);
    lemma_rows(w, Binary::Sub, low, l, r, c);
    let r1 = ops::reduce_op(t, Reduce::Max, x, last)->Ok_0;
    let r2 = ops::binary_op(r1.0, Binary::Sub, x, ops::untracked(r1.1.value))->Ok_0;
    let r3 = ops::pointwise_op(r2.0, Unary::Exp, r2.1);
    let r4 = ops::reduce_op(r3.0, Reduce::Sum, r3.1, last)->Ok_0;
    let r5 = ops::pointwise_op(r4.0, Unary::Log, r4.1);
    assert(r1.1.value == top && r2.1.value == low && r3.1.value == e && r4.1.value == sum
        && r5.1.value == l);
    let r6 = ops::binary_op(r5.0, Binary::Sub, r2.1, r5.1);
    assert(r6 is Ok);
    assert(ops::log_softmax_op(t, x, last) == r6);
}

// -- sums over axes ------------------------------------------------------------------------

/// The sum over the last axis, which is then removed.
#[verifier::spinoff_prover]
proof fn lemma_summed(w: Reader, x: Value, r: int)
    requires
        w.fits(x),
        0 < x.dims.len() <= usize::MAX,
        shape::fits(x.dims.drop_last()),
        0 <= r,
    ensures
        ({
            let last = (x.dims.len() - 1) as usize;
            let k = x.dims.last() as int;
            let v = tensor::sum_away_of(x, last);
            &&& v is Ok
            &&& v->Ok_0.dims == x.dims.drop_last()
            &&& w.fits(v->Ok_0)
            &&& w.at(v->Ok_0, r) == rows::sum(row(w, x, r, k), k as nat)
        }),
{
    let d = x.dims;
    let last = (d.len() - 1) as usize;
    lemma_reduced(w, Reduce::Sum, x, r);
    let s = tensor::reduce_of(Reduce::Sum, x, last)->Ok_0;
    let one = d.update(d.len() - 1, 1usize);
    assert(one.drop_last() =~= d.drop_last());
    let h = heights(d);
    assert(h * 1usize as nat == h) by (nonlinear_arith);
    assert(one.remove(last as int) =~= d.drop_last());
    lemma_reshaped(w, s, d.drop_last(), r);
}

/// The same, recorded.
#[verifier::spinoff_prover]
proof fn lemma_sum_away(w: Reader, t: Tape, x: Traced, r: int)
    requires
        w.fits(x.value),
        0 < x.value.dims.len() <= usize::MAX,
        shape::fits(x.value.dims.drop_last()),
        0 <= r,
    ensures
        ({
            let last = (x.value.dims.len() - 1) as usize;
            let k = x.value.dims.last() as int;
            let y = ops::sum_away_op(t, x, last);
            &&& y is Ok
            &&& y->Ok_0.1.value.dims == x.value.dims.drop_last()
            &&& w.fits(y->Ok_0.1.value)
            &&& w.at(y->Ok_0.1.value, r) == rows::sum(row(w, x.value, r, k), k as nat)
        }),
{
    broadcast use var::lemma_record_value;

    let d = x.value.dims;
    let last = (d.len() - 1) as usize;
    lemma_summed(w, x.value, r);
    let one = d.update(d.len() - 1, 1usize);
    assert(one[last as int] == 1);
    let v = tensor::reduce_of(Reduce::Sum, x.value, last)->Ok_0;
    let r1 = ops::reduce_op(t, Reduce::Sum, x, last)->Ok_0;
    assert(r1.1.value == v);
}

proof fn lemma_total_of_row(w: Reader, x: Value, r: int, k: nat, n: nat)
    requires
        n <= k,
    ensures
        rows::sum(row(w, x, r, k as int), n) == total(|j: int| w.at(x, r * (k as int) + j), n),
    decreases n,
{
    if n > 0 {
        lemma_total_of_row(w, x, r, k, (n - 1) as nat);
    }
}

/// The number of elements of the last `n` axes.
pub open spec fn event_size(d: Seq<usize>, n: nat) -> nat {
    shape::product(d.skip(d.len() - n))
}

/// Summing the last `n` axes away sums every event: what is left for a batch element is the
/// sum of all the elements of its event.
#[verifier::spinoff_prover]
pub proof fn law_summing_trailing_axes_sums_events(w: Reader, t: Tape, x: Traced, n: nat, r: int)
    requires
        w.fits(x.value),
        n <= x.value.dims.len() <= usize::MAX,
        0 <= r,
        forall|k: int| 0 <= k <= x.value.dims.len() ==> shape::fits(#[trigger] x.value.dims.take(k)),
    ensures
        ({
            let d = x.value.dims;
            let y = combinator::sum_trailing_op(t, x, n);
            let k = event_size(d, n) as int;
            &&& y is Ok
            &&& y->Ok_0.1.value.dims == d.take(d.len() - n)
            &&& w.fits(y->Ok_0.1.value)
            &&& w.at(y->Ok_0.1.value, r) == total(|j: int| w.at(x.value, r * k + j), k as nat)
        }),
    decreases n,
{
    let d = x.value.dims;
    let k = event_size(d, n) as int;
    if n == 0 {
        assert(d.skip(d.len() as int) =~= Seq::<usize>::empty());
        assert(d.take(d.len() as int) =~= d);
        let f = |j: int| w.at(x.value, r * k + j);
        assert(total(f, 1) == total(f, 0) + f(0));
        assert(r * 1 + 0 == r);
    } else {
        law_summing_trailing_axes_sums_events(w, t, x, (n - 1) as nat, r);
        let (u, v) = combinator::sum_trailing_op(t, x, (n - 1) as nat)->Ok_0;
        let e = d.take(d.len() - (n - 1));
        assert(v.value.dims == e);
        assert(e.drop_last() =~= d.take(d.len() - n));
        lemma_sum_away(w, u, v, r);
        let (m, p) = (e.last() as nat, event_size(d, (n - 1) as nat));
        lemma_total_of_row(w, v.value, r, m, m);
        let g = |i: int| w.at(v.value, r * (m as int) + i);
        let f = |j: int| w.at(x.value, r * k + j);
        lemma_first_extent(d.skip(d.len() - n));
        assert(d.skip(d.len() - n).drop_first() =~= d.skip(d.len() - (n - 1)));
        assert(k == m * p);
        let h = |i: int| total(|j: int| f(i * (p as int) + j), p);
        assert forall|i: int| 0 <= i < m implies #[trigger] g(i) == h(i) by {
            let q = r * (m as int) + i;
            assert(q >= 0) by (nonlinear_arith)
                requires
                    q == r * (m as int) + i,
                    r >= 0,
                    i >= 0,
            ;
            law_summing_trailing_axes_sums_events(w, t, x, (n - 1) as nat, q);
            let a = |j: int| w.at(x.value, q * (p as int) + j);
            let b = |j: int| f(i * (p as int) + j);
            assert(q * (p as int) == r * (m * p) + i * (p as int)) by (nonlinear_arith)
                requires
                    q == r * (m as int) + i,
            ;
            assert forall|j: int| 0 <= j < p implies #[trigger] a(j) == b(j) by {
            }
            expansion::lemma_total_agrees(a, b, p);
        }
        expansion::lemma_total_agrees(g, h, m);
        expansion::lemma_total_rows(f, m, p);
    }
}

/// The first extent of a shape is a factor of the count of its elements.
proof fn lemma_first_extent(s: Seq<usize>)
    requires
        s.len() > 0,
    ensures
        shape::product(s) == s[0] * shape::product(s.drop_first()),
    decreases s.len(),
{
    if s.len() == 1 {
        assert(s.drop_last() =~= Seq::<usize>::empty());
        assert(s.drop_first() =~= Seq::<usize>::empty());
        let e = shape::product(Seq::<usize>::empty());
        assert(e * s[0] == s[0] * e) by (nonlinear_arith);
    } else {
        lemma_first_extent(s.drop_last());
        assert(s.drop_last().drop_first() =~= s.drop_first().drop_last());
        let (a, b, c) = (
            s[0] as nat,
            shape::product(s.drop_first().drop_last()),
            s.last() as nat,
        );
        assert((a * b) * c == a * (b * c)) by (nonlinear_arith);
    }
}

// -- mixtures ------------------------------------------------------------------------------

/// Values of every component, weighed and summed.
pub open spec fn weighed(x: Seq<real>, p: Seq<real>) -> real {
    let s = Seq::new(x.len(), |k: int| x[k] * p[k]);
    rows::sum(s, s.len())
}

/// The mean of a mixture is the sum of its components' means, each times its weight.
#[verifier::spinoff_prover]
pub proof fn law_an_average_weighs_its_components(w: Reader, each: Value, probs: Value, r: int)
    requires
        w.fits(each),
        w.fits(probs),
        0 < each.dims.len() <= usize::MAX,
        probs.dims == each.dims,
        shape::fits(each.dims.drop_last()),
        0 <= r < heights(each.dims),
        0 < each.dims.last(),
    ensures
        ({
            let k = each.dims.last() as int;
            let y = combinator::averaged(each, probs);
            &&& y is Ok
            &&& y->Ok_0.dims == each.dims.drop_last()
            &&& w.fits(y->Ok_0)
            &&& w.at(y->Ok_0, r) == weighed(row(w, each, r, k), row(w, probs, r, k))
        }),
{
    let k = each.dims.last() as int;
    lemma_entry(each.dims, r, 0);
    lemma_pair(w, Binary::Mul, each, probs, r * k);
    let v = tensor::binary_of(Binary::Mul, each, probs)->Ok_0;
    lemma_summed(w, v, r);
    let (xs, ps) = (row(w, each, r, k), row(w, probs, r, k));
    let s = Seq::new(xs.len(), |c: int| xs[c] * ps[c]);
    assert forall|c: int| 0 <= c < k implies row(w, v, r, k)[c] == s[c] by {
        lemma_entry(each.dims, r, c);
        lemma_pair(w, Binary::Mul, each, probs, r * k + c);
    }
    assert(row(w, v, r, k) =~= s);
}

/// The variances of the components plus the squared distances of their means from a mean.
pub open spec fn spreads(vars: Seq<real>, means: Seq<real>, mean: real) -> Seq<real> {
    Seq::new(vars.len(), |k: int| vars[k] + (means[k] - mean) * (means[k] - mean))
}

/// The law of total variance: the variance of a mixture is the weighed sum of its components'
/// variances and of the squared distances of their means from the mean of the mixture.
#[verifier::spinoff_prover]
pub proof fn law_a_mixture_has_the_total_variance(
    w: Reader,
    vars: Value,
    means: Value,
    mean: Value,
    probs: Value,
    r: int,
)
    requires
        w.fits(vars),
        w.fits(means),
        w.fits(mean),
        w.fits(probs),
        0 < means.dims.len() <= usize::MAX,
        vars.dims == means.dims,
        probs.dims == means.dims,
        mean.dims == means.dims.drop_last(),
        shape::fits(mean.dims),
        0 <= r < heights(means.dims),
        0 < means.dims.last(),
    ensures
        ({
            let k = means.dims.last() as int;
            let y = combinator::total_variance(vars, means, mean, probs);
            &&& y is Ok
            &&& y->Ok_0.dims == mean.dims
            &&& w.at(y->Ok_0, r) == weighed(
                spreads(row(w, vars, r, k), row(w, means, r, k), w.at(mean, r)),
                row(w, probs, r, k),
            )
        }),
{
    let d = means.dims;
    let axis = (d.len() - 1) as usize;
    let k = d.last() as int;
    let one = d.update(d.len() - 1, 1usize);
    assert(mean.dims.insert(axis as int, 1usize) =~= one);
    assert(one.drop_last() =~= d.drop_last());
    let h = heights(d);
    assert(h * 1usize as nat == h) by (nonlinear_arith);
    lemma_reshaped(w, mean, one, r);
    let column = tensor::reshape_of(mean, one)->Ok_0;
    lemma_variance_step(w, vars, means, column, probs, r, 0);
    let centred = tensor::binary_of(Binary::Sub, means, column)->Ok_0;
    let spread = tensor::binary_of(Binary::Mul, centred, centred)->Ok_0;
    let sum = tensor::binary_of(Binary::Add, vars, spread)->Ok_0;
    let v = tensor::binary_of(Binary::Mul, sum, probs)->Ok_0;
    lemma_summed(w, v, r);
    let (vs, ms, ps) = (row(w, vars, r, k), row(w, means, r, k), row(w, probs, r, k));
    let at = spreads(vs, ms, w.at(mean, r));
    let s = Seq::new(at.len(), |c: int| at[c] * ps[c]);
    assert forall|c: int| 0 <= c < k implies row(w, v, r, k)[c] == s[c] by {
        lemma_variance_step(w, vars, means, column, probs, r, c);
    }
    assert(row(w, v, r, k) =~= s);
}

#[verifier::spinoff_prover]
proof fn lemma_variance_step(
    w: Reader,
    vars: Value,
    means: Value,
    column: Value,
    probs: Value,
    r: int,
    c: int,
)
    requires
        w.fits(vars),
        w.fits(means),
        w.fits(column),
        w.fits(probs),
        vars.dims == means.dims,
        probs.dims == means.dims,
        inside(means.dims, r, c),
        column.dims == means.dims.update(means.dims.len() - 1, 1usize),
    ensures
        ({
            let i = r * means.dims.last() + c;
            let centred = tensor::binary_of(Binary::Sub, means, column);
            let spread = tensor::binary_of(Binary::Mul, centred->Ok_0, centred->Ok_0);
            let sum = tensor::binary_of(Binary::Add, vars, spread->Ok_0);
            let v = tensor::binary_of(Binary::Mul, sum->Ok_0, probs);
            let gap = w.at(means, i) - w.at(column, r);
            &&& centred is Ok && spread is Ok && sum is Ok && v is Ok
            &&& v->Ok_0.dims == means.dims
            &&& w.fits(v->Ok_0)
            &&& w.at(v->Ok_0, i) == (w.at(vars, i) + gap * gap) * w.at(probs, i)
        }),
{
    let i = r * means.dims.last() + c;
    lemma_entry(means.dims, r, c);
    lemma_rows(w, Binary::Sub, means, column, r, c);
    let centred = tensor::binary_of(Binary::Sub, means, column)->Ok_0;
    lemma_pair(w, Binary::Mul, centred, centred, i);
    let spread = tensor::binary_of(Binary::Mul, centred, centred)->Ok_0;
    lemma_pair(w, Binary::Add, vars, spread, i);
    let sum = tensor::binary_of(Binary::Add, vars, spread)->Ok_0;
    lemma_pair(w, Binary::Mul, sum, probs, i);
}

/// The joint log-densities of a row of components.
pub open spec fn joint(f: Functions, each: Seq<real>, logits: Seq<real>) -> Seq<real> {
    Seq::new(each.len(), |k: int| each[k] + log_shares(f, logits)[k])
}

/// The density of a mixture is the weighed sum of its components' densities: its logarithm is
/// that of the sum of the exponentials of every component's log-density plus its log-weight.
/// Returns the tape and the value at which the components are asked, which holds the value
/// once per component.
#[verifier::spinoff_prover]
pub proof fn law_a_mixture_weighs_densities<D: Distribution>(
    w: Reader,
    t: Tape,
    c: Choice,
    components: D,
    value: Traced,
    r: int,
) -> (asked: (Tape, Traced))
    requires
        combinator::mixture_log_prob_op(t, c, components, value) is Ok,
        w.fits(value.value),
        w.fits(c.logits.value),
        components.batch().len() > 0,
        components.batch().len() <= usize::MAX,
        value.value.dims == components.batch().drop_last(),
        c.logits.value.dims == components.batch(),
        c.axis() == components.batch().len() - 1,
        forall|u: Tape, v: Traced|
            (#[trigger] components.log_prob_of(u, v)) matches Ok(e) ==> e.1.value.dims
                == components.batch() && w.fits(e.1.value),
        0 <= r < shape::product(value.value.dims),
        0 < components.batch().last(),
        shape::fits(value.value.dims),
    ensures
        ({
            let k = components.batch().last() as int;
            let e = components.log_prob_of(asked.0, asked.1);
            &&& e is Ok
            &&& forall|j: int|
                0 <= j < k ==> #[trigger] w.at(asked.1.value, r * k + j) == w.at(value.value, r)
            &&& asked.1.value.dims == components.batch()
            &&& w.at(combinator::mixture_log_prob_op(t, c, components, value)->Ok_0.1.value, r)
                == log_sum(
                w.m.f,
                joint(
                    w.m.f,
                    row(w, e->Ok_0.1.value, r, k),
                    row(w, c.logits.value, r, k),
                ),
            )
        }),
{
    broadcast use var::lemma_record_value;

    let b = components.batch();
    let axis = value.value.dims.len() as usize;
    let k = b.last() as int;
    let one = b.update(b.len() - 1, 1usize);
    assert(value.value.dims.insert(axis as int, 1usize) =~= one);
    assert(one.drop_last() =~= b.drop_last());
    let h = heights(b);
    assert(h * 1usize as nat == h) by (nonlinear_arith);
    let r1 = ops::reshape_op(t, value, one)->Ok_0;
    let column = tensor::reshape_of(value.value, one)->Ok_0;
    assert(r1.1.value == column);
    lemma_reshaped(w, value.value, one, r);
    let r2 = ops::expand_op(r1.0, r1.1, b)->Ok_0;
    let spread = tensor::expand_of(column, b)->Ok_0;
    assert(r2.1.value == spread);
    term::law_dims_entries(b);
    assert forall|j: int| 0 <= j < k implies #[trigger] w.at(spread, r * k + j) == w.at(
        value.value,
        r,
    ) by {
        lemma_entry(b, r, j);
        let i = r * k + j;
        assert(w.at(spread, i) == w.at(column, shape::place(i, b, one)));
        lemma_column_place(b, i);
    }
    let r3 = components.log_prob_of(r2.0, r2.1)->Ok_0;
    let each = r3.1.value;
    assert(components.log_prob_of(r2.0, r2.1) is Ok);
    law_log_softmax_along_the_last_axis(w, r3.0, c.logits, r, 0);
    let r4 = ops::log_softmax_op(r3.0, c.logits, c.axis())->Ok_0;
    let weights = r4.1.value;
    lemma_entry(b, r, 0);
    lemma_pair(w, Binary::Add, each, weights, r * k);
    let sum = tensor::binary_of(Binary::Add, each, weights)->Ok_0;
    let r5 = ops::binary_op(r4.0, Binary::Add, r3.1, r4.1)->Ok_0;
    assert(r5.1.value == sum);
    let want = joint(w.m.f, row(w, each, r, k), row(w, c.logits.value, r, k));
    assert forall|j: int| 0 <= j < k implies row(w, sum, r, k)[j] == want[j] by {
        lemma_entry(b, r, j);
        lemma_pair(w, Binary::Add, each, weights, r * k + j);
        law_log_softmax_along_the_last_axis(w, r3.0, c.logits, r, j);
    }
    assert(row(w, sum, r, k) =~= want);
    law_logsumexp_along_the_last_axis(w, r5.0, r5.1, r);
    let r6 = ops::logsumexp_op(r5.0, r5.1, axis)->Ok_0;
    assert(r6.1.value.dims == one);
    let r7 = ops::squeeze_op(r6.0, r6.1, axis);
    assert(r7 is Ok);
    lemma_reshaped(w, r6.1.value, one.remove(axis as int), r);
    assert(combinator::mixture_log_prob_op(t, c, components, value) == r7);
    (r2.0, r2.1)
}

proof fn lemma_column_place(d: Seq<usize>, i: int)
    requires
        d.len() > 0,
        0 <= i < shape::product(d),
        0 <= i / (d.last() as int) < heights(d),
    ensures
        shape::place(i, d, d.update(d.len() - 1, 1usize)) == i / (d.last() as int),
{
    let one = d.update(d.len() - 1, 1usize);
    assert(one.drop_last() =~= d.drop_last());
    let q = i / (d.last() as int);
    shape::lemma_place_same(q, d.drop_last());
    assert(q * 1 == q);
}

/// The log-density and the entropy of independent events are the sums of those of the parts:
/// what a batch element gets is the sum over its event.
#[verifier::spinoff_prover]
pub proof fn law_independent_events_add_up<D: Distribution>(
    w: Reader,
    t: Tape,
    d: combinator::Independent<D>,
    value: Traced,
    r: int,
)
    requires
        0 <= r,
    ensures
        d.under().log_prob_of(t, value) matches Ok(e) ==> (summable(w, e.1.value, d.axes()) ==> (
        d.log_prob_of(t, value) matches Ok(y) && adds_up(
            w,
            e.1.value,
            y.1.value,
            d.axes() as nat,
            r,
        ))),
        d.under().entropy_of(t) matches Ok(e) ==> (summable(w, e.1.value, d.axes()) ==> (
        d.entropy_of(t) matches Ok(y) && adds_up(w, e.1.value, y.1.value, d.axes() as nat, r))),
        d.under().log_prob_of(t, value) is Err ==> d.log_prob_of(t, value) is Err,
{
    if let Ok(e) = d.under().log_prob_of(t, value) {
        if summable(w, e.1.value, d.axes()) {
            law_summing_trailing_axes_sums_events(w, e.0, e.1, d.axes() as nat, r);
        }
    }
    if let Ok(e) = d.under().entropy_of(t) {
        if summable(w, e.1.value, d.axes()) {
            law_summing_trailing_axes_sums_events(w, e.0, e.1, d.axes() as nat, r);
        }
    }
}

/// Whether the last `n` axes of a tensor can be summed away.
pub open spec fn summable(w: Reader, x: Value, n: usize) -> bool {
    &&& w.fits(x)
    &&& n <= x.dims.len() <= usize::MAX
    &&& forall|k: int| 0 <= k <= x.dims.len() ==> shape::fits(#[trigger] x.dims.take(k))
}

/// Whether element `r` of a result is the sum of event `r`.
pub open spec fn adds_up(w: Reader, x: Value, y: Value, n: nat, r: int) -> bool {
    let k = event_size(x.dims, n) as int;
    &&& y.dims == x.dims.take(x.dims.len() - n)
    &&& w.at(y, r) == total(|j: int| w.at(x, r * k + j), k as nat)
}

/// The mean of a mixture weighs its components' means by the softmax of its logits, and its
/// variance is the total variance about that mean.
#[verifier::spinoff_prover]
pub proof fn law_moments_of_a_mixture<D: Distribution>(
    w: Reader,
    t: Tape,
    c: Choice,
    components: D,
    means: Value,
    vars: Value,
    t1: Tape,
    t2: Tape,
    t3: Tape,
    r: int,
)
    requires
        c.wf(),
        w.fits(c.logits.value),
        components.mean_of(t) == Ok::<(Tape, Value), Fault>((t1, means)),
        components.variance_of(t) == Ok::<(Tape, Value), Fault>((t2, vars)),
        components.mean_of(t2) == Ok::<(Tape, Value), Fault>((t3, means)),
        w.fits(means),
        w.fits(vars),
        means.dims == c.logits.value.dims,
        vars.dims == means.dims,
        0 <= r < heights(means.dims),
    ensures
        ({
            let k = c.classes() as int;
            let p = rows::probabilities(w.m, row(w, c.logits.value, r, k));
            let mean = weighed(row(w, means, r, k), p);
            let a = combinator::mixture_mean(t, c, components);
            let b = combinator::mixture_variance(t, c, components);
            &&& a is Ok
            &&& w.at(a->Ok_0.1, r) == mean
            &&& b is Ok
            &&& w.at(b->Ok_0.1, r) == weighed(
                spreads(row(w, vars, r, k), row(w, means, r, k), mean),
                p,
            )
        }),
{
    let k = c.classes() as int;
    let probs = categorical::probs_of(c);
    let logits = c.logits.value;
    super::readings::lemma_kernel(
        w,
        crate::term::Fused::RowProbs,
        seq![logits],
        logits.dims,
    );
    assert(w.fits(probs));
    let p = rows::probabilities(w.m, row(w, logits, r, k));
    assert(super::readings::logits_at(w, c, r) =~= row(w, logits, r, k));
    assert forall|j: int| 0 <= j < k implies row(w, probs, r, k)[j] == p[j] by {
        super::readings::law_probs_are_the_softmax(w, c, r, j);
    }
    assert(row(w, probs, r, k) =~= p);
    law_an_average_weighs_its_components(w, means, probs, r);
    let mean = combinator::averaged(means, probs)->Ok_0;
    law_a_mixture_has_the_total_variance(w, vars, means, mean, probs, r);
}

/// The divergence of one row of logits from another: the sum over the classes of the
/// probability times the difference of the log-probabilities.
pub open spec fn row_divergence(f: Functions, p: Seq<real>, q: Seq<real>) -> real {
    let (lp, lq) = (log_shares(f, p), log_shares(f, q));
    let s = Seq::new(p.len(), |c: int| (f.exp)(lp[c]) * (lp[c] - lq[c]));
    rows::sum(s, s.len())
}

/// The divergence of one categorical from another is, row by row, the expected difference of
/// their log-probabilities under the first.
#[verifier::spinoff_prover]
pub proof fn law_divergence_of_categoricals(w: Reader, t: Tape, p: Choice, q: Choice, r: int)
    requires
        p.wf(),
        q.wf(),
        w.fits(p.logits.value),
        w.fits(q.logits.value),
        q.logits.value.dims == p.logits.value.dims,
        0 <= r < heights(p.logits.value.dims),
    ensures
        ({
            let k = p.classes() as int;
            let y = super::kl::categorical_op(t, p, q);
            &&& y is Ok
            &&& y->Ok_0.1.value.dims == p.batch()
            &&& w.at(y->Ok_0.1.value, r) == row_divergence(
                w.m.f,
                row(w, p.logits.value, r, k),
                row(w, q.logits.value, r, k),
            )
        }),
{
    broadcast use var::lemma_record_value;

    let d = p.logits.value.dims;
    let k = d.last() as int;
    let axis = p.axis();
    law_log_softmax_along_the_last_axis(w, t, p.logits, r, 0);
    let (t1, lp) = ops::log_softmax_op(t, p.logits, axis)->Ok_0;
    law_log_softmax_along_the_last_axis(w, t1, q.logits, r, 0);
    let (t2, lq) = ops::log_softmax_op(t1, q.logits, axis)->Ok_0;
    let (t3, probs) = ops::pointwise_op(t2, Unary::Exp, lp);
    lemma_entry(d, r, 0);
    lemma_each(w, Unary::Exp, lp.value, r * k);
    lemma_pair(w, Binary::Sub, lp.value, lq.value, r * k);
    let gv = tensor::binary_of(Binary::Sub, lp.value, lq.value)->Ok_0;
    let (t4, gap) = ops::binary_op(t3, Binary::Sub, lp, lq)->Ok_0;
    assert(gap.value == gv);
    lemma_pair(w, Binary::Mul, probs.value, gv, r * k);
    let vv = tensor::binary_of(Binary::Mul, probs.value, gv)->Ok_0;
    let (t5, v) = ops::binary_op(t4, Binary::Mul, probs, gap)->Ok_0;
    assert(v.value == vv);
    lemma_sum_away(w, t5, v, r);
    let (ps, qs) = (row(w, p.logits.value, r, k), row(w, q.logits.value, r, k));
    let (a, b) = (log_shares(w.m.f, ps), log_shares(w.m.f, qs));
    let s = Seq::new(ps.len(), |c: int| (w.m.f.exp)(a[c]) * (a[c] - b[c]));
    assert forall|c: int| 0 <= c < k implies row(w, vv, r, k)[c] == s[c] by {
        lemma_entry(d, r, c);
        law_log_softmax_along_the_last_axis(w, t, p.logits, r, c);
        law_log_softmax_along_the_last_axis(w, t1, q.logits, r, c);
        lemma_each(w, Unary::Exp, lp.value, r * k + c);
        lemma_pair(w, Binary::Sub, lp.value, lq.value, r * k + c);
        lemma_pair(w, Binary::Mul, probs.value, gv, r * k + c);
    }
    assert(row(w, vv, r, k) =~= s);
    assert(super::kl::categorical_op(t, p, q) == ops::sum_away_op(t5, v, axis));
}

} // verus!
