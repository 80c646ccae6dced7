//! What every operation records, and the gradient that goes back through it, element by
//! element over the real numbers.

use vstd::prelude::*;

use super::broadcast_laws;
use super::expansion;
use super::expansion::total;
use super::graph::Tape;
use super::ops;
use super::reduce;
use super::rule;
use super::rule::{Adjoint, RuleOf};
use super::var;
use super::var::Traced;
use crate::buffer;
use crate::buffer::Reader;
use crate::distributions::launches;
use crate::distributions::rows;
use crate::error::Fault;
use crate::meaning;
use crate::nn::value_readings::{
    heights, inside, lemma_each, lemma_entry, lemma_pair, lemma_product, lemma_reduced,
    lemma_reshaped, lemma_rows, row, row_times_column,
};
use crate::shape;
use crate::tensor;
use crate::tensor::{IdValue, Value};
use crate::term;
use crate::term::{Binary, Product, Reduce, Scalar, Scan, Unary};

verus! {

/// One operand's result: what was computed, and the rule that its gradient goes back by.
pub open spec fn unary_record(r: Result<(Tape, Traced), Fault>, t: Tape, a: Traced, y: Value, back: Adjoint) -> bool {
    r == Ok::<(Tape, Traced), Fault>(var::record(t, y, seq![a.trace], back))
}

/// The one gradient that a rule gives.
pub open spec fn only(r: Result<Seq<Option<Value>>, Fault>, dx: Value) -> bool {
    r matches Ok(grads) && grads.len() == 1 && grads[0] == Some(dx)
}

// -- products ------------------------------------------------------------------------------

/// A row times a row of a matrix.
pub open spec fn row_times_row(w: Reader, x: Seq<real>, m: Value, k: int) -> real {
    let s = Seq::new(x.len(), |c: int| x[c] * w.at(m, k * (x.len() as int) + c));
    rows::sum(s, s.len())
}

/// A column of one tensor times a column of another, over all their rows.
pub open spec fn column_times_column(w: Reader, x: Value, g: Value, height: nat, k: int, c: int) -> real {
    let s = Seq::new(
        height,
        |r: int| w.at(x, r * x.dims.last() + k) * w.at(g, r * g.dims.last() + c),
    );
    rows::sum(s, s.len())
}

proof fn lemma_plain_batch(s: Seq<usize>)
    ensures
        shape::compatible(s, Seq::<usize>::empty()),
        shape::broadcast_dims(s, Seq::<usize>::empty()) == s,
{
    let e = Seq::<usize>::empty();
    let n = s.len();
    assert(shape::max_rank(s, e) == n);
    assert(shape::left_padded(s, n) =~= s);
    assert forall|i: int| 0 <= i < n implies #[trigger] shape::left_padded(e, n)[i] == 1 by {
        assert(n > 0);
    }
    assert forall|i: int| 0 <= i < n implies shape::extents_agree(
        #[trigger] shape::left_padded(s, n)[i],
        shape::left_padded(e, n)[i],
    ) by {
        assert(shape::left_padded(e, n)[i] == 1);
    }
    assert(shape::broadcast_dims(s, e) =~= s) by {
        assert forall|i: int| 0 <= i < n implies shape::broadcast_dims(s, e)[i] == s[i] by {
            assert(shape::left_padded(e, n)[i] == 1);
        }
    }
}

/// Every row of a tensor times a matrix transposed.
#[verifier::spinoff_prover]
proof fn lemma_product_transposed(w: Reader, g: Value, m: Value, r: int, k: int)
    requires
        w.fits(g),
        w.fits(m),
        g.dims.len() >= 2,
        m.dims.len() == 2,
        m.dims[1] == g.dims.last(),
        0 <= r < heights(g.dims),
        0 <= k < m.dims[0],
    ensures
        ({
            let v = tensor::product_of(Product::RightTransposed, g, m);
            let n = m.dims[0] as int;
            &&& v is Ok
            &&& v->Ok_0.dims == g.dims.drop_last().push(m.dims[0])
            &&& w.fits(v->Ok_0)
            &&& w.at(v->Ok_0, r * n + k) == row_times_row(
                w,
                row(w, g, r, g.dims.last() as int),
                m,
                k,
            )
        }),
{
    let d = g.dims;
    let batch = d.take(d.len() - 2);
    let e = Seq::<usize>::empty();
    assert(m.dims.take(0) =~= e);
    lemma_plain_batch(batch);
    let v = tensor::product_of(Product::RightTransposed, g, m)->Ok_0;
    let (h, l, n) = (d[d.len() - 2] as int, d.last() as int, m.dims[0] as int);
    assert(d.drop_last().drop_last() =~= batch);
    assert(v.dims =~= d.drop_last().push(m.dims[0]));
    let p = shape::product(batch) as int;
    assert(heights(d) == p * h);
    assert(h > 0) by (nonlinear_arith)
        requires
            0 <= r < p * h,
            h >= 0,
    ;
    let (i, b, q) = (r * n + k, r / h, r % h);
    assert(0 <= b < p && 0 <= q < h && b * h + q == r) by (nonlinear_arith)
        requires
            0 <= r < p * h,
            h > 0,
            b == r / h,
            q == r % h,
    ;
    vstd::arithmetic::div_mod::lemma_fundamental_div_mod_converse(i, n, r, k);
    assert(i >= 0) by (nonlinear_arith)
        requires
            i == r * n + k,
            r >= 0,
            n >= 0,
            k >= 0,
    ;
    vstd::arithmetic::div_mod::lemma_div_denominator(i, n, h);
    assert(n * h == h * n) by (nonlinear_arith);
    shape::lemma_place_same(b, batch);
    let (a, y) = (w.of(g.term), w.of(m.term));
    assert(w.of(v.term) == buffer::multiplied(Product::RightTransposed, a, y));
    assert(w.of(v.term).dims =~= v.dims);
    assert(w.at(v, i) == buffer::entry(Product::RightTransposed, a, y, batch, b, q, k));
    let xs = row(w, g, r, l);
    let terms = Seq::new(
        l as nat,
        |j: int| (a.at)((b * h + q) * l + j) * (y.at)((0 * n + k) * l + j),
    );
    let s = Seq::new(xs.len(), |c: int| xs[c] * w.at(m, k * (xs.len() as int) + c));
    assert forall|j: int| 0 <= j < l implies terms[j] == s[j] by {
        assert(0 * n + k == k);
    }
    assert(terms =~= s);
    assert(shape::place(b, batch, e) == 0);
    assert(buffer::entry(Product::RightTransposed, a, y, batch, b, q, k) == rows::sum(
        terms,
        terms.len(),
    ));
}

/// The columns of one matrix times the columns of another.
#[verifier::spinoff_prover]
proof fn lemma_columns_product(w: Reader, x: Value, g: Value, k: int, c: int)
    requires
        w.fits(x),
        w.fits(g),
        x.dims.len() == 2,
        g.dims.len() == 2,
        x.dims[0] == g.dims[0],
        0 <= k < x.dims[1],
        0 <= c < g.dims[1],
    ensures
        ({
            let v = tensor::product_of(Product::LeftTransposed, x, g);
            &&& v is Ok
            &&& v->Ok_0.dims == seq![x.dims[1], g.dims[1]]
            &&& w.fits(v->Ok_0)
            &&& w.at(v->Ok_0, k * g.dims[1] + c) == column_times_column(
                w,
                x,
                g,
                x.dims[0] as nat,
                k,
                c,
            )
        }),
{
    let e = Seq::<usize>::empty();
    assert(x.dims.take(0) =~= e && g.dims.take(0) =~= e);
    lemma_plain_batch(e);
    let v = tensor::product_of(Product::LeftTransposed, x, g)->Ok_0;
    let (h, m, n) = (x.dims[0] as int, x.dims[1] as int, g.dims[1] as int);
    assert(v.dims =~= seq![x.dims[1], g.dims[1]]);
    let i = k * n + c;
    vstd::arithmetic::div_mod::lemma_fundamental_div_mod_converse(i, n, k, c);
    assert(0 <= i < m * n) by (nonlinear_arith)
        requires
            i == k * n + c,
            0 <= k < m,
            0 <= c < n,
    ;
    vstd::arithmetic::div_mod::lemma_fundamental_div_mod_converse(i, m * n, 0, i);
    vstd::arithmetic::div_mod::lemma_small_mod(k as nat, m as nat);
    let (a, y) = (w.of(x.term), w.of(g.term));
    assert(w.of(v.term) == buffer::multiplied(Product::LeftTransposed, a, y));
    assert(w.of(v.term).dims =~= v.dims);
    assert(w.at(v, i) == buffer::entry(Product::LeftTransposed, a, y, e, 0, k, c));
    let terms = Seq::new(
        h as nat,
        |j: int| (a.at)((0 * h + j) * m + k) * (y.at)((0 * h + j) * n + c),
    );
    let s = Seq::new(
        x.dims[0] as nat,
        |r: int| w.at(x, r * x.dims.last() + k) * w.at(g, r * g.dims.last() + c),
    );
    assert forall|j: int| 0 <= j < h implies terms[j] == s[j] by {
        assert(0 * h + j == j);
    }
    assert(terms =~= s);
    assert(shape::place(0, e, e) == 0);
    assert(buffer::entry(Product::LeftTransposed, a, y, e, 0, k, c) == rows::sum(
        terms,
        terms.len(),
    ));
}

proof fn lemma_two(a: usize, b: usize)
    ensures
        shape::product(seq![a, b]) == a * b,
        heights(seq![a, b]) == a,
{
    let e = shape::product(Seq::<usize>::empty());
    assert(seq![a, b].drop_last() =~= seq![a]);
    assert(seq![a].drop_last() =~= Seq::<usize>::empty());
    assert(e * a == a) by (nonlinear_arith)
        requires
            e == 1,
    ;
    assert(shape::product(seq![a]) == a);
}

/// The gradient of a matrix, from all rows of the input and of the gradient.
#[verifier::spinoff_prover]
proof fn lemma_weight_grad(w: Reader, x: Value, g: Value, target: Seq<usize>, k: int, c: int)
    requires
        w.fits(x),
        w.fits(g),
        x.dims.len() >= 2,
        g.dims.len() == x.dims.len(),
        g.dims.drop_last() == x.dims.drop_last(),
        target == seq![x.dims.last(), g.dims.last()],
        shape::fits(x.dims),
        shape::fits(g.dims),
        shape::fits(x.dims.drop_last()),
        0 <= k < x.dims.last(),
        0 <= c < g.dims.last(),
    ensures
        ({
            let v = reduce::weight_grad_of(x, g, target);
            &&& v is Ok
            &&& v->Ok_0.dims == target
            &&& w.at(v->Ok_0, k * g.dims.last() + c) == column_times_column(
                w,
                x,
                g,
                heights(x.dims),
                k,
                c,
            )
        }),
{
    let (m, n) = (x.dims.last(), g.dims.last());
    let h = heights(x.dims);
    let rows_of = h as usize;
    assert(x.dims.take(x.dims.len() - 1) =~= x.dims.drop_last());
    assert(g.dims.take(g.dims.len() - 1) =~= g.dims.drop_last());
    assert(x.dims.take(x.dims.len() - 2) =~= x.dims.drop_last().take(x.dims.len() - 2));
    assert(g.dims.take(x.dims.len() - 2) =~= g.dims.drop_last().take(x.dims.len() - 2));
    vstd::arithmetic::div_mod::lemma_div_multiples_vanish(h as int, m as int);
    vstd::arithmetic::div_mod::lemma_div_multiples_vanish(h as int, n as int);
    assert(m * h == h * m && n * h == h * n) by (nonlinear_arith);
    assert(shape::product(x.dims) / (m as nat) == h && shape::product(g.dims) / (n as nat) == h);
    match reduce::stacked_rows(x.dims, g.dims, target) {
        Some(rs) => {
            lemma_two(rs, m);
            lemma_two(rs, n);
            let (dx, dg) = (seq![rs, m], seq![rs, n]);
            let a = tensor::reshape_of(x, dx)->Ok_0;
            let b = tensor::reshape_of(g, dg)->Ok_0;
            assert(rs == h);
            lemma_reshaped(w, x, dx, 0);
            lemma_reshaped(w, g, dg, 0);
            lemma_columns_product(w, a, b, k, c);
            let s = Seq::new(
                h,
                |r: int| w.at(x, r * x.dims.last() + k) * w.at(g, r * g.dims.last() + c),
            );
            let u = Seq::new(
                rs as nat,
                |r: int| w.at(a, r * a.dims.last() + k) * w.at(b, r * b.dims.last() + c),
            );
            assert forall|r: int| 0 <= r < h implies s[r] == u[r] by {
                lemma_reshaped(w, x, dx, r * m + k);
                lemma_reshaped(w, g, dg, r * n + c);
            }
            assert(s =~= u);
        },
        None => {
            // Only tensors of two axes are not stacked.
            assert(x.dims =~= seq![x.dims[0], m]);
            assert(g.dims =~= seq![g.dims[0], n]);
            assert(x.dims.drop_last()[0] == g.dims.drop_last()[0]);
            lemma_two(x.dims[0], m);
            lemma_columns_product(w, x, g, k, c);
            assert(seq![x.dims[1], g.dims[1]] =~= target);
        },
    }
}

/// The gradients of a product with a matrix. The rows of the input receive the gradient's rows
/// times the transposed matrix, and the matrix receives the input's columns times the
/// gradient's columns. Returns what is recorded.
#[verifier::spinoff_prover]
pub proof fn law_gradients_of_a_matrix_product(
    w: Reader,
    t: Tape,
    x: Traced,
    m: Traced,
    g: Value,
    bands: Seq<Option<Value>>,
    r: int,
    k: int,
    c: int,
) -> (made: (Value, Adjoint))
    requires
        x.trace is Some,
        m.trace is Some,
        w.fits(x.value),
        w.fits(m.value),
        w.fits(g),
        x.value.dims.len() >= 2,
        m.value.dims.len() == 2,
        m.value.dims[0] == x.value.dims.last(),
        g.dims == x.value.dims.drop_last().push(m.value.dims[1]),
        shape::fits(x.value.dims),
        shape::fits(g.dims),
        shape::fits(x.value.dims.drop_last()),
        0 <= r < heights(x.value.dims),
        0 <= k < m.value.dims[0],
        0 <= c < m.value.dims[1],
    ensures
        ops::product_op(t, Product::Plain, x, m) == Ok::<(Tape, Traced), Fault>(
            var::record(t, made.0, seq![x.trace, m.trace], made.1),
        ),
        w.at(made.0, r * m.value.dims[1] + c) == row_times_column(
            w,
            row(w, x.value, r, x.value.dims.last() as int),
            m.value,
            m.value.dims[1] as int,
            c,
        ),
        rule::pullback(made.1, g, bands) matches Ok(grads) && grads.len() == 2 && (
        grads[0] matches Some(dx) && dx.dims == x.value.dims && w.at(
            dx,
            r * x.value.dims.last() + k,
        ) == row_times_row(w, row(w, g, r, g.dims.last() as int), m.value, k)) && (
        grads[1] matches Some(dm) && dm.dims == m.value.dims && w.at(
            dm,
            k * m.value.dims[1] + c,
        ) == column_times_column(w, x.value, g, heights(x.value.dims), k, c)),
{
    lemma_product(w, x.value, m.value, r, c);
    let y = tensor::product_of(Product::Plain, x.value, m.value)->Ok_0;
    let back: Adjoint = RuleOf::MatMul(true, true, x.value, m.value);
    assert(g.dims.drop_last() =~= x.value.dims.drop_last());
    lemma_product_transposed(w, g, m.value, r, k);
    let v = tensor::product_of(Product::RightTransposed, g, m.value)->Ok_0;
    assert(v.dims =~= x.value.dims);
    assert(m.value.dims =~= seq![x.value.dims.last(), g.dims.last()]);
    lemma_weight_grad(w, x.value, g, m.value.dims, k, c);
    lemma_matrix_pullback(x.value, m.value, g, bands);
    (y, back)
}

proof fn lemma_matrix_pullback(x: Value, m: Value, g: Value, bands: Seq<Option<Value>>)
    ensures
        rule::pullback(RuleOf::MatMul(true, true, x, m), g, bands) == rule::pair(
            rule::wanted(
                true,
                rule::onward(
                    tensor::product_of(Product::RightTransposed, g, m),
                    |v: Value| reduce::reduce_to(v, x.dims),
                ),
            ),
            rule::wanted(true, reduce::weight_grad_of(x, g, m.dims)),
        ),
{
    reveal(rule::pullback);
    reveal(rule::arithmetic_pullback);
}

// -- reductions ----------------------------------------------------------------------------

proof fn lemma_expanded(w: Reader, a: Value, d: Seq<usize>, i: int)
    requires
        w.fits(a),
        tensor::expands(a.dims, d),
    ensures
        tensor::expand_of(a, d) is Ok,
        tensor::expand_of(a, d)->Ok_0.dims == d,
        w.fits(tensor::expand_of(a, d)->Ok_0),
        w.at(tensor::expand_of(a, d)->Ok_0, i) == w.at(a, shape::place(i, d, a.dims)),
{
    term::law_dims_entries(d);
}

/// The gradient of a sum or a mean along an axis: every element receives the gradient of the
/// sum it went into, divided by the number of its elements for a mean. Returns what is
/// recorded, and the gradient.
#[verifier::spinoff_prover]
pub proof fn law_gradient_of_a_sum_along_an_axis(
    w: Reader,
    t: Tape,
    mean: bool,
    x: Traced,
    axis: usize,
    g: Value,
    bands: Seq<Option<Value>>,
    i: int,
) -> (made: (Value, Adjoint, Value))
    requires
        w.fits(g),
        axis < x.value.dims.len(),
        g.dims == x.value.dims.update(axis as int, 1usize),
        tensor::expands(g.dims, x.value.dims),
        0 <= i < shape::product(x.value.dims),
    ensures
        unary_record(
            ops::reduce_op(
                t,
                if mean {
                    Reduce::Mean
                } else {
                    Reduce::Sum
                },
                x,
                axis,
            ),
            t,
            x,
            made.0,
            made.1,
        ),
        only(rule::pullback(made.1, g, bands), made.2),
        made.2.dims == x.value.dims,
        w.at(made.2, i) == if mean {
            w.at(g, shape::place(i, x.value.dims, g.dims)) * (1real / (
            x.value.dims[axis as int] as int as real))
        } else {
            w.at(g, shape::place(i, x.value.dims, g.dims))
        },
{
    reveal(rule::pullback);
    reveal(rule::movement_pullback);
    let d = x.value.dims;
    let op = if mean {
        Reduce::Mean
    } else {
        Reduce::Sum
    };
    let y = tensor::reduce_of(op, x.value, axis)->Ok_0;
    lemma_expanded(w, g, d, i);
    let v = tensor::expand_of(g, d)->Ok_0;
    if mean {
        let n = d[axis as int];
        let by = Unary::MulScalar(Scalar::Frac(1, n as u64));
        lemma_each(w, by, v, i);
        (y, RuleOf::MeanDim(d, n), tensor::unary_of(by, v))
    } else {
        (y, RuleOf::ExpandTo(d), v)
    }
}

/// The gradient of the sum of all elements: each receives the gradient of the sum. Returns
/// what is recorded, and the gradient.
#[verifier::spinoff_prover]
pub proof fn law_gradient_of_a_sum(
    w: Reader,
    t: Tape,
    x: Traced,
    g: Value,
    bands: Seq<Option<Value>>,
    i: int,
) -> (made: (Value, Adjoint, Value))
    requires
        w.fits(g),
        g.dims == Seq::<usize>::empty(),
        w.fits(x.value),
    ensures
        ops::sum_op(t, x) == var::record(t, made.0, seq![x.trace], made.1),
        w.at(made.0, 0) == rows::sum(
            Seq::new(shape::product(x.value.dims), |j: int| w.at(x.value, j)),
            shape::product(x.value.dims),
        ),
        only(rule::pullback(made.1, g, bands), made.2),
        made.2.dims == x.value.dims,
        w.at(made.2, i) == w.at(g, 0),
{
    reveal(rule::pullback);
    reveal(rule::movement_pullback);
    let d = x.value.dims;
    let y = tensor::sum_all_of(x.value);
    lemma_plain_batch(d);
    shape::law_broadcast_commutes(d, Seq::<usize>::empty());
    lemma_expanded(w, g, d, i);
    let s = Seq::new(shape::product(d), |j: int| w.at(x.value, j));
    let u = Seq::new(shape::product(d), |j: int| (w.of(x.value.term).at)(j));
    assert(s =~= u);
    assert(w.at(y, 0) == rows::sum(u, shape::product(d)));
    (y, RuleOf::ExpandTo(d), tensor::expand_of(g, d)->Ok_0)
}

// -- movement ------------------------------------------------------------------------------

/// The gradient of a reshape: element by element the gradient itself. Returns what is
/// recorded, and the gradient.
pub proof fn law_gradient_of_a_reshape(
    w: Reader,
    t: Tape,
    x: Traced,
    d: Seq<usize>,
    g: Value,
    bands: Seq<Option<Value>>,
    i: int,
) -> (made: (Value, Adjoint, Value))
    requires
        ops::reshape_op(t, x, d) is Ok,
        g.dims == d,
        shape::fits(d),
    ensures
        unary_record(ops::reshape_op(t, x, d), t, x, made.0, made.1),
        w.at(made.0, i) == w.at(x.value, i),
        only(rule::pullback(made.1, g, bands), made.2),
        made.2.dims == x.value.dims,
        w.at(made.2, i) == w.at(g, i),
{
    reveal(rule::pullback);
    reveal(rule::movement_pullback);
    lemma_reshaped(w, x.value, d, i);
    lemma_reshaped(w, g, x.value.dims, i);
    (
        tensor::reshape_of(x.value, d)->Ok_0,
        RuleOf::Reshape(x.value.dims),
        tensor::reshape_of(g, x.value.dims)->Ok_0,
    )
}

/// The gradient of an expansion weighs every change of the operand as the gradient of the
/// result weighs that change expanded. Returns what is recorded, and the gradient.
#[verifier::spinoff_prover]
pub proof fn law_gradient_of_an_expansion(
    w: Reader,
    t: Tape,
    x: Traced,
    d: Seq<usize>,
    g: Value,
    bands: Seq<Option<Value>>,
    change: spec_fn(int) -> real,
    i: int,
) -> (made: (Value, Adjoint, Value))
    requires
        w.fits(x.value),
        w.fits(g),
        tensor::expands(x.value.dims, d),
        g.dims == d,
        shape::fits(d),
        d.len() <= usize::MAX,
        shape::product(d) > 0,
    ensures
        unary_record(ops::expand_op(t, x, d), t, x, made.0, made.1),
        w.at(made.0, i) == w.at(x.value, shape::place(i, d, x.value.dims)),
        only(rule::pullback(made.1, g, bands), made.2),
        broadcast_laws::spread_change(w, x.value.dims, g, change) == broadcast_laws::weighed(
            w,
            x.value.dims,
            made.2,
            change,
        ),
{
    reveal(rule::pullback);
    reveal(rule::movement_pullback);
    lemma_expanded(w, x.value, d, i);
    broadcast_laws::lemma_sum_part(w, x.value.dims, g, change);
    (
        tensor::expand_of(x.value, d)->Ok_0,
        RuleOf::ReduceTo(x.value.dims),
        reduce::reduce_to(g, x.value.dims)->Ok_0,
    )
}

/// The gradient of a running sum along the last axis: every element receives the gradients of
/// the sums it went into, those from its position on. Returns what is recorded, and the
/// gradient.
#[verifier::spinoff_prover]
pub proof fn law_gradient_of_a_running_sum(
    w: Reader,
    t: Tape,
    exclusive: bool,
    x: Traced,
    g: Value,
    bands: Seq<Option<Value>>,
    r: int,
    c: int,
) -> (made: (Value, Adjoint, Value))
    requires
        w.fits(x.value),
        w.fits(g),
        g.dims == x.value.dims,
        0 < x.value.dims.len() <= usize::MAX,
        inside(x.value.dims, r, c),
    ensures
        ({
            let last = (x.value.dims.len() - 1) as usize;
            unary_record(
                if exclusive {
                    ops::cumsum_exclusive_op(t, x, last)
                } else {
                    ops::cumsum_op(t, x, last)
                },
                t,
                x,
                made.0,
                made.1,
            )
        }),
        only(rule::pullback(made.1, g, bands), made.2),
        made.2.dims == x.value.dims,
        ({
            let k = x.value.dims.last() as int;
            let (xs, gs) = (row(w, x.value, r, k), row(w, g, r, k));
            let here = if exclusive {
                c as nat
            } else {
                (c + 1) as nat
            };
            let before = if exclusive {
                (c + 1) as nat
            } else {
                c as nat
            };
            &&& w.at(made.0, r * k + c) == rows::sum(xs, here)
            &&& w.at(made.2, r * k + c) == rows::sum(gs, gs.len()) - rows::sum(gs, before)
        }),
{
    reveal(rule::pullback);
    reveal(rule::movement_pullback);
    let last = (x.value.dims.len() - 1) as usize;
    let (op, back) = if exclusive {
        (Scan::Exclusive, Scan::ReverseExclusive)
    } else {
        (Scan::Inclusive, Scan::Reverse)
    };
    lemma_scanned(w, op, x.value, r, c);
    lemma_scanned(w, back, g, r, c);
    (
        tensor::scan_of(op, x.value, last)->Ok_0,
        if exclusive {
            RuleOf::CumSumExclusive(last)
        } else {
            RuleOf::CumSum(last)
        },
        tensor::scan_of(back, g, last)->Ok_0,
    )
}

#[verifier::spinoff_prover]
proof fn lemma_scanned(w: Reader, op: Scan, x: Value, r: int, c: int)
    requires
        w.fits(x),
        0 < x.dims.len() <= usize::MAX,
        inside(x.dims, r, c),
    ensures
        ({
            let k = x.dims.last() as int;
            let v = tensor::scan_of(op, x, (x.dims.len() - 1) as usize);
            &&& v is Ok
            &&& v->Ok_0.dims == x.dims
            &&& w.at(v->Ok_0, r * k + c) == buffer::scanned(op, row(w, x, r, k), c)
        }),
{
    let n = x.dims.len();
    let (k, i) = (x.dims.last() as int, r * x.dims.last() + c);
    lemma_entry(x.dims, r, c);
    assert(x.dims.skip(n - 1 + 1) =~= Seq::<usize>::empty());
    assert(buffer::inner(x.dims, n - 1) == 1);
    let v = tensor::scan_of(op, x, (n - 1) as usize)->Ok_0;
    let (u, b) = (buffer::inner(x.dims, n - 1), w.of(x.term));
    let s = Seq::new(k as nat, |j: int| (b.at)(((i / (k * u)) * k + j) * u + i % u));
    assert(w.at(v, i) == buffer::scanned(op, s, (i / u) % k));
    assert(i / 1 == i && i % 1 == 0 && k * 1 == k) by (nonlinear_arith);
    assert(s =~= row(w, x, r, k));
}

// -- lookups -------------------------------------------------------------------------------

/// The gradient of a lookup: every row of the table receives the gradients of the positions
/// whose id names it, summed. Returns what is recorded, and the gradient.
#[verifier::spinoff_prover]
pub proof fn law_gradient_of_a_lookup(
    w: Reader,
    t: Tape,
    table: Traced,
    ids: IdValue,
    g: Value,
    bands: Seq<Option<Value>>,
    r: int,
    c: int,
) -> (made: (Value, Adjoint, Value))
    requires
        table.value.dims.len() == 2,
        g.dims == ids.dims.push(table.value.dims[1]),
        w.of(ids.term).dims == ids.dims,
        shape::fits(g.dims),
        shape::fits(ids.dims),
        0 <= r < table.value.dims[0],
        0 <= c < table.value.dims[1],
    ensures
        unary_record(ops::embedding_op(t, table, ids), t, table, made.0, made.1),
        only(rule::pullback(made.1, g, bands), made.2),
        made.2.dims == table.value.dims,
        w.at(made.2, r * table.value.dims[1] + c) == named(
            w,
            g,
            ids,
            table.value.dims[1] as int,
            shape::product(ids.dims),
            r,
            c,
        ),
{
    reveal(rule::pullback);
    reveal(rule::movement_pullback);
    let (rs, d) = (table.value.dims[0], table.value.dims[1]);
    let n = shape::product(ids.dims);
    assert(g.dims.drop_last() =~= ids.dims);
    assert(shape::product(g.dims) / (d as nat) == n) by {
        vstd::arithmetic::div_mod::lemma_div_multiples_vanish(n as int, d as int);
        assert(d * n == n * d) by (nonlinear_arith);
    }
    let flat_dims = seq![n as usize, d];
    lemma_two(n as usize, d);
    let flat = tensor::reshape_of(g, flat_dims)->Ok_0;
    lemma_reshaped(w, g, flat_dims, 0);
    let v = tensor::scatter_add_rows_of(flat, ids, rs)->Ok_0;
    let i = r * d + c;
    vstd::arithmetic::div_mod::lemma_fundamental_div_mod_converse(i, d as int, r, c);
    assert(table.value.dims =~= seq![rs, d]);
    assert(w.at(v, i) == buffer::gathered(
        w.of(flat.term),
        w.of(ids.term),
        flat_dims[0] as nat,
        r,
        c,
    ));
    assert forall|j: int| #[trigger] w.at(flat, j) == w.at(g, j) by {
        lemma_reshaped(w, g, flat_dims, j);
    }
    lemma_gathered(w, g, flat, ids, d as int, n, r, c);
    (
        tensor::gather_rows_of(table.value, ids)->Ok_0,
        RuleOf::Embedding(ids, rs, d),
        v,
    )
}

/// The gradients of the first `n` positions whose id names a row, summed.
pub open spec fn named(w: Reader, g: Value, ids: IdValue, d: int, n: nat, r: int, c: int) -> real
    decreases n,
{
    if n == 0 {
        0real
    } else {
        named(w, g, ids, d, (n - 1) as nat, r, c) + if launches::id_of((w.of(ids.term).at)(n - 1))
            == r {
            w.at(g, (n - 1) * d + c)
        } else {
            0real
        }
    }
}

proof fn lemma_gathered(w: Reader, g: Value, flat: Value, ids: IdValue, d: int, n: nat, r: int, c: int)
    requires
        w.of(flat.term).dims.len() == 2,
        w.of(flat.term).dims[1] == d,
        forall|i: int| #[trigger] w.at(flat, i) == w.at(g, i),
    ensures
        buffer::gathered(w.of(flat.term), w.of(ids.term), n, r, c) == named(w, g, ids, d, n, r, c),
    decreases n,
{
    if n > 0 {
        lemma_gathered(w, g, flat, ids, d, (n - 1) as nat, r, c);
        assert(w.at(flat, (n - 1) * d + c) == w.at(g, (n - 1) * d + c));
    }
}

} // verus!
