//! What the operations that layers are made of compute, row by row, over the real numbers.

use vstd::prelude::*;

use super::flow::World;
use super::param;
use crate::autograd::var;
use crate::autograd::var::Traced;
use crate::buffer;
use crate::buffer::Reader;
use crate::distributions::rows;
use crate::error::Fault;
use crate::meaning;
use crate::shape;
use crate::tensor;
use crate::tensor::Value;
use crate::term;
use crate::term::{Binary, Product, Reduce, Unary};

verus! {

// -- rows ----------------------------------------------------------------------------------

/// Row `r` of a tensor whose rows have `k` entries.
pub open spec fn row(w: Reader, v: Value, r: int, k: int) -> Seq<real> {
    Seq::new(k as nat, |j: int| w.at(v, r * k + j))
}

/// The number of rows of a shape.
pub open spec fn heights(d: Seq<usize>) -> nat {
    shape::product(d.drop_last())
}

/// Whether entry `c` of row `r` lies in a shape.
pub open spec fn inside(d: Seq<usize>, r: int, c: int) -> bool {
    &&& d.len() > 0
    &&& 0 <= r < heights(d)
    &&& 0 <= c < d.last()
}

/// The sum of the products of a row and a column of a matrix with `n` columns.
pub open spec fn row_times_column(w: Reader, x: Seq<real>, m: Value, n: int, c: int) -> real {
    let s = Seq::new(x.len(), |k: int| x[k] * w.at(m, k * n + c));
    rows::sum(s, s.len())
}

pub proof fn lemma_entry(d: Seq<usize>, r: int, c: int)
    requires
        inside(d, r, c),
    ensures
        ({
            let (k, i) = (d.last() as int, r * d.last() + c);
            &&& 0 <= i < shape::product(d)
            &&& i / k == r
            &&& i % k == c
        }),
{
    let k = d.last() as int;
    let i = r * k + c;
    vstd::arithmetic::div_mod::lemma_fundamental_div_mod_converse(i, k, r, c);
    let h = heights(d);
    assert(0 <= r * k + c < h * k) by (nonlinear_arith)
        requires
            0 <= r < h,
            0 <= c < k,
    ;
}

// -- elementwise ---------------------------------------------------------------------------

/// A function of two tensors of one shape.
#[verifier::spinoff_prover]
pub proof fn lemma_pair(w: Reader, op: Binary, a: Value, b: Value, i: int)
    requires
        w.fits(a),
        w.fits(b),
        a.dims == b.dims,
        0 <= i < shape::product(a.dims),
    ensures
        ({
            let v = tensor::binary_of(op, a, b);
            &&& v is Ok
            &&& v->Ok_0.dims == a.dims
            &&& w.fits(v->Ok_0)
            &&& w.at(v->Ok_0, i) == meaning::binary(w.m.f, op, w.at(a, i), w.at(b, i))
        }),
{
    shape::law_broadcast_idempotent(a.dims);
    shape::lemma_place_same(i, a.dims);
    let v = tensor::binary_of(op, a, b)->Ok_0;
    assert(w.of(v.term).dims == a.dims);
}

proof fn lemma_row_broadcasts(d: Seq<usize>, i: int)
    requires
        d.len() > 0,
        0 <= i < shape::product(d),
    ensures
        shape::broadcast(d, seq![d.last()]) == Ok::<Seq<usize>, Fault>(d),
        shape::place(i, d, seq![d.last()]) == i % (d.last() as int),
        shape::place(i, d, d) == i,
        d.last() > 0,
{
    let one = seq![d.last()];
    let n = d.len();
    assert(shape::max_rank(d, one) == n);
    assert(shape::left_padded(d, n) =~= d);
    assert forall|k: int| 0 <= k < n implies (#[trigger] shape::left_padded(one, n)[k] == 1
        || shape::left_padded(one, n)[k] == d[k]) by {
        if k == n - 1 {
            assert(shape::left_padded(one, n)[k] == d.last());
        }
    }
    assert forall|k: int| 0 <= k < n implies shape::extents_agree(
        #[trigger] shape::left_padded(d, n)[k],
        shape::left_padded(one, n)[k],
    ) by {
        assert(shape::left_padded(one, n)[k] == 1 || shape::left_padded(one, n)[k] == d[k]);
    }
    assert(shape::compatible(d, one));
    assert(shape::broadcast_dims(d, one) =~= d) by {
        assert forall|k: int| 0 <= k < n implies shape::broadcast_dims(d, one)[k] == d[k] by {
            assert(shape::left_padded(one, n)[k] == 1 || shape::left_padded(one, n)[k] == d[k]);
        }
    }
    shape::lemma_place_same(i, d);
    assert(one.drop_last() =~= Seq::<usize>::empty());
    let k = d.last() as int;
    if k == 0 {
        let p = shape::product(d.drop_last());
        assert(p * 0 == 0) by (nonlinear_arith);
    }
    assert(shape::place(i / k, d.drop_last(), one.drop_last()) == 0);
    assert(0 * k == 0);
    if k == 1 {
        assert(i % 1 == 0);
    }
}

/// A function of a tensor and of one number per column.
#[verifier::spinoff_prover]
pub proof fn lemma_columns(w: Reader, op: Binary, a: Value, b: Value, r: int, c: int)
    requires
        w.fits(a),
        w.fits(b),
        inside(a.dims, r, c),
        b.dims == seq![a.dims.last()],
    ensures
        ({
            let v = tensor::binary_of(op, a, b);
            let i = r * a.dims.last() + c;
            &&& v is Ok
            &&& v->Ok_0.dims == a.dims
            &&& w.fits(v->Ok_0)
            &&& w.at(v->Ok_0, i) == meaning::binary(w.m.f, op, w.at(a, i), w.at(b, c))
        }),
{
    let i = r * a.dims.last() + c;
    lemma_entry(a.dims, r, c);
    lemma_row_broadcasts(a.dims, i);
    let v = tensor::binary_of(op, a, b)->Ok_0;
    assert(w.of(v.term).dims == a.dims);
}

proof fn lemma_column_broadcasts(d: Seq<usize>, i: int)
    requires
        d.len() > 0,
        0 <= i < shape::product(d),
        0 <= i / (d.last() as int) < heights(d),
    ensures
        shape::broadcast(d, d.update(d.len() - 1, 1usize)) == Ok::<Seq<usize>, Fault>(d),
        shape::place(i, d, d.update(d.len() - 1, 1usize)) == i / (d.last() as int),
        shape::place(i, d, d) == i,
{
    let n = d.len();
    let one = d.update(n - 1, 1usize);
    assert(shape::max_rank(d, one) == n);
    assert(shape::left_padded(d, n) =~= d);
    assert(shape::left_padded(one, n) =~= one);
    assert(shape::compatible(d, one));
    assert(shape::broadcast_dims(d, one) =~= d);
    shape::lemma_place_same(i, d);
    assert(one.drop_last() =~= d.drop_last());
    let q = i / (d.last() as int);
    shape::lemma_place_same(q, d.drop_last());
    assert(q * 1 == q);
}

/// A function of a tensor and of one number per row.
#[verifier::spinoff_prover]
pub proof fn lemma_rows(w: Reader, op: Binary, a: Value, b: Value, r: int, c: int)
    requires
        w.fits(a),
        w.fits(b),
        inside(a.dims, r, c),
        b.dims == a.dims.update(a.dims.len() - 1, 1usize),
    ensures
        ({
            let v = tensor::binary_of(op, a, b);
            let i = r * a.dims.last() + c;
            &&& v is Ok
            &&& v->Ok_0.dims == a.dims
            &&& w.fits(v->Ok_0)
            &&& w.at(v->Ok_0, i) == meaning::binary(w.m.f, op, w.at(a, i), w.at(b, r))
        }),
{
    let i = r * a.dims.last() + c;
    lemma_entry(a.dims, r, c);
    lemma_column_broadcasts(a.dims, i);
    let v = tensor::binary_of(op, a, b)->Ok_0;
    assert(w.of(v.term).dims == a.dims);
}

/// A function of one tensor.
#[verifier::spinoff_prover]
pub proof fn lemma_each(w: Reader, op: Unary, a: Value, i: int)
    requires
        w.fits(a),
    ensures
        tensor::unary_of(op, a).dims == a.dims,
        w.fits(tensor::unary_of(op, a)),
        w.at(tensor::unary_of(op, a), i) == meaning::unary(w.m.f, op, w.at(a, i)),
{
    let v = tensor::unary_of(op, a);
    assert(w.of(v.term).dims == a.dims);
}

/// A reshape keeps every element.
pub proof fn lemma_reshaped(w: Reader, a: Value, d: Seq<usize>, i: int)
    requires
        tensor::reshape_of(a, d) is Ok,
    ensures
        tensor::reshape_of(a, d)->Ok_0.dims == d,
        w.fits(tensor::reshape_of(a, d)->Ok_0),
        w.at(tensor::reshape_of(a, d)->Ok_0, i) == w.at(a, i),
{
    term::law_dims_entries(d);
}

// -- reductions ----------------------------------------------------------------------------

/// A reduction along the last axis.
#[verifier::spinoff_prover]
pub proof fn lemma_reduced(w: Reader, op: Reduce, a: Value, r: int)
    requires
        w.fits(a),
        0 < a.dims.len() <= usize::MAX,
        0 <= r,
    ensures
        ({
            let last = (a.dims.len() - 1) as usize;
            let v = tensor::reduce_of(op, a, last);
            &&& v matches Ok(x) && x.dims == a.dims.update(a.dims.len() - 1, 1usize) && w.fits(x)
                && w.at(x, r) == buffer::reduced(op, row(w, a, r, a.dims.last() as int))
        }),
{
    let n = a.dims.len();
    let last = (n - 1) as usize;
    let v = tensor::reduce_of(op, a, last);
    if v is Ok {
        let k = a.dims.last() as int;
        assert(a.dims.skip(n as int) =~= Seq::<usize>::empty());
        assert(buffer::inner(a.dims, n - 1) == 1) by {
            assert(a.dims.skip(n - 1 + 1) =~= Seq::<usize>::empty());
        }
        let f = buffer::fibre(w.of(a.term), n - 1, r);
        assert(r / 1 == r && r % 1 == 0);
        assert(f =~= row(w, a, r, k));
        assert(w.of(v->Ok_0.term).dims == a.dims.update(n - 1, 1usize));
        assert(w.at(v->Ok_0, r) == buffer::reduced(op, f));
    }
}

// -- products ------------------------------------------------------------------------------

proof fn lemma_no_batch(s: Seq<usize>)
    ensures
        shape::compatible(s, Seq::<usize>::empty()),
        shape::broadcast_dims(s, Seq::<usize>::empty()) == s,
{
    let e = Seq::<usize>::empty();
    let n = s.len();
    assert(shape::max_rank(s, e) == n);
    assert(shape::left_padded(s, n) =~= s);
    assert forall|i: int| 0 <= i < n implies #[trigger] shape::left_padded(e, n)[i] == 1 by {
        assert(n > 0);
    }
    assert forall|i: int| 0 <= i < n implies shape::extents_agree(
        #[trigger] shape::left_padded(s, n)[i],
        shape::left_padded(e, n)[i],
    ) by {
        assert(shape::left_padded(e, n)[i] == 1);
    }
    assert(shape::broadcast_dims(s, e) =~= s) by {
        assert forall|i: int| 0 <= i < n implies shape::broadcast_dims(s, e)[i] == s[i] by {
            assert(shape::left_padded(e, n)[i] == 1);
        }
    }
}

/// A matrix that multiplies every row of a tensor from the right.
#[verifier::spinoff_prover]
pub proof fn lemma_product(w: Reader, x: Value, m: Value, r: int, c: int)
    requires
        w.fits(x),
        w.fits(m),
        x.dims.len() >= 2,
        m.dims.len() == 2,
        m.dims[0] == x.dims.last(),
        0 <= r < heights(x.dims),
        0 <= c < m.dims[1],
    ensures
        ({
            let v = tensor::product_of(Product::Plain, x, m);
            let n = m.dims[1] as int;
            &&& v is Ok
            &&& v->Ok_0.dims == x.dims.drop_last().push(m.dims[1])
            &&& w.fits(v->Ok_0)
            &&& w.at(v->Ok_0, r * n + c) == row_times_column(
                w,
                row(w, x, r, x.dims.last() as int),
                m,
                n,
                c,
            )
        }),
{
    let d = x.dims;
    let batch = d.take(d.len() - 2);
    let e = Seq::<usize>::empty();
    assert(m.dims.take(0) =~= e);
    lemma_no_batch(batch);
    let v = tensor::product_of(Product::Plain, x, m)->Ok_0;
    let (h, k, n) = (d[d.len() - 2] as int, d.last() as int, m.dims[1] as int);
    assert(d.drop_last().drop_last() =~= batch);
    assert(v.dims =~= d.drop_last().push(m.dims[1]));
    let p = shape::product(batch) as int;
    assert(heights(d) == p * h);
    assert(h > 0) by (nonlinear_arith)
        requires
            0 <= r < p * h,
            h >= 0,
    ;
    let (i, b, q) = (r * n + c, r / h, r % h);
    assert(0 <= b < p && 0 <= q < h && b * h + q == r) by (nonlinear_arith)
        requires
            0 <= r < p * h,
            h > 0,
            b == r / h,
            q == r % h,
    ;
    vstd::arithmetic::div_mod::lemma_fundamental_div_mod_converse(i, n, r, c);
    assert(i >= 0) by (nonlinear_arith)
        requires
            i == r * n + c,
            r >= 0,
            n >= 0,
            c >= 0,
    ;
    vstd::arithmetic::div_mod::lemma_div_denominator(i, n, h);
    assert(n * h == h * n) by (nonlinear_arith);
    shape::lemma_place_same(b, batch);
    let (a, y) = (w.of(x.term), w.of(m.term));
    assert(w.of(v.term) == buffer::multiplied(Product::Plain, a, y));
    assert(w.of(v.term).dims =~= v.dims);
    assert(w.at(v, i) == buffer::entry(Product::Plain, a, y, batch, b, q, c));
    let xs = row(w, x, r, k);
    let terms = Seq::new(
        k as nat,
        |j: int| (a.at)((b * h + q) * k + j) * (y.at)((0 * k + j) * n + c),
    );
    let s = Seq::new(xs.len(), |j: int| xs[j] * w.at(m, j * n + c));
    assert forall|j: int| 0 <= j < k implies terms[j] == s[j] by {
        assert(0 * k + j == j);
    }
    assert(terms =~= s);
    assert(shape::place(b, batch, e) == 0);
    assert(buffer::entry(Product::Plain, a, y, batch, b, q, c) == rows::sum(terms, terms.len()));
}

// -- parameters ----------------------------------------------------------------------------

/// A parameter enters as the store holds it, and the store stays.
pub proof fn lemma_var(g: World, id: u64, anchor: Traced)
    requires
        g.store.weights.contains_key(id),
    ensures
        param::var_op(g, id, anchor) matches Ok(r) && r.0.store == g.store && r.1.value
            == g.store.weights[id].value,
{
}

/// The value of a parameter.
pub open spec fn weight(g: World, p: super::param::Param) -> Value {
    g.store.weights[p.key()].value
}

/// Whether the store holds a parameter of a shape.
pub open spec fn stored(w: Reader, g: World, p: super::param::Param, d: Seq<usize>) -> bool {
    &&& g.store.weights.contains_key(p.key())
    &&& weight(g, p).dims == d
    &&& w.fits(weight(g, p))
}

/// Whether the store holds a parameter of a shape, where there is one.
pub open spec fn stored_opt(w: Reader, g: World, p: Option<super::param::Param>, d: Seq<usize>) -> bool {
    p matches Some(q) ==> stored(w, g, q, d)
}

/// The entry of a parameter that may be missing.
pub open spec fn entry_or(w: Reader, g: World, p: Option<super::param::Param>, c: int, absent: real) -> real {
    match p {
        Some(q) => w.at(weight(g, q), c),
        None => absent,
    }
}

/// A bias per column that may be missing.
#[verifier::spinoff_prover]
pub proof fn lemma_plus(
    w: Reader,
    g: World,
    x: Traced,
    p: Option<super::param::Param>,
    anchor: Traced,
    r: int,
    c: int,
)
    requires
        w.fits(x.value),
        inside(x.value.dims, r, c),
        stored_opt(w, g, p, seq![x.value.dims.last()]),
    ensures
        ({
            let z = param::plus_op(g, x, p, anchor);
            let i = r * x.value.dims.last() + c;
            &&& z is Ok
            &&& z->Ok_0.0.store == g.store
            &&& z->Ok_0.1.value.dims == x.value.dims
            &&& w.fits(z->Ok_0.1.value)
            &&& w.at(z->Ok_0.1.value, i) == w.at(x.value, i) + entry_or(w, g, p, c, 0real)
        }),
{
    broadcast use var::lemma_record_value;

    if p is Some {
        lemma_var(g, p->0.key(), anchor);
        lemma_columns(w, Binary::Add, x.value, weight(g, p->0), r, c);
    }
}

/// A gain per column that may be missing.
#[verifier::spinoff_prover]
pub proof fn lemma_times(
    w: Reader,
    g: World,
    x: Traced,
    p: Option<super::param::Param>,
    anchor: Traced,
    r: int,
    c: int,
)
    requires
        w.fits(x.value),
        inside(x.value.dims, r, c),
        stored_opt(w, g, p, seq![x.value.dims.last()]),
    ensures
        ({
            let z = param::times_op(g, x, p, anchor);
            let i = r * x.value.dims.last() + c;
            &&& z is Ok
            &&& z->Ok_0.0.store == g.store
            &&& z->Ok_0.1.value.dims == x.value.dims
            &&& w.fits(z->Ok_0.1.value)
            &&& w.at(z->Ok_0.1.value, i) == w.at(x.value, i) * entry_or(w, g, p, c, 1real)
        }),
{
    broadcast use var::lemma_record_value;

    if p is Some {
        lemma_var(g, p->0.key(), anchor);
        lemma_columns(w, Binary::Mul, x.value, weight(g, p->0), r, c);
    } else {
        let v = w.at(x.value, r * x.value.dims.last() + c);
        assert(v * 1real == v) by (nonlinear_arith);
    }
}

} // verus!
