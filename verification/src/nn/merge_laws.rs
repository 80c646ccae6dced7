//! Folding an adapter into its base weight leaves the projection as it was, over the real
//! numbers.

use vstd::prelude::*;

use super::flow::World;
use super::layer_laws;
use super::layer_laws::{adapted, adapts, projected, squeezed};
use super::linear::Linear;
use super::lora;
use super::lora::LoraLinear;
use super::module;
use super::module_laws;
use super::value_readings::{
    entry_or, heights, lemma_each, lemma_entry, lemma_pair, lemma_product, row, row_times_column,
    stored, weight,
};
use crate::autograd::expansion;
use crate::autograd::expansion::total;
use crate::buffer::Reader;
use crate::distributions::rows;
use crate::meaning;
use crate::shape;
use crate::tensor;
use crate::tensor::Value;
use crate::term;
use crate::term::{Binary, Product, Scalar, Unary};

verus! {

proof fn lemma_sum_is_total(s: Seq<real>, f: spec_fn(int) -> real, n: nat)
    requires
        n <= s.len(),
        forall|j: int| 0 <= j < n ==> #[trigger] s[j] == f(j),
    ensures
        rows::sum(s, n) == total(f, n),
    decreases n,
{
    if n > 0 {
        lemma_sum_is_total(s, f, (n - 1) as nat);
        assert(s[n - 1] == f(n - 1));
    }
}

/// A row times a column, as a sum.
proof fn lemma_row_total(w: Reader, x: Seq<real>, m: Value, n: int, c: int)
    ensures
        row_times_column(w, x, m, n, c) == total(|k: int| x[k] * w.at(m, k * n + c), x.len()),
{
    let s = Seq::new(x.len(), |k: int| x[k] * w.at(m, k * n + c));
    lemma_sum_is_total(s, |k: int| x[k] * w.at(m, k * n + c), x.len());
}

#[verifier::spinoff_prover]
proof fn lemma_pull(x: real, a: real, b: real)
    ensures
        x * (a * b) == (x * a) * b,
{
    assert(x * (a * b) == (x * a) * b) by (nonlinear_arith);
}

#[verifier::spinoff_prover]
proof fn lemma_commutes(a: real, b: real)
    ensures
        a * b == b * a,
{
    assert(a * b == b * a) by (nonlinear_arith);
}

#[verifier::spinoff_prover]
proof fn lemma_split(x: real, a: real, b: real)
    ensures
        x * (a + b) == x * a + x * b,
{
    assert(x * (a + b) == x * a + x * b) by (nonlinear_arith);
}

/// `x (A B)` is `(x A) B`.
#[verifier::spinoff_prover]
proof fn lemma_associates(x: Seq<real>, a: spec_fn(int, int) -> real, b: spec_fn(int) -> real, m: nat)
    ensures
        total(|k: int| x[k] * total(|j: int| a(k, j) * b(j), m), x.len()) == total(
            |j: int| total(|k: int| x[k] * a(k, j), x.len()) * b(j),
            m,
        ),
{
    let n = x.len();
    let f = |k: int, j: int| (x[k] * a(k, j)) * b(j);
    expansion::lemma_total_swaps(f, n, m);
    let (l, lf) = (
        |k: int| x[k] * total(|j: int| a(k, j) * b(j), m),
        |k: int| total(|j: int| f(k, j), m),
    );
    assert forall|k: int| 0 <= k < n implies #[trigger] l(k) == lf(k) by {
        let u = |j: int| a(k, j) * b(j);
        expansion::lemma_total_scales(u, x[k], m);
        let (p, q) = (|j: int| x[k] * u(j), |j: int| f(k, j));
        assert forall|j: int| 0 <= j < m implies #[trigger] p(j) == q(j) by {
            lemma_pull(x[k], a(k, j), b(j));
        }
        expansion::lemma_total_agrees(p, q, m);
    }
    expansion::lemma_total_agrees(l, lf, n);
    let (r, rf) = (
        |j: int| total(|k: int| x[k] * a(k, j), n) * b(j),
        |j: int| total(|k: int| f(k, j), n),
    );
    assert forall|j: int| 0 <= j < m implies #[trigger] r(j) == rf(j) by {
        let u = |k: int| x[k] * a(k, j);
        expansion::lemma_total_scales(u, b(j), n);
        let (p, q) = (|k: int| b(j) * u(k), |k: int| f(k, j));
        assert forall|k: int| 0 <= k < n implies #[trigger] p(k) == q(k) by {
            lemma_commutes(b(j), u(k));
        }
        expansion::lemma_total_agrees(p, q, n);
        lemma_commutes(total(u, n), b(j));
    }
    expansion::lemma_total_agrees(r, rf, m);
}

/// Whether a projection holds its weight and an adapter of three different parameters.
pub open spec fn foldable(w: Reader, g: World, l: Linear, a: LoraLinear, inputs: usize, outputs: usize) -> bool {
    &&& l.lora == Some(a)
    &&& stored(w, g, l.weight, seq![inputs, outputs])
    &&& adapts(w, g, a, inputs, outputs)
    &&& module_laws::apart(lora::adapter_of(a, l.weight))
    &&& l.bias matches Some(b) ==> b.key() != l.weight.key() && b.key() != a.b.key()
}

/// The merged weight.
#[verifier::spinoff_prover]
proof fn lemma_merged_entry(
    w: Reader,
    g: World,
    l: Linear,
    a: LoraLinear,
    inputs: usize,
    outputs: usize,
    k: int,
    c: int,
)
    requires
        foldable(w, g, l, a, inputs, outputs),
        0 <= k < inputs,
        0 <= c < outputs,
    ensures
        ({
            let m = lora::adapter_of(a, l.weight);
            let (va, vb) = (weight(g, a.a), weight(g, a.b));
            let r = va.dims[1];
            let v = module::merged_weight(g.store, m);
            &&& v is Ok
            &&& v->Ok_0.dims == seq![inputs, outputs]
            &&& w.fits(v->Ok_0)
            &&& w.at(v->Ok_0, k * outputs + c) == w.at(weight(g, l.weight), k * outputs + c) + total(
                |j: int| w.at(va, k * r + j) * w.at(vb, j * outputs + c),
                r as nat,
            ) * meaning::scalar(w.m.f, a.scaling)
        }),
{
    let (base, va, vb) = (weight(g, l.weight), weight(g, a.a), weight(g, a.b));
    let r = va.dims[1];
    let d = seq![inputs, outputs];
    assert(va.dims.drop_last() =~= seq![inputs]);
    assert(d.drop_last() =~= seq![inputs]);
    let e = shape::product(Seq::<usize>::empty());
    assert(e * inputs == inputs) by (nonlinear_arith)
        requires
            e == 1,
    ;
    assert(seq![inputs].drop_last() =~= Seq::<usize>::empty());
    assert(shape::product(seq![inputs]) == inputs);
    lemma_product(w, va, vb, k, c);
    let p = tensor::product_of(Product::Plain, va, vb)->Ok_0;
    assert(p.dims =~= d);
    let i = k * outputs + c;
    lemma_entry(d, k, c);
    let by = Unary::MulScalar(a.scaling);
    lemma_each(w, by, p, i);
    let delta = tensor::unary_of(by, p);
    lemma_pair(w, Binary::Add, base, delta, i);
    let xs = row(w, va, k, r as int);
    lemma_row_total(w, xs, vb, outputs as int, c);
    expansion::lemma_total_agrees(
        |j: int| xs[j] * w.at(vb, j * outputs + c),
        |j: int| w.at(va, k * r + j) * w.at(vb, j * outputs + c),
        r as nat,
    );
}

#[verifier::spinoff_prover]
proof fn lemma_scaled(x: Seq<real>, f: spec_fn(int) -> real, h: spec_fn(int) -> real, s: real)
    ensures
        total(|k: int| x[k] * (f(k) + h(k) * s), x.len()) == total(|k: int| x[k] * f(k), x.len())
            + total(|k: int| x[k] * h(k), x.len()) * s,
{
    let n = x.len();
    let (u, v) = (|k: int| x[k] * f(k), |k: int| x[k] * h(k));
    expansion::lemma_total_scales(v, s, n);
    let sv = |k: int| s * v(k);
    expansion::lemma_total_adds(u, sv, n);
    let (p, q) = (|k: int| x[k] * (f(k) + h(k) * s), |k: int| u(k) + sv(k));
    assert forall|k: int| 0 <= k < n implies #[trigger] p(k) == q(k) by {
        lemma_split(x[k], f(k), h(k) * s);
        lemma_pull(x[k], h(k), s);
        lemma_commutes(x[k] * h(k), s);
    }
    expansion::lemma_total_agrees(p, q, n);
    lemma_commutes(total(v, n), s);
}

proof fn lemma_total_of_zeros(f: spec_fn(int) -> real, n: nat)
    requires
        forall|k: int| 0 <= k < n ==> #[trigger] f(k) == 0real,
    ensures
        total(f, n) == 0real,
    decreases n,
{
    if n > 0 {
        lemma_total_of_zeros(f, (n - 1) as nat);
        assert(f(n - 1) == 0real);
    }
}

/// Folding an adapter into its base weight leaves every projection as it was: the folded
/// weight takes over what the adapter added, and the adapter then adds nothing.
#[verifier::spinoff_prover]
pub proof fn law_folding_keeps_the_projection(
    w: Reader,
    g: World,
    l: Linear,
    a: LoraLinear,
    x: Seq<real>,
    inputs: usize,
    outputs: usize,
    c: int,
)
    requires
        foldable(w, g, l, a, inputs, outputs),
        x.len() == inputs,
        0 < inputs,
        0 <= c < outputs,
    ensures
        ({
            let after = module::merged(g.store, lora::adapter_of(a, l.weight));
            &&& after is Ok
            &&& projected(w, World { store: after->Ok_0, ..g }, l, x, outputs as int, c)
                == projected(w, g, l, x, outputs as int, c)
        }),
{
    let m = lora::adapter_of(a, l.weight);
    lemma_merged_entry(w, g, l, a, inputs, outputs, 0, c);
    let after = module::merged(g.store, m)->Ok_0;
    let h = World { store: after, ..g };
    let n = outputs as int;
    let (base, va, vb) = (weight(g, l.weight), weight(g, a.a), weight(g, a.b));
    let r = va.dims[1] as nat;
    let s = meaning::scalar(w.m.f, a.scaling);
    let v = module::merged_weight(g.store, m)->Ok_0;
    let zeros = tensor::fill_of(Scalar::Int(0), vb.dims);
    assert(weight(h, l.weight) == v);
    assert(weight(h, a.b) == zeros);
    assert(weight(h, a.a) == va);
    // The folded weight.
    let f = |k: int| w.at(base, k * n + c);
    let e = |k: int, j: int| w.at(va, k * r + j);
    let b = |j: int| w.at(vb, j * n + c);
    let t = |k: int| total(|j: int| e(k, j) * b(j), r);
    assert forall|k: int| 0 <= k < inputs implies #[trigger] w.at(v, k * n + c) == f(k) + t(k) * s by {
        lemma_merged_entry(w, g, l, a, inputs, outputs, k, c);
        expansion::lemma_total_agrees(
            |j: int| w.at(va, k * va.dims[1] + j) * w.at(vb, j * outputs + c),
            |j: int| e(k, j) * b(j),
            r,
        );
    }
    lemma_row_total(w, x, v, n, c);
    expansion::lemma_total_agrees(
        |k: int| x[k] * w.at(v, k * n + c),
        |k: int| x[k] * (f(k) + t(k) * s),
        x.len(),
    );
    lemma_scaled(x, f, t, s);
    lemma_row_total(w, x, base, n, c);
    expansion::lemma_total_agrees(|k: int| x[k] * w.at(base, k * n + c), |k: int| x[k] * f(k), x.len());
    // What the adapter added.
    lemma_associates(x, e, b, r);
    expansion::lemma_total_agrees(
        |k: int| x[k] * t(k),
        |k: int| x[k] * total(|j: int| e(k, j) * b(j), r),
        x.len(),
    );
    let q = squeezed(w, g, a, x);
    lemma_row_total(w, q, vb, n, c);
    assert forall|j: int| 0 <= j < r implies #[trigger] q[j] == total(
        |k: int| x[k] * e(k, j),
        x.len(),
    ) by {
        lemma_row_total(w, x, va, r as int, j);
        expansion::lemma_total_agrees(
            |k: int| x[k] * w.at(va, k * (r as int) + j),
            |k: int| x[k] * e(k, j),
            x.len(),
        );
    }
    expansion::lemma_total_agrees(
        |j: int| q[j] * w.at(vb, j * n + c),
        |j: int| total(|k: int| x[k] * e(k, j), x.len()) * b(j),
        r,
    );
    assert(row_times_column(w, x, v, n, c) == row_times_column(w, x, base, n, c) + adapted(
        w,
        g,
        l.lora,
        x,
        n,
        c,
    ));
    // What it adds afterwards.
    let q2 = squeezed(w, h, a, x);
    lemma_row_total(w, q2, zeros, n, c);
    term::law_dims_entries(vb.dims);
    let nothing = |j: int| q2[j] * w.at(zeros, j * n + c);
    assert forall|j: int| 0 <= j < q2.len() implies #[trigger] nothing(j) == 0real by {
        assert(w.at(zeros, j * n + c) == 0real);
        let y = q2[j];
        assert(y * 0real == 0real) by (nonlinear_arith);
    }
    lemma_total_of_zeros(nothing, q2.len());
    assert(0real * s == 0real) by (nonlinear_arith);
}

} // verus!
