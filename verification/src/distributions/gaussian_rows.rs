//! The samples of a multivariate normal, row by row, over the real numbers.

use vstd::prelude::*;

use super::multivariate;
use super::multivariate::Gaussian;
use super::readings;
use super::rows;
use super::scalar;
use super::scalar::Family;
use super::univariate::Kind;
use crate::autograd::graph::Tape;
use crate::autograd::ops;
use crate::autograd::var;
use crate::autograd::var::Traced;
use crate::buffer;
use crate::buffer::Reader;
use crate::shape;
use crate::tensor;
use crate::tensor::Value;
use crate::term;
use crate::term::{Binary, Product, Scalar};

verus! {

// -- shapes --------------------------------------------------------------------------------

proof fn lemma_cube(m: usize, d: usize)
    ensures
        shape::product(seq![m, d, d]) == m * d * d,
        shape::product(seq![m, d, 1usize]) == m * d,
{
    let (a, b) = (seq![m, d, d], seq![m, d, 1usize]);
    assert(a.drop_last() =~= seq![m, d]);
    assert(b.drop_last() =~= seq![m, d]);
    assert(seq![m, d].drop_last() =~= seq![m]);
    assert(seq![m].drop_last() =~= Seq::<usize>::empty());
    let one = shape::product(Seq::<usize>::empty());
    assert(one * m == m) by (nonlinear_arith)
        requires
            one == 1,
    ;
    assert(shape::product(seq![m]) == m);
    assert(shape::product(seq![m, d]) == m * d);
    let x = shape::product(seq![m, d]);
    assert(x * 1usize as nat == x) by (nonlinear_arith);
    assert(a.last() == d && b.last() == 1);
}

proof fn lemma_lead(n: usize, s: Seq<usize>)
    ensures
        shape::product(seq![n] + s) == n * shape::product(s),
    decreases s.len(),
{
    let t = seq![n] + s;
    if s.len() == 0 {
        assert(t =~= seq![n]);
        assert(t.drop_last() =~= Seq::<usize>::empty());
        let one = shape::product(t.drop_last());
        assert(one * n == n * one) by (nonlinear_arith);
    } else {
        lemma_lead(n, s.drop_last());
        assert(t.drop_last() =~= seq![n] + s.drop_last());
        let (p, l) = (shape::product(s.drop_last()), s.last() as nat);
        assert((n * p) * l == n * (p * l)) by (nonlinear_arith);
    }
}

proof fn lemma_triangle_broadcasts(s: Seq<usize>, d: usize)
    requires
        s.len() >= 2,
        s[s.len() - 1] == d,
        s[s.len() - 2] == d,
    ensures
        shape::compatible(seq![d, d], s),
        shape::broadcast_dims(seq![d, d], s) == s,
{
    let m = seq![d, d];
    let n = shape::max_rank(m, s);
    assert(n == s.len());
    assert forall|i: int| 0 <= i < n implies (#[trigger] shape::left_padded(m, n)[i] == 1
        || shape::left_padded(m, n)[i] == s[i]) by {
        if i >= n - 2 {
            assert(shape::left_padded(m, n)[i] == d);
        }
    }
    assert(shape::broadcast_dims(m, s) =~= s);
}

proof fn lemma_lead_broadcasts(n: usize, s: Seq<usize>)
    ensures
        shape::compatible(s, seq![n] + s),
        shape::broadcast_dims(s, seq![n] + s) == seq![n] + s,
{
    let t = seq![n] + s;
    let k = shape::max_rank(s, t);
    assert(k == t.len());
    assert forall|i: int| 0 <= i < k implies (#[trigger] shape::left_padded(s, k)[i] == 1
        || shape::left_padded(s, k)[i] == t[i]) by {
        if i > 0 {
            assert(shape::left_padded(s, k)[i] == s[i - 1]);
        }
    }
    assert(shape::broadcast_dims(s, t) =~= t);
}

/// The first block of a batch of matrices that was repeated is the batch itself.
proof fn lemma_repeated(j: int, n: usize, m: usize, d: usize)
    requires
        0 <= j < m * d * d,
    ensures
        tensor::expands(seq![1usize, m, d, d], seq![n, m, d, d]),
        shape::place(j, seq![n, m, d, d], seq![1usize, m, d, d]) == j,
{
    let (from, to) = (seq![1usize, m, d, d], seq![n, m, d, d]);
    assert(shape::left_padded(from, 4) =~= from);
    assert(shape::left_padded(to, 4) =~= to);
    assert(shape::broadcast_dims(from, to) =~= to);
    let own = seq![m, d, d];
    lemma_cube(m, d);
    shape::lemma_place_same(j, own);
    reveal_with_fuel(shape::place, 5);
    assert(from.drop_last() =~= seq![1usize, m, d]);
    assert(to.drop_last() =~= seq![n, m, d]);
    assert(own.drop_last() =~= seq![m, d]);
    assert(seq![1usize, m, d].drop_last() =~= seq![1usize, m]);
    assert(seq![n, m, d].drop_last() =~= seq![n, m]);
    assert(seq![m, d].drop_last() =~= seq![m]);
    assert(seq![1usize, m].drop_last() =~= seq![1usize]);
    assert(seq![n, m].drop_last() =~= seq![n]);
    let q = (j / d as int) / d as int;
    let none = Seq::<usize>::empty();
    assert(seq![1usize].drop_last() =~= none);
    assert(seq![n].drop_last() =~= none);
    assert(seq![m].drop_last() =~= none);
    assert(shape::place(q / m as int, seq![n], seq![1usize]) == 0);
    assert(shape::place(q / m as int, none, none) == 0);
    assert(shape::place(q, seq![n, m], seq![1usize, m]) == shape::place(q, seq![m], seq![m]));
    assert(shape::place(j / d as int, seq![n, m, d], seq![1usize, m, d]) == shape::place(
        j / d as int,
        seq![m, d],
        seq![m, d],
    ));
}

// -- one factor per row, times noise -------------------------------------------------------

/// The products that make up element `i` of a batch of factors times noise.
pub open spec fn products_at(w: Reader, wide: Value, noise: Value, d: usize, i: int) -> Seq<real> {
    Seq::new(
        d as nat,
        |k: int| w.at(wide, i * d + k) * w.at(noise, (i / d as int) * d + k),
    )
}

proof fn lemma_factor_times_noise(w: Reader, wide: Value, m: usize, d: usize, seed: u64, i: int)
    requires
        wide.dims == seq![m, d, d],
        w.fits(wide),
        0 <= i < m * d,
    ensures
        ({
            let noise = multivariate::noise_of(m, d, seed);
            let v = tensor::product_of(Product::Plain, wide, noise);
            let p = products_at(w, wide, noise, d, i);
            &&& v is Ok
            &&& v->Ok_0.dims == seq![m, d, 1usize]
            &&& w.at(v->Ok_0, i) == rows::sum(p, p.len())
        }),
{
    let noise = multivariate::noise_of(m, d, seed);
    readings::lemma_draw_dims(w, noise_family(), seq![m, d, 1usize], seed);
    lemma_noise(m, d, seed);
    let (xd, yd) = (wide.dims, noise.dims);
    assert(xd.take(1) =~= seq![m]);
    assert(yd.take(1) =~= seq![m]);
    shape::law_broadcast_idempotent(seq![m]);
    let v = tensor::product_of(Product::Plain, wide, noise)->Ok_0;
    assert(v.dims =~= seq![m, d, 1usize]);
    let b = i / d as int;
    let r = i % d as int;
    assert(0 <= b < m && 0 <= r < d && b * d + r == i) by (nonlinear_arith)
        requires
            0 <= i < m * d,
            b == i / d as int,
            r == i % d as int,
    ;
    lemma_lead(m, Seq::empty());
    assert(seq![m] + Seq::<usize>::empty() =~= seq![m]);
    shape::lemma_place_same(b, seq![m]);
    let (x, y) = (w.of(wide.term), w.of(noise.term));
    assert(w.of(v.term) == buffer::multiplied(Product::Plain, x, y));
    assert(d * 1usize == d);
    assert(i / 1 == i && i % 1 == 0);
    assert(w.at(v, i) == buffer::entry(Product::Plain, x, y, seq![m], b, r, 0));
    let p = products_at(w, wide, noise, d, i);
    let terms = Seq::new(
        d as nat,
        |k: int| (x.at)((b * d + r) * d + k) * (y.at)((b * d + k) * 1 + 0),
    );
    assert(terms =~= p);
    assert(buffer::entry(Product::Plain, x, y, seq![m], b, r, 0) == rows::sum(terms, terms.len()));
}

/// The standard normal that the noise is drawn from.
pub open spec fn noise_family() -> Family {
    let one = ops::untracked(tensor::fill_of(Scalar::Int(1), seq![1usize]));
    Family {
        kind: Kind::Normal,
        a: ops::untracked(tensor::fill_of(Scalar::Int(0), seq![1usize])),
        b: one,
        c: one,
        batch: Seq::empty(),
    }
}

proof fn lemma_noise(m: usize, d: usize, seed: u64)
    ensures
        multivariate::noise_of(m, d, seed) == scalar::draw_of(
            noise_family(),
            seq![m, d, 1usize],
            seed,
        ),
{
    assert(shape::product(Seq::<usize>::empty()) == 1);
}

/// Factors times noise, in the given shape.
pub open spec fn scattered(wide: Value, m: usize, d: usize, seed: u64, dims: Seq<usize>) -> Value {
    tensor::reshape_of(
        tensor::product_of(Product::Plain, wide, multivariate::noise_of(m, d, seed))->Ok_0,
        dims,
    )->Ok_0
}

/// Whether factors times noise can be added to a mean, in the given shape.
pub open spec fn shifts(loc: Seq<usize>, wide: Value, m: usize, d: usize, dims: Seq<usize>) -> bool {
    &&& wide.dims == seq![m, d, d]
    &&& shape::product(dims) == m * d
    &&& shape::fits(dims)
    &&& shape::compatible(loc, dims)
    &&& shape::broadcast_dims(loc, dims) == dims
}

#[verifier::spinoff_prover]
proof fn lemma_scattered(
    w: Reader,
    loc: Value,
    wide: Value,
    m: usize,
    d: usize,
    seed: u64,
    dims: Seq<usize>,
    i: int,
)
    requires
        shifts(loc.dims, wide, m, d, dims),
        w.fits(wide),
        w.fits(loc),
        0 <= i < m * d,
    ensures
        ({
            let v = scattered(wide, m, d, seed, dims);
            let p = products_at(w, wide, multivariate::noise_of(m, d, seed), d, i);
            let z = tensor::binary_of(Binary::Add, loc, v);
            &&& tensor::product_of(
                Product::Plain,
                wide,
                multivariate::noise_of(m, d, seed),
            ) is Ok
            &&& tensor::reshape_of(
                tensor::product_of(Product::Plain, wide, multivariate::noise_of(m, d, seed))->Ok_0,
                dims,
            ) is Ok
            &&& z is Ok
            &&& z->Ok_0.dims == dims
            &&& w.at(z->Ok_0, i) == w.at(loc, shape::place(i, dims, loc.dims)) + rows::sum(
                p,
                p.len(),
            )
        }),
{
    let noise = multivariate::noise_of(m, d, seed);
    lemma_factor_times_noise(w, wide, m, d, seed, i);
    lemma_cube(m, d);
    let v = tensor::product_of(Product::Plain, wide, noise)->Ok_0;
    assert(tensor::reshapes(v.dims, dims));
    let u = scattered(wide, m, d, seed, dims);
    term::law_dims_entries(dims);
    assert(w.of(u.term).dims == dims);
    assert(w.at(u, i) == w.at(v, i));
    let z = tensor::binary_of(Binary::Add, loc, u)->Ok_0;
    shape::lemma_place_same(i, dims);
    assert(w.at(z, i) == w.at(loc, shape::place(i, dims, loc.dims)) + w.at(u, i));
}

/// The mean plus a factor times noise.
#[verifier::spinoff_prover]
proof fn lemma_shifted(
    w: Reader,
    t: Tape,
    g: Gaussian,
    wide: Traced,
    m: usize,
    seed: u64,
    dims: Seq<usize>,
    i: int,
)
    requires
        shifts(g.loc.value.dims, wide.value, m, g.dim(), dims),
        w.fits(wide.value),
        w.fits(g.loc.value),
        0 <= i < m * g.dim(),
    ensures
        ({
            let r = multivariate::shifted_op(t, g, wide, m, seed, dims);
            let p = products_at(
                w,
                wide.value,
                multivariate::noise_of(m, g.dim(), seed),
                g.dim(),
                i,
            );
            &&& r is Ok
            &&& r->Ok_0.1.value.dims == dims
            &&& w.at(r->Ok_0.1.value, i) == w.at(
                g.loc.value,
                shape::place(i, dims, g.loc.value.dims),
            ) + rows::sum(p, p.len())
        }),
{
    broadcast use var::lemma_record_value;

    let d = g.dim();
    let noise = multivariate::noise_of(m, d, seed);
    lemma_scattered(w, g.loc.value, wide.value, m, d, seed, dims, i);
    let r1 = ops::product_op(t, Product::Plain, wide, ops::untracked(noise));
    assert(r1 is Ok && r1->Ok_0.1.value == tensor::product_of(
        Product::Plain,
        wide.value,
        noise,
    )->Ok_0);
    let r2 = ops::reshape_op(r1->Ok_0.0, r1->Ok_0.1, dims);
    assert(r2 is Ok && r2->Ok_0.1.value == scattered(wide.value, m, d, seed, dims));
    let r3 = ops::binary_op(r2->Ok_0.0, Binary::Add, g.loc, r2->Ok_0.1);
    assert(r3 is Ok);
}

// -- samples -------------------------------------------------------------------------------

/// The factor as a batch of matrices.
#[verifier::spinoff_prover]
proof fn lemma_factor(w: Reader, t: Tape, g: Gaussian)
    requires
        g.wf(),
        shape::fits(g.tril.value.dims),
    ensures
        ({
            let (m, d) = (g.rows(), g.dim());
            let lower = multivariate::lower_op(t, g);
            let tril = ops::reshape_op(lower->Ok_0.0, lower->Ok_0.1, seq![m, d, d]);
            &&& lower is Ok
            &&& tril is Ok
            &&& tril->Ok_0.1.value.dims == seq![m, d, d]
            &&& tril->Ok_0.1.value == tensor::reshape_of(
                multivariate::lower_of(g.tril.value, d)->Ok_0,
                seq![m, d, d],
            )->Ok_0
            &&& w.fits(tril->Ok_0.1.value)
            &&& m == shape::product(g.batch())
            &&& shape::product(g.loc.value.dims) == m * d
            &&& shape::product(g.tril.value.dims) == m * d * d
        }),
{
    broadcast use var::lemma_record_value;

    let (m, d) = (g.rows(), g.dim());
    let s = g.tril.value.dims;
    let l = g.loc.value.dims;
    assert(s.drop_last() =~= l);
    lemma_cube(m, d);
    lemma_triangle_broadcasts(s, d);
    term::law_dims_entries(seq![m, d, d]);
    let low = multivariate::lower_of(g.tril.value, d)->Ok_0;
    assert(low.dims == s);
    let lower = multivariate::lower_op(t, g);
    assert(lower is Ok && lower->Ok_0.1.value == low);
}

/// The factors of `n` draws.
pub open spec fn repeated(tril: Value, n: usize, m: usize, d: usize) -> Value {
    tensor::reshape_of(
        tensor::expand_of(
            tensor::reshape_of(tril, seq![1usize, m, d, d])->Ok_0,
            seq![n, m, d, d],
        )->Ok_0,
        seq![(m * n) as usize, d, d],
    )->Ok_0
}

#[verifier::spinoff_prover]
proof fn lemma_repeated_factor(w: Reader, tril: Value, n: usize, m: usize, d: usize)
    requires
        tril.dims == seq![m, d, d],
        w.fits(tril),
        0 < m,
        0 < d,
        0 < n,
        m * n <= usize::MAX,
        m * d * d <= usize::MAX,
        n * (m * d * d) <= usize::MAX,
    ensures
        ({
            let one = tensor::reshape_of(tril, seq![1usize, m, d, d]);
            let spread = tensor::expand_of(one->Ok_0, seq![n, m, d, d]);
            let wide = tensor::reshape_of(spread->Ok_0, seq![(m * n) as usize, d, d]);
            &&& one is Ok
            &&& spread is Ok
            &&& wide is Ok
            &&& wide->Ok_0 == repeated(tril, n, m, d)
        }),
        w.fits(repeated(tril, n, m, d)),
        repeated(tril, n, m, d).dims == seq![(m * n) as usize, d, d],
        forall|j: int|
            0 <= j < m * d * d ==> #[trigger] w.at(repeated(tril, n, m, d), j) == w.at(tril, j),
{
    let all = (m * n) as usize;
    let (lead, tall) = (seq![1usize, m, d, d], seq![n, m, d, d]);
    assert(lead =~= seq![1usize] + seq![m, d, d]);
    assert(tall =~= seq![n] + seq![m, d, d]);
    lemma_cube(m, d);
    lemma_cube(all, d);
    lemma_lead(1, seq![m, d, d]);
    lemma_lead(n, seq![m, d, d]);
    term::law_dims_entries(lead);
    term::law_dims_entries(tall);
    term::law_dims_entries(seq![all, d, d]);
    assert(n * (m * d * d) == (m * n) * d * d) by (nonlinear_arith);
    assert(0 < m * d * d) by (nonlinear_arith)
        requires
            0 < m,
            0 < d,
    ;
    lemma_repeated(0, n, m, d);
    let one = tensor::reshape_of(tril, lead)->Ok_0;
    let spread = tensor::expand_of(one, tall)->Ok_0;
    let wide = repeated(tril, n, m, d);
    assert forall|j: int| 0 <= j < m * d * d implies #[trigger] w.at(wide, j) == w.at(tril, j) by {
        lemma_repeated(j, n, m, d);
        assert(w.of(one.term).dims == lead);
        assert(w.at(wide, j) == w.at(spread, j));
        assert(w.at(spread, j) == w.at(one, shape::place(j, tall, lead)));
        assert(w.at(one, j) == w.at(tril, j));
    }
}

/// The noise of a draw is the beginning of the noise of any number of them.
#[verifier::spinoff_prover]
proof fn lemma_same_products(
    w: Reader,
    tril: Value,
    n: usize,
    m: usize,
    d: usize,
    seed: u64,
    i: int,
)
    requires
        0 <= i < m * d,
        forall|j: int|
            0 <= j < m * d * d ==> #[trigger] w.at(repeated(tril, n, m, d), j) == w.at(tril, j),
    ensures
        products_at(w, tril, multivariate::noise_of(m, d, seed), d, i) == products_at(
            w,
            repeated(tril, n, m, d),
            multivariate::noise_of((m * n) as usize, d, seed),
            d,
            i,
        ),
{
    let all = (m * n) as usize;
    let (x, y) = (multivariate::noise_of(m, d, seed), multivariate::noise_of(all, d, seed));
    let p = products_at(w, tril, x, d, i);
    let q = products_at(w, repeated(tril, n, m, d), y, d, i);
    lemma_noise(m, d, seed);
    lemma_noise(all, d, seed);
    assert forall|k: int| 0 <= k < d implies p[k] == q[k] by {
        let j = i * d + k;
        assert(0 <= j < m * d * d) by (nonlinear_arith)
            requires
                j == i * d + k,
                0 <= k < d,
                0 <= i < m * d,
        ;
        assert(w.at(repeated(tril, n, m, d), j) == w.at(tril, j));
        readings::law_samples_are_a_prefix(
            w,
            noise_family(),
            seq![m, d, 1usize],
            seq![all, d, 1usize],
            seed,
            (i / d as int) * d + k,
        );
    }
    assert(p =~= q);
}

/// How many draws are taken: the factors are repeated, then shifted.
#[verifier::spinoff_prover]
proof fn lemma_many(
    w: Reader,
    t: Tape,
    g: Gaussian,
    n: usize,
    seed: u64,
    tril: Value,
) -> (wide: (Tape, Traced))
    requires
        g.wf(),
        shape::fits(g.tril.value.dims),
        0 < g.rows(),
        0 < g.dim(),
        0 < n,
        g.rows() * n <= usize::MAX,
        n * (g.rows() * g.dim() * g.dim()) <= usize::MAX,
        tril == tensor::reshape_of(
            multivariate::lower_of(g.tril.value, g.dim())->Ok_0,
            seq![g.rows(), g.dim(), g.dim()],
        )->Ok_0,
    ensures
        wide.1.value == repeated(tril, n, g.rows(), g.dim()),
        multivariate::rsample_n_op(t, g, n, seed) == multivariate::shifted_op(
            wide.0,
            g,
            wide.1,
            (g.rows() * n) as usize,
            seed,
            seq![n] + g.loc.value.dims,
        ),
{
    broadcast use var::lemma_record_value;

    let (m, d) = (g.rows(), g.dim());
    lemma_factor(w, t, g);
    lemma_repeated_factor(w, tril, n, m, d);
    let lower = multivariate::lower_op(t, g)->Ok_0;
    let r1 = ops::reshape_op(lower.0, lower.1, seq![m, d, d])->Ok_0;
    assert(r1.1.value == tril);
    assert(tril.dims.insert(0, 1usize) =~= seq![1usize, m, d, d]);
    let r2 = ops::reshape_op(r1.0, r1.1, seq![1usize, m, d, d])->Ok_0;
    assert(r2.1.value == tensor::reshape_of(tril, seq![1usize, m, d, d])->Ok_0);
    let r3 = ops::expand_op(r2.0, r2.1, seq![n, m, d, d])->Ok_0;
    assert(r3.1.value == tensor::expand_of(r2.1.value, seq![n, m, d, d])->Ok_0);
    let r4 = ops::reshape_op(r3.0, r3.1, seq![(m * n) as usize, d, d])->Ok_0;
    assert(r4.1.value == repeated(tril, n, m, d));
    assert(multivariate::rsample_n_op(t, g, n, seed) == multivariate::shifted_op(
        r4.0,
        g,
        r4.1,
        (m * n) as usize,
        seed,
        seq![n] + g.loc.value.dims,
    ));
    r4
}

/// Row by row, the samples of a multivariate normal are the same however many are drawn: the
/// single sample is the first of any number of them.
#[verifier::spinoff_prover]
pub proof fn law_gaussian_samples_are_a_prefix(
    w: Reader,
    t: Tape,
    u: Tape,
    g: Gaussian,
    n: usize,
    seed: u64,
    i: int,
)
    requires
        g.wf(),
        w.fits(g.loc.value),
        n > 0,
        shape::fits(seq![n] + g.tril.value.dims),
        0 <= i < shape::product(g.loc.value.dims),
    ensures
        ({
            let one = multivariate::rsample_op(t, g, seed);
            let many = multivariate::rsample_n_op(u, g, n, seed);
            &&& one is Ok
            &&& many is Ok
            &&& one->Ok_0.1.value.dims == g.loc.value.dims
            &&& many->Ok_0.1.value.dims == seq![n] + g.loc.value.dims
            &&& w.at(one->Ok_0.1.value, i) == w.at(many->Ok_0.1.value, i)
        }),
{
    let (m, d) = (g.rows(), g.dim());
    let l = g.loc.value.dims;
    let dims = seq![n] + l;
    lemma_lead(n, l);
    lemma_lead(n, g.tril.value.dims);
    let big = shape::product(g.tril.value.dims);
    assert(big <= n * big) by (nonlinear_arith)
        requires
            n > 0,
    ;
    lemma_factor(w, t, g);
    assert(0 < m && 0 < d) by (nonlinear_arith)
        requires
            0 <= i < m * d,
    ;
    assert(m * n <= n * (m * d * d) && n * (m * d) <= n * (m * d * d) && m * d <= n * (m * d) && n
        * (m * d) == (m * n) * d) by (nonlinear_arith)
        requires
            0 < m,
            0 < d,
            0 < n,
    ;
    let all = (m * n) as usize;
    let lower = multivariate::lower_op(t, g)->Ok_0;
    let tril = ops::reshape_op(lower.0, lower.1, seq![m, d, d])->Ok_0;
    shape::law_broadcast_idempotent(l);
    shape::lemma_place_same(i, l);
    lemma_shifted(w, tril.0, g, tril.1, m, seed, l, i);
    assert(multivariate::rsample_op(t, g, seed) == multivariate::shifted_op(
        tril.0,
        g,
        tril.1,
        m,
        seed,
        l,
    ));
    lemma_repeated_factor(w, tril.1.value, n, m, d);
    let wide = lemma_many(w, u, g, n, seed, tril.1.value);
    lemma_lead_broadcasts(n, l);
    shape::lemma_place_tiles(i, seq![n], l);
    vstd::arithmetic::div_mod::lemma_small_mod(i as nat, shape::product(l));
    lemma_shifted(w, wide.0, g, wide.1, all, seed, dims, i);
    lemma_same_products(w, tril.1.value, n, m, d, seed, i);
}

/// The lower triangle of every factor: zero above the diagonal.
#[verifier::spinoff_prover]
proof fn lemma_lower(w: Reader, g: Gaussian, q: int, r: int, k: int)
    requires
        g.wf(),
        w.fits(g.tril.value),
        0 <= q < g.rows(),
        0 <= r < g.dim(),
        0 <= k < g.dim(),
        shape::fits(g.tril.value.dims),
    ensures
        ({
            let i = (q * g.dim() + r) * g.dim() + k;
            let v = multivariate::lower_of(g.tril.value, g.dim());
            v is Ok && w.at(v->Ok_0, i) == if k <= r {
                w.at(g.tril.value, i)
            } else {
                0real
            }
        }),
{
    let (d, s) = (g.dim() as int, g.tril.value.dims);
    let two = seq![g.dim(), g.dim()];
    let (m, n) = (g.rows() as int, g.loc.value.dims);
    assert(s.drop_last() =~= n);
    lemma_triangle_broadcasts(s, g.dim());
    let i = (q * d + r) * d + k;
    let p = r * d + k;
    assert(0 <= p < d * d) by (nonlinear_arith)
        requires
            p == r * d + k,
            0 <= r < d,
            0 <= k < d,
    ;
    assert(i == q * (d * d) + p) by (nonlinear_arith)
        requires
            i == (q * d + r) * d + k,
            p == r * d + k,
    ;
    assert(0 <= i < m * d * d) by (nonlinear_arith)
        requires
            i == q * (d * d) + p,
            0 <= q < m,
            0 <= p < d * d,
    ;
    vstd::arithmetic::div_mod::lemma_fundamental_div_mod_converse(i, d * d, q, p);
    vstd::arithmetic::div_mod::lemma_fundamental_div_mod_converse(p, d, r, k);
    let lead = s.take(s.len() - 2);
    assert(lead + two =~= s);
    lemma_lead(g.dim(), seq![g.dim()]);
    assert(seq![g.dim()] + seq![g.dim()] =~= two);
    lemma_lead(g.dim(), Seq::empty());
    assert(seq![g.dim()] + Seq::<usize>::empty() =~= seq![g.dim()]);
    assert(shape::product(two) == d * d) by {
        let e = shape::product(Seq::<usize>::empty());
        assert(d * e == d) by (nonlinear_arith)
            requires
                e == 1,
        ;
    }
    assert(d * d > 0) by (nonlinear_arith)
        requires
            d > 0,
    ;
    shape::lemma_place_tiles(i, lead, two);
    assert(shape::product(s) == m * d * d);
    shape::lemma_place_same(i, s);
    readings::lemma_kernel(w, crate::term::Fused::Lower, Seq::empty(), two);
    let t = multivariate::triangle(g.dim());
    assert(w.of(t.term).dims == two);
    assert(w.at(t, p) == crate::meaning::indicator(k <= r));
    let v = multivariate::lower_of(g.tril.value, g.dim())->Ok_0;
    assert(w.at(v, i) == crate::meaning::binary(
        w.m.f,
        Binary::Gated,
        w.at(t, p),
        w.at(g.tril.value, i),
    ));
}

/// A draw of a multivariate normal is its mean plus the lower triangle of its factor times
/// standard normal noise, row by row.
#[verifier::spinoff_prover]
pub proof fn law_a_gaussian_draw_is_the_mean_plus_the_factor_times_noise(
    w: Reader,
    t: Tape,
    g: Gaussian,
    seed: u64,
    q: int,
    r: int,
)
    requires
        g.wf(),
        w.fits(g.loc.value),
        w.fits(g.tril.value),
        shape::fits(g.tril.value.dims),
        0 <= q < g.rows(),
        0 <= r < g.dim(),
    ensures
        ({
            let d = g.dim() as int;
            let i = q * d + r;
            let noise = scalar::draw_of(noise_family(), seq![g.rows(), g.dim(), 1usize], seed);
            let s = Seq::new(
                d as nat,
                |k: int|
                    (if k <= r {
                        w.at(g.tril.value, i * d + k)
                    } else {
                        0real
                    }) * w.at(noise, q * d + k),
            );
            let y = multivariate::rsample_op(t, g, seed);
            &&& y is Ok
            &&& y->Ok_0.1.value.dims == g.loc.value.dims
            &&& w.at(y->Ok_0.1.value, i) == w.at(g.loc.value, i) + rows::sum(s, s.len())
        }),
{
    let (m, d) = (g.rows(), g.dim());
    let l = g.loc.value.dims;
    let i = q * d + r;
    lemma_factor(w, t, g);
    assert(0 <= i < m * d) by (nonlinear_arith)
        requires
            i == q * d + r,
            0 <= q < m,
            0 <= r < d,
    ;
    assert(m * d <= m * d * d) by (nonlinear_arith)
        requires
            0 < d,
            0 <= m,
    ;
    let lower = multivariate::lower_op(t, g)->Ok_0;
    let tril = ops::reshape_op(lower.0, lower.1, seq![m, d, d])->Ok_0;
    shape::law_broadcast_idempotent(l);
    shape::lemma_place_same(i, l);
    lemma_shifted(w, tril.0, g, tril.1, m, seed, l, i);
    lemma_noise(m, d, seed);
    vstd::arithmetic::div_mod::lemma_fundamental_div_mod_converse(i, d as int, q, r);
    let noise = multivariate::noise_of(m, d, seed);
    let p = products_at(w, tril.1.value, noise, d, i);
    let s = Seq::new(
        d as nat,
        |k: int|
            (if k <= r {
                w.at(g.tril.value, i * d + k)
            } else {
                0real
            }) * w.at(noise, q * d + k),
    );
    let low = multivariate::lower_of(g.tril.value, d)->Ok_0;
    assert(g.tril.value.dims.drop_last() =~= l);
    lemma_triangle_broadcasts(g.tril.value.dims, d);
    lemma_cube(m, d);
    assert(tensor::reshapes(low.dims, seq![m, d, d]));
    assert forall|k: int| 0 <= k < d implies p[k] == s[k] by {
        lemma_lower(w, g, q, r, k);
        crate::nn::value_readings::lemma_reshaped(w, low, seq![m, d, d], i * d + k);
    }
    assert(p =~= s);
}

} // verus!
