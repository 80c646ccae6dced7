//! When a divergence exists, and its shape.

use vstd::prelude::*;

use super::kl;
use super::scalar;
use super::scalar::Family;
use super::univariate::Kind;
use crate::autograd::graph::Tape;
use crate::autograd::var;
use crate::autograd::var::Traced;
use crate::error::Fault;
use crate::shape;

verus! {

/// The families whose divergence has a closed form.
pub open spec fn has_formula(kind: Kind) -> bool {
    match kind {
        Kind::Normal | Kind::LogNormal | Kind::HalfNormal | Kind::Uniform | Kind::Exponential
        | Kind::Laplace | Kind::Cauchy | Kind::HalfCauchy | Kind::Gumbel | Kind::Pareto
        | Kind::Gamma | Kind::InverseGamma | Kind::Beta | Kind::Bernoulli | Kind::Geometric
        | Kind::Poisson => true,
        _ => false,
    }
}

/// Whether every parameter of a distribution has a given shape.
pub open spec fn shaped(f: Family, s: Seq<usize>) -> bool {
    f.a.value.dims == s && f.b.value.dims == s && f.batch == s
}

/// A result of a given shape.
pub open spec fn gives(r: Result<(Tape, Traced), Fault>, s: Seq<usize>) -> bool {
    r matches Ok(v) && v.1.value.dims == s
}

/// Whether `s` and `r` broadcast to `o`, which takes up both.
pub open spec fn meets(s: Seq<usize>, r: Seq<usize>, o: Seq<usize>) -> bool {
    &&& shape::broadcast(s, s) == Ok::<Seq<usize>, Fault>(s)
    &&& shape::broadcast(r, r) == Ok::<Seq<usize>, Fault>(r)
    &&& shape::broadcast(o, o) == Ok::<Seq<usize>, Fault>(o)
    &&& shape::broadcast(s, r) == Ok::<Seq<usize>, Fault>(o)
    &&& shape::broadcast(r, s) == Ok::<Seq<usize>, Fault>(o)
    &&& shape::broadcast(s, o) == Ok::<Seq<usize>, Fault>(o)
    &&& shape::broadcast(o, s) == Ok::<Seq<usize>, Fault>(o)
    &&& shape::broadcast(r, o) == Ok::<Seq<usize>, Fault>(o)
    &&& shape::broadcast(o, r) == Ok::<Seq<usize>, Fault>(o)
}

proof fn lemma_takes_up(s: Seq<usize>, o: Seq<usize>)
    requires
        s.len() <= o.len(),
        forall|i: int|
            0 <= i < o.len() ==> #[trigger] shape::left_padded(s, o.len())[i] == 1
                || shape::left_padded(s, o.len())[i] == o[i],
    ensures
        shape::broadcast(s, o) == Ok::<Seq<usize>, Fault>(o),
        shape::broadcast(o, s) == Ok::<Seq<usize>, Fault>(o),
{
    let n = o.len();
    assert(shape::max_rank(s, o) == n && shape::max_rank(o, s) == n);
    assert(shape::left_padded(o, n) =~= o);
    assert forall|i: int| 0 <= i < n implies shape::extents_agree(
        #[trigger] shape::left_padded(o, n)[i],
        shape::left_padded(s, n)[i],
    ) && shape::stretched(o[i], shape::left_padded(s, n)[i]) == o[i] by {
        assert(shape::left_padded(s, n)[i] == 1 || shape::left_padded(s, n)[i] == o[i]);
    }
    assert(shape::compatible(o, s));
    assert(shape::compatible(s, o));
    assert(shape::broadcast_dims(s, o) =~= o);
    assert(shape::broadcast_dims(o, s) =~= o) by {
        assert forall|i: int| 0 <= i < n implies shape::broadcast_dims(o, s)[i] == o[i] by {
            assert(shape::left_padded(o, n)[i] == o[i]);
        }
    }
}

proof fn lemma_meets(s: Seq<usize>, r: Seq<usize>)
    requires
        shape::compatible(s, r),
    ensures
        meets(s, r, shape::broadcast_dims(s, r)),
{
    let o = shape::broadcast_dims(s, r);
    let n = shape::max_rank(s, r);
    shape::law_broadcast_idempotent(s);
    shape::law_broadcast_idempotent(r);
    shape::law_broadcast_idempotent(o);
    shape::law_broadcast_commutes(s, r);
    assert forall|i: int| 0 <= i < n implies (#[trigger] shape::left_padded(s, n)[i] == 1
        || shape::left_padded(s, n)[i] == o[i]) && (shape::left_padded(r, n)[i] == 1
        || shape::left_padded(r, n)[i] == o[i]) by {
        assert(shape::extents_agree(shape::left_padded(s, n)[i], shape::left_padded(r, n)[i]));
    }
    assert forall|i: int| 0 <= i < n implies (#[trigger] shape::left_padded(r, n)[i] == 1
        || shape::left_padded(r, n)[i] == o[i]) by {
        assert(shape::left_padded(s, n)[i] == 1 || shape::left_padded(s, n)[i] == o[i]);
    }
    lemma_takes_up(s, o);
    lemma_takes_up(r, o);
}

#[verifier::spinoff_prover]
proof fn lemma_normal(
    t: Tape,
    a: Traced,
    b: Traced,
    c: Traced,
    d: Traced,
    s: Seq<usize>,
    r: Seq<usize>,
    o: Seq<usize>,
)
    requires
        meets(s, r, o),
        a.value.dims == s,
        b.value.dims == s,
        c.value.dims == s || c.value.dims == r,
        d.value.dims == r,
    ensures
        gives(kl::normal_like_op(t, a, b, c, d), o),
{
    broadcast use var::lemma_record_value;
}

#[verifier::spinoff_prover]
proof fn lemma_cauchy(
    t: Tape,
    a: Traced,
    b: Traced,
    c: Traced,
    d: Traced,
    s: Seq<usize>,
    r: Seq<usize>,
    o: Seq<usize>,
)
    requires
        meets(s, r, o),
        a.value.dims == s,
        b.value.dims == s,
        c.value.dims == s || c.value.dims == r,
        d.value.dims == r,
    ensures
        gives(kl::cauchy_like_op(t, a, b, c, d), o),
{
    broadcast use var::lemma_record_value;
}

#[verifier::spinoff_prover]
proof fn lemma_gamma(
    t: Tape,
    a: Traced,
    b: Traced,
    c: Traced,
    d: Traced,
    s: Seq<usize>,
    r: Seq<usize>,
    o: Seq<usize>,
)
    requires
        meets(s, r, o),
        a.value.dims == s,
        b.value.dims == s,
        c.value.dims == r,
        d.value.dims == r,
    ensures
        gives(kl::gamma_like_op(t, a, b, c, d), o),
{
    broadcast use var::lemma_record_value;
}

#[verifier::spinoff_prover]
proof fn lemma_bernoulli(
    t: Tape,
    a: Traced,
    b: Traced,
    s: Seq<usize>,
    r: Seq<usize>,
    o: Seq<usize>,
)
    requires
        meets(s, r, o),
        a.value.dims == s,
        b.value.dims == r,
    ensures
        gives(kl::bernoulli_like_op(t, a, b), o),
{
    broadcast use var::lemma_record_value;
}

#[verifier::spinoff_prover]
proof fn lemma_uniform(
    t: Tape,
    a: Traced,
    b: Traced,
    c: Traced,
    d: Traced,
    s: Seq<usize>,
    r: Seq<usize>,
    o: Seq<usize>,
)
    requires
        meets(s, r, o),
        a.value.dims == s,
        b.value.dims == s,
        c.value.dims == r,
        d.value.dims == r,
    ensures
        gives(kl::uniform_like_op(t, a, b, c, d), o),
{
    broadcast use var::lemma_record_value;
}

#[verifier::spinoff_prover]
proof fn lemma_exponential(
    t: Tape,
    a: Traced,
    b: Traced,
    s: Seq<usize>,
    r: Seq<usize>,
    o: Seq<usize>,
)
    requires
        meets(s, r, o),
        a.value.dims == s,
        b.value.dims == r,
    ensures
        gives(kl::exponential_like_op(t, a, b), o),
{
    broadcast use var::lemma_record_value;
}

#[verifier::spinoff_prover]
proof fn lemma_laplace(
    t: Tape,
    a: Traced,
    b: Traced,
    c: Traced,
    d: Traced,
    s: Seq<usize>,
    r: Seq<usize>,
    o: Seq<usize>,
)
    requires
        meets(s, r, o),
        a.value.dims == s,
        b.value.dims == s,
        c.value.dims == r,
        d.value.dims == r,
    ensures
        gives(kl::laplace_like_op(t, a, b, c, d), o),
{
    broadcast use var::lemma_record_value;
}

#[verifier::spinoff_prover]
proof fn lemma_gumbel(
    t: Tape,
    a: Traced,
    b: Traced,
    c: Traced,
    d: Traced,
    s: Seq<usize>,
    r: Seq<usize>,
    o: Seq<usize>,
)
    requires
        meets(s, r, o),
        a.value.dims == s,
        b.value.dims == s,
        c.value.dims == r,
        d.value.dims == r,
    ensures
        gives(kl::gumbel_like_op(t, a, b, c, d), o),
{
    broadcast use var::lemma_record_value;
}

#[verifier::spinoff_prover]
proof fn lemma_pareto(
    t: Tape,
    a: Traced,
    b: Traced,
    c: Traced,
    d: Traced,
    s: Seq<usize>,
    r: Seq<usize>,
    o: Seq<usize>,
)
    requires
        meets(s, r, o),
        a.value.dims == s,
        b.value.dims == s,
        c.value.dims == r,
        d.value.dims == r,
    ensures
        gives(kl::pareto_like_op(t, a, b, c, d), o),
{
    broadcast use var::lemma_record_value;
}

#[verifier::spinoff_prover]
proof fn lemma_beta(
    t: Tape,
    a: Traced,
    b: Traced,
    c: Traced,
    d: Traced,
    s: Seq<usize>,
    r: Seq<usize>,
    o: Seq<usize>,
)
    requires
        meets(s, r, o),
        a.value.dims == s,
        b.value.dims == s,
        c.value.dims == r,
        d.value.dims == r,
    ensures
        gives(kl::beta_like_op(t, a, b, c, d), o),
{
    broadcast use var::lemma_record_value;
}

#[verifier::spinoff_prover]
proof fn lemma_geometric(
    t: Tape,
    a: Traced,
    b: Traced,
    c: Traced,
    s: Seq<usize>,
    r: Seq<usize>,
    o: Seq<usize>,
)
    requires
        meets(s, r, o),
        a.value.dims == s,
        b.value.dims == s,
        c.value.dims == r,
    ensures
        gives(kl::geometric_like_op(t, a, b, c), o),
{
    broadcast use var::lemma_record_value;
}

#[verifier::spinoff_prover]
proof fn lemma_poisson(
    t: Tape,
    a: Traced,
    b: Traced,
    s: Seq<usize>,
    r: Seq<usize>,
    o: Seq<usize>,
)
    requires
        meets(s, r, o),
        a.value.dims == s,
        b.value.dims == r,
    ensures
        gives(kl::poisson_like_op(t, a, b), o),
{
    broadcast use var::lemma_record_value;
}

/// Two distributions whose parameters have one shape each have a divergence exactly if they
/// are of one family, the family has a closed form for it, and the two shapes broadcast; it
/// then has the shape they broadcast to.
pub proof fn law_divergence_exists(
    t: Tape,
    p: Family,
    q: Family,
    s: Seq<usize>,
    r: Seq<usize>,
)
    requires
        shaped(p, s),
        shaped(q, r),
    ensures
        kl::kl_op(t, p, q) is Ok <==> p.kind == q.kind && has_formula(p.kind) && shape::compatible(
            s,
            r,
        ),
        kl::kl_op(t, p, q) is Ok ==> gives(kl::kl_op(t, p, q), shape::broadcast_dims(s, r)),
{
    if p.kind == q.kind && has_formula(p.kind) && shape::compatible(s, r) {
        lemma_meets(s, r);
        lemma_formula_exists(t, p, q, s, r, shape::broadcast_dims(s, r));
    }
}

proof fn lemma_formula_exists(
    t: Tape,
    p: Family,
    q: Family,
    s: Seq<usize>,
    r: Seq<usize>,
    o: Seq<usize>,
)
    requires
        shaped(p, s),
        shaped(q, r),
        meets(s, r, o),
        p.kind == q.kind,
        has_formula(p.kind),
    ensures
        gives(kl::kl_formula_op(t, p, q), o),
{
    broadcast use var::lemma_record_value;

    let zero = kl::zero_like(p.a);
    match p.kind {
        Kind::Normal | Kind::LogNormal => lemma_normal(t, p.a, p.b, q.a, q.b, s, r, o),
        Kind::HalfNormal => lemma_normal(t, zero, p.a, zero, q.a, s, r, o),
        Kind::Uniform => lemma_uniform(t, p.a, p.b, q.a, q.b, s, r, o),
        Kind::Exponential => lemma_exponential(t, p.a, q.a, s, r, o),
        Kind::Laplace => lemma_laplace(t, p.a, p.b, q.a, q.b, s, r, o),
        Kind::Cauchy => lemma_cauchy(t, p.a, p.b, q.a, q.b, s, r, o),
        Kind::HalfCauchy => lemma_cauchy(t, zero, p.a, zero, q.a, s, r, o),
        Kind::Gumbel => lemma_gumbel(t, p.a, p.b, q.a, q.b, s, r, o),
        Kind::Pareto => lemma_pareto(t, p.a, p.b, q.a, q.b, s, r, o),
        Kind::Gamma | Kind::InverseGamma => lemma_gamma(t, p.a, p.b, q.a, q.b, s, r, o),
        Kind::Beta => lemma_beta(t, p.a, p.b, q.a, q.b, s, r, o),
        Kind::Bernoulli => lemma_bernoulli(t, p.a, q.a, s, r, o),
        Kind::Geometric => {
            let (u, h) = scalar::entropy_op(t, p)->Ok_0;
            lemma_geometric(u, h, p.a, q.a, s, r, o);
        },
        _ => lemma_poisson(t, p.a, q.a, s, r, o),
    }
}

} // verus!
