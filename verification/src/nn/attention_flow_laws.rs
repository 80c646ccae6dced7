//! What queries, keys and values attention works with, over the real numbers.

use vstd::prelude::*;

use super::attention;
use super::attention::{Cached, Frame, MultiHeadAttention, Triple};
use super::attention_laws;
use super::attention_laws::{branches, cell, closes, context, matched};
use super::flow;
use super::flow::World;
use super::layer_laws;
use super::layer_laws::projected;
use super::linear::Linear;
use super::rope;
use super::rope_laws;
use super::rope_laws::angle;
use super::value_readings::row;
use crate::autograd::graph::Tape;
use crate::autograd::ops;
use crate::autograd::var::Traced;
use crate::buffer::Reader;
use crate::error::Fault;
use crate::shape;
use crate::tensor::Value;

verus! {

/// Column `c` of a projection of position `n` of sequence `b`.
pub open spec fn column(w: Reader, g: World, l: Linear, x: Value, total: usize, b: int, n: int, c: int) -> real {
    projected(w, g, l, row(w, x, b * x.dims[1] + n, x.dims[2] as int), total as int, c)
}

/// The pair of numbers that head `h` of a branch holds, turned by the angle of its position
/// where there are rotary positions.
pub open spec fn turned_pair(
    w: Reader,
    g: World,
    a: MultiHeadAttention,
    l: Linear,
    x: Value,
    total: usize,
    past: int,
    b: int,
    h: int,
    n: int,
    j: int,
) -> (real, real) {
    let (d, half) = (a.head_dim as int, (a.head_dim / 2) as int);
    let lo = column(w, g, l, x, total, b, n, h * d + j);
    let hi = column(w, g, l, x, total, b, n, h * d + half + j);
    match a.rope {
        Some(e) => {
            let by = angle(w, e, past + n, j);
            (
                lo * (w.m.f.cos)(by) - hi * (w.m.f.sin)(by),
                lo * (w.m.f.sin)(by) + hi * (w.m.f.cos)(by),
            )
        },
        None => (lo, hi),
    }
}

/// What the branches of attention need.
pub open spec fn three(w: Reader, g: World, a: MultiHeadAttention, x: Value, past: int, qd: usize, kd: usize) -> bool {
    &&& branches(w, g, a.q_proj, x, a.n_heads, a.head_dim, qd)
    &&& branches(w, g, a.k_proj, x, a.n_kv_heads, a.head_dim, kd)
    &&& branches(w, g, a.v_proj, x, a.n_kv_heads, a.head_dim, kd)
    &&& a.head_dim % 2 == 0
    &&& a.rope matches Some(e) ==> e.dim == a.head_dim && e.dim <= u64::MAX && past + x.dims[1]
        <= e.max_len && x.dims[1] * (e.dim / 2) <= usize::MAX
}

proof fn lemma_same_columns(w: Reader, g: World, h: World, l: Linear, x: Seq<real>, total: int, c: int)
    requires
        g.store == h.store,
    ensures
        projected(w, g, l, x, total, c) == projected(w, h, l, x, total, c),
{
    layer_laws::lemma_same_store(w, g, h, l.lora, x, total, c);
}

/// One branch, turned where its heads are turned.
#[verifier::spinoff_prover]
proof fn lemma_branch_pair(
    w: Reader,
    g: World,
    t: Tape,
    a: MultiHeadAttention,
    l: Linear,
    x: Traced,
    heads: usize,
    total: usize,
    past: usize,
    b: int,
    h: int,
    n: int,
    j: int,
)
    requires
        branches(w, g, l, x.value, heads, a.head_dim, total),
        a.head_dim % 2 == 0,
        a.rope matches Some(e) ==> e.dim == a.head_dim && e.dim <= u64::MAX && past
            + x.value.dims[1] <= e.max_len && x.value.dims[1] * (e.dim / 2) <= usize::MAX,
        0 <= b < x.value.dims[0],
        0 <= h < heads,
        0 <= n < x.value.dims[1],
        0 <= j < a.head_dim / 2,
    ensures
        ({
            let half = (a.head_dim / 2) as int;
            let s = seq![x.value.dims[0], heads, x.value.dims[1], a.head_dim];
            let v = attention::branch_op(g, l, x, heads, a.head_dim);
            let r = rope::rotary_opt(t, a.rope, v->Ok_0.1, past);
            let p = turned_pair(w, g, a, l, x.value, total, past as int, b, h, n, j);
            &&& v is Ok
            &&& v->Ok_0.0.store == g.store
            &&& r is Ok
            &&& r->Ok_0.1.value.dims == s
            &&& w.at(r->Ok_0.1.value, cell(s, b, h, n, j)) == p.0
            &&& w.at(r->Ok_0.1.value, cell(s, b, h, n, half + j)) == p.1
        }),
{
    let d = a.head_dim;
    let half = (d / 2) as int;
    attention_laws::law_a_branch_is_a_projection_cut_into_heads(
        w, g, l, x, heads, d, total, b, h, n, j,
    );
    attention_laws::law_a_branch_is_a_projection_cut_into_heads(
        w, g, l, x, heads, d, total, b, h, n, half + j,
    );
    assert(h * d + (half + j) == h * d + half + j);
    let v = attention::branch_op(g, l, x, heads, d)->Ok_0.1;
    if let Some(e) = a.rope {
        rope_laws::law_rotary_positions_turn_pairs(w, t, e, v, past, b, h, n, j);
    }
}

/// Queries, keys and values are projections of the input by their own weights, cut into heads;
/// queries and keys are turned by their positions, counted on from the cached ones, and values
/// are not.
#[verifier::spinoff_prover]
pub proof fn law_queries_keys_and_values(
    w: Reader,
    g: World,
    a: MultiHeadAttention,
    x: Traced,
    past: usize,
    qd: usize,
    kd: usize,
    b: int,
    h: int,
    m: int,
    n: int,
    j: int,
)
    requires
        three(w, g, a, x.value, past as int, qd, kd),
        0 <= b < x.value.dims[0],
        0 <= h < a.n_heads,
        0 <= m < a.n_kv_heads,
        0 <= n < x.value.dims[1],
        0 <= j < a.head_dim / 2,
    ensures
        ({
            let (d, half) = (a.head_dim, (a.head_dim / 2) as int);
            let s = seq![x.value.dims[0], a.n_heads, x.value.dims[1], d];
            let k = seq![x.value.dims[0], a.n_kv_heads, x.value.dims[1], d];
            let r = attention::triple_op(g, a, x, past);
            let p = turned_pair(w, g, a, a.q_proj, x.value, qd, past as int, b, h, n, j);
            let q = turned_pair(w, g, a, a.k_proj, x.value, kd, past as int, b, m, n, j);
            &&& r is Ok
            &&& r->Ok_0.0.store == g.store
            &&& r->Ok_0.1.q.value.dims == s
            &&& r->Ok_0.1.k.value.dims == k
            &&& r->Ok_0.1.v.value.dims == k
            &&& w.at(r->Ok_0.1.q.value, cell(s, b, h, n, j)) == p.0
            &&& w.at(r->Ok_0.1.q.value, cell(s, b, h, n, half + j)) == p.1
            &&& w.at(r->Ok_0.1.k.value, cell(k, b, m, n, j)) == q.0
            &&& w.at(r->Ok_0.1.k.value, cell(k, b, m, n, half + j)) == q.1
            &&& w.at(r->Ok_0.1.v.value, cell(k, b, m, n, j)) == column(
                w,
                g,
                a.v_proj,
                x.value,
                kd,
                b,
                n,
                m * d + j,
            )
        }),
{
    let d = a.head_dim;
    let (w1, q) = attention::branch_op(g, a.q_proj, x, a.n_heads, d)->Ok_0;
    lemma_branch_pair(w, g, g.tape, a, a.q_proj, x, a.n_heads, qd, past, b, h, n, j);
    lemma_branch_pair(w, w1, g.tape, a, a.k_proj, x, a.n_kv_heads, kd, past, b, m, n, j);
    let (w2, k) = attention::branch_op(w1, a.k_proj, x, a.n_kv_heads, d)->Ok_0;
    attention_laws::law_a_branch_is_a_projection_cut_into_heads(
        w, w2, a.v_proj, x, a.n_kv_heads, d, kd, b, m, n, j,
    );
    let (w3, v) = attention::branch_op(w2, a.v_proj, x, a.n_kv_heads, d)->Ok_0;
    lemma_branch_pair(w, g, w3.tape, a, a.q_proj, x, a.n_heads, qd, past, b, h, n, j);
    let (t4, tq) = rope::rotary_opt(w3.tape, a.rope, q, past)->Ok_0;
    lemma_branch_pair(w, w1, t4, a, a.k_proj, x, a.n_kv_heads, kd, past, b, m, n, j);
    let (half, at) = ((d / 2) as int, row(w, x.value, b * x.value.dims[1] + n, x.value.dims[2] as int));
    lemma_same_columns(w, g, w1, a.k_proj, at, kd as int, m * d + j);
    lemma_same_columns(w, g, w1, a.k_proj, at, kd as int, m * d + half + j);
    lemma_same_columns(w, g, w2, a.v_proj, at, kd as int, m * d + j);
}

/// What a cache holds after a pass: the keys and values of all positions so far, the cached
/// ones first. The queries of the new positions attend over them, counted on from the cached
/// positions.
#[verifier::spinoff_prover]
pub proof fn law_a_pass_extends_its_cache(
    g: World,
    a: MultiHeadAttention,
    x: Traced,
    cache: Cached,
) -> (made: (World, Triple))
    requires
        attention::cached_op(g, a, x, cache).1 is Ok,
    ensures
        ({
            let past = attention::positions(cache.keys);
            let t = attention::triple_op(g, a, x, past);
            let r = attention::cached_op(g, a, x, cache);
            &&& t is Ok
            &&& made.1.q == t->Ok_0.1.q
            &&& attention::appended_op(
                t->Ok_0.0.tape,
                cache.keys,
                t->Ok_0.1.k,
            ) matches Ok(k) && k.1 == made.1.k && (attention::appended_op(
                k.0,
                cache.values,
                t->Ok_0.1.v,
            ) matches Ok(v) && v.1 == made.1.v)
            &&& r.0 == (Cached { keys: Some(made.1.k.value), values: Some(made.1.v.value) })
            &&& r.1 == attention::attended_op(
                made.0,
                a,
                made.1,
                x.value.dims[0],
                x.value.dims[1],
                past,
            )
            &&& made.0.store == t->Ok_0.0.store
        }),
{
    attention::history_op(g, a, x, cache)->Ok_0
}

/// Attention over grouped heads: every query head takes values by the shares of the keys of
/// its group, and what the heads take is joined and projected. Returns the keys and values,
/// one per query head.
#[verifier::spinoff_prover]
pub proof fn law_attention_over_grouped_heads(
    w: Reader,
    g: World,
    a: MultiHeadAttention,
    x: Triple,
    past: usize,
    outputs: usize,
    b: int,
    h: int,
    i: int,
    s: int,
    e: int,
    c: int,
) -> (made: (Traced, Traced))
    requires
        x.q.value.dims.len() == 4,
        x.q.value.dims[1] == a.n_heads,
        x.q.value.dims[3] == a.head_dim,
        w.fits(x.q.value),
        x.k.value.dims == seq![x.q.value.dims[0], a.n_kv_heads, x.k.value.dims[2], a.head_dim],
        x.v.value.dims == x.k.value.dims,
        w.fits(x.k.value),
        w.fits(x.v.value),
        0 < a.n_kv_heads,
        a.n_heads % a.n_kv_heads == 0,
        x.q.value.dims[0] * a.n_heads * x.k.value.dims[2] * a.head_dim <= usize::MAX,
        a.n_heads * a.head_dim <= usize::MAX,
        closes(
            w,
            g,
            a,
            x.q.value,
            (Frame {
                b: x.q.value.dims[0],
                queries: x.q.value.dims[2],
                source: x.k.value.dims[2],
                past,
                width: (a.n_heads * a.head_dim) as usize,
            }),
            outputs,
        ),
        0 <= b < x.q.value.dims[0],
        0 <= h < a.n_heads,
        0 <= i < x.q.value.dims[2],
        0 <= s < x.k.value.dims[2],
        0 <= e < a.head_dim,
        0 <= c < outputs,
    ensures
        ({
            let rep = a.n_heads as int / a.n_kv_heads as int;
            let (k, v) = (made.0.value, made.1.value);
            let y = attention::attended_op(g, a, x, x.q.value.dims[0], x.q.value.dims[2], past);
            &&& w.at(k, cell(k.dims, b, h, s, e)) == w.at(
                x.k.value,
                cell(x.k.value.dims, b, h / rep, s, e),
            )
            &&& w.at(v, cell(v.dims, b, h, s, e)) == w.at(
                x.v.value,
                cell(x.v.value.dims, b, h / rep, s, e),
            )
            &&& y is Ok
            &&& w.at(y->Ok_0.1.value, (b * x.q.value.dims[2] + i) * outputs + c) == projected(
                w,
                g,
                a.o_proj,
                context(w, a, x.q.value, k, v, past as int, b, i),
                outputs as int,
                c,
            )
        }),
{
    let (n0, source) = (x.q.value.dims[0], x.k.value.dims[2]);
    attention_laws::law_grouped_heads_share_their_keys(w, g.tape, a, x.k, b, h, s, e);
    let (t1, k) = attention::grown_op(g.tape, a, x.k, n0, source)->Ok_0;
    let g1 = World { tape: t1, ..g };
    attention_laws::law_grouped_heads_share_their_keys(w, t1, a, x.v, b, h, s, e);
    let (t2, v) = attention::grown_op(t1, a, x.v, n0, source)->Ok_0;
    let g2 = World { tape: t2, ..g1 };
    let width = (a.n_heads * a.head_dim) as usize;
    let two = seq![a.n_heads, a.head_dim];
    assert(two.drop_last() =~= seq![a.n_heads]);
    assert(seq![a.n_heads].drop_last() =~= Seq::<usize>::empty());
    let z = shape::product(Seq::<usize>::empty());
    assert(z * a.n_heads as nat == a.n_heads as nat) by (nonlinear_arith)
        requires
            z == 1,
    ;
    assert(shape::product(seq![a.n_heads]) == a.n_heads);
    assert(shape::product(two) == a.n_heads * a.head_dim);
    let f = Frame { b: n0, queries: x.q.value.dims[2], source, past, width };
    assert(closes(w, g2, a, x.q.value, f, outputs));
    attention_laws::law_attention_takes_values_by_their_shares(
        w, g2, a, x.q, k, v, f, outputs, b, i, c,
    );
    lemma_same_columns(
        w,
        g,
        g2,
        a.o_proj,
        context(w, a, x.q.value, k.value, v.value, past as int, b, i),
        outputs as int,
        c,
    );
    (k, v)
}

} // verus!
