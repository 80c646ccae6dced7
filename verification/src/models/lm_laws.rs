//! What a language model computes from its parts, over the real numbers.

use vstd::prelude::*;

use super::hybrid;
use super::hybrid::{HybridLayer, Mixer, Slot};
use super::lm;
use super::lm::Lm;
use super::mamba3;
use super::mixer_laws;
use crate::autograd::graph::Tape;
use crate::autograd::ops;
use crate::autograd::var;
use crate::autograd::var::Traced;
use crate::buffer;
use crate::buffer::Reader;
use crate::distributions::launches;
use crate::distributions::rows;
use crate::error::Fault;
use crate::layer_kernels::{dot, products};
use crate::nn::attention;
use crate::nn::attention::Cached;
use crate::nn::dropout;
use crate::nn::embedding;
use crate::nn::embedding::Embedding;
use crate::nn::flow;
use crate::nn::flow::{Step, World};
use crate::nn::layer_laws;
use crate::nn::layer_laws::{idle, plain, projected, rms_factor, widened};
use crate::nn::linear;
use crate::nn::mlp;
use crate::nn::norm;
use crate::nn::norm::RmsNorm;
use crate::nn::param;
use crate::nn::sequential;
use crate::nn::value_readings::{
    entry_or, heights, inside, lemma_entry, lemma_pair, lemma_product, lemma_var, row,
    row_times_column, stored, stored_opt, weight,
};
use crate::shape;
use crate::tensor;
use crate::tensor::{IdValue, Value};
use crate::term;
use crate::term::{Binary, Product};

verus! {

// -- embeddings ----------------------------------------------------------------------------

/// Looking ids up gives, for every id, the row of the table that it names.
#[verifier::spinoff_prover]
pub proof fn law_lookup_gives_the_named_rows(
    w: Reader,
    g: World,
    e: Embedding,
    ids: IdValue,
    train: bool,
    p: int,
    j: int,
)
    requires
        g.store.weights.contains_key(e.weight.key()),
        weight(g, e.weight).dims.len() == 2,
        w.fits(weight(g, e.weight)),
        w.of(ids.term).dims == ids.dims,
        0 <= p,
        0 <= j < weight(g, e.weight).dims[1],
    ensures
        ({
            let r = embedding::lookup_op(g, e, ids, train);
            let t = weight(g, e.weight);
            let d = t.dims[1];
            &&& r is Ok
            &&& r->Ok_0.0.store == g.store
            &&& r->Ok_0.1.value.dims == ids.dims.push(d)
            &&& w.fits(r->Ok_0.1.value)
            &&& w.at(r->Ok_0.1.value, p * d + j) == w.at(
                t,
                launches::id_of((w.of(ids.term).at)(p)) * d + j,
            )
        }),
{
    broadcast use var::lemma_record_value;

    let (t0, anchor) = embedding::anchor_op(g.tape, train);
    let g0 = World { tape: t0, ..g };
    lemma_var(g0, e.weight.key(), anchor);
    let (g1, table) = param::var_op(g0, e.weight.key(), anchor)->Ok_0;
    let t = weight(g, e.weight);
    let d = t.dims[1] as int;
    let v = tensor::gather_rows_of(t, ids)->Ok_0;
    let r = ops::embedding_op(g1.tape, table, ids);
    assert(r is Ok && r->Ok_0.1.value == v);
    let i = p * d + j;
    vstd::arithmetic::div_mod::lemma_fundamental_div_mod_converse(i, d, p, j);
    assert(t.dims.last() == d);
    assert(w.of(v.term).dims == v.dims);
    assert(w.at(v, i) == w.at(t, launches::id_of((w.of(ids.term).at)(p)) * d + j));
}

// -- the head ------------------------------------------------------------------------------

/// Whether the store holds what turns hidden states into logits.
pub open spec fn heads(w: Reader, g: World, m: Lm, dim: usize, vocab: usize) -> bool {
    match m.head {
        Some(h) => plain(w, g, h, dim, vocab) && (h.lora matches Some(a) ==> weight(
            g,
            a.a,
        ).dims[1] > 0),
        None => stored(w, g, m.embed.weight, seq![vocab, dim]),
    }
}

/// The score of token `c` for a hidden row: through the head, or against the token's own
/// embedding where the two are tied.
pub open spec fn logit(w: Reader, g: World, m: Lm, x: Seq<real>, vocab: int, c: int) -> real {
    match m.head {
        Some(h) => projected(w, g, h, x, vocab, c),
        None => dot(x, row(w, weight(g, m.embed.weight), c, x.len() as int)),
    }
}

/// The transpose of a matrix.
#[verifier::spinoff_prover]
proof fn lemma_transposed(w: Reader, t: Tape, x: Traced, v: usize, d: usize, k: int, c: int)
    requires
        x.value.dims == seq![v, d],
        w.fits(x.value),
        0 <= k < d,
        0 <= c < v,
    ensures
        ({
            let r = attention::transposed_op(t, x);
            &&& r is Ok
            &&& r->Ok_0.1.value.dims == seq![d, v]
            &&& w.fits(r->Ok_0.1.value)
            &&& w.at(r->Ok_0.1.value, k * v + c) == w.at(x.value, c * d + k)
        }),
{
    broadcast use var::lemma_record_value;

    let order = ops::exchanged(2, 0, 1);
    assert(order =~= seq![1usize, 0usize]);
    let (dims, out) = (x.value.dims, seq![d, v]);
    assert(tensor::permuted(dims, order) =~= out);
    assert(tensor::is_order(order, 2));
    term::law_dims_entries(order);
    let p = tensor::permute_of(x.value, order)->Ok_0;
    let r = attention::transposed_op(t, x);
    assert(r is Ok && r->Ok_0.1.value == p);
    let i = k * v + c;
    vstd::arithmetic::div_mod::lemma_fundamental_div_mod_converse(i, v as int, k, c);
    assert(w.of(p.term).dims == out);
    assert(w.at(p, i) == w.at(x.value, buffer::reordered(i, out, dims, order, 2)));
    reveal_with_fuel(buffer::reordered, 3);
    let none = Seq::<usize>::empty();
    assert(out.skip(1) =~= seq![v]);
    assert(dims.skip(1) =~= seq![d]);
    assert(out.skip(2) =~= none);
    assert(dims.skip(2) =~= none);
    assert(seq![v].drop_last() =~= none);
    assert(seq![d].drop_last() =~= none);
    let e = shape::product(none);
    assert(e * v == v && e * d == d) by (nonlinear_arith)
        requires
            e == 1,
    ;
    assert(buffer::inner(out, 0) == v && buffer::inner(dims, 0) == d);
    assert(buffer::inner(out, 1) == 1 && buffer::inner(dims, 1) == 1);
    assert(k % (d as int) == k && c % (v as int) == c) by {
        vstd::arithmetic::div_mod::lemma_small_mod(k as nat, d as nat);
        vstd::arithmetic::div_mod::lemma_small_mod(c as nat, v as nat);
    }
    assert(i / 1 == i) by (nonlinear_arith);
    assert(i % (v as int) == c);
    assert(k * 1 == k);
}

/// Logits are the scores of every token for every hidden row.
#[verifier::spinoff_prover]
pub proof fn law_logits_score_the_hidden_rows(
    w: Reader,
    g: World,
    m: Lm,
    hidden: Traced,
    vocab: usize,
    r: int,
    c: int,
)
    requires
        w.fits(hidden.value),
        hidden.value.dims.len() >= 2,
        hidden.value.dims.last() > 0,
        heads(w, g, m, hidden.value.dims.last(), vocab),
        0 <= r < heights(hidden.value.dims),
        0 <= c < vocab,
    ensures
        ({
            let y = lm::logits_op(g, m, hidden);
            &&& y is Ok
            &&& y->Ok_0.1.value.dims == widened(hidden.value.dims, vocab)
            &&& w.at(y->Ok_0.1.value, r * vocab + c) == logit(
                w,
                g,
                m,
                row(w, hidden.value, r, hidden.value.dims.last() as int),
                vocab as int,
                c,
            )
        }),
{
    broadcast use var::lemma_record_value;

    reveal(lm::logits_op);
    let d = hidden.value.dims.last();
    let xs = row(w, hidden.value, r, d as int);
    match m.head {
        Some(h) => layer_laws::law_projection_is_affine(w, g, h, hidden, vocab, r, c),
        None => {
            let id = m.embed.weight.key();
            lemma_var(g, id, hidden);
            let (g1, table) = param::var_op(g, id, hidden)->Ok_0;
            lemma_transposed(w, g1.tape, table, vocab, d, 0, c);
            let (t2, turned) = attention::transposed_op(g1.tape, table)->Ok_0;
            lemma_product(w, hidden.value, turned.value, r, c);
            let z = ops::product_op(t2, Product::Plain, hidden, turned);
            assert(z is Ok && z->Ok_0.1.value == tensor::product_of(
                Product::Plain,
                hidden.value,
                turned.value,
            )->Ok_0);
            let own = row(w, weight(g, m.embed.weight), c, d as int);
            let s = Seq::new(xs.len(), |k: int| xs[k] * w.at(turned.value, k * vocab + c));
            assert forall|k: int| 0 <= k < d implies s[k] == products(xs, own)[k] by {
                lemma_transposed(w, g1.tape, table, vocab, d, k, c);
            }
            assert(s =~= products(xs, own));
        },
    }
}

// -- the whole pass ------------------------------------------------------------------------

/// A row, normalised.
pub open spec fn normed_row(w: Reader, g: World, l: RmsNorm, x: Seq<real>) -> Seq<real> {
    Seq::new(x.len(), |c: int| mixer_laws::normed(w, g, Some(l), x, c))
}

/// What the end of a model needs of what its stack gives.
pub open spec fn ends(w: Reader, g: World, m: Lm, z: Value, vocab: usize) -> bool {
    &&& w.fits(z)
    &&& 2 <= z.dims.len() <= usize::MAX
    &&& z.dims.last() == m.norm_f.dim
    &&& 0 < m.norm_f.dim
    &&& stored_opt(w, g, m.norm_f.weight, seq![m.norm_f.dim])
    &&& heads(w, g, m, m.norm_f.dim, vocab)
}

/// The hidden states that a model ends with, and the logits they give.
#[verifier::spinoff_prover]
proof fn lemma_ending(w: Reader, g: World, h: World, m: Lm, z: Traced, vocab: usize, r: int, c: int)
    requires
        ends(w, g, m, z.value, vocab),
        norm::rms_op(g, m.norm_f, z) matches Ok(p) ==> h.store == p.0.store,
        0 <= r < heights(z.value.dims),
        0 <= c < vocab,
    ensures
        ({
            let y = norm::rms_op(g, m.norm_f, z);
            let k = m.norm_f.dim as int;
            let xs = normed_row(w, g, m.norm_f, row(w, z.value, r, k));
            let out = lm::logits_op(h, m, y->Ok_0.1);
            &&& y is Ok
            &&& row(w, y->Ok_0.1.value, r, k) == xs
            &&& out is Ok
            &&& out->Ok_0.1.value.dims == widened(z.value.dims, vocab)
            &&& w.at(out->Ok_0.1.value, r * vocab + c) == logit(w, g, m, xs, vocab as int, c)
        }),
{
    let k = m.norm_f.dim as int;
    layer_laws::law_rms_layer_scales_rows(w, g, m.norm_f, z, r, 0);
    let (g1, y) = norm::rms_op(g, m.norm_f, z)->Ok_0;
    let zs = row(w, z.value, r, k);
    let xs = normed_row(w, g, m.norm_f, zs);
    assert forall|j: int| 0 <= j < k implies row(w, y.value, r, k)[j] == xs[j] by {
        layer_laws::law_rms_layer_scales_rows(w, g, m.norm_f, z, r, j);
    }
    assert(row(w, y.value, r, k) =~= xs);
    assert(y.value.dims.drop_last() =~= z.value.dims.drop_last());
    law_logits_score_the_hidden_rows(w, h, m, y, vocab, r, c);
    if m.head is Some {
        layer_laws::lemma_same_store(w, g, h, m.head->0.lora, xs, vocab as int, c);
    }
}

/// What a model starts with: the embedded ids, before its stack.
pub open spec fn started(g: World, m: Lm, ids: IdValue) -> Step {
    flow::go(
        embedding::lookup_op(lm::paused(g), m.embed, ids, false),
        |w1: World, x: Traced| dropout::dropout_opt(w1, m.dropout, x),
    )
}

/// A pass outside training scores what its stack gives: where the embedded ids, gone through
/// every layer, are `z`, the logits are the scores of the normalised rows of `z`.
#[verifier::spinoff_prover]
pub proof fn law_a_pass_scores_what_the_stack_gives(
    w: Reader,
    g: World,
    m: Lm,
    ids: IdValue,
    g2: World,
    x: Traced,
    g3: World,
    z: Traced,
    vocab: usize,
    r: int,
    c: int,
)
    requires
        started(g, m, ids) == Ok::<(World, Traced), Fault>((g2, x)),
        sequential::chain_op(g2, m.layers, x, m.layers.len()) == Ok::<(World, Traced), Fault>(
            (g3, z),
        ),
        ends(w, g3, m, z.value, vocab),
        0 <= r < heights(z.value.dims),
        0 <= c < vocab,
    ensures
        ({
            let y = lm::forward_op(g, m, ids, false);
            let h = lm::hidden_op(g, m, ids, false);
            let k = m.norm_f.dim as int;
            let xs = normed_row(w, g3, m.norm_f, row(w, z.value, r, k));
            &&& h is Ok
            &&& row(w, h->Ok_0.1.value, r, k) == xs
            &&& y is Ok
            &&& y->Ok_0.1.value.dims == widened(z.value.dims, vocab)
            &&& w.at(y->Ok_0.1.value, r * vocab + c) == logit(w, g3, m, xs, vocab as int, c)
        }),
{
    reveal(lm::passed_op);
    let p = lm::paused(g);
    assert(lm::paused(p) == p);
    let a = norm::rms_op(g3, m.norm_f, z);
    let first = embedding::lookup_op(p, m.embed, ids, false);
    assert(first is Ok);
    let (w1, x1) = first->Ok_0;
    assert(dropout::dropout_opt(w1, m.dropout, x1) == Ok::<(World, Traced), Fault>((g2, x)));
    assert(lm::passed_op(p, m, ids, false) == a);
    if a is Ok {
        let (g4, y) = a->Ok_0;
        let h = World { tape: Tape { enabled: false, ..g4.tape }, ..g4 };
        lemma_ending(w, g3, h, m, z, vocab, r, c);
    } else {
        lemma_ending(w, g3, g3, m, z, vocab, r, c);
    }
}

/// Decoding scores what its stack gives, with its states: where the embedded ids, gone through
/// every layer with its state, are `z`, the logits are the scores of the normalised rows of
/// `z`.
#[verifier::spinoff_prover]
pub proof fn law_decoding_scores_what_the_stack_gives(
    w: Reader,
    g: World,
    m: Lm,
    ids: IdValue,
    slots: Seq<Slot>,
    g2: World,
    x: Traced,
    g3: World,
    z: Traced,
    vocab: usize,
    r: int,
    c: int,
)
    requires
        started(g, m, ids) == Ok::<(World, Traced), Fault>((g2, x)),
        hybrid::cached_op(g2, m.layers, x, slots).1 == Ok::<(World, Traced), Fault>((g3, z)),
        ends(w, g3, m, z.value, vocab),
        0 <= r < heights(z.value.dims),
        0 <= c < vocab,
    ensures
        ({
            let y = lm::cached_op(g, m, ids, slots);
            let k = m.norm_f.dim as int;
            let xs = normed_row(w, g3, m.norm_f, row(w, z.value, r, k));
            &&& y.0 == hybrid::cached_op(g2, m.layers, x, slots).0
            &&& y.1 is Ok
            &&& y.1->Ok_0.1.value.dims == widened(z.value.dims, vocab)
            &&& w.at(y.1->Ok_0.1.value, r * vocab + c) == logit(w, g3, m, xs, vocab as int, c)
        }),
{
    reveal(lm::advanced_op);
    let p = lm::paused(g);
    let a = norm::rms_op(g3, m.norm_f, z);
    if a is Ok {
        let (g4, y) = a->Ok_0;
        lemma_ending(w, g3, g4, m, z, vocab, r, c);
        assert(lm::advanced_op(p, m, ids, slots).1 == lm::logits_op(g4, m, y));
    } else {
        lemma_ending(w, g3, g3, m, z, vocab, r, c);
    }
}

// -- decoding from nothing -----------------------------------------------------------------

/// Whether a mixer with its state gives what it gives without one.
pub open spec fn fresh(l: HybridLayer, c: Slot, single: bool) -> bool {
    forall|u: World, v: Traced| #[trigger]
        hybrid::mixed_cached_op(u, l.mixer, v, c, single).1 == hybrid::mixed_op(u, l.mixer, v)
}

/// Attention that remembers nothing, and a mixer that carries no state, give what they give
/// without a cache.
pub proof fn law_an_empty_memory_is_none(l: HybridLayer, c: Slot, single: bool)
    requires
        l.mixer is Attention ==> c.attention == (Cached { keys: None, values: None }),
        l.mixer is Mamba ==> c.mamba is None,
    ensures
        fresh(l, c, single),
{
    reveal(hybrid::mixed_cached_op);
}

proof fn lemma_layer(u: World, l: HybridLayer, v: Traced, c: Slot, single: bool)
    requires
        fresh(l, c, single),
    ensures
        hybrid::layer_cached_op(u, l, v, c, single).1 == hybrid::layer_op(u, l, v),
{
    reveal(hybrid::layer_cached_op);
    reveal(hybrid::layer_op);
    let a = norm::rms_op(u, l.norm, v);
    if a is Ok {
        let (u1, n) = a->Ok_0;
        assert(hybrid::mixed_cached_op(u1, l.mixer, n, c, single).1 == hybrid::mixed_op(
            u1,
            l.mixer,
            n,
        ));
    }
}

/// A stack whose states are fresh gives what it gives without them.
pub proof fn law_a_fresh_stack_is_the_plain_stack(
    u: World,
    layers: Seq<HybridLayer>,
    v: Traced,
    c: Seq<Slot>,
    single: bool,
    k: nat,
)
    requires
        k <= layers.len(),
        c.len() == layers.len(),
        forall|i: int| 0 <= i < c.len() ==> fresh(#[trigger] layers[i], c[i], single),
    ensures
        hybrid::layers_cached_op(u, layers, v, c, single, k).1 == sequential::chain_op(
            u,
            layers,
            v,
            k,
        ),
        hybrid::layers_cached_op(u, layers, v, c, single, k).0.len() == c.len(),
        forall|i: int|
            k <= i < c.len() ==> #[trigger] hybrid::layers_cached_op(
                u,
                layers,
                v,
                c,
                single,
                k,
            ).0[i] == c[i],
    decreases k,
{
    if k > 0 {
        law_a_fresh_stack_is_the_plain_stack(u, layers, v, c, single, (k - 1) as nat);
        let (before, r) = hybrid::layers_cached_op(u, layers, v, c, single, (k - 1) as nat);
        if r is Ok {
            let (u1, x) = r->Ok_0;
            assert(before[k - 1] == c[k - 1]);
            assert(fresh(layers[k - 1], c[k - 1], single));
            lemma_layer(u1, layers[k - 1], x, before[k - 1], single);
        }
    }
}

/// From fresh states, decoding a window gives the logits that a pass over the window gives.
#[verifier::spinoff_prover]
pub proof fn law_decoding_from_nothing_is_the_pass(
    w: Reader,
    g: World,
    m: Lm,
    ids: IdValue,
    slots: Seq<Slot>,
    g2: World,
    x: Traced,
    g3: World,
    z: Traced,
    vocab: usize,
    r: int,
    c: int,
)
    requires
        started(g, m, ids) == Ok::<(World, Traced), Fault>((g2, x)),
        sequential::chain_op(g2, m.layers, x, m.layers.len()) == Ok::<(World, Traced), Fault>(
            (g3, z),
        ),
        x.value.dims.len() >= 2,
        slots.len() == m.layers.len(),
        forall|i: int|
            0 <= i < slots.len() ==> fresh(
                #[trigger] m.layers[i],
                slots[i],
                x.value.dims[1] == 1,
            ),
        ends(w, g3, m, z.value, vocab),
        0 <= r < heights(z.value.dims),
        0 <= c < vocab,
    ensures
        ({
            let a = lm::cached_op(g, m, ids, slots).1;
            let b = lm::forward_op(g, m, ids, false);
            &&& a is Ok
            &&& b is Ok
            &&& a->Ok_0.1.value.dims == b->Ok_0.1.value.dims
            &&& w.at(a->Ok_0.1.value, r * vocab + c) == w.at(b->Ok_0.1.value, r * vocab + c)
        }),
{
    law_a_fresh_stack_is_the_plain_stack(
        g2,
        m.layers,
        x,
        slots,
        x.value.dims[1] == 1,
        m.layers.len(),
    );
    law_a_pass_scores_what_the_stack_gives(w, g, m, ids, g2, x, g3, z, vocab, r, c);
    law_decoding_scores_what_the_stack_gives(w, g, m, ids, slots, g2, x, g3, z, vocab, r, c);
}

// -- layers --------------------------------------------------------------------------------

/// A layer adds to its input what its mixer makes of the normalised input, and then what its
/// feed-forward block makes of the normalised sum. Returns the sum and the block's result.
#[verifier::spinoff_prover]
pub proof fn law_a_layer_adds_to_its_input(
    w: Reader,
    g: World,
    l: HybridLayer,
    input: Traced,
    mixed: Traced,
    i: int,
) -> (made: (Traced, Option<Traced>))
    requires
        hybrid::tail_op(g, l, input, mixed) is Ok,
        w.fits(input.value),
        w.fits(mixed.value),
        mixed.value.dims == input.value.dims,
        0 <= i < shape::product(input.value.dims),
    ensures
        w.fits(made.0.value),
        made.0.value.dims == input.value.dims,
        w.at(made.0.value, i) == w.at(input.value, i) + w.at(mixed.value, i),
        made.1 is Some <==> l.feed is Some,
        l.feed is None ==> hybrid::tail_op(g, l, input, mixed)->Ok_0.1.value == made.0.value,
        made.1 matches Some(f) ==> {
            &&& exists|u: World|
                flow::go(
                    #[trigger] norm::rms_op(u, l.feed->0.norm, made.0),
                    |v: World, n: Traced| mlp::mlp_op(v, l.feed->0.mlp, n),
                ) matches Ok(q) && q.1 == f
            &&& w.fits(f.value) && f.value.dims == input.value.dims ==> w.at(
                hybrid::tail_op(g, l, input, mixed)->Ok_0.1.value,
                i,
            ) == w.at(input.value, i) + w.at(mixed.value, i) + w.at(f.value, i)
        },
{
    broadcast use var::lemma_record_value;

    reveal(hybrid::tail_op);
    lemma_pair(w, Binary::Add, input.value, mixed.value, i);
    let a = ops::binary_op(g.tape, Binary::Add, input, mixed);
    let out = a->Ok_0.1;
    let g1 = World { tape: a->Ok_0.0, ..g };
    assert(out.value == tensor::binary_of(Binary::Add, input.value, mixed.value)->Ok_0);
    match l.feed {
        None => (out, None),
        Some(f) => {
            let n = norm::rms_op(g1, f.norm, out);
            assert(n is Ok);
            let q = mlp::mlp_op(n->Ok_0.0, f.mlp, n->Ok_0.1);
            assert(q is Ok);
            let fed = q->Ok_0.1;
            if w.fits(fed.value) && fed.value.dims == input.value.dims {
                lemma_pair(w, Binary::Add, out.value, fed.value, i);
            }
            assert(flow::go(n, |v: World, k: Traced| mlp::mlp_op(v, f.mlp, k)) == q);
            (out, Some(fed))
        },
    }
}

/// What a layer mixes: its mixer runs on the input, every row of it normalised, and the sum
/// of [`law_a_layer_adds_to_its_input`] is made of the input and of the mixer's result. With a
/// state the mixer runs with it, and the state it leaves is kept. Returns the normalised
/// input, the world the mixer runs in, and what it gives.
#[verifier::spinoff_prover]
pub proof fn law_a_layer_mixes_its_normalised_input(
    w: Reader,
    g: World,
    l: HybridLayer,
    input: Traced,
    c: Slot,
    single: bool,
    r: int,
) -> (made: (World, Traced))
    requires
        w.fits(input.value),
        0 < input.value.dims.len() <= usize::MAX,
        input.value.dims.last() == l.norm.dim,
        0 < l.norm.dim,
        stored_opt(w, g, l.norm.weight, seq![l.norm.dim]),
        0 <= r < heights(input.value.dims),
    ensures
        made.0.store == g.store,
        made.1.value.dims == input.value.dims,
        w.fits(made.1.value),
        row(w, made.1.value, r, l.norm.dim as int) == normed_row(
            w,
            g,
            l.norm,
            row(w, input.value, r, l.norm.dim as int),
        ),
        hybrid::layer_op(g, l, input) == flow::go(
            hybrid::mixed_op(made.0, l.mixer, made.1),
            |u: World, mixed: Traced| hybrid::tail_op(u, l, input, mixed),
        ),
        hybrid::layer_cached_op(g, l, input, c, single).0 == hybrid::mixed_cached_op(
            made.0,
            l.mixer,
            made.1,
            c,
            single,
        ).0,
        hybrid::layer_cached_op(g, l, input, c, single).1 == flow::go(
            hybrid::mixed_cached_op(made.0, l.mixer, made.1, c, single).1,
            |u: World, mixed: Traced| hybrid::tail_op(u, l, input, mixed),
        ),
{
    reveal(hybrid::layer_op);
    reveal(hybrid::layer_cached_op);
    let k = l.norm.dim as int;
    layer_laws::law_rms_layer_scales_rows(w, g, l.norm, input, r, 0);
    let (g1, n) = norm::rms_op(g, l.norm, input)->Ok_0;
    let xs = normed_row(w, g, l.norm, row(w, input.value, r, k));
    assert forall|j: int| 0 <= j < k implies row(w, n.value, r, k)[j] == xs[j] by {
        layer_laws::law_rms_layer_scales_rows(w, g, l.norm, input, r, j);
    }
    assert(row(w, n.value, r, k) =~= xs);
    (g1, n)
}

} // verus!
