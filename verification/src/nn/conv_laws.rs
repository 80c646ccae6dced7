//! What a causal convolution computes, element by element, over the real numbers.

use vstd::prelude::*;

use super::conv;
use super::conv::CausalConv1d;
use super::flow::World;
use super::param;
use crate::autograd::graph::Tape;
use crate::autograd::ops;
use crate::autograd::var;
use crate::autograd::var::Traced;
use crate::buffer;
use crate::buffer::Reader;
use crate::shape;
use crate::tensor;
use crate::tensor::Value;
use crate::term;
use crate::term::Binary;

verus! {

// -- elements of sequences -----------------------------------------------------------------

/// The element of channel `c` at position `t` of sequence `b`.
pub open spec fn cell(len: int, channels: int, b: int, t: int, c: int) -> int {
    (b * len + t) * channels + c
}

/// What a batch of sequences holds at a position; zero before the first.
pub open spec fn heard(w: Reader, x: Value, b: int, t: int, c: int) -> real {
    if t < 0 {
        0real
    } else {
        w.at(x, cell(x.dims[1] as int, x.dims[2] as int, b, t, c))
    }
}

/// Whether a position lies in a batch of sequences.
pub open spec fn within(d: Seq<usize>, b: int, t: int, c: int) -> bool {
    &&& d.len() == 3
    &&& 0 <= b < d[0]
    &&& 0 <= t < d[1]
    &&& 0 <= c < d[2]
}

proof fn lemma_cell(len: int, ch: int, b: int, t: int, c: int)
    requires
        0 <= b,
        0 <= t < len,
        0 <= c < ch,
    ensures
        ({
            let i = cell(len, ch, b, t, c);
            &&& i >= 0
            &&& i / (len * ch) == b
            &&& (i / ch) % len == t
            &&& i % ch == c
            &&& i % (len * ch) == t * ch + c
            &&& len * ch > 0
        }),
{
    let i = cell(len, ch, b, t, c);
    let q = b * len + t;
    assert(q >= 0 && q * ch >= 0 && len * ch > 0) by (nonlinear_arith)
        requires
            q == b * len + t,
            0 <= b,
            0 <= t < len,
            0 < ch,
    ;
    vstd::arithmetic::div_mod::lemma_fundamental_div_mod_converse(i, ch, q, c);
    vstd::arithmetic::div_mod::lemma_fundamental_div_mod_converse(q, len, b, t);
    let r = t * ch + c;
    assert(0 <= r < len * ch) by (nonlinear_arith)
        requires
            r == t * ch + c,
            0 <= t < len,
            0 <= c < ch,
    ;
    assert(i == b * (len * ch) + r) by (nonlinear_arith)
        requires
            i == (b * len + t) * ch + c,
            r == t * ch + c,
    ;
    vstd::arithmetic::div_mod::lemma_fundamental_div_mod_converse(i, len * ch, b, r);
}

proof fn lemma_volume(n: usize, len: usize, ch: usize)
    ensures
        shape::product(seq![n, len, ch]) == n * len * ch,
        shape::product(seq![ch]) == ch,
        shape::product(seq![1usize, ch]) == ch,
        shape::product(seq![1usize, 1usize, ch]) == ch,
        buffer::inner(seq![n, len, ch], 1) == ch,
        buffer::inner(seq![len, ch], 0) == ch,
{
    let none = Seq::<usize>::empty();
    assert(shape::product(none) == 1);
    lemma_push(none, n);
    lemma_push(seq![n], len);
    lemma_push(seq![n, len], ch);
    lemma_push(none, ch);
    lemma_push(none, 1);
    lemma_push(seq![1usize], ch);
    lemma_push(seq![1usize], 1);
    lemma_push(seq![1usize, 1usize], ch);
    assert(none.push(n) =~= seq![n]);
    assert(none.push(ch) =~= seq![ch]);
    assert(none.push(1usize) =~= seq![1usize]);
    assert(seq![n].push(len) =~= seq![n, len]);
    assert(seq![n, len].push(ch) =~= seq![n, len, ch]);
    assert(seq![1usize].push(ch) =~= seq![1usize, ch]);
    assert(seq![1usize].push(1usize) =~= seq![1usize, 1usize]);
    assert(seq![1usize, 1usize].push(ch) =~= seq![1usize, 1usize, ch]);
    assert(seq![n, len, ch].skip(2) =~= seq![ch]);
    assert(seq![len, ch].skip(1) =~= seq![ch]);
    assert(1 * ch == ch && 1 * n == n && 1 * 1 == 1);
}

proof fn lemma_push(s: Seq<usize>, n: usize)
    ensures
        shape::product(s.push(n)) == shape::product(s) * n,
        shape::product(s) == 1 ==> shape::product(s.push(n)) == n,
{
    assert(s.push(n).drop_last() =~= s);
    let p = shape::product(s);
    if p == 1 {
        assert(p * n == n) by (nonlinear_arith)
            requires
                p == 1,
        ;
    }
}

proof fn lemma_inside(n: int, len: int, ch: int, b: int, t: int, c: int)
    requires
        0 <= b < n,
        0 <= t < len,
        0 <= c < ch,
    ensures
        0 <= cell(len, ch, b, t, c) < n * len * ch,
{
    let q = b * len + t;
    assert(0 <= q < n * len) by (nonlinear_arith)
        requires
            q == b * len + t,
            0 <= b < n,
            0 <= t < len,
    ;
    assert(0 <= q * ch + c < n * len * ch) by (nonlinear_arith)
        requires
            0 <= q < n * len,
            0 <= c < ch,
    ;
}

// -- slices and joins along the positions --------------------------------------------------

#[verifier::spinoff_prover]
pub proof fn lemma_slice(w: Reader, x: Value, start: usize, len: usize, b: int, t: int, c: int)
    requires
        x.dims.len() == 3,
        w.fits(x),
        start + len <= x.dims[1],
        0 <= b,
        0 <= t < len,
        0 <= c < x.dims[2],
    ensures
        ({
            let v = tensor::slice_of(x, 1, start, len);
            &&& v is Ok
            &&& v->Ok_0.dims == seq![x.dims[0], len, x.dims[2]]
            &&& w.fits(v->Ok_0)
            &&& heard(w, v->Ok_0, b, t, c) == heard(w, x, b, start + t, c)
        }),
{
    let d = x.dims;
    let (n, ch) = (d[1] as int, d[2] as int);
    let v = tensor::slice_of(x, 1, start, len)->Ok_0;
    assert(d =~= seq![d[0], d[1], d[2]]);
    lemma_volume(d[0], d[1], d[2]);
    assert(v.dims =~= seq![d[0], len, d[2]]);
    lemma_cell(len as int, ch, b, t, c);
    let i = cell(len as int, ch, b, t, c);
    assert(w.at(v, i) == (w.of(x.term).at)(buffer::sliced(d, 1, start as int, len as int, i)));
    assert((b * n + start) * ch + (t * ch + c) == cell(n, ch, b, start + t, c)) by (nonlinear_arith);
}

#[verifier::spinoff_prover]
pub proof fn lemma_join(w: Reader, p: Value, q: Value, b: int, t: int, c: int)
    requires
        p.dims.len() == 3,
        q.dims.len() == 3,
        p.dims[0] == q.dims[0],
        p.dims[2] == q.dims[2],
        p.dims[1] + q.dims[1] <= usize::MAX,
        w.fits(p),
        w.fits(q),
        0 <= b,
        0 <= t < p.dims[1] + q.dims[1],
        0 <= c < p.dims[2],
    ensures
        ({
            let v = tensor::cat_of(seq![p, q], 1);
            &&& v is Ok
            &&& v->Ok_0.dims == seq![p.dims[0], (p.dims[1] + q.dims[1]) as usize, p.dims[2]]
            &&& w.fits(v->Ok_0)
            &&& heard(w, v->Ok_0, b, t, c) == if t < p.dims[1] {
                heard(w, p, b, t, c)
            } else {
                heard(w, q, b, t - p.dims[1], c)
            }
        }),
{
    let vs = seq![p, q];
    let (m, n, ch) = (p.dims[1], q.dims[1], p.dims[2] as int);
    let all = (m + n) as usize;
    let e = tensor::extents(vs, 1);
    assert(e =~= seq![m, n]);
    assert(e.drop_last() =~= seq![m]);
    assert(seq![m].drop_last() =~= Seq::<usize>::empty());
    reveal_with_fuel(tensor::total, 3);
    assert(tensor::total(e) == m + n);
    assert(p.dims.update(1, 0usize) =~= q.dims.update(1, 0usize));
    let v = tensor::cat_of(vs, 1)->Ok_0;
    assert(v.dims =~= seq![p.dims[0], all, p.dims[2]]);
    let terms = vs.map_values(|x: Value| x.term);
    assert(terms =~= seq![p.term, q.term]);
    buffer::lemma_all(w, terms);
    let parts = buffer::all(w, term::terms(terms));
    let (x, y) = (w.of(p.term), w.of(q.term));
    assert(parts =~= seq![x, y]);
    let rest = parts.drop_first();
    assert(rest =~= seq![y]);
    assert(rest.drop_first() =~= Seq::empty());
    reveal_with_fuel(buffer::extent, 3);
    assert(buffer::extent(parts, 1) == all);
    assert(p.dims =~= seq![p.dims[0], m, p.dims[2]]);
    lemma_volume(p.dims[0], m, p.dims[2]);
    lemma_cell(all as int, ch, b, t, c);
    let i = cell(all as int, ch, b, t, c);
    assert(w.of(v.term).dims =~= v.dims);
    assert(w.at(v, i) == buffer::joined(parts, 1, b, t, c, ch));
    reveal_with_fuel(buffer::joined, 3);
}

// -- delays --------------------------------------------------------------------------------

#[verifier::spinoff_prover]
proof fn lemma_delay(w: Reader, tp: Tape, x: Traced, n: usize, b: int, t: int, c: int)
    requires
        within(x.value.dims, b, t, c),
        w.fits(x.value),
    ensures
        ({
            let r = conv::shift_by_op(tp, x, 1, n);
            &&& r is Ok
            &&& r->Ok_0.1.value.dims == x.value.dims
            &&& w.fits(r->Ok_0.1.value)
            &&& heard(w, r->Ok_0.1.value, b, t, c) == heard(w, x.value, b, t - n, c)
        }),
{
    broadcast use var::lemma_record_value;

    let d = x.value.dims;
    let len = d[1];
    assert(d =~= seq![d[0], d[1], d[2]]);
    term::law_dims_entries(d);
    if 0 < n < len {
        let keep = (len - n) as usize;
        let pad = conv::padding(d, 1, n);
        term::law_dims_entries(d.update(1, n));
        assert(pad.dims =~= seq![d[0], n, d[2]]);
        assert(w.of(pad.term).dims == pad.dims);
        lemma_slice(w, x.value, 0, keep, b, 0, c);
        if t >= n {
            lemma_slice(w, x.value, 0, keep, b, t - n, c);
        }
        let head = tensor::slice_of(x.value, 1, 0, keep)->Ok_0;
        lemma_join(w, pad, head, b, t, c);
        let r = ops::slice_op(tp, x, 1, 0, keep)->Ok_0;
        assert(r.1.value == head);
        let parts = seq![ops::untracked(pad), r.1];
        assert(ops::plain_values(parts) =~= seq![pad, head]);
        assert(seq![d[0], (n + keep) as usize, d[2]] =~= d);
    }
}

// -- taps ----------------------------------------------------------------------------------

/// The weight that position `t - delay` has in what is computed for position `t`.
pub open spec fn tap(w: Reader, weight: Value, kernel: usize, delay: int, channels: usize, c: int) -> real {
    w.at(weight, (kernel - 1 - delay) * channels + c)
}

#[verifier::spinoff_prover]
proof fn lemma_spread(i: int, d: Seq<usize>, b: int, t: int, c: int)
    requires
        within(d, b, t, c),
        i == cell(d[1] as int, d[2] as int, b, t, c),
    ensures
        shape::broadcast(d, seq![1usize, 1usize, d[2]]) == Ok::<
            Seq<usize>,
            crate::error::Fault,
        >(d),
        shape::place(i, d, seq![1usize, 1usize, d[2]]) == c,
        shape::place(i, d, d) == i,
{
    let (n, len, ch) = (d[0], d[1], d[2]);
    let one = seq![1usize, 1usize, ch];
    assert(d =~= seq![n, len, ch]);
    assert(shape::left_padded(d, 3) =~= d);
    assert(shape::left_padded(one, 3) =~= one);
    assert(shape::broadcast_dims(d, one) =~= d);
    assert(shape::compatible(d, one));
    lemma_volume(n, len, ch);
    lemma_inside(n as int, len as int, ch as int, b, t, c);
    shape::lemma_place_same(i, d);
    lemma_cell(len as int, ch as int, b, t, c);
    assert(d.drop_last() =~= seq![n, len]);
    assert(one.drop_last() =~= seq![1usize, 1usize]);
    assert(seq![n, len].drop_last() =~= seq![n]);
    assert(seq![1usize, 1usize].drop_last() =~= seq![1usize]);
    assert(seq![n].drop_last() =~= Seq::<usize>::empty());
    let q = i / ch as int;
    assert(shape::place((q / len as int) / n as int, Seq::empty(), seq![1usize].drop_last()) == 0);
    assert(shape::place(q / len as int, seq![n], seq![1usize]) == 0);
    assert(shape::place(q, seq![n, len], seq![1usize, 1usize]) == 0);
    assert(0 * (ch as int) == 0);
}

#[verifier::spinoff_prover]
proof fn lemma_tap(
    w: Reader,
    tp: Tape,
    k: CausalConv1d,
    weight: Traced,
    x: Traced,
    delay: usize,
    b: int,
    t: int,
    c: int,
)
    requires
        within(x.value.dims, b, t, c),
        x.value.dims[2] == k.channels,
        w.fits(x.value),
        weight.value.dims == seq![k.kernel_size, k.channels],
        w.fits(weight.value),
        delay < k.kernel_size,
    ensures
        ({
            let r = conv::tap_op(tp, k, weight, x, delay);
            &&& r is Ok
            &&& r->Ok_0.1.value.dims == x.value.dims
            &&& w.fits(r->Ok_0.1.value)
            &&& heard(w, r->Ok_0.1.value, b, t, c) == heard(w, x.value, b, t - delay, c) * tap(
                w,
                weight.value,
                k.kernel_size,
                delay as int,
                k.channels,
                c,
            )
        }),
{
    broadcast use var::lemma_record_value;

    let (d, ch) = (x.value.dims, k.channels);
    let start = (k.kernel_size - 1 - delay) as usize;
    lemma_volume(d[0], k.kernel_size, ch);
    let r1 = ops::slice_op(tp, weight, 0, start, 1);
    assert(r1 is Ok);
    let piece = r1->Ok_0.1.value;
    assert(piece.dims =~= seq![1usize, ch]);
    assert(w.at(piece, c) == w.at(weight.value, start * ch + c)) by {
        if piece != weight.value {
            assert(c / (1 * ch as int) == 0 && c % (1 * ch as int) == c) by {
                vstd::arithmetic::div_mod::lemma_fundamental_div_mod_converse(c, ch as int, 0, c);
            }
            assert(buffer::sliced(weight.value.dims, 0, start as int, 1, c) == (0
                * k.kernel_size + start) * ch + c);
        }
    }
    let flat = seq![1usize, 1usize, ch];
    term::law_dims_entries(flat);
    let r2 = ops::reshape_op(r1->Ok_0.0, r1->Ok_0.1, flat);
    assert(r2 is Ok);
    let one = r2->Ok_0.1.value;
    assert(one == tensor::reshape_of(piece, flat)->Ok_0);
    assert(w.of(one.term).dims == flat && w.at(one, c) == w.at(piece, c));
    lemma_delay(w, r2->Ok_0.0, x, delay, b, t, c);
    let r3 = conv::shift_by_op(r2->Ok_0.0, x, 1, delay);
    let late = r3->Ok_0.1;
    let i = cell(d[1] as int, d[2] as int, b, t, c);
    lemma_spread(i, d, b, t, c);
    let r4 = ops::binary_op(r3->Ok_0.0, Binary::Mul, late, r2->Ok_0.1);
    assert(r4 is Ok);
    let v = r4->Ok_0.1.value;
    assert(v == tensor::binary_of(Binary::Mul, late.value, one)->Ok_0);
    assert(w.of(v.term).dims == d);
    assert(w.at(v, i) == w.at(late.value, i) * w.at(one, c));
    assert(conv::tap_op(tp, k, weight, x, delay) == r4);
}

/// The sum over the first `k` taps of what lay that far back, times the tap.
pub open spec fn sum_of_taps(w: Reader, weight: Value, x: Value, kernel: usize, b: int, t: int, c: int, k: nat) -> real
    decreases k,
{
    if k <= 1 {
        heard(w, x, b, t, c) * tap(w, weight, kernel, 0, x.dims[2], c)
    } else {
        sum_of_taps(w, weight, x, kernel, b, t, c, (k - 1) as nat) + heard(w, x, b, t - (k - 1), c)
            * tap(w, weight, kernel, k - 1, x.dims[2], c)
    }
}

#[verifier::spinoff_prover]
proof fn lemma_taps(
    w: Reader,
    tp: Tape,
    k: CausalConv1d,
    weight: Traced,
    x: Traced,
    n: nat,
    b: int,
    t: int,
    c: int,
)
    requires
        within(x.value.dims, b, t, c),
        x.value.dims[2] == k.channels,
        w.fits(x.value),
        weight.value.dims == seq![k.kernel_size, k.channels],
        w.fits(weight.value),
        1 <= n <= k.kernel_size,
    ensures
        ({
            let r = conv::taps_op(tp, k, weight, x, n);
            &&& r is Ok
            &&& r->Ok_0.1.value.dims == x.value.dims
            &&& w.fits(r->Ok_0.1.value)
            &&& heard(w, r->Ok_0.1.value, b, t, c) == sum_of_taps(
                w,
                weight.value,
                x.value,
                k.kernel_size,
                b,
                t,
                c,
                n,
            )
        }),
    decreases n,
{
    broadcast use var::lemma_record_value;

    let d = x.value.dims;
    if n == 1 {
        lemma_tap(w, tp, k, weight, x, 0, b, t, c);
    } else {
        lemma_taps(w, tp, k, weight, x, (n - 1) as nat, b, t, c);
        let (t1, acc) = conv::taps_op(tp, k, weight, x, (n - 1) as nat)->Ok_0;
        lemma_tap(w, t1, k, weight, x, (n - 1) as usize, b, t, c);
        let (t2, last) = conv::tap_op(t1, k, weight, x, (n - 1) as usize)->Ok_0;
        let i = cell(d[1] as int, d[2] as int, b, t, c);
        lemma_spread(i, d, b, t, c);
        shape::law_broadcast_idempotent(d);
        let v = tensor::binary_of(Binary::Add, acc.value, last.value)->Ok_0;
        assert(w.of(v.term).dims == d);
        assert(w.at(v, i) == w.at(acc.value, i) + w.at(last.value, i));
        let r = ops::binary_op(t2, Binary::Add, acc, last);
        assert(r is Ok && r->Ok_0.1.value == v);
        assert(conv::taps_op(tp, k, weight, x, n) == r);
    }
}

// -- the convolution -----------------------------------------------------------------------

/// Whether the store holds a convolution's weights, in the shapes it was made with.
pub open spec fn holds_weights(w: Reader, g: World, k: CausalConv1d) -> bool {
    &&& k.kernel_size > 0
    &&& g.store.weights.contains_key(k.weight.key())
    &&& g.store.weights[k.weight.key()].value.dims == seq![k.kernel_size, k.channels]
    &&& w.fits(g.store.weights[k.weight.key()].value)
    &&& k.bias matches Some(p) ==> g.store.weights.contains_key(p.key())
        && g.store.weights[p.key()].value.dims == seq![k.channels]
}

/// What is added for a channel.
pub open spec fn bias_at(w: Reader, g: World, k: CausalConv1d, c: int) -> real {
    match k.bias {
        Some(p) => w.at(g.store.weights[p.key()].value, c),
        None => 0real,
    }
}

proof fn lemma_var(g: World, id: u64, anchor: Traced)
    requires
        g.store.weights.contains_key(id),
    ensures
        param::var_op(g, id, anchor) matches Ok(r) && r.0.store == g.store && r.1.value
            == g.store.weights[id].value,
{
}

/// A causal convolution computes, for every position and channel, the sum over its taps of
/// what lay that far back, with zeros before the first position, plus the channel's bias.
#[verifier::spinoff_prover]
pub proof fn law_convolution_sums_its_taps(
    w: Reader,
    g: World,
    k: CausalConv1d,
    x: Traced,
    b: int,
    t: int,
    c: int,
)
    requires
        holds_weights(w, g, k),
        within(x.value.dims, b, t, c),
        x.value.dims[2] == k.channels,
        w.fits(x.value),
    ensures
        ({
            let r = conv::conv_op(g, k, x);
            &&& r is Ok
            &&& r->Ok_0.0.store == g.store
            &&& r->Ok_0.1.value.dims == x.value.dims
            &&& w.fits(r->Ok_0.1.value)
            &&& heard(w, r->Ok_0.1.value, b, t, c) == sum_of_taps(
                w,
                g.store.weights[k.weight.key()].value,
                x.value,
                k.kernel_size,
                b,
                t,
                c,
                k.kernel_size as nat,
            ) + bias_at(w, g, k, c)
        }),
{
    broadcast use var::lemma_record_value;

    let d = x.value.dims;
    lemma_var(g, k.weight.key(), x);
    let (g1, weight) = param::var_op(g, k.weight.key(), x)->Ok_0;
    lemma_taps(w, g1.tape, k, weight, x, k.kernel_size as nat, b, t, c);
    let (t2, sum) = conv::taps_op(g1.tape, k, weight, x, k.kernel_size as nat)->Ok_0;
    let g2 = World { tape: t2, ..g1 };
    assert(conv::conv_op(g, k, x) == conv::channel_bias_op(g2, k, sum, x));
    if k.bias is Some {
        let id = k.bias->Some_0.key();
        lemma_var(g2, id, x);
        let (g3, v) = param::var_op(g2, id, x)->Ok_0;
        let flat = seq![1usize, 1usize, k.channels];
        lemma_volume(d[0], d[1], k.channels);
        term::law_dims_entries(flat);
        let r = ops::reshape_op(g3.tape, v, flat);
        assert(r is Ok);
        let lifted = r->Ok_0.1;
        assert(lifted.value == tensor::reshape_of(v.value, flat)->Ok_0);
        assert(w.of(lifted.value.term).dims == flat && w.at(lifted.value, c) == w.at(v.value, c));
        let i = cell(d[1] as int, d[2] as int, b, t, c);
        lemma_spread(i, d, b, t, c);
        let z = tensor::binary_of(Binary::Add, sum.value, lifted.value)->Ok_0;
        assert(w.of(z.term).dims == d);
        assert(w.at(z, i) == w.at(sum.value, i) + w.at(lifted.value, c));
        let q = ops::binary_op(r->Ok_0.0, Binary::Add, sum, lifted);
        assert(q is Ok && q->Ok_0.1.value == z);
    }
}

} // verus!
