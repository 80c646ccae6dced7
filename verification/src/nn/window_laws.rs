//! Convolving a window that continues an earlier one, over the real numbers.

use vstd::prelude::*;

use super::conv;
use super::conv::CausalConv1d;
use super::conv_laws;
use super::conv_laws::{bias_at, heard, holds_weights, sum_of_taps, tap, within};
use super::flow;
use super::flow::World;
use crate::autograd::graph::Tape;
use crate::autograd::ops;
use crate::autograd::var;
use crate::autograd::var::Traced;
use crate::buffer::Reader;
use crate::shape;
use crate::tensor;
use crate::tensor::Value;
use crate::term;
use crate::term::Scalar;

verus! {

/// What lies at position `t` after a history: the history itself before the window, and the
/// window from position zero on.
pub open spec fn continued(w: Reader, history: Value, x: Value, b: int, t: int, c: int) -> real {
    if t < 0 {
        heard(w, history, b, t + history.dims[1], c)
    } else {
        heard(w, x, b, t, c)
    }
}

/// The sum over the taps of what lay that far back, in the window or in the history.
pub open spec fn continued_taps(w: Reader, weight: Value, history: Value, x: Value, kernel: usize, b: int, t: int, c: int, k: nat) -> real
    decreases k,
{
    if k <= 1 {
        continued(w, history, x, b, t, c) * tap(w, weight, kernel, 0, x.dims[2], c)
    } else {
        continued_taps(w, weight, history, x, kernel, b, t, c, (k - 1) as nat) + continued(
            w,
            history,
            x,
            b,
            t - (k - 1),
            c,
        ) * tap(w, weight, kernel, k - 1, x.dims[2], c)
    }
}

/// A history and a window that fit each other and a convolution.
pub open spec fn follows(w: Reader, k: CausalConv1d, history: Value, x: Value) -> bool {
    &&& history.dims.len() == 3
    &&& x.dims.len() == 3
    &&& history.dims == seq![x.dims[0], (k.kernel_size - 1) as usize, x.dims[2]]
    &&& x.dims[2] == k.channels
    &&& k.kernel_size > 0
    &&& x.dims[1] + k.kernel_size <= usize::MAX
    &&& w.fits(history)
    &&& w.fits(x)
}

#[verifier::spinoff_prover]
proof fn lemma_window_taps(
    w: Reader,
    k: CausalConv1d,
    weight: Value,
    history: Value,
    x: Value,
    b: int,
    t: int,
    c: int,
    n: nat,
)
    requires
        follows(w, k, history, x),
        within(x.dims, b, t, c),
        1 <= n <= k.kernel_size,
    ensures
        sum_of_taps(
            w,
            weight,
            tensor::cat_of(seq![history, x], 1)->Ok_0,
            k.kernel_size,
            b,
            k.kernel_size - 1 + t,
            c,
            n,
        ) == continued_taps(w, weight, history, x, k.kernel_size, b, t, c, n),
    decreases n,
{
    let v = tensor::cat_of(seq![history, x], 1)->Ok_0;
    let m = k.kernel_size - 1;
    let s = m + t - (n - 1);
    conv_laws::lemma_join(w, history, x, b, s, c);
    if n > 1 {
        lemma_window_taps(w, k, weight, history, x, b, t, c, (n - 1) as nat);
    }
}

/// What a convolution that continues a history gives, in terms of the two joined.
#[verifier::opaque]
pub open spec fn continues_as(w: Reader, g: World, k: CausalConv1d, x: Traced, history: Traced, b: int, t: int, c: int) -> bool {
    let v = tensor::cat_of(seq![history.value, x.value], 1)->Ok_0;
    let r = conv::windowed_op(g, k, x, history);
    &&& r is Ok
    &&& r->Ok_0.1.value.dims == x.value.dims
    &&& heard(w, r->Ok_0.1.value, b, t, c) == sum_of_taps(
        w,
        g.store.weights[k.weight.key()].value,
        v,
        k.kernel_size,
        b,
        k.kernel_size - 1 + t,
        c,
        k.kernel_size as nat,
    ) + bias_at(w, g, k, c)
    &&& r->Ok_0.2.value.dims == history.value.dims
    &&& t < k.kernel_size - 1 ==> heard(w, r->Ok_0.2.value, b, t, c) == heard(
        w,
        v,
        b,
        x.value.dims[1] + t,
        c,
    )
}

/// The steps of a convolution that continues a history.
#[verifier::spinoff_prover]
proof fn lemma_windowed(w: Reader, g: World, k: CausalConv1d, x: Traced, history: Traced, b: int, t: int, c: int)
    requires
        holds_weights(w, g, k),
        follows(w, k, history.value, x.value),
        within(x.value.dims, b, t, c),
    ensures
        continues_as(w, g, k, x, history, b, t, c),
{
    broadcast use var::lemma_record_value;

    reveal(continues_as);
    let (xv, hv) = (x.value, history.value);
    let (n, m) = (xv.dims[1], conv::reach(k.kernel_size));
    conv_laws::lemma_join(w, hv, xv, b, m + t, c);
    let parts = seq![history, x];
    assert(ops::plain_values(parts) =~= seq![hv, xv]);
    let v = tensor::cat_of(seq![hv, xv], 1)->Ok_0;
    let (t1, joint) = ops::cat_op(g.tape, parts, 1)->Ok_0;
    assert(joint.value == v);
    let g1 = World { tape: t1, ..g };
    conv_laws::law_convolution_sums_its_taps(w, g1, k, joint, b, m + t, c);
    let (g2, full) = conv::conv_op(g1, k, joint)->Ok_0;
    assert(full.value.dims == v.dims);
    conv_laws::lemma_slice(w, full.value, m, n, b, t, c);
    let out = ops::slice_op(g2.tape, full, 1, m, n);
    assert(out is Ok);
    assert(out->Ok_0.1.value.dims =~= xv.dims);
    let all = (m + n) as usize;
    assert(conv::left(all, m) == n);
    let next = ops::slice_op(out->Ok_0.0, joint, 1, n, m);
    assert(next is Ok);
    assert(next->Ok_0.1.value.dims =~= hv.dims);
    if t < m {
        conv_laws::lemma_slice(w, v, n, m, b, t, c);
    }
}

/// A convolution that continues a history computes, for every position and channel, the sum
/// over its taps of what lay that far back, in the window or in the history before it, plus
/// the channel's bias; the history it hands on is the end of the old history and the window.
#[verifier::spinoff_prover]
pub proof fn law_a_window_continues_its_history(
    w: Reader,
    g: World,
    k: CausalConv1d,
    x: Traced,
    history: Traced,
    b: int,
    t: int,
    c: int,
) -> (r: (World, Traced, Traced))
    requires
        holds_weights(w, g, k),
        follows(w, k, history.value, x.value),
        within(x.value.dims, b, t, c),
    ensures
        conv::windowed_op(g, k, x, history) == Ok::<(World, Traced, Traced), crate::error::Fault>(r),
        r.1.value.dims == x.value.dims,
        heard(w, r.1.value, b, t, c) == continued_taps(
            w,
            g.store.weights[k.weight.key()].value,
            history.value,
            x.value,
            k.kernel_size,
            b,
            t,
            c,
            k.kernel_size as nat,
        ) + bias_at(w, g, k, c),
        r.2.value.dims == history.value.dims,
        t < k.kernel_size - 1 ==> heard(w, r.2.value, b, t, c) == continued(
            w,
            history.value,
            x.value,
            b,
            x.value.dims[1] - (k.kernel_size - 1) + t,
            c,
        ),
{
    lemma_windowed(w, g, k, x, history, b, t, c);
    let r = lemma_continued(w, g, k, x, history, b, t, c);
    lemma_window_taps(
        w,
        k,
        g.store.weights[k.weight.key()].value,
        history.value,
        x.value,
        b,
        t,
        c,
        k.kernel_size as nat,
    );
    if t < k.kernel_size - 1 {
        conv_laws::lemma_join(w, history.value, x.value, b, x.value.dims[1] + t, c);
    }
    r
}

#[verifier::spinoff_prover]
proof fn lemma_continued(w: Reader, g: World, k: CausalConv1d, x: Traced, history: Traced, b: int, t: int, c: int) -> (r: (World, Traced, Traced))
    requires
        continues_as(w, g, k, x, history, b, t, c),
    ensures
        conv::windowed_op(g, k, x, history) == Ok::<(World, Traced, Traced), crate::error::Fault>(r),
        r.1.value.dims == x.value.dims,
        heard(w, r.1.value, b, t, c) == sum_of_taps(
            w,
            g.store.weights[k.weight.key()].value,
            tensor::cat_of(seq![history.value, x.value], 1)->Ok_0,
            k.kernel_size,
            b,
            k.kernel_size - 1 + t,
            c,
            k.kernel_size as nat,
        ) + bias_at(w, g, k, c),
        r.2.value.dims == history.value.dims,
        t < k.kernel_size - 1 ==> heard(w, r.2.value, b, t, c) == heard(
            w,
            tensor::cat_of(seq![history.value, x.value], 1)->Ok_0,
            b,
            x.value.dims[1] + t,
            c,
        ),
{
    reveal(continues_as);
    conv::windowed_op(g, k, x, history)->Ok_0
}

proof fn lemma_empty_taps(
    w: Reader,
    weight: Value,
    history: Value,
    x: Value,
    kernel: usize,
    b: int,
    t: int,
    c: int,
    k: nat,
)
    requires
        history.dims.len() == 3,
        history.dims[1] == kernel - 1,
        forall|i: int| #[trigger] w.at(history, i) == 0real,
        0 <= t,
        1 <= k <= kernel,
    ensures
        continued_taps(w, weight, history, x, kernel, b, t, c, k) == sum_of_taps(
            w,
            weight,
            x,
            kernel,
            b,
            t,
            c,
            k,
        ),
    decreases k,
{
    if k > 1 {
        lemma_empty_taps(w, weight, history, x, kernel, b, t, c, (k - 1) as nat);
    }
}

/// With an empty history, a convolution that continues one gives what the convolution of the
/// window alone gives.
#[verifier::spinoff_prover]
pub proof fn law_an_empty_history_is_none(
    w: Reader,
    g: World,
    h: World,
    k: CausalConv1d,
    x: Traced,
    b: int,
    t: int,
    c: int,
)
    requires
        holds_weights(w, g, k),
        h.store == g.store,
        x.value.dims.len() == 3,
        w.fits(x.value),
        follows(w, k, conv::empty_of(k, x.value.dims[0]).value, x.value),
        within(x.value.dims, b, t, c),
    ensures
        ({
            let r = conv::windowed_op(g, k, x, conv::empty_of(k, x.value.dims[0]));
            let all = conv::conv_op(h, k, x);
            &&& r is Ok
            &&& all is Ok
            &&& heard(w, r->Ok_0.1.value, b, t, c) == heard(w, all->Ok_0.1.value, b, t, c)
        }),
{
    let history = conv::empty_of(k, x.value.dims[0]);
    let r = law_a_window_continues_its_history(w, g, k, x, history, b, t, c);
    conv_laws::law_convolution_sums_its_taps(w, h, k, x, b, t, c);
    term::law_dims_entries(history.value.dims);
    assert forall|i: int| #[trigger] w.at(history.value, i) == 0real by {
    }
    lemma_empty_taps(
        w,
        g.store.weights[k.weight.key()].value,
        history.value,
        x.value,
        k.kernel_size,
        b,
        t,
        c,
        k.kernel_size as nat,
    );
}

} // verus!
