//! What holds of mode switches, freezing and adapter merging as a whole.

use std::sync::Arc;

use vstd::prelude::*;

use super::module;
use super::module::{Adapter, Part, Switch};
use super::param::Param;
use super::store::{Drops, Gauged, Held, Stored};
use crate::error::Fault;
use crate::buffer;
use crate::buffer::Reader;
use crate::distributions::rows;
use crate::tensor;
use crate::tensor::Value;
use crate::term::{Binary, Product, Scalar, Term, Unary};

verus! {

/// Whether one of the first `k` parts is a given switch.
pub open spec fn switches(parts: Seq<Part>, w: Switch, k: nat) -> bool {
    exists|i: int| 0 <= i < k && (#[trigger] parts[i]) == Part::Switch(w)
}

/// A mode change reaches every dropout layer and quantizer of a list, touches no other,
/// and leaves weights, counters and observed ranges alone.
pub proof fn law_mode_reaches_every_part(st: Stored, parts: Seq<Part>, training: bool, k: nat)
    requires
        k <= parts.len(),
    ensures
        module::mode_set(st, parts, training, k).weights == st.weights,
        module::mode_set(st, parts, training, k).drops.dom() == st.drops.dom(),
        module::mode_set(st, parts, training, k).gauges.dom() == st.gauges.dom(),
        forall|id: u64| #[trigger]
            st.drops.contains_key(id) ==> module::mode_set(st, parts, training, k).drops[id] == (
            if switches(parts, Switch::Dropout(id), k) {
                Drops { training, ..st.drops[id] }
            } else {
                st.drops[id]
            }),
        forall|id: u64| #[trigger]
            st.gauges.contains_key(id) ==> module::mode_set(st, parts, training, k).gauges[id] == (
            if switches(parts, Switch::Quantizer(id), k) {
                Gauged { training, ..st.gauges[id] }
            } else {
                st.gauges[id]
            }),
    decreases k,
{
    if k > 0 {
        let j = (k - 1) as nat;
        law_mode_reaches_every_part(st, parts, training, j);
        let before = module::mode_set(st, parts, training, j);
        let now = module::mode_set(st, parts, training, k);
        assert forall|w: Switch| switches(parts, w, k) == (switches(parts, w, j) || parts[j as int]
            == Part::Switch(w)) by {
            if switches(parts, w, k) {
                let i = choose|i: int| 0 <= i < k && (#[trigger] parts[i]) == Part::Switch(w);
                if i < j {
                    assert(parts[i] == Part::Switch(w));
                }
            }
            if switches(parts, w, j) {
                let i = choose|i: int| 0 <= i < j && (#[trigger] parts[i]) == Part::Switch(w);
                assert(parts[i] == Part::Switch(w));
            }
        }
        assert(now.drops.dom() =~= st.drops.dom());
        assert(now.gauges.dom() =~= st.gauges.dom());
        assert forall|id: u64| #[trigger] st.drops.contains_key(id) implies now.drops[id] == (
        if switches(parts, Switch::Dropout(id), k) {
            Drops { training, ..st.drops[id] }
        } else {
            st.drops[id]
        }) by {
            assert(before.drops.contains_key(id));
        }
        assert forall|id: u64| #[trigger] st.gauges.contains_key(id) implies now.gauges[id] == (
        if switches(parts, Switch::Quantizer(id), k) {
            Gauged { training, ..st.gauges[id] }
        } else {
            st.gauges[id]
        }) by {
            assert(before.gauges.contains_key(id));
        }
    }
}

/// The last mode set is the mode.
pub proof fn law_last_mode_wins(st: Stored, parts: Seq<Part>, first: bool, second: bool)
    ensures
        module::mode_set(
            module::mode_set(st, parts, first, parts.len()),
            parts,
            second,
            parts.len(),
        ) == module::mode_set(st, parts, second, parts.len()),
{
    let n = parts.len();
    let once = module::mode_set(st, parts, first, n);
    let twice = module::mode_set(once, parts, second, n);
    let want = module::mode_set(st, parts, second, n);
    law_mode_reaches_every_part(st, parts, first, n);
    law_mode_reaches_every_part(once, parts, second, n);
    law_mode_reaches_every_part(st, parts, second, n);
    lemma_counter_stays(st, parts, first, n);
    lemma_counter_stays(once, parts, second, n);
    lemma_counter_stays(st, parts, second, n);
    assert(twice.drops =~= want.drops) by {
        assert forall|id: u64| #[trigger] twice.drops.contains_key(id) implies twice.drops[id]
            == want.drops[id] by {
            assert(st.drops.contains_key(id));
            assert(once.drops.contains_key(id));
        }
    }
    assert(twice.gauges =~= want.gauges) by {
        assert forall|id: u64| #[trigger] twice.gauges.contains_key(id) implies twice.gauges[id]
            == want.gauges[id] by {
            assert(st.gauges.contains_key(id));
            assert(once.gauges.contains_key(id));
        }
    }
}

proof fn lemma_counter_stays(st: Stored, parts: Seq<Part>, training: bool, k: nat)
    ensures
        module::mode_set(st, parts, training, k).next == st.next,
    decreases k,
{
    if k > 0 {
        lemma_counter_stays(st, parts, training, (k - 1) as nat);
    }
}

/// Whether one of the first `k` parameters has a path that a list of patterns chooses.
pub open spec fn reached(
    ps: Seq<(Seq<char>, Param)>,
    patterns: Seq<Seq<char>>,
    id: u64,
    k: nat,
) -> bool {
    exists|i: int|
        0 <= i < k && (#[trigger] ps[i]).1.key() == id && module::chosen(ps[i].0, patterns)
}

/// Freezing or unfreezing by pattern sets the flag of exactly the parameters that a
/// pattern chooses, and changes no value.
pub proof fn law_patterns_choose_flags(
    st: Stored,
    ps: Seq<(Seq<char>, Param)>,
    patterns: Seq<Seq<char>>,
    flag: bool,
    k: nat,
)
    requires
        k <= ps.len(),
    ensures
        module::flagged(st, ps, patterns, flag, k).weights.dom() == st.weights.dom(),
        forall|id: u64| #[trigger]
            st.weights.contains_key(id) ==> module::flagged(
                st,
                ps,
                patterns,
                flag,
                k,
            ).weights[id] == (Held {
                value: st.weights[id].value,
                trainable: if reached(ps, patterns, id, k) {
                    flag
                } else {
                    st.weights[id].trainable
                },
            }),
    decreases k,
{
    if k > 0 {
        let j = (k - 1) as nat;
        law_patterns_choose_flags(st, ps, patterns, flag, j);
        let before = module::flagged(st, ps, patterns, flag, j);
        let now = module::flagged(st, ps, patterns, flag, k);
        assert forall|id: u64| reached(ps, patterns, id, k) == (reached(ps, patterns, id, j) || (
        ps[j as int].1.key() == id && module::chosen(ps[j as int].0, patterns))) by {
            if reached(ps, patterns, id, k) {
                let i = choose|i: int|
                    0 <= i < k && (#[trigger] ps[i]).1.key() == id && module::chosen(
                        ps[i].0,
                        patterns,
                    );
                if i < j {
                    assert(ps[i].1.key() == id);
                }
            }
            if reached(ps, patterns, id, j) {
                let i = choose|i: int|
                    0 <= i < j && (#[trigger] ps[i]).1.key() == id && module::chosen(
                        ps[i].0,
                        patterns,
                    );
                assert(ps[i].1.key() == id);
            }
        }
        assert(now.weights.dom() =~= st.weights.dom());
        assert forall|id: u64| #[trigger] st.weights.contains_key(id) implies now.weights[id] == (
        Held {
            value: st.weights[id].value,
            trainable: if reached(ps, patterns, id, k) {
                flag
            } else {
                st.weights[id].trainable
            },
        }) by {
            assert(before.weights.contains_key(id));
        }
    } else {
        assert forall|id: u64| !reached(ps, patterns, id, 0) by {}
    }
}

/// An empty list of patterns reaches every parameter.
pub proof fn law_no_pattern_is_every_pattern(ps: Seq<(Seq<char>, Param)>, i: int)
    requires
        0 <= i < ps.len(),
    ensures
        reached(ps, Seq::empty(), ps[i].1.key(), ps.len()),
{
    assert(module::chosen(ps[i].0, Seq::empty()));
    assert(ps[i].1.key() == ps[i].1.key());
}

/// Whether the three weights of an adapter are different weights.
pub open spec fn apart(m: Adapter) -> bool {
    m.base.key() != m.a.key() && m.base.key() != m.b.key() && m.a.key() != m.b.key()
}

/// Merging leaves an adapter whose up projection is zero, and every other weight as it
/// was.
pub proof fn law_merged_adapter_is_zero(st: Stored, m: Adapter, id: u64)
    requires
        apart(m),
        module::merged(st, m) is Ok,
        st.weights.contains_key(id),
    ensures
        ({
            let after = module::merged(st, m)->Ok_0;
            &&& after.weights.contains_key(id)
            &&& after.weights[id].trainable == st.weights[id].trainable
            &&& after.weights[id].value == (if id == m.b.key() {
                tensor::fill_of(Scalar::Int(0), st.weights[id].value.dims)
            } else if id == m.base.key() {
                module::merged_weight(st, m)->Ok_0
            } else {
                st.weights[id].value
            })
        }),
{
}

/// A product has the shape that its operands give it.
proof fn lemma_product_fits(w: Reader, a: Value, b: Value)
    requires
        w.fits(a),
        w.fits(b),
        tensor::product_of(Product::Plain, a, b) is Ok,
    ensures
        w.fits(tensor::product_of(Product::Plain, a, b)->Ok_0),
{
    let p = tensor::product_of(Product::Plain, a, b)->Ok_0;
    assert(w.of(p.term).dims =~= p.dims);
}

proof fn lemma_sum_of_nothing(s: Seq<real>, n: nat)
    requires
        n <= s.len(),
        forall|i: int| 0 <= i < s.len() ==> #[trigger] s[i] == 0real,
    ensures
        rows::sum(s, n) == 0real,
    decreases n,
{
    if n > 0 {
        lemma_sum_of_nothing(s, (n - 1) as nat);
        assert(s[n - 1] == 0real);
    }
}

/// A product with zeros is zero.
proof fn lemma_product_with_zeros(w: Reader, a: Value, dims: Seq<usize>, i: int)
    requires
        tensor::product_of(Product::Plain, a, tensor::fill_of(Scalar::Int(0), dims)) is Ok,
    ensures
        w.at(
            tensor::product_of(Product::Plain, a, tensor::fill_of(Scalar::Int(0), dims))->Ok_0,
            i,
        ) == 0real,
{
    let zeros = tensor::fill_of(Scalar::Int(0), dims);
    let p = tensor::product_of(Product::Plain, a, zeros)->Ok_0;
    let (x, y) = (w.of(a.term), w.of(zeros.term));
    crate::term::law_dims_entries(dims);
    assert forall|k: int| (#[trigger] (y.at)(k)) == 0real by {}
    assert(w.of(p.term) == buffer::multiplied(Product::Plain, x, y));
    let (xd, yd) = (x.dims, y.dims);
    let batch = crate::shape::broadcast_dims(xd.take(xd.len() - 2), yd.take(yd.len() - 2));
    let (n, k) = (xd[xd.len() - 2], yd.last());
    let (bb, r, c) = (i / (n * k), (i / k as int) % (n as int), i % (k as int));
    let (xr, xc) = (xd[xd.len() - 2] as int, xd.last() as int);
    let (yr, yc) = (yd[yd.len() - 2] as int, yd.last() as int);
    let xb = crate::shape::place(bb, batch, xd.take(xd.len() - 2)) * xr;
    let yb = crate::shape::place(bb, batch, yd.take(yd.len() - 2)) * yr;
    let parts = Seq::new(
        xc as nat,
        |j: int| (x.at)((xb + r) * xc + j) * (y.at)((yb + j) * yc + c),
    );
    assert forall|j: int| 0 <= j < parts.len() implies #[trigger] parts[j] == 0real by {
        let q = (x.at)((xb + r) * xc + j);
        assert((y.at)((yb + j) * yc + c) == 0real);
        assert(q * 0real == 0real) by (nonlinear_arith);
    }
    lemma_sum_of_nothing(parts, parts.len());
    assert(buffer::entry(Product::Plain, x, y, batch, bb, r, c) == rows::sum(parts, parts.len()));
}

/// Merging is idempotent: merging again succeeds and gives a base weight of the same shape
/// that holds the same numbers.
pub proof fn law_merging_twice_is_merging_once(st: Stored, m: Adapter, w: Reader, i: int)
    requires
        apart(m),
        module::merged(st, m) is Ok,
        w.fits(st.weights[m.base.key()].value),
        w.fits(st.weights[m.a.key()].value),
        w.fits(st.weights[m.b.key()].value),
        0 <= i < crate::shape::product(
            module::merged(st, m)->Ok_0.weights[m.base.key()].value.dims,
        ),
    ensures
        ({
            let once = module::merged(st, m)->Ok_0;
            let twice = module::merged(once, m);
            &&& twice is Ok
            &&& twice->Ok_0.weights[m.base.key()].value.dims
                == once.weights[m.base.key()].value.dims
            &&& w.at(twice->Ok_0.weights[m.base.key()].value, i) == w.at(
                once.weights[m.base.key()].value,
                i,
            )
            &&& twice->Ok_0.weights[m.b.key()] == once.weights[m.b.key()]
        }),
{
    let once = module::merged(st, m)->Ok_0;
    let (base, a, b) = module::adapter_values(st, m)->Ok_0;
    let zeros = tensor::fill_of(Scalar::Int(0), b.dims);
    let base1 = module::merged_weight(st, m)->Ok_0;
    assert(once.weights[m.base.key()].value == base1);
    assert(once.weights[m.a.key()].value == a);
    assert(once.weights[m.b.key()].value == zeros);
    let d = module::delta_of(a, b, m.scaling)->Ok_0;
    let d0 = module::delta_of(a, zeros, m.scaling)->Ok_0;
    assert(d0.dims == d.dims);
    lemma_absorbs(base.dims, d.dims);
    let base2 = tensor::binary_of(Binary::Add, base1, d0)->Ok_0;
    crate::term::law_dims_entries(b.dims);
    assert(w.fits(zeros));
    lemma_product_fits(w, a, b);
    lemma_product_fits(w, a, zeros);
    let (p, p0) = (
        tensor::product_of(Product::Plain, a, b)->Ok_0,
        tensor::product_of(Product::Plain, a, zeros)->Ok_0,
    );
    assert(w.of(d.term).dims == w.of(p.term).dims);
    assert(w.of(d0.term).dims == w.of(p0.term).dims);
    assert(w.fits(base1));
    let out = base1.dims;
    crate::shape::lemma_place_same(i, out);
    let e = crate::shape::place(i, out, d0.dims);
    lemma_product_with_zeros(w, a, b.dims, e);
    assert((w.of(d0.term).at)(e) == w.at(p0, e) * crate::meaning::scalar(w.m.f, m.scaling));
    assert(0real * crate::meaning::scalar(w.m.f, m.scaling) == 0real) by (nonlinear_arith);
    assert((w.of(base2.term).at)(i) == (w.of(base1.term).at)(i) + (w.of(d0.term).at)(e));
}

/// A shape that two shapes broadcast to absorbs either of them.
proof fn lemma_absorbs(a: Seq<usize>, b: Seq<usize>)
    requires
        crate::shape::compatible(a, b),
    ensures
        crate::shape::compatible(crate::shape::broadcast_dims(a, b), b),
        crate::shape::broadcast_dims(crate::shape::broadcast_dims(a, b), b)
            == crate::shape::broadcast_dims(a, b),
{
    let j = crate::shape::broadcast_dims(a, b);
    let n = crate::shape::max_rank(a, b);
    assert(j.len() == n);
    assert(crate::shape::left_padded(j, n) =~= j);
    assert(crate::shape::broadcast_dims(j, b) =~= j);
}

} // verus!
