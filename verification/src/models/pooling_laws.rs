//! What an image model makes of the features of its patches, over the real numbers.

use vstd::prelude::*;

use super::vision;
use super::vision::{Pooling, Vision, VisionMamba3Config};
use crate::autograd::graph::Tape;
use crate::autograd::ops;
use crate::autograd::var;
use crate::autograd::var::Traced;
use crate::buffer;
use crate::buffer::Reader;
use crate::distributions::rows;
use crate::error::Fault;
use crate::nn::value_readings::lemma_reshaped;
use crate::shape;
use crate::tensor;
use crate::tensor::Value;
use crate::term;
use crate::term::Reduce;

verus! {

/// The features of the positions of an image, along one channel.
pub open spec fn channel(w: Reader, x: Value, b: int, c: int) -> Seq<real> {
    let (n, d) = (x.dims[1] as int, x.dims[2] as int);
    Seq::new(n as nat, |t: int| w.at(x, (b * n + t) * d + c))
}

/// What pooling keeps of a channel: the mean of the positions, the first, or the last.
pub open spec fn pooled(p: Pooling, s: Seq<real>) -> real {
    match p {
        Pooling::Mean => rows::sum(s, s.len()) / (s.len() as int as real),
        Pooling::ClassToken => s[0],
        Pooling::Last => s[s.len() - 1],
    }
}

#[verifier::spinoff_prover]
proof fn lemma_reduced_middle(w: Reader, x: Value, b: int, c: int)
    requires
        x.dims.len() == 3,
        w.fits(x),
        0 <= b,
        0 <= c < x.dims[2],
    ensures
        ({
            let v = tensor::reduce_of(Reduce::Mean, x, 1)->Ok_0;
            w.at(v, b * x.dims[2] + c) == pooled(Pooling::Mean, channel(w, x, b, c))
        }),
{
    let d = x.dims;
    let k = d[2] as int;
    let i = b * k + c;
    vstd::arithmetic::div_mod::lemma_fundamental_div_mod_converse(i, k, b, c);
    assert(d.skip(2) =~= seq![d[2]]);
    assert(seq![d[2]].drop_last() =~= Seq::<usize>::empty());
    let e = shape::product(Seq::<usize>::empty());
    assert(e * d[2] == d[2]) by (nonlinear_arith)
        requires
            e == 1,
    ;
    assert(buffer::inner(d, 1) == k);
    let f = buffer::fibre(w.of(x.term), 1, i);
    assert(f =~= channel(w, x, b, c));
    let v = tensor::reduce_of(Reduce::Mean, x, 1)->Ok_0;
    assert(w.at(v, i) == buffer::reduced(Reduce::Mean, f));
}

#[verifier::spinoff_prover]
proof fn lemma_sliced_middle(w: Reader, x: Value, start: usize, b: int, c: int)
    requires
        x.dims.len() == 3,
        w.fits(x),
        start < x.dims[1],
        0 <= b,
        0 <= c < x.dims[2],
    ensures
        ({
            let v = tensor::slice_of(x, 1, start, 1)->Ok_0;
            w.at(v, b * x.dims[2] + c) == channel(w, x, b, c)[start as int]
        }),
{
    let d = x.dims;
    let (n, k) = (d[1] as int, d[2] as int);
    let i = b * k + c;
    vstd::arithmetic::div_mod::lemma_fundamental_div_mod_converse(i, k, b, c);
    assert(d.skip(2) =~= seq![d[2]]);
    assert(seq![d[2]].drop_last() =~= Seq::<usize>::empty());
    let e = shape::product(Seq::<usize>::empty());
    assert(e * d[2] == d[2]) by (nonlinear_arith)
        requires
            e == 1,
    ;
    assert(buffer::inner(d, 1) == k);
    assert(1 * k == k) by (nonlinear_arith);
    let v = tensor::slice_of(x, 1, start, 1)->Ok_0;
    assert(w.at(v, i) == w.at(x, buffer::sliced(d, 1, start as int, 1, i)));
}

/// Pooling gives one vector per image: the mean of its positions, the class token that stands
/// first, or the last position.
#[verifier::spinoff_prover]
pub proof fn law_pooling_keeps_what_was_asked(
    w: Reader,
    t: Tape,
    config: VisionMamba3Config,
    x: Traced,
    b: int,
    c: int,
)
    requires
        x.value.dims.len() == 3,
        w.fits(x.value),
        0 < x.value.dims[1],
        x.value.dims[0] * x.value.dims[2] <= usize::MAX,
        0 <= b < x.value.dims[0],
        0 <= c < x.value.dims[2],
    ensures
        ({
            let y = vision::pool_op(t, config, x);
            &&& y is Ok
            &&& y->Ok_0.1.value.dims == seq![x.value.dims[0], x.value.dims[2]]
            &&& w.at(y->Ok_0.1.value, b * x.value.dims[2] + c) == pooled(
                config.pooling,
                channel(w, x.value, b, c),
            )
        }),
{
    broadcast use var::lemma_record_value;

    let d = x.value.dims;
    let n = d[1];
    let i = b * d[2] + c;
    let one = seq![d[0], 1usize, d[2]];
    let flat = seq![d[0], d[2]];
    assert(d.update(1, 1usize) =~= one);
    assert(one.remove(1) =~= flat);
    let none = Seq::<usize>::empty();
    let e = shape::product(none);
    assert(one.drop_last() =~= seq![d[0], 1usize]);
    assert(seq![d[0], 1usize].drop_last() =~= seq![d[0]]);
    assert(seq![d[0]].drop_last() =~= none);
    assert(flat.drop_last() =~= seq![d[0]]);
    let p = shape::product(seq![d[0]]);
    assert(e * d[0] as nat == d[0] as nat) by (nonlinear_arith)
        requires
            e == 1,
    ;
    assert(p == d[0]);
    assert(p * 1usize as nat == p) by (nonlinear_arith);
    assert(shape::product(seq![d[0], 1usize]) == p);
    assert(shape::product(one) == p * d[2] as nat);
    assert(shape::product(flat) == p * d[2] as nat);
    assert(shape::product(one) == shape::product(flat));
    let picked = match config.pooling {
        Pooling::Mean => tensor::reduce_of(Reduce::Mean, x.value, 1)->Ok_0,
        Pooling::ClassToken => tensor::slice_of(x.value, 1, 0, 1)->Ok_0,
        Pooling::Last => tensor::slice_of(x.value, 1, (n - 1) as usize, 1)->Ok_0,
    };
    lemma_reduced_middle(w, x.value, b, c);
    lemma_sliced_middle(w, x.value, 0, b, c);
    lemma_sliced_middle(w, x.value, (n - 1) as usize, b, c);
    let r = vision::picked_op(t, config, x);
    assert(r is Ok);
    let v = r->Ok_0.1.value;
    assert(v.dims =~= one);
    if n == 1 {
        let s = channel(w, x.value, b, c);
        assert((b * 1 + 0) * d[2] + c == i) by (nonlinear_arith)
            requires
                i == b * d[2] + c,
        ;
        assert(s[0] == w.at(x.value, i));
    }
    assert(w.at(v, i) == pooled(config.pooling, channel(w, x.value, b, c)));
    lemma_reshaped(w, v, flat, i);
}

} // verus!
