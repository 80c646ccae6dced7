//! The rules of sums and products whose operands broadcast, over the real numbers.

use vstd::prelude::*;

use super::expansion::{law_reducing_is_the_adjoint_of_expanding, total};
use super::reduce;
use super::rule;
use super::rule::RuleOf;
use crate::buffer::Reader;
use crate::shape;
use crate::tensor;
use crate::tensor::Value;
use crate::term::{Binary, Unary};

verus! {

proof fn lemma_total_agrees(f: spec_fn(int) -> real, g: spec_fn(int) -> real, n: nat)
    requires
        forall|i: int| 0 <= i < n ==> #[trigger] f(i) == g(i),
    ensures
        total(f, n) == total(g, n),
    decreases n,
{
    if n > 0 {
        lemma_total_agrees(f, g, (n - 1) as nat);
        assert(f(n - 1) == g(n - 1));
    }
}

proof fn lemma_total_scales(f: spec_fn(int) -> real, c: real, n: nat)
    ensures
        total(|i: int| c * f(i), n) == c * total(f, n),
    decreases n,
{
    if n > 0 {
        lemma_total_scales(f, c, (n - 1) as nat);
        let (a, b) = (total(f, (n - 1) as nat), f(n - 1));
        assert(c * (a + b) == c * a + c * b) by (nonlinear_arith);
    } else {
        assert(c * 0real == 0real) by (nonlinear_arith);
    }
}

// -- broadcast operands --------------------------------------------------------------------

proof fn lemma_expands(a: Seq<usize>, b: Seq<usize>)
    requires
        shape::compatible(a, b),
    ensures
        tensor::expands(a, shape::broadcast_dims(a, b)),
        tensor::expands(b, shape::broadcast_dims(a, b)),
        shape::compatible(shape::broadcast_dims(a, b), a),
        shape::compatible(shape::broadcast_dims(a, b), b),
        shape::broadcast_dims(shape::broadcast_dims(a, b), a) == shape::broadcast_dims(a, b),
        shape::broadcast_dims(shape::broadcast_dims(a, b), b) == shape::broadcast_dims(a, b),
{
    let out = shape::broadcast_dims(a, b);
    let n = shape::max_rank(a, b);
    assert(out.len() == n);
    assert(shape::left_padded(out, n) =~= out);
    assert forall|i: int| 0 <= i < n implies {
        &&& shape::extents_agree(#[trigger] shape::left_padded(a, n)[i], out[i])
        &&& shape::extents_agree(shape::left_padded(b, n)[i], out[i])
        &&& shape::stretched(shape::left_padded(a, n)[i], out[i]) == out[i]
        &&& shape::stretched(shape::left_padded(b, n)[i], out[i]) == out[i]
        &&& shape::stretched(out[i], shape::left_padded(a, n)[i]) == out[i]
        &&& shape::stretched(out[i], shape::left_padded(b, n)[i]) == out[i]
    } by {
        assert(shape::extents_agree(shape::left_padded(a, n)[i], shape::left_padded(b, n)[i]));
    }
    assert(shape::max_rank(a, out) == n && shape::max_rank(b, out) == n);
    assert(shape::broadcast_dims(a, out) =~= out);
    assert(shape::broadcast_dims(b, out) =~= out);
    assert(shape::broadcast_dims(out, a) =~= out);
    assert(shape::broadcast_dims(out, b) =~= out);
    assert forall|i: int| 0 <= i < n implies shape::extents_agree(
        #[trigger] shape::left_padded(b, n)[i],
        shape::left_padded(out, n)[i],
    ) by {
        assert(shape::extents_agree(shape::left_padded(a, n)[i], shape::left_padded(b, n)[i]));
    }
    assert forall|i: int| 0 <= i < n implies shape::extents_agree(
        #[trigger] shape::left_padded(out, n)[i],
        shape::left_padded(a, n)[i],
    ) && shape::extents_agree(shape::left_padded(out, n)[i], shape::left_padded(b, n)[i]) by {
        assert(shape::extents_agree(shape::left_padded(a, n)[i], shape::left_padded(b, n)[i]));
    }
}

/// What a change `x` of `a` changes of `a * b`, weighed by a gradient and summed.
pub open spec fn product_change(w: Reader, a: Value, b: Value, g: Value, x: spec_fn(int) -> real) -> real {
    total(
        |i: int|
            x(shape::place(i, g.dims, a.dims)) * (w.at(g, i) * w.at(
                b,
                shape::place(i, g.dims, b.dims),
            )),
        shape::product(g.dims),
    )
}

/// What a change `x` of an operand of the extents `d`, broadcast to the extents of a result,
/// comes to when weighed by the gradient of the result and summed.
pub open spec fn spread_change(w: Reader, d: Seq<usize>, g: Value, x: spec_fn(int) -> real) -> real {
    total(|i: int| x(shape::place(i, g.dims, d)) * w.at(g, i), shape::product(g.dims))
}

/// A change `x` of a tensor, weighed by its gradient and summed.
pub open spec fn weighed(w: Reader, d: Seq<usize>, grad: Value, x: spec_fn(int) -> real) -> real {
    total(|k: int| x(k) * w.at(grad, k), shape::product(d))
}

/// One operand's part of the gradient of a product.
proof fn lemma_product_part(w: Reader, a: Value, b: Value, g: Value, x: spec_fn(int) -> real)
    requires
        w.fits(a),
        w.fits(b),
        w.fits(g),
        shape::compatible(g.dims, b.dims),
        shape::broadcast_dims(g.dims, b.dims) == g.dims,
        tensor::expands(a.dims, g.dims),
        shape::fits(g.dims),
        g.dims.len() <= usize::MAX,
        shape::product(g.dims) > 0,
    ensures
        ({
            let r = rule::onward(
                tensor::binary_of(Binary::Mul, g, b),
                |v: Value| reduce::reduce_to(v, a.dims),
            );
            &&& r is Ok
            &&& product_change(w, a, b, g, x) == weighed(w, a.dims, r->Ok_0, x)
        }),
{
    let v = tensor::binary_of(Binary::Mul, g, b)->Ok_0;
    assert(w.of(v.term).dims == g.dims);
    law_reducing_is_the_adjoint_of_expanding(w, v, a.dims, x);
    let (p, q) = (
        |i: int|
            x(shape::place(i, g.dims, a.dims)) * (w.at(g, i) * w.at(
                b,
                shape::place(i, g.dims, b.dims),
            )),
        |i: int| x(shape::place(i, v.dims, a.dims)) * w.at(v, i),
    );
    assert forall|i: int| 0 <= i < shape::product(g.dims) implies #[trigger] p(i) == q(i) by {
        shape::lemma_place_same(i, g.dims);
        assert(w.at(v, i) == w.at(g, i) * w.at(b, shape::place(i, g.dims, b.dims)));
    }
    lemma_total_agrees(p, q, shape::product(g.dims));
    let r = reduce::reduce_to(v, a.dims)->Ok_0;
    lemma_total_agrees(
        |k: int| x(k) * w.at(r, k),
        |i: int| x(i) * w.at(r, i),
        shape::product(a.dims),
    );
}

proof fn lemma_product_pullback(a: Value, b: Value, g: Value, bands: Seq<Option<Value>>)
    ensures
        rule::pullback(RuleOf::Mul(true, true, a, b), g, bands) == rule::pair(
            rule::wanted(
                true,
                rule::onward(
                    tensor::binary_of(Binary::Mul, g, b),
                    |v: Value| reduce::reduce_to(v, a.dims),
                ),
            ),
            rule::wanted(
                true,
                rule::onward(
                    tensor::binary_of(Binary::Mul, g, a),
                    |v: Value| reduce::reduce_to(v, b.dims),
                ),
            ),
        ),
{
    reveal(rule::pullback);
    reveal(rule::arithmetic_pullback);
}

proof fn lemma_sum_pullback(
    minus: bool,
    a: Seq<usize>,
    b: Seq<usize>,
    g: Value,
    bands: Seq<Option<Value>>,
)
    ensures
        rule::pullback(
            if minus {
                RuleOf::Sub(true, true, a, b)
            } else {
                RuleOf::Add(true, true, a, b)
            },
            g,
            bands,
        ) == rule::pair(
            rule::wanted(true, reduce::reduce_to(g, a)),
            rule::wanted(
                true,
                reduce::reduce_to(
                    if minus {
                        tensor::unary_of(Unary::Neg, g)
                    } else {
                        g
                    },
                    b,
                ),
            ),
        ),
{
    reveal(rule::pullback);
    reveal(rule::arithmetic_pullback);
}

/// Whether a gradient has the shape of what two tensors broadcast to, and elements.
pub open spec fn meets(w: Reader, a: Seq<usize>, b: Seq<usize>, g: Value) -> bool {
    &&& w.fits(g)
    &&& shape::compatible(a, b)
    &&& g.dims == shape::broadcast_dims(a, b)
    &&& shape::fits(g.dims)
    &&& g.dims.len() <= usize::MAX
    &&& shape::product(g.dims) > 0
}

/// The product rule for operands that broadcast against each other. A change of the left
/// operand changes element `i` of the product by what it reads of the change times what it
/// reads of the right operand; weighed by the gradient and summed, that is the change weighed
/// by the gradient that the left operand receives. The same holds on the right.
pub proof fn law_product_rule_broadcasts(
    w: Reader,
    a: Value,
    b: Value,
    g: Value,
    bands: Seq<Option<Value>>,
    x: spec_fn(int) -> real,
)
    requires
        w.fits(a),
        w.fits(b),
        meets(w, a.dims, b.dims, g),
    ensures
        rule::pullback(RuleOf::Mul(true, true, a, b), g, bands) matches Ok(grads) && grads.len()
            == 2 && (grads[0] matches Some(l) && product_change(w, a, b, g, x) == weighed(
            w,
            a.dims,
            l,
            x,
        )) && (grads[1] matches Some(r) && product_change(w, b, a, g, x) == weighed(
            w,
            b.dims,
            r,
            x,
        )),
{
    lemma_expands(a.dims, b.dims);
    lemma_product_part(w, a, b, g, x);
    lemma_product_part(w, b, a, g, x);
    lemma_product_pullback(a, b, g, bands);
}

/// The rules of sums and differences for operands that broadcast against each other: each
/// operand's gradient weighs its change as the gradient of the result weighs that change
/// broadcast, with the sign turned for what is taken away.
pub proof fn law_sum_rule_broadcasts(
    w: Reader,
    minus: bool,
    a: Seq<usize>,
    b: Seq<usize>,
    g: Value,
    bands: Seq<Option<Value>>,
    x: spec_fn(int) -> real,
)
    requires
        meets(w, a, b, g),
    ensures
        rule::pullback(
            if minus {
                RuleOf::Sub(true, true, a, b)
            } else {
                RuleOf::Add(true, true, a, b)
            },
            g,
            bands,
        ) matches Ok(grads) && grads.len() == 2 && (grads[0] matches Some(l) && spread_change(
            w,
            a,
            g,
            x,
        ) == weighed(w, a, l, x)) && (grads[1] matches Some(r) && (if minus {
            -spread_change(w, b, g, x)
        } else {
            spread_change(w, b, g, x)
        }) == weighed(w, b, r, x)),
{
    lemma_expands(a, b);
    lemma_sum_part(w, a, g, x);
    lemma_sum_pullback(minus, a, b, g, bands);
    if minus {
        let n = tensor::unary_of(Unary::Neg, g);
        assert(w.of(n.term).dims == g.dims);
        lemma_sum_part(w, b, n, x);
        let (p, q) = (
            |i: int| x(shape::place(i, g.dims, b)) * w.at(g, i),
            |i: int| x(shape::place(i, n.dims, b)) * w.at(n, i),
        );
        lemma_total_scales(p, -1real, shape::product(g.dims));
        let m = |i: int| (-1real) * p(i);
        assert forall|i: int| 0 <= i < shape::product(g.dims) implies #[trigger] q(i) == m(i) by {
            assert(w.at(n, i) == -w.at(g, i));
            let (s, t) = (x(shape::place(i, g.dims, b)), w.at(g, i));
            assert(s * (-t) == (-1real) * (s * t)) by (nonlinear_arith);
        }
        lemma_total_agrees(q, m, shape::product(g.dims));
    } else {
        lemma_sum_part(w, b, g, x);
    }
}

pub proof fn lemma_sum_part(w: Reader, d: Seq<usize>, g: Value, x: spec_fn(int) -> real)
    requires
        w.fits(g),
        tensor::expands(d, g.dims),
        shape::fits(g.dims),
        g.dims.len() <= usize::MAX,
        shape::product(g.dims) > 0,
    ensures
        reduce::reduce_to(g, d) is Ok,
        spread_change(w, d, g, x) == weighed(w, d, reduce::reduce_to(g, d)->Ok_0, x),
{
    law_reducing_is_the_adjoint_of_expanding(w, g, d, x);
    let r = reduce::reduce_to(g, d)->Ok_0;
    lemma_total_agrees(
        |k: int| x(k) * w.at(r, k),
        |i: int| x(i) * w.at(r, i),
        shape::product(d),
    );
}

} // verus!
