//! Differentiable operations.
//!
//! Only genuinely primitive operations carry a hand-written adjoint. Everything
//! else is composed from these, so its gradient follows from theirs.

use vstd::prelude::*;

use super::graph::{Session, Tape};
use super::rule;
use super::rule::{Adjoint, Rule, RuleOf};
use super::var;
use super::var::{Place, Trace, Traced, Var};
use crate::error::{Error, Fault};
use crate::shape::Shape;
use crate::tensor;
use crate::tensor::{IdTensor, IdValue, Tensor, Value};
use crate::term::{Binary, Fused, Product, Reduce, Scalar, Scan, Unary};
use crate::text::{append_bracketed, append_decimal};

verus! {

// -- operands ----------------------------------------------------------------------

pub(crate) fn on(a: &Var) -> (r: Vec<Option<Trace>>)
    ensures
        var::places(r@) == seq![a@.trace],
{
    let mut out: Vec<Option<Trace>> = Vec::new();
    out.push(a.trace());
    proof {
        assert(var::places(out@) =~= seq![a@.trace]);
    }
    out
}

pub(crate) fn on2(a: &Var, b: &Var) -> (r: Vec<Option<Trace>>)
    ensures
        var::places(r@) == seq![a@.trace, b@.trace],
{
    let mut out: Vec<Option<Trace>> = Vec::new();
    out.push(a.trace());
    out.push(b.trace());
    proof {
        assert(var::places(out@) =~= seq![a@.trace, b@.trace]);
    }
    out
}

/// Add an operand to a list.
pub(crate) fn also(list: &mut Vec<Option<Trace>>, a: &Var)
    ensures
        var::places(final(list)@) == var::places(old(list)@).push(a@.trace),
{
    let ghost before = var::places(list@);
    list.push(a.trace());
    proof {
        assert(var::places(list@) =~= before.push(a@.trace));
    }
}

/// The values of a list of variables.
pub open spec fn traced(s: Seq<Var>) -> Seq<Traced> {
    s.map_values(|v: Var| v@)
}

/// The plain values of a list of variables.
pub open spec fn plain_values(s: Seq<Traced>) -> Seq<Value> {
    s.map_values(|v: Traced| v.value)
}

/// Where a list of variables sits.
pub open spec fn all_places(s: Seq<Traced>) -> Seq<Option<Place>> {
    s.map_values(|v: Traced| v.trace)
}

/// The result of a step that may fail, continued.
pub open spec fn next(
    r: Result<(Tape, Traced), Fault>,
    f: spec_fn(Tape, Traced) -> Result<(Tape, Traced), Fault>,
) -> Result<(Tape, Traced), Fault> {
    match r {
        Ok((t, v)) => f(t, v),
        Err(e) => Err(e),
    }
}

/// A value that is not tracked.
pub open spec fn untracked(v: Value) -> Traced {
    Traced { value: v, trace: None }
}

// -- elementwise functions -----------------------------------------------------------

/// Whether the derivative of a function is read from its output.
pub open spec fn saves_output(op: Unary) -> bool {
    op is Exp || op is Sqrt || op is Rsqrt || op is Recip || op is Tanh || op is Sigmoid
}

/// The backward rule of an elementwise function.
pub open spec fn pointwise_rule(op: Unary, x: Value) -> Adjoint {
    match op {
        Unary::Neg => RuleOf::Negate,
        Unary::RsubScalar(_) => RuleOf::Negate,
        // Shifts, and the straight-through estimators, pass the gradient unchanged.
        Unary::AddScalar(_) => RuleOf::Identity,
        Unary::Round => RuleOf::Identity,
        Unary::WrapTo(_) => RuleOf::Identity,
        Unary::MulScalar(a) => RuleOf::Scale(a),
        _ => if saves_output(op) {
            RuleOf::Pointwise(op, tensor::unary_of(op, x))
        } else {
            RuleOf::Pointwise(op, x)
        },
    }
}

/// An elementwise function, recorded.
pub open spec fn pointwise_op(t: Tape, op: Unary, a: Traced) -> (Tape, Traced) {
    var::record(
        t,
        tensor::unary_of(op, a.value),
        seq![a.trace],
        pointwise_rule(op, a.value),
    )
}

/// A function of two operands, recorded with the flags of which operand wants a
/// gradient.
pub open spec fn binary_op(t: Tape, op: Binary, a: Traced, b: Traced) -> Result<
    (Tape, Traced),
    Fault,
> {
    let (wa, wb) = (a.trace is Some, b.trace is Some);
    var::recorded(
        t,
        tensor::binary_of(op, a.value, b.value),
        seq![a.trace, b.trace],
        match op {
            Binary::Add => RuleOf::Add(wa, wb, a.value.dims, b.value.dims),
            Binary::Sub => RuleOf::Sub(wa, wb, a.value.dims, b.value.dims),
            Binary::Mul => RuleOf::Mul(wa, wb, a.value, b.value),
            Binary::Div => RuleOf::Div(wa, wb, a.value, b.value),
            _ => RuleOf::Maximum(a.value, b.value),
        },
    )
}

pub open spec fn product_op(t: Tape, op: Product, a: Traced, b: Traced) -> Result<
    (Tape, Traced),
    Fault,
> {
    let (wa, wb) = (a.trace is Some, b.trace is Some);
    var::recorded(
        t,
        tensor::product_of(op, a.value, b.value),
        seq![a.trace, b.trace],
        match op {
            Product::RightTransposed => RuleOf::MatMulNt(wa, wb, a.value, b.value),
            _ => RuleOf::MatMul(wa, wb, a.value, b.value),
        },
    )
}

// -- reductions and movement -----------------------------------------------------------

pub open spec fn reduce_op(t: Tape, op: Reduce, a: Traced, axis: usize) -> Result<
    (Tape, Traced),
    Fault,
> {
    let v = tensor::reduce_of(op, a.value, axis);
    var::recorded(
        t,
        v,
        seq![a.trace],
        match op {
            Reduce::Sum => RuleOf::ExpandTo(a.value.dims),
            Reduce::Mean => RuleOf::MeanDim(a.value.dims, a.value.dims[axis as int]),
            _ => RuleOf::MaxDim(axis, a.value, v->Ok_0),
        },
    )
}

pub open spec fn sum_op(t: Tape, a: Traced) -> (Tape, Traced) {
    var::record(
        t,
        tensor::sum_all_of(a.value),
        seq![a.trace],
        RuleOf::ExpandTo(a.value.dims),
    )
}

pub open spec fn count_message(dims: Seq<usize>) -> Seq<char> {
    "too many elements in "@ + crate::text::bracketed(dims)
}

/// The mean of every element: the sum, times the reciprocal of the count (of one,
/// when there are no elements).
pub open spec fn mean_op(t: Tape, a: Traced) -> Result<(Tape, Traced), Fault> {
    if crate::shape::fits(a.value.dims) {
        let n = crate::shape::product(a.value.dims);
        let (u, total) = sum_op(t, a);
        Ok(
            pointwise_op(
                u,
                Unary::MulScalar(
                    Scalar::Frac(
                        1,
                        if n == 0 {
                            1
                        } else {
                            n as u64
                        },
                    ),
                ),
                total,
            ),
        )
    } else {
        Err(Fault::Shape(count_message(a.value.dims)))
    }
}

pub open spec fn reshape_op(t: Tape, a: Traced, target: Seq<usize>) -> Result<
    (Tape, Traced),
    Fault,
> {
    var::recorded(
        t,
        tensor::reshape_of(a.value, target),
        seq![a.trace],
        RuleOf::Reshape(a.value.dims),
    )
}

pub open spec fn squeeze_message(axis: usize, dims: Seq<usize>) -> Seq<char> {
    "cannot squeeze axis "@ + crate::text::decimal(axis as nat) + " of "@ + crate::text::bracketed(
        dims,
    )
}

pub open spec fn squeeze_op(t: Tape, a: Traced, axis: usize) -> Result<(Tape, Traced), Fault> {
    if a.value.dims[axis as int] != 1 {
        Err(Fault::Shape(squeeze_message(axis, a.value.dims)))
    } else {
        reshape_op(t, a, a.value.dims.remove(axis as int))
    }
}

/// The sum along an axis, which is then removed.
pub open spec fn sum_away_op(t: Tape, a: Traced, axis: usize) -> Result<(Tape, Traced), Fault> {
    next(reduce_op(t, Reduce::Sum, a, axis), |u: Tape, v: Traced| squeeze_op(u, v, axis))
}

/// The logarithm of the sum of exponentials along an axis, which stays with extent
/// one.
pub open spec fn logsumexp_op(t: Tape, a: Traced, axis: usize) -> Result<(Tape, Traced), Fault> {
    next(
        reduce_op(t, Reduce::Max, a, axis),
        |t1: Tape, top: Traced|
            next(
                binary_op(t1, Binary::Sub, a, top),
                |t2: Tape, x: Traced|
                    {
                        let (t3, e) = pointwise_op(t2, Unary::Exp, x);
                        next(
                            reduce_op(t3, Reduce::Sum, e, axis),
                            |t4: Tape, d: Traced|
                                {
                                    let (t5, l) = pointwise_op(t4, Unary::Log, d);
                                    binary_op(t5, Binary::Add, l, top)
                                },
                        )
                    },
            ),
    )
}

/// The order that undoes an order: entry `v` says where `v` stands.
pub open spec fn inverse_of(order: Seq<usize>) -> Seq<usize> {
    Seq::new(
        order.len(),
        |v: int| (choose|i: int| 0 <= i < order.len() && order[i] == v) as usize,
    )
}

pub open spec fn permute_op(t: Tape, a: Traced, order: Seq<usize>) -> Result<
    (Tape, Traced),
    Fault,
> {
    var::recorded(
        t,
        tensor::permute_of(a.value, order),
        seq![a.trace],
        RuleOf::Permute(inverse_of(order)),
    )
}

/// The axes in order, with two of them exchanged.
pub open spec fn exchanged(rank: nat, a: int, b: int) -> Seq<usize> {
    Seq::new(
        rank,
        |i: int|
            if i == a {
                b as usize
            } else if i == b {
                a as usize
            } else {
                i as usize
            },
    )
}

pub open spec fn expand_op(t: Tape, a: Traced, target: Seq<usize>) -> Result<
    (Tape, Traced),
    Fault,
> {
    var::recorded(
        t,
        tensor::expand_of(a.value, target),
        seq![a.trace],
        RuleOf::ReduceTo(a.value.dims),
    )
}

pub open spec fn flip_op(t: Tape, a: Traced, axis: usize) -> Result<(Tape, Traced), Fault> {
    var::recorded(t, tensor::flip_of(a.value, axis), seq![a.trace], RuleOf::Flip(axis))
}

/// A slice; one that covers the whole axis is the value itself.
pub open spec fn slice_op(t: Tape, a: Traced, axis: usize, start: usize, len: usize) -> Result<
    (Tape, Traced),
    Fault,
> {
    if start == 0 && len == a.value.dims[axis as int] {
        Ok((t, a))
    } else {
        var::recorded(
            t,
            tensor::slice_of(a.value, axis, start, len),
            seq![a.trace],
            RuleOf::Slice(a.value.dims, axis, start),
        )
    }
}

/// The first `k` of `n` pieces of a split, each recorded on the source node.
pub open spec fn pieces_op(
    t: Tape,
    sink: Traced,
    values: Seq<Value>,
    k: nat,
) -> (Tape, Seq<Traced>)
    decreases k,
{
    if k == 0 {
        (t, Seq::empty())
    } else {
        let (before, made) = pieces_op(t, sink, values, (k - 1) as nat);
        let (after, piece) = var::record(
            before,
            values[k - 1],
            seq![sink.trace],
            RuleOf::SplitPiece((k - 1) as usize, values.len() as usize),
        );
        (after, made.push(piece))
    }
}

/// A split. A single piece is the value itself; untracked values, or values met with
/// tracking off, give untracked pieces; otherwise the pieces hang off one source
/// node that assembles their gradients.
pub open spec fn split_op(t: Tape, a: Traced, sizes: Seq<usize>, axis: usize) -> Result<
    (Tape, Seq<Traced>),
    Fault,
> {
    match tensor::split_of(a.value, sizes, axis) {
        Err(f) => Err(f),
        Ok(values) => if sizes.len() == 1 {
            Ok((t, seq![a]))
        } else if sizes.len() == 0 || a.trace is None || !t.enabled {
            Ok((t, values.map_values(|v: Value| untracked(v))))
        } else {
            let (u, sink) = var::record(
                t,
                rule::token(),
                seq![a.trace],
                RuleOf::SplitSink(a.value.dims, sizes, axis),
            );
            Ok(pieces_op(u, sink, values, values.len()))
        },
    }
}

pub open spec fn cat_op(t: Tape, parts: Seq<Traced>, axis: usize) -> Result<
    (Tape, Traced),
    Fault,
> {
    if parts.len() == 0 {
        Err(Fault::Shape("cat needs at least one value"@))
    } else {
        let vs = plain_values(parts);
        var::recorded(
            t,
            tensor::cat_of(vs, axis),
            all_places(parts),
            RuleOf::Cat(axis, tensor::extents(vs, axis)),
        )
    }
}

/// A shift by one step along an axis, the first slot filled with zeros.
pub open spec fn shift_right_op(t: Tape, a: Traced, axis: usize) -> Result<(Tape, Traced), Fault> {
    let len = a.value.dims[axis as int];
    if len == 0 {
        Ok((t, a))
    } else {
        next(
            slice_op(t, a, axis, 0, (len - 1) as usize),
            |u: Tape, head: Traced|
                cat_op(
                    u,
                    seq![
                        untracked(
                            tensor::fill_of(
                                Scalar::Int(0),
                                a.value.dims.update(axis as int, 1usize),
                            ),
                        ),
                        head,
                    ],
                    axis,
                ),
        )
    }
}

/// The sum of the first `k` values of a list, from the left.
pub open spec fn sum_vars_op(t: Tape, parts: Seq<Traced>, k: nat) -> Result<(Tape, Traced), Fault>
    decreases k,
{
    if k == 0 {
        Err(Fault::Shape("sum of an empty list"@))
    } else if k == 1 {
        Ok((t, parts[0]))
    } else {
        next(
            sum_vars_op(t, parts, (k - 1) as nat),
            |u: Tape, acc: Traced| binary_op(u, Binary::Add, acc, parts[k - 1]),
        )
    }
}

pub open spec fn embedding_op(t: Tape, table: Traced, ids: IdValue) -> Result<
    (Tape, Traced),
    Fault,
> {
    var::recorded(
        t,
        tensor::gather_rows_of(table.value, ids),
        seq![table.trace],
        RuleOf::Embedding(ids, table.value.dims[0], table.value.dims[1]),
    )
}

pub open spec fn take_op(t: Tape, a: Traced, ids: IdValue) -> Result<(Tape, Traced), Fault> {
    var::recorded(
        t,
        tensor::take_along_last_of(a.value, ids),
        seq![a.trace],
        RuleOf::TakeAlongLast(ids, a.value.dims.last()),
    )
}

pub open spec fn cumsum_op(t: Tape, a: Traced, axis: usize) -> Result<(Tape, Traced), Fault> {
    var::recorded(
        t,
        tensor::scan_of(Scan::Inclusive, a.value, axis),
        seq![a.trace],
        RuleOf::CumSum(axis),
    )
}

pub open spec fn cumsum_exclusive_op(t: Tape, a: Traced, axis: usize) -> Result<
    (Tape, Traced),
    Fault,
> {
    var::recorded(
        t,
        tensor::scan_of(Scan::Exclusive, a.value, axis),
        seq![a.trace],
        RuleOf::CumSumExclusive(axis),
    )
}

// -- composed activations ------------------------------------------------------------

pub open spec fn silu_composed_op(t: Tape, a: Traced) -> Result<(Tape, Traced), Fault> {
    let (u, gate) = pointwise_op(t, Unary::Sigmoid, a);
    binary_op(u, Binary::Mul, a, gate)
}

/// `max(x, 0) + ln(1 + exp(-|x|))`.
pub open spec fn softplus_composed_op(t: Tape, a: Traced) -> Result<(Tape, Traced), Fault> {
    let (t1, v1) = pointwise_op(t, Unary::Abs, a);
    let (t2, v2) = pointwise_op(t1, Unary::Neg, v1);
    let (t3, v3) = pointwise_op(t2, Unary::Exp, v2);
    let (t4, v4) = pointwise_op(t3, Unary::AddScalar(Scalar::Int(1)), v3);
    let (t5, v5) = pointwise_op(t4, Unary::Log, v4);
    let (t6, v6) = pointwise_op(t5, Unary::Relu, a);
    binary_op(t6, Binary::Add, v6, v5)
}

/// `x (1 + erf(x / sqrt 2)) / 2`.
pub open spec fn gelu_op(t: Tape, a: Traced) -> Result<(Tape, Traced), Fault> {
    let (t1, v1) = pointwise_op(t, Unary::MulScalar(Scalar::InvSqrt(2)), a);
    let (t2, v2) = pointwise_op(t1, Unary::Erf, v1);
    let (t3, v3) = pointwise_op(t2, Unary::AddScalar(Scalar::Int(1)), v2);
    let (t4, v4) = pointwise_op(t3, Unary::MulScalar(Scalar::Frac(1, 2)), v3);
    binary_op(t4, Binary::Mul, a, v4)
}

/// The values less their maximum along an axis; the maximum is held constant.
pub open spec fn shifted_op(t: Tape, a: Traced, axis: usize) -> Result<(Tape, Traced), Fault> {
    next(
        reduce_op(t, Reduce::Max, a, axis),
        |u: Tape, m: Traced| binary_op(u, Binary::Sub, a, untracked(m.value)),
    )
}

/// Exponentials divided by their sum along an axis.
pub open spec fn softmax_op(t: Tape, a: Traced, axis: usize) -> Result<(Tape, Traced), Fault> {
    next(
        shifted_op(t, a, axis),
        |t1: Tape, x: Traced|
            {
                let (t2, e) = pointwise_op(t1, Unary::Exp, x);
                next(
                    reduce_op(t2, Reduce::Sum, e, axis),
                    |t3: Tape, d: Traced| binary_op(t3, Binary::Div, e, d),
                )
            },
    )
}

/// The values less the logarithm of the sum of their exponentials along an axis.
pub open spec fn log_softmax_op(t: Tape, a: Traced, axis: usize) -> Result<(Tape, Traced), Fault> {
    next(
        shifted_op(t, a, axis),
        |t1: Tape, x: Traced|
            {
                let (t2, e) = pointwise_op(t1, Unary::Exp, x);
                next(
                    reduce_op(t2, Reduce::Sum, e, axis),
                    |t3: Tape, d: Traced|
                        {
                            let (t4, l) = pointwise_op(t3, Unary::Log, d);
                            binary_op(t4, Binary::Sub, x, l)
                        },
                )
            },
    )
}

// -- errors --------------------------------------------------------------------------

fn squeeze_error(axis: usize, dims: &Vec<usize>) -> (e: Error)
    ensures
        e@ == Fault::Shape(squeeze_message(axis, dims@)),
{
    let mut text = String::new();
    text.append("cannot squeeze axis ");
    append_decimal(&mut text, axis as u64);
    text.append(" of ");
    append_bracketed(&mut text, dims);
    proof {
        assert(text@ =~= squeeze_message(axis, dims@));
    }
    Error::Shape(text)
}

pub(crate) fn count_error(dims: &Vec<usize>) -> (e: Error)
    ensures
        e@ == Fault::Shape(count_message(dims@)),
{
    let mut text = String::new();
    text.append("too many elements in ");
    append_bracketed(&mut text, dims);
    proof {
        assert(text@ =~= count_message(dims@));
    }
    Error::Shape(text)
}

/// The order that undoes an order.
fn inverse(order: &Vec<usize>) -> (r: Shape)
    requires
        tensor::is_order(order@, order@.len()),
    ensures
        r@ == inverse_of(order@),
{
    let n: usize = order.len();
    let mut inv: Vec<usize> = Vec::with_capacity(n);
    let mut k: usize = 0;
    while k < n
        invariant
            k <= n,
            inv@.len() == k,
        decreases n - k,
    {
        inv.push(0);
        k += 1;
    }
    let mut i: usize = 0;
    while i < n
        invariant
            i <= n,
            n == order@.len(),
            inv@.len() == n,
            tensor::is_order(order@, order@.len()),
            forall|j: int| 0 <= j < i ==> inv@[#[trigger] order@[j] as int] == j,
        decreases n - i,
    {
        let v: usize = order[i];
        let ghost before = inv@;
        inv.set(v, i);
        proof {
            assert forall|j: int| 0 <= j < i + 1 implies inv@[#[trigger] order@[j] as int] == j by {
                if j < i {
                    assert(order@[j] != order@[i as int]);
                }
            }
        }
        i += 1;
    }
    proof {
        lemma_order_onto(order@, n as nat);
        assert forall|v: int| 0 <= v < n implies inv@[v] == inverse_of(order@)[v] by {
            assert(names(order@, v));
            let j = choose|j: int| 0 <= j < order@.len() && order@[j] == v;
            assert(inv@[order@[j] as int] == j);
        }
        assert(inv@ =~= inverse_of(order@));
    }
    Shape::new(inv)
}

/// Whether a list names an axis.
pub open spec fn names(order: Seq<usize>, v: int) -> bool {
    exists|j: int| 0 <= j < order.len() && order[j] == v
}

/// A list that names every axis at most once, out of as many as there are, names
/// every axis.
pub proof fn lemma_order_onto(order: Seq<usize>, n: nat)
    requires
        tensor::is_order(order, n),
    ensures
        forall|v: int| 0 <= v < n ==> #[trigger] names(order, v),
{
    let ints = order.map_values(|x: usize| x as int);
    assert(ints.no_duplicates()) by {
        assert forall|i: int, j: int| 0 <= i < ints.len() && 0 <= j < ints.len() && i
            != j implies ints[i] != ints[j] by {
            assert(order[i] != order[j]);
        }
    }
    ints.unique_seq_to_set();
    let all = vstd::set_lib::set_int_range(0, n as int);
    vstd::set_lib::lemma_int_range(0, n as int);
    assert(ints.to_set().subset_of(all)) by {
        assert forall|x: int| ints.to_set().contains(x) implies all.contains(x) by {
            let i = choose|i: int| 0 <= i < ints.len() && ints[i] == x;
            assert(order[i] < n);
        }
    }
    vstd::set_lib::lemma_subset_equality(ints.to_set(), all);
    assert forall|v: int| 0 <= v < n implies #[trigger] names(order, v) by {
        assert(all.contains(v));
        assert(ints.to_set().contains(v));
        let j = choose|j: int| 0 <= j < ints.len() && ints[j] == v;
        assert(order[j] == v);
    }
}

fn axes(rank: usize) -> (r: Vec<usize>)
    ensures
        r@ == Seq::new(rank as nat, |i: int| i as usize),
{
    let mut out: Vec<usize> = Vec::with_capacity(rank);
    let mut i: usize = 0;
    while i < rank
        invariant
            i <= rank,
            out@ == Seq::new(i as nat, |k: int| k as usize),
        decreases rank - i,
    {
        out.push(i);
        proof {
            assert(out@ =~= Seq::new(i as nat + 1, |k: int| k as usize));
        }
        i += 1;
    }
    out
}

impl Var {
    // -- elementwise functions -------------------------------------------------------

    /// Apply an elementwise function.
    pub(crate) fn pointwise(&self, s: &mut Session, op: Unary) -> (r: Self)
        ensures
            (final(s)@, r@) == pointwise_op(old(s)@, op, self@),
    {
        let value = self.tensor().unary(op);
        let rule: Rule = match op {
            Unary::Neg => RuleOf::Negate,
            Unary::RsubScalar(_) => RuleOf::Negate,
            Unary::AddScalar(_) => RuleOf::Identity,
            Unary::Round => RuleOf::Identity,
            Unary::WrapTo(_) => RuleOf::Identity,
            Unary::MulScalar(a) => RuleOf::Scale(a),
            Unary::Exp | Unary::Sqrt | Unary::Rsqrt | Unary::Recip | Unary::Tanh
            | Unary::Sigmoid => RuleOf::Pointwise(op, value.clone()),
            _ => RuleOf::Pointwise(op, self.tensor().clone()),
        };
        Var::record(s, value, &on(self), rule)
    }

    /// Negation.
    pub fn neg(&self, s: &mut Session) -> (r: Self)
        ensures
            (final(s)@, r@) == pointwise_op(old(s)@, Unary::Neg, self@),
    {
        self.pointwise(s, Unary::Neg)
    }

    /// `exp(x)`.
    pub fn exp(&self, s: &mut Session) -> (r: Self)
        ensures
            (final(s)@, r@) == pointwise_op(old(s)@, Unary::Exp, self@),
    {
        self.pointwise(s, Unary::Exp)
    }

    /// Natural logarithm.
    pub fn log(&self, s: &mut Session) -> (r: Self)
        ensures
            (final(s)@, r@) == pointwise_op(old(s)@, Unary::Log, self@),
    {
        self.pointwise(s, Unary::Log)
    }

    /// Square root.
    pub fn sqrt(&self, s: &mut Session) -> (r: Self)
        ensures
            (final(s)@, r@) == pointwise_op(old(s)@, Unary::Sqrt, self@),
    {
        self.pointwise(s, Unary::Sqrt)
    }

    /// Reciprocal square root.
    pub fn rsqrt(&self, s: &mut Session) -> (r: Self)
        ensures
            (final(s)@, r@) == pointwise_op(old(s)@, Unary::Rsqrt, self@),
    {
        self.pointwise(s, Unary::Rsqrt)
    }

    /// Reciprocal.
    pub fn recip(&self, s: &mut Session) -> (r: Self)
        ensures
            (final(s)@, r@) == pointwise_op(old(s)@, Unary::Recip, self@),
    {
        self.pointwise(s, Unary::Recip)
    }

    /// Absolute value.
    pub fn abs(&self, s: &mut Session) -> (r: Self)
        ensures
            (final(s)@, r@) == pointwise_op(old(s)@, Unary::Abs, self@),
    {
        self.pointwise(s, Unary::Abs)
    }

    /// Hyperbolic tangent.
    pub fn tanh(&self, s: &mut Session) -> (r: Self)
        ensures
            (final(s)@, r@) == pointwise_op(old(s)@, Unary::Tanh, self@),
    {
        self.pointwise(s, Unary::Tanh)
    }

    /// Logistic sigmoid.
    pub fn sigmoid(&self, s: &mut Session) -> (r: Self)
        ensures
            (final(s)@, r@) == pointwise_op(old(s)@, Unary::Sigmoid, self@),
    {
        self.pointwise(s, Unary::Sigmoid)
    }

    /// Sine.
    pub fn sin(&self, s: &mut Session) -> (r: Self)
        ensures
            (final(s)@, r@) == pointwise_op(old(s)@, Unary::Sin, self@),
    {
        self.pointwise(s, Unary::Sin)
    }

    /// Cosine.
    pub fn cos(&self, s: &mut Session) -> (r: Self)
        ensures
            (final(s)@, r@) == pointwise_op(old(s)@, Unary::Cos, self@),
    {
        self.pointwise(s, Unary::Cos)
    }

    /// Gauss error function.
    pub fn erf(&self, s: &mut Session) -> (r: Self)
        ensures
            (final(s)@, r@) == pointwise_op(old(s)@, Unary::Erf, self@),
    {
        self.pointwise(s, Unary::Erf)
    }

    /// `max(x, 0)`.
    pub fn relu(&self, s: &mut Session) -> (r: Self)
        ensures
            (final(s)@, r@) == pointwise_op(old(s)@, Unary::Relu, self@),
    {
        self.pointwise(s, Unary::Relu)
    }

    /// `x + a`.
    pub fn add_scalar(&self, s: &mut Session, a: Scalar) -> (r: Self)
        ensures
            (final(s)@, r@) == pointwise_op(old(s)@, Unary::AddScalar(a), self@),
    {
        self.pointwise(s, Unary::AddScalar(a))
    }

    /// `x * a`.
    pub fn mul_scalar(&self, s: &mut Session, a: Scalar) -> (r: Self)
        ensures
            (final(s)@, r@) == pointwise_op(old(s)@, Unary::MulScalar(a), self@),
    {
        self.pointwise(s, Unary::MulScalar(a))
    }

    /// `a - x`.
    pub fn rsub_scalar(&self, s: &mut Session, a: Scalar) -> (r: Self)
        ensures
            (final(s)@, r@) == pointwise_op(old(s)@, Unary::RsubScalar(a), self@),
    {
        self.pointwise(s, Unary::RsubScalar(a))
    }

    /// `x ^ a`, for a single-precision exponent given by its bit pattern.
    pub fn powf_scalar(&self, s: &mut Session, a: u32) -> (r: Self)
        ensures
            (final(s)@, r@) == pointwise_op(
                old(s)@,
                Unary::PowfScalar(Scalar::Bits(a)),
                self@,
            ),
    {
        self.pointwise(s, Unary::PowfScalar(Scalar::Bits(a)))
    }

    /// Clamp into `[lo, hi]`; the gradient is zero outside the range.
    pub fn clamp(&self, s: &mut Session, lo: Scalar, hi: Scalar) -> (r: Self)
        ensures
            (final(s)@, r@) == pointwise_op(old(s)@, Unary::Clamp(lo, hi), self@),
    {
        self.pointwise(s, Unary::Clamp(lo, hi))
    }

    /// Round to the nearest integer with a straight-through estimator: the forward
    /// value is rounded, the gradient passes unchanged.
    pub fn round_ste(&self, s: &mut Session) -> (r: Self)
        ensures
            (final(s)@, r@) == pointwise_op(old(s)@, Unary::Round, self@),
    {
        self.pointwise(s, Unary::Round)
    }

    /// `x * sigmoid(x)`, in one pass.
    pub fn silu(&self, s: &mut Session) -> (r: Self)
        ensures
            (final(s)@, r@) == pointwise_op(old(s)@, Unary::Silu, self@),
    {
        self.pointwise(s, Unary::Silu)
    }

    /// `ln(1 + exp(x))`, computed stably in one pass.
    pub fn softplus(&self, s: &mut Session) -> (r: Self)
        ensures
            (final(s)@, r@) == pointwise_op(old(s)@, Unary::Softplus, self@),
    {
        self.pointwise(s, Unary::Softplus)
    }

    /// Reduce into half a period either side of zero by subtracting whole multiples
    /// of `period`. The multiple is locally constant, so the gradient passes
    /// unchanged.
    pub fn wrap_to(&self, s: &mut Session, period: Scalar) -> (r: Self)
        ensures
            (final(s)@, r@) == pointwise_op(old(s)@, Unary::WrapTo(period), self@),
    {
        self.pointwise(s, Unary::WrapTo(period))
    }

    // -- binary ----------------------------------------------------------------------

    /// Elementwise sum with broadcasting.
    pub fn add(&self, s: &mut Session, other: &Self) -> (r: Result<Self, Error>)
        ensures
            var::did(r, old(s)@, final(s)@, binary_op(old(s)@, Binary::Add, self@, other@)),
    {
        let value = Tensor::binary(Binary::Add, self.tensor(), other.tensor())?;
        let rule: Rule = RuleOf::Add(
            self.is_tracked(),
            other.is_tracked(),
            self.shape().clone(),
            other.shape().clone(),
        );
        Ok(Var::record(s, value, &on2(self, other), rule))
    }

    /// Elementwise difference with broadcasting.
    pub fn sub(&self, s: &mut Session, other: &Self) -> (r: Result<Self, Error>)
        ensures
            var::did(r, old(s)@, final(s)@, binary_op(old(s)@, Binary::Sub, self@, other@)),
    {
        let value = Tensor::binary(Binary::Sub, self.tensor(), other.tensor())?;
        let rule: Rule = RuleOf::Sub(
            self.is_tracked(),
            other.is_tracked(),
            self.shape().clone(),
            other.shape().clone(),
        );
        Ok(Var::record(s, value, &on2(self, other), rule))
    }

    /// Elementwise product with broadcasting.
    pub fn mul(&self, s: &mut Session, other: &Self) -> (r: Result<Self, Error>)
        ensures
            var::did(r, old(s)@, final(s)@, binary_op(old(s)@, Binary::Mul, self@, other@)),
    {
        let value = Tensor::binary(Binary::Mul, self.tensor(), other.tensor())?;
        let rule: Rule = RuleOf::Mul(
            self.is_tracked(),
            other.is_tracked(),
            self.tensor().clone(),
            other.tensor().clone(),
        );
        Ok(Var::record(s, value, &on2(self, other), rule))
    }

    /// Elementwise quotient with broadcasting.
    pub fn div(&self, s: &mut Session, other: &Self) -> (r: Result<Self, Error>)
        ensures
            var::did(r, old(s)@, final(s)@, binary_op(old(s)@, Binary::Div, self@, other@)),
    {
        let value = Tensor::binary(Binary::Div, self.tensor(), other.tensor())?;
        let rule: Rule = RuleOf::Div(
            self.is_tracked(),
            other.is_tracked(),
            self.tensor().clone(),
            other.tensor().clone(),
        );
        Ok(Var::record(s, value, &on2(self, other), rule))
    }

    /// Elementwise maximum with broadcasting.
    pub fn maximum(&self, s: &mut Session, other: &Self) -> (r: Result<Self, Error>)
        ensures
            var::did(r, old(s)@, final(s)@, binary_op(old(s)@, Binary::Maximum, self@, other@)),
    {
        let value = Tensor::binary(Binary::Maximum, self.tensor(), other.tensor())?;
        let rule: Rule = RuleOf::Maximum(self.tensor().clone(), other.tensor().clone());
        Ok(Var::record(s, value, &on2(self, other), rule))
    }

    /// Batched matrix product with leading-dimension broadcasting.
    pub fn matmul(&self, s: &mut Session, other: &Self) -> (r: Result<Self, Error>)
        ensures
            var::did(r, old(s)@, final(s)@, product_op(old(s)@, Product::Plain, self@, other@)),
    {
        let value = Tensor::product(Product::Plain, self.tensor(), other.tensor())?;
        let rule: Rule = RuleOf::MatMul(
            self.is_tracked(),
            other.is_tracked(),
            self.tensor().clone(),
            other.tensor().clone(),
        );
        Ok(Var::record(s, value, &on2(self, other), rule))
    }

    /// `self` times `other` transposed, contracting the trailing axis of both.
    pub fn matmul_nt(&self, s: &mut Session, other: &Self) -> (r: Result<Self, Error>)
        ensures
            var::did(
                r,
                old(s)@,
                final(s)@,
                product_op(old(s)@, Product::RightTransposed, self@, other@),
            ),
    {
        let value = Tensor::product(Product::RightTransposed, self.tensor(), other.tensor())?;
        let rule: Rule = RuleOf::MatMulNt(
            self.is_tracked(),
            other.is_tracked(),
            self.tensor().clone(),
            other.tensor().clone(),
        );
        Ok(Var::record(s, value, &on2(self, other), rule))
    }

    // -- reductions ------------------------------------------------------------------

    /// Sum along `axis`, keeping it with size 1.
    pub fn sum_dim(&self, s: &mut Session, axis: usize) -> (r: Result<Self, Error>)
        ensures
            var::did(r, old(s)@, final(s)@, reduce_op(old(s)@, Reduce::Sum, self@, axis)),
    {
        let value = self.tensor().reduce(Reduce::Sum, axis)?;
        let rule: Rule = RuleOf::ExpandTo(self.shape().clone());
        Ok(Var::record(s, value, &on(self), rule))
    }

    /// Mean along `axis`, keeping it with size 1.
    pub fn mean_dim(&self, s: &mut Session, axis: usize) -> (r: Result<Self, Error>)
        ensures
            var::did(r, old(s)@, final(s)@, reduce_op(old(s)@, Reduce::Mean, self@, axis)),
    {
        let value = self.tensor().reduce(Reduce::Mean, axis)?;
        let rule: Rule = RuleOf::MeanDim(self.shape().clone(), self.shape().dim(axis));
        Ok(Var::record(s, value, &on(self), rule))
    }

    /// Maximum along `axis`, keeping it with size 1. Ties share the gradient.
    pub fn max_dim(&self, s: &mut Session, axis: usize) -> (r: Result<Self, Error>)
        ensures
            var::did(r, old(s)@, final(s)@, reduce_op(old(s)@, Reduce::Max, self@, axis)),
    {
        let value = self.tensor().reduce(Reduce::Max, axis)?;
        let rule: Rule = RuleOf::MaxDim(axis, self.tensor().clone(), value.clone());
        Ok(Var::record(s, value, &on(self), rule))
    }

    /// Sum of every element, as a rank-0 value.
    pub fn sum(&self, s: &mut Session) -> (r: Self)
        ensures
            (final(s)@, r@) == sum_op(old(s)@, self@),
    {
        let value = self.tensor().sum_all();
        let rule: Rule = RuleOf::ExpandTo(self.shape().clone());
        Var::record(s, value, &on(self), rule)
    }

    /// Mean of every element, as a rank-0 value.
    pub fn mean(&self, s: &mut Session) -> (r: Result<Self, Error>)
        ensures
            var::did(r, old(s)@, final(s)@, mean_op(old(s)@, self@)),
    {
        let n: usize = match self.shape().checked_elements() {
            Some(n) => n,
            None => {
                return Err(count_error(self.dims()));
            },
        };
        let count: u64 = if n == 0 {
            1
        } else {
            n as u64
        };
        let total = self.sum(s);
        Ok(total.pointwise(s, Unary::MulScalar(Scalar::Frac(1, count))))
    }

    // -- movement --------------------------------------------------------------------

    /// Reinterpret with a new shape.
    pub fn reshape(&self, s: &mut Session, shape: &Shape) -> (r: Result<Self, Error>)
        ensures
            var::did(r, old(s)@, final(s)@, reshape_op(old(s)@, self@, shape@)),
    {
        let value = self.tensor().reshape(shape)?;
        let rule: Rule = RuleOf::Reshape(self.shape().clone());
        Ok(Var::record(s, value, &on(self), rule))
    }

    /// Insert a size-1 axis.
    pub fn unsqueeze(&self, s: &mut Session, axis: usize) -> (r: Result<Self, Error>)
        requires
            axis <= self@.value.dims.len(),
        ensures
            var::did(
                r,
                old(s)@,
                final(s)@,
                reshape_op(old(s)@, self@, self@.value.dims.insert(axis as int, 1usize)),
            ),
    {
        let target = self.shape().unsqueezed(axis);
        self.reshape(s, &target)
    }

    /// Remove a size-1 axis.
    pub fn squeeze(&self, s: &mut Session, axis: usize) -> (r: Result<Self, Error>)
        requires
            axis < self@.value.dims.len(),
        ensures
            var::did(r, old(s)@, final(s)@, squeeze_op(old(s)@, self@, axis)),
    {
        if self.shape().dim(axis) != 1 {
            return Err(squeeze_error(axis, self.dims()));
        }
        let target = self.shape().without(axis);
        self.reshape(s, &target)
    }

    /// Sum along `axis` and remove it.
    pub fn sum_away(&self, s: &mut Session, axis: usize) -> (r: Result<Self, Error>)
        ensures
            same_value(r, final(s)@, sum_away_op(old(s)@, self@, axis)),
    {
        broadcast use var::lemma_record_value;

        let v = self.sum_dim(s, axis)?;
        v.squeeze(s, axis)
    }

    /// The logarithm of the sum of exponentials along `axis`, which stays with extent
    /// one so that it broadcasts back.
    pub fn logsumexp(&self, s: &mut Session, axis: usize) -> (r: Result<Self, Error>)
        ensures
            same_value(r, final(s)@, logsumexp_op(old(s)@, self@, axis)),
    {
        let top = self.max_dim(s, axis)?;
        let x = self.sub(s, &top)?;
        let e = x.exp(s);
        let d = e.sum_dim(s, axis)?;
        let l = d.log(s);
        l.add(s, &top)
    }

    /// Reorder axes.
    pub fn permute(&self, s: &mut Session, order: &Vec<usize>) -> (r: Result<Self, Error>)
        ensures
            var::did(r, old(s)@, final(s)@, permute_op(old(s)@, self@, order@)),
    {
        let value = self.tensor().permute(order)?;
        let rule: Rule = RuleOf::Permute(inverse(order));
        Ok(Var::record(s, value, &on(self), rule))
    }

    /// Swap the last two axes.
    pub fn transpose(&self, s: &mut Session) -> (r: Result<Self, Error>)
        requires
            self@.value.dims.len() >= 2,
        ensures
            var::did(
                r,
                old(s)@,
                final(s)@,
                permute_op(
                    old(s)@,
                    self@,
                    exchanged(
                        self@.value.dims.len(),
                        self@.value.dims.len() - 2,
                        self@.value.dims.len() - 1,
                    ),
                ),
            ),
    {
        let rank: usize = self.rank();
        self.swap_axes(s, rank - 2, rank - 1)
    }

    /// Swap two axes.
    pub fn swap_axes(&self, s: &mut Session, a: usize, b: usize) -> (r: Result<Self, Error>)
        requires
            a < self@.value.dims.len(),
            b < self@.value.dims.len(),
        ensures
            var::did(
                r,
                old(s)@,
                final(s)@,
                permute_op(
                    old(s)@,
                    self@,
                    exchanged(self@.value.dims.len(), a as int, b as int),
                ),
            ),
    {
        let mut order = axes(self.rank());
        order.set(a, b);
        order.set(b, a);
        proof {
            assert(order@ =~= exchanged(self@.value.dims.len(), a as int, b as int));
        }
        self.permute(s, &order)
    }

    /// Broadcast to a larger shape.
    pub fn expand(&self, s: &mut Session, target: &Shape) -> (r: Result<Self, Error>)
        ensures
            var::did(r, old(s)@, final(s)@, expand_op(old(s)@, self@, target@)),
    {
        let value = self.tensor().expand(target)?;
        let rule: Rule = RuleOf::ReduceTo(self.shape().clone());
        Ok(Var::record(s, value, &on(self), rule))
    }

    /// Reverse along `axis`.
    pub fn flip(&self, s: &mut Session, axis: usize) -> (r: Result<Self, Error>)
        ensures
            var::did(r, old(s)@, final(s)@, flip_op(old(s)@, self@, axis)),
    {
        let value = self.tensor().flip(axis)?;
        Ok(Var::record(s, value, &on(self), RuleOf::Flip(axis)))
    }

    /// Take `len` entries starting at `start` along `axis`. A slice that covers the
    /// whole axis is the value itself.
    pub fn slice(&self, s: &mut Session, axis: usize, start: usize, len: usize) -> (r: Result<
        Self,
        Error,
    >)
        requires
            axis < self@.value.dims.len(),
        ensures
            var::did(r, old(s)@, final(s)@, slice_op(old(s)@, self@, axis, start, len)),
    {
        if start == 0 && len == self.shape().dim(axis) {
            return Ok(self.clone());
        }
        let value = self.tensor().slice(axis, start, len)?;
        let rule: Rule = RuleOf::Slice(self.shape().clone(), axis, start);
        Ok(Var::record(s, value, &on(self), rule))
    }

    /// Cut `axis` into consecutive pieces with the given sizes.
    ///
    /// Equivalent to one [`Var::slice`] per piece, and much cheaper to differentiate:
    /// the pieces tile the axis, so the gradient of the whole is the concatenation of
    /// the pieces' gradients. The assembly happens in a source node created before
    /// the pieces, so that it is visited after every piece has left its band; a piece
    /// that receives no gradient leaves a zero band.
    pub fn split(&self, s: &mut Session, sizes: &Vec<usize>, axis: usize) -> (r: Result<
        Vec<Self>,
        Error,
    >)
        ensures
            match (r, split_op(old(s)@, self@, sizes@, axis)) {
                (Ok(v), Ok((t, x))) => traced(v@) == x && final(s)@ == t,
                (Err(e), Err(f)) => e@ == f && final(s)@ == old(s)@,
                _ => false,
            },
    {
        let values = self.tensor().split(sizes, axis)?;
        let ghost want = tensor::values(values@);
        let count: usize = values.len();
        proof {
            assert(want.len() == values@.len());
        }
        if count == 1 {
            let mut out: Vec<Var> = Vec::new();
            out.push(self.clone());
            proof {
                assert(traced(out@) =~= seq![self@]);
            }
            return Ok(out);
        }
        if count == 0 || !self.is_tracked() || !s.enabled() {
            let mut out: Vec<Var> = Vec::with_capacity(count);
            let ghost goal = want.map_values(|v: Value| untracked(v));
            let mut i: usize = 0;
            while i < count
                invariant
                    i <= count,
                    count == values@.len(),
                    want == tensor::values(values@),
                    goal == want.map_values(|v: Value| untracked(v)),
                    traced(out@) == goal.take(i as int),
                decreases count - i,
            {
                let ghost before = traced(out@);
                out.push(Var::constant(values[i].clone()));
                proof {
                    assert(traced(out@) =~= before.push(untracked(values@[i as int]@)));
                    assert(goal.take(i as int + 1) =~= goal.take(i as int).push(goal[i as int]));
                }
                i += 1;
            }
            proof {
                assert(goal.take(count as int) =~= goal);
            }
            return Ok(out);
        }
        let mut none: Vec<usize> = Vec::new();
        none.push(0);
        proof {
            assert(none@ =~= seq![0usize]);
        }
        let token = Tensor::empty(Shape::new(none));
        let rule: Rule = RuleOf::SplitSink(
            self.shape().clone(),
            Shape::new(crate::shape::copied(sizes)),
            axis,
        );
        let sink = Var::record(s, token, &on(self), rule);
        let ghost base = s@;
        let mut out: Vec<Var> = Vec::with_capacity(count);
        let mut i: usize = 0;
        proof {
            assert(traced(out@) =~= Seq::<Traced>::empty());
        }
        while i < count
            invariant
                i <= count,
                count == values@.len(),
                want == tensor::values(values@),
                want.len() == count,
                (s@, traced(out@)) == pieces_op(base, sink@, want, i as nat),
            decreases count - i,
        {
            let ghost before = traced(out@);
            proof {
                assert(want[i as int] == values@[i as int]@);
            }
            let piece = Var::record(
                s,
                values[i].clone(),
                &on(&sink),
                RuleOf::SplitPiece(i, count),
            );
            out.push(piece);
            proof {
                assert(traced(out@) =~= before.push(piece@));
            }
            i += 1;
        }
        Ok(out)
    }

    /// Shift by one step along `axis`, filling the first slot with zeros.
    pub fn shift_right(&self, s: &mut Session, axis: usize) -> (r: Result<Self, Error>)
        requires
            axis < self@.value.dims.len(),
        ensures
            match (r, shift_right_op(old(s)@, self@, axis)) {
                (Ok(v), Ok((t, x))) => v@ == x && final(s)@ == t,
                (Err(e), Err(f)) => e@ == f,
                _ => false,
            },
    {
        let len: usize = self.shape().dim(axis);
        if len == 0 {
            return Ok(self.clone());
        }
        let head = self.slice(s, axis, 0, len - 1)?;
        let zeros = Var::constant(Tensor::zeros(self.shape().with_dim(axis, 1)));
        let mut parts: Vec<Var> = Vec::new();
        parts.push(zeros);
        parts.push(head);
        proof {
            assert(traced(parts@) =~= seq![zeros@, head@]);
        }
        cat(s, &parts, axis)
    }

    /// For each row, select the element named by an id.
    pub fn take_along_last(&self, s: &mut Session, ids: &IdTensor) -> (r: Result<Self, Error>)
        ensures
            var::did(r, old(s)@, final(s)@, take_op(old(s)@, self@, ids@)),
    {
        let value = self.tensor().take_along_last(ids)?;
        let rule: Rule = RuleOf::TakeAlongLast(ids.clone(), self.shape().dim_from_end(0));
        Ok(Var::record(s, value, &on(self), rule))
    }

    /// Inclusive prefix sum along `axis`.
    pub fn cumsum(&self, s: &mut Session, axis: usize) -> (r: Result<Self, Error>)
        ensures
            var::did(r, old(s)@, final(s)@, cumsum_op(old(s)@, self@, axis)),
    {
        let value = self.tensor().scan(Scan::Inclusive, axis)?;
        Ok(Var::record(s, value, &on(self), RuleOf::CumSum(axis)))
    }

    /// Exclusive prefix sum along `axis`.
    pub fn cumsum_exclusive(&self, s: &mut Session, axis: usize) -> (r: Result<Self, Error>)
        ensures
            var::did(r, old(s)@, final(s)@, cumsum_exclusive_op(old(s)@, self@, axis)),
    {
        let value = self.tensor().scan(Scan::Exclusive, axis)?;
        Ok(Var::record(s, value, &on(self), RuleOf::CumSumExclusive(axis)))
    }

    // -- composed activations ----------------------------------------------------------

    /// `x * sigmoid(x)`, one primitive at a time.
    pub fn silu_composed(&self, s: &mut Session) -> (r: Result<Self, Error>)
        ensures
            same_value(r, final(s)@, silu_composed_op(old(s)@, self@)),
    {
        let gate = self.sigmoid(s);
        self.mul(s, &gate)
    }

    /// `ln(1 + exp(x))`, one primitive at a time.
    pub fn softplus_composed(&self, s: &mut Session) -> (r: Result<Self, Error>)
        ensures
            same_value(r, final(s)@, softplus_composed_op(old(s)@, self@)),
    {
        let v1 = self.abs(s);
        let v2 = v1.neg(s);
        let v3 = v2.exp(s);
        let v4 = v3.add_scalar(s, Scalar::Int(1));
        let v5 = v4.log(s);
        let v6 = self.relu(s);
        v6.add(s, &v5)
    }

    /// Exact GELU via the error function.
    pub fn gelu(&self, s: &mut Session) -> (r: Result<Self, Error>)
        ensures
            same_value(r, final(s)@, gelu_op(old(s)@, self@)),
    {
        let v1 = self.mul_scalar(s, Scalar::InvSqrt(2));
        let v2 = v1.erf(s);
        let v3 = v2.add_scalar(s, Scalar::Int(1));
        let v4 = v3.mul_scalar(s, Scalar::Frac(1, 2));
        self.mul(s, &v4)
    }

    fn shifted(&self, s: &mut Session, axis: usize) -> (r: Result<Self, Error>)
        ensures
            same_value(r, final(s)@, shifted_op(old(s)@, self@, axis)),
    {
        let m = self.max_dim(s, axis)?;
        self.sub(s, &m.detach())
    }

    /// Softmax along `axis`. The maximum it shifts by is a constant, so the adjoint is
    /// exact without routing a gradient through it.
    pub fn softmax(&self, s: &mut Session, axis: usize) -> (r: Result<Self, Error>)
        ensures
            same_value(r, final(s)@, softmax_op(old(s)@, self@, axis)),
    {
        let x = self.shifted(s, axis)?;
        let e = x.exp(s);
        let d = e.sum_dim(s, axis)?;
        e.div(s, &d)
    }

    /// Log-softmax along `axis`.
    pub fn log_softmax(&self, s: &mut Session, axis: usize) -> (r: Result<Self, Error>)
        ensures
            same_value(r, final(s)@, log_softmax_op(old(s)@, self@, axis)),
    {
        let x = self.shifted(s, axis)?;
        let e = x.exp(s);
        let d = e.sum_dim(s, axis)?;
        let l = d.log(s);
        x.sub(s, &l)
    }
}

/// Whether a chain of operations did what a mathematical one says. A failure part of
/// the way leaves what was recorded before it.
pub open spec fn same_value(
    r: Result<Var, Error>,
    after: Tape,
    want: Result<(Tape, Traced), Fault>,
) -> bool {
    match (r, want) {
        (Ok(v), Ok((t, x))) => v@ == x && after == t,
        (Err(e), Err(f)) => e@ == f,
        _ => false,
    }
}

/// Concatenate along `axis`.
pub fn cat(s: &mut Session, parts: &Vec<Var>, axis: usize) -> (r: Result<Var, Error>)
    ensures
        var::did(r, old(s)@, final(s)@, cat_op(old(s)@, traced(parts@), axis)),
{
    if parts.len() == 0 {
        return Err(Error::shape("cat needs at least one value"));
    }
    let ghost all = traced(parts@);
    let ghost vs = plain_values(all);
    let mut tensors: Vec<Tensor> = Vec::with_capacity(parts.len());
    let mut seats: Vec<Option<Trace>> = Vec::with_capacity(parts.len());
    let mut i: usize = 0;
    while i < parts.len()
        invariant
            i <= parts.len(),
            all == traced(parts@),
            vs == plain_values(all),
            tensor::values(tensors@) == vs.take(i as int),
            var::places(seats@) == all_places(all).take(i as int),
        decreases parts.len() - i,
    {
        let ghost before = tensor::values(tensors@);
        let ghost had = var::places(seats@);
        tensors.push(parts[i].tensor().clone());
        seats.push(parts[i].trace());
        proof {
            assert(tensor::values(tensors@) =~= before.push(parts@[i as int]@.value));
            assert(vs.take(i as int + 1) =~= vs.take(i as int).push(vs[i as int]));
            assert(var::places(seats@) =~= had.push(parts@[i as int]@.trace));
            assert(all_places(all).take(i as int + 1) =~= all_places(all).take(i as int).push(
                all_places(all)[i as int],
            ));
        }
        i += 1;
    }
    proof {
        assert(vs.take(parts@.len() as int) =~= vs);
        assert(all_places(all).take(parts@.len() as int) =~= all_places(all));
    }
    let value = Tensor::cat(&tensors, axis)?;
    let mut sizes: Vec<usize> = Vec::with_capacity(parts.len());
    let mut k: usize = 0;
    while k < parts.len()
        invariant
            k <= parts.len(),
            all == traced(parts@),
            vs == plain_values(all),
            tensor::stacks(vs, axis),
            sizes@ == tensor::extents(vs, axis).take(k as int),
        decreases parts.len() - k,
    {
        proof {
            assert(vs[k as int] == parts@[k as int]@.value);
            assert(vs[k as int].dims.len() == vs[0].dims.len());
        }
        sizes.push(parts[k].shape().dim(axis));
        proof {
            assert(sizes@ =~= tensor::extents(vs, axis).take(k as int + 1));
        }
        k += 1;
    }
    proof {
        assert(sizes@ =~= tensor::extents(vs, axis));
    }
    let rule: Rule = RuleOf::Cat(axis, Shape::new(sizes));
    Ok(Var::record(s, value, &seats, rule))
}

/// Sum a list of values elementwise.
pub fn sum_all_vars(s: &mut Session, parts: &Vec<Var>) -> (r: Result<Var, Error>)
    ensures
        same_value(r, final(s)@, sum_vars_op(old(s)@, traced(parts@), parts@.len())),
{
    if parts.len() == 0 {
        return Err(Error::shape("sum of an empty list"));
    }
    let ghost all = traced(parts@);
    let ghost start = s@;
    let mut acc = parts[0].clone();
    let mut i: usize = 1;
    while i < parts.len()
        invariant
            1 <= i <= parts.len(),
            all == traced(parts@),
            start == old(s)@,
            sum_vars_op(start, all, i as nat) == Ok::<(Tape, Traced), Fault>((s@, acc@)),
        decreases parts.len() - i,
    {
        proof {
            assert(all[i as int] == parts@[i as int]@);
        }
        match acc.add(s, &parts[i]) {
            Ok(next) => {
                acc = next;
            },
            Err(e) => {
                proof {
                    lemma_sum_failed(start, all, i as nat + 1, parts@.len());
                }
                return Err(e);
            },
        }
        i += 1;
    }
    Ok(acc)
}

proof fn lemma_sum_failed(t: Tape, parts: Seq<Traced>, low: nat, high: nat)
    requires
        1 <= low <= high,
        sum_vars_op(t, parts, low) is Err,
    ensures
        sum_vars_op(t, parts, high) == sum_vars_op(t, parts, low),
    decreases high,
{
    if low < high {
        lemma_sum_failed(t, parts, low, (high - 1) as nat);
    }
}

/// Look up rows of an embedding table.
pub fn embedding(s: &mut Session, table: &Var, ids: &IdTensor) -> (r: Result<Var, Error>)
    ensures
        var::did(r, old(s)@, final(s)@, embedding_op(old(s)@, table@, ids@)),
{
    let value = table.tensor().gather_rows(ids)?;
    let rule: Rule = RuleOf::Embedding(
        ids.clone(),
        table.shape().dim(0),
        table.shape().dim(1),
    );
    Ok(Var::record(s, value, &on(table), rule))
}

/// An order followed by its inverse leaves every axis where it was.
pub proof fn law_permute_undone(dims: Seq<usize>, order: Seq<usize>)
    requires
        tensor::is_order(order, dims.len()),
        dims.len() <= usize::MAX,
    ensures
        tensor::is_order(inverse_of(order), dims.len()),
        tensor::permuted(tensor::permuted(dims, order), inverse_of(order)) == dims,
{
    lemma_order_onto(order, dims.len());
    let inv = inverse_of(order);
    assert forall|v: int| 0 <= v < dims.len() implies (#[trigger] inv[v]) < dims.len()
        && order[inv[v] as int] == v by {
        assert(names(order, v));
    }
    assert forall|a: int, b: int| 0 <= a < inv.len() && 0 <= b < inv.len() && a
        != b implies inv[a] != inv[b] by {
        assert(order[inv[a] as int] == a);
        assert(order[inv[b] as int] == b);
    }
    assert(tensor::permuted(tensor::permuted(dims, order), inv) =~= dims);
}

/// The bands of a split tile the full shape again: the gradient of the whole has the
/// shape of the whole, whichever pieces received a gradient.
pub proof fn law_split_bands_tile(
    full: Seq<usize>,
    sizes: Seq<usize>,
    axis: usize,
    bands: Seq<Option<Value>>,
)
    requires
        tensor::tiles(full, sizes, axis),
        sizes.len() > 0,
        forall|i: int|
            0 <= i < sizes.len() && i < bands.len() && (#[trigger] bands[i]) is Some
                ==> bands[i]->0.dims == full.update(axis as int, sizes[i]),
    ensures
        tensor::cat_of(rule::bands_of(full, sizes, axis, bands), axis) matches Ok(v) && v.dims
            == full,
{
    let parts = rule::bands_of(full, sizes, axis, bands);
    assert forall|i: int| 0 <= i < parts.len() implies (#[trigger] parts[i]).dims == full.update(
        axis as int,
        sizes[i],
    ) by {}
    assert(tensor::extents(parts, axis) =~= sizes);
    assert forall|i: int| 0 <= i < parts.len() implies (#[trigger] parts[i]).dims.len()
        == parts[0].dims.len() && parts[i].dims.update(axis as int, 0usize)
        == parts[0].dims.update(axis as int, 0usize) by {
        assert(parts[i].dims.update(axis as int, 0usize) =~= parts[0].dims.update(
            axis as int,
            0usize,
        ));
    }
    assert(parts[0].dims.update(axis as int, full[axis as int]) =~= full);
}

} // verus!
