//! Tensors as descriptions: a shape and the term that computes it.
//!
//! Every operation checks the shapes it is given and says which term the result is.
//! Shapes whose element count does not fit a machine word are refused where the
//! count matters.

use std::sync::Arc;

use vstd::prelude::*;

use crate::error::{Error, Fault};
use crate::shape::{Shape, copied, same_list};
use crate::term::{
    Binary, Dims, Fused, Product, Reduce, Scalar, Scan, Term, Terms, Unary, dims_of, terms_of,
};
use crate::text::{append_bracketed, append_decimal};

verus! {



/// A tensor as a mathematical value.
pub struct Value {
    pub dims: Seq<usize>,
    pub term: Term,
}

/// A tensor: its shape and what computes it.
pub struct Tensor {
    shape: Shape,
    term: Arc<Term>,
}

impl View for Tensor {
    type V = Value;

    closed spec fn view(&self) -> Value {
        Value { dims: self.shape@, term: *self.term }
    }
}

impl Clone for Tensor {
    fn clone(&self) -> (r: Self)
        ensures
            r@ == self@,
    {
        Tensor { shape: self.shape.clone(), term: self.term.clone() }
    }
}

/// Integer ids as a mathematical value.
pub struct IdValue {
    pub dims: Seq<usize>,
    pub term: Term,
}

/// A tensor of integer ids the executor holds.
pub struct IdTensor {
    shape: Shape,
    term: Arc<Term>,
}

impl View for IdTensor {
    type V = IdValue;

    closed spec fn view(&self) -> IdValue {
        IdValue { dims: self.shape@, term: *self.term }
    }
}

impl Clone for IdTensor {
    fn clone(&self) -> (r: Self)
        ensures
            r@ == self@,
    {
        IdTensor { shape: self.shape.clone(), term: self.term.clone() }
    }
}

impl IdTensor {
    /// The ids the executor knows under `handle`.
    pub fn resident(handle: u64, shape: Shape) -> (r: Self)
        ensures
            r@ == (IdValue { dims: shape@, term: Term::Ids(handle) }),
    {
        IdTensor { shape, term: Arc::new(Term::Ids(handle)) }
    }

    /// Shape of the ids.
    pub fn shape(&self) -> (r: &Shape)
        ensures
            r@ == self@.dims,
    {
        &self.shape
    }

    /// Ids that a kernel computes from tensors.
    pub fn fused(op: Fused, args: &Vec<Tensor>, shape: Shape) -> (r: Self)
        ensures
            r@ == ids_of(op, values(args@), shape@),
    {
        let t = Tensor::fused(op, args, shape);
        IdTensor { shape: t.shape, term: t.term }
    }

    /// The ids as an operand among tensors.
    pub fn operand(&self) -> (r: Tensor)
        ensures
            r@ == id_operand(self@),
    {
        Tensor { shape: self.shape.clone(), term: self.term.clone() }
    }

    /// What computes the ids.
    pub fn term(&self) -> (r: &Arc<Term>)
        ensures
            **r == self@.term,
    {
        &self.term
    }
}

// -- shape rules -----------------------------------------------------------

pub open spec fn axis_message(axis: usize, dims: Seq<usize>) -> Seq<char> {
    "axis "@ + crate::text::decimal(axis as nat) + " is out of range for "@
        + crate::text::bracketed(dims)
}

/// A function applied to every element.
pub open spec fn unary_of(op: Unary, a: Value) -> Value {
    Value { dims: a.dims, term: crate::term::unary_term(op, a.term) }
}

/// A function applied to pairs of elements, broadcasting.
pub open spec fn binary_of(op: Binary, a: Value, b: Value) -> Result<Value, Fault> {
    match crate::shape::broadcast(a.dims, b.dims) {
        Ok(d) => Ok(Value { dims: d, term: crate::term::binary_term(op, a.term, b.term) }),
        Err(f) => Err(f),
    }
}

/// Whether `a` broadcasts to exactly `target`.
pub open spec fn expands(a: Seq<usize>, target: Seq<usize>) -> bool {
    crate::shape::compatible(a, target) && crate::shape::broadcast_dims(a, target) == target
}

pub open spec fn expand_message(a: Seq<usize>, target: Seq<usize>) -> Seq<char> {
    "cannot expand "@ + crate::text::bracketed(a) + " to "@ + crate::text::bracketed(target)
}

/// Broadcasting to a larger shape.
pub open spec fn expand_of(a: Value, target: Seq<usize>) -> Result<Value, Fault> {
    if expands(a.dims, target) {
        Ok(
            Value {
                dims: target,
                term: Term::Expand(crate::term::dims(target), Arc::new(a.term)),
            },
        )
    } else {
        Err(Fault::Shape(expand_message(a.dims, target)))
    }
}

pub open spec fn product_message(a: Seq<usize>, b: Seq<usize>) -> Seq<char> {
    "cannot multiply "@ + crate::text::bracketed(a) + " by "@ + crate::text::bracketed(b)
}

/// The axes before the last two.
pub open spec fn batch_dims(a: Seq<usize>) -> Seq<usize> {
    a.take(a.len() - 2)
}

/// Rows, inner extent and the right operand's view of both, by which operand is
/// transposed.
pub open spec fn rows_of(op: Product, a: Seq<usize>) -> usize {
    match op {
        Product::LeftTransposed => a[a.len() - 1],
        _ => a[a.len() - 2],
    }
}

pub open spec fn inner_left(op: Product, a: Seq<usize>) -> usize {
    match op {
        Product::LeftTransposed => a[a.len() - 2],
        _ => a[a.len() - 1],
    }
}

pub open spec fn inner_right(op: Product, b: Seq<usize>) -> usize {
    match op {
        Product::RightTransposed => b[b.len() - 1],
        _ => b[b.len() - 2],
    }
}

pub open spec fn cols_of(op: Product, b: Seq<usize>) -> usize {
    match op {
        Product::RightTransposed => b[b.len() - 2],
        _ => b[b.len() - 1],
    }
}

/// A batched matrix product: both operands have at least two axes, the contracted
/// extents agree and the leading axes broadcast.
pub open spec fn product_of(op: Product, a: Value, b: Value) -> Result<Value, Fault> {
    if a.dims.len() < 2 {
        Err(Fault::Rank { expected: 2, got: a.dims.len() as usize, shape: a.dims })
    } else if b.dims.len() < 2 {
        Err(Fault::Rank { expected: 2, got: b.dims.len() as usize, shape: b.dims })
    } else if inner_left(op, a.dims) != inner_right(op, b.dims) || !crate::shape::compatible(
        batch_dims(a.dims),
        batch_dims(b.dims),
    ) {
        Err(Fault::Shape(product_message(a.dims, b.dims)))
    } else {
        Ok(
            Value {
                dims: crate::shape::broadcast_dims(batch_dims(a.dims), batch_dims(b.dims)).push(
                    rows_of(op, a.dims),
                ).push(cols_of(op, b.dims)),
                term: Term::Product(op, Arc::new(a.term), Arc::new(b.term)),
            },
        )
    }
}

/// A reduction that keeps its axis with extent one.
pub open spec fn reduce_of(op: Reduce, a: Value, axis: usize) -> Result<Value, Fault> {
    if axis < a.dims.len() {
        Ok(
            Value {
                dims: a.dims.update(axis as int, 1usize),
                term: Term::Reduce(op, axis, Arc::new(a.term)),
            },
        )
    } else {
        Err(Fault::Shape(axis_message(axis, a.dims)))
    }
}

pub open spec fn sum_all_of(a: Value) -> Value {
    Value { dims: Seq::empty(), term: Term::SumAll(Arc::new(a.term)) }
}

/// The sum along an axis, which is then removed.
pub open spec fn sum_away_of(a: Value, axis: usize) -> Result<Value, Fault> {
    match reduce_of(Reduce::Sum, a, axis) {
        Err(f) => Err(f),
        Ok(v) => reshape_of(v, v.dims.remove(axis as int)),
    }
}

pub open spec fn scan_of(op: Scan, a: Value, axis: usize) -> Result<Value, Fault> {
    if axis < a.dims.len() {
        Ok(Value { dims: a.dims, term: Term::Scan(op, axis, Arc::new(a.term)) })
    } else {
        Err(Fault::Shape(axis_message(axis, a.dims)))
    }
}

pub open spec fn reshape_message(a: Seq<usize>, target: Seq<usize>) -> Seq<char> {
    "cannot reshape "@ + crate::text::bracketed(a) + " to "@ + crate::text::bracketed(target)
}

/// Whether two shapes hold the same, representable number of elements.
pub open spec fn reshapes(a: Seq<usize>, target: Seq<usize>) -> bool {
    crate::shape::fits(a) && crate::shape::product(a) == crate::shape::product(target)
}

pub open spec fn reshape_of(a: Value, target: Seq<usize>) -> Result<Value, Fault> {
    if reshapes(a.dims, target) {
        Ok(
            Value {
                dims: target,
                term: Term::Reshape(crate::term::dims(target), Arc::new(a.term)),
            },
        )
    } else {
        Err(Fault::Shape(reshape_message(a.dims, target)))
    }
}

/// Whether `order` lists every axis of a rank exactly once.
pub open spec fn is_order(order: Seq<usize>, rank: nat) -> bool {
    &&& order.len() == rank
    &&& forall|i: int| 0 <= i < rank ==> (#[trigger] order[i]) < rank
    &&& order.no_duplicates()
}

pub open spec fn permute_message(order: Seq<usize>, dims: Seq<usize>) -> Seq<char> {
    crate::text::bracketed(order) + " does not order the axes of "@ + crate::text::bracketed(dims)
}

pub open spec fn permuted(dims: Seq<usize>, order: Seq<usize>) -> Seq<usize> {
    Seq::new(order.len(), |i: int| dims[order[i] as int])
}

pub open spec fn permute_of(a: Value, order: Seq<usize>) -> Result<Value, Fault> {
    if is_order(order, a.dims.len()) {
        Ok(
            Value {
                dims: permuted(a.dims, order),
                term: Term::Permute(crate::term::dims(order), Arc::new(a.term)),
            },
        )
    } else {
        Err(Fault::Shape(permute_message(order, a.dims)))
    }
}

pub open spec fn flip_of(a: Value, axis: usize) -> Result<Value, Fault> {
    if axis < a.dims.len() {
        Ok(Value { dims: a.dims, term: Term::Flip(axis, Arc::new(a.term)) })
    } else {
        Err(Fault::Shape(axis_message(axis, a.dims)))
    }
}

pub open spec fn slice_message(axis: usize, start: usize, len: usize, dims: Seq<usize>) -> Seq<
    char,
> {
    "cannot take "@ + crate::text::decimal(len as nat) + " entries from "@ + crate::text::decimal(
        start as nat,
    ) + " along axis "@ + crate::text::decimal(axis as nat) + " of "@ + crate::text::bracketed(dims)
}

pub open spec fn slice_of(a: Value, axis: usize, start: usize, len: usize) -> Result<
    Value,
    Fault,
> {
    if axis < a.dims.len() && start + len <= a.dims[axis as int] {
        Ok(
            Value {
                dims: a.dims.update(axis as int, len),
                term: Term::Slice(axis, start, len, Arc::new(a.term)),
            },
        )
    } else {
        Err(Fault::Shape(slice_message(axis, start, len, a.dims)))
    }
}

/// The adjoint of a slice: a zero buffer of the full shape with one band written.
pub open spec fn unslice_of(a: Value, full: Seq<usize>, axis: usize, start: usize) -> Value {
    Value {
        dims: full,
        term: Term::Unslice(crate::term::dims(full), axis, start, Arc::new(a.term)),
    }
}

/// The sum of a list of extents.
pub open spec fn total(s: Seq<usize>) -> nat
    decreases s.len(),
{
    if s.len() == 0 {
        0
    } else {
        total(s.drop_last()) + s.last() as nat
    }
}

pub open spec fn split_message(sizes: Seq<usize>, axis: usize, dims: Seq<usize>) -> Seq<char> {
    "sizes "@ + crate::text::bracketed(sizes) + " do not tile axis "@ + crate::text::decimal(
        axis as nat,
    ) + " of "@ + crate::text::bracketed(dims)
}

/// Where piece `i` of a split begins.
pub open spec fn offset(sizes: Seq<usize>, i: int) -> nat {
    total(sizes.take(i))
}

/// Piece `i` of a split.
pub open spec fn piece(a: Value, sizes: Seq<usize>, axis: usize, i: int) -> Value {
    Value {
        dims: a.dims.update(axis as int, sizes[i]),
        term: Term::Slice(axis, offset(sizes, i) as usize, sizes[i], Arc::new(a.term)),
    }
}

/// Whether the sizes tile an axis.
pub open spec fn tiles(dims: Seq<usize>, sizes: Seq<usize>, axis: usize) -> bool {
    axis < dims.len() && total(sizes) == dims[axis as int]
}

/// Consecutive pieces along an axis.
pub open spec fn split_of(a: Value, sizes: Seq<usize>, axis: usize) -> Result<Seq<Value>, Fault> {
    if tiles(a.dims, sizes, axis) {
        Ok(Seq::new(sizes.len(), |i: int| piece(a, sizes, axis, i)))
    } else {
        Err(Fault::Shape(split_message(sizes, axis, a.dims)))
    }
}

/// The extents of a list of values along one axis.
pub open spec fn extents(parts: Seq<Value>, axis: usize) -> Seq<usize> {
    parts.map_values(|v: Value| v.dims[axis as int])
}

/// Whether values can be laid end to end along an axis: every other extent agrees,
/// and the result's extent is representable.
pub open spec fn stacks(parts: Seq<Value>, axis: usize) -> bool {
    &&& parts.len() > 0
    &&& axis < parts[0].dims.len()
    &&& forall|i: int|
        0 <= i < parts.len() ==> (#[trigger] parts[i]).dims.len() == parts[0].dims.len()
            && parts[i].dims.update(axis as int, 0usize) == parts[0].dims.update(axis as int, 0usize)
    &&& total(extents(parts, axis)) <= usize::MAX
}

pub open spec fn cat_message(axis: usize) -> Seq<char> {
    "values cannot be concatenated along axis "@ + crate::text::decimal(axis as nat)
}

pub open spec fn cat_of(parts: Seq<Value>, axis: usize) -> Result<Value, Fault> {
    if stacks(parts, axis) {
        Ok(
            Value {
                dims: parts[0].dims.update(
                    axis as int,
                    total(extents(parts, axis)) as usize,
                ),
                term: Term::Cat(
                    axis,
                    Arc::new(crate::term::terms(parts.map_values(|v: Value| v.term))),
                ),
            },
        )
    } else {
        Err(Fault::Shape(cat_message(axis)))
    }
}

pub open spec fn index_message(a: Seq<usize>, ids: Seq<usize>) -> Seq<char> {
    "ids of shape "@ + crate::text::bracketed(ids) + " do not index "@ + crate::text::bracketed(a)
}

/// For each row, the element an id names; one id per row.
pub open spec fn take_along_last_of(a: Value, ids: IdValue) -> Result<Value, Fault> {
    if a.dims.len() > 0 && ids.dims == a.dims.drop_last() {
        Ok(
            Value {
                dims: ids.dims,
                term: Term::TakeAlongLast(Arc::new(a.term), Arc::new(ids.term)),
            },
        )
    } else {
        Err(Fault::Shape(index_message(a.dims, ids.dims)))
    }
}

pub open spec fn one_hot_of(ids: IdValue, width: usize) -> Value {
    Value { dims: ids.dims.push(width), term: Term::OneHot(width, Arc::new(ids.term)) }
}

/// Rows of a two-axis table, one per id.
pub open spec fn gather_rows_of(table: Value, ids: IdValue) -> Result<Value, Fault> {
    if table.dims.len() != 2 {
        Err(Fault::Rank { expected: 2, got: table.dims.len() as usize, shape: table.dims })
    } else {
        Ok(
            Value {
                dims: ids.dims.push(table.dims[1]),
                term: Term::GatherRows(Arc::new(table.term), Arc::new(ids.term)),
            },
        )
    }
}

/// Rows added into a table of `rows` rows, one per id.
pub open spec fn scatter_add_rows_of(flat: Value, ids: IdValue, rows: usize) -> Result<
    Value,
    Fault,
> {
    if flat.dims.len() != 2 {
        Err(Fault::Rank { expected: 2, got: flat.dims.len() as usize, shape: flat.dims })
    } else if crate::shape::product(ids.dims) != flat.dims[0] {
        Err(Fault::Shape(index_message(flat.dims, ids.dims)))
    } else {
        Ok(
            Value {
                dims: seq![rows, flat.dims[1]],
                term: Term::ScatterAddRows(rows, Arc::new(flat.term), Arc::new(ids.term)),
            },
        )
    }
}

pub open spec fn fill_of(s: Scalar, dims: Seq<usize>) -> Value {
    Value { dims, term: Term::Fill(s, crate::term::dims(dims)) }
}

pub open spec fn empty_of(dims: Seq<usize>) -> Value {
    Value { dims, term: Term::Empty(crate::term::dims(dims)) }
}

/// A kernel of several operands; its result's shape is given.
pub open spec fn fused_of(op: Fused, args: Seq<Value>, dims: Seq<usize>) -> Value {
    Value { dims, term: crate::term::fused_term(op, dims, args.map_values(|v: Value| v.term)) }
}

/// Ids that a kernel computes.
pub open spec fn ids_of(op: Fused, args: Seq<Value>, dims: Seq<usize>) -> IdValue {
    IdValue { dims, term: fused_of(op, args, dims).term }
}

/// Ids as an operand among tensors.
pub open spec fn id_operand(ids: IdValue) -> Value {
    Value { dims: ids.dims, term: ids.term }
}

// -- errors ----------------------------------------------------------------

fn axis_error(axis: usize, dims: &Vec<usize>) -> (e: Error)
    ensures
        e@ == Fault::Shape(axis_message(axis, dims@)),
{
    let mut text = String::new();
    text.append("axis ");
    append_decimal(&mut text, axis as u64);
    text.append(" is out of range for ");
    append_bracketed(&mut text, dims);
    proof {
        assert(text@ =~= axis_message(axis, dims@));
    }
    Error::Shape(text)
}

fn pair_error(head: &str, a: &Vec<usize>, middle: &str, b: &Vec<usize>) -> (e: Error)
    ensures
        e@ == Fault::Shape(
            head@ + crate::text::bracketed(a@) + middle@ + crate::text::bracketed(b@),
        ),
{
    let mut text = String::new();
    text.append(head);
    append_bracketed(&mut text, a);
    text.append(middle);
    append_bracketed(&mut text, b);
    proof {
        assert(text@ =~= head@ + crate::text::bracketed(a@) + middle@ + crate::text::bracketed(b@));
    }
    Error::Shape(text)
}

fn slice_error(axis: usize, start: usize, len: usize, dims: &Vec<usize>) -> (e: Error)
    ensures
        e@ == Fault::Shape(slice_message(axis, start, len, dims@)),
{
    let mut text = String::new();
    text.append("cannot take ");
    append_decimal(&mut text, len as u64);
    text.append(" entries from ");
    append_decimal(&mut text, start as u64);
    text.append(" along axis ");
    append_decimal(&mut text, axis as u64);
    text.append(" of ");
    append_bracketed(&mut text, dims);
    proof {
        assert(text@ =~= slice_message(axis, start, len, dims@));
    }
    Error::Shape(text)
}

fn split_error(sizes: &Vec<usize>, axis: usize, dims: &Vec<usize>) -> (e: Error)
    ensures
        e@ == Fault::Shape(split_message(sizes@, axis, dims@)),
{
    let mut text = String::new();
    text.append("sizes ");
    append_bracketed(&mut text, sizes);
    text.append(" do not tile axis ");
    append_decimal(&mut text, axis as u64);
    text.append(" of ");
    append_bracketed(&mut text, dims);
    proof {
        assert(text@ =~= split_message(sizes@, axis, dims@));
    }
    Error::Shape(text)
}

fn cat_error(axis: usize) -> (e: Error)
    ensures
        e@ == Fault::Shape(cat_message(axis)),
{
    let mut text = String::new();
    text.append("values cannot be concatenated along axis ");
    append_decimal(&mut text, axis as u64);
    proof {
        assert(text@ =~= cat_message(axis));
    }
    Error::Shape(text)
}

fn permute_error(order: &Vec<usize>, dims: &Vec<usize>) -> (e: Error)
    ensures
        e@ == Fault::Shape(permute_message(order@, dims@)),
{
    let mut text = String::new();
    append_bracketed(&mut text, order);
    text.append(" does not order the axes of ");
    append_bracketed(&mut text, dims);
    proof {
        assert(text@ =~= permute_message(order@, dims@));
    }
    Error::Shape(text)
}

// -- operations ------------------------------------------------------------

fn leading(list: &Vec<usize>, n: usize) -> (r: Vec<usize>)
    requires
        n <= list@.len(),
    ensures
        r@ == list@.take(n as int),
{
    let mut out: Vec<usize> = Vec::with_capacity(n);
    let mut i: usize = 0;
    while i < n
        invariant
            i <= n <= list@.len(),
            out@ == list@.take(i as int),
        decreases n - i,
    {
        out.push(list[i]);
        proof {
            assert(out@ =~= list@.take(i as int + 1));
        }
        i += 1;
    }
    out
}

/// Whether a list names every axis of a rank exactly once.
pub fn orders_axes(order: &Vec<usize>, rank: usize) -> (r: bool)
    ensures
        r == is_order(order@, rank as nat),
{
    if order.len() != rank {
        return false;
    }
    let mut seen: Vec<bool> = Vec::with_capacity(rank);
    let mut k: usize = 0;
    while k < rank
        invariant
            k <= rank,
            seen@.len() == k,
            forall|j: int| 0 <= j < k ==> !seen@[j],
        decreases rank - k,
    {
        seen.push(false);
        k += 1;
    }
    let mut i: usize = 0;
    while i < rank
        invariant
            i <= rank,
            order@.len() == rank,
            seen@.len() == rank,
            forall|j: int| 0 <= j < i ==> (#[trigger] order@[j]) < rank,
            forall|j: int, k: int| 0 <= j < k < i ==> order@[j] != order@[k],
            forall|v: int|
                0 <= v < rank ==> (#[trigger] seen@[v] <==> exists|j: int|
                    0 <= j < i && order@[j] == v),
        decreases rank - i,
    {
        let v: usize = order[i];
        if v >= rank {
            return false;
        }
        if seen[v] {
            proof {
                let j = choose|j: int| 0 <= j < i && order@[j] == v;
                assert(order@[j] == order@[i as int]);
            }
            return false;
        }
        let ghost before = seen@;
        seen.set(v, true);
        proof {
            assert forall|w: int| 0 <= w < rank implies (#[trigger] seen@[w] <==> exists|j: int|
                0 <= j < i + 1 && order@[j] == w) by {
                if w == v {
                    assert(order@[i as int] == w);
                } else {
                    assert(seen@[w] == before[w]);
                    if exists|j: int| 0 <= j < i + 1 && order@[j] == w {
                        let j = choose|j: int| 0 <= j < i + 1 && order@[j] == w;
                        assert(j != i);
                    }
                }
            }
            assert forall|j: int, k: int| 0 <= j < k < i + 1 implies order@[j] != order@[k] by {
                if k == i {
                    if order@[j] == order@[k] {
                        assert(before[v as int]);
                    }
                }
            }
        }
        i += 1;
    }
    true
}

/// The sum of a list of extents, or `None` when it does not fit a word.
pub fn checked_total(list: &Vec<usize>) -> (r: Option<usize>)
    ensures
        match r {
            Some(n) => n == total(list@),
            None => total(list@) > usize::MAX,
        },
{
    let mut sum: usize = 0;
    let mut i: usize = 0;
    while i < list.len()
        invariant
            i <= list.len(),
            sum == total(list@.take(i as int)),
        decreases list.len() - i,
    {
        proof {
            assert(list@.take(i as int + 1).drop_last() =~= list@.take(i as int));
        }
        match sum.checked_add(list[i]) {
            Some(next) => {
                sum = next;
            },
            None => {
                proof {
                    lemma_total_prefix(list@, i as int + 1);
                }
                return None;
            },
        }
        i += 1;
    }
    proof {
        assert(list@.take(list.len() as int) =~= list@);
    }
    Some(sum)
}

/// A prefix of a list sums to at most the whole.
pub proof fn lemma_total_prefix(s: Seq<usize>, k: int)
    requires
        0 <= k <= s.len(),
    ensures
        total(s.take(k)) <= total(s),
    decreases s.len(),
{
    if k < s.len() {
        lemma_total_prefix(s.drop_last(), k);
        assert(s.drop_last().take(k) =~= s.take(k));
    } else {
        assert(s.take(k) =~= s);
    }
}

impl Tensor {
    /// The tensor the executor knows under `handle`.
    pub fn resident(handle: u64, shape: Shape) -> (r: Self)
        ensures
            r@ == (Value { dims: shape@, term: Term::Input(handle) }),
    {
        Tensor { shape, term: Arc::new(Term::Input(handle)) }
    }

    /// A scalar filled into every element of a shape.
    pub fn fill(s: Scalar, shape: Shape) -> (r: Self)
        ensures
            r@ == fill_of(s, shape@),
    {
        let list = dims_of(shape.dims());
        Tensor { shape, term: Arc::new(Term::Fill(s, list)) }
    }

    /// Zeros.
    pub fn zeros(shape: Shape) -> (r: Self)
        ensures
            r@ == fill_of(Scalar::Int(0), shape@),
    {
        Tensor::fill(Scalar::Int(0), shape)
    }

    /// Ones.
    pub fn ones(shape: Shape) -> (r: Self)
        ensures
            r@ == fill_of(Scalar::Int(1), shape@),
    {
        Tensor::fill(Scalar::Int(1), shape)
    }

    /// A buffer nobody reads.
    pub fn empty(shape: Shape) -> (r: Self)
        ensures
            r@ == empty_of(shape@),
    {
        let list = dims_of(shape.dims());
        Tensor { shape, term: Arc::new(Term::Empty(list)) }
    }

    /// Shape of the tensor.
    pub fn shape(&self) -> (r: &Shape)
        ensures
            r@ == self@.dims,
    {
        &self.shape
    }

    /// Extents of the tensor.
    pub fn dims(&self) -> (r: &Vec<usize>)
        ensures
            r@ == self@.dims,
    {
        self.shape.dims()
    }

    /// Number of axes.
    pub fn rank(&self) -> (r: usize)
        ensures
            r == self@.dims.len(),
    {
        self.shape.rank()
    }

    /// What computes the tensor.
    pub fn term(&self) -> (r: &Arc<Term>)
        ensures
            **r == self@.term,
    {
        &self.term
    }

    /// Apply a function to every element.
    pub fn unary(&self, op: Unary) -> (r: Self)
        ensures
            r@ == unary_of(op, self@),
    {
        Tensor { shape: self.shape.clone(), term: Arc::new(Term::Unary(op, self.term.clone())) }
    }

    /// Apply a function to pairs of elements, broadcasting.
    pub fn binary(op: Binary, a: &Tensor, b: &Tensor) -> (r: Result<Self, Error>)
        ensures
            crate::error::agrees(r, binary_of(op, a@, b@)),
    {
        let shape = Shape::broadcast(&a.shape, &b.shape)?;
        Ok(Tensor { shape, term: Arc::new(Term::Binary(op, a.term.clone(), b.term.clone())) })
    }

    /// Broadcast to a larger shape.
    pub fn expand(&self, target: &Shape) -> (r: Result<Self, Error>)
        ensures
            crate::error::agrees(r, expand_of(self@, target@)),
    {
        match Shape::broadcast(&self.shape, target) {
            Ok(joint) => {
                if joint.same(target) {
                    return Ok(
                        Tensor {
                            shape: joint,
                            term: Arc::new(Term::Expand(dims_of(target.dims()), self.term.clone())),
                        },
                    );
                }
            },
            Err(_) => {},
        }
        Err(pair_error("cannot expand ", self.shape.dims(), " to ", target.dims()))
    }

    /// A batched matrix product.
    pub fn product(op: Product, a: &Tensor, b: &Tensor) -> (r: Result<Self, Error>)
        ensures
            crate::error::agrees(r, product_of(op, a@, b@)),
    {
        let ra: usize = a.rank();
        let rb: usize = b.rank();
        if ra < 2 {
            return Err(Error::Rank { expected: 2, got: ra, shape: copied(a.dims()) });
        }
        if rb < 2 {
            return Err(Error::Rank { expected: 2, got: rb, shape: copied(b.dims()) });
        }
        let (rows, inner_a): (usize, usize) = match op {
            Product::LeftTransposed => (a.shape.dim(ra - 1), a.shape.dim(ra - 2)),
            _ => (a.shape.dim(ra - 2), a.shape.dim(ra - 1)),
        };
        let (inner_b, cols): (usize, usize) = match op {
            Product::RightTransposed => (b.shape.dim(rb - 1), b.shape.dim(rb - 2)),
            _ => (b.shape.dim(rb - 2), b.shape.dim(rb - 1)),
        };
        let batch_a = Shape::new(leading(a.dims(), ra - 2));
        let batch_b = Shape::new(leading(b.dims(), rb - 2));
        if inner_a == inner_b {
            match Shape::broadcast(&batch_a, &batch_b) {
                Ok(batch) => {
                    let mut dims = copied(batch.dims());
                    dims.push(rows);
                    dims.push(cols);
                    return Ok(
                        Tensor {
                            shape: Shape::new(dims),
                            term: Arc::new(Term::Product(op, a.term.clone(), b.term.clone())),
                        },
                    );
                },
                Err(_) => {},
            }
        }
        Err(pair_error("cannot multiply ", a.dims(), " by ", b.dims()))
    }

    /// A reduction that keeps its axis with extent one.
    pub fn reduce(&self, op: Reduce, axis: usize) -> (r: Result<Self, Error>)
        ensures
            crate::error::agrees(r, reduce_of(op, self@, axis)),
    {
        if axis < self.rank() {
            Ok(
                Tensor {
                    shape: self.shape.with_dim(axis, 1),
                    term: Arc::new(Term::Reduce(op, axis, self.term.clone())),
                },
            )
        } else {
            Err(axis_error(axis, self.dims()))
        }
    }

    /// The sum of every element.
    pub fn sum_all(&self) -> (r: Self)
        ensures
            r@ == sum_all_of(self@),
    {
        Tensor { shape: Shape::scalar(), term: Arc::new(Term::SumAll(self.term.clone())) }
    }

    /// Sum along an axis and remove it.
    pub fn sum_away(&self, axis: usize) -> (r: Result<Self, Error>)
        ensures
            crate::error::agrees(r, sum_away_of(self@, axis)),
    {
        let v = self.reduce(Reduce::Sum, axis)?;
        v.reshape(&v.shape().without(axis))
    }

    /// A running sum along an axis.
    pub fn scan(&self, op: Scan, axis: usize) -> (r: Result<Self, Error>)
        ensures
            crate::error::agrees(r, scan_of(op, self@, axis)),
    {
        if axis < self.rank() {
            Ok(
                Tensor {
                    shape: self.shape.clone(),
                    term: Arc::new(Term::Scan(op, axis, self.term.clone())),
                },
            )
        } else {
            Err(axis_error(axis, self.dims()))
        }
    }

    /// Reinterpret with a new shape of as many elements.
    pub fn reshape(&self, target: &Shape) -> (r: Result<Self, Error>)
        ensures
            crate::error::agrees(r, reshape_of(self@, target@)),
    {
        match (self.shape.checked_elements(), target.checked_elements()) {
            (Some(n), Some(m)) => {
                if n == m {
                    return Ok(
                        Tensor {
                            shape: target.clone(),
                            term: Arc::new(
                                Term::Reshape(dims_of(target.dims()), self.term.clone()),
                            ),
                        },
                    );
                }
            },
            _ => {},
        }
        Err(pair_error("cannot reshape ", self.dims(), " to ", target.dims()))
    }

    /// Reorder axes: axis `i` of the result is axis `order[i]`.
    pub fn permute(&self, order: &Vec<usize>) -> (r: Result<Self, Error>)
        ensures
            crate::error::agrees(r, permute_of(self@, order@)),
    {
        if !orders_axes(order, self.rank()) {
            return Err(permute_error(order, self.dims()));
        }
        let mut dims: Vec<usize> = Vec::with_capacity(order.len());
        let mut i: usize = 0;
        while i < order.len()
            invariant
                i <= order.len(),
                is_order(order@, self@.dims.len()),
                dims@ == permuted(self@.dims, order@).take(i as int),
            decreases order.len() - i,
        {
            dims.push(self.shape.dim(order[i]));
            proof {
                assert(dims@ =~= permuted(self@.dims, order@).take(i as int + 1));
            }
            i += 1;
        }
        proof {
            assert(dims@ =~= permuted(self@.dims, order@));
        }
        Ok(
            Tensor {
                shape: Shape::new(dims),
                term: Arc::new(Term::Permute(dims_of(order), self.term.clone())),
            },
        )
    }

    /// Reverse along an axis.
    pub fn flip(&self, axis: usize) -> (r: Result<Self, Error>)
        ensures
            crate::error::agrees(r, flip_of(self@, axis)),
    {
        if axis < self.rank() {
            Ok(
                Tensor {
                    shape: self.shape.clone(),
                    term: Arc::new(Term::Flip(axis, self.term.clone())),
                },
            )
        } else {
            Err(axis_error(axis, self.dims()))
        }
    }

    /// Take `len` entries starting at `start` along an axis.
    pub fn slice(&self, axis: usize, start: usize, len: usize) -> (r: Result<Self, Error>)
        ensures
            crate::error::agrees(r, slice_of(self@, axis, start, len)),
    {
        if axis < self.rank() {
            let extent: usize = self.shape.dim(axis);
            if start <= extent && len <= extent - start {
                return Ok(
                    Tensor {
                        shape: self.shape.with_dim(axis, len),
                        term: Arc::new(Term::Slice(axis, start, len, self.term.clone())),
                    },
                );
            }
        }
        Err(slice_error(axis, start, len, self.dims()))
    }

    /// The adjoint of a slice.
    pub fn unslice(&self, full: &Shape, axis: usize, start: usize) -> (r: Self)
        ensures
            r@ == unslice_of(self@, full@, axis, start),
    {
        Tensor {
            shape: full.clone(),
            term: Arc::new(Term::Unslice(dims_of(full.dims()), axis, start, self.term.clone())),
        }
    }

    /// Cut an axis into consecutive pieces.
    pub fn split(&self, sizes: &Vec<usize>, axis: usize) -> (r: Result<Vec<Tensor>, Error>)
        ensures
            match (r, split_of(self@, sizes@, axis)) {
                (Ok(pieces), Ok(want)) => values(pieces@) == want,
                (Err(e), Err(f)) => e@ == f,
                _ => false,
            },
    {
        let tiled: bool = axis < self.rank() && match checked_total(sizes) {
            Some(n) => n == self.shape.dim(axis),
            None => false,
        };
        if !tiled {
            return Err(split_error(sizes, axis, self.dims()));
        }
        let mut out: Vec<Tensor> = Vec::with_capacity(sizes.len());
        let mut start: usize = 0;
        let mut i: usize = 0;
        let ghost want = Seq::new(sizes@.len(), |k: int| piece(self@, sizes@, axis, k));
        while i < sizes.len()
            invariant
                i <= sizes.len(),
                tiles(self@.dims, sizes@, axis),
                start == offset(sizes@, i as int),
                want == Seq::new(sizes@.len(), |k: int| piece(self@, sizes@, axis, k)),
                values(out@) == want.take(i as int),
            decreases sizes.len() - i,
        {
            proof {
                assert(sizes@.take(i as int + 1).drop_last() =~= sizes@.take(i as int));
                lemma_total_prefix(sizes@, i as int + 1);
            }
            let part = Tensor {
                shape: self.shape.with_dim(axis, sizes[i]),
                term: Arc::new(Term::Slice(axis, start, sizes[i], self.term.clone())),
            };
            proof {
                assert(part@ == want[i as int]);
            }
            let ghost before = values(out@);
            out.push(part);
            proof {
                assert(values(out@) =~= before.push(part@));
                assert(want.take(i as int + 1) =~= want.take(i as int).push(want[i as int]));
            }
            start = start + sizes[i];
            i += 1;
        }
        proof {
            assert(want.take(sizes@.len() as int) =~= want);
        }
        Ok(out)
    }

    /// Lay values end to end along an axis.
    pub fn cat(parts: &Vec<Tensor>, axis: usize) -> (r: Result<Self, Error>)
        ensures
            crate::error::agrees(r, cat_of(values(parts@), axis)),
    {
        let ghost want = values(parts@);
        if parts.len() == 0 {
            return Err(cat_error(axis));
        }
        let rank: usize = parts[0].rank();
        proof {
            assert(want[0] == parts@[0]@);
        }
        if axis >= rank {
            return Err(cat_error(axis));
        }
        let base = parts[0].shape.with_dim(axis, 0);
        let mut sizes: Vec<usize> = Vec::with_capacity(parts.len());
        let mut shared: Vec<Arc<Term>> = Vec::with_capacity(parts.len());
        let mut i: usize = 0;
        while i < parts.len()
            invariant
                i <= parts.len(),
                want == values(parts@),
                want.len() > 0,
                rank == want[0].dims.len(),
                axis < rank,
                base@ == want[0].dims.update(axis as int, 0usize),
                forall|j: int|
                    0 <= j < i ==> (#[trigger] want[j]).dims.len() == want[0].dims.len()
                        && want[j].dims.update(axis as int, 0usize) == want[0].dims.update(
                        axis as int,
                        0usize,
                    ),
                sizes@ == extents(want, axis).take(i as int),
                crate::term::plain(shared@) == want.map_values(|v: Value| v.term).take(i as int),
            decreases parts.len() - i,
        {
            proof {
                assert(want[i as int] == parts@[i as int]@);
            }
            if parts[i].rank() != rank {
                return Err(cat_error(axis));
            }
            if !parts[i].shape.with_dim(axis, 0).same(&base) {
                return Err(cat_error(axis));
            }
            sizes.push(parts[i].shape.dim(axis));
            let ghost before = crate::term::plain(shared@);
            shared.push(parts[i].term.clone());
            proof {
                assert(sizes@ =~= extents(want, axis).take(i as int + 1));
                let named = want.map_values(|v: Value| v.term);
                assert(crate::term::plain(shared@) =~= before.push(*parts@[i as int].term));
                assert(named.take(i as int + 1) =~= named.take(i as int).push(named[i as int]));
            }
            i += 1;
        }
        proof {
            assert(sizes@ =~= extents(want, axis));
            assert(crate::term::plain(shared@) =~= want.map_values(|v: Value| v.term));
        }
        match checked_total(&sizes) {
            Some(n) => Ok(
                Tensor {
                    shape: parts[0].shape.with_dim(axis, n),
                    term: Arc::new(Term::Cat(axis, Arc::new(terms_of(&shared)))),
                },
            ),
            None => Err(cat_error(axis)),
        }
    }

    /// For each row, the element an id names.
    pub fn take_along_last(&self, ids: &IdTensor) -> (r: Result<Self, Error>)
        ensures
            crate::error::agrees(r, take_along_last_of(self@, ids@)),
    {
        let rank: usize = self.rank();
        if rank > 0 {
            let rows = leading(self.dims(), rank - 1);
            proof {
                assert(rows@ =~= self@.dims.drop_last());
            }
            if same_list(&rows, ids.shape.dims()) {
                return Ok(
                    Tensor {
                        shape: ids.shape.clone(),
                        term: Arc::new(Term::TakeAlongLast(self.term.clone(), ids.term.clone())),
                    },
                );
            }
        }
        Err(pair_error("ids of shape ", ids.shape.dims(), " do not index ", self.dims()))
    }

    /// For each id, a row with a single one.
    pub fn one_hot(ids: &IdTensor, width: usize) -> (r: Self)
        ensures
            r@ == one_hot_of(ids@, width),
    {
        let mut dims = copied(ids.shape.dims());
        dims.push(width);
        Tensor { shape: Shape::new(dims), term: Arc::new(Term::OneHot(width, ids.term.clone())) }
    }

    /// Rows of a table, by id.
    pub fn gather_rows(&self, ids: &IdTensor) -> (r: Result<Self, Error>)
        ensures
            crate::error::agrees(r, gather_rows_of(self@, ids@)),
    {
        if self.rank() != 2 {
            return Err(Error::Rank { expected: 2, got: self.rank(), shape: copied(self.dims()) });
        }
        let mut dims = copied(ids.shape.dims());
        dims.push(self.shape.dim(1));
        Ok(
            Tensor {
                shape: Shape::new(dims),
                term: Arc::new(Term::GatherRows(self.term.clone(), ids.term.clone())),
            },
        )
    }

    /// Rows added into a table, by id.
    pub fn scatter_add_rows(&self, ids: &IdTensor, rows: usize) -> (r: Result<Self, Error>)
        ensures
            crate::error::agrees(r, scatter_add_rows_of(self@, ids@, rows)),
    {
        if self.rank() != 2 {
            return Err(Error::Rank { expected: 2, got: self.rank(), shape: copied(self.dims()) });
        }
        let counted: bool = match ids.shape.checked_elements() {
            Some(n) => n == self.shape.dim(0),
            None => false,
        };
        if !counted {
            return Err(pair_error("ids of shape ", ids.shape.dims(), " do not index ", self.dims()));
        }
        let mut dims: Vec<usize> = Vec::new();
        dims.push(rows);
        dims.push(self.shape.dim(1));
        proof {
            assert(dims@ =~= seq![rows, self@.dims[1]]);
        }
        Ok(
            Tensor {
                shape: Shape::new(dims),
                term: Arc::new(Term::ScatterAddRows(rows, self.term.clone(), ids.term.clone())),
            },
        )
    }

    /// A kernel of several operands.
    pub fn fused(op: Fused, args: &Vec<Tensor>, shape: Shape) -> (r: Self)
        ensures
            r@ == fused_of(op, values(args@), shape@),
    {
        let mut shared: Vec<Arc<Term>> = Vec::with_capacity(args.len());
        let mut i: usize = 0;
        let ghost named = values(args@).map_values(|v: Value| v.term);
        while i < args.len()
            invariant
                i <= args.len(),
                named == values(args@).map_values(|v: Value| v.term),
                crate::term::plain(shared@) == named.take(i as int),
            decreases args.len() - i,
        {
            let ghost before = crate::term::plain(shared@);
            shared.push(args[i].term.clone());
            proof {
                assert(crate::term::plain(shared@) =~= before.push(*args@[i as int].term));
                assert(named.take(i as int + 1) =~= named.take(i as int).push(named[i as int]));
            }
            i += 1;
        }
        proof {
            assert(crate::term::plain(shared@) =~= named);
        }
        let list = dims_of(shape.dims());
        Tensor { shape, term: Arc::new(Term::Fused(op, list, Arc::new(terms_of(&shared)))) }
    }
}

/// The values of a list of tensors.
pub open spec fn values(s: Seq<Tensor>) -> Seq<Value> {
    s.map_values(|t: Tensor| t@)
}

} // verus!
