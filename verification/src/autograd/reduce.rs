//! Summing a gradient back down to the shape it was broadcast from.

use std::sync::Arc;

use vstd::prelude::*;

use crate::error::{Error, Fault};
use crate::shape::{Shape, copied};
use crate::tensor::{Tensor, Value};
use crate::term::{Product, Reduce, Term};
use crate::text::append_bracketed;

verus! {

/// Whether an axis has to be summed away: the target holds one entry there and the
/// gradient several.
pub open spec fn drops(dims: Seq<usize>, padded: Seq<usize>, axis: int) -> bool {
    padded[axis] == 1 && dims[axis] != 1
}

/// Adjacent axes that share a fate, merged into one axis of their product: for each
/// run, its extent and whether it is summed away.
pub open spec fn runs(dims: Seq<usize>, padded: Seq<usize>, n: nat) -> Seq<(nat, bool)>
    decreases n,
{
    if n == 0 {
        Seq::empty()
    } else {
        let before = runs(dims, padded, (n - 1) as nat);
        let extent = dims[n - 1] as nat;
        let drop = drops(dims, padded, n - 1);
        if before.len() > 0 && before.last().1 == drop {
            before.update(before.len() - 1, (before.last().0 * extent, drop))
        } else {
            before.push((extent, drop))
        }
    }
}

/// Whether every run, and every run of a prefix, has a representable extent.
pub open spec fn runs_fit(dims: Seq<usize>, padded: Seq<usize>, n: nat) -> bool {
    forall|m: nat, i: int|
        m <= n && 0 <= i < runs(dims, padded, m).len() ==> (#[trigger] runs(
            dims,
            padded,
            m,
        )[i]).0 <= usize::MAX
}

/// The extents of the runs.
pub open spec fn run_dims(r: Seq<(nat, bool)>) -> Seq<usize> {
    r.map_values(|p: (nat, bool)| p.0 as usize)
}

/// The sum over the first `k` runs that have to go, each keeping its axis.
pub open spec fn sum_runs(v: Value, r: Seq<(nat, bool)>, k: nat) -> Value
    decreases k,
{
    if k == 0 {
        v
    } else {
        let before = sum_runs(v, r, (k - 1) as nat);
        if r[k - 1].1 {
            Value {
                dims: before.dims.update(k - 1, 1usize),
                term: Term::Reduce(Reduce::Sum, (k - 1) as usize, Arc::new(before.term)),
            }
        } else {
            before
        }
    }
}

/// Whether a target has more axes than `rank`, all of the surplus leading ones of extent one.
pub open spec fn is_taller(target: Seq<usize>, rank: nat) -> bool {
    &&& target.len() > rank
    &&& forall|i: int| 0 <= i < target.len() - rank ==> #[trigger] target[i] == 1
}

/// A target brought to the rank of a gradient: leading ones are added where it has fewer axes,
/// and taken away where it has more.
pub open spec fn seated(target: Seq<usize>, rank: nat) -> Seq<usize> {
    if is_taller(target, rank) {
        target.skip(target.len() - rank)
    } else {
        crate::shape::left_padded(target, rank)
    }
}

fn seat(target: &Shape, rank: usize) -> (r: Shape)
    ensures
        r@ == seated(target@, rank as nat),
{
    let n: usize = target.rank();
    if n <= rank {
        return target.left_padded(rank);
    }
    let surplus: usize = n - rank;
    let mut i: usize = 0;
    while i < surplus
        invariant
            i <= surplus,
            surplus == target@.len() - rank,
            forall|j: int| 0 <= j < i ==> #[trigger] target@[j] == 1,
        decreases surplus - i,
    {
        if target.dim(i) != 1 {
            proof {
                assert(!is_taller(target@, rank as nat));
            }
            return target.left_padded(rank);
        }
        i += 1;
    }
    let mut dims: Vec<usize> = Vec::with_capacity(rank);
    let mut k: usize = surplus;
    while k < n
        invariant
            surplus <= k <= n,
            n == target@.len(),
            dims@ == target@.subrange(surplus as int, k as int),
        decreases n - k,
    {
        dims.push(target.dim(k));
        proof {
            assert(dims@ =~= target@.subrange(surplus as int, k as int + 1));
        }
        k += 1;
    }
    proof {
        assert(dims@ =~= target@.skip(surplus as int));
    }
    Shape::new(dims)
}

/// A gradient summed down to `target`: one reshape into runs, one sum per run that
/// goes, one reshape into the target.
pub open spec fn reduce_to(g: Value, target: Seq<usize>) -> Result<Value, Fault> {
    let rank = g.dims.len();
    let padded = seated(target, rank);
    if g.dims == target {
        Ok(g)
    } else if padded.len() != rank || !runs_fit(g.dims, padded, rank) {
        Err(Fault::Shape(crate::tensor::reshape_message(g.dims, target)))
    } else {
        let r = runs(g.dims, padded, rank);
        match crate::tensor::reshape_of(g, run_dims(r)) {
            Err(f) => Err(f),
            Ok(v) => crate::tensor::reshape_of(sum_runs(v, r, r.len()), target),
        }
    }
}

fn reshape_error(a: &Vec<usize>, b: &Vec<usize>) -> (e: Error)
    ensures
        e@ == Fault::Shape(crate::tensor::reshape_message(a@, b@)),
{
    let mut text = String::new();
    text.append("cannot reshape ");
    append_bracketed(&mut text, a);
    text.append(" to ");
    append_bracketed(&mut text, b);
    proof {
        assert(text@ =~= crate::tensor::reshape_message(a@, b@));
    }
    Error::Shape(text)
}

proof fn lemma_runs_len(dims: Seq<usize>, padded: Seq<usize>, n: nat)
    ensures
        runs(dims, padded, n).len() <= n,
        n > 0 ==> runs(dims, padded, n).len() > 0,
    decreases n,
{
    if n > 0 {
        lemma_runs_len(dims, padded, (n - 1) as nat);
    }
}

/// Sum a gradient back down to `target`, undoing broadcasting.
///
/// Adjacent axes that all have to go are summed in one pass: a run of them is a
/// single axis after a free reshape.
pub fn reduce_grad_to(grad: &Tensor, target: &Shape) -> (r: Result<Tensor, Error>)
    ensures
        crate::error::agrees(r, reduce_to(grad@, target@)),
{
    if grad.shape().same(target) {
        return Ok(grad.clone());
    }
    let rank: usize = grad.rank();
    let padded = seat(target, rank);
    if padded.rank() != rank {
        return Err(reshape_error(grad.dims(), target.dims()));
    }
    let ghost gd = grad@.dims;
    let ghost pd = padded@;
    let mut sizes: Vec<usize> = Vec::with_capacity(rank);
    let mut flags: Vec<bool> = Vec::with_capacity(rank);
    let mut axis: usize = 0;
    proof {
        assert(run_dims(runs(gd, pd, 0)) =~= Seq::<usize>::empty());
    }
    while axis < rank
        invariant
            axis <= rank,
            gd == grad@.dims,
            pd == padded@,
            gd.len() == rank,
            pd.len() == rank,
            target@ != gd,
            pd == seated(target@, rank as nat),
            runs_fit(gd, pd, axis as nat),
            sizes@ == run_dims(runs(gd, pd, axis as nat)),
            flags@ == runs(gd, pd, axis as nat).map_values(|p: (nat, bool)| p.1),
            sizes@.len() == flags@.len(),
        decreases rank - axis,
    {
        let extent: usize = grad.shape().dim(axis);
        let drop: bool = padded.dim(axis) == 1 && extent != 1;
        let ghost before = runs(gd, pd, axis as nat);
        let ghost after = runs(gd, pd, axis as nat + 1);
        let last: usize = sizes.len();
        if last > 0 && flags[last - 1] == drop {
            proof {
                assert(before.last().1 == flags@[last - 1]);
                assert(before.last().0 == sizes@[last - 1]) by {
                    assert(before[last - 1].0 <= usize::MAX);
                }
            }
            match sizes[last - 1].checked_mul(extent) {
                Some(merged) => {
                    sizes.set(last - 1, merged);
                    proof {
                        assert(after == before.update(last - 1, (merged as nat, drop)));
                        assert(sizes@ =~= run_dims(after));
                        assert(flags@ =~= after.map_values(|p: (nat, bool)| p.1));
                    }
                },
                None => {
                    proof {
                        assert(after[last - 1].0 > usize::MAX);
                        assert(!runs_fit(gd, pd, rank as nat));
                    }
                    return Err(reshape_error(grad.dims(), target.dims()));
                },
            }
        } else {
            proof {
                if last > 0 {
                    assert(before.last().1 == flags@[last - 1]);
                }
                assert(after == before.push((extent as nat, drop)));
            }
            sizes.push(extent);
            flags.push(drop);
            proof {
                assert(sizes@ =~= run_dims(after));
                assert(flags@ =~= after.map_values(|p: (nat, bool)| p.1));
            }
        }
        proof {
            assert forall|m: nat, i: int|
                m <= axis + 1 && 0 <= i < runs(gd, pd, m).len() implies (#[trigger] runs(
                gd,
                pd,
                m,
            )[i]).0 <= usize::MAX by {
                if m == axis + 1 {
                    if i < before.len() {
                        assert(before[i].0 <= usize::MAX);
                    }
                }
            }
        }
        axis += 1;
    }
    let ghost all = runs(gd, pd, rank as nat);
    let count: usize = sizes.len();
    let merged = Shape::new(sizes);
    let mut out = grad.reshape(&merged)?;
    let ghost start = out@;
    let mut k: usize = 0;
    while k < count
        invariant
            k <= count,
            all == runs(gd, pd, rank as nat),
            count == all.len(),
            flags@ == all.map_values(|p: (nat, bool)| p.1),
            out@ == sum_runs(start, all, k as nat),
            out@.dims.len() == count,
            start.dims.len() == count,
        decreases count - k,
    {
        proof {
            assert(flags@[k as int] == all[k as int].1);
        }
        if flags[k] {
            let next = match out.reduce(Reduce::Sum, k) {
                Ok(next) => next,
                Err(e) => {
                    return Err(e);
                },
            };
            out = next;
        }
        k += 1;
    }
    out.reshape(target)
}

/// The rows of a product whose batch axes are stacked into one tall matrix, when
/// that computes the same weight gradient: the right operand is a plain matrix and
/// both factors have the same leading axes.
pub open spec fn stacked_rows(lhs: Seq<usize>, grad: Seq<usize>, target: Seq<usize>) -> Option<
    usize,
> {
    if lhs.len() > 2 && target.len() == 2 && grad.len() == lhs.len() && lhs.take(lhs.len() - 2)
        == grad.take(grad.len() - 2) && crate::shape::fits(lhs) && crate::shape::fits(grad) {
        let k = lhs[lhs.len() - 1];
        let n = grad[grad.len() - 1];
        if k != 0 && n != 0 && crate::shape::product(lhs) / k as nat == crate::shape::product(grad)
            / n as nat && target[0] == k && target[1] == n {
            Some((crate::shape::product(lhs) / k as nat) as usize)
        } else {
            None
        }
    } else {
        None
    }
}

/// The adjoint of a product with respect to its right operand.
pub open spec fn weight_grad_of(lhs: Value, grad: Value, target: Seq<usize>) -> Result<
    Value,
    Fault,
> {
    match stacked_rows(lhs.dims, grad.dims, target) {
        Some(rows) => {
            match crate::tensor::reshape_of(lhs, seq![rows, lhs.dims[lhs.dims.len() - 1]]) {
                Err(f) => Err(f),
                Ok(a) => match crate::tensor::reshape_of(
                    grad,
                    seq![rows, grad.dims[grad.dims.len() - 1]],
                ) {
                    Err(f) => Err(f),
                    Ok(b) => crate::tensor::product_of(Product::LeftTransposed, a, b),
                },
            }
        },
        None => match crate::tensor::product_of(Product::LeftTransposed, lhs, grad) {
            Err(f) => Err(f),
            Ok(v) => reduce_to(v, target),
        },
    }
}

fn same_leading(a: &Vec<usize>, b: &Vec<usize>, n: usize) -> (r: bool)
    requires
        n <= a@.len(),
        n <= b@.len(),
    ensures
        r == (a@.take(n as int) == b@.take(n as int)),
{
    let mut i: usize = 0;
    while i < n
        invariant
            i <= n,
            n <= a@.len(),
            n <= b@.len(),
            forall|j: int| 0 <= j < i ==> a@[j] == b@[j],
        decreases n - i,
    {
        if a[i] != b[i] {
            proof {
                assert(a@.take(n as int)[i as int] != b@.take(n as int)[i as int]);
            }
            return false;
        }
        i += 1;
    }
    proof {
        assert(a@.take(n as int) =~= b@.take(n as int));
    }
    true
}

fn two(a: usize, b: usize) -> (r: Shape)
    ensures
        r@ == seq![a, b],
{
    let mut dims: Vec<usize> = Vec::new();
    dims.push(a);
    dims.push(b);
    proof {
        assert(dims@ =~= seq![a, b]);
    }
    Shape::new(dims)
}

fn stackable(lhs: &Shape, grad: &Shape, target: &Shape) -> (r: Option<usize>)
    ensures
        r == stacked_rows(lhs@, grad@, target@),
{
    let rank: usize = lhs.rank();
    if rank > 2 && target.rank() == 2 && grad.rank() == rank && same_leading(
        lhs.dims(),
        grad.dims(),
        rank - 2,
    ) {
        match (lhs.checked_elements(), grad.checked_elements()) {
            (Some(ll), Some(gl)) => {
                let k: usize = lhs.dim_from_end(0);
                let n: usize = grad.dim_from_end(0);
                if k != 0 && n != 0 && ll / k == gl / n && target.dim(0) == k && target.dim(1)
                    == n {
                    return Some(ll / k);
                }
            },
            _ => {},
        }
    }
    None
}

/// `A` transposed times `G`, summed over every leading batch axis: the adjoint of a
/// product whose right operand is shared across the batch.
///
/// Folding the batch axes into the contraction makes it a single product with a
/// longer inner extent and no reduction at all.
pub fn weight_grad(lhs: &Tensor, grad: &Tensor, target: &Shape) -> (r: Result<Tensor, Error>)
    ensures
        crate::error::agrees(r, weight_grad_of(lhs@, grad@, target@)),
{
    match stackable(lhs.shape(), grad.shape(), target) {
        Some(rows) => {
            let a = lhs.reshape(&two(rows, lhs.shape().dim_from_end(0)))?;
            let b = grad.reshape(&two(rows, grad.shape().dim_from_end(0)))?;
            Tensor::product(Product::LeftTransposed, &a, &b)
        },
        None => {
            let full = Tensor::product(Product::LeftTransposed, lhs, grad)?;
            reduce_grad_to(&full, target)
        },
    }
}

// -- what the reduction gives back ------------------------------------------

/// The product of the run extents, counting the runs that go as one when `kept`.
pub open spec fn run_product(r: Seq<(nat, bool)>, kept: bool) -> nat
    decreases r.len(),
{
    if r.len() == 0 {
        1
    } else {
        let e = if kept && r.last().1 {
            1
        } else {
            r.last().0
        };
        run_product(r.drop_last(), kept) * e
    }
}

proof fn lemma_run_products(dims: Seq<usize>, padded: Seq<usize>, n: nat)
    requires
        n <= dims.len(),
        dims.len() == padded.len(),
        forall|i: int| 0 <= i < dims.len() ==> padded[i] == 1 || padded[i] == dims[i],
    ensures
        run_product(runs(dims, padded, n), false) == crate::shape::product(dims.take(n as int)),
        run_product(runs(dims, padded, n), true) == crate::shape::product(padded.take(n as int)),
    decreases n,
{
    if n == 0 {
        assert(dims.take(0) =~= Seq::<usize>::empty());
        assert(padded.take(0) =~= Seq::<usize>::empty());
    } else {
        let m = (n - 1) as nat;
        lemma_run_products(dims, padded, m);
        let before = runs(dims, padded, m);
        let after = runs(dims, padded, n);
        let extent = dims[n - 1] as nat;
        let drop = drops(dims, padded, n - 1);
        assert(dims.take(n as int).drop_last() =~= dims.take(m as int));
        assert(padded.take(n as int).drop_last() =~= padded.take(m as int));
        let shown = padded[n - 1] as nat;
        assert(drop ==> shown == 1);
        assert(!drop ==> shown == extent);
        if before.len() > 0 && before.last().1 == drop {
            let head = before.drop_last();
            assert(after.drop_last() =~= head);
            let last = before.last().0;
            assert(run_product(head, false) * (last * extent) == (run_product(head, false) * last)
                * extent) by (nonlinear_arith);
            if drop {
                assert(run_product(head, true) * 1 == run_product(head, true)) by (nonlinear_arith);
                let q = run_product(before, true);
                assert(q * 1 == q) by (nonlinear_arith);
                assert(q * shown == q);
            } else {
                assert(run_product(head, true) * (last * extent) == (run_product(head, true) * last)
                    * extent) by (nonlinear_arith);
            }
        } else {
            assert(after.drop_last() =~= before);
        }
    }
}

proof fn lemma_run_dims_product(r: Seq<(nat, bool)>)
    requires
        forall|i: int| 0 <= i < r.len() ==> (#[trigger] r[i]).0 <= usize::MAX,
    ensures
        crate::shape::product(run_dims(r)) == run_product(r, false),
    decreases r.len(),
{
    if r.len() > 0 {
        assert(run_dims(r).drop_last() =~= run_dims(r.drop_last()));
        assert forall|i: int| 0 <= i < r.drop_last().len() implies (#[trigger] r.drop_last()[i]).0
            <= usize::MAX by {
            assert(r.drop_last()[i] == r[i]);
        }
        lemma_run_dims_product(r.drop_last());
        assert(r[r.len() - 1].0 <= usize::MAX);
    }
}

/// The extents that are left when the runs that go have been summed.
pub open spec fn kept_dims(r: Seq<(nat, bool)>, k: nat) -> Seq<usize> {
    Seq::new(
        r.len(),
        |i: int|
            if i < k && r[i].1 {
                1usize
            } else {
                r[i].0 as usize
            },
    )
}

proof fn lemma_sum_runs_dims(v: Value, r: Seq<(nat, bool)>, k: nat)
    requires
        k <= r.len(),
        v.dims == run_dims(r),
    ensures
        sum_runs(v, r, k).dims == kept_dims(r, k),
    decreases k,
{
    if k == 0 {
        assert(v.dims =~= kept_dims(r, 0));
    } else {
        lemma_sum_runs_dims(v, r, (k - 1) as nat);
        assert(sum_runs(v, r, k).dims =~= kept_dims(r, k));
    }
}

proof fn lemma_kept_product(r: Seq<(nat, bool)>)
    requires
        forall|i: int| 0 <= i < r.len() ==> (#[trigger] r[i]).0 <= usize::MAX,
    ensures
        crate::shape::product(kept_dims(r, r.len())) == run_product(r, true),
    decreases r.len(),
{
    if r.len() > 0 {
        let h = r.drop_last();
        assert(kept_dims(r, r.len()).drop_last() =~= kept_dims(h, h.len()));
        assert forall|i: int| 0 <= i < h.len() implies (#[trigger] h[i]).0 <= usize::MAX by {
            assert(h[i] == r[i]);
        }
        lemma_kept_product(h);
        assert(r[r.len() - 1].0 <= usize::MAX);
    }
}

proof fn lemma_padded_product(s: Seq<usize>, rank: nat)
    ensures
        crate::shape::product(crate::shape::left_padded(s, rank)) == crate::shape::product(s),
    decreases s.len() + rank,
{
    let p = crate::shape::left_padded(s, rank);
    if rank > s.len() {
        if s.len() == 0 {
            if rank == 1 {
                assert(p.drop_last() =~= Seq::<usize>::empty());
            } else {
                lemma_padded_product(s, (rank - 1) as nat);
                assert(p.drop_last() =~= crate::shape::left_padded(s, (rank - 1) as nat));
            }
            let q = crate::shape::product(p.drop_last());
            assert(q * 1 == q) by (nonlinear_arith);
        } else {
            lemma_padded_product(s.drop_last(), (rank - 1) as nat);
            assert(p.drop_last() =~= crate::shape::left_padded(s.drop_last(), (rank - 1) as nat));
        }
    }
}

proof fn lemma_run_bound(dims: Seq<usize>, padded: Seq<usize>, n: nat, i: int)
    requires
        n <= dims.len(),
        0 <= i < runs(dims, padded, n).len(),
        forall|j: int| 0 <= j < dims.len() ==> dims[j] != 0,
    ensures
        1 <= runs(dims, padded, n)[i].0 <= crate::shape::product(dims.take(n as int)),
        crate::shape::product(dims.take(n as int)) >= 1,
    decreases n,
{
    let m = (n - 1) as nat;
    let before = runs(dims, padded, m);
    let whole = crate::shape::product(dims.take(m as int));
    let extent = dims[n - 1] as nat;
    assert(dims.take(n as int).drop_last() =~= dims.take(m as int));
    crate::shape::lemma_product_prefix(dims.take(m as int), 0);
    assert(whole * extent >= whole && whole * extent >= extent && whole * extent >= 1)
        by (nonlinear_arith)
        requires
            whole >= 1,
            extent >= 1,
    ;
    if i < before.len() {
        lemma_run_bound(dims, padded, m, i);
        let x = before[i].0;
        assert(1 <= x * extent && x * extent <= whole * extent) by (nonlinear_arith)
            requires
                1 <= x <= whole,
                extent >= 1,
        ;
    }
}

/// The product of a target is that of what it is brought to.
proof fn lemma_seated_product(target: Seq<usize>, rank: nat)
    ensures
        crate::shape::product(seated(target, rank)) == crate::shape::product(target),
    decreases target.len(),
{
    if is_taller(target, rank) {
        if rank == 0 {
            assert(target.skip(target.len() as int) =~= Seq::<usize>::empty());
            crate::shape::lemma_product_ones(target);
        } else {
            let t = target.drop_last();
            let m = (rank - 1) as nat;
            assert forall|i: int| 0 <= i < t.len() - m implies #[trigger] t[i] == 1 by {
                assert(target[i] == 1);
            }
            lemma_seated_product(t, m);
            assert(seated(target, rank).drop_last() =~= seated(t, m));
            assert(seated(target, rank).last() == target.last());
        }
    } else {
        lemma_padded_product(target, rank);
    }
}

/// Whether a gradient of extents `d` can be summed down to a target: the target broadcasts to
/// it, or holds one element.
pub open spec fn sums_to(d: Seq<usize>, target: Seq<usize>) -> bool {
    crate::tensor::expands(target, d) || crate::shape::product(target) == 1
}

pub(crate) proof fn lemma_seated(d: Seq<usize>, target: Seq<usize>)
    requires
        sums_to(d, target),
    ensures
        seated(target, d.len()).len() == d.len(),
        forall|i: int|
            0 <= i < d.len() ==> #[trigger] seated(target, d.len())[i] == 1 || seated(
                target,
                d.len(),
            )[i] == d[i],
{
    let rank = d.len();
    let padded = seated(target, rank);
    if crate::shape::product(target) == 1 {
        crate::shape::lemma_product_one(target);
        assert forall|i: int| 0 <= i < rank implies #[trigger] padded[i] == 1 by {
            if target.len() > rank {
                assert(target[i + target.len() - rank] == 1);
            } else if i >= rank - target.len() {
                assert(target[i - (rank - target.len())] == 1);
            }
        }
    } else {
        assert(crate::shape::broadcast_dims(target, d).len() == rank);
        assert(target.len() <= rank);
        assert(crate::shape::left_padded(d, rank) == d);
        assert forall|i: int| 0 <= i < rank implies #[trigger] padded[i] == 1 || padded[i] == d[i] by {
            assert(crate::shape::broadcast_dims(target, d)[i] == d[i]);
        }
    }
}

/// A gradient is summed to a tensor of exactly the target shape, wherever the target
/// broadcasts to it or holds one element. Extents of zero are among those it sums, as long as
/// the counts in between fit a word.
pub proof fn law_reduce_restores_shape(g: Value, target: Seq<usize>)
    requires
        sums_to(g.dims, target),
        crate::shape::fits(g.dims),
        (forall|i: int| 0 <= i < g.dims.len() ==> g.dims[i] != 0) || (crate::shape::fits(target)
            && runs_fit(g.dims, seated(target, g.dims.len()), g.dims.len())),
    ensures
        reduce_to(g, target) matches Ok(v) && v.dims == target,
{
    let rank = g.dims.len();
    let d = g.dims;
    let padded = seated(target, rank);
    lemma_seated(d, target);
    if d != target {
        assert(d.take(rank as int) =~= d);
        assert(padded.take(rank as int) =~= padded);
        let plain = forall|i: int| 0 <= i < g.dims.len() ==> g.dims[i] != 0;
        if plain {
            assert forall|m: nat, i: int|
                m <= rank && 0 <= i < runs(d, padded, m).len() implies (#[trigger] runs(
                d,
                padded,
                m,
            )[i]).0 <= usize::MAX by {
                lemma_run_bound(d, padded, m, i);
                crate::shape::lemma_product_prefix(d, m as int);
            }
        }
        let r = runs(d, padded, rank);
        assert forall|i: int| 0 <= i < r.len() implies (#[trigger] r[i]).0 <= usize::MAX by {
            assert(runs(d, padded, rank)[i].0 <= usize::MAX);
        }
        lemma_run_products(d, padded, rank);
        lemma_run_dims_product(r);
        let v = crate::tensor::reshape_of(g, run_dims(r))->Ok_0;
        lemma_sum_runs_dims(v, r, r.len());
        lemma_kept_product(r);
        lemma_seated_product(target, rank);
        let s = sum_runs(v, r, r.len());
        assert(crate::shape::product(s.dims) == crate::shape::product(target));
        if plain {
            assert(crate::shape::product(padded) <= crate::shape::product(d)) by {
                lemma_smaller_product(padded, d);
            }
        }
    }
}

/// The runs of a gradient without empty axes have representable extents.
pub(crate) proof fn lemma_runs_fit(d: Seq<usize>, padded: Seq<usize>)
    requires
        crate::shape::fits(d),
        d.len() == padded.len(),
        forall|i: int| 0 <= i < d.len() ==> #[trigger] d[i] > 0,
    ensures
        runs_fit(d, padded, d.len()),
        runs(d, padded, d.len()).len() <= d.len(),
{
    lemma_runs_len(d, padded, d.len());
    assert forall|m: nat, i: int|
        m <= d.len() && 0 <= i < runs(d, padded, m).len() implies (#[trigger] runs(
        d,
        padded,
        m,
    )[i]).0 <= usize::MAX by {
        lemma_run_bound(d, padded, m, i);
        crate::shape::lemma_product_prefix(d, m as int);
    }
}

/// The counts of the runs, and of those that are kept.
pub(crate) proof fn lemma_run_counts(d: Seq<usize>, target: Seq<usize>)
    requires
        sums_to(d, target),
        crate::shape::fits(d),
        forall|i: int| 0 <= i < d.len() ==> #[trigger] d[i] > 0,
    ensures
        ({
            let r = runs(d, seated(target, d.len()), d.len());
            &&& crate::shape::product(run_dims(r)) == crate::shape::product(d)
            &&& crate::shape::product(kept_dims(r, r.len())) == crate::shape::product(target)
        }),
{
    let rank = d.len();
    let padded = seated(target, rank);
    lemma_seated(d, target);
    lemma_runs_fit(d, padded);
    let r = runs(d, padded, rank);
    assert forall|i: int| 0 <= i < r.len() implies (#[trigger] r[i]).0 <= usize::MAX by {
        assert(runs(d, padded, rank)[i].0 <= usize::MAX);
    }
    assert(d.take(rank as int) =~= d);
    assert(padded.take(rank as int) =~= padded);
    lemma_run_products(d, padded, rank);
    lemma_run_dims_product(r);
    lemma_kept_product(r);
    lemma_seated_product(target, rank);
}

proof fn lemma_smaller_product(a: Seq<usize>, b: Seq<usize>)
    requires
        a.len() == b.len(),
        forall|i: int| 0 <= i < a.len() ==> a[i] <= b[i],
    ensures
        crate::shape::product(a) <= crate::shape::product(b),
    decreases a.len(),
{
    if a.len() > 0 {
        lemma_smaller_product(a.drop_last(), b.drop_last());
        let x = crate::shape::product(a.drop_last());
        let y = crate::shape::product(b.drop_last());
        let p = a.last() as nat;
        let q = b.last() as nat;
        assert(x * p <= y * q) by (nonlinear_arith)
            requires
                x <= y,
                p <= q,
        ;
    }
}

} // verus!
