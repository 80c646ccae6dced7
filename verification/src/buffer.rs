//! What a tensor holds over the real numbers.
//!
//! A term describes how a tensor is computed; here it is given the numbers that come out,
//! element by element in row-major order. What an executor already holds, and what the
//! state-space scan writes, is left open: it is given with the interpretation.

use vstd::prelude::*;

use crate::distributions::launches;
use crate::distributions::rows;
use crate::meaning;
use crate::meaning::Model;
use crate::shape;
use crate::term;
use crate::term::{Product, Reduce, Scan, Term, Terms};

verus! {

/// Numbers in row-major order.
pub struct Buffer {
    pub dims: Seq<usize>,
    pub at: spec_fn(int) -> real,
}

/// An interpretation: the functions, and what the terms that are not computed from others
/// hold.
pub struct Reader {
    pub m: Model,
    pub given: spec_fn(Term) -> Buffer,
}

/// The number of elements that one step along an axis passes over.
pub open spec fn inner(dims: Seq<usize>, axis: int) -> int {
    shape::product(dims.skip(axis + 1)) as int
}

/// The elements along an axis that element `i` of a reduction is made of.
pub open spec fn fibre(b: Buffer, axis: int, i: int) -> Seq<real> {
    let (n, w) = (b.dims[axis] as int, inner(b.dims, axis));
    Seq::new(n as nat, |j: int| (b.at)(((i / w) * n + j) * w + i % w))
}

/// The smallest of the first `n` entries.
pub open spec fn smallest(s: Seq<real>, n: nat) -> real
    decreases n,
{
    if n <= 1 {
        s[0]
    } else if s[n - 1] < smallest(s, (n - 1) as nat) {
        s[n - 1]
    } else {
        smallest(s, (n - 1) as nat)
    }
}

pub open spec fn reduced(op: Reduce, s: Seq<real>) -> real {
    match op {
        Reduce::Sum => rows::sum(s, s.len()),
        Reduce::Mean => rows::sum(s, s.len()) / s.len() as int as real,
        Reduce::Max => rows::largest(s, s.len()),
        Reduce::Min => smallest(s, s.len()),
    }
}

/// Element `i` of a slice, as an element of what it was cut from.
pub open spec fn sliced(dims: Seq<usize>, axis: int, start: int, len: int, i: int) -> int {
    let (n, w) = (dims[axis] as int, inner(dims, axis));
    ((i / (len * w)) * n + start) * w + i % (len * w)
}

/// Position `j` along an axis of pieces that lie one behind another.
pub open spec fn joined(parts: Seq<Buffer>, axis: int, outer: int, j: int, k: int, w: int) -> real
    decreases parts.len(),
{
    if parts.len() == 0 {
        0real
    } else {
        let n = parts[0].dims[axis] as int;
        if j < n {
            (parts[0].at)((outer * n + j) * w + k)
        } else {
            joined(parts.drop_first(), axis, outer, j - n, k, w)
        }
    }
}

/// The extents of pieces along an axis, summed.
pub open spec fn extent(parts: Seq<Buffer>, axis: int) -> int
    decreases parts.len(),
{
    if parts.len() == 0 {
        0
    } else {
        parts[0].dims[axis] as int + extent(parts.drop_first(), axis)
    }
}

/// One entry of a matrix product: `r` and `c` name it, `b` the matrices among the batch.
pub open spec fn entry(op: Product, x: Buffer, y: Buffer, batch: Seq<usize>, b: int, r: int, c: int) -> real {
    let (xd, yd) = (x.dims, y.dims);
    let (xr, xc) = (xd[xd.len() - 2] as int, xd.last() as int);
    let (yr, yc) = (yd[yd.len() - 2] as int, yd.last() as int);
    let xb = shape::place(b, batch, xd.take(xd.len() - 2)) * xr;
    let yb = shape::place(b, batch, yd.take(yd.len() - 2)) * yr;
    let terms = match op {
        Product::Plain => Seq::new(
            xc as nat,
            |k: int| (x.at)((xb + r) * xc + k) * (y.at)((yb + k) * yc + c),
        ),
        Product::RightTransposed => Seq::new(
            xc as nat,
            |k: int| (x.at)((xb + r) * xc + k) * (y.at)((yb + c) * yc + k),
        ),
        Product::LeftTransposed => Seq::new(
            xr as nat,
            |k: int| (x.at)((xb + k) * xc + r) * (y.at)((yb + k) * yc + c),
        ),
    };
    rows::sum(terms, terms.len())
}

pub open spec fn multiplied(op: Product, x: Buffer, y: Buffer) -> Buffer {
    let (xd, yd) = (x.dims, y.dims);
    let batch = shape::broadcast_dims(xd.take(xd.len() - 2), yd.take(yd.len() - 2));
    let n = match op {
        Product::LeftTransposed => xd.last(),
        _ => xd[xd.len() - 2],
    };
    let k = match op {
        Product::RightTransposed => yd[yd.len() - 2],
        _ => yd.last(),
    };
    Buffer {
        dims: batch + seq![n, k],
        at: |i: int|
            entry(op, x, y, batch, i / (n * k), (i / k as int) % (n as int), i % (k as int)),
    }
}

/// The element of an operand that element `i` of its reordering is: axis `k` of the result is
/// axis `order[k]` of the operand. Counts the first `k` axes.
pub open spec fn reordered(i: int, out: Seq<usize>, d: Seq<usize>, order: Seq<usize>, k: nat) -> int
    decreases k,
{
    if k == 0 {
        0
    } else {
        reordered(i, out, d, order, (k - 1) as nat) + ((i / inner(out, k - 1)) % (out[k - 1] as int))
            * inner(d, order[k - 1] as int)
    }
}

/// What the first `n` rows, each added to the row its id names, bring to one element.
pub open spec fn gathered(x: Buffer, ids: Buffer, n: nat, row: int, c: int) -> real
    decreases n,
{
    if n == 0 {
        0real
    } else {
        gathered(x, ids, (n - 1) as nat, row, c) + if launches::id_of((ids.at)(n - 1)) == row {
            (x.at)((n - 1) * (x.dims.last() as int) + c)
        } else {
            0real
        }
    }
}

/// A running sum at position `j` of a row.
pub open spec fn scanned(op: Scan, s: Seq<real>, j: int) -> real {
    match op {
        Scan::Inclusive => rows::sum(s, (j + 1) as nat),
        Scan::Exclusive => rows::sum(s, j as nat),
        Scan::Reverse => rows::sum(s, s.len()) - rows::sum(s, j as nat),
        Scan::ReverseExclusive => rows::sum(s, s.len()) - rows::sum(s, (j + 1) as nat),
    }
}

/// What a term holds.
pub open spec fn holds(w: Reader, t: Term) -> Buffer
    decreases t,
{
    match t {
        Term::Fill(s, d) => Buffer {
            dims: term::entries(d),
            at: |i: int| meaning::scalar(w.m.f, s),
        },
        Term::Unary(op, a) => {
            let x = holds(w, *a);
            Buffer { dims: x.dims, at: |i: int| meaning::unary(w.m.f, op, (x.at)(i)) }
        },
        Term::Binary(op, a, b) => {
            let (x, y) = (holds(w, *a), holds(w, *b));
            let d = shape::broadcast_dims(x.dims, y.dims);
            Buffer {
                dims: d,
                at: |i: int|
                    meaning::binary(
                        w.m.f,
                        op,
                        (x.at)(shape::place(i, d, x.dims)),
                        (y.at)(shape::place(i, d, y.dims)),
                    ),
            }
        },
        Term::Product(op, a, b) => multiplied(op, holds(w, *a), holds(w, *b)),
        Term::Reduce(op, axis, a) => {
            let x = holds(w, *a);
            Buffer {
                dims: x.dims.update(axis as int, 1usize),
                at: |i: int| reduced(op, fibre(x, axis as int, i)),
            }
        },
        Term::SumAll(a) => {
            let x = holds(w, *a);
            Buffer {
                dims: Seq::empty(),
                at: |i: int|
                    rows::sum(
                        Seq::new(shape::product(x.dims), |j: int| (x.at)(j)),
                        shape::product(x.dims),
                    ),
            }
        },
        Term::Reshape(d, a) => Buffer { dims: term::entries(d), at: holds(w, *a).at },
        Term::Expand(d, a) => {
            let x = holds(w, *a);
            let out = term::entries(d);
            Buffer { dims: out, at: |i: int| (x.at)(shape::place(i, out, x.dims)) }
        },
        Term::Permute(d, a) => {
            let x = holds(w, *a);
            let order = term::entries(d);
            let out = crate::tensor::permuted(x.dims, order);
            Buffer {
                dims: out,
                at: |i: int| (x.at)(reordered(i, out, x.dims, order, order.len())),
            }
        },
        Term::Flip(axis, a) => {
            let x = holds(w, *a);
            let (n, v) = (x.dims[axis as int] as int, inner(x.dims, axis as int));
            Buffer {
                dims: x.dims,
                at: |i: int|
                    (x.at)(((i / (n * v)) * n + (n - 1 - (i / v) % n)) * v + i % v),
            }
        },
        Term::Slice(axis, start, len, a) => {
            let x = holds(w, *a);
            band(x, axis as int, start as int, len)
        },
        Term::Unslice(d, axis, start, a) => {
            let x = holds(w, *a);
            let out = term::entries(d);
            let (n, len, v) = (
                out[axis as int] as int,
                x.dims[axis as int] as int,
                inner(out, axis as int),
            );
            Buffer {
                dims: out,
                at: |i: int|
                    {
                        let j = (i / v) % n - start;
                        if 0 <= j < len {
                            (x.at)(((i / (n * v)) * len + j) * v + i % v)
                        } else {
                            0real
                        }
                    },
            }
        },
        Term::Cat(axis, ts) => {
            let parts = all(w, *ts);
            let n = extent(parts, axis as int);
            let v = inner(parts[0].dims, axis as int);
            Buffer {
                dims: parts[0].dims.update(axis as int, n as usize),
                at: |i: int| joined(parts, axis as int, i / (n * v), (i / v) % n, i % v, v),
            }
        },
        Term::TakeAlongLast(a, ids) => {
            let (x, y) = (holds(w, *a), holds(w, *ids));
            let n = x.dims.last() as int;
            Buffer {
                dims: y.dims,
                at: |i: int| (x.at)(i * n + launches::id_of((y.at)(i))),
            }
        },
        Term::GatherRows(a, ids) => {
            let (x, y) = (holds(w, *a), holds(w, *ids));
            let n = x.dims.last() as int;
            Buffer {
                dims: y.dims.push(x.dims.last()),
                at: |i: int| (x.at)(launches::id_of((y.at)(i / n)) * n + i % n),
            }
        },
        Term::ScatterAddRows(rows, a, ids) => {
            let (x, y) = (holds(w, *a), holds(w, *ids));
            let n = x.dims.last() as int;
            Buffer {
                dims: seq![rows, x.dims.last()],
                at: |i: int| gathered(x, y, x.dims[0] as nat, i / n, i % n),
            }
        },
        Term::Scan(op, axis, a) => {
            let x = holds(w, *a);
            let (n, v) = (x.dims[axis as int] as int, inner(x.dims, axis as int));
            Buffer {
                dims: x.dims,
                at: |i: int|
                    scanned(
                        op,
                        Seq::new(n as nat, |j: int| (x.at)(((i / (n * v)) * n + j) * v + i % v)),
                        (i / v) % n,
                    ),
            }
        },
        Term::OneHot(width, ids) => {
            let x = holds(w, *ids);
            let n = width as int;
            Buffer {
                dims: x.dims.push(width),
                at: |i: int| meaning::indicator((x.at)(i / n) == (i % n) as real),
            }
        },
        Term::Fused(op, d, args) => match launches::written(
            w.m,
            op,
            term::entries(d),
            all(w, *args),
        ) {
            Some(b) => b,
            None => (w.given)(t),
        },
        _ => (w.given)(t),
    }
}

/// What the terms of a list hold.
pub open spec fn all(w: Reader, ts: Terms) -> Seq<Buffer>
    decreases ts,
{
    match ts {
        Terms::Nil => Seq::empty(),
        Terms::Cons(t, rest) => seq![holds(w, *t)] + all(w, *rest),
    }
}

impl Reader {
    /// What a term holds.
    pub open spec fn of(self, t: Term) -> Buffer {
        holds(self, t)
    }

    /// Whether a tensor's shape is that of what its term holds.
    pub open spec fn fits(self, v: crate::tensor::Value) -> bool {
        self.of(v.term).dims == v.dims
    }

    /// Element `i` of a tensor.
    pub open spec fn at(self, v: crate::tensor::Value, i: int) -> real {
        (self.of(v.term).at)(i)
    }
}

/// A band of a buffer along an axis.
pub open spec fn band(x: Buffer, axis: int, start: int, len: usize) -> Buffer {
    Buffer {
        dims: x.dims.update(axis, len),
        at: |i: int| (x.at)(sliced(x.dims, axis, start, len as int, i)),
    }
}

/// Whether pieces are the bands of a buffer from a position on, one behind another.
pub open spec fn bands(x: Buffer, axis: int, start: int, parts: Seq<Buffer>) -> bool
    decreases parts.len(),
{
    parts.len() > 0 ==> {
        &&& parts[0] == band(x, axis, start, parts[0].dims[axis])
        &&& bands(x, axis, start + parts[0].dims[axis], parts.drop_first())
    }
}

/// Joining the pieces of a split gives every element back: position `j` along the axis of the
/// joined bands is position `start + j` of what they were cut from.
pub proof fn law_joining_the_pieces_gives_the_value_back(
    x: Buffer,
    axis: int,
    start: int,
    parts: Seq<Buffer>,
    outer: int,
    j: int,
    k: int,
)
    requires
        0 <= axis < x.dims.len(),
        bands(x, axis, start, parts),
        0 <= outer,
        0 <= j < extent(parts, axis),
        0 <= k < inner(x.dims, axis),
    ensures
        joined(parts, axis, outer, j, k, inner(x.dims, axis)) == (x.at)(
            (outer * x.dims[axis] + start + j) * inner(x.dims, axis) + k,
        ),
    decreases parts.len(),
{
    let (n, w) = (x.dims[axis] as int, inner(x.dims, axis));
    let len = parts[0].dims[axis] as int;
    if j < len {
        let i = (outer * len + j) * w + k;
        let r = j * w + k;
        assert(0 <= r < len * w) by (nonlinear_arith)
            requires
                0 <= j < len,
                0 <= k < w,
                r == j * w + k,
        ;
        assert(i == outer * (len * w) + r) by (nonlinear_arith)
            requires
                i == (outer * len + j) * w + k,
                r == j * w + k,
        ;
        vstd::arithmetic::div_mod::lemma_fundamental_div_mod_converse(i, len * w, outer, r);
        assert((outer * n + start) * w + r == (outer * n + start + j) * w + k) by (nonlinear_arith)
            requires
                r == j * w + k,
        ;
        assert((parts[0].at)(i) == (x.at)(sliced(x.dims, axis, start, len, i)));
    } else {
        law_joining_the_pieces_gives_the_value_back(
            x,
            axis,
            start + len,
            parts.drop_first(),
            outer,
            j - len,
            k,
        );
    }
}

/// The list of terms of a sequence holds what its entries hold.
pub proof fn lemma_all(w: Reader, s: Seq<Term>)
    ensures
        all(w, term::terms(s)).len() == s.len(),
        forall|k: int| 0 <= k < s.len() ==> #[trigger] all(w, term::terms(s))[k] == holds(w, s[k]),
    decreases s.len(),
{
    if s.len() > 0 {
        lemma_all(w, s.drop_first());
        let tail = all(w, term::terms(s.drop_first()));
        assert(all(w, term::terms(s)) =~= seq![holds(w, s[0])] + tail);
        assert forall|k: int| 0 <= k < s.len() implies #[trigger] all(w, term::terms(s))[k] == holds(
            w,
            s[k],
        ) by {
            if k > 0 {
                assert(tail[k - 1] == holds(w, s.drop_first()[k - 1]));
            }
        }
    }
}

/// What a kernel with a meaning holds, from what its operands hold.
pub proof fn lemma_fused(w: Reader, op: term::Fused, shape: Seq<usize>, args: Seq<Term>)
    ensures
        holds(w, term::fused_term(op, shape, args)) == (match launches::written(
            w.m,
            op,
            shape,
            args.map_values(|t: Term| holds(w, t)),
        ) {
            Some(b) => b,
            None => (w.given)(term::fused_term(op, shape, args)),
        }),
{
    lemma_all(w, args);
    term::law_dims_entries(shape);
    assert(all(w, term::terms(args)) =~= args.map_values(|t: Term| holds(w, t)));
}

} // verus!
