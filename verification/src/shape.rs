//! Shapes and the rules by which they combine.

use vstd::prelude::*;

use crate::error::{Error, Fault};
use crate::text::{append_bracketed, append_decimal};

verus! {

/// The number of elements a shape holds.
pub open spec fn product(s: Seq<usize>) -> nat
    decreases s.len(),
{
    if s.len() == 0 {
        1
    } else {
        product(s.drop_last()) * s.last() as nat
    }
}

/// Whether the element count can be held in a machine word.
pub open spec fn fits(s: Seq<usize>) -> bool {
    product(s) <= usize::MAX
}

/// `s` extended with leading ones until it has at least `rank` axes.
pub open spec fn left_padded(s: Seq<usize>, rank: nat) -> Seq<usize> {
    if rank <= s.len() {
        s
    } else {
        Seq::new((rank - s.len()) as nat, |i: int| 1usize) + s
    }
}

/// Whether two extents stretch to a common one.
pub open spec fn extents_agree(a: usize, b: usize) -> bool {
    a == b || a == 1 || b == 1
}

/// The extent two agreeing extents stretch to.
pub open spec fn stretched(a: usize, b: usize) -> usize {
    if a == 1 {
        b
    } else {
        a
    }
}

pub open spec fn max_rank(a: Seq<usize>, b: Seq<usize>) -> nat {
    if a.len() >= b.len() {
        a.len()
    } else {
        b.len()
    }
}

/// Whether two shapes broadcast against each other: right-aligned, every pair of
/// extents is equal or holds a one.
pub open spec fn compatible(a: Seq<usize>, b: Seq<usize>) -> bool {
    let n = max_rank(a, b);
    forall|i: int|
        0 <= i < n ==> extents_agree(#[trigger] left_padded(a, n)[i], left_padded(b, n)[i])
}

/// The shape two compatible shapes broadcast to.
pub open spec fn broadcast_dims(a: Seq<usize>, b: Seq<usize>) -> Seq<usize> {
    let n = max_rank(a, b);
    Seq::new(n, |i: int| stretched(left_padded(a, n)[i], left_padded(b, n)[i]))
}

pub open spec fn broadcast_message(a: Seq<usize>, b: Seq<usize>) -> Seq<char> {
    "cannot broadcast "@ + crate::text::bracketed(a) + " against "@ + crate::text::bracketed(b)
}

/// Broadcasting as a partial function on shapes.
pub open spec fn broadcast(a: Seq<usize>, b: Seq<usize>) -> Result<Seq<usize>, Fault> {
    if compatible(a, b) {
        Ok(broadcast_dims(a, b))
    } else {
        Err(Fault::Shape(broadcast_message(a, b)))
    }
}

/// The extents of a tensor, outermost first.
#[derive(Debug)]
pub struct Shape {
    dims: Vec<usize>,
}

impl View for Shape {
    type V = Seq<usize>;

    closed spec fn view(&self) -> Seq<usize> {
        self.dims@
    }
}

impl Clone for Shape {
    fn clone(&self) -> (r: Self)
        ensures
            r@ == self@,
    {
        Shape { dims: copied(&self.dims) }
    }
}

/// A copy of a list of extents.
pub fn copied(list: &Vec<usize>) -> (r: Vec<usize>)
    ensures
        r@ == list@,
{
    let mut out: Vec<usize> = Vec::with_capacity(list.len());
    let mut i: usize = 0;
    while i < list.len()
        invariant
            i <= list.len(),
            out@ == list@.take(i as int),
        decreases list.len() - i,
    {
        out.push(list[i]);
        proof {
            assert(out@ =~= list@.take(i as int + 1));
        }
        i += 1;
    }
    proof {
        assert(list@.take(list.len() as int) =~= list@);
    }
    out
}

/// Whether two lists of extents are the same.
pub fn same_list(a: &Vec<usize>, b: &Vec<usize>) -> (r: bool)
    ensures
        r == (a@ == b@),
{
    if a.len() != b.len() {
        return false;
    }
    let mut i: usize = 0;
    while i < a.len()
        invariant
            i <= a.len(),
            a.len() == b.len(),
            forall|j: int| 0 <= j < i ==> a@[j] == b@[j],
        decreases a.len() - i,
    {
        if a[i] != b[i] {
            return false;
        }
        i += 1;
    }
    proof {
        assert(a@ =~= b@);
    }
    true
}

/// The product of a list of extents, or `None` when it does not fit a word.
///
/// A zero extent makes the whole product zero, however large the others are.
pub fn checked_product(list: &Vec<usize>) -> (r: Option<usize>)
    ensures
        match r {
            Some(n) => n == product(list@),
            None => product(list@) > usize::MAX,
        },
{
    let mut i: usize = 0;
    while i < list.len()
        invariant
            i <= list.len(),
            forall|j: int| 0 <= j < i ==> list@[j] != 0,
        decreases list.len() - i,
    {
        if list[i] == 0 {
            proof {
                lemma_product_zero(list@, i as int);
            }
            return Some(0);
        }
        i += 1;
    }
    let mut total: usize = 1;
    let mut k: usize = 0;
    while k < list.len()
        invariant
            k <= list.len(),
            forall|j: int| 0 <= j < list.len() ==> list@[j] != 0,
            total == product(list@.take(k as int)),
        decreases list.len() - k,
    {
        proof {
            assert(list@.take(k as int + 1).drop_last() =~= list@.take(k as int));
            assert(product(list@.take(k as int + 1)) == total as nat * list@[k as int] as nat);
        }
        match total.checked_mul(list[k]) {
            Some(next) => {
                total = next;
            },
            None => {
                proof {
                    lemma_product_prefix(list@, k as int + 1);
                }
                return None;
            },
        }
        k += 1;
    }
    proof {
        assert(list@.take(list.len() as int) =~= list@);
    }
    Some(total)
}

pub proof fn lemma_product_zero(s: Seq<usize>, i: int)
    requires
        0 <= i < s.len(),
        s[i] == 0,
    ensures
        product(s) == 0,
    decreases s.len(),
{
    if i < s.len() - 1 {
        lemma_product_zero(s.drop_last(), i);
        assert(0 * s.last() as nat == 0) by (nonlinear_arith);
    } else {
        let head = product(s.drop_last());
        assert(head * 0 == 0) by (nonlinear_arith);
    }
}

/// Extents that are all positive multiply to something at least as large as the
/// product of any prefix of them.
pub proof fn lemma_product_prefix(s: Seq<usize>, k: int)
    requires
        0 <= k <= s.len(),
        forall|j: int| 0 <= j < s.len() ==> s[j] != 0,
    ensures
        product(s.take(k)) <= product(s),
        product(s) >= 1,
    decreases s.len(),
{
    if s.len() > 0 {
        let head = s.drop_last();
        if k < s.len() {
            lemma_product_prefix(head, k);
            assert(head.take(k) =~= s.take(k));
        } else {
            lemma_product_prefix(head, head.len() as int);
            assert(s.take(k) =~= s);
        }
        let h = product(head);
        let l = s.last() as nat;
        assert(h * l >= h && h * l >= 1) by (nonlinear_arith)
            requires
                h >= 1,
                l >= 1,
        ;
    } else {
        assert(s.take(k) =~= s);
    }
}

fn broadcast_error(a: &Vec<usize>, b: &Vec<usize>) -> (e: Error)
    ensures
        e@ == Fault::Shape(broadcast_message(a@, b@)),
{
    let mut text = String::new();
    text.append("cannot broadcast ");
    append_bracketed(&mut text, a);
    text.append(" against ");
    append_bracketed(&mut text, b);
    proof {
        assert(text@ =~= broadcast_message(a@, b@));
    }
    Error::Shape(text)
}

fn padded_list(list: &Vec<usize>, rank: usize) -> (r: Vec<usize>)
    ensures
        r@ == left_padded(list@, rank as nat),
{
    if rank <= list.len() {
        return copied(list);
    }
    let missing: usize = rank - list.len();
    let mut out: Vec<usize> = Vec::with_capacity(rank);
    let mut i: usize = 0;
    while i < missing
        invariant
            i <= missing,
            out@ == Seq::new(i as nat, |j: int| 1usize),
        decreases missing - i,
    {
        out.push(1);
        proof {
            assert(out@ =~= Seq::new(i as nat + 1, |j: int| 1usize));
        }
        i += 1;
    }
    let mut k: usize = 0;
    while k < list.len()
        invariant
            k <= list.len(),
            out@ == Seq::new(missing as nat, |j: int| 1usize) + list@.take(k as int),
        decreases list.len() - k,
    {
        out.push(list[k]);
        proof {
            assert(out@ =~= Seq::new(missing as nat, |j: int| 1usize) + list@.take(k as int + 1));
        }
        k += 1;
    }
    proof {
        assert(list@.take(list.len() as int) =~= list@);
    }
    out
}

impl Shape {
    /// A shape with the given extents.
    pub fn new(dims: Vec<usize>) -> (r: Self)
        ensures
            r@ == dims@,
    {
        Shape { dims }
    }

    /// The shape of a single value: no axes.
    pub fn scalar() -> (r: Self)
        ensures
            r@ == Seq::<usize>::empty(),
    {
        Shape { dims: Vec::new() }
    }

    /// The extents.
    pub fn dims(&self) -> (r: &Vec<usize>)
        ensures
            r@ == self@,
    {
        &self.dims
    }

    /// Number of axes.
    pub fn rank(&self) -> (r: usize)
        ensures
            r == self@.len(),
    {
        self.dims.len()
    }

    /// Extent of one axis.
    pub fn dim(&self, axis: usize) -> (r: usize)
        requires
            axis < self@.len(),
        ensures
            r == self@[axis as int],
    {
        self.dims[axis]
    }

    /// Extent of the axis `back` places before the last.
    pub fn dim_from_end(&self, back: usize) -> (r: usize)
        requires
            back < self@.len(),
        ensures
            r == self@[self@.len() - 1 - back],
    {
        self.dims[self.dims.len() - 1 - back]
    }

    /// Number of elements.
    pub fn num_elements(&self) -> (r: usize)
        requires
            fits(self@),
        ensures
            r == product(self@),
    {
        match checked_product(&self.dims) {
            Some(n) => n,
            None => 0,
        }
    }

    /// Number of elements, or `None` when it does not fit a word.
    pub fn checked_elements(&self) -> (r: Option<usize>)
        ensures
            match r {
                Some(n) => n == product(self@),
                None => !fits(self@),
            },
    {
        checked_product(&self.dims)
    }

    /// Whether two shapes are the same.
    pub fn same(&self, other: &Shape) -> (r: bool)
        ensures
            r == (self@ == other@),
    {
        same_list(&self.dims, &other.dims)
    }

    /// The shape with one axis removed.
    pub fn without(&self, axis: usize) -> (r: Self)
        requires
            axis < self@.len(),
        ensures
            r@ == self@.remove(axis as int),
    {
        let mut dims = copied(&self.dims);
        dims.remove(axis);
        Shape { dims }
    }

    /// The shape with one extent replaced.
    pub fn with_dim(&self, axis: usize, extent: usize) -> (r: Self)
        requires
            axis < self@.len(),
        ensures
            r@ == self@.update(axis as int, extent),
    {
        let mut dims = copied(&self.dims);
        dims.set(axis, extent);
        Shape { dims }
    }

    /// The shape with an axis of extent one inserted.
    pub fn unsqueezed(&self, axis: usize) -> (r: Self)
        requires
            axis <= self@.len(),
        ensures
            r@ == self@.insert(axis as int, 1usize),
    {
        let mut dims = copied(&self.dims);
        dims.insert(axis, 1);
        Shape { dims }
    }

    /// The shape with leading axes of extent one added until it has `rank` axes.
    pub fn left_padded(&self, rank: usize) -> (r: Self)
        ensures
            r@ == left_padded(self@, rank as nat),
    {
        Shape { dims: padded_list(&self.dims, rank) }
    }

    /// The shape two shapes broadcast to.
    pub fn broadcast(a: &Shape, b: &Shape) -> (r: Result<Shape, Error>)
        ensures
            crate::error::agrees(r, broadcast(a@, b@)),
    {
        let rank: usize = if a.dims.len() >= b.dims.len() {
            a.dims.len()
        } else {
            b.dims.len()
        };
        let x = padded_list(&a.dims, rank);
        let y = padded_list(&b.dims, rank);
        let mut out: Vec<usize> = Vec::with_capacity(rank);
        let mut i: usize = 0;
        while i < rank
            invariant
                i <= rank,
                rank == max_rank(a@, b@),
                x@ == left_padded(a@, rank as nat),
                y@ == left_padded(b@, rank as nat),
                x@.len() == rank,
                y@.len() == rank,
                forall|j: int| 0 <= j < i ==> extents_agree(x@[j], y@[j]),
                out@ == broadcast_dims(a@, b@).take(i as int),
            decreases rank - i,
        {
            if x[i] != y[i] && x[i] != 1 && y[i] != 1 {
                proof {
                    assert(!extents_agree(left_padded(a@, rank as nat)[i as int], left_padded(
                        b@,
                        rank as nat,
                    )[i as int]));
                }
                return Err(broadcast_error(&a.dims, &b.dims));
            }
            let extent: usize = if x[i] == 1 {
                y[i]
            } else {
                x[i]
            };
            out.push(extent);
            proof {
                assert(out@ =~= broadcast_dims(a@, b@).take(i as int + 1));
            }
            i += 1;
        }
        proof {
            assert(out@ =~= broadcast_dims(a@, b@));
        }
        Ok(Shape { dims: out })
    }

    /// `Ok` when the rank is the one an operation needs.
    pub fn expect_rank(&self, expected: usize) -> (r: Result<(), Error>)
        ensures
            match r {
                Ok(_) => self@.len() == expected,
                Err(e) => self@.len() != expected && e@ == (Fault::Rank {
                    expected,
                    got: self@.len() as usize,
                    shape: self@,
                }),
            },
    {
        if self.dims.len() == expected {
            Ok(())
        } else {
            Err(Error::Rank { expected, got: self.dims.len(), shape: copied(&self.dims) })
        }
    }
}

// -- places --------------------------------------------------------------------------------

/// The place in an operand of extents `d`, stretched to `out`, that element `i` of the result
/// reads. Elements are counted row by row; an axis of extent one is read over and over.
pub open spec fn place(i: int, out: Seq<usize>, d: Seq<usize>) -> int
    decreases out.len(),
{
    if out.len() == 0 || d.len() == 0 {
        0
    } else {
        let n = out.last() as int;
        place(i / n, out.drop_last(), d.drop_last()) * d.last() + if d.last() == 1 {
            0
        } else {
            i % n
        }
    }
}

/// Whether every extent of `d`, counted from the last, is one or that of `out`, and `out` has
/// elements.
pub open spec fn aligned(out: Seq<usize>, d: Seq<usize>) -> bool {
    &&& forall|k: int| 0 <= k < out.len() ==> #[trigger] out[k] != 0
    &&& forall|k: int|
        0 <= k < d.len() ==> #[trigger] d[k] == 1 || (k + out.len() >= d.len() && d[k] == out[k
            + out.len() - d.len()])
}

/// Every place is one of the operand.
pub proof fn lemma_place_bound(i: int, out: Seq<usize>, d: Seq<usize>)
    requires
        aligned(out, d),
        i >= 0,
    ensures
        0 <= place(i, out, d) < product(d),
    decreases out.len(),
{
    if d.len() == 0 {
    } else if out.len() == 0 {
        assert(forall|k: int| 0 <= k < d.len() ==> #[trigger] d[k] == 1);
        lemma_product_ones(d);
    } else {
        let n = out.last() as int;
        let (o, e) = (out.drop_last(), d.drop_last());
        assert(out[out.len() - 1] != 0);
        assert forall|k: int| 0 <= k < o.len() implies #[trigger] o[k] != 0 by {
            assert(out[k] != 0);
        }
        assert forall|k: int| 0 <= k < e.len() implies #[trigger] e[k] == 1 || (k + o.len()
            >= e.len() && e[k] == o[k + o.len() - e.len()]) by {
            assert(d[k] == 1 || (k + out.len() >= d.len() && d[k] == out[k + out.len() - d.len()]));
        }
        assert(d[d.len() - 1] == 1 || d[d.len() - 1] == out[d.len() - 1 + out.len() - d.len()]);
        vstd::arithmetic::div_mod::lemma_div_pos_is_pos(i, n);
        lemma_place_bound(i / n, o, e);
        let q = place(i / n, o, e);
        let w = d.last() as int;
        let p = product(e) as int;
        let r = if w == 1 {
            0
        } else {
            i % n
        };
        assert(0 <= q * w + r < p * w) by (nonlinear_arith)
            requires
                0 <= q < p,
                0 <= r < w,
        ;
    }
}

/// An operand of the shape of the result is read element by element.
pub proof fn lemma_place_same(i: int, d: Seq<usize>)
    requires
        0 <= i < product(d),
    ensures
        place(i, d, d) == i,
    decreases d.len(),
{
    if d.len() > 0 {
        let n = d.last() as int;
        let p = product(d.drop_last()) as int;
        assert(n > 0) by (nonlinear_arith)
            requires
                0 <= i < p * n,
                p >= 0,
                n >= 0,
        ;
        vstd::arithmetic::div_mod::lemma_fundamental_div_mod(i, n);
        vstd::arithmetic::div_mod::lemma_div_pos_is_pos(i, n);
        assert(i / n < p) by (nonlinear_arith)
            requires
                i == n * (i / n) + i % n,
                0 <= i % n,
                i < p * n,
                n > 0,
        ;
        lemma_place_same(i / n, d.drop_last());
        assert(n * (i / n) == (i / n) * n) by (nonlinear_arith);
        if n == 1 {
            assert(i % n == 0);
        }
    }
}

/// An operand that is put under further leading axes is read over and over.
pub proof fn lemma_place_tiles(i: int, lead: Seq<usize>, d: Seq<usize>)
    requires
        i >= 0,
        product(d) > 0,
    ensures
        place(i, lead + d, d) == i % (product(d) as int),
    decreases d.len(),
{
    if d.len() == 0 {
        assert(i % 1 == 0);
    } else {
        let n = d.last() as int;
        let e = d.drop_last();
        let p = product(e) as int;
        assert(n > 0 && p > 0) by (nonlinear_arith)
            requires
                p * n > 0,
                p >= 0,
                n >= 0,
        ;
        assert((lead + d).drop_last() =~= lead + e);
        vstd::arithmetic::div_mod::lemma_div_pos_is_pos(i, n);
        lemma_place_tiles(i / n, lead, e);
        vstd::arithmetic::div_mod::lemma_breakdown(i, n, p);
        assert(n * p == p * n) by (nonlinear_arith);
        let q = (i / n) % p;
        assert(n * q == q * n) by (nonlinear_arith);
        if n == 1 {
            assert(i % n == 0);
        }
    }
}

pub(crate) proof fn lemma_product_ones(d: Seq<usize>)
    requires
        forall|k: int| 0 <= k < d.len() ==> #[trigger] d[k] == 1,
    ensures
        product(d) == 1,
    decreases d.len(),
{
    if d.len() > 0 {
        let e = d.drop_last();
        assert forall|k: int| 0 <= k < e.len() implies #[trigger] e[k] == 1 by {
            assert(d[k] == 1);
        }
        lemma_product_ones(e);
        assert(d[d.len() - 1] == 1);
        assert(product(d) == product(e) * 1);
    }
}

pub(crate) proof fn lemma_product_one(d: Seq<usize>)
    requires
        product(d) == 1,
    ensures
        forall|k: int| 0 <= k < d.len() ==> #[trigger] d[k] == 1,
    decreases d.len(),
{
    if d.len() > 0 {
        let (p, n) = (product(d.drop_last()), d.last() as nat);
        assert(p == 1 && n == 1) by (nonlinear_arith)
            requires
                p * n == 1,
                p >= 0,
                n >= 0,
        ;
        lemma_product_one(d.drop_last());
        assert forall|k: int| 0 <= k < d.len() implies #[trigger] d[k] == 1 by {
            if k < d.len() - 1 {
                assert(d.drop_last()[k] == 1);
            }
        }
    }
}

/// A single value is aligned with every shape that has elements, and so is every shape that
/// broadcasts to one.
pub proof fn lemma_aligned(out: Seq<usize>, d: Seq<usize>)
    requires
        product(out) > 0,
        product(d) == 1 || (compatible(d, out) && broadcast_dims(d, out) == out),
    ensures
        aligned(out, d),
{
    assert forall|k: int| 0 <= k < out.len() implies #[trigger] out[k] != 0 by {
        if out[k] == 0 {
            lemma_product_zero(out, k);
        }
    }
    if product(d) == 1 {
        lemma_product_one(d);
    } else {
        let n = max_rank(d, out);
        assert(broadcast_dims(d, out).len() == out.len());
        assert forall|k: int| 0 <= k < d.len() implies #[trigger] d[k] == 1 || (k + out.len()
            >= d.len() && d[k] == out[k + out.len() - d.len()]) by {
            let j = k + out.len() - d.len();
            assert(left_padded(d, n)[j] == d[k]);
            assert(left_padded(out, n)[j] == out[j]);
            assert(broadcast_dims(d, out)[j] == out[j]);
        }
    }
}

fn place_within(i: usize, out: &Vec<usize>, d: &Vec<usize>, o: usize, e: usize) -> (r: usize)
    requires
        o <= out@.len(),
        e <= d@.len(),
        aligned(out@.take(o as int), d@.take(e as int)),
        fits(d@),
        forall|k: int| 0 <= k < d@.len() ==> #[trigger] d@[k] != 0,
    ensures
        r == place(i as int, out@.take(o as int), d@.take(e as int)),
        r < product(d@.take(e as int)),
    decreases o,
{
    let ghost (os, ds) = (out@.take(o as int), d@.take(e as int));
    proof {
        lemma_place_bound(i as int, os, ds);
        lemma_product_prefix(d@, e as int);
    }
    if o == 0 || e == 0 {
        return 0;
    }
    let n: usize = out[o - 1];
    let w: usize = d[e - 1];
    proof {
        assert(os.drop_last() =~= out@.take(o as int - 1));
        assert(ds.drop_last() =~= d@.take(e as int - 1));
        assert(os[o as int - 1] != 0);
        let (ot, dt) = (out@.take(o as int - 1), d@.take(e as int - 1));
        assert forall|k: int| 0 <= k < ot.len() implies #[trigger] ot[k] != 0 by {
            assert(os[k] != 0);
        }
        assert forall|k: int| 0 <= k < dt.len() implies #[trigger] dt[k] == 1 || (k + ot.len()
            >= dt.len() && dt[k] == ot[k + ot.len() - dt.len()]) by {
            assert(ds[k] == 1 || (k + os.len() >= ds.len() && ds[k] == os[k + os.len()
                - ds.len()]));
        }
    }
    let head: usize = place_within(i / n, out, d, o - 1, e - 1);
    let here: usize = if w == 1 {
        0
    } else {
        i % n
    };
    proof {
        assert(place(i as int, os, ds) == head * w + here);
        assert(head * w >= 0) by (nonlinear_arith);
    }
    head * w + here
}

/// The place in an operand that element `i` of a result reads.
pub fn place_of(i: usize, out: &Vec<usize>, d: &Vec<usize>) -> (r: usize)
    requires
        i < product(out@),
        fits(d@),
        product(d@) == 1 || (compatible(d@, out@) && broadcast_dims(d@, out@) == out@),
    ensures
        r == place(i as int, out@, d@),
        r < product(d@),
{
    proof {
        lemma_aligned(out@, d@);
        assert(out@.take(out@.len() as int) =~= out@);
        assert(d@.take(d@.len() as int) =~= d@);
        lemma_place_bound(i as int, out@, d@);
        assert forall|k: int| 0 <= k < d@.len() implies #[trigger] d@[k] != 0 by {
            if d@[k] == 0 {
                lemma_product_zero(d@, k);
            }
        }
    }
    place_within(i, out, d, out.len(), d.len())
}

/// Broadcasting does not depend on the order of its operands.
pub proof fn law_broadcast_commutes(a: Seq<usize>, b: Seq<usize>)
    ensures
        compatible(a, b) == compatible(b, a),
        compatible(a, b) ==> broadcast_dims(a, b) == broadcast_dims(b, a),
{
    let n = max_rank(a, b);
    assert(max_rank(b, a) == n);
    if compatible(a, b) {
        assert forall|i: int| 0 <= i < n implies extents_agree(
            #[trigger] left_padded(b, n)[i],
            left_padded(a, n)[i],
        ) by {
            assert(extents_agree(left_padded(a, n)[i], left_padded(b, n)[i]));
        }
        assert forall|i: int| 0 <= i < n implies broadcast_dims(a, b)[i] == broadcast_dims(
            b,
            a,
        )[i] by {
            assert(extents_agree(left_padded(a, n)[i], left_padded(b, n)[i]));
        }
        assert(broadcast_dims(a, b) =~= broadcast_dims(b, a));
    }
    if compatible(b, a) {
        assert forall|i: int| 0 <= i < n implies extents_agree(
            #[trigger] left_padded(a, n)[i],
            left_padded(b, n)[i],
        ) by {
            assert(extents_agree(left_padded(b, n)[i], left_padded(a, n)[i]));
        }
    }
}

/// A shape broadcasts against itself, and stays what it is.
pub proof fn law_broadcast_idempotent(a: Seq<usize>)
    ensures
        compatible(a, a),
        broadcast_dims(a, a) == a,
{
    assert(broadcast_dims(a, a) =~= a);
}

} // verus!
