//! Reversing bands of channels in time.

use vstd::prelude::*;

use crate::autograd::graph::{Session, Tape};
use crate::autograd::ops;
use crate::autograd::ops::cat;
use crate::autograd::var::{Traced, Var};
use crate::error::{Error, Fault};
use crate::shape::copied;
use crate::tensor;

verus! {

/// The extents an axis is cut into: what lies before each band, and each band, and what
/// lies after the last one.
pub open spec fn cut_sizes(bands: Seq<(usize, usize)>, extent: usize, k: nat) -> Seq<usize>
    decreases k,
{
    if k == 0 {
        Seq::empty()
    } else {
        let (from, to) = bands[k - 1];
        let before = if k == 1 {
            0usize
        } else {
            bands[k - 2].1
        };
        cut_sizes(bands, extent, (k - 1) as nat).push((from - before) as usize).push(
            (to - from) as usize,
        )
    }
}

/// Whether bands follow one another within an extent.
pub open spec fn in_order(bands: Seq<(usize, usize)>, extent: usize) -> bool {
    &&& forall|i: int|
        0 <= i < bands.len() ==> (#[trigger] bands[i]).0 <= bands[i].1 && bands[i].1 <= extent
    &&& forall|i: int, j: int|
        0 <= i < j < bands.len() ==> (#[trigger] bands[i]).1 <= (#[trigger] bands[j]).0
}

/// Where the last band ends.
pub open spec fn end_of(bands: Seq<(usize, usize)>) -> usize {
    if bands.len() == 0 {
        0
    } else {
        bands.last().1
    }
}

/// All extents of a cut.
pub open spec fn sizes_of(bands: Seq<(usize, usize)>, extent: usize) -> Seq<usize> {
    cut_sizes(bands, extent, bands.len()).push((extent - end_of(bands)) as usize)
}

/// The first `k` pieces of a cut, every second one reversed along an axis.
pub open spec fn turned_op(t: Tape, pieces: Seq<Traced>, axis: usize, k: nat) -> Result<
    (Tape, Seq<Traced>),
    Fault,
>
    decreases k,
{
    if k == 0 {
        Ok((t, Seq::empty()))
    } else {
        match turned_op(t, pieces, axis, (k - 1) as nat) {
            Err(f) => Err(f),
            Ok((u, done)) => if (k - 1) % 2 == 0 {
                Ok((u, done.push(pieces[k - 1])))
            } else {
                match ops::flip_op(u, pieces[k - 1], axis) {
                    Err(f) => Err(f),
                    Ok((v, p)) => Ok((v, done.push(p))),
                }
            },
        }
    }
}

/// Bands of the trailing axis reversed along another axis; the rest stays.
pub open spec fn reversed_op(t: Tape, x: Traced, axis: usize, bands: Seq<(usize, usize)>) -> Result<
    (Tape, Traced),
    Fault,
> {
    let dims = x.value.dims;
    if dims.len() == 0 {
        Err(Fault::Rank { expected: 1, got: 0, shape: dims })
    } else if !in_order(bands, dims.last()) {
        Err(Fault::Shape("bands must follow one another within the trailing axis"@))
    } else {
        let last = (dims.len() - 1) as usize;
        match ops::split_op(t, x, sizes_of(bands, dims.last()), last) {
            Err(f) => Err(f),
            Ok((t1, pieces)) => match turned_op(t1, pieces, axis, pieces.len()) {
                Err(f) => Err(f),
                Ok((t2, turned)) => ops::cat_op(t2, turned, last),
            },
        }
    }
}

fn ordered(bands: &Vec<(usize, usize)>, extent: usize) -> (r: bool)
    ensures
        r == in_order(bands@, extent),
{
    let mut end: usize = 0;
    let mut i: usize = 0;
    while i < bands.len()
        invariant
            i <= bands.len(),
            end <= extent,
            i == 0 ==> end == 0,
            i > 0 ==> end == bands@[i - 1].1,
            forall|k: int|
                0 <= k < i ==> (#[trigger] bands@[k]).0 <= bands@[k].1 && bands@[k].1 <= end,
            forall|j: int, k: int|
                0 <= j < k < i ==> (#[trigger] bands@[j]).1 <= (#[trigger] bands@[k]).0,
        decreases bands.len() - i,
    {
        let (from, to) = bands[i];
        if from > to || to > extent {
            return false;
        }
        if from < end {
            proof {
                assert(i > 0);
                assert(bands@[i - 1].1 > bands@[i as int].0);
            }
            return false;
        }
        end = to;
        i += 1;
    }
    true
}

fn cut(bands: &Vec<(usize, usize)>, extent: usize) -> (r: Vec<usize>)
    requires
        in_order(bands@, extent),
    ensures
        r@ == sizes_of(bands@, extent),
{
    let mut out: Vec<usize> = Vec::new();
    let mut end: usize = 0;
    let mut i: usize = 0;
    while i < bands.len()
        invariant
            i <= bands.len(),
            in_order(bands@, extent),
            end <= extent,
            i == 0 ==> end == 0,
            i > 0 ==> end == bands@[i - 1].1,
            out@ == cut_sizes(bands@, extent, i as nat),
        decreases bands.len() - i,
    {
        let (from, to) = bands[i];
        proof {
            assert(bands@[i as int].0 <= bands@[i as int].1);
            if i > 0 {
                assert(bands@[i - 1].1 <= bands@[i as int].0);
            }
        }
        out.push(from - end);
        out.push(to - from);
        end = to;
        i += 1;
    }
    out.push(extent - end);
    out
}

proof fn lemma_turned_fails(t: Tape, pieces: Seq<Traced>, axis: usize, j: nat, k: nat)
    requires
        j <= k,
        turned_op(t, pieces, axis, j) is Err,
    ensures
        turned_op(t, pieces, axis, k) == turned_op(t, pieces, axis, j),
    decreases k,
{
    if j < k {
        lemma_turned_fails(t, pieces, axis, j, (k - 1) as nat);
    }
}

impl Var {
    /// Reverse bands of the trailing axis along `axis`, leaving the rest.
    pub fn reverse_bands(&self, s: &mut Session, axis: usize, bands: &Vec<(usize, usize)>) -> (r:
        Result<Self, Error>)
        ensures
            ops::same_value(r, final(s)@, reversed_op(old(s)@, self@, axis, bands@)),
    {
        let rank: usize = self.rank();
        if rank == 0 {
            return Err(Error::Rank { expected: 1, got: 0, shape: copied(self.dims()) });
        }
        let extent: usize = self.shape().dim(rank - 1);
        if !ordered(bands, extent) {
            return Err(
                Error::shape("bands must follow one another within the trailing axis"),
            );
        }
        let sizes = cut(bands, extent);
        let pieces = self.split(s, &sizes, rank - 1)?;
        let ghost all = ops::traced(pieces@);
        let ghost start = s@;
        let mut turned: Vec<Var> = Vec::new();
        let mut i: usize = 0;
        proof {
            assert(ops::traced(turned@) =~= Seq::empty());
        }
        while i < pieces.len()
            invariant
                i <= pieces.len(),
                all == ops::traced(pieces@),
                rank == self@.value.dims.len(),
                rank > 0,
                in_order(bands@, self@.value.dims.last()),
                ops::split_op(
                    old(s)@,
                    self@,
                    sizes_of(bands@, self@.value.dims.last()),
                    (rank - 1) as usize,
                ) == Ok::<(Tape, Seq<Traced>), Fault>((start, all)),
                turned_op(start, all, axis, i as nat) == Ok::<(Tape, Seq<Traced>), Fault>(
                    (s@, ops::traced(turned@)),
                ),
            decreases pieces.len() - i,
        {
            let ghost before = ops::traced(turned@);
            proof {
                assert(all[i as int] == pieces@[i as int]@);
            }
            let piece = if i % 2 == 0 {
                pieces[i].clone()
            } else {
                match pieces[i].flip(s, axis) {
                    Ok(p) => p,
                    Err(e) => {
                        proof {
                            lemma_turned_fails(start, all, axis, (i + 1) as nat, all.len());
                        }
                        return Err(e);
                    },
                }
            };
            turned.push(piece);
            proof {
                assert(ops::traced(turned@) =~= before.push(piece@));
            }
            i += 1;
        }
        cat(s, &turned, rank - 1)
    }
}

/// The cut of an axis tiles it.
pub proof fn law_cut_tiles_the_axis(bands: Seq<(usize, usize)>, extent: usize)
    requires
        in_order(bands, extent),
    ensures
        tensor::total(sizes_of(bands, extent)) == extent,
{
    lemma_cut_total(bands, extent, bands.len());
    let c = cut_sizes(bands, extent, bands.len());
    assert(sizes_of(bands, extent).drop_last() =~= c);
}

proof fn lemma_cut_total(bands: Seq<(usize, usize)>, extent: usize, k: nat)
    requires
        in_order(bands, extent),
        k <= bands.len(),
    ensures
        tensor::total(cut_sizes(bands, extent, k)) == (if k == 0 {
            0
        } else {
            bands[k - 1].1 as nat
        }),
    decreases k,
{
    if k > 0 {
        lemma_cut_total(bands, extent, (k - 1) as nat);
        let c = cut_sizes(bands, extent, (k - 1) as nat);
        let (from, to) = bands[k - 1];
        let before = if k == 1 {
            0usize
        } else {
            bands[k - 2].1
        };
        assert(before <= from);
        let one = c.push((from - before) as usize);
        let two = one.push((to - from) as usize);
        assert(one.drop_last() =~= c);
        assert(two.drop_last() =~= one);
        assert(tensor::total(one) == tensor::total(c) + (from - before));
        assert(tensor::total(two) == tensor::total(one) + (to - from));
    }
}

} // verus!
