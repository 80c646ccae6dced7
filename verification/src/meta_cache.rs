//! Which metadata buffers are kept on a device.
//!
//! Every broadcasting operation describes its shapes to the kernel in a small buffer.
//! The same shapes come back at every step, so a buffer is uploaded once and kept, by
//! device and contents.

use vstd::prelude::*;

verus! {

/// Distinct buffers held per device before that device's are dropped.
pub const META_CACHE_LIMIT: usize = 512;

/// A buffer on a device: which device, what it holds, and its handle.
pub struct Kept {
    pub device: u64,
    pub meta: Vec<u32>,
    pub handle: u64,
}

/// A kept buffer as a mathematical value.
pub struct Slot {
    pub device: u64,
    pub meta: Seq<u32>,
    pub handle: u64,
}

impl View for Kept {
    type V = Slot;

    open spec fn view(&self) -> Slot {
        Slot { device: self.device, meta: self.meta@, handle: self.handle }
    }
}

pub open spec fn slots(s: Seq<Kept>) -> Seq<Slot> {
    s.map_values(|k: Kept| k@)
}

/// The handle of the buffer with given contents on a device.
pub open spec fn lookup(s: Seq<Slot>, device: u64, meta: Seq<u32>) -> Option<u64>
    decreases s.len(),
{
    if s.len() == 0 {
        None
    } else if s.last().device == device && s.last().meta == meta {
        Some(s.last().handle)
    } else {
        lookup(s.drop_last(), device, meta)
    }
}

/// How many buffers a device holds.
pub open spec fn held(s: Seq<Slot>, device: u64) -> nat
    decreases s.len(),
{
    if s.len() == 0 {
        0
    } else {
        held(s.drop_last(), device) + if s.last().device == device {
            1nat
        } else {
            0nat
        }
    }
}

/// Everything but one device's buffers.
pub open spec fn without(s: Seq<Slot>, device: u64) -> Seq<Slot>
    decreases s.len(),
{
    if s.len() == 0 {
        Seq::empty()
    } else if s.last().device == device {
        without(s.drop_last(), device)
    } else {
        without(s.drop_last(), device).push(s.last())
    }
}

/// The cache with one more buffer. A device that is full is emptied first, wholesale.
pub open spec fn kept(s: Seq<Slot>, e: Slot) -> Seq<Slot> {
    if lookup(s, e.device, e.meta) is Some {
        s
    } else if held(s, e.device) >= META_CACHE_LIMIT {
        without(s, e.device).push(e)
    } else {
        s.push(e)
    }
}

/// The buffers kept between launches.
pub struct MetaCache {
    enabled: bool,
    entries: Vec<Kept>,
}

/// A cache as a mathematical value.
pub struct Shelf {
    pub enabled: bool,
    pub entries: Seq<Slot>,
}

impl View for MetaCache {
    type V = Shelf;

    closed spec fn view(&self) -> Shelf {
        Shelf { enabled: self.enabled, entries: slots(self.entries@) }
    }
}

fn same_words(a: &Vec<u32>, b: &Vec<u32>) -> (r: bool)
    ensures
        r == (a@ == b@),
{
    if a.len() != b.len() {
        return false;
    }
    let mut i: usize = 0;
    while i < a.len()
        invariant
            i <= a@.len(),
            a@.len() == b@.len(),
            forall|k: int| 0 <= k < i ==> #[trigger] a@[k] == b@[k],
        decreases a@.len() - i,
    {
        if a[i] != b[i] {
            return false;
        }
        i += 1;
    }
    proof {
        assert(a@ =~= b@);
    }
    true
}

impl MetaCache {
    /// An empty cache; whether it keeps anything is for the caller to say.
    pub fn new(enabled: bool) -> (r: Self)
        ensures
            r@ == (Shelf { enabled, entries: Seq::empty() }),
    {
        let c = MetaCache { enabled, entries: Vec::new() };
        proof {
            assert(slots(c.entries@) =~= Seq::<Slot>::empty());
        }
        c
    }

    /// The buffer to reuse, if one is kept. A cache that is off keeps none.
    pub fn find(&self, device: u64, meta: &Vec<u32>) -> (r: Option<u64>)
        ensures
            r == if self@.enabled {
                lookup(self@.entries, device, meta@)
            } else {
                None
            },
    {
        if !self.enabled {
            return None;
        }
        let ghost all = slots(self.entries@);
        let mut i: usize = self.entries.len();
        proof {
            assert(all.take(i as int) =~= all);
        }
        while i > 0
            invariant
                i <= self.entries@.len(),
                all == slots(self.entries@),
                self@.enabled,
                self@.entries == all,
                lookup(all, device, meta@) == lookup(all.take(i as int), device, meta@),
            decreases i,
        {
            i -= 1;
            proof {
                assert(all.take(i as int + 1).drop_last() =~= all.take(i as int));
                assert(all.take(i as int + 1).last() == self.entries@[i as int]@);
            }
            if self.entries[i].device == device && same_words(&self.entries[i].meta, meta) {
                return Some(self.entries[i].handle);
            }
        }
        None
    }

    fn count(&self, device: u64) -> (r: usize)
        ensures
            r == held(self@.entries, device),
    {
        let ghost all = slots(self.entries@);
        let mut n: usize = 0;
        let mut i: usize = 0;
        while i < self.entries.len()
            invariant
                i <= self.entries@.len(),
                n <= i,
                all == slots(self.entries@),
                n == held(all.take(i as int), device),
            decreases self.entries@.len() - i,
        {
            proof {
                assert(all.take(i as int + 1).drop_last() =~= all.take(i as int));
                assert(all.take(i as int + 1).last() == self.entries@[i as int]@);
            }
            if self.entries[i].device == device {
                n += 1;
            }
            i += 1;
        }
        proof {
            assert(all.take(i as int) =~= all);
        }
        n
    }

    /// Keep a buffer that was just uploaded. A cache that is off keeps nothing.
    pub fn keep(&mut self, device: u64, meta: Vec<u32>, handle: u64)
        ensures
            final(self)@.enabled == old(self)@.enabled,
            final(self)@.entries == if old(self)@.enabled {
                kept(old(self)@.entries, Slot { device, meta: meta@, handle })
            } else {
                old(self)@.entries
            },
    {
        if !self.enabled || self.find(device, &meta).is_some() {
            return;
        }
        if self.count(device) >= META_CACHE_LIMIT {
            self.drop_device(device);
        }
        let ghost before = slots(self.entries@);
        let entry = Kept { device, meta, handle };
        let ghost e = entry@;
        self.entries.push(entry);
        proof {
            assert(slots(self.entries@) =~= before.push(e));
        }
    }

    fn drop_device(&mut self, device: u64)
        ensures
            final(self)@ == (Shelf {
                enabled: old(self)@.enabled,
                entries: without(old(self)@.entries, device),
            }),
    {
        let ghost all = slots(self.entries@);
        let mut rest: Vec<Kept> = Vec::new();
        std::mem::swap(&mut rest, &mut self.entries);
        let mut out: Vec<Kept> = Vec::new();
        let n: usize = rest.len();
        let mut i: usize = 0;
        proof {
            assert(slots(out@) =~= without(all.take(0), device));
        }
        while i < n
            invariant
                i <= n,
                n == rest@.len(),
                all == slots(rest@),
                slots(out@) == without(all.take(i as int), device),
            decreases n - i,
        {
            proof {
                assert(all.take(i as int + 1).drop_last() =~= all.take(i as int));
                assert(all.take(i as int + 1).last() == rest@[i as int]@);
            }
            if rest[i].device != device {
                let ghost before = slots(out@);
                let e = Kept {
                    device: rest[i].device,
                    meta: copied(&rest[i].meta),
                    handle: rest[i].handle,
                };
                out.push(e);
                proof {
                    assert(slots(out@) =~= before.push(rest@[i as int]@));
                }
            }
            i += 1;
        }
        proof {
            assert(all.take(n as int) =~= all);
        }
        self.entries = out;
    }

    /// Choose whether buffers are kept; turning the cache off drops what it holds.
    pub fn set_meta_cache(&mut self, on: bool)
        ensures
            final(self)@ == (Shelf {
                enabled: on,
                entries: if on {
                    old(self)@.entries
                } else {
                    Seq::empty()
                },
            }),
    {
        self.enabled = on;
        if !on {
            self.clear_meta_cache();
        }
    }

    /// Drop every kept buffer.
    pub fn clear_meta_cache(&mut self)
        ensures
            final(self)@ == (Shelf { enabled: old(self)@.enabled, entries: Seq::empty() }),
    {
        self.entries = Vec::new();
        proof {
            assert(slots(self.entries@) =~= Seq::<Slot>::empty());
        }
    }
}

fn copied(list: &Vec<u32>) -> (r: Vec<u32>)
    ensures
        r@ == list@,
{
    let mut out: Vec<u32> = Vec::new();
    let mut i: usize = 0;
    while i < list.len()
        invariant
            i <= list@.len(),
            out@ == list@.take(i as int),
        decreases list@.len() - i,
    {
        out.push(list[i]);
        i += 1;
        proof {
            assert(out@ =~= list@.take(i as int));
        }
    }
    proof {
        assert(list@.take(list@.len() as int) =~= list@);
    }
    out
}

/// A buffer that was kept is found again, under its own device and contents.
pub proof fn law_kept_buffer_is_found(s: Seq<Slot>, e: Slot)
    ensures
        lookup(kept(s, e), e.device, e.meta) == match lookup(s, e.device, e.meta) {
            Some(h) => Some(h),
            None => Some(e.handle),
        },
{
    assert(s.push(e).drop_last() =~= s);
    assert(without(s, e.device).push(e).drop_last() =~= without(s, e.device));
}

/// Keeping a buffer for one device changes nothing for another: a buffer allocated
/// through one device is never handed to another, nor dropped on its account.
pub proof fn law_devices_do_not_share(s: Seq<Slot>, e: Slot, device: u64, meta: Seq<u32>)
    requires
        device != e.device,
    ensures
        lookup(kept(s, e), device, meta) == lookup(s, device, meta),
{
    assert(s.push(e).drop_last() =~= s);
    let w = without(s, e.device);
    assert(w.push(e).drop_last() =~= w);
    lemma_without_lookup(s, e.device, device, meta);
}

proof fn lemma_without_lookup(s: Seq<Slot>, dropped: u64, device: u64, meta: Seq<u32>)
    requires
        device != dropped,
    ensures
        lookup(without(s, dropped), device, meta) == lookup(s, device, meta),
    decreases s.len(),
{
    if s.len() > 0 {
        lemma_without_lookup(s.drop_last(), dropped, device, meta);
        let w = without(s.drop_last(), dropped);
        assert(w.push(s.last()).drop_last() =~= w);
    }
}

/// No device ever holds more buffers than the limit.
pub proof fn law_limit_is_kept(s: Seq<Slot>, e: Slot, device: u64)
    requires
        held(s, device) <= META_CACHE_LIMIT,
        held(s, e.device) <= META_CACHE_LIMIT,
    ensures
        held(kept(s, e), device) <= META_CACHE_LIMIT,
{
    assert(s.push(e).drop_last() =~= s);
    let w = without(s, e.device);
    assert(w.push(e).drop_last() =~= w);
    lemma_without_held(s, e.device, device);
}

proof fn lemma_without_held(s: Seq<Slot>, dropped: u64, device: u64)
    ensures
        held(without(s, dropped), device) == if device == dropped {
            0
        } else {
            held(s, device)
        },
    decreases s.len(),
{
    if s.len() > 0 {
        lemma_without_held(s.drop_last(), dropped, device);
        let w = without(s.drop_last(), dropped);
        assert(w.push(s.last()).drop_last() =~= w);
    }
}

} // verus!
