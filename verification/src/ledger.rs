//! A map from numbers to entries, kept in ascending order of its keys.
//!
//! Keys that arrive in increasing order are appended, which is how a tape grows.

use vstd::prelude::*;

verus! {

/// Whether a list of pairs is in strictly ascending order of the first component.
pub open spec fn ascending<T>(s: Seq<(u64, T)>) -> bool {
    forall|i: int, j: int| 0 <= i < j < s.len() ==> (#[trigger] s[i]).0 < (#[trigger] s[j]).0
}

/// Entries by key, in ascending order of the keys.
pub struct Ledger<T> {
    items: Vec<(u64, T)>,
}

impl<T> View for Ledger<T> {
    type V = Map<u64, T>;

    closed spec fn view(&self) -> Map<u64, T> {
        as_map(self.items@)
    }
}

/// Whether some pair carries the key.
pub open spec fn holds<T>(s: Seq<(u64, T)>, k: u64) -> bool {
    exists|i: int| 0 <= i < s.len() && (#[trigger] s[i]).0 == k
}

/// The map that a list of pairs stands for.
pub open spec fn as_map<T>(s: Seq<(u64, T)>) -> Map<u64, T> {
    Map::new(
        |k: u64| holds(s, k),
        |k: u64| s[choose|i: int| 0 <= i < s.len() && (#[trigger] s[i]).0 == k].1,
    )
}

proof fn lemma_entry<T>(s: Seq<(u64, T)>, i: int)
    requires
        ascending(s),
        0 <= i < s.len(),
    ensures
        as_map(s).contains_key(s[i].0),
        as_map(s)[s[i].0] == s[i].1,
{
    let k = s[i].0;
    assert(holds(s, k));
    let j = choose|j: int| 0 <= j < s.len() && (#[trigger] s[j]).0 == k;
    assert(j == i) by {
        if j < i {
            assert(s[j].0 < s[i].0);
        } else if i < j {
            assert(s[i].0 < s[j].0);
        }
    }
}

proof fn lemma_inserted<T>(s: Seq<(u64, T)>, i: int, k: u64, v: T)
    requires
        ascending(s),
        0 <= i <= s.len(),
        forall|j: int| 0 <= j < i ==> (#[trigger] s[j]).0 < k,
        forall|j: int| i <= j < s.len() ==> (#[trigger] s[j]).0 > k,
    ensures
        ascending(s.insert(i, (k, v))),
        as_map(s.insert(i, (k, v))) == as_map(s).insert(k, v),
        !as_map(s).contains_key(k),
{
    let t = s.insert(i, (k, v));
    assert forall|a: int, b: int| 0 <= a < b < t.len() implies (#[trigger] t[a]).0 < (#[trigger] t[b]).0 by {
        let sa = if a < i { a } else { a - 1 };
        let sb = if b < i { b } else { b - 1 };
        if a != i {
            assert(t[a] == s[sa]);
        }
        if b != i {
            assert(t[b] == s[sb]);
        }
    }
    lemma_entry(t, i);
    assert forall|x: u64|
        #![trigger as_map(t).dom().contains(x)]
        #![trigger as_map(t)[x]]
        x != k implies (as_map(t).dom().contains(x) <==> as_map(s).dom().contains(x))
        && (as_map(s).dom().contains(x) ==> as_map(t)[x] == as_map(s)[x]) by {
        if holds(s, x) {
            let a = choose|a: int| 0 <= a < s.len() && (#[trigger] s[a]).0 == x;
            lemma_entry(s, a);
            let b = if a < i { a } else { a + 1 };
            assert(t[b] == s[a]);
            lemma_entry(t, b);
        }
        if holds(t, x) {
            let b = choose|b: int| 0 <= b < t.len() && (#[trigger] t[b]).0 == x;
            assert(b != i);
            let a = if b < i { b } else { b - 1 };
            assert(t[b] == s[a]);
        }
    }
    assert(as_map(t) =~= as_map(s).insert(k, v));
}

proof fn lemma_removed<T>(s: Seq<(u64, T)>, i: int)
    requires
        ascending(s),
        0 <= i < s.len(),
    ensures
        ascending(s.remove(i)),
        as_map(s.remove(i)) == as_map(s).remove(s[i].0),
{
    let t = s.remove(i);
    let k = s[i].0;
    assert forall|a: int, b: int| 0 <= a < b < t.len() implies (#[trigger] t[a]).0 < (#[trigger] t[b]).0 by {
        let sa = if a < i { a } else { a + 1 };
        let sb = if b < i { b } else { b + 1 };
        assert(t[a] == s[sa]);
        assert(t[b] == s[sb]);
    }
    assert forall|x: u64|
        #![trigger as_map(t).dom().contains(x)]
        #![trigger as_map(t)[x]]
        (as_map(t).dom().contains(x) <==> (x != k && as_map(s).dom().contains(x)))
        && (as_map(t).dom().contains(x) ==> as_map(t)[x] == as_map(s)[x]) by {
        if holds(t, x) {
            let b = choose|b: int| 0 <= b < t.len() && (#[trigger] t[b]).0 == x;
            let a = if b < i { b } else { b + 1 };
            assert(t[b] == s[a]);
            lemma_entry(s, a);
            lemma_entry(t, b);
            if a < i {
                assert(s[a].0 < s[i].0);
            } else {
                assert(s[i].0 < s[a].0);
            }
        }
        if holds(s, x) && x != k {
            let a = choose|a: int| 0 <= a < s.len() && (#[trigger] s[a]).0 == x;
            let b = if a < i { a } else { a - 1 };
            assert(t[b] == s[a]);
        }
    }
    assert(as_map(t) =~= as_map(s).remove(k));
}

proof fn lemma_replaced<T>(s: Seq<(u64, T)>, i: int, v: T)
    requires
        ascending(s),
        0 <= i < s.len(),
    ensures
        ascending(s.update(i, (s[i].0, v))),
        as_map(s.update(i, (s[i].0, v))) == as_map(s).insert(s[i].0, v),
{
    let k = s[i].0;
    let t = s.update(i, (k, v));
    assert forall|a: int, b: int| 0 <= a < b < t.len() implies (#[trigger] t[a]).0 < (#[trigger] t[b]).0 by {
        assert(t[a].0 == s[a].0);
        assert(t[b].0 == s[b].0);
    }
    lemma_entry(t, i);
    assert forall|x: u64|
        #![trigger as_map(t).dom().contains(x)]
        #![trigger as_map(t)[x]]
        x != k implies (as_map(t).dom().contains(x) <==> as_map(s).dom().contains(x))
        && (as_map(s).dom().contains(x) ==> as_map(t)[x] == as_map(s)[x]) by {
        if holds(s, x) {
            let a = choose|a: int| 0 <= a < s.len() && (#[trigger] s[a]).0 == x;
            lemma_entry(s, a);
            assert(t[a] == s[a]);
            lemma_entry(t, a);
        }
        if holds(t, x) {
            let a = choose|a: int| 0 <= a < t.len() && (#[trigger] t[a]).0 == x;
            assert(t[a].0 == s[a].0);
        }
    }
    assert(as_map(t) =~= as_map(s).insert(k, v));
}

impl<T> Ledger<T> {
    #[verifier::type_invariant]
    closed spec fn ordered(self) -> bool {
        ascending(self.items@)
    }

    /// The keys in ascending order.
    pub closed spec fn keys(&self) -> Seq<u64> {
        self.items@.map_values(|p: (u64, T)| p.0)
    }

    /// An empty ledger.
    pub fn new() -> (r: Self)
        ensures
            r@ == Map::<u64, T>::empty(),
            r.keys() == Seq::<u64>::empty(),
    {
        let r = Ledger { items: Vec::new() };
        proof {
            assert(r@ =~= Map::<u64, T>::empty());
            assert(r.keys() =~= Seq::<u64>::empty());
        }
        r
    }

    /// Number of entries. The keys, in ascending order, are the domain.
    pub fn len(&self) -> (r: usize)
        ensures
            r == self.keys().len(),
            forall|i: int, j: int|
                0 <= i < j < self.keys().len() ==> self.keys()[i] < self.keys()[j],
            self.keys().to_set() == self@.dom(),
            self.keys().no_duplicates(),
    {
        proof {
            use_type_invariant(self);
            assert forall|i: int, j: int| 0 <= i < j < self.keys().len() implies self.keys()[i]
                < self.keys()[j] by {
                assert(self.items@[i].0 < self.items@[j].0);
            }
            assert forall|k: u64| self.keys().to_set().contains(k) <==> self@.dom().contains(k) by {
                if self.keys().to_set().contains(k) {
                    let i = choose|i: int| 0 <= i < self.keys().len() && self.keys()[i] == k;
                    lemma_entry(self.items@, i);
                }
                if holds(self.items@, k) {
                    let i = choose|i: int|
                        0 <= i < self.items@.len() && (#[trigger] self.items@[i]).0 == k;
                    assert(self.keys()[i] == k);
                }
            }
            assert(self.keys().to_set() =~= self@.dom());
        }
        self.items.len()
    }

    /// The key in place `i` of the ascending order.
    pub fn key_at(&self, i: usize) -> (r: u64)
        requires
            i < self.keys().len(),
        ensures
            r == self.keys()[i as int],
            self@.contains_key(r),
    {
        proof {
            use_type_invariant(self);
            lemma_entry(self.items@, i as int);
        }
        self.items[i].0
    }

    /// The entry in place `i` of the ascending order.
    pub fn entry_at(&self, i: usize) -> (r: &T)
        requires
            i < self.keys().len(),
        ensures
            self@.contains_key(self.keys()[i as int]),
            *r == self@[self.keys()[i as int]],
    {
        proof {
            use_type_invariant(self);
            lemma_entry(self.items@, i as int);
        }
        &self.items[i].1
    }

    /// The number of keys below `k`.
    fn position(&self, k: u64) -> (r: usize)
        ensures
            r <= self.items@.len(),
            forall|j: int| 0 <= j < r ==> (#[trigger] self.items@[j]).0 < k,
            forall|j: int| r <= j < self.items@.len() ==> (#[trigger] self.items@[j]).0 >= k,
    {
        proof {
            use_type_invariant(self);
        }
        let mut lo: usize = 0;
        let mut hi: usize = self.items.len();
        while lo < hi
            invariant
                lo <= hi <= self.items@.len(),
                ascending(self.items@),
                forall|j: int| 0 <= j < lo ==> (#[trigger] self.items@[j]).0 < k,
                forall|j: int| hi <= j < self.items@.len() ==> (#[trigger] self.items@[j]).0 >= k,
            decreases hi - lo,
        {
            let mid: usize = lo + (hi - lo) / 2;
            if self.items[mid].0 < k {
                proof {
                    assert forall|j: int| 0 <= j < mid + 1 implies (#[trigger] self.items@[j]).0
                        < k by {
                        if j < mid {
                            assert(self.items@[j].0 < self.items@[mid as int].0);
                        }
                    }
                }
                lo = mid + 1;
            } else {
                proof {
                    assert forall|j: int| mid <= j < self.items@.len() implies (
                    #[trigger] self.items@[j]).0 >= k by {
                        if mid < j {
                            assert(self.items@[mid as int].0 < self.items@[j].0);
                        }
                    }
                }
                hi = mid;
            }
        }
        lo
    }

    /// The entry under a key.
    pub fn get(&self, k: u64) -> (r: Option<&T>)
        ensures
            match r {
                Some(v) => self@.contains_key(k) && *v == self@[k],
                None => !self@.contains_key(k),
            },
    {
        let i: usize = self.position(k);
        proof {
            use_type_invariant(self);
        }
        if i < self.items.len() && self.items[i].0 == k {
            proof {
                lemma_entry(self.items@, i as int);
            }
            Some(&self.items[i].1)
        } else {
            proof {
                if holds(self.items@, k) {
                    let j = choose|j: int|
                        0 <= j < self.items@.len() && (#[trigger] self.items@[j]).0 == k;
                    assert(j >= i);
                    if j > i {
                        assert(self.items@[i as int].0 < self.items@[j].0);
                    }
                }
            }
            None
        }
    }

    /// Put an entry under a key, replacing what was there.
    pub fn insert(&mut self, k: u64, v: T)
        ensures
            final(self)@ == old(self)@.insert(k, v),
    {
        let i: usize = self.position(k);
        proof {
            use_type_invariant(&*self);
        }
        let mut items: Vec<(u64, T)> = Vec::new();
        std::mem::swap(&mut items, &mut self.items);
        let ghost before = items@;
        if i < items.len() && items[i].0 == k {
            proof {
                lemma_replaced(before, i as int, v);
            }
            items.set(i, (k, v));
        } else {
            proof {
                assert forall|j: int| i <= j < before.len() implies (#[trigger] before[j]).0 > k by {
                    if i < j {
                        assert(before[i as int].0 < before[j].0);
                    }
                }
                lemma_inserted(before, i as int, k, v);
            }
            items.insert(i, (k, v));
        }
        self.items = items;
    }

    /// Take the entry under a key away.
    pub fn remove(&mut self, k: u64) -> (r: Option<T>)
        ensures
            final(self)@ == old(self)@.remove(k),
            match r {
                Some(v) => old(self)@.contains_key(k) && v == old(self)@[k],
                None => !old(self)@.contains_key(k),
            },
    {
        let i: usize = self.position(k);
        proof {
            use_type_invariant(&*self);
        }
        if i < self.items.len() && self.items[i].0 == k {
            let mut items: Vec<(u64, T)> = Vec::new();
            std::mem::swap(&mut items, &mut self.items);
            proof {
                lemma_entry(items@, i as int);
                lemma_removed(items@, i as int);
            }
            let taken = items.remove(i);
            self.items = items;
            Some(taken.1)
        } else {
            proof {
                if holds(self.items@, k) {
                    let j = choose|j: int|
                        0 <= j < self.items@.len() && (#[trigger] self.items@[j]).0 == k;
                    assert(j >= i);
                    if j > i {
                        assert(self.items@[i as int].0 < self.items@[j].0);
                    }
                }
                assert(old(self)@.remove(k) =~= old(self)@);
            }
            None
        }
    }
}

} // verus!
