//! Snapshots of a model's weights, keyed by parameter path.

use vstd::prelude::*;

use super::module;
use super::module::{Module, Tree};
use super::param;
use super::param::Param;
use super::store::{Held, Store, Stored};
use crate::error::{Error, Fault};
use crate::shape::{Shape, same_list};
use crate::tensor::{Tensor, Value};
use crate::text::{append_bracketed, comes_before, contains_text};

verus! {

/// A portable snapshot of a model's weights, in the order of their paths.
pub struct StateDict {
    entries: Vec<(String, Tensor)>,
}

/// Entries as mathematical values.
pub open spec fn rows(s: Seq<(String, Tensor)>) -> Seq<(Seq<char>, Value)> {
    s.map_values(|e: (String, Tensor)| (e.0@, e.1@))
}

/// Whether entries stand in dictionary order, no two under one name.
pub open spec fn ordered(r: Seq<(Seq<char>, Value)>) -> bool {
    forall|i: int, j: int|
        0 <= i < j < r.len() ==> crate::text::precedes((#[trigger] r[i]).0, (#[trigger] r[j]).0)
}

/// Whether an entry stands under a name.
pub open spec fn stands(r: Seq<(Seq<char>, Value)>, name: Seq<char>, i: int) -> bool {
    0 <= i < r.len() && r[i].0 == name
}

/// What a list of entries says of each name.
pub open spec fn lookup(r: Seq<(Seq<char>, Value)>) -> Map<Seq<char>, Value> {
    Map::new(
        |name: Seq<char>| exists|i: int| stands(r, name, i),
        |name: Seq<char>| r[choose|i: int| stands(r, name, i)].1,
    )
}

proof fn lemma_entry(r: Seq<(Seq<char>, Value)>, i: int)
    requires
        ordered(r),
        0 <= i < r.len(),
    ensures
        lookup(r).contains_key(r[i].0),
        lookup(r)[r[i].0] == r[i].1,
{
    let name = r[i].0;
    assert(stands(r, name, i));
    let j = choose|j: int| stands(r, name, j);
    crate::text::law_dictionary_order(name, name, name);
    if j < i {
        assert(crate::text::precedes(r[j].0, r[i].0));
    } else if i < j {
        assert(crate::text::precedes(r[i].0, r[j].0));
    }
}

impl View for StateDict {
    type V = Map<Seq<char>, Value>;

    closed spec fn view(&self) -> Map<Seq<char>, Value> {
        lookup(rows(self.entries@))
    }
}

impl StateDict {
    #[verifier::type_invariant]
    spec fn sorted(self) -> bool {
        ordered(rows(self.entries@))
    }

    /// The names, in dictionary order.
    pub closed spec fn names(self) -> Seq<Seq<char>> {
        rows(self.entries@).map_values(|e: (Seq<char>, Value)| e.0)
    }

    /// A snapshot of nothing.
    pub fn new() -> (r: Self)
        ensures
            r@ == Map::<Seq<char>, Value>::empty(),
            r.names() == Seq::<Seq<char>>::empty(),
    {
        let r = StateDict { entries: Vec::new() };
        proof {
            assert forall|n: Seq<char>| !(#[trigger] r@.contains_key(n)) by {
                assert(forall|i: int| !stands(rows(r.entries@), n, i));
            }
            assert(r@ =~= Map::<Seq<char>, Value>::empty());
            assert(r.names() =~= Seq::<Seq<char>>::empty());
        }
        r
    }

    /// Number of entries. The names stand in dictionary order and are exactly the keys.
    pub fn len(&self) -> (r: usize)
        ensures
            r == self.names().len(),
            forall|i: int, j: int|
                0 <= i < j < self.names().len() ==> crate::text::precedes(
                    #[trigger] self.names()[i],
                    #[trigger] self.names()[j],
                ),
            forall|n: Seq<char>| #[trigger] self@.contains_key(n) <==> self.names().contains(n),
    {
        proof {
            use_type_invariant(self);
            let r = rows(self.entries@);
            assert forall|n: Seq<char>| #[trigger] self@.contains_key(n) <==> self.names().contains(
                n,
            ) by {
                if self@.contains_key(n) {
                    let i = choose|i: int| stands(r, n, i);
                    assert(self.names()[i] == n);
                }
                if self.names().contains(n) {
                    let i = choose|i: int| 0 <= i < self.names().len() && self.names()[i] == n;
                    assert(stands(r, n, i));
                }
            }
            assert forall|i: int, j: int| 0 <= i < j < self.names().len() implies
                crate::text::precedes(#[trigger] self.names()[i], #[trigger] self.names()[j]) by {
                assert(crate::text::precedes(r[i].0, r[j].0));
            }
        }
        self.entries.len()
    }

    /// The name in place `i` of the dictionary order.
    pub fn name_at(&self, i: usize) -> (r: &String)
        requires
            i < self.names().len(),
        ensures
            r@ == self.names()[i as int],
            self@.contains_key(r@),
    {
        proof {
            use_type_invariant(self);
            lemma_entry(rows(self.entries@), i as int);
        }
        &self.entries[i].0
    }

    /// How many names come before `name`.
    fn position(&self, name: &str) -> (r: usize)
        ensures
            r <= self.entries@.len(),
            forall|j: int|
                0 <= j < r ==> crate::text::precedes((#[trigger] rows(self.entries@)[j]).0, name@),
            forall|j: int|
                r <= j < self.entries@.len() ==> !crate::text::precedes(
                    (#[trigger] rows(self.entries@)[j]).0,
                    name@,
                ),
    {
        proof {
            use_type_invariant(self);
        }
        let mut i: usize = 0;
        while i < self.entries.len()
            invariant
                i <= self.entries@.len(),
                ordered(rows(self.entries@)),
                forall|j: int|
                    0 <= j < i ==> crate::text::precedes(
                        (#[trigger] rows(self.entries@)[j]).0,
                        name@,
                    ),
            decreases self.entries@.len() - i,
        {
            if !comes_before(self.entries[i].0.as_str(), name) {
                proof {
                    let r = rows(self.entries@);
                    assert forall|j: int| i <= j < r.len() implies !crate::text::precedes(
                        (#[trigger] r[j]).0,
                        name@,
                    ) by {
                        if j > i {
                            assert(crate::text::precedes(r[i as int].0, r[j].0));
                            crate::text::law_dictionary_order(r[i as int].0, r[j].0, name@);
                        }
                    }
                }
                return i;
            }
            i += 1;
        }
        i
    }

    /// The entry under a name.
    pub fn get(&self, name: &str) -> (r: Option<&Tensor>)
        ensures
            match r {
                Some(t) => self@.contains_key(name@) && t@ == self@[name@],
                None => !self@.contains_key(name@),
            },
    {
        let i: usize = self.position(name);
        proof {
            use_type_invariant(self);
        }
        let ghost r = rows(self.entries@);
        if i < self.entries.len() && !comes_before(name, self.entries[i].0.as_str()) {
            proof {
                crate::text::law_dictionary_order(r[i as int].0, name@, name@);
                lemma_entry(r, i as int);
            }
            Some(&self.entries[i].1)
        } else {
            proof {
                assert forall|j: int| !stands(r, name@, j) by {
                    crate::text::law_dictionary_order(name@, name@, name@);
                    if 0 <= j < i {
                        assert(crate::text::precedes(r[j].0, name@));
                    } else if i < j < r.len() {
                        assert(crate::text::precedes(r[i as int].0, r[j].0));
                        crate::text::law_dictionary_order(name@, r[i as int].0, r[j].0);
                    }
                }
            }
            None
        }
    }

    /// Put a tensor under a name.
    pub fn insert(&mut self, name: &str, value: Tensor)
        ensures
            final(self)@ == old(self)@.insert(name@, value@),
    {
        let i: usize = self.position(name);
        proof {
            use_type_invariant(&*self);
        }
        let mut entries: Vec<(String, Tensor)> = Vec::new();
        std::mem::swap(&mut entries, &mut self.entries);
        let ghost r = rows(entries@);
        let ghost fresh = (name@, value@);
        let same: bool = i < entries.len() && !comes_before(name, entries[i].0.as_str());
        if same {
            entries.set(i, (name.to_owned(), value));
            proof {
                crate::text::law_dictionary_order(r[i as int].0, name@, name@);
                assert(rows(entries@) =~= r.update(i as int, fresh));
                lemma_replaced(r, i as int, value@);
            }
        } else {
            entries.insert(i, (name.to_owned(), value));
            proof {
                assert(rows(entries@) =~= r.insert(i as int, fresh));
                lemma_inserted(r, i as int, name@, value@);
            }
        }
        self.entries = entries;
    }

    /// Keep only entries whose name contains `pattern`. Used to ship adapter-only
    /// checkpoints.
    pub fn filter(&self, pattern: &str) -> (r: StateDict)
        ensures
            r@ == kept(self@, pattern@),
    {
        let mut out = StateDict::new();
        let n: usize = self.len();
        let mut i: usize = 0;
        proof {
            assert(out@ =~= kept(among(self@, self.names(), 0), pattern@));
        }
        while i < n
            invariant
                i <= n,
                n == self.names().len(),
                out@ == kept(among(self@, self.names(), i as nat), pattern@),
            decreases n - i,
        {
            proof {
                use_type_invariant(self);
                lemma_entry(rows(self.entries@), i as int);
            }
            let ghost before = among(self@, self.names(), i as nat);
            let ghost now = among(self@, self.names(), (i + 1) as nat);
            let ghost name = self.names()[i as int];
            proof {
                assert(now =~= before.insert(name, self@[name])) by {
                    assert forall|k: Seq<char>| #[trigger] now.contains_key(k) <==> (
                    before.contains_key(k) || k == name) by {
                        if now.contains_key(k) {
                            let j = choose|j: int|
                                0 <= j < i + 1 && (#[trigger] self.names()[j]) == k;
                            if j < i {
                                assert(self.names()[j] == k);
                            }
                        }
                        if before.contains_key(k) {
                            let j = choose|j: int| 0 <= j < i && (#[trigger] self.names()[j]) == k;
                            assert(self.names()[j] == k);
                        }
                    }
                }
            }
            if contains_text(self.entries[i].0.as_str(), pattern) {
                out.insert(self.entries[i].0.as_str(), self.entries[i].1.clone());
                proof {
                    assert(kept(now, pattern@) =~= kept(before, pattern@).insert(
                        name,
                        self@[name],
                    ));
                }
            } else {
                proof {
                    assert(kept(now, pattern@) =~= kept(before, pattern@));
                }
            }
            i += 1;
        }
        proof {
            let all = among(self@, self.names(), n as nat);
            assert(all =~= self@) by {
                assert forall|k: Seq<char>| #[trigger] self@.contains_key(k) implies all.contains_key(
                    k,
                ) by {
                    let j = choose|j: int| 0 <= j < self.names().len() && self.names()[j] == k;
                    assert(self.names()[j] == k);
                }
            }
        }
        out
    }
}

/// The entries of a snapshot whose name contains a pattern.
pub open spec fn kept(m: Map<Seq<char>, Value>, pattern: Seq<char>) -> Map<Seq<char>, Value> {
    Map::new(
        |n: Seq<char>| m.contains_key(n) && crate::text::holds(n, pattern),
        |n: Seq<char>| m[n],
    )
}

/// The entries of a map under the first `k` names of a list.
spec fn among(m: Map<Seq<char>, Value>, names: Seq<Seq<char>>, k: nat) -> Map<Seq<char>, Value> {
    Map::new(
        |n: Seq<char>|
            m.contains_key(n) && exists|j: int| 0 <= j < k && (#[trigger] names[j]) == n,
        |n: Seq<char>| m[n],
    )
}

proof fn lemma_replaced(r: Seq<(Seq<char>, Value)>, i: int, v: Value)
    requires
        ordered(r),
        0 <= i < r.len(),
    ensures
        ordered(r.update(i, (r[i].0, v))),
        lookup(r.update(i, (r[i].0, v))) == lookup(r).insert(r[i].0, v),
{
    let now = r.update(i, (r[i].0, v));
    let want = lookup(r).insert(r[i].0, v);
    assert forall|a: int, b: int| 0 <= a < b < now.len() implies crate::text::precedes(
        (#[trigger] now[a]).0,
        (#[trigger] now[b]).0,
    ) by {
        assert(crate::text::precedes(r[a].0, r[b].0));
    }
    assert forall|n: Seq<char>| #[trigger] lookup(now).contains_key(n) <==> want.contains_key(n) by {
        if lookup(now).contains_key(n) {
            let j = choose|j: int| stands(now, n, j);
            assert(stands(r, n, j));
        }
        if lookup(r).contains_key(n) {
            let j = choose|j: int| stands(r, n, j);
            assert(stands(now, n, j));
        }
        if n == r[i].0 {
            assert(stands(now, n, i));
        }
    }
    assert forall|n: Seq<char>| #[trigger] lookup(now).contains_key(n) implies lookup(now)[n]
        == want[n] by {
        let j = choose|j: int| stands(now, n, j);
        lemma_entry(now, j);
        lemma_entry(r, j);
        if n == r[i].0 {
            lemma_entry(now, i);
        }
    }
    assert(lookup(now) =~= want);
}

proof fn lemma_inserted(r: Seq<(Seq<char>, Value)>, i: int, name: Seq<char>, v: Value)
    requires
        ordered(r),
        0 <= i <= r.len(),
        forall|j: int| 0 <= j < i ==> crate::text::precedes((#[trigger] r[j]).0, name),
        forall|j: int| i <= j < r.len() ==> !crate::text::precedes((#[trigger] r[j]).0, name),
        i < r.len() ==> crate::text::precedes(name, r[i].0),
    ensures
        ordered(r.insert(i, (name, v))),
        lookup(r.insert(i, (name, v))) == lookup(r).insert(name, v),
{
    let now = r.insert(i, (name, v));
    let want = lookup(r).insert(name, v);
    assert forall|b: int| i <= b < r.len() implies crate::text::precedes(
        name,
        (#[trigger] r[b]).0,
    ) by {
        if b > i {
            assert(crate::text::precedes(r[i].0, r[b].0));
            crate::text::law_dictionary_order(name, r[i].0, r[b].0);
        }
    }
    assert forall|a: int, b: int| 0 <= a < b < now.len() implies crate::text::precedes(
        (#[trigger] now[a]).0,
        (#[trigger] now[b]).0,
    ) by {
        let from = |k: int|
            if k < i {
                k
            } else {
                k - 1
            };
        if a != i {
            assert(now[a] == r[from(a)]);
        }
        if b != i {
            assert(now[b] == r[from(b)]);
        }
    }
    assert forall|n: Seq<char>| #[trigger] lookup(now).contains_key(n) <==> want.contains_key(n) by {
        if lookup(now).contains_key(n) {
            let j = choose|j: int| stands(now, n, j);
            if j < i {
                assert(stands(r, n, j));
            } else if j > i {
                assert(stands(r, n, j - 1));
            }
        }
        if lookup(r).contains_key(n) {
            let j = choose|j: int| stands(r, n, j);
            if j < i {
                assert(stands(now, n, j));
            } else {
                assert(stands(now, n, j + 1));
            }
        }
        if n == name {
            assert(stands(now, n, i));
        }
    }
    assert forall|n: Seq<char>| #[trigger] lookup(now).contains_key(n) implies lookup(now)[n]
        == want[n] by {
        let j = choose|j: int| stands(now, n, j);
        lemma_entry(now, j);
        if n == name {
            lemma_entry(now, i);
        } else if j < i {
            lemma_entry(r, j);
        } else {
            assert(j != i);
            lemma_entry(r, j - 1);
        }
    }
    assert(lookup(now) =~= want);
}

// -- saving ----------------------------------------------------------------------------

/// The snapshot of the first `k` parameters of a list.
pub open spec fn saved(st: Stored, ps: Seq<(Seq<char>, Param)>, k: nat) -> Result<
    Map<Seq<char>, Value>,
    Fault,
>
    decreases k,
{
    if k == 0 {
        Ok(Map::empty())
    } else {
        match saved(st, ps, (k - 1) as nat) {
            Err(f) => Err(f),
            Ok(m) => match param::value_of(st, ps[k - 1].1.key()) {
                Err(f) => Err(f),
                Ok(v) => Ok(m.insert(ps[k - 1].0, v)),
            },
        }
    }
}

proof fn lemma_saved_fails(st: Stored, ps: Seq<(Seq<char>, Param)>, j: nat, k: nat)
    requires
        j <= k,
        saved(st, ps, j) is Err,
    ensures
        saved(st, ps, k) == saved(st, ps, j),
    decreases k,
{
    if j < k {
        lemma_saved_fails(st, ps, j, (k - 1) as nat);
    }
}

/// Export weights, keyed by parameter path.
pub fn state_dict<M: Module>(module: &M, st: &Store) -> (r: Result<StateDict, Error>)
    ensures
        crate::error::agrees(
            r,
            saved(st@, module::parameters_of(module), module::parameters_of(module).len()),
        ),
{
    let named = module.named_parameters();
    let ghost ps = module::pairs(named@);
    let mut out = StateDict::new();
    let mut i: usize = 0;
    while i < named.len()
        invariant
            i <= named.len(),
            ps == module::pairs(named@),
            ps == module::parameters_of(module),
            saved(st@, ps, i as nat) == Ok::<Map<Seq<char>, Value>, Fault>(out@),
        decreases named.len() - i,
    {
        proof {
            assert(ps[i as int] == (named@[i as int].0@, named@[i as int].1));
        }
        match named[i].1.value(st) {
            Ok(v) => {
                out.insert(named[i].0.as_str(), v);
            },
            Err(e) => {
                proof {
                    lemma_saved_fails(st@, ps, (i + 1) as nat, ps.len());
                }
                return Err(e);
            },
        }
        i += 1;
    }
    Ok(out)
}

// -- loading ---------------------------------------------------------------------------

pub open spec fn missing_message(name: Seq<char>) -> Seq<char> {
    "missing entry for `"@ + name + "`"@
}

pub open spec fn unexpected_message(name: Seq<char>) -> Seq<char> {
    "unexpected entry `"@ + name + "`"@
}

pub open spec fn fit_message(name: Seq<char>, got: Seq<usize>, want: Seq<usize>) -> Seq<char> {
    "`"@ + name + "`: checkpoint holds "@ + crate::text::bracketed(got)
        + " but the model expects "@ + crate::text::bracketed(want)
}

/// The first of the names from `i` on that a test refuses.
pub open spec fn first_refused(names: Seq<Seq<char>>, ok: spec_fn(Seq<char>) -> bool, i: nat) -> Option<
    Seq<char>,
>
    decreases names.len() - i,
{
    if i >= names.len() {
        None
    } else if !ok(names[i as int]) {
        Some(names[i as int])
    } else {
        first_refused(names, ok, i + 1)
    }
}

pub open spec fn paths(ps: Seq<(Seq<char>, Param)>) -> Seq<Seq<char>> {
    ps.map_values(|p: (Seq<char>, Param)| p.0)
}

/// What a strict load refuses: a parameter without an entry, in the order of the
/// parameters; and an entry without a parameter, in dictionary order.
pub open spec fn strict_fault(
    ps: Seq<(Seq<char>, Param)>,
    dict: Map<Seq<char>, Value>,
    names: Seq<Seq<char>>,
) -> Option<Fault> {
    match first_refused(paths(ps), |n: Seq<char>| dict.contains_key(n), 0) {
        Some(n) => Some(Fault::StateDict(missing_message(n))),
        None => match first_refused(names, |n: Seq<char>| paths(ps).contains(n), 0) {
            Some(n) => Some(Fault::StateDict(unexpected_message(n))),
            None => None,
        },
    }
}

/// The store after the first `k` parameters have taken their entries, and the first
/// entry of a wrong shape. A parameter without an entry keeps its value.
pub open spec fn taken(
    st: Stored,
    ps: Seq<(Seq<char>, Param)>,
    dict: Map<Seq<char>, Value>,
    k: nat,
) -> (Stored, Option<Fault>)
    decreases k,
{
    if k == 0 {
        (st, None)
    } else {
        let (before, failure) = taken(st, ps, dict, (k - 1) as nat);
        let (name, p) = ps[k - 1];
        if failure is Some || !dict.contains_key(name) {
            (before, failure)
        } else if !before.weights.contains_key(p.key()) {
            (before, Some(param::unknown()))
        } else if dict[name].dims != before.weights[p.key()].value.dims {
            (
                before,
                Some(
                    Fault::StateDict(
                        fit_message(
                            name,
                            dict[name].dims,
                            before.weights[p.key()].value.dims,
                        ),
                    ),
                ),
            )
        } else {
            (before.with_value(p.key(), dict[name]), None)
        }
    }
}

/// Loading a snapshot.
pub open spec fn loaded(
    st: Stored,
    ps: Seq<(Seq<char>, Param)>,
    dict: Map<Seq<char>, Value>,
    names: Seq<Seq<char>>,
    strict: bool,
) -> (Stored, Option<Fault>) {
    if strict && strict_fault(ps, dict, names) is Some {
        (st, strict_fault(ps, dict, names))
    } else {
        taken(st, ps, dict, ps.len())
    }
}

fn quoted_error(head: &str, name: &str, tail: &str) -> (e: Error)
    ensures
        e@ == Fault::StateDict(head@ + name@ + tail@),
{
    let mut text = String::new();
    text.append(head);
    text.append(name);
    text.append(tail);
    proof {
        assert(text@ =~= head@ + name@ + tail@);
    }
    Error::StateDict(text)
}

fn fit_error(name: &str, got: &Vec<usize>, want: &Vec<usize>) -> (e: Error)
    ensures
        e@ == Fault::StateDict(fit_message(name@, got@, want@)),
{
    let mut text = String::new();
    text.append("`");
    text.append(name);
    text.append("`: checkpoint holds ");
    append_bracketed(&mut text, got);
    text.append(" but the model expects ");
    append_bracketed(&mut text, want);
    proof {
        assert(text@ =~= fit_message(name@, got@, want@));
    }
    Error::StateDict(text)
}

fn names_parameter(named: &Vec<(String, Param)>, name: &String) -> (r: bool)
    ensures
        r == paths(module::pairs(named@)).contains(name@),
{
    let ghost all = paths(module::pairs(named@));
    let mut i: usize = 0;
    while i < named.len()
        invariant
            i <= named.len(),
            all == paths(module::pairs(named@)),
            forall|j: int| 0 <= j < i ==> #[trigger] all[j] != name@,
        decreases named.len() - i,
    {
        proof {
            assert(all[i as int] == named@[i as int].0@);
        }
        if named[i].0 == *name {
            proof {
                assert(all.contains(name@));
            }
            return true;
        }
        i += 1;
    }
    false
}

fn check_strict(named: &Vec<(String, Param)>, state: &StateDict) -> (r: Result<(), Error>)
    ensures
        match (r, strict_fault(module::pairs(named@), state@, state.names())) {
            (Ok(_), None) => true,
            (Err(e), Some(f)) => e@ == f,
            _ => false,
        },
{
    let ghost ps = module::pairs(named@);
    let ghost has = |n: Seq<char>| state@.contains_key(n);
    let mut i: usize = 0;
    while i < named.len()
        invariant
            i <= named.len(),
            ps == module::pairs(named@),
            has == |n: Seq<char>| state@.contains_key(n),
            first_refused(paths(ps), has, 0) == first_refused(paths(ps), has, i as nat),
        decreases named.len() - i,
    {
        proof {
            assert(paths(ps)[i as int] == named@[i as int].0@);
        }
        if state.get(named[i].0.as_str()).is_none() {
            return Err(quoted_error("missing entry for `", named[i].0.as_str(), "`"));
        }
        i += 1;
    }
    let ghost known = |n: Seq<char>| paths(ps).contains(n);
    let n: usize = state.len();
    let mut j: usize = 0;
    while j < n
        invariant
            j <= n,
            n == state.names().len(),
            ps == module::pairs(named@),
            known == |n: Seq<char>| paths(ps).contains(n),
            first_refused(paths(ps), |n: Seq<char>| state@.contains_key(n), 0) is None,
            first_refused(state.names(), known, 0) == first_refused(
                state.names(),
                known,
                j as nat,
            ),
        decreases n - j,
    {
        let name = state.name_at(j);
        if !names_parameter(named, name) {
            return Err(quoted_error("unexpected entry `", name.as_str(), "`"));
        }
        j += 1;
    }
    Ok(())
}

proof fn lemma_taken_stops(
    st: Stored,
    ps: Seq<(Seq<char>, Param)>,
    dict: Map<Seq<char>, Value>,
    j: nat,
    k: nat,
)
    requires
        j <= k,
        taken(st, ps, dict, j).1 is Some,
    ensures
        taken(st, ps, dict, k) == taken(st, ps, dict, j),
    decreases k,
{
    if j < k {
        lemma_taken_stops(st, ps, dict, j, (k - 1) as nat);
    }
}

/// Load weights previously produced by [`state_dict`].
///
/// `strict` requires an exact match of names in both directions.
pub fn load_state_dict<M: Module>(module: &M, st: &mut Store, state: &StateDict, strict: bool) -> (r:
    Result<(), Error>)
    ensures
        ({
            let (want, failure) = loaded(
                old(st)@,
                module::parameters_of(module),
                state@,
                state.names(),
                strict,
            );
            &&& final(st)@ == want
            &&& match (r, failure) {
                (Ok(_), None) => true,
                (Err(e), Some(f)) => e@ == f,
                _ => false,
            }
        }),
{
    let named = module.named_parameters();
    let ghost ps = module::pairs(named@);
    let ghost start = st@;
    if strict {
        check_strict(&named, state)?;
    }
    let mut i: usize = 0;
    while i < named.len()
        invariant
            i <= named.len(),
            ps == module::pairs(named@),
            ps == module::parameters_of(module),
            start == old(st)@,
            strict ==> strict_fault(ps, state@, state.names()) is None,
            taken(start, ps, state@, i as nat) == (st@, None::<Fault>),
        decreases named.len() - i,
    {
        let name: &String = &named[i].0;
        let p = named[i].1;
        proof {
            assert(ps[i as int] == (name@, p));
        }
        if let Some(entry) = state.get(name.as_str()) {
            match p.value(st) {
                Err(e) => {
                    proof {
                        lemma_taken_stops(start, ps, state@, (i + 1) as nat, ps.len());
                    }
                    return Err(e);
                },
                Ok(current) => {
                    if !same_list(entry.dims(), current.dims()) {
                        proof {
                            lemma_taken_stops(start, ps, state@, (i + 1) as nat, ps.len());
                        }
                        return Err(fit_error(name.as_str(), entry.dims(), current.dims()));
                    }
                },
            }
            p.set(st, entry.clone());
        }
        i += 1;
    }
    Ok(())
}

// -- laws ------------------------------------------------------------------------------

/// Whether no path names two parameters.
pub open spec fn distinct(ps: Seq<(Seq<char>, Param)>) -> bool {
    forall|i: int, j: int|
        0 <= i < ps.len() && 0 <= j < ps.len() && (#[trigger] ps[i]).0 == (#[trigger] ps[j]).0
            ==> ps[i].1 == ps[j].1
}

proof fn lemma_saved_entries(
    st: Stored,
    ps: Seq<(Seq<char>, Param)>,
    m: Map<Seq<char>, Value>,
    k: nat,
)
    requires
        k <= ps.len(),
        distinct(ps),
        saved(st, ps, k) == Ok::<Map<Seq<char>, Value>, Fault>(m),
    ensures
        forall|i: int|
            0 <= i < k ==> m.contains_key((#[trigger] ps[i]).0) && st.weights.contains_key(
                ps[i].1.key(),
            ) && m[ps[i].0] == st.weights[ps[i].1.key()].value,
        forall|n: Seq<char>| #[trigger] m.contains_key(n) ==> paths(ps).contains(n),
    decreases k,
{
    if k > 0 {
        let before = saved(st, ps, (k - 1) as nat)->Ok_0;
        lemma_saved_entries(st, ps, before, (k - 1) as nat);
        assert(paths(ps)[k - 1] == ps[k - 1].0);
        assert forall|i: int| 0 <= i < k implies m.contains_key((#[trigger] ps[i]).0)
            && st.weights.contains_key(ps[i].1.key()) && m[ps[i].0]
            == st.weights[ps[i].1.key()].value by {
            if i < k - 1 && ps[i].0 == ps[k - 1].0 {
                assert(ps[i].1 == ps[k - 1].1);
            }
        }
    }
}

proof fn lemma_none_refused(names: Seq<Seq<char>>, ok: spec_fn(Seq<char>) -> bool, i: nat)
    requires
        forall|j: int| i <= j < names.len() ==> ok(#[trigger] names[j]),
    ensures
        first_refused(names, ok, i) is None,
    decreases names.len() - i,
{
    if i < names.len() {
        assert(ok(names[i as int]));
        lemma_none_refused(names, ok, i + 1);
    }
}

proof fn lemma_taken_restores(
    from: Stored,
    into: Stored,
    ps: Seq<(Seq<char>, Param)>,
    m: Map<Seq<char>, Value>,
    k: nat,
)
    requires
        k <= ps.len(),
        forall|i: int|
            0 <= i < ps.len() ==> m.contains_key((#[trigger] ps[i]).0)
                && from.weights.contains_key(ps[i].1.key()) && m[ps[i].0]
                == from.weights[ps[i].1.key()].value,
        forall|i: int|
            0 <= i < ps.len() ==> into.weights.contains_key((#[trigger] ps[i]).1.key())
                && into.weights[ps[i].1.key()].value.dims
                == from.weights[ps[i].1.key()].value.dims,
    ensures
        taken(into, ps, m, k).1 is None,
        taken(into, ps, m, k).0.weights.dom() == into.weights.dom(),
        forall|i: int|
            0 <= i < k ==> taken(into, ps, m, k).0.weights[(#[trigger] ps[i]).1.key()].value
                == from.weights[ps[i].1.key()].value,
        forall|i: int|
            0 <= i < ps.len() ==> taken(
                into,
                ps,
                m,
                k,
            ).0.weights[(#[trigger] ps[i]).1.key()].value.dims
                == from.weights[ps[i].1.key()].value.dims,
    decreases k,
{
    if k > 0 {
        lemma_taken_restores(from, into, ps, m, (k - 1) as nat);
        let before = taken(into, ps, m, (k - 1) as nat).0;
        let p = ps[k - 1];
        assert(before.weights.contains_key(p.1.key()));
        assert(taken(into, ps, m, k).0 == before.with_value(p.1.key(), m[p.0]));
        assert(before.with_value(p.1.key(), m[p.0]).weights.dom() =~= into.weights.dom());
    }
}

/// A read gives back a write: a snapshot loads, strictly, into any store whose
/// parameters have the shapes it was taken from, and every parameter then has the value
/// it had.
pub proof fn law_snapshot_restores(
    from: Stored,
    into: Stored,
    ps: Seq<(Seq<char>, Param)>,
    dict: Map<Seq<char>, Value>,
    names: Seq<Seq<char>>,
)
    requires
        distinct(ps),
        saved(from, ps, ps.len()) == Ok::<Map<Seq<char>, Value>, Fault>(dict),
        forall|n: Seq<char>| #[trigger] dict.contains_key(n) <==> names.contains(n),
        forall|i: int|
            0 <= i < ps.len() ==> into.weights.contains_key((#[trigger] ps[i]).1.key())
                && into.weights[ps[i].1.key()].value.dims
                == from.weights[ps[i].1.key()].value.dims,
    ensures
        loaded(into, ps, dict, names, true).1 is None,
        forall|i: int|
            0 <= i < ps.len() ==> loaded(
                into,
                ps,
                dict,
                names,
                true,
            ).0.weights[(#[trigger] ps[i]).1.key()].value
                == from.weights[ps[i].1.key()].value,
{
    lemma_saved_entries(from, ps, dict, ps.len());
    let has = |n: Seq<char>| dict.contains_key(n);
    let known = |n: Seq<char>| paths(ps).contains(n);
    assert forall|j: int| 0 <= j < paths(ps).len() implies has(#[trigger] paths(ps)[j]) by {
        assert(dict.contains_key(ps[j].0));
    }
    lemma_none_refused(paths(ps), has, 0);
    assert forall|j: int| 0 <= j < names.len() implies known(#[trigger] names[j]) by {
        assert(names.contains(names[j]));
        assert(dict.contains_key(names[j]));
    }
    lemma_none_refused(names, known, 0);
    lemma_taken_restores(from, into, ps, dict, ps.len());
}

/// Loading changes values only: what was frozen stays frozen.
pub proof fn law_loading_keeps_flags(
    st: Stored,
    ps: Seq<(Seq<char>, Param)>,
    dict: Map<Seq<char>, Value>,
    names: Seq<Seq<char>>,
    strict: bool,
    id: u64,
)
    requires
        st.weights.contains_key(id),
    ensures
        loaded(st, ps, dict, names, strict).0.weights.contains_key(id),
        loaded(st, ps, dict, names, strict).0.weights[id].trainable == st.weights[id].trainable,
{
    lemma_taken_keeps_flags(st, ps, dict, id, ps.len());
}

proof fn lemma_taken_keeps_flags(
    st: Stored,
    ps: Seq<(Seq<char>, Param)>,
    dict: Map<Seq<char>, Value>,
    id: u64,
    k: nat,
)
    requires
        st.weights.contains_key(id),
    ensures
        taken(st, ps, dict, k).0.weights.contains_key(id),
        taken(st, ps, dict, k).0.weights[id].trainable == st.weights[id].trainable,
    decreases k,
{
    if k > 0 {
        lemma_taken_keeps_flags(st, ps, dict, id, (k - 1) as nat);
    }
}

} // verus!
