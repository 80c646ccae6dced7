//! The module tree: parameter discovery, mode switching, freezing and adapter merging.
//!
//! A module describes its own structure once, in [`Module::visit`]. Everything else -
//! named parameters, parameter counts, freezing, train/eval switching, checkpoints - is
//! a pass over that single description.

use vstd::prelude::*;

use super::flow;
use super::flow::{Step, World};
use super::param;
use super::param::Param;
use super::store::{Drops, Gauge, Gauged, Held, Range, Store, Stored};
use crate::autograd::graph::Session;
use crate::autograd::var::{Traced, Var};
use crate::error::{Error, Fault};
use crate::shape::Shape;
use crate::tensor;
use crate::tensor::{Tensor, Value};
use crate::term::{Binary, Product, Scalar, Unary};
use crate::text::{append_bracketed, append_decimal, append_left, append_right, contains_text};

verus! {

/// A layer whose behaviour depends on the mode, by its id in the store.
#[derive(Clone, Copy, Debug, PartialEq, Eq, Structural)]
pub enum Switch {
    Dropout(u64),
    Quantizer(u64),
}

/// A low-rank adapter beside the weight it can be folded into.
#[derive(Clone, Copy, Debug, PartialEq, Eq, Structural)]
pub struct Adapter {
    pub base: Param,
    pub a: Param,
    pub b: Param,
    pub scaling: Scalar,
}

/// Something a module tree holds.
#[derive(Clone, Copy, Debug, PartialEq, Eq, Structural)]
pub enum Part {
    Param(Param),
    Switch(Switch),
    Adapter(Adapter),
}

/// Something a module tree holds, with its dotted path.
pub struct Found {
    pub path: String,
    pub part: Part,
}

/// Something a module tree holds, as a mathematical value.
pub struct Listed {
    pub path: Seq<char>,
    pub part: Part,
}

impl View for Found {
    type V = Listed;

    open spec fn view(&self) -> Listed {
        Listed { path: self.path@, part: self.part }
    }
}

pub open spec fn listed(s: Seq<Found>) -> Seq<Listed> {
    s.map_values(|f: Found| f@)
}

/// Carries the current path while walking a module tree, and what has been found.
pub struct ModuleVisitor {
    path: Vec<String>,
    found: Vec<Found>,
}

/// A walk as a mathematical value.
pub struct Walk {
    pub path: Seq<Seq<char>>,
    pub found: Seq<Listed>,
}

pub open spec fn texts(s: Seq<String>) -> Seq<Seq<char>> {
    s.map_values(|t: String| t@)
}

impl View for ModuleVisitor {
    type V = Walk;

    closed spec fn view(&self) -> Walk {
        Walk { path: texts(self.path@), found: listed(self.found@) }
    }
}

/// A name under a path, joined by dots.
pub open spec fn dotted(path: Seq<Seq<char>>, name: Seq<char>) -> Seq<char>
    decreases path.len(),
{
    if path.len() == 0 {
        name
    } else {
        dotted(path.drop_last(), path.last() + "."@ + name)
    }
}

/// A list moved under a path.
pub open spec fn beneath(path: Seq<Seq<char>>, list: Seq<Listed>) -> Seq<Listed> {
    list.map_values(|l: Listed| Listed { path: dotted(path, l.path), part: l.part })
}

/// A list moved under a name.
pub open spec fn under(name: Seq<char>, list: Seq<Listed>) -> Seq<Listed> {
    list.map_values(|l: Listed| Listed { path: name + "."@ + l.path, part: l.part })
}

/// The parts that answer to the name of a module itself.
pub open spec fn named(name: Seq<char>, hooks: Seq<Part>) -> Seq<Listed> {
    hooks.map_values(|p: Part| Listed { path: name, part: p })
}

/// A parameter under a name.
pub open spec fn leaf(name: Seq<char>, p: Param) -> Seq<Listed> {
    seq![Listed { path: name, part: Part::Param(p) }]
}

/// A parameter that may be missing.
pub open spec fn leaf_opt(name: Seq<char>, p: Option<Param>) -> Seq<Listed> {
    match p {
        Some(x) => leaf(name, x),
        None => Seq::empty(),
    }
}

/// A child module under a name: its own hooks, then its parts.
pub open spec fn branch<M: Module + ?Sized>(name: Seq<char>, m: &M) -> Seq<Listed> {
    named(name, m.hooks()) + under(name, m.parts())
}

/// A child module that may be missing.
pub open spec fn branch_opt<M: Module>(name: Seq<char>, m: Option<M>) -> Seq<Listed> {
    match m {
        Some(x) => branch(name, &x),
        None => Seq::empty(),
    }
}

/// The name of an element of a list of children.
pub open spec fn numbered(name: Seq<char>, index: nat) -> Seq<char> {
    name + "."@ + crate::text::decimal(index)
}

proof fn lemma_beneath_adds(path: Seq<Seq<char>>, a: Seq<Listed>, b: Seq<Listed>)
    ensures
        beneath(path, a + b) == beneath(path, a) + beneath(path, b),
{
    assert(beneath(path, a + b) =~= beneath(path, a) + beneath(path, b));
}

proof fn lemma_beneath_child(path: Seq<Seq<char>>, name: Seq<char>, list: Seq<Listed>)
    ensures
        beneath(path.push(name), list) == beneath(path, under(name, list)),
{
    let longer = path.push(name);
    assert(longer.drop_last() =~= path);
    assert(beneath(longer, list) =~= beneath(path, under(name, list)));
}

impl Walk {
    /// The walk after a list of parts has been found below the current path.
    pub open spec fn saw(self, list: Seq<Listed>) -> Walk {
        Walk { found: self.found + beneath(self.path, list), ..self }
    }
}

/// Finding one list and then another is finding both.
pub broadcast proof fn lemma_saw_twice(w: Walk, a: Seq<Listed>, b: Seq<Listed>)
    ensures
        #[trigger] w.saw(a).saw(b) == w.saw(a + b),
{
    lemma_beneath_adds(w.path, a, b);
    assert(w.saw(a).saw(b).found =~= w.saw(a + b).found);
}

/// Finding nothing changes nothing.
pub broadcast proof fn lemma_saw_nothing(w: Walk)
    ensures
        #[trigger] w.saw(Seq::<Listed>::empty()) == w,
{
    assert(w.saw(Seq::<Listed>::empty()).found =~= w.found);
}

impl ModuleVisitor {
    /// A walk that starts at the root and has found nothing.
    pub fn new() -> (r: Self)
        ensures
            r@ == (Walk { path: Seq::empty(), found: Seq::empty() }),
    {
        let r = ModuleVisitor { path: Vec::new(), found: Vec::new() };
        proof {
            assert(texts(r.path@) =~= Seq::empty());
            assert(listed(r.found@) =~= Seq::empty());
        }
        r
    }

    fn note(&mut self, name: &str, part: Part)
        ensures
            final(self)@ == old(self)@.saw(seq![Listed { path: name@, part }]),
    {
        let ghost before = self@;
        let path = self.join(name);
        self.found.push(Found { path, part });
        proof {
            assert(self@.found =~= before.saw(seq![Listed { path: name@, part }]).found);
        }
    }

    /// Report a parameter owned directly by the current module.
    pub fn param(&mut self, name: &str, param: &Param)
        ensures
            final(self)@ == old(self)@.saw(leaf(name@, *param)),
    {
        self.note(name, Part::Param(*param));
    }

    /// Report a parameter that may be missing.
    pub fn param_opt(&mut self, name: &str, param: &Option<Param>)
        ensures
            final(self)@ == old(self)@.saw(leaf_opt(name@, *param)),
    {
        let ghost before = self@;
        match param {
            Some(p) => {
                self.param(name, p);
            },
            None => {
                proof {
                    lemma_saw_nothing(before);
                }
            },
        }
    }

    /// Descend into a child module.
    pub fn child<M: Module>(&mut self, name: &str, module: &M)
        ensures
            final(self)@ == old(self)@.saw(branch(name@, module)),
    {
        let ghost start = self@;
        let hooks = module.own_hooks();
        let mut i: usize = 0;
        proof {
            assert(named(name@, hooks@.take(0)) =~= Seq::empty());
            lemma_saw_nothing(start);
        }
        while i < hooks.len()
            invariant
                i <= hooks.len(),
                self@ == start.saw(named(name@, hooks@.take(i as int))),
            decreases hooks.len() - i,
        {
            self.note(name, hooks[i]);
            proof {
                let one = seq![Listed { path: name@, part: hooks@[i as int] }];
                lemma_saw_twice(start, named(name@, hooks@.take(i as int)), one);
                assert(named(name@, hooks@.take(i as int)) + one =~= named(
                    name@,
                    hooks@.take(i as int + 1),
                ));
            }
            i += 1;
        }
        proof {
            assert(hooks@.take(hooks.len() as int) =~= hooks@);
        }
        let ghost middle = self@;
        let ghost old_path = self.path@;
        self.path.push(name.to_owned());
        proof {
            assert(self@.path =~= middle.path.push(name@));
            assert(self@.found =~= middle.found);
        }
        module.visit(self);
        let ghost done = self@;
        let ghost deep = self.path@;
        let _gone = self.path.pop();
        proof {
            assert(texts(deep) == middle.path.push(name@));
            assert(texts(self.path@) =~= texts(deep).drop_last());
            assert(middle.path.push(name@).drop_last() =~= middle.path);
            lemma_beneath_child(middle.path, name@, module.parts());
            assert(self@.found =~= middle.saw(under(name@, module.parts())).found);
            lemma_saw_twice(start, named(name@, module.hooks()), under(name@, module.parts()));
        }
    }

    /// Descend into an element of a list of children, such as `blocks.3`.
    pub fn child_at<M: Module>(&mut self, name: &str, index: usize, module: &M)
        ensures
            final(self)@ == old(self)@.saw(branch(numbered(name@, index as nat), module)),
    {
        let mut text = name.to_owned();
        text.append(".");
        append_decimal(&mut text, index as u64);
        proof {
            assert(text@ =~= numbered(name@, index as nat));
        }
        self.child(text.as_str(), module);
    }

    /// Descend into an optional child.
    pub fn child_opt<M: Module>(&mut self, name: &str, module: &Option<M>)
        ensures
            final(self)@ == old(self)@.saw(branch_opt(name@, *module)),
    {
        let ghost before = self@;
        match module {
            Some(m) => {
                self.child(name, m);
            },
            None => {
                proof {
                    lemma_saw_nothing(before);
                }
            },
        }
    }

    fn join(&self, name: &str) -> (r: String)
        ensures
            r@ == dotted(self@.path, name@),
    {
        let mut out = name.to_owned();
        let mut i: usize = self.path.len();
        let ghost path = texts(self.path@);
        proof {
            assert(path.take(i as int) =~= path);
        }
        while i > 0
            invariant
                i <= self.path.len(),
                path == texts(self.path@),
                dotted(path, name@) == dotted(path.take(i as int), out@),
            decreases i,
        {
            i -= 1;
            let mut longer = self.path[i].clone();
            longer.append(".");
            longer.append(out.as_str());
            proof {
                let cut = path.take(i as int + 1);
                assert(cut.drop_last() =~= path.take(i as int));
                assert(longer@ =~= cut.last() + "."@ + out@);
            }
            out = longer;
        }
        out
    }
}

// -- what the parts of a tree do ---------------------------------------------------

/// A mode change reaching one layer.
pub open spec fn flipped(st: Stored, w: Switch, training: bool) -> Stored {
    match w {
        Switch::Dropout(id) => if st.drops.contains_key(id) {
            st.with_drops(id, Drops { training, ..st.drops[id] })
        } else {
            st
        },
        Switch::Quantizer(id) => if st.gauges.contains_key(id) {
            st.with_gauge(id, Gauged { training, ..st.gauges[id] })
        } else {
            st
        },
    }
}

/// A mode change reaching the first `k` parts of a list.
pub open spec fn mode_set(st: Stored, parts: Seq<Part>, training: bool, k: nat) -> Stored
    decreases k,
{
    if k == 0 {
        st
    } else {
        let before = mode_set(st, parts, training, (k - 1) as nat);
        match parts[k - 1] {
            Part::Switch(w) => flipped(before, w, training),
            _ => before,
        }
    }
}

fn flip(st: &mut Store, w: Switch, training: bool)
    ensures
        final(st)@ == flipped(old(st)@, w, training),
{
    match w {
        Switch::Dropout(id) => {
            if let Some(d) = st.drops(id) {
                st.put_drops(id, Drops { step: d.step, training });
            }
        },
        Switch::Quantizer(id) => {
            let (range, enabled): (Option<Range>, bool) = match st.gauge(id) {
                Some(g) => (super::store::copied_range(&g.range), g.enabled),
                None => {
                    return ;
                },
            };
            st.put_gauge(id, Gauge { range, enabled, training });
        },
    }
}

/// `A B` times the scaling, shaped like the base weight.
pub open spec fn delta_of(a: Value, b: Value, scaling: Scalar) -> Result<Value, Fault> {
    match tensor::product_of(Product::Plain, a, b) {
        Ok(p) => Ok(tensor::unary_of(Unary::MulScalar(scaling), p)),
        Err(f) => Err(f),
    }
}

/// The values an adapter is made of: base, down projection, up projection.
pub open spec fn adapter_values(st: Stored, m: Adapter) -> Result<(Value, Value, Value), Fault> {
    if st.weights.contains_key(m.base.key()) && st.weights.contains_key(m.a.key())
        && st.weights.contains_key(m.b.key()) {
        Ok(
            (
                st.weights[m.base.key()].value,
                st.weights[m.a.key()].value,
                st.weights[m.b.key()].value,
            ),
        )
    } else {
        Err(param::unknown())
    }
}

/// The base weight an adapter is folded into.
pub open spec fn merged_weight(st: Stored, m: Adapter) -> Result<Value, Fault> {
    match adapter_values(st, m) {
        Err(f) => Err(f),
        Ok((base, a, b)) => match delta_of(a, b, m.scaling) {
            Err(f) => Err(f),
            Ok(d) => tensor::binary_of(Binary::Add, base, d),
        },
    }
}

/// An adapter folded into its base weight; its up projection starts again from zero.
pub open spec fn merged(st: Stored, m: Adapter) -> Result<Stored, Fault> {
    match merged_weight(st, m) {
        Err(f) => Err(f),
        Ok(v) => Ok(
            st.with_value(m.base.key(), v).with_value(
                m.b.key(),
                tensor::fill_of(Scalar::Int(0), st.weights[m.b.key()].value.dims),
            ),
        ),
    }
}

/// Fold an adapter into its base weight and reset its up projection.
pub fn merge(st: &mut Store, m: Adapter) -> (r: Result<(), Error>)
    ensures
        match (r, merged(old(st)@, m)) {
            (Ok(_), Ok(want)) => final(st)@ == want,
            (Err(e), Err(f)) => e@ == f && final(st)@ == old(st)@,
            _ => false,
        },
{
    let base = m.base.value(st)?;
    let a = m.a.value(st)?;
    let b = m.b.value(st)?;
    let product = Tensor::product(Product::Plain, &a, &b)?;
    let delta = product.unary(Unary::MulScalar(m.scaling));
    let sum = Tensor::binary(Binary::Add, &base, &delta)?;
    m.base.set(st, sum);
    m.b.set(st, Tensor::zeros(b.shape().clone()));
    Ok(())
}

/// The store after the adapters among the first `k` parts have been folded in, and the
/// first failure. An adapter that cannot be folded in does not keep the others from it.
pub open spec fn merged_all(st: Stored, parts: Seq<Part>, k: nat) -> (Stored, Option<Fault>)
    decreases k,
{
    if k == 0 {
        (st, None)
    } else {
        let (before, failure) = merged_all(st, parts, (k - 1) as nat);
        match parts[k - 1] {
            Part::Adapter(m) => match merged(before, m) {
                Ok(after) => (after, failure),
                Err(f) => (
                    before,
                    if failure is Some {
                        failure
                    } else {
                        Some(f)
                    },
                ),
            },
            _ => (before, failure),
        }
    }
}

/// The parts of a list.
pub open spec fn plain(list: Seq<Listed>) -> Seq<Part> {
    list.map_values(|l: Listed| l.part)
}

/// Fold in the adapters of a list of parts.
fn merge_all(st: &mut Store, parts: &Vec<Part>) -> (r: Option<Error>)
    ensures
        ({
            let (want, failure) = merged_all(old(st)@, parts@, parts@.len());
            &&& final(st)@ == want
            &&& match (r, failure) {
                (Some(e), Some(f)) => e@ == f,
                (None, None) => true,
                _ => false,
            }
        }),
{
    let ghost start = st@;
    let mut failure: Option<Error> = None;
    let mut i: usize = 0;
    while i < parts.len()
        invariant
            i <= parts.len(),
            st@ == merged_all(start, parts@, i as nat).0,
            match (failure, merged_all(start, parts@, i as nat).1) {
                (Some(e), Some(f)) => e@ == f,
                (None, None) => true,
                _ => false,
            },
        decreases parts.len() - i,
    {
        if let Part::Adapter(m) = parts[i] {
            if let Err(e) = merge(st, m) {
                if failure.is_none() {
                    failure = Some(e);
                }
            }
        }
        i += 1;
    }
    failure
}

/// The parameters among the first `k` entries of a list, with their paths.
pub open spec fn params_among(list: Seq<Listed>, k: nat) -> Seq<(Seq<char>, Param)>
    decreases k,
{
    if k == 0 {
        Seq::empty()
    } else {
        let before = params_among(list, (k - 1) as nat);
        match list[k - 1].part {
            Part::Param(p) => before.push((list[k - 1].path, p)),
            _ => before,
        }
    }
}

/// Every parameter of a list, with its path.
pub open spec fn params_in(list: Seq<Listed>) -> Seq<(Seq<char>, Param)> {
    params_among(list, list.len())
}

pub open spec fn pairs(s: Seq<(String, Param)>) -> Seq<(Seq<char>, Param)> {
    s.map_values(|p: (String, Param)| (p.0@, p.1))
}

/// Whether a parameter of a store wants gradients.
pub open spec fn trains(st: Stored, p: Param) -> bool {
    st.weights.contains_key(p.key()) && st.weights[p.key()].trainable
}

/// The number of scalars in the first `k` parameters that satisfy a choice.
pub open spec fn scalars(st: Stored, ps: Seq<(Seq<char>, Param)>, only_trained: bool, k: nat) -> nat
    decreases k,
{
    if k == 0 {
        0
    } else {
        let before = scalars(st, ps, only_trained, (k - 1) as nat);
        let p = ps[k - 1].1;
        if st.weights.contains_key(p.key()) && (!only_trained || trains(st, p)) {
            before + crate::shape::product(st.weights[p.key()].value.dims)
        } else {
            before
        }
    }
}

proof fn lemma_scalars_grow(
    st: Stored,
    ps: Seq<(Seq<char>, Param)>,
    only_trained: bool,
    j: nat,
    k: nat,
)
    requires
        j <= k,
    ensures
        scalars(st, ps, only_trained, j) <= scalars(st, ps, only_trained, k),
    decreases k,
{
    if j < k {
        lemma_scalars_grow(st, ps, only_trained, j, (k - 1) as nat);
    }
}

fn count(st: &Store, ps: &Vec<(String, Param)>, only_trained: bool) -> (r: Option<usize>)
    ensures
        match r {
            Some(n) => n == scalars(st@, pairs(ps@), only_trained, ps@.len()),
            None => scalars(st@, pairs(ps@), only_trained, ps@.len()) > usize::MAX,
        },
{
    let mut total: usize = 0;
    let mut i: usize = 0;
    while i < ps.len()
        invariant
            i <= ps.len(),
            total == scalars(st@, pairs(ps@), only_trained, i as nat),
        decreases ps.len() - i,
    {
        let p = ps[i].1;
        proof {
            assert(pairs(ps@)[i as int].1 == p);
            lemma_scalars_grow(st@, pairs(ps@), only_trained, (i + 1) as nat, ps@.len());
        }
        if st.weight(p.id()).is_some() && (!only_trained || p.requires_grad(st)) {
            match p.numel(st) {
                Some(n) => match total.checked_add(n) {
                    Some(sum) => {
                        total = sum;
                    },
                    None => {
                        return None;
                    },
                },
                None => {
                    return None;
                },
            }
        }
        i += 1;
    }
    Some(total)
}

/// Whether a path contains any of a list of patterns; an empty list matches every path.
pub open spec fn chosen(path: Seq<char>, patterns: Seq<Seq<char>>) -> bool {
    patterns.len() == 0 || exists|i: int|
        0 <= i < patterns.len() && crate::text::holds(path, #[trigger] patterns[i])
}

fn choose_path(path: &str, patterns: &Vec<String>) -> (r: bool)
    ensures
        r == chosen(path@, texts(patterns@)),
{
    if patterns.len() == 0 {
        return true;
    }
    let mut i: usize = 0;
    while i < patterns.len()
        invariant
            i <= patterns.len(),
            forall|j: int|
                0 <= j < i ==> !crate::text::holds(path@, #[trigger] texts(patterns@)[j]),
        decreases patterns.len() - i,
    {
        if contains_text(path, patterns[i].as_str()) {
            proof {
                assert(crate::text::holds(path@, texts(patterns@)[i as int]));
            }
            return true;
        }
        i += 1;
    }
    false
}

/// The store after the flag of every chosen parameter among the first `k` is set.
pub open spec fn flagged(
    st: Stored,
    ps: Seq<(Seq<char>, Param)>,
    patterns: Seq<Seq<char>>,
    flag: bool,
    k: nat,
) -> Stored
    decreases k,
{
    if k == 0 {
        st
    } else {
        let before = flagged(st, ps, patterns, flag, (k - 1) as nat);
        if chosen(ps[k - 1].0, patterns) {
            before.with_flag(ps[k - 1].1.key(), flag)
        } else {
            before
        }
    }
}

fn set_flags(st: &mut Store, ps: &Vec<(String, Param)>, patterns: &Vec<String>, flag: bool)
    ensures
        final(st)@ == flagged(old(st)@, pairs(ps@), texts(patterns@), flag, ps@.len()),
{
    let ghost start = st@;
    let mut i: usize = 0;
    while i < ps.len()
        invariant
            i <= ps.len(),
            st@ == flagged(start, pairs(ps@), texts(patterns@), flag, i as nat),
        decreases ps.len() - i,
    {
        proof {
            assert(pairs(ps@)[i as int] == (ps@[i as int].0@, ps@[i as int].1));
        }
        if choose_path(ps[i].0.as_str(), patterns) {
            ps[i].1.set_requires_grad(st, flag);
        }
        i += 1;
    }
}

// -- summaries -----------------------------------------------------------------------

/// One line of a summary.
pub open spec fn line(st: Stored, path: Seq<char>, p: Param) -> Seq<char> {
    if st.weights.contains_key(p.key()) {
        let dims = st.weights[p.key()].value.dims;
        crate::text::flush_left(path, 48) + " "@ + crate::text::flush_right(
            crate::text::bracketed(dims),
            14,
        ) + " "@ + crate::text::flush_right(
            crate::text::decimal(crate::shape::product(dims)),
            10,
        ) + (if st.weights[p.key()].trainable {
            ""@
        } else {
            "  (frozen)"@
        }) + "\n"@
    } else {
        Seq::empty()
    }
}

pub open spec fn lines(st: Stored, ps: Seq<(Seq<char>, Param)>, k: nat) -> Seq<char>
    decreases k,
{
    if k == 0 {
        Seq::empty()
    } else {
        lines(st, ps, (k - 1) as nat) + line(st, ps[k - 1].0, ps[k - 1].1)
    }
}

/// A summary: one line per parameter, then the totals.
pub open spec fn summary(st: Stored, ps: Seq<(Seq<char>, Param)>) -> Seq<char> {
    lines(st, ps, ps.len()) + "total "@ + crate::text::decimal(
        scalars(st, ps, false, ps.len()),
    ) + " parameters, "@ + crate::text::decimal(scalars(st, ps, true, ps.len()))
        + " trainable\n"@
}

fn append_line(text: &mut String, st: &Store, path: &str, p: Param)
    requires
        st@.weights.contains_key(p.key()) ==> crate::shape::fits(
            st@.weights[p.key()].value.dims,
        ),
    ensures
        final(text)@ == old(text)@ + line(st@, path@, p),
{
    let ghost before = text@;
    match st.weight(p.id()) {
        Some(w) => {
            append_left(text, path, 48);
            text.append(" ");
            let mut dims = String::new();
            append_bracketed(&mut dims, w.value.dims());
            proof {
                assert(dims@ =~= crate::text::bracketed(w.value@.dims));
            }
            append_right(text, dims.as_str(), 14);
            text.append(" ");
            let n: usize = w.value.shape().num_elements();
            let mut digits = String::new();
            append_decimal(&mut digits, n as u64);
            proof {
                assert(digits@ =~= crate::text::decimal(n as nat));
            }
            append_right(text, digits.as_str(), 10);
            if !w.trainable {
                text.append("  (frozen)");
            }
            text.append("\n");
            proof {
                reveal_strlit("");
                assert(text@ =~= before + line(st@, path@, p));
            }
        },
        None => {
            proof {
                assert(text@ =~= before + line(st@, path@, p));
            }
        },
    }
}

proof fn lemma_each_count_fits(st: Stored, ps: Seq<(Seq<char>, Param)>, i: nat)
    requires
        scalars(st, ps, false, ps.len()) <= usize::MAX,
        i < ps.len(),
        st.weights.contains_key(ps[i as int].1.key()),
    ensures
        crate::shape::fits(st.weights[ps[i as int].1.key()].value.dims),
{
    lemma_scalars_grow(st, ps, false, (i + 1) as nat, ps.len());
}

proof fn lemma_trained_are_some(st: Stored, ps: Seq<(Seq<char>, Param)>, k: nat)
    ensures
        scalars(st, ps, true, k) <= scalars(st, ps, false, k),
    decreases k,
{
    if k > 0 {
        lemma_trained_are_some(st, ps, (k - 1) as nat);
    }
}

// -- the traits ----------------------------------------------------------------------

/// A node in the model tree.
///
/// Implementors describe their parameters and children in [`Module::visit`]. Every
/// other method has a working default.
pub trait Module {
    /// This module's own parameters and children, in order.
    spec fn parts(&self) -> Seq<Listed>;

    /// What this module itself does when the mode changes or adapters are merged.
    spec fn hooks(&self) -> Seq<Part>;

    /// Announce this module's own parameters and children.
    fn visit(&self, visitor: &mut ModuleVisitor)
        ensures
            final(visitor)@ == old(visitor)@.saw(self.parts()),
    ;

    /// What this module itself does when the mode changes or adapters are merged.
    fn own_hooks(&self) -> (r: Vec<Part>)
        ensures
            r@ == self.hooks(),
    ;
}

/// Everything found below a module, in order.
pub fn walk<M: Module>(module: &M) -> (r: Vec<Found>)
    ensures
        listed(r@) == module.parts(),
{
    let mut visitor = ModuleVisitor::new();
    module.visit(&mut visitor);
    proof {
        assert(visitor@.found =~= module.parts());
    }
    visitor.found
}

fn parts_of(found: &Vec<Found>) -> (r: Vec<Part>)
    ensures
        r@ == plain(listed(found@)),
{
    let mut out: Vec<Part> = Vec::with_capacity(found.len());
    let mut i: usize = 0;
    while i < found.len()
        invariant
            i <= found.len(),
            out@ == plain(listed(found@)).take(i as int),
        decreases found.len() - i,
    {
        out.push(found[i].part);
        proof {
            assert(out@ =~= plain(listed(found@)).take(i as int + 1));
        }
        i += 1;
    }
    proof {
        assert(out@ =~= plain(listed(found@)));
    }
    out
}

fn switch_all(st: &mut Store, parts: &Vec<Part>, training: bool)
    ensures
        final(st)@ == mode_set(old(st)@, parts@, training, parts@.len()),
{
    let ghost start = st@;
    let mut i: usize = 0;
    while i < parts.len()
        invariant
            i <= parts.len(),
            st@ == mode_set(start, parts@, training, i as nat),
        decreases parts.len() - i,
    {
        if let Part::Switch(w) = parts[i] {
            flip(st, w, training);
        }
        i += 1;
    }
}

/// The store after a mode change has reached a module and everything below it.
pub open spec fn mode_changed<M: Module>(st: Stored, m: &M, training: bool) -> Stored {
    let own = mode_set(st, m.hooks(), training, m.hooks().len());
    mode_set(own, plain(m.parts()), training, m.parts().len())
}

/// Every parameter of a module, with its path.
pub open spec fn parameters_of<M: Module>(m: &M) -> Seq<(Seq<char>, Param)> {
    params_in(m.parts())
}

/// Folding in every adapter of a module: a failure of the module's own adapter ends
/// it; below, everything that can be folded in is, and the first failure is reported.
pub open spec fn merged_module<M: Module>(st: Stored, m: &M) -> (Stored, Option<Fault>) {
    let (own, failure) = merged_all(st, m.hooks(), m.hooks().len());
    if failure is Some {
        (own, failure)
    } else {
        merged_all(own, plain(m.parts()), m.parts().len())
    }
}

/// What every module can be asked, each a pass over its description.
pub trait Tree: Module + Sized {
    /// Every parameter with its dotted path, in a deterministic order.
    fn named_parameters(&self) -> (r: Vec<(String, Param)>)
        ensures
            pairs(r@) == parameters_of(self),
    ;

    /// Every parameter, without names.
    fn parameters(&self) -> (r: Vec<Param>)
        ensures
            r@ == parameters_of(self).map_values(|p: (Seq<char>, Param)| p.1),
    ;

    /// Only the parameters that will receive gradients.
    fn trainable_parameters(&self, st: &Store) -> (r: Vec<Param>)
        ensures
            r@ == parameters_of(self).map_values(|p: (Seq<char>, Param)| p.1).filter(
                |p: Param| trains(st@, p),
            ),
    ;

    /// Total number of scalars in the model; `None` when the count does not fit a machine
    /// word.
    fn num_parameters(&self, st: &Store) -> (r: Option<usize>)
        ensures
            match r {
                Some(n) => n == scalars(
                    st@,
                    parameters_of(self),
                    false,
                    parameters_of(self).len(),
                ),
                None => scalars(st@, parameters_of(self), false, parameters_of(self).len())
                    > usize::MAX,
            },
    ;

    /// Number of scalars that are currently being trained; `None` when the count does not
    /// fit a machine word.
    fn num_trainable_parameters(&self, st: &Store) -> (r: Option<usize>)
        ensures
            match r {
                Some(n) => n == scalars(
                    st@,
                    parameters_of(self),
                    true,
                    parameters_of(self).len(),
                ),
                None => scalars(st@, parameters_of(self), true, parameters_of(self).len())
                    > usize::MAX,
            },
    ;

    /// Switch the whole subtree between training and evaluation behaviour.
    fn set_training(&self, st: &mut Store, training: bool)
        ensures
            final(st)@ == mode_changed(old(st)@, self, training),
    ;

    /// Shorthand for `set_training(true)`.
    fn train(&self, st: &mut Store)
        ensures
            final(st)@ == mode_changed(old(st)@, self, true),
    ;

    /// Shorthand for `set_training(false)`.
    fn eval(&self, st: &mut Store)
        ensures
            final(st)@ == mode_changed(old(st)@, self, false),
    ;

    /// Fold every adapter in the subtree into its base weight.
    ///
    /// After this the adapters contribute nothing until they are trained again.
    fn merge_lora_adapters(&self, st: &mut Store) -> (r: Result<(), Error>)
        ensures
            final(st)@ == merged_module(old(st)@, self).0,
            match (r, merged_module(old(st)@, self).1) {
                (Ok(_), None) => true,
                (Err(e), Some(f)) => e@ == f,
                _ => false,
            },
    ;

    /// Freeze every parameter whose path contains any of `patterns`. With an empty pattern
    /// list, freeze everything.
    fn freeze_matching(&self, st: &mut Store, patterns: &Vec<String>)
        ensures
            final(st)@ == flagged(
                old(st)@,
                parameters_of(self),
                texts(patterns@),
                false,
                parameters_of(self).len(),
            ),
    ;

    /// Unfreeze every parameter whose path contains any of `patterns`. With an empty
    /// pattern list, unfreeze everything.
    fn unfreeze_matching(&self, st: &mut Store, patterns: &Vec<String>)
        ensures
            final(st)@ == flagged(
                old(st)@,
                parameters_of(self),
                texts(patterns@),
                true,
                parameters_of(self).len(),
            ),
    ;

    /// A one-line-per-parameter summary; `None` when the totals do not fit a machine word.
    fn describe(&self, st: &Store) -> (r: Option<String>)
        ensures
            match r {
                Some(text) => text@ == summary(st@, parameters_of(self)),
                None => scalars(st@, parameters_of(self), false, parameters_of(self).len())
                    > usize::MAX,
            },
    ;
}

impl<M: Module> Tree for M {
    fn named_parameters(&self) -> (r: Vec<(String, Param)>)
    {
        let found = walk(self);
        let ghost list = listed(found@);
        let mut out: Vec<(String, Param)> = Vec::new();
        let mut i: usize = 0;
        proof {
            assert(pairs(out@) =~= params_among(list, 0));
        }
        while i < found.len()
            invariant
                i <= found.len(),
                list == listed(found@),
                pairs(out@) == params_among(list, i as nat),
            decreases found.len() - i,
        {
            if let Part::Param(p) = found[i].part {
                let ghost before = pairs(out@);
                let name = found[i].path.clone();
                out.push((name, p));
                proof {
                    assert(pairs(out@) =~= before.push((name@, p)));
                }
            }
            i += 1;
        }
        out
    }

    fn parameters(&self) -> (r: Vec<Param>)
    {
        let named = self.named_parameters();
        let mut out: Vec<Param> = Vec::with_capacity(named.len());
        let ghost want = parameters_of(self).map_values(|p: (Seq<char>, Param)| p.1);
        let mut i: usize = 0;
        while i < named.len()
            invariant
                i <= named.len(),
                pairs(named@) == parameters_of(self),
                want == parameters_of(self).map_values(|p: (Seq<char>, Param)| p.1),
                out@ == want.take(i as int),
            decreases named.len() - i,
        {
            out.push(named[i].1);
            proof {
                assert(pairs(named@)[i as int].1 == named@[i as int].1);
                assert(out@ =~= want.take(i as int + 1));
            }
            i += 1;
        }
        proof {
            assert(out@ =~= want);
        }
        out
    }

    fn trainable_parameters(&self, st: &Store) -> (r: Vec<Param>)
    {
        let all = self.parameters();
        let ghost keep = |p: Param| trains(st@, p);
        let mut out: Vec<Param> = Vec::new();
        let mut i: usize = 0;
        proof {
            reveal(Seq::filter);
            assert(all@.take(0) =~= Seq::<Param>::empty());
        }
        while i < all.len()
            invariant
                i <= all.len(),
                keep == |p: Param| trains(st@, p),
                out@ == all@.take(i as int).filter(keep),
            decreases all.len() - i,
        {
            proof {
                reveal(Seq::filter);
                assert(all@.take(i as int + 1).drop_last() =~= all@.take(i as int));
                assert(keep(all@[i as int]) == trains(st@, all@[i as int]));
            }
            if all[i].requires_grad(st) {
                out.push(all[i]);
            }
            i += 1;
        }
        proof {
            assert(all@.take(all.len() as int) =~= all@);
        }
        out
    }

    fn num_parameters(&self, st: &Store) -> (r: Option<usize>)
    {
        let named = self.named_parameters();
        count(st, &named, false)
    }

    fn num_trainable_parameters(&self, st: &Store) -> (r: Option<usize>)
    {
        let named = self.named_parameters();
        count(st, &named, true)
    }

    fn set_training(&self, st: &mut Store, training: bool)
    {
        let own = self.own_hooks();
        switch_all(st, &own, training);
        let found = walk(self);
        let below = parts_of(&found);
        switch_all(st, &below, training);
    }

    fn train(&self, st: &mut Store)
    {
        self.set_training(st, true);
    }

    fn eval(&self, st: &mut Store)
    {
        self.set_training(st, false);
    }

    fn merge_lora_adapters(&self, st: &mut Store) -> (r: Result<(), Error>)
    {
        let own = self.own_hooks();
        if let Some(e) = merge_all(st, &own) {
            return Err(e);
        }
        let found = walk(self);
        let below = parts_of(&found);
        match merge_all(st, &below) {
            Some(e) => Err(e),
            None => Ok(()),
        }
    }

    fn freeze_matching(&self, st: &mut Store, patterns: &Vec<String>)
    {
        let named = self.named_parameters();
        set_flags(st, &named, patterns, false);
    }

    fn unfreeze_matching(&self, st: &mut Store, patterns: &Vec<String>)
    {
        let named = self.named_parameters();
        set_flags(st, &named, patterns, true);
    }

    fn describe(&self, st: &Store) -> (r: Option<String>)
    {
        let named = self.named_parameters();
        let ghost ps = pairs(named@);
        let total: usize = match count(st, &named, false) {
            Some(n) => n,
            None => {
                return None;
            },
        };
        let trained: usize = match count(st, &named, true) {
            Some(n) => n,
            None => {
                proof {
                    lemma_trained_are_some(st@, ps, ps.len());
                }
                return None;
            },
        };
        let mut text = String::new();
        let mut i: usize = 0;
        proof {
            assert(text@ =~= lines(st@, ps, 0));
        }
        while i < named.len()
            invariant
                i <= named.len(),
                ps == pairs(named@),
                scalars(st@, ps, false, ps.len()) <= usize::MAX,
                text@ == lines(st@, ps, i as nat),
            decreases named.len() - i,
        {
            proof {
                assert(ps[i as int] == (named@[i as int].0@, named@[i as int].1));
                if st@.weights.contains_key(ps[i as int].1.key()) {
                    lemma_each_count_fits(st@, ps, i as nat);
                }
            }
            append_line(&mut text, st, named[i].0.as_str(), named[i].1);
            i += 1;
        }
        text.append("total ");
        append_decimal(&mut text, total as u64);
        text.append(" parameters, ");
        append_decimal(&mut text, trained as u64);
        text.append(" trainable\n");
        proof {
            assert(text@ =~= summary(st@, ps));
        }
        Some(text)
    }
}

/// A module that maps one value to one value.
pub trait Layer: Module {
    /// What applying the layer does.
    spec fn forward_op(&self, w: World, x: Traced) -> Step;

    /// Apply the layer.
    fn forward(&self, s: &mut Session, st: &mut Store, input: &Var) -> (r: Result<Var, Error>)
        ensures
            flow::ran(
                r,
                final(s)@,
                final(st)@,
                self.forward_op(flow::world(old(s)@, old(st)@), input@),
            ),
    ;
}

} // verus!
