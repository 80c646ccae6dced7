//! How mixers are distributed through a stack.

use vstd::prelude::*;

use crate::error::{Error, Fault};
use crate::shape::copied;
use crate::text::append_decimal;

verus! {

/// Which token mixer a layer uses.
#[derive(Debug, Clone, Copy, PartialEq, Eq, Structural)]
pub enum LayerKind {
    /// A state-space mixer.
    Mamba,
    /// Multi-head self-attention.
    Attention,
}

/// How mixers are distributed through the stack.
#[derive(Debug)]
pub enum LayerPattern {
    /// Every layer is a state-space mixer.
    AllMamba,
    /// Every layer is attention. Useful as a control when ablating.
    AllAttention,
    /// Every `period`-th layer (counting from the end of each period) is attention.
    AttentionEvery {
        /// Period between attention layers.
        period: usize,
    },
    /// Attention at exactly these layer indices.
    AttentionAt(Vec<usize>),
    /// An explicit sequence, cycled if shorter than the stack.
    Explicit(Vec<LayerKind>),
}

/// A distribution of mixers as a mathematical value.
pub enum Layout {
    AllMamba,
    AllAttention,
    AttentionEvery(usize),
    AttentionAt(Seq<usize>),
    Explicit(Seq<LayerKind>),
}

impl View for LayerPattern {
    type V = Layout;

    open spec fn view(&self) -> Layout {
        match self {
            LayerPattern::AllMamba => Layout::AllMamba,
            LayerPattern::AllAttention => Layout::AllAttention,
            LayerPattern::AttentionEvery { period } => Layout::AttentionEvery(*period),
            LayerPattern::AttentionAt(v) => Layout::AttentionAt(v@),
            LayerPattern::Explicit(v) => Layout::Explicit(v@),
        }
    }
}

pub open spec fn kind(attention: bool) -> LayerKind {
    if attention {
        LayerKind::Attention
    } else {
        LayerKind::Mamba
    }
}

/// Whether a list of indices holds one.
pub open spec fn holds(indices: Seq<usize>, i: int) -> bool {
    exists|j: int| 0 <= j < indices.len() && #[trigger] indices[j] == i
}

/// The first of the first `k` indices that lies past the end of a stack.
pub open spec fn first_past(indices: Seq<usize>, n_layers: usize, k: nat) -> Option<usize>
    decreases k,
{
    if k == 0 {
        None
    } else {
        match first_past(indices, n_layers, (k - 1) as nat) {
            Some(i) => Some(i),
            None => if indices[k - 1] >= n_layers {
                Some(indices[k - 1])
            } else {
                None
            },
        }
    }
}

pub open spec fn past_message(index: usize, n_layers: usize) -> Seq<char> {
    "attention index "@ + crate::text::decimal(index as nat) + " is past the end of a "@
        + crate::text::decimal(n_layers as nat) + "-layer stack"@
}

impl Layout {
    /// What is wrong with the distribution for a stack of a given depth, if anything.
    pub open spec fn fault(self, n_layers: usize) -> Option<Fault> {
        match self {
            Layout::AttentionEvery(period) => if period == 0 {
                Some(Fault::Config("attention period must be positive"@))
            } else {
                None
            },
            Layout::AttentionAt(indices) => match first_past(indices, n_layers, indices.len()) {
                Some(i) => Some(Fault::Config(past_message(i, n_layers))),
                None => None,
            },
            Layout::Explicit(kinds) => if kinds.len() == 0 {
                Some(Fault::Config("an explicit pattern cannot be empty"@))
            } else {
                None
            },
            _ => None,
        }
    }

    /// The mixer of the `i`-th layer.
    pub open spec fn at(self, i: int) -> LayerKind {
        match self {
            Layout::AllMamba => LayerKind::Mamba,
            Layout::AllAttention => LayerKind::Attention,
            Layout::AttentionEvery(period) => kind((i + 1) % period as int == 0),
            Layout::AttentionAt(indices) => kind(holds(indices, i)),
            Layout::Explicit(kinds) => kinds[i % kinds.len() as int],
        }
    }

    /// One entry per layer.
    pub open spec fn layers(self, n_layers: usize) -> Seq<LayerKind> {
        Seq::new(n_layers as nat, |i: int| self.at(i))
    }
}

impl Default for LayerPattern {
    fn default() -> (r: Self)
        ensures
            r@ == Layout::AllMamba,
    {
        LayerPattern::AllMamba
    }
}

fn copied_kinds(v: &Vec<LayerKind>) -> (r: Vec<LayerKind>)
    ensures
        r@ == v@,
{
    let mut out: Vec<LayerKind> = Vec::new();
    let mut i: usize = 0;
    while i < v.len()
        invariant
            i <= v.len(),
            out@ == v@.take(i as int),
        decreases v.len() - i,
    {
        out.push(v[i]);
        proof {
            assert(v@.take(i as int).push(v@[i as int]) =~= v@.take(i as int + 1));
        }
        i += 1;
    }
    proof {
        assert(v@.take(v.len() as int) =~= v@);
    }
    out
}

impl Clone for LayerPattern {
    fn clone(&self) -> (r: Self)
        ensures
            r@ == self@,
    {
        match self {
            LayerPattern::AllMamba => LayerPattern::AllMamba,
            LayerPattern::AllAttention => LayerPattern::AllAttention,
            LayerPattern::AttentionEvery { period } => LayerPattern::AttentionEvery {
                period: *period,
            },
            LayerPattern::AttentionAt(v) => LayerPattern::AttentionAt(copied(v)),
            LayerPattern::Explicit(v) => LayerPattern::Explicit(copied_kinds(v)),
        }
    }
}

fn past_error(index: usize, n_layers: usize) -> (e: Error)
    ensures
        e@ == Fault::Config(past_message(index, n_layers)),
{
    let mut text = String::new();
    text.append("attention index ");
    append_decimal(&mut text, index as u64);
    text.append(" is past the end of a ");
    append_decimal(&mut text, n_layers as u64);
    text.append("-layer stack");
    proof {
        assert(text@ =~= past_message(index, n_layers));
    }
    Error::Config(text)
}

proof fn lemma_first_past_stays(indices: Seq<usize>, n_layers: usize, j: nat, k: nat)
    requires
        j <= k,
        first_past(indices, n_layers, j) is Some,
    ensures
        first_past(indices, n_layers, k) == first_past(indices, n_layers, j),
    decreases k,
{
    if j < k {
        lemma_first_past_stays(indices, n_layers, j, (k - 1) as nat);
    }
}

fn check_indices(indices: &Vec<usize>, n_layers: usize) -> (r: Result<(), Error>)
    ensures
        match (r, Layout::AttentionAt(indices@).fault(n_layers)) {
            (Ok(_), None) => true,
            (Err(e), Some(f)) => e@ == f,
            _ => false,
        },
{
    let mut i: usize = 0;
    while i < indices.len()
        invariant
            i <= indices.len(),
            first_past(indices@, n_layers, i as nat) is None,
        decreases indices.len() - i,
    {
        if indices[i] >= n_layers {
            proof {
                lemma_first_past_stays(indices@, n_layers, (i + 1) as nat, indices@.len());
            }
            return Err(past_error(indices[i], n_layers));
        }
        i += 1;
    }
    Ok(())
}

fn has_index(indices: &Vec<usize>, n: usize) -> (r: bool)
    ensures
        r == holds(indices@, n as int),
{
    let mut i: usize = 0;
    while i < indices.len()
        invariant
            i <= indices.len(),
            forall|j: int| 0 <= j < i ==> #[trigger] indices@[j] != n as int,
        decreases indices.len() - i,
    {
        if indices[i] == n {
            return true;
        }
        i += 1;
    }
    false
}

impl LayerPattern {
    /// The mixer of one layer.
    fn kind_at(&self, i: usize) -> (r: LayerKind)
        requires
            i < usize::MAX,
            self@ matches Layout::AttentionEvery(period) ==> period > 0,
            self@ matches Layout::Explicit(kinds) ==> kinds.len() > 0,
        ensures
            r == self@.at(i as int),
    {
        let attention: bool = match self {
            LayerPattern::AllMamba => false,
            LayerPattern::AllAttention => true,
            LayerPattern::AttentionEvery { period } => (i + 1) % *period == 0,
            LayerPattern::AttentionAt(indices) => has_index(indices, i),
            LayerPattern::Explicit(kinds) => {
                return kinds[i % kinds.len()];
            },
        };
        if attention {
            LayerKind::Attention
        } else {
            LayerKind::Mamba
        }
    }

    fn check(&self, n_layers: usize) -> (r: Result<(), Error>)
        ensures
            match (r, self@.fault(n_layers)) {
                (Ok(_), None) => true,
                (Err(e), Some(f)) => e@ == f,
                _ => false,
            },
    {
        match self {
            LayerPattern::AttentionEvery { period } => if *period == 0 {
                Err(Error::config("attention period must be positive"))
            } else {
                Ok(())
            },
            LayerPattern::AttentionAt(indices) => check_indices(indices, n_layers),
            LayerPattern::Explicit(kinds) => if kinds.len() == 0 {
                Err(Error::config("an explicit pattern cannot be empty"))
            } else {
                Ok(())
            },
            _ => Ok(()),
        }
    }

    /// Expand into one entry per layer.
    pub fn expand(&self, n_layers: usize) -> (r: Result<Vec<LayerKind>, Error>)
        ensures
            match (r, self@.fault(n_layers)) {
                (Ok(v), None) => v@ == self@.layers(n_layers),
                (Err(e), Some(f)) => e@ == f,
                _ => false,
            },
    {
        self.check(n_layers)?;
        let mut out: Vec<LayerKind> = Vec::new();
        let mut i: usize = 0;
        while i < n_layers
            invariant
                i <= n_layers,
                out@ == self@.layers(i),
                self@ matches Layout::AttentionEvery(period) ==> period > 0,
                self@ matches Layout::Explicit(kinds) ==> kinds.len() > 0,
            decreases n_layers - i,
        {
            out.push(self.kind_at(i));
            i += 1;
            proof {
                assert(out@ =~= self@.layers(i));
            }
        }
        Ok(out)
    }
}

/// The number of attention layers among the first `k`.
pub open spec fn attention_count(layers: Seq<LayerKind>, k: nat) -> nat
    decreases k,
{
    if k == 0 {
        0
    } else {
        attention_count(layers, (k - 1) as nat) + if layers[k - 1] == LayerKind::Attention {
            1nat
        } else {
            0nat
        }
    }
}

/// A periodic pattern has one attention layer per whole period: a stack of 24 layers with
/// a period of 6 has 4.
pub proof fn law_every_whole_period_has_one(period: usize, n_layers: usize, k: nat)
    requires
        period > 0,
        k <= n_layers,
    ensures
        attention_count(Layout::AttentionEvery(period).layers(n_layers), k) == k / period as nat,
    decreases k,
{
    let p = period as int;
    if k > 0 {
        law_every_whole_period_has_one(period, n_layers, (k - 1) as nat);
        let a = k as int;
        vstd::arithmetic::div_mod::lemma_fundamental_div_mod(a, p);
        vstd::arithmetic::div_mod::lemma_fundamental_div_mod(a - 1, p);
        let q = (a - 1) / p;
        let r = (a - 1) % p;
        if r == p - 1 {
            assert(a == p * (q + 1) + 0) by (nonlinear_arith)
                requires
                    a - 1 == p * q + r,
                    r == p - 1,
            ;
            vstd::arithmetic::div_mod::lemma_fundamental_div_mod_converse(a, p, q + 1, 0);
        } else {
            assert(a == p * q + (r + 1));
            vstd::arithmetic::div_mod::lemma_fundamental_div_mod_converse(a, p, q, r + 1);
        }
    } else {
        vstd::arithmetic::div_mod::lemma_div_basics(p);
    }
}

/// Attention stands at exactly the indices given, and every index given lies within the
/// stack.
pub proof fn law_attention_stands_where_asked(indices: Seq<usize>, n_layers: usize, i: int)
    requires
        Layout::AttentionAt(indices).fault(n_layers) is None,
    ensures
        0 <= i < n_layers ==> ((Layout::AttentionAt(indices).layers(n_layers)[i]
            == LayerKind::Attention) <==> indices.contains(i as usize)),
        forall|j: int| 0 <= j < indices.len() ==> #[trigger] indices[j] < n_layers,
{
    lemma_none_past(indices, n_layers, indices.len());
    if 0 <= i < n_layers && indices.contains(i as usize) {
        let j = choose|j: int| 0 <= j < indices.len() && indices[j] == i as usize;
        assert(indices[j] == i);
    }
}

proof fn lemma_none_past(indices: Seq<usize>, n_layers: usize, k: nat)
    requires
        k <= indices.len(),
        first_past(indices, n_layers, k) is None,
    ensures
        forall|j: int| 0 <= j < k ==> #[trigger] indices[j] < n_layers,
    decreases k,
{
    if k > 0 {
        lemma_none_past(indices, n_layers, (k - 1) as nat);
    }
}

/// An explicit pattern repeats with the length of its list.
pub proof fn law_an_explicit_pattern_cycles(kinds: Seq<LayerKind>, n_layers: usize, i: int)
    requires
        kinds.len() > 0,
        0 <= i,
        i + kinds.len() < n_layers,
    ensures
        Layout::Explicit(kinds).layers(n_layers)[i + kinds.len()] == Layout::Explicit(
            kinds,
        ).layers(n_layers)[i],
        i < kinds.len() ==> Layout::Explicit(kinds).layers(n_layers)[i] == kinds[i],
{
    vstd::arithmetic::div_mod::lemma_mod_add_multiples_vanish(i, kinds.len() as int);
    if i < kinds.len() {
        vstd::arithmetic::div_mod::lemma_small_mod(i as nat, kinds.len());
    }
}

} // verus!
