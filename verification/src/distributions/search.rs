//! Drawing by trial: rejection attempts, and walks along a distribution function.
//!
//! Whether an attempt is taken, and whether a uniform number lies past the mass gathered so
//! far, is for the executor to say; what follows from the answers is decided here.

use vstd::prelude::*;

use super::draws;
use super::draws::binomial_mean;
use super::formula;
use super::formula::{Calculus, Point, Slot, Test, below, ratio, slot, whole};
use super::univariate::MAX_TRIES;

verus! {

/// Steps of a walk to a Poisson count.
pub const POISSON_STEPS: u32 = 200;

/// Steps of a walk to a binomial count.
pub const BINOMIAL_STEPS: u32 = 1000;

// -- rejection ---------------------------------------------------------------------------

/// Where a rejection sampler stands.
#[derive(Debug, Clone, Copy, PartialEq, Eq, Structural)]
pub enum Search {
    /// The attempt to make next.
    Trying(u32),
    /// The attempt that was taken.
    Taken(u32),
    /// Every attempt was refused, and the fallback stands in.
    Exhausted,
}

/// What a search comes to when its next attempt is taken or refused.
pub open spec fn tried(s: Search, taken: bool) -> Search {
    match s {
        Search::Trying(i) => if taken {
            Search::Taken(i)
        } else if i + 1 >= MAX_TRIES {
            Search::Exhausted
        } else {
            Search::Trying((i + 1) as u32)
        },
        _ => s,
    }
}

/// What a search comes to after a list of answers.
pub open spec fn searched(answers: Seq<bool>) -> Search
    decreases answers.len(),
{
    if answers.len() == 0 {
        Search::Trying(0)
    } else {
        tried(searched(answers.drop_last()), answers.last())
    }
}

impl Search {
    /// A search before its first attempt.
    pub fn new() -> (r: Self)
        ensures
            r == searched(Seq::empty()),
    {
        Search::Trying(0)
    }

    /// The search after an answer to its next attempt. One that is over stays as it is.
    pub fn after(self, taken: bool) -> (r: Self)
        ensures
            r == tried(self, taken),
    {
        match self {
            Search::Trying(i) => if taken {
                Search::Taken(i)
            } else if i >= MAX_TRIES - 1 {
                Search::Exhausted
            } else {
                Search::Trying(i + 1)
            },
            _ => self,
        }
    }
}

/// A search takes the first attempt that may be taken, and gives up after a fixed number of
/// refusals: every draw ends.
pub proof fn law_a_search_takes_the_first(answers: Seq<bool>)
    ensures
        match searched(answers) {
            Search::Taken(i) => i < MAX_TRIES && i < answers.len() && answers[i as int]
                && forall|j: int| 0 <= j < i ==> !#[trigger] answers[j],
            Search::Exhausted => MAX_TRIES <= answers.len() && forall|j: int|
                0 <= j < MAX_TRIES ==> !#[trigger] answers[j],
            Search::Trying(i) => i == answers.len() && i < MAX_TRIES && forall|j: int|
                0 <= j < i ==> !#[trigger] answers[j],
        },
    decreases answers.len(),
{
    if answers.len() > 0 {
        law_a_search_takes_the_first(answers.drop_last());
        assert forall|j: int| 0 <= j < answers.len() - 1 implies #[trigger] answers[j]
            == answers.drop_last()[j] by {}
    }
}

// -- walking -----------------------------------------------------------------------------

/// Where a walk along a distribution function stands.
#[derive(Debug, Clone, Copy, PartialEq, Eq, Structural)]
pub struct Walk {
    /// The count it has reached.
    pub count: u32,
    /// Whether it is over.
    pub over: bool,
}

/// What a walk comes to when the number sought is, or is not, past the count it has reached.
pub open spec fn stepped(w: Walk, past: bool, limit: u32) -> Walk {
    if w.over {
        w
    } else if past && w.count < limit {
        Walk { count: (w.count + 1) as u32, over: w.count + 1 >= limit }
    } else {
        Walk { over: true, ..w }
    }
}

/// What a walk comes to after a list of answers.
pub open spec fn walked(answers: Seq<bool>, limit: u32) -> Walk
    decreases answers.len(),
{
    if answers.len() == 0 {
        Walk { count: 0, over: limit == 0 }
    } else {
        stepped(walked(answers.drop_last(), limit), answers.last(), limit)
    }
}

impl Walk {
    /// A walk at its start.
    pub fn new(limit: u32) -> (r: Self)
        ensures
            r == walked(Seq::empty(), limit),
    {
        Walk { count: 0, over: limit == 0 }
    }

    /// The walk after an answer. One that is over stays as it is.
    pub fn after(self, past: bool, limit: u32) -> (r: Self)
        ensures
            r == stepped(self, past, limit),
    {
        if self.over {
            self
        } else if past && self.count < limit {
            Walk { count: self.count + 1, over: self.count + 1 >= limit }
        } else {
            Walk { over: true, ..self }
        }
    }
}

/// How many answers at the front say yes.
pub open spec fn leading(answers: Seq<bool>) -> nat
    decreases answers.len(),
{
    if answers.len() == 0 || !answers[0] {
        0
    } else {
        1 + leading(answers.drop_first())
    }
}

proof fn lemma_leading(answers: Seq<bool>)
    ensures
        leading(answers) <= answers.len(),
        answers.len() > 0 ==> leading(answers) == if leading(answers.drop_last()) + 1
            == answers.len() && answers.last() {
            answers.len()
        } else {
            leading(answers.drop_last())
        },
        answers.len() > 0 ==> leading(answers.drop_last()) < answers.len(),
    decreases answers.len(),
{
    reveal_with_fuel(leading, 2);
    if answers.len() > 1 {
        let rest = answers.drop_first();
        lemma_leading(rest);
        assert(answers.drop_last().drop_first() =~= rest.drop_last());
        assert(answers.drop_last()[0] == answers[0]);
    }
}

/// A walk ends at the number of counts the number sought lies past, or at the limit: every
/// walk ends.
pub proof fn law_a_walk_counts_what_it_passes(answers: Seq<bool>, limit: u32)
    ensures
        walked(answers, limit).count == if leading(answers) < limit {
            leading(answers)
        } else {
            limit as nat
        },
        walked(answers, limit).over <==> leading(answers) < answers.len() || limit <= leading(
            answers,
        ),
    decreases answers.len(),
{
    if answers.len() > 0 {
        law_a_walk_counts_what_it_passes(answers.drop_last(), limit);
        lemma_leading(answers);
        lemma_leading(answers.drop_last());
    }
}

// -- which it is -------------------------------------------------------------------------

/// Whether a Poisson count is walked to: the rate is below ten.
pub fn poisson_walks() -> (r: Test)
    ensures
        forall|m: Calculus, p: Point| #[trigger] formula::holds(m, r, p) == (p.a < 10real),
{
    below(slot(Slot::A), whole(10))
}

/// Whether a binomial count is walked to: its folded mean is below ten.
pub fn binomial_walks() -> (r: Test)
    ensures
        forall|m: Calculus, p: Point| #[trigger]
            formula::holds(m, r, p) == (draws::binomial_mean_at(m, p) < 10real),
{
    below(binomial_mean(), whole(10))
}

/// Whether an angle is drawn from the whole circle: the concentration is below a ten
/// thousandth.
pub fn angle_is_flat() -> (r: Test)
    ensures
        forall|m: Calculus, p: Point| #[trigger]
            formula::holds(m, r, p) == (p.a < 1real / 10000real),
{
    below(slot(Slot::A), ratio(1, 10000))
}

} // verus!
