//! How the next token is chosen.
//!
//! Scores are single-precision bit patterns. What is decided about them - which tokens
//! are penalised, which one is best, in which order they stand, how many are kept and
//! which one a draw falls on - is decided here; the arithmetic in between belongs to the
//! executor.

use vstd::prelude::*;

use crate::single;

verus! {

/// How the next token is chosen. Real-valued settings are bit patterns.
#[derive(Debug, Clone, Copy, PartialEq, Eq, Structural)]
pub struct SamplerConfig {
    /// Softmax temperature. `0` means greedy.
    pub temperature: u32,
    /// Keep only the `k` most likely tokens. `0` disables.
    pub top_k: usize,
    /// Keep the smallest set whose probability mass reaches `p`. `1` disables.
    pub top_p: u32,
    /// Divide the score of already-generated tokens by this factor.
    pub repetition_penalty: u32,
}

pub open spec fn default_config() -> SamplerConfig {
    SamplerConfig {
        temperature: single::ONE,
        top_k: 0,
        top_p: single::ONE,
        repetition_penalty: single::ONE,
    }
}

impl Default for SamplerConfig {
    fn default() -> (r: Self)
        ensures
            r == default_config(),
    {
        SamplerConfig {
            temperature: single::ONE,
            top_k: 0,
            top_p: single::ONE,
            repetition_penalty: single::ONE,
        }
    }
}

// -- the decisions -------------------------------------------------------------------------

/// The tokens among the first `k` of a history that a vocabulary holds, each once, in the
/// order in which they first occur.
pub open spec fn known(history: Seq<u32>, vocab: usize, k: nat) -> Seq<usize>
    decreases k,
{
    if k == 0 {
        Seq::empty()
    } else {
        let before = known(history, vocab, (k - 1) as nat);
        if history[k - 1] < vocab && !before.contains(history[k - 1] as usize) {
            before.push(history[k - 1] as usize)
        } else {
            before
        }
    }
}

/// What becomes of the score of a token that has occurred: a penalty divides a score above
/// zero and multiplies any other.
pub open spec fn lowered(score: real, penalty: real) -> real {
    if score > 0real {
        score / penalty
    } else {
        score * penalty
    }
}

/// The position of the best of the first `k` scores. A later score takes the place of
/// the best so far unless it is below it.
pub open spec fn best_of(scores: Seq<u32>, k: nat) -> usize
    decreases k,
{
    if k <= 1 {
        0
    } else {
        let best = best_of(scores, (k - 1) as nat);
        if single::below(scores[k - 1], scores[best as int]) {
            best
        } else {
            (k - 1) as usize
        }
    }
}

/// Where a token goes in a ranking, looking from position `p` upwards: behind every
/// token whose score is not below its own.
pub open spec fn place(scores: Seq<u32>, ranking: Seq<usize>, token: usize, p: nat) -> nat
    decreases p,
{
    if p > 0 && single::below(scores[ranking[p - 1] as int], scores[token as int]) {
        place(scores, ranking, token, (p - 1) as nat)
    } else {
        p
    }
}

/// The first `k` tokens in descending order of score, equal scores in order of token.
pub open spec fn ranking_of(scores: Seq<u32>, k: nat) -> Seq<usize>
    decreases k,
{
    if k == 0 {
        Seq::empty()
    } else {
        let before = ranking_of(scores, (k - 1) as nat);
        let token = (k - 1) as usize;
        before.insert(place(scores, before, token, before.len()) as int, token)
    }
}

/// The number of candidates that stay when all but the first `top_k` are dropped.
pub open spec fn candidates(top_k: usize, n: nat) -> nat {
    if 0 < top_k < n {
        top_k as nat
    } else {
        n
    }
}

/// One past the first position, from `i` on, at which a running total reaches a mass;
/// the number of totals where none does.
pub open spec fn reaching(totals: Seq<u32>, mass: u32, i: nat) -> nat
    decreases totals.len() - i,
{
    if i >= totals.len() {
        totals.len()
    } else if single::at_most(mass, totals[i as int]) {
        i + 1
    } else {
        reaching(totals, mass, i + 1)
    }
}

/// The first position, from `i` on, at which what is left of a draw is used up.
pub open spec fn spent(left: Seq<u32>, i: nat) -> Option<nat>
    decreases left.len() - i,
{
    if i >= left.len() {
        None
    } else if single::at_most(left[i as int], single::ZERO) {
        Some(i)
    } else {
        spent(left, i + 1)
    }
}

/// The token a draw falls on: the one that uses it up, the last one where rounding leaves
/// some of it, and token 0 where there is none.
pub open spec fn drawn(order: Seq<usize>, left: Seq<u32>) -> usize {
    match spent(left, 0) {
        Some(i) => order[i as int],
        None => if order.len() > 0 {
            order.last()
        } else {
            0
        },
    }
}

impl SamplerConfig {
    /// Always take the most likely token.
    pub fn greedy() -> (r: Self)
        ensures
            r == (SamplerConfig { temperature: single::ZERO, ..default_config() }),
    {
        SamplerConfig { temperature: single::ZERO, ..SamplerConfig::default() }
    }

    /// Temperature sampling.
    pub fn temperature(t: u32) -> (r: Self)
        ensures
            r == (SamplerConfig { temperature: t, ..default_config() }),
    {
        SamplerConfig { temperature: t, ..SamplerConfig::default() }
    }

    /// Restrict to the top `k` scores.
    pub fn with_top_k(self, k: usize) -> (r: Self)
        ensures
            r == (SamplerConfig { top_k: k, ..self }),
    {
        SamplerConfig { top_k: k, ..self }
    }

    /// Restrict to the nucleus of mass `p`.
    pub fn with_top_p(self, p: u32) -> (r: Self)
        ensures
            r == (SamplerConfig { top_p: p, ..self }),
    {
        SamplerConfig { top_p: p, ..self }
    }

    /// Penalise tokens already in the context.
    pub fn with_repetition_penalty(self, penalty: u32) -> (r: Self)
        ensures
            r == (SamplerConfig { repetition_penalty: penalty, ..self }),
    {
        SamplerConfig { repetition_penalty: penalty, ..self }
    }

    /// Whether the most likely token is always taken.
    pub fn is_greedy(&self) -> (r: bool)
        ensures
            r == single::at_most(self.temperature, single::ZERO),
    {
        single::le(self.temperature, single::ZERO)
    }

    /// The tokens whose scores the penalty is applied to: every token of the history that
    /// the vocabulary holds, once however often it occurs, unless the penalty is 1.
    pub fn penalised(&self, history: &Vec<u32>, vocab: usize) -> (r: Vec<usize>)
        ensures
            r@ == if single::equals(self.repetition_penalty, single::ONE) {
                Seq::empty()
            } else {
                known(history@, vocab, history@.len())
            },
    {
        let mut out: Vec<usize> = Vec::new();
        if single::eq(self.repetition_penalty, single::ONE) {
            return out;
        }
        let mut seen: Vec<bool> = Vec::new();
        while seen.len() < vocab
            invariant
                seen@.len() <= vocab,
                forall|t: int| 0 <= t < seen@.len() ==> !#[trigger] seen@[t],
            decreases vocab - seen@.len(),
        {
            seen.push(false);
        }
        let mut i: usize = 0;
        while i < history.len()
            invariant
                i <= history.len(),
                seen@.len() == vocab,
                out@ == known(history@, vocab, i as nat),
                forall|t: usize| t < vocab ==> #[trigger] seen@[t as int] == out@.contains(t),
            decreases history.len() - i,
        {
            let token: usize = history[i] as usize;
            if token < vocab && !seen[token] {
                let ghost before = out@;
                seen.set(token, true);
                out.push(token);
                proof {
                    assert(out@[before.len() as int] == token);
                    assert forall|t: usize| t < vocab implies #[trigger] seen@[t as int] == out@.contains(
                        t,
                    ) by {
                        if before.contains(t) {
                            let j = choose|j: int| 0 <= j < before.len() && before[j] == t;
                            assert(out@[j] == t);
                        }
                    }
                }
            }
            i += 1;
        }
        out
    }

    /// The candidates in descending order of score: the best `top_k`, or all of them.
    pub fn order(&self, scores: &Vec<u32>) -> (r: Vec<usize>)
        ensures
            r@ == ranking_of(scores@, scores@.len()).take(
                candidates(self.top_k, scores@.len()) as int,
            ),
    {
        let n: usize = scores.len();
        let mut out = ranking(scores);
        proof {
            law_a_ranking_lists_every_token_once(scores@, scores@.len());
        }
        if self.top_k > 0 && self.top_k < n {
            out.truncate(self.top_k);
        } else {
            proof {
                assert(out@.take(out@.len() as int) =~= out@);
            }
        }
        out
    }

    /// How many candidates the nucleus keeps, given the running totals of their
    /// probabilities.
    pub fn nucleus(&self, totals: &Vec<u32>) -> (r: usize)
        ensures
            r == if single::below(self.top_p, single::ONE) {
                reaching(totals@, self.top_p, 0)
            } else {
                totals@.len()
            },
    {
        if !single::lt(self.top_p, single::ONE) {
            return totals.len();
        }
        let mut i: usize = 0;
        while i < totals.len()
            invariant
                i <= totals.len(),
                single::below(self.top_p, single::ONE),
                reaching(totals@, self.top_p, 0) == reaching(totals@, self.top_p, i as nat),
            decreases totals.len() - i,
        {
            if single::le(self.top_p, totals[i]) {
                return i + 1;
            }
            i += 1;
        }
        totals.len()
    }
}

/// Whether a penalty divides a score rather than multiplying it: both directions move a
/// penalised token down.
pub fn divides(score: u32) -> (r: bool)
    ensures
        r == single::below(single::ZERO, score),
{
    single::lt(single::ZERO, score)
}

/// The token with the best score; of equal ones the last, of none token 0.
pub fn best(scores: &Vec<u32>) -> (r: usize)
    ensures
        r == best_of(scores@, scores@.len()),
{
    if scores.len() == 0 {
        return 0;
    }
    let mut best: usize = 0;
    let mut i: usize = 1;
    while i < scores.len()
        invariant
            1 <= i <= scores.len(),
            best < i,
            best == best_of(scores@, i as nat),
        decreases scores.len() - i,
    {
        if !single::lt(scores[i], scores[best]) {
            best = i;
        }
        i += 1;
    }
    best
}

/// Every token in descending order of score.
fn ranking(scores: &Vec<u32>) -> (r: Vec<usize>)
    ensures
        r@ == ranking_of(scores@, scores@.len()),
{
    let mut out: Vec<usize> = Vec::new();
    let mut i: usize = 0;
    while i < scores.len()
        invariant
            i <= scores.len(),
            out@ == ranking_of(scores@, i as nat),
            out@.len() == i,
        decreases scores.len() - i,
    {
        let mut p: usize = out.len();
        proof {
            law_a_ranking_lists_every_token_once(scores@, i as nat);
        }
        while p > 0 && single::lt(scores[out[p - 1]], scores[i])
            invariant
                p <= out.len(),
                i < scores.len(),
                out@.len() == i,
                forall|j: int| 0 <= j < i ==> (#[trigger] out@[j]) < i,
                place(scores@, out@, i, p as nat) == place(scores@, out@, i, i as nat),
            decreases p,
        {
            p -= 1;
        }
        out.insert(p, i);
        i += 1;
    }
    out
}

/// The token a draw falls on, given what is left of it after each candidate.
pub fn pick(order: &Vec<usize>, left: &Vec<u32>) -> (r: usize)
    requires
        left@.len() <= order@.len(),
    ensures
        r == drawn(order@, left@),
{
    let mut i: usize = 0;
    while i < left.len()
        invariant
            i <= left.len(),
            left@.len() <= order@.len(),
            spent(left@, 0) == spent(left@, i as nat),
        decreases left.len() - i,
    {
        if single::le(left[i], single::ZERO) {
            return order[i];
        }
        i += 1;
    }
    if order.len() > 0 {
        order[order.len() - 1]
    } else {
        0
    }
}

// -- laws ------------------------------------------------------------------------------------

/// A penalty falls on a token exactly where the history and the vocabulary hold it, and once.
pub proof fn law_a_known_token_is_listed_once(history: Seq<u32>, vocab: usize, k: nat)
    requires
        k <= history.len(),
    ensures
        known(history, vocab, k).no_duplicates(),
        forall|t: u32| #[trigger]
            known(history, vocab, k).contains(t as usize) <==> t < vocab && history.take(
                k as int,
            ).contains(t),
    decreases k,
{
    if k > 0 {
        law_a_known_token_is_listed_once(history, vocab, (k - 1) as nat);
        let before = known(history, vocab, (k - 1) as nat);
        let all = known(history, vocab, k);
        let token = history[k - 1];
        assert forall|t: u32| #[trigger] all.contains(t as usize) <==> t < vocab && history.take(
            k as int,
        ).contains(t) by {
            let (short, long) = (history.take(k - 1), history.take(k as int));
            assert(before.contains(t as usize) <==> t < vocab && short.contains(t));
            assert(before.contains(token as usize) <==> token < vocab && short.contains(token));
            assert(long[k - 1] == token);
            if short.contains(t) {
                let j = choose|j: int| 0 <= j < short.len() && short[j] == t;
                assert(long[j] == t);
            }
            if long.contains(t) && t != token {
                let j = choose|j: int| 0 <= j < long.len() && long[j] == t;
                assert(short[j] == t);
            }
            if before.contains(t as usize) {
                let j = choose|j: int| 0 <= j < before.len() && before[j] == t as usize;
                assert(all[j] == t as usize);
            }
            if all.contains(t as usize) && t != token {
                let j = choose|j: int| 0 <= j < all.len() && all[j] == t as usize;
                assert(before[j] == t as usize);
            }
            if all.len() > before.len() {
                assert(all[before.len() as int] == token as usize);
            }
        }
    }
}

/// A penalty of at least one never favours a token of the context.
pub proof fn law_a_penalty_never_favours(score: real, penalty: real)
    requires
        penalty >= 1real,
    ensures
        lowered(score, penalty) <= score,
        score > 0real && penalty > 1real ==> lowered(score, penalty) < score,
{
    if score > 0real {
        let r = score / penalty;
        assert(r * penalty == score) by (nonlinear_arith)
            requires
                r == score / penalty,
                penalty >= 1real,
        ;
        assert(r > 0real && r <= score && (penalty > 1real ==> r < score)) by (nonlinear_arith)
            requires
                r * penalty == score,
                score > 0real,
                penalty >= 1real,
        ;
    } else {
        assert(score * penalty <= score) by (nonlinear_arith)
            requires
                score <= 0real,
                penalty >= 1real,
        ;
    }
}

/// No score is missing.
pub open spec fn all_numbers(scores: Seq<u32>) -> bool {
    forall|i: int| 0 <= i < scores.len() ==> !single::is_nan(#[trigger] scores[i])
}

/// The greedy choice has the greatest score, and is the last token that has it.
pub proof fn law_the_best_is_greatest(scores: Seq<u32>, k: nat)
    requires
        0 < k <= scores.len(),
        scores.len() <= usize::MAX,
        all_numbers(scores),
    ensures
        best_of(scores, k) < k,
        forall|i: int|
            0 <= i < k ==> single::at_most(#[trigger] scores[i], scores[best_of(scores, k) as int]),
        forall|i: int|
            best_of(scores, k) < i < k ==> single::below(
                #[trigger] scores[i],
                scores[best_of(scores, k) as int],
            ),
    decreases k,
{
    if k > 1 {
        law_the_best_is_greatest(scores, (k - 1) as nat);
    }
}

/// The greedy choice stays when only other scores fall: a penalty never makes a token of the
/// context the choice, and leaves a choice that is not in the context alone.
pub proof fn law_the_greedy_choice_outside_the_context_stays(
    scores: Seq<u32>,
    lowered: Seq<u32>,
    history: Seq<u32>,
    vocab: usize,
)
    requires
        0 < scores.len() <= usize::MAX,
        lowered.len() == scores.len(),
        all_numbers(scores),
        all_numbers(lowered),
        // What a penalty does: the scores of listed tokens fall, the others stay.
        forall|i: int|
            0 <= i < scores.len() ==> single::at_most(#[trigger] lowered[i], scores[i]) && (!known(
                history,
                vocab,
                history.len(),
            ).contains(i as usize) ==> lowered[i] == scores[i]),
        !known(history, vocab, history.len()).contains(best_of(scores, scores.len())),
    ensures
        best_of(lowered, lowered.len()) == best_of(scores, scores.len()),
{
    let n = scores.len();
    law_the_best_is_greatest(scores, n);
    law_the_best_is_greatest(lowered, n);
    let (b, c) = (best_of(scores, n) as int, best_of(lowered, n) as int);
    assert(lowered[b] == scores[b]);
    assert(single::at_most(lowered[b], lowered[c]));
    assert(single::at_most(lowered[c], scores[c]));
    assert(single::at_most(scores[c], scores[b]));
    if c > b {
        assert(single::below(scores[c], scores[b]));
    } else if c < b {
        assert(single::below(lowered[b], lowered[c]));
    }
}

proof fn lemma_place(scores: Seq<u32>, ranking: Seq<usize>, token: usize, p: nat)
    requires
        p <= ranking.len(),
    ensures
        place(scores, ranking, token, p) <= p,
        forall|j: int|
            place(scores, ranking, token, p) <= j < p ==> single::below(
                scores[#[trigger] ranking[j] as int],
                scores[token as int],
            ),
        place(scores, ranking, token, p) > 0 ==> !single::below(
            scores[ranking[place(scores, ranking, token, p) - 1] as int],
            scores[token as int],
        ),
    decreases p,
{
    if p > 0 && single::below(scores[ranking[p - 1] as int], scores[token as int]) {
        lemma_place(scores, ranking, token, (p - 1) as nat);
    }
}

/// A ranking lists each token exactly once.
pub proof fn law_a_ranking_lists_every_token_once(scores: Seq<u32>, k: nat)
    requires
        k <= usize::MAX,
    ensures
        ranking_of(scores, k).len() == k,
        forall|j: int| 0 <= j < k ==> (#[trigger] ranking_of(scores, k)[j]) < k,
        ranking_of(scores, k).no_duplicates(),
    decreases k,
{
    if k > 0 {
        law_a_ranking_lists_every_token_once(scores, (k - 1) as nat);
        let before = ranking_of(scores, (k - 1) as nat);
        let token = (k - 1) as usize;
        lemma_place(scores, before, token, before.len());
        let p = place(scores, before, token, before.len()) as int;
        let all = ranking_of(scores, k);
        assert forall|j: int| 0 <= j < k implies (#[trigger] all[j]) < k by {
            if j < p {
                assert(all[j] == before[j]);
            } else if j > p {
                assert(all[j] == before[j - 1]);
            }
        }
        assert forall|i: int, j: int| 0 <= i < k && 0 <= j < k && i != j implies all[i]
            != all[j] by {
            let a = if i < p {
                i
            } else {
                i - 1
            };
            let b = if j < p {
                j
            } else {
                j - 1
            };
            if i != p {
                assert(all[i] == before[a]);
            }
            if j != p {
                assert(all[j] == before[b]);
            }
        }
    }
}

/// Whether one token stands before another in a ranking: by score, then by number.
pub open spec fn ahead(scores: Seq<u32>, a: usize, b: usize) -> bool {
    single::below(scores[b as int], scores[a as int]) || (single::equals(
        scores[a as int],
        scores[b as int],
    ) && a < b)
}

/// A ranking of numbers descends, and tokens of equal score keep their order.
pub proof fn law_a_ranking_descends(scores: Seq<u32>, k: nat)
    requires
        k <= scores.len(),
        scores.len() <= usize::MAX,
        all_numbers(scores),
    ensures
        forall|i: int, j: int|
            0 <= i < j < k ==> ahead(
                scores,
                #[trigger] ranking_of(scores, k)[i],
                #[trigger] ranking_of(scores, k)[j],
            ),
    decreases k,
{
    law_a_ranking_lists_every_token_once(scores, k);
    if k > 0 {
        law_a_ranking_descends(scores, (k - 1) as nat);
        law_a_ranking_lists_every_token_once(scores, (k - 1) as nat);
        let before = ranking_of(scores, (k - 1) as nat);
        let token = (k - 1) as usize;
        lemma_place(scores, before, token, before.len());
        let p = place(scores, before, token, before.len()) as int;
        let all = ranking_of(scores, k);
        assert forall|i: int, j: int| 0 <= i < j < k implies ahead(
            scores,
            #[trigger] all[i],
            #[trigger] all[j],
        ) by {
            if j < p {
                assert(all[i] == before[i] && all[j] == before[j]);
            } else if j == p {
                assert(all[i] == before[i] && all[j] == token);
                let edge = before[p - 1];
                assert(!single::is_nan(scores[edge as int]));
                assert(!single::is_nan(scores[token as int]));
                assert(!single::is_nan(scores[before[i] as int]));
                if i < p - 1 {
                    assert(ahead(scores, before[i], edge));
                }
            } else if i == p {
                assert(all[i] == token && all[j] == before[j - 1]);
            } else if i < p {
                assert(all[i] == before[i] && all[j] == before[j - 1]);
            } else {
                assert(all[i] == before[i - 1] && all[j] == before[j - 1]);
            }
        }
    }
}

proof fn lemma_reaching(totals: Seq<u32>, mass: u32, i: nat)
    requires
        i <= totals.len(),
    ensures
        i <= reaching(totals, mass, i) <= totals.len(),
        i < totals.len() ==> reaching(totals, mass, i) > i,
        forall|j: int|
            i <= j < reaching(totals, mass, i) - 1 ==> !single::at_most(
                mass,
                #[trigger] totals[j],
            ),
    decreases totals.len() - i,
{
    if i < totals.len() && !single::at_most(mass, totals[i as int]) {
        lemma_reaching(totals, mass, i + 1);
    }
}

/// The nucleus is the smallest prefix whose mass reaches the one asked for, and keeps at
/// least one candidate where there is any.
pub proof fn law_the_nucleus_is_smallest(totals: Seq<u32>, mass: u32)
    ensures
        reaching(totals, mass, 0) <= totals.len(),
        totals.len() > 0 ==> reaching(totals, mass, 0) > 0,
        forall|j: int|
            0 <= j < reaching(totals, mass, 0) - 1 ==> !single::at_most(
                mass,
                #[trigger] totals[j],
            ),
{
    lemma_reaching(totals, mass, 0);
}

proof fn lemma_spent(left: Seq<u32>, i: nat)
    ensures
        spent(left, i) matches Some(j) ==> i <= j < left.len(),
    decreases left.len() - i,
{
    if i < left.len() && !single::at_most(left[i as int], single::ZERO) {
        lemma_spent(left, i + 1);
    }
}

/// A draw falls on a candidate wherever there is one.
pub proof fn law_a_draw_falls_on_a_candidate(order: Seq<usize>, left: Seq<u32>)
    requires
        left.len() <= order.len(),
        order.len() > 0,
    ensures
        order.contains(drawn(order, left)),
{
    lemma_spent(left, 0);
    match spent(left, 0) {
        Some(i) => {
            assert(order[i as int] == drawn(order, left));
        },
        None => {
            assert(order[order.len() - 1] == drawn(order, left));
        },
    }
}

} // verus!
