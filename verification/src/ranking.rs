//! Choosing among scored intents: the rule-based fallback, the best intent
//! (as `Iterator::max_by` picks it) and the ranked alternatives (a stable
//! sort by descending confidence, cut to three).
use vstd::prelude::*;
use crate::scores::{
    compare, compare_scores, in_unit_interval, is_below, is_unit_interval, order_key, score_below,
    score_key, ScoreOrder,
};
use crate::types::IntentId;

verus! {

/// How many alternatives a prediction keeps.
pub const MAX_ALTERNATIVES: usize = 3;

/// Every score lies below the threshold (vacuously true when there is none).
pub open spec fn all_below(s: Seq<(IntentId, u64)>, threshold: u64) -> bool {
    forall|i: int| 0 <= i < s.len() ==> score_below(#[trigger] s[i].1, threshold)
}

/// Some entry names this intent.
pub open spec fn has_intent(s: Seq<(IntentId, u64)>, name: Seq<char>) -> bool {
    exists|i: int| 0 <= i < s.len() && (#[trigger] s[i]).0@ == name
}

/// The index `Iterator::max_by` returns under `compare_scores`: the running
/// maximum is replaced unless it compares `Greater` than the next entry, so
/// among equal scores the last one wins.
pub open spec fn best_index(s: Seq<(IntentId, u64)>) -> int
    decreases s.len(),
{
    if s.len() <= 1 {
        0
    } else {
        let m = best_index(s.drop_last());
        if compare_scores(s[m].1, s.last().1) == ScoreOrder::Greater {
            m
        } else {
            s.len() - 1
        }
    }
}

/// The entries that may be offered as alternatives to `best`: other intents
/// whose score is a valid confidence, in their original order.
pub open spec fn alternative_candidates(s: Seq<(IntentId, u64)>, best: Seq<char>) -> Seq<(IntentId, u64)>
    decreases s.len(),
{
    if s.len() == 0 {
        s
    } else {
        let r = alternative_candidates(s.drop_last(), best);
        let e = s.last();
        if e.0@ != best && in_unit_interval(e.1) {
            r.push(e)
        } else {
            r
        }
    }
}

/// The first index holding a highest score.
pub open spec fn first_max_index(s: Seq<(IntentId, u64)>) -> int
    decreases s.len(),
{
    if s.len() <= 1 {
        0
    } else {
        let m = first_max_index(s.drop_last());
        if order_key(s.last().1) > order_key(s[m].1) {
            s.len() - 1
        } else {
            m
        }
    }
}

/// The first `k` entries of a stable sort by descending score: repeatedly
/// take the first entry with the highest score.
pub open spec fn top_scores(s: Seq<(IntentId, u64)>, k: nat) -> Seq<(IntentId, u64)>
    decreases k,
{
    if k == 0 || s.len() == 0 {
        Seq::empty()
    } else {
        let m = first_max_index(s);
        seq![s[m]] + top_scores(s.remove(m), (k - 1) as nat)
    }
}

/// The ranked alternatives to `best`.
pub open spec fn ranked_alternatives(s: Seq<(IntentId, u64)>, best: Seq<char>) -> Seq<(IntentId, u64)> {
    top_scores(alternative_candidates(s, best), MAX_ALTERNATIVES as nat)
}

proof fn lemma_best_index_bounds(s: Seq<(IntentId, u64)>)
    requires
        s.len() > 0,
    ensures
        0 <= best_index(s) < s.len(),
    decreases s.len(),
{
    if s.len() > 1 {
        lemma_best_index_bounds(s.drop_last());
    }
}

pub proof fn lemma_first_max_index(s: Seq<(IntentId, u64)>)
    requires
        s.len() > 0,
    ensures
        0 <= first_max_index(s) < s.len(),
        forall|j: int| 0 <= j < s.len() ==> order_key(#[trigger] s[j].1) <= order_key(s[first_max_index(s)].1),
        forall|j: int| 0 <= j < first_max_index(s) ==> order_key(#[trigger] s[j].1) < order_key(s[first_max_index(s)].1),
    decreases s.len(),
{
    if s.len() > 1 {
        let t = s.drop_last();
        lemma_first_max_index(t);
        let f = first_max_index(s);
        assert forall|j: int| 0 <= j < s.len() implies order_key(#[trigger] s[j].1) <= order_key(s[f].1) by {
            if j < s.len() - 1 {
                assert(s[j] == t[j]);
            }
        }
        assert forall|j: int| 0 <= j < f implies order_key(#[trigger] s[j].1) < order_key(s[f].1) by {
            if j < s.len() - 1 {
                assert(s[j] == t[j]);
            }
        }
    }
}

/// Where `Iterator::max_by` ends up on the scores (see `best_index`).
pub fn best_score_index(scores: &Vec<(IntentId, u64)>) -> (r: usize)
    requires
        scores@.len() > 0,
    ensures
        r == best_index(scores@),
        r < scores@.len(),
{
    let mut m: usize = 0;
    let mut i: usize = 1;
    while i < scores.len()
        invariant
            1 <= i <= scores@.len(),
            m == best_index(scores@.take(i as int)),
            m < i,
        decreases scores.len() - i,
    {
        proof {
            assert(scores@.take(i + 1).drop_last() =~= scores@.take(i as int));
            assert(scores@.take(i + 1)[m as int] == scores@[m as int]);
        }
        if compare(scores[m].1, scores[i].1) != ScoreOrder::Greater {
            m = i;
        }
        i = i + 1;
    }
    proof {
        assert(scores@.take(i as int) =~= scores@);
        lemma_best_index_bounds(scores@);
    }
    m
}

/// The entries that may be alternatives to `best`, in order.
pub fn candidates_for(scores: &Vec<(IntentId, u64)>, best: &IntentId) -> (r: Vec<(IntentId, u64)>)
    ensures
        r@ == alternative_candidates(scores@, best@),
{
    let mut out: Vec<(IntentId, u64)> = Vec::new();
    let mut i: usize = 0;
    while i < scores.len()
        invariant
            i <= scores@.len(),
            out@ == alternative_candidates(scores@.take(i as int), best@),
        decreases scores.len() - i,
    {
        proof {
            assert(scores@.take(i + 1).drop_last() =~= scores@.take(i as int));
        }
        if !scores[i].0.same_as(best) && is_unit_interval(scores[i].1) {
            out.push((scores[i].0.clone(), scores[i].1));
        }
        i = i + 1;
    }
    proof {
        assert(scores@.take(i as int) =~= scores@);
    }
    out
}

/// The first index holding a highest score (see `first_max_index`).
fn first_highest(v: &Vec<(IntentId, u64)>) -> (r: usize)
    requires
        v@.len() > 0,
    ensures
        r == first_max_index(v@),
{
    let mut m: usize = 0;
    let mut i: usize = 1;
    while i < v.len()
        invariant
            1 <= i <= v@.len(),
            m == first_max_index(v@.take(i as int)),
            m < i,
        decreases v.len() - i,
    {
        proof {
            assert(v@.take(i + 1).drop_last() =~= v@.take(i as int));
            assert(v@.take(i + 1)[m as int] == v@[m as int]);
        }
        if score_key(v[i].1) > score_key(v[m].1) {
            m = i;
        }
        i = i + 1;
    }
    proof {
        assert(v@.take(i as int) =~= v@);
    }
    m
}

/// The first `MAX_ALTERNATIVES` entries of a stable descending sort.
pub fn top_three(candidates: Vec<(IntentId, u64)>) -> (r: Vec<(IntentId, u64)>)
    ensures
        r@ == top_scores(candidates@, MAX_ALTERNATIVES as nat),
{
    let ghost c0 = candidates@;
    let mut rest = candidates;
    let mut out: Vec<(IntentId, u64)> = Vec::new();
    while out.len() < MAX_ALTERNATIVES && rest.len() > 0
        invariant
            out@.len() <= MAX_ALTERNATIVES,
            out@ + top_scores(rest@, (MAX_ALTERNATIVES - out@.len()) as nat) == top_scores(
                c0,
                MAX_ALTERNATIVES as nat,
            ),
        decreases rest@.len(),
    {
        let ghost k = (MAX_ALTERNATIVES - out@.len()) as nat;
        let ghost before = rest@;
        let m = first_highest(&rest);
        proof {
            lemma_first_max_index(rest@);
        }
        let e = rest.remove(m);
        proof {
            assert(top_scores(before, k) == seq![before[m as int]] + top_scores(rest@, (k - 1) as nat));
            assert(out@.push(e) + top_scores(rest@, (k - 1) as nat) =~= out@ + top_scores(before, k));
        }
        out.push(e);
    }
    assert(top_scores(rest@, (MAX_ALTERNATIVES - out@.len()) as nat) =~= Seq::<(IntentId, u64)>::empty());
    assert(out@ + Seq::<(IntentId, u64)>::empty() =~= out@);
    out
}

/// Whether every score lies below the threshold.
pub fn scores_all_below(scores: &Vec<(IntentId, u64)>, threshold: u64) -> (r: bool)
    ensures
        r == all_below(scores@, threshold),
{
    let mut i: usize = 0;
    while i < scores.len()
        invariant
            i <= scores@.len(),
            forall|j: int| 0 <= j < i ==> score_below(#[trigger] scores@[j].1, threshold),
        decreases scores.len() - i,
    {
        if !is_below(scores[i].1, threshold) {
            return false;
        }
        i = i + 1;
    }
    true
}

/// Whether some entry names the intent.
pub fn scores_have_intent(scores: &Vec<(IntentId, u64)>, name: &IntentId) -> (r: bool)
    ensures
        r == has_intent(scores@, name@),
{
    let mut i: usize = 0;
    while i < scores.len()
        invariant
            i <= scores@.len(),
            forall|j: int| 0 <= j < i ==> (#[trigger] scores@[j]).0@ != name@,
        decreases scores.len() - i,
    {
        if scores[i].0.same_as(name) {
            return true;
        }
        i = i + 1;
    }
    false
}

} // verus!
