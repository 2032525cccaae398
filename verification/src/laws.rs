//! Properties of the classifier that hold of every input: the vocabulary
//! stays within its limit and numbers its words densely, the patterns group
//! the training texts by intent, the best intent has the highest score, the
//! alternatives are ranked, tokenizing a normalized query gives back its
//! words, and normalizing a normalized query changes nothing.
use vstd::prelude::*;
use crate::classifier::{
    add_word, add_words, extends_with_bootstrap, feature_indices, feedback_count, is_completion,
    patterns_of, texts_of, vocabulary_of, IntentClassifier,
};
use crate::ranking::{
    alternative_candidates, best_index, first_max_index, lemma_first_max_index, ranked_alternatives,
    top_scores, MAX_ALTERNATIVES,
};
use crate::scores::{in_unit_interval, is_nan_bits, order_key, score_below, HALF_BITS, SIGN_BIT};
use crate::text::{
    is_kept, is_normal_form, is_white_space, unicode_alphanumeric, is_word, join_words, kept_chars, lemma_words_are_words, normalized_text,
    scan_words, unicode_lowercase, words,
};
use crate::types::{IntentId, TrainingExample, TrainingSource};

verus! {

/// A vocabulary numbers its words densely: finitely many words, each index
/// below the number of words, no index used twice.
pub open spec fn is_dense_vocabulary(v: Map<Seq<char>, usize>) -> bool {
    &&& v.dom().finite()
    &&& forall|w: Seq<char>| #[trigger] v.contains_key(w) ==> (v[w] as int) < v.dom().len()
    &&& forall|a: Seq<char>, b: Seq<char>|
        #[trigger] v.contains_key(a) && #[trigger] v.contains_key(b) && a != b ==> v[a] != v[b]
}

proof fn lemma_add_word_dense(m: Map<Seq<char>, usize>, w: Seq<char>, max: usize)
    requires
        is_dense_vocabulary(m),
        m.dom().len() <= max,
    ensures
        is_dense_vocabulary(add_word(m, w, max as nat)),
        add_word(m, w, max as nat).dom().len() <= max,
{
    if m.dom().len() < max && !m.contains_key(w) {
        let n = m.insert(w, m.dom().len() as usize);
        assert(n.dom() == m.dom().insert(w));
        assert(n.dom().len() == m.dom().len() + 1);
        assert forall|a: Seq<char>, b: Seq<char>|
            #[trigger] n.contains_key(a) && #[trigger] n.contains_key(b) && a != b implies n[a] != n[b] by {
            if a != w && b != w {
                assert(m.contains_key(a) && m.contains_key(b));
            } else if a == w {
                assert(m.contains_key(b));
            } else {
                assert(m.contains_key(a));
            }
        }
        assert forall|x: Seq<char>| #[trigger] n.contains_key(x) implies (n[x] as int) < n.dom().len() by {
            if x != w {
                assert(m.contains_key(x));
            }
        }
    }
}

proof fn lemma_add_words_dense(m: Map<Seq<char>, usize>, ws: Seq<Seq<char>>, max: usize)
    requires
        is_dense_vocabulary(m),
        m.dom().len() <= max,
    ensures
        is_dense_vocabulary(add_words(m, ws, max as nat)),
        add_words(m, ws, max as nat).dom().len() <= max,
    decreases ws.len(),
{
    if ws.len() > 0 {
        lemma_add_words_dense(m, ws.drop_last(), max);
        lemma_add_word_dense(add_words(m, ws.drop_last(), max as nat), ws.last(), max);
    }
}

/// The vocabulary learned from any texts holds at most `max` words and
/// numbers them densely from zero.
pub proof fn lemma_vocabulary_dense(texts: Seq<Seq<char>>, max: usize)
    ensures
        is_dense_vocabulary(vocabulary_of(texts, max as nat)),
        vocabulary_of(texts, max as nat).dom().len() <= max,
    decreases texts.len(),
{
    if texts.len() == 0 {
        assert(vocabulary_of(texts, max as nat).dom() =~= Set::empty());
    } else {
        lemma_vocabulary_dense(texts.drop_last(), max);
        lemma_add_words_dense(vocabulary_of(texts.drop_last(), max as nat), words(texts.last()), max);
    }
}

/// A classifier's vocabulary never exceeds `max_vocabulary_size` and numbers
/// its words densely, so every feature index is below the vocabulary size.
pub proof fn lemma_classifier_vocabulary_bounded(c: &IntentClassifier)
    requires
        c.wf(),
    ensures
        c.vocabulary().dom().len() <= c.configuration().max_vocabulary_size,
        is_dense_vocabulary(c.vocabulary()),
{
    lemma_vocabulary_dense(texts_of(c.examples()), c.configuration().max_vocabulary_size);
}

/// The texts of the examples with intent `k`, in order.
pub open spec fn texts_with_intent(ex: Seq<TrainingExample>, k: Seq<char>) -> Seq<Seq<char>>
    decreases ex.len(),
{
    if ex.len() == 0 {
        Seq::empty()
    } else {
        let r = texts_with_intent(ex.drop_last(), k);
        if ex.last().intent@ == k {
            r.push(ex.last().text@)
        } else {
            r
        }
    }
}

/// The patterns group the training texts by intent: an intent has patterns
/// exactly when some example has it, and its patterns are the texts of its
/// examples in order.
pub proof fn lemma_patterns_group_texts(ex: Seq<TrainingExample>)
    ensures
        forall|k: Seq<char>|
            #[trigger] patterns_of(ex).contains_key(k) <==> exists|i: int|
                0 <= i < ex.len() && (#[trigger] ex[i]).intent@ == k,
        forall|k: Seq<char>| #[trigger] patterns_of(ex).contains_key(k) ==> patterns_of(ex)[k] == texts_with_intent(ex, k),
    decreases ex.len(),
{
    if ex.len() > 0 {
        let t = ex.drop_last();
        lemma_patterns_group_texts(t);
        let e = ex.last();
        assert forall|k: Seq<char>|
            #[trigger] patterns_of(ex).contains_key(k) <==> exists|i: int|
                0 <= i < ex.len() && (#[trigger] ex[i]).intent@ == k by {
            if patterns_of(ex).contains_key(k) {
                if k == e.intent@ {
                    assert(ex[ex.len() - 1].intent@ == k);
                } else {
                    assert(patterns_of(t).contains_key(k));
                    let i = choose|i: int| 0 <= i < t.len() && (#[trigger] t[i]).intent@ == k;
                    assert(ex[i] == t[i]);
                }
            }
            if exists|i: int| 0 <= i < ex.len() && (#[trigger] ex[i]).intent@ == k {
                let i = choose|i: int| 0 <= i < ex.len() && (#[trigger] ex[i]).intent@ == k;
                if i < ex.len() - 1 {
                    assert(t[i] == ex[i]);
                    assert(patterns_of(t).contains_key(k));
                }
            }
        }
        assert forall|k: Seq<char>| #[trigger] patterns_of(ex).contains_key(k) implies patterns_of(ex)[k]
            == texts_with_intent(ex, k) by {
            if k == e.intent@ {
                if !patterns_of(t).contains_key(k) {
                    assert forall|i: int| 0 <= i < t.len() implies (#[trigger] t[i]).intent@ != k by {
                        if t[i].intent@ == k {
                            assert(patterns_of(t).contains_key(k));
                        }
                    }
                    lemma_no_texts_without_intent(t, k);
                    assert(patterns_of(ex)[k] == Seq::<Seq<char>>::empty().push(e.text@));
                } else {
                    assert(patterns_of(t)[k] == texts_with_intent(t, k));
                    assert(patterns_of(ex)[k] == patterns_of(t)[k].push(e.text@));
                }
                assert(texts_with_intent(ex, k) == texts_with_intent(t, k).push(e.text@));
            } else {
                assert(patterns_of(t).contains_key(k));
                assert(patterns_of(t)[k] == texts_with_intent(t, k));
                assert(patterns_of(ex)[k] == patterns_of(t)[k]);
                assert(texts_with_intent(ex, k) == texts_with_intent(t, k));
            }
        }
    }
}

proof fn lemma_no_texts_without_intent(ex: Seq<TrainingExample>, k: Seq<char>)
    requires
        forall|i: int| 0 <= i < ex.len() ==> (#[trigger] ex[i]).intent@ != k,
    ensures
        texts_with_intent(ex, k) == Seq::<Seq<char>>::empty(),
    decreases ex.len(),
{
    if ex.len() > 0 {
        let t = ex.drop_last();
        assert forall|i: int| 0 <= i < t.len() implies (#[trigger] t[i]).intent@ != k by {
            assert(t[i] == ex[i]);
        }
        lemma_no_texts_without_intent(t, k);
    }
}

/// Learning an example of an already known intent leaves the set of intents
/// as it was; one of a new intent adds exactly that intent.
pub proof fn lemma_intent_count_after_example(ex: Seq<TrainingExample>, e: TrainingExample)
    ensures
        patterns_of(ex).contains_key(e.intent@) ==> patterns_of(ex.push(e)).dom() == patterns_of(ex).dom(),
        !patterns_of(ex).contains_key(e.intent@) ==> patterns_of(ex.push(e)).dom() == patterns_of(ex).dom().insert(e.intent@),
{
    assert(ex.push(e).drop_last() =~= ex);
    assert(patterns_of(ex.push(e)).dom() =~= patterns_of(ex).dom().insert(e.intent@));
    if patterns_of(ex).contains_key(e.intent@) {
        assert(patterns_of(ex).dom().insert(e.intent@) =~= patterns_of(ex).dom());
    }
}

/// Each example from user feedback adds one to the feedback count; others
/// leave it as it was.
pub proof fn lemma_feedback_count_after_example(ex: Seq<TrainingExample>, e: TrainingExample)
    ensures
        feedback_count(ex.push(e)) == feedback_count(ex) + if e.source == TrainingSource::UserFeedback {
            1nat
        } else {
            0nat
        },
{
    assert(ex.push(e).drop_last() =~= ex);
}

/// The best intent has the highest score, and every later entry scores
/// strictly lower: among equal highest scores the last one is chosen.
pub proof fn lemma_best_is_last_maximum(s: Seq<(IntentId, u64)>)
    requires
        s.len() > 0,
        forall|i: int| 0 <= i < s.len() ==> !is_nan_bits(#[trigger] s[i].1),
    ensures
        0 <= best_index(s) < s.len(),
        forall|i: int| 0 <= i < s.len() ==> order_key(#[trigger] s[i].1) <= order_key(s[best_index(s)].1),
        forall|i: int| best_index(s) < i < s.len() ==> order_key(#[trigger] s[i].1) < order_key(s[best_index(s)].1),
    decreases s.len(),
{
    if s.len() > 1 {
        let t = s.drop_last();
        assert forall|i: int| 0 <= i < t.len() implies !is_nan_bits(#[trigger] t[i].1) by {
            assert(t[i] == s[i]);
        }
        lemma_best_is_last_maximum(t);
        let b = best_index(s);
        assert forall|i: int| 0 <= i < s.len() implies order_key(#[trigger] s[i].1) <= order_key(s[b].1) by {
            if i < s.len() - 1 {
                assert(t[i] == s[i]);
            }
        }
        assert forall|i: int| b < i < s.len() implies order_key(#[trigger] s[i].1) < order_key(s[b].1) by {
            if i < s.len() - 1 {
                assert(t[i] == s[i]);
            }
        }
    }
}

proof fn lemma_candidates_shape(s: Seq<(IntentId, u64)>, best: Seq<char>)
    ensures
        forall|i: int|
            0 <= i < alternative_candidates(s, best).len() ==> {
                let e = #[trigger] alternative_candidates(s, best)[i];
                &&& e.0@ != best
                &&& in_unit_interval(e.1)
                &&& s.contains(e)
            },
    decreases s.len(),
{
    if s.len() > 0 {
        let t = s.drop_last();
        lemma_candidates_shape(t, best);
        let c = alternative_candidates(s, best);
        assert forall|i: int| 0 <= i < c.len() implies {
            let e = #[trigger] c[i];
            &&& e.0@ != best
            &&& in_unit_interval(e.1)
            &&& s.contains(e)
        } by {
            let ct = alternative_candidates(t, best);
            if i < ct.len() {
                assert(c[i] == ct[i]);
                let j = choose|j: int| 0 <= j < t.len() && t[j] == ct[i];
                assert(s[j] == t[j]);
            } else {
                assert(s[s.len() - 1] == c[i]);
            }
        }
    }
}

proof fn lemma_top_scores_shape(s: Seq<(IntentId, u64)>, k: nat)
    ensures
        top_scores(s, k).len() <= k,
        forall|i: int| 0 <= i < top_scores(s, k).len() ==> s.contains(#[trigger] top_scores(s, k)[i]),
        forall|i: int, j: int|
            0 <= i < j < top_scores(s, k).len() ==> order_key(#[trigger] top_scores(s, k)[i].1) >= order_key(
                #[trigger] top_scores(s, k)[j].1,
            ),
    decreases k,
{
    if k > 0 && s.len() > 0 {
        let m = first_max_index(s);
        lemma_first_max_index(s);
        let rest = s.remove(m);
        lemma_top_scores_shape(rest, (k - 1) as nat);
        let tail = top_scores(rest, (k - 1) as nat);
        let r = top_scores(s, k);
        assert(r == seq![s[m]] + tail);
        assert forall|i: int| 0 <= i < tail.len() implies s.contains(#[trigger] tail[i]) by {
            let j = choose|j: int| 0 <= j < rest.len() && rest[j] == tail[i];
            if j < m {
                assert(rest[j] == s[j]);
            } else {
                assert(rest[j] == s[j + 1]);
            }
        }
        assert forall|i: int| 0 <= i < r.len() implies s.contains(#[trigger] r[i]) by {
            if i > 0 {
                assert(r[i] == tail[i - 1]);
            }
        }
        assert forall|i: int, j: int| 0 <= i < j < r.len() implies order_key(#[trigger] r[i].1) >= order_key(
            #[trigger] r[j].1,
        ) by {
            assert(r[j] == tail[j - 1]);
            assert(s.contains(tail[j - 1]));
            if i > 0 {
                assert(r[i] == tail[i - 1]);
            }
        }
    }
}

/// The alternatives are at most three, never the best intent, each a valid
/// confidence taken from the scores, and ranked from highest to lowest.
pub proof fn lemma_alternatives_ranked(s: Seq<(IntentId, u64)>, best: Seq<char>)
    ensures
        ranked_alternatives(s, best).len() <= MAX_ALTERNATIVES,
        forall|i: int|
            0 <= i < ranked_alternatives(s, best).len() ==> {
                let e = #[trigger] ranked_alternatives(s, best)[i];
                &&& e.0@ != best
                &&& in_unit_interval(e.1)
                &&& s.contains(e)
            },
        forall|i: int, j: int|
            0 <= i < j < ranked_alternatives(s, best).len() ==> order_key(
                #[trigger] ranked_alternatives(s, best)[i].1,
            ) >= order_key(#[trigger] ranked_alternatives(s, best)[j].1),
{
    let c = alternative_candidates(s, best);
    lemma_candidates_shape(s, best);
    lemma_top_scores_shape(c, MAX_ALTERNATIVES as nat);
    let r = ranked_alternatives(s, best);
    assert forall|i: int| 0 <= i < r.len() implies {
        let e = #[trigger] r[i];
        &&& e.0@ != best
        &&& in_unit_interval(e.1)
        &&& s.contains(e)
    } by {
        assert(c.contains(r[i]));
        let j = choose|j: int| 0 <= j < c.len() && c[j] == r[i];
        assert(c[j] == r[i]);
    }
}

/// Every feature index is below `dims` and is the index of one of the words.
pub proof fn lemma_feature_indices_in_range(ws: Seq<Seq<char>>, vocab: Map<Seq<char>, usize>, dims: nat)
    ensures
        forall|i: int| 0 <= i < feature_indices(ws, vocab, dims).len() ==> (#[trigger] feature_indices(ws, vocab, dims)[i] as int) < dims,
        feature_indices(ws, vocab, dims).len() <= ws.len(),
    decreases ws.len(),
{
    if ws.len() > 0 {
        lemma_feature_indices_in_range(ws.drop_last(), vocab, dims);
        let r = feature_indices(ws.drop_last(), vocab, dims);
        assert forall|i: int| 0 <= i < feature_indices(ws, vocab, dims).len() implies (#[trigger] feature_indices(ws, vocab, dims)[i] as int) < dims by {
            if i < r.len() {
                assert(feature_indices(ws, vocab, dims)[i] == r[i]);
            }
        }
    }
}

proof fn lemma_scan_append_run(s: Seq<char>, w: Seq<char>)
    requires
        scan_words(s).1.len() == 0,
        forall|i: int| 0 <= i < w.len() ==> !is_white_space(#[trigger] w[i]),
    ensures
        scan_words(s + w) == (scan_words(s).0, w),
    decreases w.len(),
{
    if w.len() == 0 {
        assert(s + w =~= s);
    } else {
        let v = w.drop_last();
        assert forall|i: int| 0 <= i < v.len() implies !is_white_space(#[trigger] v[i]) by {
            assert(v[i] == w[i]);
        }
        lemma_scan_append_run(s, v);
        assert((s + w).drop_last() =~= s + v);
        assert((s + w).last() == w.last());
        assert(v.push(w.last()) =~= w);
    }
}

proof fn lemma_scan_joined(ws: Seq<Seq<char>>)
    requires
        ws.len() > 0,
        forall|k: int| 0 <= k < ws.len() ==> is_word(#[trigger] ws[k]),
    ensures
        scan_words(join_words(ws)) == (ws.drop_last(), ws.last()),
    decreases ws.len(),
{
    let w = ws.last();
    let t = ws.drop_last();
    assert(is_word(ws[ws.len() - 1]));
    assert(scan_words(Seq::<char>::empty()).1.len() == 0);
    if ws.len() == 1 {
        lemma_scan_append_run(Seq::empty(), w);
        assert(Seq::<char>::empty() + w =~= w);
        assert(t =~= Seq::<Seq<char>>::empty());
    } else {
        assert forall|k: int| 0 <= k < t.len() implies is_word(#[trigger] t[k]) by {
            assert(t[k] == ws[k]);
        }
        lemma_scan_joined(t);
        let j = join_words(t);
        assert(is_word(t[t.len() - 1]));
        let js = j + seq![' '];
        assert(js.drop_last() =~= j);
        assert(is_white_space(js.last()));
        assert(t.drop_last().push(t.last()) =~= t);
        assert(scan_words(js) == (t, Seq::<char>::empty()));
        lemma_scan_append_run(js, w);
        assert(join_words(ws) == js + w);
    }
}

/// Tokenizing words joined with single spaces gives back those words.
pub proof fn lemma_words_of_joined(ws: Seq<Seq<char>>)
    requires
        forall|k: int| 0 <= k < ws.len() ==> is_word(#[trigger] ws[k]),
    ensures
        words(join_words(ws)) == ws,
{
    if ws.len() > 0 {
        lemma_scan_joined(ws);
        assert(is_word(ws[ws.len() - 1]));
        assert(ws.drop_last().push(ws.last()) =~= ws);
    } else {
        assert(words(join_words(ws)) =~= ws);
    }
}

/// Tokenizing a normalized query gives back the words of its lowercased,
/// filtered text: normalization only rejoins them with single spaces.
pub proof fn lemma_normalized_words(s: Seq<char>)
    ensures
        words(normalized_text(s)) == words(kept_chars(unicode_lowercase(s))),
{
    lemma_words_are_words(kept_chars(unicode_lowercase(s)));
    lemma_words_of_joined(words(kept_chars(unicode_lowercase(s))));
}

/// Two example sequences teach the same: same length, and at each position
/// the same text, intent and source.
pub open spec fn same_teaching(a: Seq<TrainingExample>, b: Seq<TrainingExample>) -> bool {
    &&& a.len() == b.len()
    &&& forall|i: int|
        0 <= i < a.len() ==> (#[trigger] a[i]).text@ == b[i].text@ && a[i].intent@ == b[i].intent@
            && a[i].source == b[i].source
}

proof fn lemma_same_teaching_same_learning(a: Seq<TrainingExample>, b: Seq<TrainingExample>)
    requires
        same_teaching(a, b),
    ensures
        texts_of(a) == texts_of(b),
        patterns_of(a) == patterns_of(b),
        feedback_count(a) == feedback_count(b),
    decreases a.len(),
{
    assert(texts_of(a) =~= texts_of(b));
    if a.len() > 0 {
        let (ta, tb) = (a.drop_last(), b.drop_last());
        assert forall|i: int| 0 <= i < ta.len() implies (#[trigger] ta[i]).text@ == tb[i].text@
            && ta[i].intent@ == tb[i].intent@ && ta[i].source == tb[i].source by {
            assert(ta[i] == a[i] && tb[i] == b[i]);
        }
        lemma_same_teaching_same_learning(ta, tb);
        assert(a[a.len() - 1].text@ == b[b.len() - 1].text@);
    }
}

/// What a classifier has learned depends only on its configuration and on
/// the texts, intents and sources of its examples: two classifiers taught
/// the same have the same vocabulary, patterns and feedback count.
pub proof fn lemma_learning_depends_on_teaching(a: &IntentClassifier, b: &IntentClassifier)
    requires
        a.wf(),
        b.wf(),
        a.configuration().max_vocabulary_size == b.configuration().max_vocabulary_size,
        same_teaching(a.examples(), b.examples()),
    ensures
        a.vocabulary() == b.vocabulary(),
        a.patterns() == b.patterns(),
        feedback_count(a.examples()) == feedback_count(b.examples()),
{
    lemma_same_teaching_same_learning(a.examples(), b.examples());
}

/// Clearing the training data leaves a classifier in the state of a new one
/// with the same configuration: both hold exactly the bootstrap examples,
/// hence the same vocabulary and patterns and no feedback.
pub proof fn lemma_cleared_is_fresh(cleared: &IntentClassifier, fresh: &IntentClassifier)
    requires
        cleared.wf(),
        fresh.wf(),
        cleared.configuration().max_vocabulary_size == fresh.configuration().max_vocabulary_size,
        extends_with_bootstrap(Seq::empty(), cleared.examples()),
        extends_with_bootstrap(Seq::empty(), fresh.examples()),
    ensures
        cleared.vocabulary() == fresh.vocabulary(),
        cleared.patterns() == fresh.patterns(),
        cleared.examples().len() == fresh.examples().len(),
        feedback_count(cleared.examples()) == 0,
{
    let (a, b) = (cleared.examples(), fresh.examples());
    assert forall|i: int| 0 <= i < a.len() implies (#[trigger] a[i]).text@ == b[i].text@ && a[i].intent@
        == b[i].intent@ && a[i].source == b[i].source by {
        assert(a[0 + i] == a[i] && b[0 + i] == b[i]);
    }
    lemma_learning_depends_on_teaching(cleared, fresh);
    assert forall|i: int| 0 <= i < a.len() implies (#[trigger] a[i]).source == TrainingSource::Bootstrap by {
        assert(a[0 + i] == a[i]);
    }
    lemma_no_feedback_in_bootstrap(a);
}

proof fn lemma_no_feedback_in_bootstrap(ex: Seq<TrainingExample>)
    requires
        forall|i: int| 0 <= i < ex.len() ==> (#[trigger] ex[i]).source == TrainingSource::Bootstrap,
    ensures
        feedback_count(ex) == 0,
    decreases ex.len(),
{
    if ex.len() > 0 {
        let t = ex.drop_last();
        assert forall|i: int| 0 <= i < t.len() implies (#[trigger] t[i]).source == TrainingSource::Bootstrap by {
            assert(t[i] == ex[i]);
        }
        lemma_no_feedback_in_bootstrap(t);
        assert(ex[ex.len() - 1].source == TrainingSource::Bootstrap);
    }
}

/// The smaller of two numbers.
pub open spec fn min_nat(a: nat, b: nat) -> nat {
    if a <= b {
        a
    } else {
        b
    }
}

/// The distinct words of a word sequence.
pub open spec fn word_set(ws: Seq<Seq<char>>) -> Set<Seq<char>>
    decreases ws.len(),
{
    if ws.len() == 0 {
        Set::empty()
    } else {
        word_set(ws.drop_last()).insert(ws.last())
    }
}

/// The distinct whitespace-separated words over all the texts.
pub open spec fn distinct_words(texts: Seq<Seq<char>>) -> Set<Seq<char>>
    decreases texts.len(),
{
    if texts.len() == 0 {
        Set::empty()
    } else {
        distinct_words(texts.drop_last()).union(word_set(words(texts.last())))
    }
}

proof fn lemma_word_set_finite(ws: Seq<Seq<char>>)
    ensures
        word_set(ws).finite(),
    decreases ws.len(),
{
    if ws.len() > 0 {
        lemma_word_set_finite(ws.drop_last());
    }
}

proof fn lemma_distinct_words_finite(texts: Seq<Seq<char>>)
    ensures
        distinct_words(texts).finite(),
    decreases texts.len(),
{
    if texts.len() > 0 {
        lemma_distinct_words_finite(texts.drop_last());
        lemma_word_set_finite(words(texts.last()));
    }
}

/// `m` holds as many of the words of `b` as the limit lets it: all of them
/// while there is room, and exactly `max` of them once full.
pub open spec fn fills_up_to(m: Map<Seq<char>, usize>, b: Set<Seq<char>>, max: nat) -> bool {
    &&& m.dom().finite()
    &&& b.finite()
    &&& m.dom().subset_of(b)
    &&& m.dom().len() == min_nat(max, b.len())
    &&& m.dom().len() < max ==> m.dom() == b
}

proof fn lemma_add_word_fills(m: Map<Seq<char>, usize>, b: Set<Seq<char>>, w: Seq<char>, max: nat)
    requires
        fills_up_to(m, b, max),
    ensures
        fills_up_to(add_word(m, w, max), b.insert(w), max),
        forall|x: Seq<char>| #[trigger] m.contains_key(x) ==> add_word(m, w, max).contains_key(x) && add_word(m, w, max)[x] == m[x],
{
    let n = add_word(m, w, max);
    if m.dom().len() < max {
        if m.contains_key(w) {
            assert(b.insert(w) =~= b);
        } else {
            assert(n.dom() =~= m.dom().insert(w));
            assert(n.dom() =~= b.insert(w));
        }
    } else {
        assert(b.len() >= max);
        assert(b.insert(w).len() >= b.len());
        assert(m.dom().subset_of(b.insert(w)));
    }
}

proof fn lemma_add_words_fills(m: Map<Seq<char>, usize>, b: Set<Seq<char>>, ws: Seq<Seq<char>>, max: nat)
    requires
        fills_up_to(m, b, max),
    ensures
        fills_up_to(add_words(m, ws, max), b.union(word_set(ws)), max),
        forall|x: Seq<char>| #[trigger] m.contains_key(x) ==> add_words(m, ws, max).contains_key(x) && add_words(m, ws, max)[x] == m[x],
    decreases ws.len(),
{
    if ws.len() == 0 {
        assert(b.union(word_set(ws)) =~= b);
    } else {
        let t = ws.drop_last();
        lemma_add_words_fills(m, b, t, max);
        lemma_word_set_finite(t);
        lemma_add_word_fills(add_words(m, t, max), b.union(word_set(t)), ws.last(), max);
        assert(b.union(word_set(t)).insert(ws.last()) =~= b.union(word_set(ws)));
    }
}

/// The vocabulary learned from any texts holds all their distinct words
/// while there is room: its size is the smaller of the limit and the number
/// of distinct words, and it holds no other word.
pub proof fn lemma_vocabulary_size(texts: Seq<Seq<char>>, max: nat)
    ensures
        distinct_words(texts).finite(),
        vocabulary_of(texts, max).dom().subset_of(distinct_words(texts)),
        vocabulary_of(texts, max).dom().len() == min_nat(max, distinct_words(texts).len()),
        distinct_words(texts).len() <= max ==> vocabulary_of(texts, max).dom() == distinct_words(texts),
    decreases texts.len(),
{
    lemma_distinct_words_finite(texts);
    if texts.len() == 0 {
        assert(vocabulary_of(texts, max).dom() =~= Set::<Seq<char>>::empty());
    } else {
        let t = texts.drop_last();
        lemma_vocabulary_size(t, max);
        lemma_add_words_fills(vocabulary_of(t, max), distinct_words(t), words(texts.last()), max);
    }
    if distinct_words(texts).len() <= max {
        vstd::set_lib::lemma_subset_equality(vocabulary_of(texts, max).dom(), distinct_words(texts));
    }
}

/// Learning one more text keeps the index of every known word, and grows
/// the vocabulary by the text's new distinct words, up to the limit.
pub proof fn lemma_vocabulary_after_text(texts: Seq<Seq<char>>, text: Seq<char>, max: nat)
    ensures
        vocabulary_of(texts.push(text), max).dom().len() == min_nat(
            max,
            vocabulary_of(texts, max).dom().len() + word_set(words(text)).difference(distinct_words(texts)).len(),
        ),
        forall|x: Seq<char>|
            #[trigger] vocabulary_of(texts, max).contains_key(x) ==> vocabulary_of(texts.push(text), max).contains_key(x)
                && vocabulary_of(texts.push(text), max)[x] == vocabulary_of(texts, max)[x],
{
    let all = texts.push(text);
    assert(all.drop_last() =~= texts);
    lemma_vocabulary_size(texts, max);
    lemma_vocabulary_size(all, max);
    lemma_add_words_fills(vocabulary_of(texts, max), distinct_words(texts), words(text), max);
    let w = distinct_words(texts);
    let n = word_set(words(text));
    lemma_word_set_finite(words(text));
    let fresh = n.difference(w);
    assert(w.union(n) =~= w + fresh);
    assert(w.disjoint(fresh));
    vstd::set_lib::lemma_set_disjoint_lens(w, fresh);
}

/// A classifier's vocabulary size is the smaller of `max_vocabulary_size`
/// and the number of distinct words over its training texts.
pub proof fn lemma_classifier_vocabulary_size(c: &IntentClassifier)
    requires
        c.wf(),
    ensures
        c.vocabulary().dom().len() == min_nat(
            c.configuration().max_vocabulary_size as nat,
            distinct_words(texts_of(c.examples())).len(),
        ),
        c.vocabulary().dom().subset_of(distinct_words(texts_of(c.examples()))),
{
    lemma_vocabulary_size(texts_of(c.examples()), c.configuration().max_vocabulary_size as nat);
}

/// Learning one more example grows the vocabulary by the new distinct
/// words of its text, up to the limit (the vocabulary size in the
/// statistics after `add_training_example`).
pub proof fn lemma_vocabulary_after_example(ex: Seq<TrainingExample>, e: TrainingExample, max: nat)
    ensures
        vocabulary_of(texts_of(ex.push(e)), max).dom().len() == min_nat(
            max,
            vocabulary_of(texts_of(ex), max).dom().len() + word_set(words(e.text@)).difference(
                distinct_words(texts_of(ex)),
            ).len(),
        ),
{
    assert(texts_of(ex.push(e)) =~= texts_of(ex).push(e.text@));
    lemma_vocabulary_after_text(texts_of(ex), e.text@, max);
}

proof fn lemma_kept_chars_are_kept(s: Seq<char>)
    ensures
        forall|i: int| 0 <= i < kept_chars(s).len() ==> is_kept(#[trigger] kept_chars(s)[i]),
    decreases s.len(),
{
    if s.len() > 0 {
        let t = s.drop_last();
        lemma_kept_chars_are_kept(t);
        assert forall|i: int| 0 <= i < kept_chars(s).len() implies is_kept(#[trigger] kept_chars(s)[i]) by {
            if i < kept_chars(t).len() {
                assert(kept_chars(s)[i] == kept_chars(t)[i]);
            }
        }
    }
}

/// The characters of a word are alphanumeric.
pub open spec fn is_alphanumeric_word(w: Seq<char>) -> bool {
    forall|j: int| 0 <= j < w.len() ==> unicode_alphanumeric(#[trigger] w[j])
}

proof fn lemma_scan_words_alphanumeric(s: Seq<char>)
    requires
        forall|i: int| 0 <= i < s.len() ==> is_kept(#[trigger] s[i]),
    ensures
        forall|k: int| 0 <= k < scan_words(s).0.len() ==> is_alphanumeric_word(#[trigger] scan_words(s).0[k]),
        is_alphanumeric_word(scan_words(s).1),
    decreases s.len(),
{
    if s.len() > 0 {
        let t = s.drop_last();
        assert forall|i: int| 0 <= i < t.len() implies is_kept(#[trigger] t[i]) by {
            assert(t[i] == s[i]);
        }
        lemma_scan_words_alphanumeric(t);
        let (done, cur) = scan_words(t);
        assert(is_kept(s[s.len() - 1]));
        assert forall|k: int| 0 <= k < scan_words(s).0.len() implies is_alphanumeric_word(
            #[trigger] scan_words(s).0[k],
        ) by {
            if k < done.len() {
                assert(scan_words(s).0[k] == done[k]);
            }
        }
        if !is_white_space(s.last()) {
            assert forall|j: int| 0 <= j < cur.push(s.last()).len() implies unicode_alphanumeric(
                #[trigger] cur.push(s.last())[j],
            ) by {
                if j < cur.len() {
                    assert(cur.push(s.last())[j] == cur[j]);
                }
            }
        }
    }
}

proof fn lemma_join_normal(ws: Seq<Seq<char>>)
    requires
        forall|k: int| 0 <= k < ws.len() ==> is_word(#[trigger] ws[k]) && is_alphanumeric_word(ws[k]),
    ensures
        is_normal_form(join_words(ws)),
    decreases ws.len(),
{
    if ws.len() == 1 {
        let w = ws[0];
        assert(is_word(ws[0]) && is_alphanumeric_word(ws[0]));
        assert(!is_white_space(w[0]) && !is_white_space(w[w.len() - 1]));
        assert forall|i: int| 0 <= i < w.len() implies #[trigger] w[i] == ' ' || (unicode_alphanumeric(w[i])
            && !is_white_space(w[i])) by {}
    } else if ws.len() > 1 {
        let t = ws.drop_last();
        let w = ws.last();
        assert forall|k: int| 0 <= k < t.len() implies is_word(#[trigger] t[k]) && is_alphanumeric_word(t[k]) by {
            assert(t[k] == ws[k]);
        }
        lemma_join_normal(t);
        let j = join_words(t);
        assert(is_word(t[0]));
        lemma_join_nonempty(t);
        assert(is_word(ws[ws.len() - 1]) && is_alphanumeric_word(ws[ws.len() - 1]));
        let r = join_words(ws);
        assert(r == j + seq![' '] + w);
        assert forall|i: int| 0 <= i < r.len() implies #[trigger] r[i] == ' ' || (unicode_alphanumeric(r[i])
            && !is_white_space(r[i])) by {
            if i < j.len() {
                assert(r[i] == j[i]);
            } else if i > j.len() {
                assert(r[i] == w[i - j.len() - 1]);
            }
        }
        assert forall|i: int| 0 <= i < r.len() - 1 && #[trigger] r[i] == ' ' implies r[i + 1] != ' ' by {
            if i < j.len() - 1 {
                assert(r[i] == j[i] && r[i + 1] == j[i + 1]);
            } else if i == j.len() - 1 {
                assert(r[i] == j[i]);
            } else if i == j.len() {
                assert(r[i + 1] == w[0]);
                assert(!is_white_space(w[0]));
            } else {
                assert(r[i] == w[i - j.len() - 1]);
                assert(!is_white_space(w[i - j.len() - 1]));
            }
        }
        assert(r[0] == j[0]);
        assert(r[r.len() - 1] == w[w.len() - 1]);
        assert(!is_white_space(w[w.len() - 1]));
    }
}

proof fn lemma_join_nonempty(ws: Seq<Seq<char>>)
    requires
        ws.len() > 0,
        forall|k: int| 0 <= k < ws.len() ==> is_word(#[trigger] ws[k]),
    ensures
        join_words(ws).len() > 0,
    decreases ws.len(),
{
    assert(is_word(ws[ws.len() - 1]));
    if ws.len() > 1 {
        let t = ws.drop_last();
        assert forall|k: int| 0 <= k < t.len() implies is_word(#[trigger] t[k]) by {
            assert(t[k] == ws[k]);
        }
        lemma_join_nonempty(t);
    }
}

/// A normalized query has the normal shape: single spaces between words,
/// none leading, trailing or doubled, and only alphanumeric characters
/// besides.
pub proof fn lemma_normalized_shape(s: Seq<char>)
    ensures
        is_normal_form(normalized_text(s)),
{
    let k = kept_chars(unicode_lowercase(s));
    lemma_kept_chars_are_kept(unicode_lowercase(s));
    lemma_words_are_words(k);
    lemma_scan_words_alphanumeric(k);
    let ws = words(k);
    let (done, cur) = scan_words(k);
    assert forall|i: int| 0 <= i < ws.len() implies is_word(#[trigger] ws[i]) && is_alphanumeric_word(ws[i]) by {
        if i < done.len() {
            assert(ws[i] == done[i]);
        }
    }
    lemma_join_normal(ws);
}


proof fn lemma_kept_all(s: Seq<char>)
    requires
        forall|i: int| 0 <= i < s.len() ==> is_kept(#[trigger] s[i]),
    ensures
        kept_chars(s) == s,
    decreases s.len(),
{
    if s.len() > 0 {
        let t = s.drop_last();
        assert forall|i: int| 0 <= i < t.len() implies is_kept(#[trigger] t[i]) by {
            assert(t[i] == s[i]);
        }
        lemma_kept_all(t);
        assert(is_kept(s[s.len() - 1]));
        assert(t.push(s.last()) =~= s);
    }
}

/// Index of the last space of `t`, or -1 when it has none.
pub open spec fn last_space(t: Seq<char>) -> int
    decreases t.len(),
{
    if t.len() == 0 {
        -1
    } else if t.last() == ' ' {
        t.len() - 1
    } else {
        last_space(t.drop_last())
    }
}

proof fn lemma_last_space(t: Seq<char>)
    ensures
        -1 <= last_space(t) < t.len(),
        last_space(t) >= 0 ==> t[last_space(t)] == ' ',
        forall|j: int| last_space(t) < j < t.len() ==> #[trigger] t[j] != ' ',
    decreases t.len(),
{
    if t.len() > 0 && t.last() != ' ' {
        let u = t.drop_last();
        lemma_last_space(u);
        assert forall|j: int| last_space(t) < j < t.len() implies #[trigger] t[j] != ' ' by {
            if j < u.len() {
                assert(t[j] == u[j]);
            }
        }
    }
}

/// A text in normal form is its words joined with single spaces.
proof fn lemma_normal_form_joined(t: Seq<char>) -> (ws: Seq<Seq<char>>)
    requires
        is_normal_form(t),
    ensures
        forall|k: int| 0 <= k < ws.len() ==> is_word(#[trigger] ws[k]),
        join_words(ws) == t,
    decreases t.len(),
{
    lemma_last_space(t);
    let i = last_space(t);
    if i < 0 {
        if t.len() == 0 {
            Seq::empty()
        } else {
            assert forall|j: int| 0 <= j < t.len() implies !is_white_space(#[trigger] t[j]) by {
                assert(t[j] != ' ');
            }
            seq![t]
        }
    } else {
        let p = t.subrange(0, i);
        let w = t.subrange(i + 1, t.len() as int);
        assert(i > 0) by {
            assert(t[0] != ' ');
        }
        assert(i < t.len() - 1) by {
            assert(t[t.len() - 1] != ' ');
        }
        assert forall|j: int| 0 <= j < p.len() implies #[trigger] p[j] == ' ' || (
        unicode_alphanumeric(p[j]) && !is_white_space(p[j])) by {
            assert(p[j] == t[j]);
        }
        assert forall|j: int| 0 <= j < p.len() - 1 && #[trigger] p[j] == ' ' implies p[j + 1] != ' ' by {
            assert(p[j] == t[j] && p[j + 1] == t[j + 1]);
        }
        assert(p[0] == t[0]);
        assert(p[p.len() - 1] != ' ') by {
            assert(p[p.len() - 1] == t[i - 1]);
            assert(t[i] == ' ');
        }
        let vs = lemma_normal_form_joined(p);
        assert(vs.len() > 0) by {
            if vs.len() == 0 {
                assert(join_words(vs).len() == 0);
            }
        }
        assert forall|j: int| 0 <= j < w.len() implies !is_white_space(#[trigger] w[j]) by {
            assert(w[j] == t[i + 1 + j]);
            assert(t[i + 1 + j] != ' ');
        }
        let ws = vs.push(w);
        assert forall|k: int| 0 <= k < ws.len() implies is_word(#[trigger] ws[k]) by {
            if k < vs.len() {
                assert(ws[k] == vs[k]);
            }
        }
        assert(ws.drop_last() =~= vs);
        assert(join_words(ws) == p + seq![' '] + w);
        assert(p + seq![' '] + w =~= t);
        ws
    }
}

/// Normalizing a text that is already in normal form and is its own
/// lowercase gives it back unchanged.
pub proof fn lemma_normalized_fixed_point(t: Seq<char>)
    requires
        is_normal_form(t),
        unicode_lowercase(t) == t,
    ensures
        normalized_text(t) == t,
{
    assert forall|i: int| 0 <= i < t.len() implies is_kept(#[trigger] t[i]) by {
        assert(t[i] == ' ' || unicode_alphanumeric(t[i]));
    }
    lemma_kept_all(t);
    let ws = lemma_normal_form_joined(t);
    lemma_words_of_joined(ws);
}

/// Normalization is idempotent wherever lowercasing leaves the normalized
/// text unchanged: normalizing it a second time gives it back.
pub proof fn lemma_normalization_idempotent(s: Seq<char>)
    requires
        unicode_lowercase(normalized_text(s)) == normalized_text(s),
    ensures
        normalized_text(normalized_text(s)) == normalized_text(s),
{
    lemma_normalized_shape(s);
    lemma_normalized_fixed_point(normalized_text(s));
}


/// Whether an entry may be offered as an alternative to `best`: another
/// intent whose score is a valid confidence (in `0.0..=1.0`).
pub open spec fn offerable(best: Seq<char>) -> spec_fn((IntentId, u64)) -> bool {
    |e: (IntentId, u64)| e.0@ != best && in_unit_interval(e.1)
}

proof fn lemma_candidates_are_filter(s: Seq<(IntentId, u64)>, best: Seq<char>)
    ensures
        alternative_candidates(s, best) == s.filter(offerable(best)),
    decreases s.len(),
{
    reveal(Seq::filter);
    if s.len() > 0 {
        lemma_candidates_are_filter(s.drop_last(), best);
    }
}

proof fn lemma_top_scores_len(s: Seq<(IntentId, u64)>, k: nat)
    ensures
        top_scores(s, k).len() == if s.len() < k {
            s.len()
        } else {
            k
        },
    decreases k,
{
    if k > 0 && s.len() > 0 {
        lemma_first_max_index(s);
        lemma_top_scores_len(s.remove(first_max_index(s)), (k - 1) as nat);
    }
}

proof fn lemma_top_scores_complete(s: Seq<(IntentId, u64)>, k: nat)
    ensures
        forall|i: int|
            #![trigger s[i]]
            0 <= i < s.len() && (top_scores(s, k).len() < k || (top_scores(s, k).len() > 0 && order_key(s[i].1)
                > order_key(top_scores(s, k)[top_scores(s, k).len() - 1].1))) ==> top_scores(s, k).contains(s[i]),
    decreases k,
{
    if k > 0 && s.len() > 0 {
        let m = first_max_index(s);
        lemma_first_max_index(s);
        let rest = s.remove(m);
        lemma_top_scores_complete(rest, (k - 1) as nat);
        let tail = top_scores(rest, (k - 1) as nat);
        let r = top_scores(s, k);
        assert(r == seq![s[m]] + tail);
        assert forall|i: int|
            #![trigger s[i]]
            0 <= i < s.len() && (r.len() < k || (r.len() > 0 && order_key(s[i].1) > order_key(r[r.len() - 1].1)))
                implies r.contains(s[i]) by {
            if i == m {
                assert(r[0] == s[i]);
            } else {
                let j = if i < m {
                    i
                } else {
                    i - 1
                };
                assert(rest[j] == s[i]);
                if r.len() >= k {
                    if tail.len() == 0 {
                        assert(r[r.len() - 1] == s[m]);
                        assert(order_key(s[i].1) <= order_key(s[m].1));
                    } else {
                        assert(r[r.len() - 1] == tail[tail.len() - 1]);
                    }
                }
                assert(tail.contains(rest[j]));
                let q = choose|q: int| 0 <= q < tail.len() && tail[q] == rest[j];
                assert(r[q + 1] == tail[q]);
            }
        }
    }
}

proof fn lemma_top_scores_taken_from(s: Seq<(IntentId, u64)>, k: nat)
    ensures
        top_scores(s, k).to_multiset().subset_of(s.to_multiset()),
    decreases k,
{
    broadcast use vstd::multiset::group_multiset_axioms;
    broadcast use vstd::seq_lib::to_multiset_build;

    let r = top_scores(s, k);
    if k > 0 && s.len() > 0 {
        let m = first_max_index(s);
        lemma_first_max_index(s);
        let rest = s.remove(m);
        lemma_top_scores_taken_from(rest, (k - 1) as nat);
        let tail = top_scores(rest, (k - 1) as nat);
        vstd::seq_lib::lemma_multiset_commutative(seq![s[m]], tail);
        vstd::seq_lib::to_multiset_remove(s, m);
        assert(seq![s[m]] =~= Seq::<(IntentId, u64)>::empty().push(s[m]));
        assert(Seq::<(IntentId, u64)>::empty().to_multiset() =~= vstd::multiset::Multiset::empty()) by {
            Seq::<(IntentId, u64)>::empty().to_multiset_ensures();
        }
        assert forall|v: (IntentId, u64)| r.to_multiset().count(v) <= s.to_multiset().count(v) by {
            if v == s[m] {
                s.to_multiset_ensures();
                assert(s.to_multiset().count(s[m]) > 0) by {
                    assert(s.contains(s[m]));
                }
            }
        }
    } else {
        assert(r =~= Seq::<(IntentId, u64)>::empty());
        r.to_multiset_ensures();
        assert(r.to_multiset() =~= vstd::multiset::Multiset::empty());
    }
}

/// The alternatives are complete. There are as many as there are offerable
/// entries (other intents with a valid confidence), up to three; and every
/// offerable entry is among them when fewer than three are returned, or
/// when it scores strictly higher than the last one returned. So no entry
/// is passed over for a lower-scored one, and none is offered more often
/// than it occurs among the offerable entries.
pub proof fn lemma_alternatives_complete(s: Seq<(IntentId, u64)>, best: Seq<char>)
    ensures
        ranked_alternatives(s, best).len() == if s.filter(offerable(best)).len() < MAX_ALTERNATIVES {
            s.filter(offerable(best)).len()
        } else {
            MAX_ALTERNATIVES as nat
        },
        forall|i: int|
            #![trigger s[i]]
            0 <= i < s.len() && s[i].0@ != best && in_unit_interval(s[i].1) && (ranked_alternatives(s, best).len()
                < MAX_ALTERNATIVES || order_key(s[i].1) > order_key(
                ranked_alternatives(s, best)[ranked_alternatives(s, best).len() - 1].1,
            )) ==> ranked_alternatives(s, best).contains(s[i]),
        ranked_alternatives(s, best).to_multiset().subset_of(s.filter(offerable(best)).to_multiset()),
{
    let c = alternative_candidates(s, best);
    lemma_candidates_are_filter(s, best);
    lemma_top_scores_taken_from(c, MAX_ALTERNATIVES as nat);
    lemma_top_scores_len(c, MAX_ALTERNATIVES as nat);
    lemma_top_scores_complete(c, MAX_ALTERNATIVES as nat);
    let r = ranked_alternatives(s, best);
    assert forall|i: int|
        #![trigger s[i]]
        0 <= i < s.len() && s[i].0@ != best && in_unit_interval(s[i].1) && (r.len() < MAX_ALTERNATIVES
            || order_key(s[i].1) > order_key(r[r.len() - 1].1)) implies r.contains(s[i]) by {
        assert(offerable(best)(s[i]));
        s.lemma_filter_contains(offerable(best), i);
        let q = choose|q: int| 0 <= q < c.len() && c[q] == s[i];
        assert(c[q] == s[i]);
    }
}

/// The rule-based fallback is decided by the threshold it is given: the
/// scores gain `general_processing` at `0.5` exactly when every score lies
/// below that threshold and no score names `general_processing`; otherwise
/// they are left as they are.
pub proof fn lemma_fallback_follows_threshold(
    scores: Seq<(IntentId, u64)>,
    threshold: u64,
    completed: Seq<(IntentId, u64)>,
)
    requires
        is_completion(scores, threshold, completed),
    ensures
        ((forall|i: int| 0 <= i < scores.len() ==> score_below(#[trigger] scores[i].1, threshold)) && (forall|
            i: int,
        | 0 <= i < scores.len() ==> (#[trigger] scores[i]).0@ != "general_processing"@)) ==> {
            &&& completed.len() == scores.len() + 1
            &&& completed.drop_last() == scores
            &&& completed[scores.len() as int].0@ == "general_processing"@
            &&& completed[scores.len() as int].1 == HALF_BITS
        },
        !((forall|i: int| 0 <= i < scores.len() ==> score_below(#[trigger] scores[i].1, threshold)) && (forall|
            i: int,
        | 0 <= i < scores.len() ==> (#[trigger] scores[i]).0@ != "general_processing"@)) ==> completed == scores,
{
}

proof fn lemma_feature_indices_concat(a: Seq<Seq<char>>, b: Seq<Seq<char>>, vocab: Map<Seq<char>, usize>, dims: nat)
    ensures
        feature_indices(a + b, vocab, dims) == feature_indices(a, vocab, dims) + feature_indices(b, vocab, dims),
    decreases b.len(),
{
    if b.len() == 0 {
        assert(a + b =~= a);
        assert(feature_indices(a, vocab, dims) + feature_indices(b, vocab, dims) =~= feature_indices(a, vocab, dims));
    } else {
        lemma_feature_indices_concat(a, b.drop_last(), vocab, dims);
        assert((a + b).drop_last() =~= a + b.drop_last());
        assert((a + b).last() == b.last());
    }
}

/// Word features are computed word by word: the features of two runs of
/// words one after the other are the features of the first run followed by
/// those of the second, and a single word contributes its vocabulary index
/// exactly when it is known and the index is below `dims`, wherever it
/// stands.
pub proof fn lemma_feature_indices_word_by_word(
    a: Seq<Seq<char>>,
    b: Seq<Seq<char>>,
    w: Seq<char>,
    vocab: Map<Seq<char>, usize>,
    dims: nat,
)
    ensures
        feature_indices(a + b, vocab, dims) == feature_indices(a, vocab, dims) + feature_indices(b, vocab, dims),
        feature_indices(seq![w], vocab, dims) == if vocab.contains_key(w) && vocab[w] < dims {
            seq![vocab[w]]
        } else {
            Seq::<usize>::empty()
        },
{
    lemma_feature_indices_concat(a, b, vocab, dims);
    let one = seq![w];
    assert(one.drop_last() =~= Seq::<Seq<char>>::empty());
    assert(feature_indices(one.drop_last(), vocab, dims) == Seq::<usize>::empty());
    assert(one.last() == w);
    if vocab.contains_key(w) && vocab[w] < dims {
        assert(Seq::<usize>::empty().push(vocab[w]) =~= seq![vocab[w]]);
    }
}

/// Every known word of a text whose index is below `dims` contributes that
/// index, at whatever position the word stands: the features are the
/// features of the words before it, its index, then the features of the
/// words after it.
pub proof fn lemma_every_known_word_counts(ws: Seq<Seq<char>>, k: int, vocab: Map<Seq<char>, usize>, dims: nat)
    requires
        0 <= k < ws.len(),
        vocab.contains_key(ws[k]),
        vocab[ws[k]] < dims,
    ensures
        feature_indices(ws, vocab, dims) == feature_indices(ws.take(k), vocab, dims) + seq![vocab[ws[k]]]
            + feature_indices(ws.skip(k + 1), vocab, dims),
        feature_indices(ws, vocab, dims).contains(vocab[ws[k]]),
{
    let w = ws[k];
    lemma_feature_indices_word_by_word(ws.take(k), seq![w], w, vocab, dims);
    lemma_feature_indices_concat(ws.take(k) + seq![w], ws.skip(k + 1), vocab, dims);
    assert(ws.take(k) + seq![w] + ws.skip(k + 1) =~= ws);
    let f = feature_indices(ws, vocab, dims);
    let p = feature_indices(ws.take(k), vocab, dims);
    assert(f[p.len() as int] == vocab[w]);
}

/// Scores compare as the floating-point values they hold: a NaN is never
/// below or above anything; two non-negative values compare as their bit
/// patterns do; every negative value other than `-0.0` lies below every
/// non-negative one; and `-0.0` and `0.0` are equal.
pub proof fn lemma_score_order_is_float_order(a: u64, b: u64)
    ensures
        is_nan_bits(a) || is_nan_bits(b) ==> !score_below(a, b) && !score_below(b, a),
        !is_nan_bits(a) && !is_nan_bits(b) && a < SIGN_BIT && b < SIGN_BIT ==> (score_below(a, b) <==> a < b),
        !is_nan_bits(a) && !is_nan_bits(b) && a > SIGN_BIT && b < SIGN_BIT ==> score_below(a, b),
        !is_nan_bits(a) && !is_nan_bits(b) && a >= SIGN_BIT && b >= SIGN_BIT ==> (score_below(a, b) <==> a > b),
        !score_below(SIGN_BIT, 0) && !score_below(0, SIGN_BIT),
{
    assert(!is_nan_bits(SIGN_BIT) && !is_nan_bits(0));
}

} // verus!
