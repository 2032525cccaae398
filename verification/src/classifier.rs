//! The intent classifier: its training data, the vocabulary and intent
//! patterns learned from it, and every decision of training and prediction
//! that does not compute with floating-point values.
use ahash::RandomState;
use dashmap::DashMap;
use vstd::prelude::*;
use vstd::string::StringSliceAdditionalSpecFns;
use crate::bootstrap::{
    bootstrap_table, get_bootstrap_examples, lemma_bootstrap_texts_not_blank, BOOTSTRAP_SIZE,
};
use crate::ranking::{
    all_below, best_index, best_score_index, candidates_for, has_intent, ranked_alternatives,
    scores_all_below, scores_have_intent, top_three, MAX_ALTERNATIVES,
};
use crate::laws::{lemma_alternatives_complete, lemma_alternatives_ranked, lemma_fallback_follows_threshold, offerable};
use crate::scores::{
    in_unit_interval, is_unit_interval, order_key, score_below, HALF_BITS, ONE_BITS, POINT_THREE_BITS,
};
use crate::tables::{
    empty_patterns, empty_vocabulary, fresh_random_state, pattern_entries, patterns_append,
    patterns_clear, patterns_get, patterns_len, patterns_snapshot, vocabulary_clear,
    vocabulary_contains, vocabulary_entries, vocabulary_get, vocabulary_insert, vocabulary_len,
};
use crate::text::{
    contains_text, decimal_digits, decimal_text, has_substring, is_blank, is_blank_text,
    is_normal_form,
    normalized_text, preprocess_text, split_words, strings_view, words,
};
use crate::types::{
    ClassificationRequest, ClassifierConfig, ClassifierStats, ContextSignals, IntentError,
    IntentId, IntentPrediction, TrainingExample, TrainingSource,
};

verus! {

/// One step of vocabulary growth: a new word gets the next free index,
/// unless the vocabulary is full.
pub open spec fn add_word(m: Map<Seq<char>, usize>, w: Seq<char>, max: nat) -> Map<Seq<char>, usize> {
    if m.dom().len() < max && !m.contains_key(w) {
        m.insert(w, m.dom().len() as usize)
    } else {
        m
    }
}

/// The vocabulary after offering it the words `ws` in order.
pub open spec fn add_words(m: Map<Seq<char>, usize>, ws: Seq<Seq<char>>, max: nat) -> Map<Seq<char>, usize>
    decreases ws.len(),
{
    if ws.len() == 0 {
        m
    } else {
        add_word(add_words(m, ws.drop_last(), max), ws.last(), max)
    }
}

/// The vocabulary learned from the texts in order, starting empty: each
/// text contributes its whitespace-separated words.
pub open spec fn vocabulary_of(texts: Seq<Seq<char>>, max: nat) -> Map<Seq<char>, usize>
    decreases texts.len(),
{
    if texts.len() == 0 {
        Map::empty()
    } else {
        add_words(vocabulary_of(texts.drop_last(), max), words(texts.last()), max)
    }
}

/// The texts of the examples, in order.
pub open spec fn texts_of(ex: Seq<TrainingExample>) -> Seq<Seq<char>> {
    ex.map_values(|e: TrainingExample| e.text@)
}

/// The intent patterns learned from the examples: for each intent, the texts
/// of its examples in order.
pub open spec fn patterns_of(ex: Seq<TrainingExample>) -> Map<Seq<char>, Seq<Seq<char>>>
    decreases ex.len(),
{
    if ex.len() == 0 {
        Map::empty()
    } else {
        let m = patterns_of(ex.drop_last());
        let e = ex.last();
        m.insert(
            e.intent@,
            (if m.contains_key(e.intent@) {
                m[e.intent@]
            } else {
                Seq::empty()
            }).push(e.text@),
        )
    }
}

/// An example the classifier accepts: its text is not blank and its
/// confidence lies in `0.0..=1.0`.
pub open spec fn is_valid_example(e: TrainingExample) -> bool {
    !is_blank_text(e.text@) && in_unit_interval(e.confidence_bits)
}

/// `e` is the error that refuses the invalid example `ex`: the blank text
/// is reported first, then the confidence out of range.
pub open spec fn is_refusal_of(e: IntentError, ex: TrainingExample) -> bool {
    e matches IntentError::InvalidParameter { parameter, message } && if is_blank_text(ex.text@) {
        parameter@ == "text"@ && message@ == "Training example text cannot be empty"@
    } else {
        parameter@ == "confidence"@ && message@ == "Confidence must be between 0.0 and 1.0"@
    }
}

/// The number of examples that came from user feedback.
pub open spec fn feedback_count(ex: Seq<TrainingExample>) -> nat
    decreases ex.len(),
{
    if ex.len() == 0 {
        0
    } else {
        feedback_count(ex.drop_last()) + if ex.last().source == TrainingSource::UserFeedback {
            1nat
        } else {
            0nat
        }
    }
}

/// A confidence as `Confidence::new(x).unwrap_or_default()` gives it: the
/// value itself when it lies in `0.0..=1.0`, else the default `1.0`.
pub open spec fn confidence_or_default(b: u64) -> u64 {
    if in_unit_interval(b) {
        b
    } else {
        ONE_BITS
    }
}

/// `e` is the bootstrap example made of `pair`: its text and intent, full
/// confidence, source `Bootstrap`.
pub open spec fn is_bootstrap_example(e: TrainingExample, pair: (Seq<char>, Seq<char>)) -> bool {
    &&& e.text@ == pair.0
    &&& e.intent@ == pair.1
    &&& e.confidence_bits == ONE_BITS
    &&& e.source == TrainingSource::Bootstrap
}

/// `after` is `before` followed by the bootstrap examples, in table order.
pub open spec fn extends_with_bootstrap(before: Seq<TrainingExample>, after: Seq<TrainingExample>) -> bool {
    &&& after.len() == before.len() + BOOTSTRAP_SIZE
    &&& after.take(before.len() as int) == before
    &&& forall|i: int|
        0 <= i < BOOTSTRAP_SIZE ==> is_bootstrap_example(#[trigger] after[before.len() + i], bootstrap_table()[i])
}

/// The classifier's state.
pub struct IntentClassifier {
    training_data: Vec<TrainingExample>,
    vocabulary: DashMap<String, usize, RandomState>,
    intent_patterns: DashMap<IntentId, Vec<String>, RandomState>,
    config: ClassifierConfig,
}

proof fn lemma_texts_push(ex: Seq<TrainingExample>, e: TrainingExample)
    ensures
        texts_of(ex.push(e)) == texts_of(ex).push(e.text@),
        texts_of(ex.push(e)).drop_last() == texts_of(ex),
        ex.push(e).drop_last() == ex,
{
    assert(texts_of(ex.push(e)) =~= texts_of(ex).push(e.text@));
    assert(texts_of(ex.push(e)).drop_last() =~= texts_of(ex));
    assert(ex.push(e).drop_last() =~= ex);
}

/// Offers the words of `text` to the vocabulary, in order.
fn update_vocabulary(vocab: &mut DashMap<String, usize, RandomState>, max: usize, text: &str)
    ensures
        vocabulary_entries(*final(vocab)) == add_words(vocabulary_entries(*old(vocab)), words(text@), max as nat),
{
    let ws = split_words(text);
    let ghost w = words(text@);
    let ghost v0 = vocabulary_entries(*vocab);
    let mut i: usize = 0;
    while i < ws.len()
        invariant
            strings_view(ws@) == w,
            i <= ws.len(),
            vocabulary_entries(*vocab) == add_words(v0, w.take(i as int), max as nat),
        decreases ws.len() - i,
    {
        proof {
            assert(w.take(i + 1).drop_last() =~= w.take(i as int));
        }
        let n = vocabulary_len(vocab);
        if n < max && !vocabulary_contains(vocab, ws[i].as_str()) {
            vocabulary_insert(vocab, ws[i].clone(), n);
        }
        i = i + 1;
    }
    proof {
        assert(w.take(ws.len() as int) =~= w);
    }
}

impl IntentClassifier {
    /// The training examples, oldest first.
    pub closed spec fn examples(&self) -> Seq<TrainingExample> {
        self.training_data@
    }

    /// The vocabulary: each known word with its feature index.
    pub closed spec fn vocabulary(&self) -> Map<Seq<char>, usize> {
        vocabulary_entries(self.vocabulary)
    }

    /// The intent patterns: each intent with the texts that taught it.
    pub closed spec fn patterns(&self) -> Map<Seq<char>, Seq<Seq<char>>> {
        pattern_entries(self.intent_patterns)
    }

    /// The configuration.
    pub closed spec fn configuration(&self) -> ClassifierConfig {
        self.config
    }

    /// Well-formedness: vocabulary and patterns are exactly what the
    /// training examples teach, and every example is valid.
    pub open spec fn wf(&self) -> bool {
        &&& self.vocabulary() == vocabulary_of(
            texts_of(self.examples()),
            self.configuration().max_vocabulary_size as nat,
        )
        &&& self.patterns() == patterns_of(self.examples())
        &&& forall|i: int| 0 <= i < self.examples().len() ==> is_valid_example(#[trigger] self.examples()[i])
    }

    /// Adds a training example after validating it: a blank text, or a
    /// confidence outside `0.0..=1.0`, is refused with `InvalidParameter`
    /// naming the field, and nothing changes. An accepted example is
    /// appended, its text recorded under its intent and its words offered
    /// to the vocabulary.
    pub fn add_training_example(&mut self, example: TrainingExample) -> (r: Result<(), IntentError>)
        requires
            old(self).wf(),
        ensures
            final(self).wf(),
            final(self).configuration() == old(self).configuration(),
            r is Ok <==> is_valid_example(example),
            r is Ok ==> final(self).examples() == old(self).examples().push(example),
            r is Err ==> final(self).examples() == old(self).examples(),
            r matches Err(e) ==> is_refusal_of(e, example),
    {
        if is_blank(example.text.as_str()) {
            return Err(
                IntentError::InvalidParameter {
                    parameter: String::from_str("text"),
                    message: String::from_str("Training example text cannot be empty"),
                },
            );
        }
        if !is_unit_interval(example.confidence_bits) {
            return Err(
                IntentError::InvalidParameter {
                    parameter: String::from_str("confidence"),
                    message: String::from_str("Confidence must be between 0.0 and 1.0"),
                },
            );
        }
        let ghost old_ex = self.training_data@;
        patterns_append(&mut self.intent_patterns, example.intent.clone(), example.text.clone());
        update_vocabulary(
            &mut self.vocabulary,
            self.config.max_vocabulary_size,
            example.text.as_str(),
        );
        self.training_data.push(example);
        proof {
            lemma_texts_push(old_ex, example);
        }
        Ok(())
    }

    /// Whether enough feedback has accumulated to retrain.
    pub fn should_retrain(&self) -> (r: bool)
        ensures
            r == (feedback_count(self.examples()) >= self.configuration().retraining_threshold),
    {
        self.count_feedback() >= self.config.retraining_threshold
    }

    /// The number of examples that came from user feedback.
    fn count_feedback(&self) -> (r: usize)
        ensures
            r == feedback_count(self.examples()),
    {
        let mut n: usize = 0;
        let mut i: usize = 0;
        while i < self.training_data.len()
            invariant
                i <= self.training_data.len(),
                n == feedback_count(self.training_data@.take(i as int)),
                n <= i,
            decreases self.training_data.len() - i,
        {
            proof {
                assert(self.training_data@.take(i + 1).drop_last() =~= self.training_data@.take(i as int));
            }
            if self.training_data[i].source == TrainingSource::UserFeedback {
                n = n + 1;
            }
            i = i + 1;
        }
        proof {
            assert(self.training_data@.take(i as int) =~= self.training_data@);
        }
        n
    }

    /// Rebuilds the vocabulary from all training texts. Since the vocabulary
    /// is always what the training texts teach, the rebuilt one is the same.
    pub fn retrain(&mut self) -> (r: Result<(), IntentError>)
        requires
            old(self).wf(),
        ensures
            final(self).wf(),
            r is Ok,
            final(self).examples() == old(self).examples(),
            final(self).configuration() == old(self).configuration(),
            final(self).vocabulary() == old(self).vocabulary(),
            final(self).patterns() == old(self).patterns(),
    {
        let ghost texts = texts_of(self.training_data@);
        let ghost max = self.config.max_vocabulary_size as nat;
        let ghost before = *self;
        vocabulary_clear(&mut self.vocabulary);
        proof {
            assert(vocabulary_entries(self.vocabulary) =~= vocabulary_of(texts.take(0), max));
        }
        let mut i: usize = 0;
        while i < self.training_data.len()
            invariant
                i <= self.training_data.len(),
                texts == texts_of(self.training_data@),
                max == self.config.max_vocabulary_size as nat,
                self.training_data == before.training_data,
                self.intent_patterns == before.intent_patterns,
                self.config == before.config,
                vocabulary_entries(self.vocabulary) == vocabulary_of(texts.take(i as int), max),
            decreases self.training_data.len() - i,
        {
            proof {
                assert(texts.take(i + 1).drop_last() =~= texts.take(i as int));
            }
            update_vocabulary(
                &mut self.vocabulary,
                self.config.max_vocabulary_size,
                self.training_data[i].text.as_str(),
            );
            i = i + 1;
        }
        proof {
            assert(texts.take(i as int) =~= texts);
        }
        Ok(())
    }

    /// Records user feedback as a training example from `UserFeedback` with
    /// the given confidence (`f64` bits), then retrains when enough feedback
    /// has accumulated. Validation is that of `add_training_example`.
    pub fn add_feedback(&mut self, text: String, actual_intent: IntentId, confidence_bits: u64) -> (r: Result<(), IntentError>)
        requires
            old(self).wf(),
        ensures
            final(self).wf(),
            final(self).configuration() == old(self).configuration(),
            ({
                let e = TrainingExample {
                    text,
                    intent: actual_intent,
                    confidence_bits,
                    source: TrainingSource::UserFeedback,
                };
                &&& r is Ok <==> is_valid_example(e)
                &&& r is Ok ==> final(self).examples() == old(self).examples().push(e)
                &&& r is Err ==> final(self).examples() == old(self).examples()
                &&& r matches Err(err) ==> is_refusal_of(err, e)
            }),
    {
        let example = TrainingExample {
            text,
            intent: actual_intent,
            confidence_bits,
            source: TrainingSource::UserFeedback,
        };
        self.add_training_example(example)?;
        if self.should_retrain() {
            self.retrain()?;
        }
        Ok(())
    }

    /// Creates a classifier with the given configuration and teaches it the
    /// bootstrap examples.
    pub fn with_config(config: ClassifierConfig) -> (r: Result<IntentClassifier, IntentError>)
        ensures
            match r {
                Ok(c) => {
                    &&& c.wf()
                    &&& c.configuration() == config
                    &&& extends_with_bootstrap(Seq::empty(), c.examples())
                },
                Err(_) => false,
            },
    {
        let mut classifier = IntentClassifier {
            training_data: Vec::new(),
            vocabulary: empty_vocabulary(fresh_random_state()),
            intent_patterns: empty_patterns(fresh_random_state()),
            config,
        };
        proof {
            assert(classifier.vocabulary() =~= Map::empty());
            assert(classifier.patterns() =~= Map::empty());
            assert(classifier.examples() =~= Seq::empty());
        }
        classifier.load_bootstrap_data()?;
        Ok(classifier)
    }

    /// Creates a classifier with the default configuration and the bootstrap
    /// examples.
    pub fn new() -> (r: Result<IntentClassifier, IntentError>)
        ensures
            match r {
                Ok(c) => {
                    &&& c.wf()
                    &&& c.configuration().feature_dimensions == 1000
                    &&& c.configuration().max_vocabulary_size == 10000
                    &&& c.configuration().min_confidence_threshold_bits == POINT_THREE_BITS
                    &&& c.configuration().retraining_threshold == 10
                    &&& !c.configuration().debug_mode
                    &&& extends_with_bootstrap(Seq::empty(), c.examples())
                },
                Err(_) => false,
            },
    {
        Self::with_config(ClassifierConfig::default())
    }

    /// Teaches the bootstrap examples, in table order.
    fn load_bootstrap_data(&mut self) -> (r: Result<(), IntentError>)
        requires
            old(self).wf(),
        ensures
            final(self).wf(),
            r is Ok,
            final(self).configuration() == old(self).configuration(),
            extends_with_bootstrap(old(self).examples(), final(self).examples()),
    {
        let table = get_bootstrap_examples();
        let ghost before = self.examples();
        proof {
            lemma_bootstrap_texts_not_blank();
        }
        let mut i: usize = 0;
        while i < table.len()
            invariant
                self.wf(),
                self.configuration() == old(self).configuration(),
                before == old(self).examples(),
                table@.len() == BOOTSTRAP_SIZE,
                forall|k: int| 0 <= k < table@.len() ==> (#[trigger] table@[k]).0@ == bootstrap_table()[k].0 && table@[k].1@ == bootstrap_table()[k].1,
                forall|k: int| 0 <= k < bootstrap_table().len() ==> !is_blank_text(#[trigger] bootstrap_table()[k].0),
                i <= table@.len(),
                self.examples().len() == before.len() + i,
                self.examples().take(before.len() as int) == before,
                forall|k: int| 0 <= k < i ==> is_bootstrap_example(#[trigger] self.examples()[before.len() + k], bootstrap_table()[k]),
            decreases table.len() - i,
        {
            let (text, intent) = table[i];
            let example = TrainingExample {
                text: String::from_str(text),
                intent: IntentId(String::from_str(intent)),
                confidence_bits: ONE_BITS,
                source: TrainingSource::Bootstrap,
            };
            assert(is_valid_example(example));
            let ghost prev = self.examples();
            self.add_training_example(example)?;
            proof {
                assert(self.examples().take(before.len() as int) =~= prev.take(before.len() as int));
                assert forall|k: int| 0 <= k < i + 1 implies is_bootstrap_example(#[trigger] self.examples()[before.len() + k], bootstrap_table()[k]) by {
                    if k < i {
                        assert(self.examples()[before.len() + k] == prev[before.len() + k]);
                    }
                }
            }
            i = i + 1;
        }
        Ok(())
    }

    /// Forgets all training data, vocabulary and patterns, then teaches the
    /// bootstrap examples again.
    pub fn clear_training_data(&mut self) -> (r: Result<(), IntentError>)
        requires
            old(self).wf(),
        ensures
            final(self).wf(),
            r is Ok,
            final(self).configuration() == old(self).configuration(),
            extends_with_bootstrap(Seq::empty(), final(self).examples()),
    {
        self.training_data.clear();
        vocabulary_clear(&mut self.vocabulary);
        patterns_clear(&mut self.intent_patterns);
        proof {
            assert(self.vocabulary() =~= Map::empty());
            assert(self.patterns() =~= Map::empty());
            assert(self.examples() =~= Seq::empty());
        }
        self.load_bootstrap_data()
    }

    /// The configuration.
    pub fn config(&self) -> (r: ClassifierConfig)
        ensures
            r == self.configuration(),
    {
        self.config
    }

    /// The training examples, oldest first.
    pub fn training_examples(&self) -> (r: &Vec<TrainingExample>)
        ensures
            r@ == self.examples(),
    {
        &self.training_data
    }

    /// Adds imported examples in order, stopping at the first one that is
    /// refused; the examples before it stay added.
    pub fn import_training_data(&mut self, examples: Vec<TrainingExample>) -> (r: Result<(), IntentError>)
        requires
            old(self).wf(),
        ensures
            final(self).wf(),
            final(self).configuration() == old(self).configuration(),
            r is Ok <==> forall|i: int| 0 <= i < examples@.len() ==> is_valid_example(#[trigger] examples@[i]),
            r is Ok ==> final(self).examples() == old(self).examples() + examples@,
            r is Err ==> exists|j: int| {
                &&& 0 <= j < examples@.len()
                &&& !is_valid_example(#[trigger] examples@[j])
                &&& forall|i: int| 0 <= i < j ==> is_valid_example(#[trigger] examples@[i])
                &&& final(self).examples() == old(self).examples() + examples@.take(j)
                &&& r matches Err(e) ==> is_refusal_of(e, examples@[j])
            },
    {
        let ghost before = self.examples();
        let ghost all = examples@;
        let total = examples.len();
        let mut rest = examples;
        let mut taken: usize = 0;
        while rest.len() > 0
            invariant
                self.wf(),
                self.configuration() == old(self).configuration(),
                before == old(self).examples(),
                taken + rest@.len() == all.len(),
                rest@ == all.skip(taken as int),
                all == examples@,
                all.len() == total,
                forall|i: int| 0 <= i < taken ==> is_valid_example(#[trigger] all[i]),
                self.examples() == before + all.take(taken as int),
            decreases rest@.len(),
        {
            let example = rest.remove(0);
            assert(example == all[taken as int]);
            assert(rest@ =~= all.skip(taken + 1));
            let ghost prev = self.examples();
            match self.add_training_example(example) {
                Ok(()) => {
                    assert(all.take(taken + 1) =~= all.take(taken as int).push(all[taken as int]));
                    assert(self.examples() =~= before + all.take(taken + 1));
                    taken = taken + 1;
                },
                Err(e) => {
                    assert(!is_valid_example(all[taken as int]));
                    return Err(e);
                },
            }
        }
        assert(all.take(taken as int) =~= all);
        Ok(())
    }

    /// The normal form of a query (see `preprocess_text`).
    pub fn test_preprocess_text(&self, text: &str) -> (r: String)
        ensures
            r@ == normalized_text(text@),
            is_normal_form(r@),
    {
        preprocess_text(text)
    }

    /// Statistics: numbers of examples, words, intents and feedback examples.
    pub fn get_stats(&self) -> (r: ClassifierStats)
        ensures
            r.training_examples == self.examples().len(),
            r.vocabulary_size == self.vocabulary().dom().len(),
            r.intent_count == self.patterns().dom().len(),
            r.feedback_examples == feedback_count(self.examples()),
    {
        ClassifierStats {
            training_examples: self.training_data.len(),
            vocabulary_size: vocabulary_len(&self.vocabulary),
            intent_count: patterns_len(&self.intent_patterns),
            feedback_examples: self.count_feedback(),
        }
    }

    /// Some training example has exactly this text.
    pub open spec fn has_exact_match(&self, text: Seq<char>) -> bool {
        exists|i: int| 0 <= i < self.examples().len() && (#[trigger] self.examples()[i]).text@ == text
    }

    /// `p` is the exact-match prediction for `text`: the intent and
    /// confidence of the first example with that text, no alternatives.
    pub open spec fn is_exact_prediction(&self, text: Seq<char>, p: IntentPrediction) -> bool {
        &&& exists|i: int| {
            &&& 0 <= i < self.examples().len()
            &&& (#[trigger] self.examples()[i]).text@ == text
            &&& forall|j: int| 0 <= j < i ==> (#[trigger] self.examples()[j]).text@ != text
            &&& p.intent == self.examples()[i].intent
            &&& p.confidence_bits == confidence_or_default(self.examples()[i].confidence_bits)
        }
        &&& p.alternative_intents@.len() == 0
        &&& p.reasoning@ == "Exact match found in training data"@
    }

    /// `p` is the prediction ranked from `scores`: completed by the
    /// fallback, the best intent predicted, the others ranked as
    /// alternatives, with the reasoning for the best intent.
    pub open spec fn is_ranked_prediction(&self, scores: Seq<(IntentId, u64)>, p: IntentPrediction) -> bool {
        exists|c: Seq<(IntentId, u64)>| {
            &&& #[trigger] is_completion(scores, self.configuration().min_confidence_threshold_bits, c)
            &&& c.len() > 0
            &&& p.intent == c[best_index(c)].0
            &&& p.confidence_bits == confidence_or_default(c[best_index(c)].1)
            &&& p.alternative_intents@ == ranked_alternatives(c, p.intent@)
            &&& p.reasoning@ == self.reasoning_for(p.intent@)
        }
    }

    /// The prediction for `text`: a training example with exactly that text
    /// wins (the first such one); otherwise the scores of the known intents
    /// are ranked as `predict_from_scores` does.
    pub fn predict_intent(&self, text: &str, scores: Vec<(IntentId, u64)>) -> (r: Result<IntentPrediction, IntentError>)
        ensures
            match r {
                Ok(p) => if self.has_exact_match(text@) {
                    self.is_exact_prediction(text@, p)
                } else {
                    self.is_ranked_prediction(scores@, p)
                },
                Err(_) => false,
            },
    {
        match self.find_exact_match(text) {
            Some(p) => Ok(p),
            None => self.predict_from_scores(scores),
        }
    }

    /// The prediction for a text that some training example has verbatim:
    /// the first such example's intent and confidence, no alternatives.
    pub fn find_exact_match(&self, text: &str) -> (r: Option<IntentPrediction>)
        ensures
            match r {
                None => forall|i: int| 0 <= i < self.examples().len() ==> (#[trigger] self.examples()[i]).text@ != text@,
                Some(p) => exists|i: int| {
                    &&& 0 <= i < self.examples().len()
                    &&& (#[trigger] self.examples()[i]).text@ == text@
                    &&& forall|j: int| 0 <= j < i ==> (#[trigger] self.examples()[j]).text@ != text@
                    &&& p.intent == self.examples()[i].intent
                    &&& p.confidence_bits == confidence_or_default(self.examples()[i].confidence_bits)
                },
            },
            r matches Some(p) ==> p.alternative_intents@.len() == 0 && p.reasoning@
                == "Exact match found in training data"@,
    {
        let query = String::from_str(text);
        let mut i: usize = 0;
        while i < self.training_data.len()
            invariant
                query@ == text@,
                i <= self.training_data.len(),
                forall|j: int| 0 <= j < i ==> (#[trigger] self.training_data@[j]).text@ != text@,
            decreases self.training_data.len() - i,
        {
            if self.training_data[i].text == query {
                let bits = self.training_data[i].confidence_bits;
                let confidence = if is_unit_interval(bits) {
                    bits
                } else {
                    ONE_BITS
                };
                let p = IntentPrediction {
                    intent: self.training_data[i].intent.clone(),
                    confidence_bits: confidence,
                    alternative_intents: Vec::new(),
                    reasoning: String::from_str("Exact match found in training data"),
                };
                assert(self.training_data@[i as int].text@ == text@);
                return Some(p);
            }
            i = i + 1;
        }
        None
    }

    /// The reasoning given for predicting `intent`.
    pub open spec fn reasoning_for(&self, intent: Seq<char>) -> Seq<char> {
        reasoning_text(
            intent,
            if self.patterns().contains_key(intent) && self.patterns()[intent].len() > 0 {
                Some(self.patterns()[intent][0])
            } else {
                None
            },
            self.configuration().feature_dimensions as nat,
        )
    }

    /// The feature indices of the words of `text` that the vocabulary knows
    /// and that fall below `feature_dimensions`, in word order, with the
    /// number of words. Each index counts once per occurrence of its word.
    pub fn text_feature_indices(&self, text: &str) -> (r: (Vec<usize>, usize))
        ensures
            r.0@ == feature_indices(
                words(text@),
                self.vocabulary(),
                self.configuration().feature_dimensions as nat,
            ),
            r.1 == words(text@).len(),
    {
        let ws = split_words(text);
        let ghost w = words(text@);
        let dims = self.config.feature_dimensions;
        let mut out: Vec<usize> = Vec::new();
        let mut i: usize = 0;
        while i < ws.len()
            invariant
                strings_view(ws@) == w,
                dims == self.configuration().feature_dimensions,
                i <= ws.len(),
                out@ == feature_indices(w.take(i as int), self.vocabulary(), dims as nat),
            decreases ws.len() - i,
        {
            proof {
                assert(w.take(i + 1).drop_last() =~= w.take(i as int));
            }
            match vocabulary_get(&self.vocabulary, ws[i].as_str()) {
                Some(index) => {
                    if index < dims {
                        out.push(index);
                    }
                },
                None => {},
            }
            i = i + 1;
        }
        proof {
            assert(w.take(ws.len() as int) =~= w);
        }
        (out, ws.len())
    }

    /// The context of a normalized query: byte length, word count, and
    /// whether it holds '?', "file" and "data". It depends on the text alone.
    pub fn extract_context_features(text: &str) -> (r: ContextSignals)
        ensures
            r.byte_length == text.spec_bytes().len() as usize,
            r.word_count == words(text@).len(),
            r.has_question_mark == has_substring(text@, "?"@),
            r.mentions_file == has_substring(text@, "file"@),
            r.mentions_data == has_substring(text@, "data"@),
    {
        ContextSignals {
            byte_length: text.len(),
            word_count: split_words(text).len(),
            has_question_mark: contains_text(text, "?"),
            mentions_file: contains_text(text, "file"),
            mentions_data: contains_text(text, "data"),
        }
    }

    /// How many boosts of `0.1` an intent earns from the query's context:
    /// one if its name holds "file" and the query mentions "file", one if
    /// its name holds "data" and the query mentions "data".
    pub fn calculate_context_boost(&self, intent: &IntentId, signals: &ContextSignals) -> (r: u32)
        ensures
            r == (if has_substring(intent@, "file"@) && signals.mentions_file {
                1u32
            } else {
                0u32
            }) + (if has_substring(intent@, "data"@) && signals.mentions_data {
                1u32
            } else {
                0u32
            }),
    {
        let mut boosts: u32 = 0;
        if contains_text(intent.as_text(), "file") && signals.mentions_file {
            boosts = boosts + 1;
        }
        if contains_text(intent.as_text(), "data") && signals.mentions_data {
            boosts = boosts + 1;
        }
        boosts
    }

    /// Every intent with its recorded texts. Each intent comes exactly
    /// once; the order is the map's and is not stated.
    pub fn intent_pattern_list(&self) -> (r: Vec<(IntentId, Vec<String>)>)
        ensures
            r@.len() == self.patterns().dom().len(),
            forall|i: int|
                0 <= i < r@.len() ==> self.patterns().contains_key(#[trigger] r@[i].0@)
                    && strings_view(r@[i].1@) == self.patterns()[r@[i].0@],
            forall|i: int, j: int| 0 <= i < j < r@.len() ==> r@[i].0@ != r@[j].0@,
            forall|k: Seq<char>|
                self.patterns().contains_key(k) ==> exists|i: int| 0 <= i < r@.len() && #[trigger] r@[i].0@ == k,
    {
        patterns_snapshot(&self.intent_patterns)
    }

    /// The scores of the rule-based fallback: `general_processing` at `0.5`.
    pub fn rule_based_classification(&self) -> (r: Vec<(IntentId, u64)>)
        ensures
            r@.len() == 1,
            r@[0].0@ == "general_processing"@,
            r@[0].1 == HALF_BITS,
    {
        let mut scores: Vec<(IntentId, u64)> = Vec::new();
        scores.push((IntentId(String::from_str("general_processing")), HALF_BITS));
        scores
    }

    /// Completes the scores of the known intents: when every one lies below
    /// the configured threshold (or there is none), the rule-based fallback
    /// scores are added for intents that have no score yet.
    pub fn apply_rule_based_fallback(&self, scores: Vec<(IntentId, u64)>) -> (r: Vec<(IntentId, u64)>)
        ensures
            is_completion(scores@, self.configuration().min_confidence_threshold_bits, r@),
            ((forall|i: int| 0 <= i < scores@.len() ==> score_below(#[trigger] scores@[i].1, self.configuration().min_confidence_threshold_bits))
                && (forall|i: int| 0 <= i < scores@.len() ==> (#[trigger] scores@[i]).0@ != "general_processing"@)) ==> {
                &&& r@.len() == scores@.len() + 1
                &&& r@.drop_last() == scores@
                &&& r@[scores@.len() as int].0@ == "general_processing"@
                &&& r@[scores@.len() as int].1 == HALF_BITS
            },
            !((forall|i: int| 0 <= i < scores@.len() ==> score_below(#[trigger] scores@[i].1, self.configuration().min_confidence_threshold_bits))
                && (forall|i: int| 0 <= i < scores@.len() ==> (#[trigger] scores@[i]).0@ != "general_processing"@)) ==> r@ == scores@,
    {
        let ghost s0 = scores@;
        let mut scores = scores;
        if scores_all_below(&scores, self.config.min_confidence_threshold_bits) {
            let fallback = self.rule_based_classification();
            let (intent, score) = (fallback[0].0.clone(), fallback[0].1);
            if !scores_have_intent(&scores, &intent) {
                scores.push((intent, score));
                assert(scores@.drop_last() =~= s0);
            }
        }
        proof {
            lemma_fallback_follows_threshold(s0, self.config.min_confidence_threshold_bits, scores@);
        }
        scores
    }

    /// The intent with the best score, as `max_by` over the scores finds it
    /// (the last of equal scores), with its score as a confidence (the
    /// default `1.0` when it lies outside `0.0..=1.0`). No scores is an error.
    pub fn find_best_intent(&self, scores: &Vec<(IntentId, u64)>) -> (r: Result<(IntentId, u64), IntentError>)
        ensures
            match r {
                Ok((intent, confidence)) => {
                    &&& scores@.len() > 0
                    &&& intent == scores@[best_index(scores@)].0
                    &&& confidence == confidence_or_default(scores@[best_index(scores@)].1)
                },
                Err(e) => scores@.len() == 0 && (e matches IntentError::ClassificationFailed(m)
                    && m@ == "No intents found"@),
            },
    {
        if scores.len() == 0 {
            return Err(IntentError::ClassificationFailed(String::from_str("No intents found")));
        }
        let m = best_score_index(scores);
        let score = scores[m].1;
        let confidence = if is_unit_interval(score) {
            score
        } else {
            ONE_BITS
        };
        Ok((scores[m].0.clone(), confidence))
    }

    /// The alternatives to `best_intent`: the other intents whose score is
    /// a valid confidence, best first (ties in their given order), at most
    /// three.
    pub fn get_alternative_intents(&self, scores: &Vec<(IntentId, u64)>, best_intent: &IntentId) -> (r: Vec<(IntentId, u64)>)
        ensures
            r@ == ranked_alternatives(scores@, best_intent@),
            r@.len() == if scores@.filter(offerable(best_intent@)).len() < MAX_ALTERNATIVES {
                scores@.filter(offerable(best_intent@)).len()
            } else {
                MAX_ALTERNATIVES as nat
            },
            forall|i: int, j: int| 0 <= i < j < r@.len() ==> order_key(#[trigger] r@[i].1) >= order_key(#[trigger] r@[j].1),
            forall|i: int|
                0 <= i < r@.len() ==> (#[trigger] r@[i]).0@ != best_intent@ && in_unit_interval(r@[i].1)
                    && scores@.contains(r@[i]),
            forall|i: int|
                #![trigger scores@[i]]
                0 <= i < scores@.len() && scores@[i].0@ != best_intent@ && in_unit_interval(scores@[i].1) && (r@.len()
                    < MAX_ALTERNATIVES || order_key(scores@[i].1) > order_key(r@[r@.len() - 1].1)) ==> r@.contains(scores@[i]),
            r@.to_multiset().subset_of(scores@.filter(offerable(best_intent@)).to_multiset()),
    {
        let r = top_three(candidates_for(scores, best_intent));
        proof {
            lemma_alternatives_ranked(scores@, best_intent@);
            lemma_alternatives_complete(scores@, best_intent@);
        }
        r
    }

    /// The reasoning for a prediction: the first pattern of the intent and
    /// the number of text features, or the rule-based wording for an
    /// intent without patterns.
    pub fn generate_reasoning(&self, intent: &IntentId) -> (r: String)
        ensures
            r@ == self.reasoning_for(intent@),
    {
        let mut s = String::from_str("Classified as '");
        s.append(intent.as_text());
        match patterns_get(&self.intent_patterns, intent) {
            Some(patterns) => {
                if patterns.len() > 0 {
                    s.append("' based on similarity to pattern: '");
                    s.append(patterns[0].as_str());
                    s.append("' (using ");
                    let n = decimal_text(self.config.feature_dimensions);
                    s.append(n.as_str());
                    s.append(" text features)");
                    return s;
                }
            },
            None => {},
        }
        s.append("' using rule-based analysis");
        s
    }

    /// The prediction from the scores of the known intents: the fallback
    /// completes them, the best one is predicted, the others ranked as
    /// alternatives, and the reasoning given.
    pub fn predict_from_scores(&self, scores: Vec<(IntentId, u64)>) -> (r: Result<IntentPrediction, IntentError>)
        ensures
            match r {
                Ok(p) => exists|c: Seq<(IntentId, u64)>| {
                    &&& #[trigger] is_completion(scores@, self.configuration().min_confidence_threshold_bits, c)
                    &&& c.len() > 0
                    &&& p.intent == c[best_index(c)].0
                    &&& p.confidence_bits == confidence_or_default(c[best_index(c)].1)
                    &&& p.alternative_intents@ == ranked_alternatives(c, p.intent@)
                    &&& p.reasoning@ == self.reasoning_for(p.intent@)
                },
                Err(_) => false,
            },
    {
        let completed = self.apply_rule_based_fallback(scores);
        let (intent, confidence) = self.find_best_intent(&completed)?;
        let alternatives = self.get_alternative_intents(&completed, &intent);
        let reasoning = self.generate_reasoning(&intent);
        Ok(IntentPrediction {
            intent,
            confidence_bits: confidence,
            alternative_intents: alternatives,
            reasoning,
        })
    }
}

/// `completed` is `scores` completed by the rule-based fallback under the
/// threshold: when all scores lie below it and no entry names
/// `general_processing`, that intent is appended at `0.5`; otherwise the
/// scores stay as they are.
pub open spec fn is_completion(scores: Seq<(IntentId, u64)>, threshold: u64, completed: Seq<(IntentId, u64)>) -> bool {
    if all_below(scores, threshold) && !has_intent(scores, "general_processing"@) {
        &&& completed.len() == scores.len() + 1
        &&& completed.drop_last() == scores
        &&& completed.last().0@ == "general_processing"@
        &&& completed.last().1 == HALF_BITS
    } else {
        completed == scores
    }
}

/// The feature indices of the known words among `ws` whose index is below
/// `dims`, in order.
pub open spec fn feature_indices(ws: Seq<Seq<char>>, vocab: Map<Seq<char>, usize>, dims: nat) -> Seq<usize>
    decreases ws.len(),
{
    if ws.len() == 0 {
        Seq::empty()
    } else {
        let r = feature_indices(ws.drop_last(), vocab, dims);
        let w = ws.last();
        if vocab.contains_key(w) && vocab[w] < dims {
            r.push(vocab[w])
        } else {
            r
        }
    }
}

/// The reasoning text: with a pattern, the intent, the pattern and the
/// number of text features; without one, the rule-based wording.
pub open spec fn reasoning_text(intent: Seq<char>, pattern: Option<Seq<char>>, features: nat) -> Seq<char> {
    match pattern {
        Some(p) => "Classified as '"@ + intent + "' based on similarity to pattern: '"@ + p
            + "' (using "@ + decimal_digits(features) + " text features)"@,
        None => "Classified as '"@ + intent + "' using rule-based analysis"@,
    }
}

impl Default for IntentClassifier {
    /// A classifier with the default configuration and no training data at
    /// all (not even the bootstrap examples).
    fn default() -> (r: IntentClassifier)
        ensures
            r.wf(),
            r.examples().len() == 0,
            r.configuration().feature_dimensions == 1000,
            r.configuration().max_vocabulary_size == 10000,
            r.configuration().min_confidence_threshold_bits == POINT_THREE_BITS,
            r.configuration().retraining_threshold == 10,
            !r.configuration().debug_mode,
    {
        let c = IntentClassifier {
            training_data: Vec::new(),
            vocabulary: empty_vocabulary(fresh_random_state()),
            intent_patterns: empty_patterns(fresh_random_state()),
            config: ClassifierConfig::default(),
        };
        proof {
            assert(c.vocabulary() =~= Map::empty());
            assert(c.patterns() =~= Map::empty());
            assert(c.examples() =~= Seq::empty());
        }
        c
    }
}

/// A prediction shaped by a request's options: alternatives dropped unless
/// asked for, reasoning emptied unless asked for.
pub fn apply_request_options(prediction: IntentPrediction, request: &ClassificationRequest) -> (r: IntentPrediction)
    ensures
        r.intent == prediction.intent,
        r.confidence_bits == prediction.confidence_bits,
        r.alternative_intents@ == (if request.include_alternatives {
            prediction.alternative_intents@
        } else {
            Seq::empty()
        }),
        r.reasoning@ == (if request.include_reasoning {
            prediction.reasoning@
        } else {
            Seq::empty()
        }),
{
    let mut p = prediction;
    if !request.include_alternatives {
        p.alternative_intents.clear();
    }
    if !request.include_reasoning {
        p.reasoning = String::new();
    }
    p
}

} // verus!
