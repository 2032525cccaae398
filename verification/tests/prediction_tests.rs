//! Scenarios of text handling, score comparison and ranking.

use intent_classifier::bootstrap::get_bootstrap_examples;
use intent_classifier::classifier::{apply_request_options, IntentClassifier};
use intent_classifier::scores::{
    compare, is_below, is_high_confidence, is_low_confidence, is_medium_confidence, is_nan,
    is_unit_interval, score_key, ScoreOrder,
};
use intent_classifier::text::{contains_text, decimal_text, is_blank, preprocess_text, split_words};
use intent_classifier::types::{
    ClassificationRequest, ClassifierConfig, IntentError, IntentId, IntentPrediction,
    TrainingExample, TrainingSource,
};

fn bits(x: f64) -> u64 {
    x.to_bits()
}

fn id(s: &str) -> IntentId {
    IntentId(s.to_string())
}

fn scored(pairs: &[(&str, f64)]) -> Vec<(IntentId, u64)> {
    pairs.iter().map(|(n, s)| (id(n), bits(*s))).collect()
}

fn names(v: &[(IntentId, u64)]) -> Vec<String> {
    v.iter().map(|(i, _)| i.0.clone()).collect()
}

#[test]
fn preprocessing_ignores_case_and_punctuation() {
    let classifier = IntentClassifier::default();
    assert_eq!(classifier.test_preprocess_text("MERGE FILES"), "merge files");
    assert_eq!(classifier.test_preprocess_text("merge files"), "merge files");
    assert_eq!(classifier.test_preprocess_text("MeRgE fIlEs"), "merge files");
    assert_eq!(classifier.test_preprocess_text("merge!!! @#$ files???"), "merge files");
}

#[test]
fn preprocessing_keeps_unicode_letters_and_collapses_whitespace() {
    assert_eq!(preprocess_text("  Analyze 这些\tDONNÉES\u{3000}с   данными!  "), "analyze 这些 données с данными");
    assert_eq!(preprocess_text("!@#$%^&*()_+-=[]{}|;':\",./<>?"), "");
    assert_eq!(preprocess_text(""), "");
    assert_eq!(preprocess_text("   \t\n   "), "");
    assert_eq!(preprocess_text("Merge 123 files_with-special.chars ✨"), "merge 123 fileswithspecialchars");
    assert_eq!(preprocess_text("ΣΑΣ"), "σας");
}

#[test]
fn splitting_a_normalized_query_gives_back_its_words() {
    for raw in ["Hello,   WORLD  again", " a\u{2003}b\u{85}c ", "x", "", "?? ??"] {
        let normalized = preprocess_text(raw);
        let words = split_words(&normalized);
        assert_eq!(words.join(" "), normalized);
        assert!(words.iter().all(|w| !w.is_empty()));
    }
}

#[test]
fn split_words_follows_split_whitespace() {
    for s in ["", "  ", "a", " a  b\tc\n", "\u{a0}x\u{1680}y\u{2028}", "αβ γ", "a\u{200b}b"] {
        let expected: Vec<String> = s.split_whitespace().map(|w| w.to_string()).collect();
        assert_eq!(split_words(s), expected);
    }
}

#[test]
fn blank_texts_are_all_whitespace() {
    assert!(is_blank(""));
    assert!(is_blank(" \t\n\r\u{b}\u{c}\u{85}\u{a0}\u{1680}\u{2000}\u{200a}\u{2028}\u{2029}\u{202f}\u{205f}\u{3000}"));
    assert!(!is_blank("  x "));
    assert!(!is_blank("\u{200b}"));
    for c in ['\u{0}', 'a', '\u{180e}', '\u{feff}', '\u{200b}', ' ', '\u{3000}'] {
        let s = c.to_string();
        assert_eq!(is_blank(&s), s.trim().is_empty());
    }
}

#[test]
fn substring_tests() {
    assert!(contains_text("profile data", "file"));
    assert!(contains_text("data", "data"));
    assert!(!contains_text("dat", "data"));
    assert!(contains_text("anything", ""));
    assert!(contains_text("why?", "?"));
    assert!(!contains_text("fi le", "file"));
}

#[test]
fn decimal_rendering() {
    for n in [0usize, 7, 10, 99, 1000, 10000, 123456789, usize::MAX] {
        assert_eq!(decimal_text(n), n.to_string());
    }
}

#[test]
fn nan_and_order_keys_follow_f64() {
    let values = [
        f64::NEG_INFINITY, -1e300, -1.5, -0.1, -f64::MIN_POSITIVE, -0.0, 0.0, 1e-320, 0.1, 0.3, 0.5,
        0.8, 1.0, 1.0000000000000002, 2.0, f64::MAX, f64::INFINITY,
    ];
    for a in values {
        assert!(!is_nan(bits(a)));
        for b in values {
            let expected = match a.partial_cmp(&b).unwrap() {
                std::cmp::Ordering::Less => ScoreOrder::Less,
                std::cmp::Ordering::Equal => ScoreOrder::Equal,
                std::cmp::Ordering::Greater => ScoreOrder::Greater,
            };
            assert_eq!(compare(bits(a), bits(b)), expected);
            assert_eq!(is_below(bits(a), bits(b)), a < b);
        }
        assert_eq!(is_unit_interval(bits(a)), (0.0..=1.0).contains(&a));
        assert_eq!(is_high_confidence(bits(a)), a >= 0.8);
        assert_eq!(is_medium_confidence(bits(a)), a >= 0.5 && a < 0.8);
        assert_eq!(is_low_confidence(bits(a)), a < 0.5);
    }
    for nan in [f64::NAN, -f64::NAN, f64::from_bits(0x7ff0_0000_0000_0001)] {
        assert!(is_nan(bits(nan)));
        assert_eq!(compare(bits(nan), bits(1.0)), ScoreOrder::Equal);
        assert!(!is_below(bits(nan), bits(1.0)));
        assert!(!is_unit_interval(bits(nan)));
        assert!(!is_high_confidence(bits(nan)) && !is_medium_confidence(bits(nan)) && !is_low_confidence(bits(nan)));
    }
    assert_eq!(score_key(bits(0.0)), score_key(bits(-0.0)));
}

#[test]
fn best_intent_is_the_last_of_the_highest() {
    let classifier = IntentClassifier::default();
    let s = scored(&[("a", 0.4), ("b", 0.9), ("c", 0.2), ("d", 0.9), ("e", 0.1)]);
    let (best, confidence) = classifier.find_best_intent(&s).unwrap();
    assert_eq!(best.0, "d");
    assert_eq!(confidence, bits(0.9));
    match classifier.find_best_intent(&Vec::new()) {
        Err(IntentError::ClassificationFailed(m)) => assert_eq!(m, "No intents found"),
        other => panic!("unexpected {:?}", other),
    }
    // A score outside 0.0..=1.0 is reported with the default confidence 1.0.
    let (best, confidence) = classifier.find_best_intent(&scored(&[("x", 1.2), ("y", 0.3)])).unwrap();
    assert_eq!(best.0, "x");
    assert_eq!(confidence, bits(1.0));
}

#[test]
fn alternatives_are_the_top_three_others_best_first() {
    let classifier = IntentClassifier::default();
    let s = scored(&[("a", 0.4), ("b", 0.9), ("c", 0.4), ("d", 0.7), ("e", 1.5), ("f", 0.4), ("g", 0.1)]);
    let alternatives = classifier.get_alternative_intents(&s, &id("d"));
    assert_eq!(names(&alternatives), vec!["b", "a", "c"]);
    assert_eq!(alternatives[0].1, bits(0.9));
    for w in alternatives.windows(2) {
        assert!(f64::from_bits(w[0].1) >= f64::from_bits(w[1].1));
    }
    let few = classifier.get_alternative_intents(&scored(&[("a", 0.2), ("b", 0.3)]), &id("b"));
    assert_eq!(names(&few), vec!["a"]);
    assert!(classifier.get_alternative_intents(&Vec::new(), &id("b")).is_empty());
}

#[test]
fn fallback_applies_only_when_every_score_is_below_threshold() {
    let classifier = IntentClassifier::default();
    let low = classifier.apply_rule_based_fallback(scored(&[("a", 0.1), ("b", 0.29)]));
    assert_eq!(names(&low), vec!["a", "b", "general_processing"]);
    assert_eq!(low[2].1, bits(0.5));
    let high = classifier.apply_rule_based_fallback(scored(&[("a", 0.1), ("b", 0.3)]));
    assert_eq!(names(&high), vec!["a", "b"]);
    let empty = classifier.apply_rule_based_fallback(Vec::new());
    assert_eq!(names(&empty), vec!["general_processing"]);
    let present = classifier.apply_rule_based_fallback(scored(&[("general_processing", 0.0)]));
    assert_eq!(present.len(), 1);
    assert_eq!(present[0].1, bits(0.0));
    let rule = classifier.rule_based_classification();
    assert_eq!(names(&rule), vec!["general_processing"]);
}

#[test]
fn prediction_from_scores_with_fallback_and_reasoning() {
    let classifier = IntentClassifier::new().unwrap();
    let p = classifier.predict_from_scores(Vec::new()).unwrap();
    assert_eq!(p.intent.0, "general_processing");
    assert_eq!(p.confidence_bits, bits(0.5));
    assert!(p.alternative_intents.is_empty());
    assert_eq!(p.reasoning, "Classified as 'general_processing' using rule-based analysis");

    let p = classifier
        .predict_from_scores(scored(&[("file_write", 0.6), ("data_merge", 0.8), ("file_read", 0.7)]))
        .unwrap();
    assert_eq!(p.intent.0, "data_merge");
    assert_eq!(names(&p.alternative_intents), vec!["file_read", "file_write"]);
    assert_eq!(
        p.reasoning,
        "Classified as 'data_merge' based on similarity to pattern: 'merge these JSON files together' (using 1000 text features)"
    );
}

#[test]
fn reasoning_counts_the_configured_features() {
    let config = ClassifierConfig { feature_dimensions: 7, ..Default::default() };
    let classifier = IntentClassifier::with_config(config).unwrap();
    assert_eq!(
        classifier.generate_reasoning(&id("network_monitor")),
        "Classified as 'network_monitor' based on similarity to pattern: 'check if this website is up' (using 7 text features)"
    );
    assert_eq!(
        classifier.generate_reasoning(&id("unknown")),
        "Classified as 'unknown' using rule-based analysis"
    );
}

#[test]
fn context_features_and_boosts() {
    let classifier = IntentClassifier::default();
    let signals = IntentClassifier::extract_context_features("is the data file ok?");
    assert_eq!(signals.byte_length, 20);
    assert_eq!(signals.word_count, 5);
    assert!(signals.has_question_mark && signals.mentions_file && signals.mentions_data);
    let unicode = IntentClassifier::extract_context_features("données é");
    assert_eq!(unicode.byte_length, "données é".len());
    assert!(!unicode.mentions_data && !unicode.has_question_mark);
    assert_eq!(classifier.calculate_context_boost(&id("file_data_merge"), &signals), 2);
    assert_eq!(classifier.calculate_context_boost(&id("data_merge"), &signals), 1);
    assert_eq!(classifier.calculate_context_boost(&id("network_request"), &signals), 0);
    assert_eq!(classifier.calculate_context_boost(&id("file_read"), &unicode), 0);
}

#[test]
fn request_options_drop_alternatives_and_reasoning() {
    let prediction = IntentPrediction {
        intent: id("x"),
        confidence_bits: bits(0.7),
        alternative_intents: scored(&[("y", 0.5)]),
        reasoning: "because".to_string(),
    };
    let keep = ClassificationRequest {
        text: "t".to_string(),
        context: None,
        include_alternatives: true,
        include_reasoning: true,
    };
    let kept = apply_request_options(prediction.clone(), &keep);
    assert_eq!(kept.alternative_intents.len(), 1);
    assert_eq!(kept.reasoning, "because");
    let drop = ClassificationRequest { include_alternatives: false, include_reasoning: false, ..keep };
    let dropped = apply_request_options(prediction, &drop);
    assert!(dropped.alternative_intents.is_empty());
    assert!(dropped.reasoning.is_empty());
    assert_eq!(dropped.intent.0, "x");
    assert_eq!(dropped.confidence_bits, bits(0.7));
}

#[test]
fn bootstrap_table_is_complete() {
    let table = get_bootstrap_examples();
    assert_eq!(table.len(), 53);
    assert_eq!(table[0], ("merge these JSON files together", "data_merge"));
    assert_eq!(table[17], ("save this data to a file", "file_write"));
    assert_eq!(table[52], ("parse natural language", "text_process"));
}

#[test]
fn intent_ids_from_strings() {
    let a = IntentId::from("abc".to_string());
    assert_eq!(a.as_text(), "abc");
    assert_eq!(a.to_text(), "abc");
    assert!(a.same_as(&id("abc")));
    assert!(!a.same_as(&id("abd")));
    let e = TrainingExample { text: "t".to_string(), intent: a, confidence_bits: 0, source: TrainingSource::Bootstrap };
    assert_eq!(e.intent.0, "abc");
}

#[test]
fn empty_query_falls_back_to_general_processing() {
    let classifier = IntentClassifier::new().unwrap();
    assert!(classifier.find_exact_match("").is_none());
    let (indices, count) = classifier.text_feature_indices(&preprocess_text(""));
    assert!(indices.is_empty());
    assert_eq!(count, 0);
    // With no features every similarity is zero, and nothing earns a boost.
    let zero_scores: Vec<(IntentId, u64)> =
        classifier.intent_pattern_list().into_iter().map(|(intent, _)| (intent, bits(0.0))).collect();
    assert_eq!(zero_scores.len(), 17);
    let p = classifier.predict_from_scores(zero_scores).unwrap();
    assert_eq!(p.intent.0, "general_processing");
    assert_eq!(p.confidence_bits, bits(0.5));
    assert_eq!(p.alternative_intents.len(), 3);
    assert!(p.alternative_intents.iter().all(|(_, c)| *c == bits(0.0)));
}

#[test]
fn normalized_queries_have_single_inner_spaces_only() {
    for raw in ["  Hello,   WORLD  again ", "\u{3000}a\u{2003}\u{2003}b\u{85}c\t", "✨ x ✨", "", "ÉTÉ!! été"] {
        let r = preprocess_text(raw);
        assert!(!r.starts_with(' ') && !r.ends_with(' '));
        assert!(!r.contains("  "));
        assert!(r.chars().all(|c| c == ' ' || (c.is_alphanumeric() && !c.is_whitespace())));
    }
}
