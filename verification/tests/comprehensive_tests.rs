//! Scenarios of the classifier's training side, on the synchronous core.

use intent_classifier::classifier::IntentClassifier;
use intent_classifier::types::{
    ClassifierConfig, IntentError, IntentId, TrainingExample, TrainingSource,
};

fn bits(x: f64) -> u64 {
    x.to_bits()
}

fn example(text: &str, intent: &str, confidence: f64, source: TrainingSource) -> TrainingExample {
    TrainingExample {
        text: text.to_string(),
        intent: IntentId(intent.to_string()),
        confidence_bits: bits(confidence),
        source,
    }
}

fn config_with(
    feature_dimensions: usize,
    max_vocabulary_size: usize,
    min_confidence_threshold: f64,
    retraining_threshold: usize,
) -> ClassifierConfig {
    ClassifierConfig {
        feature_dimensions,
        max_vocabulary_size,
        min_confidence_threshold_bits: bits(min_confidence_threshold),
        retraining_threshold,
        debug_mode: false,
    }
}

#[test]
fn test_classifier_initialization() {
    let classifier = IntentClassifier::new().unwrap();
    let stats = classifier.get_stats();

    assert!(stats.training_examples > 0);
    assert!(stats.vocabulary_size > 0);
    assert!(stats.intent_count > 0);
    assert_eq!(stats.feedback_examples, 0);
}

#[test]
fn test_classifier_with_custom_config() {
    let config = ClassifierConfig {
        feature_dimensions: 500,
        max_vocabulary_size: 5000,
        min_confidence_threshold_bits: bits(0.2),
        retraining_threshold: 5,
        debug_mode: true,
    };

    let classifier = IntentClassifier::with_config(config).unwrap();
    let stats = classifier.get_stats();

    assert!(stats.training_examples > 0);
}

#[test]
fn test_training_example_validation() {
    let mut classifier = IntentClassifier::new().unwrap();

    let valid_example = example("valid text", "valid_intent", 0.8, TrainingSource::Programmatic);
    assert!(classifier.add_training_example(valid_example).is_ok());

    let empty_text_example = example("", "intent", 0.8, TrainingSource::Programmatic);
    assert!(classifier.add_training_example(empty_text_example).is_err());

    let whitespace_example = example("   \t\n   ", "intent", 0.8, TrainingSource::Programmatic);
    assert!(classifier.add_training_example(whitespace_example).is_err());

    let invalid_confidence_example = example("text", "intent", 1.5, TrainingSource::Programmatic);
    assert!(classifier.add_training_example(invalid_confidence_example).is_err());

    let negative_confidence_example = example("text", "intent", -0.1, TrainingSource::Programmatic);
    assert!(classifier.add_training_example(negative_confidence_example).is_err());
}

#[test]
fn test_feedback_system() {
    let mut classifier = IntentClassifier::new().unwrap();

    for score in [1.0f64, 2.5, 3.0, 4.5, 5.0] {
        let confidence = score / 5.0;
        let result = classifier.add_feedback(
            format!("test feedback {}", score),
            IntentId("actual".to_string()),
            bits(confidence),
        );
        assert!(result.is_ok());
    }

    let stats = classifier.get_stats();
    assert_eq!(stats.feedback_examples, 5);
}

#[test]
fn test_automatic_retraining() {
    let config = ClassifierConfig { retraining_threshold: 2, ..Default::default() };

    let mut classifier = IntentClassifier::with_config(config).unwrap();
    let initial_vocab_size = classifier.get_stats().vocabulary_size;

    for i in 0..3 {
        classifier
            .add_feedback(
                format!("unique_feedback_text_{}", i),
                IntentId("actual".to_string()),
                bits(5.0 / 5.0),
            )
            .unwrap();
    }

    let final_stats = classifier.get_stats();
    assert_eq!(final_stats.feedback_examples, 3);
    assert!(final_stats.vocabulary_size >= initial_vocab_size);
}

#[test]
fn test_clear_training_data() {
    let mut classifier = IntentClassifier::new().unwrap();

    let custom = example("custom example", "custom_intent", 0.9, TrainingSource::Programmatic);
    classifier.add_training_example(custom).unwrap();

    let stats_before = classifier.get_stats();

    classifier.clear_training_data().unwrap();

    let stats_after = classifier.get_stats();

    assert!(stats_after.training_examples > 0);
    assert!(stats_after.training_examples <= stats_before.training_examples);
    assert_eq!(stats_after.feedback_examples, 0);
}

#[test]
fn test_large_vocabulary() {
    let config = ClassifierConfig { max_vocabulary_size: 100, ..Default::default() };

    let mut classifier = IntentClassifier::with_config(config).unwrap();

    for i in 0..150 {
        let e = example(
            &format!("unique_word_{} another_unique_word_{}", i, i),
            "test_intent",
            0.8,
            TrainingSource::Programmatic,
        );
        classifier.add_training_example(e).unwrap();
    }

    let stats = classifier.get_stats();
    assert!(stats.vocabulary_size <= 100);
}

#[test]
fn test_config_defaults() {
    let config = ClassifierConfig::default();

    assert_eq!(config.feature_dimensions, 1000);
    assert_eq!(config.max_vocabulary_size, 10000);
    assert_eq!(f64::from_bits(config.min_confidence_threshold_bits), 0.3);
    assert_eq!(config.retraining_threshold, 10);
    assert!(!config.debug_mode);
}

#[test]
fn test_exact_match_priority() {
    let classifier = IntentClassifier::new().unwrap();

    let prediction = classifier.find_exact_match("merge these JSON files together").unwrap();
    assert_eq!(f64::from_bits(prediction.confidence_bits), 1.0);
    assert_eq!(prediction.reasoning, "Exact match found in training data");
    assert_eq!(prediction.intent.0, "data_merge");
}

#[test]
fn test_statistics_accuracy() {
    let mut classifier = IntentClassifier::new().unwrap();

    let initial_stats = classifier.get_stats();

    let prog_example =
        example("programmatic example", "prog_intent", 0.9, TrainingSource::Programmatic);
    classifier.add_training_example(prog_example).unwrap();

    classifier
        .add_feedback("feedback example".to_string(), IntentId("actual".to_string()), bits(4.0 / 5.0))
        .unwrap();

    let final_stats = classifier.get_stats();

    assert_eq!(final_stats.training_examples, initial_stats.training_examples + 2);
    assert_eq!(final_stats.feedback_examples, 1);
    assert!(final_stats.vocabulary_size > initial_stats.vocabulary_size);
}

#[test]
fn test_edge_case_training_examples() {
    let mut classifier = IntentClassifier::new().unwrap();

    let e = example("some text", "", 1.0, TrainingSource::UserFeedback);
    let _result = classifier.add_training_example(e);

    let long_intent = "a".repeat(1000);
    let e = example("some text", &long_intent, 1.0, TrainingSource::UserFeedback);
    assert!(classifier.add_training_example(e).is_ok());

    let e = example("", "test_intent", 1.0, TrainingSource::UserFeedback);
    assert!(classifier.add_training_example(e).is_err());

    let e = example("test text", "test_intent", 0.1, TrainingSource::UserFeedback);
    assert!(classifier.add_training_example(e).is_ok());
}

#[test]
fn test_feedback_with_edge_cases() {
    let mut classifier = IntentClassifier::new().unwrap();

    let e = example("test example", "test_intent", 1.0, TrainingSource::UserFeedback);
    classifier.add_training_example(e).unwrap();

    let result =
        classifier.add_feedback("test text".to_string(), IntentId("".to_string()), bits(3.0 / 5.0));
    assert!(result.is_ok());

    let long_text = "word ".repeat(500);
    let result =
        classifier.add_feedback(long_text, IntentId("test_intent".to_string()), bits(4.0 / 5.0));
    assert!(result.is_ok());

    let result = classifier.add_feedback(
        "🚀 test 你好".to_string(),
        IntentId("test_intent".to_string()),
        bits(5.0 / 5.0),
    );
    assert!(result.is_ok());
}

#[test]
fn test_statistics_edge_cases() {
    let mut classifier = IntentClassifier::new().unwrap();

    let initial_count = classifier.get_stats().training_examples;

    classifier.clear_training_data().unwrap();
    let stats = classifier.get_stats();
    assert!(stats.training_examples <= initial_count);

    let e = example("test example", "test_intent", 1.0, TrainingSource::UserFeedback);
    classifier.add_training_example(e).unwrap();

    let stats = classifier.get_stats();
    assert!(stats.training_examples > 0);
    assert!(stats.intent_count >= 1);
    assert!(stats.vocabulary_size >= 1);

    let e = example("test example", "test_intent", 1.0, TrainingSource::UserFeedback);
    classifier.add_training_example(e).unwrap();

    let new_stats = classifier.get_stats();
    assert!(new_stats.training_examples > stats.training_examples);
    assert_eq!(new_stats.intent_count, stats.intent_count);
}

#[test]
fn refused_examples_name_their_field_and_change_nothing() {
    let mut classifier = IntentClassifier::new().unwrap();
    let before = classifier.get_stats();

    match classifier.add_training_example(example(" \u{3000}\u{a0}", "x", 0.5, TrainingSource::Programmatic)) {
        Err(IntentError::InvalidParameter { parameter, message }) => {
            assert_eq!(parameter, "text");
            assert_eq!(message, "Training example text cannot be empty");
        }
        other => panic!("unexpected {:?}", other),
    }
    match classifier.add_training_example(example("ok text", "x", f64::NAN, TrainingSource::Programmatic)) {
        Err(IntentError::InvalidParameter { parameter, .. }) => assert_eq!(parameter, "confidence"),
        other => panic!("unexpected {:?}", other),
    }
    // A blank text is reported before a bad confidence.
    match classifier.add_training_example(example("", "x", 7.0, TrainingSource::Programmatic)) {
        Err(IntentError::InvalidParameter { parameter, .. }) => assert_eq!(parameter, "text"),
        other => panic!("unexpected {:?}", other),
    }
    let after = classifier.get_stats();
    assert_eq!(before.training_examples, after.training_examples);
    assert_eq!(before.vocabulary_size, after.vocabulary_size);
    assert_eq!(before.intent_count, after.intent_count);
}

#[test]
fn confidence_bounds_are_inclusive_and_negative_zero_is_accepted() {
    let mut classifier = IntentClassifier::default();
    for c in [0.0f64, -0.0, 1.0, 0.5] {
        assert!(classifier.add_training_example(example("t", "i", c, TrainingSource::Programmatic)).is_ok());
    }
    for c in [f64::INFINITY, f64::NEG_INFINITY, 1.0000000000000002, -1e-300] {
        assert!(classifier.add_training_example(example("t", "i", c, TrainingSource::Programmatic)).is_err());
    }
    assert_eq!(classifier.get_stats().training_examples, 4);
}

#[test]
fn new_classifier_learns_the_bootstrap_examples() {
    let classifier = IntentClassifier::new().unwrap();
    let stats = classifier.get_stats();
    assert_eq!(stats.training_examples, 53);
    assert_eq!(stats.intent_count, 17);
    let examples = classifier.training_examples();
    assert_eq!(examples[0].text, "merge these JSON files together");
    assert_eq!(examples[0].intent.0, "data_merge");
    assert_eq!(examples[52].text, "parse natural language");
    assert_eq!(examples[52].intent.0, "text_process");
    assert!(examples.iter().all(|e| e.source == TrainingSource::Bootstrap && e.confidence_bits == bits(1.0)));
}

#[test]
fn default_classifier_is_empty() {
    let classifier = IntentClassifier::default();
    let stats = classifier.get_stats();
    assert_eq!(stats.training_examples, 0);
    assert_eq!(stats.vocabulary_size, 0);
    assert_eq!(stats.intent_count, 0);
    assert_eq!(classifier.config().feature_dimensions, 1000);
}

#[test]
fn vocabulary_counts_distinct_raw_words_up_to_the_limit() {
    let mut classifier = IntentClassifier::with_config(config_with(1000, 4, 0.3, 10)).unwrap();
    // The bootstrap data alone fills a vocabulary of four words.
    assert_eq!(classifier.get_stats().vocabulary_size, 4);
    classifier.clear_training_data().unwrap();
    assert_eq!(classifier.get_stats().vocabulary_size, 4);

    let mut small = IntentClassifier::default();
    small.add_training_example(example("b a b  c\tA", "i", 1.0, TrainingSource::Programmatic)).unwrap();
    // Words are taken as written: "a" and "A" differ.
    assert_eq!(small.get_stats().vocabulary_size, 4);
    let (indices, count) = small.text_feature_indices("c b zzz a A b");
    assert_eq!(count, 6);
    assert_eq!(indices, vec![2, 0, 1, 3, 0]);
}

#[test]
fn feature_indices_stop_at_the_feature_dimensions() {
    let mut classifier = IntentClassifier::with_config(config_with(2, 100, 0.3, 10)).unwrap();
    classifier.clear_training_data().unwrap();
    // "merge" and "these" are the first two words ever learned.
    let (indices, count) = classifier.text_feature_indices("together these merge");
    assert_eq!(count, 3);
    assert_eq!(indices, vec![1, 0]);
}

#[test]
fn retraining_leaves_vocabulary_and_patterns_unchanged() {
    let mut classifier = IntentClassifier::new().unwrap();
    classifier
        .add_training_example(example("alpha beta", "greek", 1.0, TrainingSource::Programmatic))
        .unwrap();
    let before = classifier.text_feature_indices("alpha beta merge JSON");
    let stats_before = classifier.get_stats();
    assert!(classifier.retrain().is_ok());
    let after = classifier.text_feature_indices("alpha beta merge JSON");
    let stats_after = classifier.get_stats();
    assert_eq!(before, after);
    assert_eq!(stats_before.vocabulary_size, stats_after.vocabulary_size);
    assert_eq!(stats_before.intent_count, stats_after.intent_count);
}

#[test]
fn should_retrain_counts_feedback_examples() {
    let mut classifier = IntentClassifier::with_config(config_with(1000, 10000, 0.3, 2)).unwrap();
    assert!(!classifier.should_retrain());
    classifier.add_feedback("one".to_string(), IntentId("a".to_string()), bits(0.2)).unwrap();
    assert!(!classifier.should_retrain());
    classifier
        .add_training_example(example("two", "a", 1.0, TrainingSource::Programmatic))
        .unwrap();
    assert!(!classifier.should_retrain());
    classifier.add_feedback("three".to_string(), IntentId("a".to_string()), bits(0.2)).unwrap();
    assert!(classifier.should_retrain());
    assert!(classifier.add_feedback("   ".to_string(), IntentId("a".to_string()), bits(0.2)).is_err());
    assert_eq!(classifier.get_stats().feedback_examples, 2);
}

#[test]
fn exact_match_takes_the_first_example_with_that_text() {
    let mut classifier = IntentClassifier::default();
    classifier.add_training_example(example("same", "first", 0.25, TrainingSource::Programmatic)).unwrap();
    classifier.add_training_example(example("same", "second", 0.75, TrainingSource::Programmatic)).unwrap();
    let p = classifier.find_exact_match("same").unwrap();
    assert_eq!(p.intent.0, "first");
    assert_eq!(p.confidence_bits, bits(0.25));
    assert!(p.alternative_intents.is_empty());
    assert!(classifier.find_exact_match("Same").is_none());
    assert!(classifier.find_exact_match("same ").is_none());
}

#[test]
fn import_stops_at_the_first_refused_example() {
    let mut classifier = IntentClassifier::default();
    let batch = vec![
        example("one", "a", 0.5, TrainingSource::Programmatic),
        example("two", "b", 0.5, TrainingSource::UserFeedback),
        example("", "c", 0.5, TrainingSource::Programmatic),
        example("four", "d", 0.5, TrainingSource::Programmatic),
    ];
    assert!(classifier.import_training_data(batch).is_err());
    let stats = classifier.get_stats();
    assert_eq!(stats.training_examples, 2);
    assert_eq!(stats.feedback_examples, 1);
    assert!(classifier.import_training_data(Vec::new()).is_ok());
    let ok_batch = vec![example("five", "e", 0.5, TrainingSource::Programmatic)];
    assert!(classifier.import_training_data(ok_batch).is_ok());
    assert_eq!(classifier.get_stats().training_examples, 3);
}

#[test]
fn patterns_group_texts_by_intent_in_order() {
    let mut classifier = IntentClassifier::default();
    classifier.add_training_example(example("x one", "x", 1.0, TrainingSource::Programmatic)).unwrap();
    classifier.add_training_example(example("y one", "y", 1.0, TrainingSource::Programmatic)).unwrap();
    classifier.add_training_example(example("x two", "x", 1.0, TrainingSource::Programmatic)).unwrap();
    let mut list = classifier.intent_pattern_list();
    list.sort_by(|a, b| a.0 .0.cmp(&b.0 .0));
    assert_eq!(list.len(), 2);
    assert_eq!(list[0].0 .0, "x");
    assert_eq!(list[0].1, vec!["x one".to_string(), "x two".to_string()]);
    assert_eq!(list[1].0 .0, "y");
    assert_eq!(list[1].1, vec!["y one".to_string()]);
}

#[test]
fn vocabulary_size_is_distinct_words_up_to_the_limit() {
    let mut roomy = IntentClassifier::with_config(config_with(1000, 10000, 0.3, 10)).unwrap();
    roomy.clear_training_data().unwrap();
    let mut distinct = std::collections::HashSet::new();
    for e in roomy.training_examples() {
        for w in e.text.split_whitespace() {
            distinct.insert(w.to_string());
        }
    }
    assert_eq!(roomy.get_stats().vocabulary_size, distinct.len());

    // One more text adds its new distinct words, up to the limit.
    let before = roomy.get_stats().vocabulary_size;
    roomy.add_training_example(example("merge merge zebra quux quux xylophone", "x", 1.0, TrainingSource::Programmatic)).unwrap();
    assert_eq!(roomy.get_stats().vocabulary_size, before + 3);

    let mut tight = IntentClassifier::with_config(config_with(1000, before + 1, 0.3, 10)).unwrap();
    tight.add_training_example(example("merge zebra quux xylophone", "x", 1.0, TrainingSource::Programmatic)).unwrap();
    assert_eq!(tight.get_stats().vocabulary_size, before + 1);
    // Known words keep their index: "merge" was the first word learned.
    assert_eq!(tight.text_feature_indices("merge zebra").0, vec![0, before]);
}
