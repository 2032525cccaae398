//! End-to-end predictions: the library's integer pieces combined with the
//! floating-point scoring done around it (term frequencies, cosine
//! similarity, context boosts), as the asynchronous classifier does.

use intent_classifier::classifier::{apply_request_options, IntentClassifier};
use intent_classifier::text::preprocess_text;
use intent_classifier::types::{
    ClassificationRequest, IntentId, IntentPrediction, TrainingExample, TrainingSource,
};

fn text_features(core: &IntentClassifier, text: &str) -> Vec<f64> {
    let mut features = vec![0.0; core.config().feature_dimensions];
    let (indices, count) = core.text_feature_indices(text);
    if count == 0 {
        return features;
    }
    for i in indices {
        features[i] += 1.0 / count as f64;
    }
    features
}

fn cosine(a: &[f64], b: &[f64]) -> f64 {
    if a.len() != b.len() {
        return 0.0;
    }
    let dot: f64 = a.iter().zip(b.iter()).map(|(x, y)| x * y).sum();
    let na: f64 = a.iter().map(|x| x * x).sum::<f64>().sqrt();
    let nb: f64 = b.iter().map(|x| x * x).sum::<f64>().sqrt();
    if na == 0.0 || nb == 0.0 {
        0.0
    } else {
        dot / (na * nb)
    }
}

fn predict(core: &IntentClassifier, text: &str) -> IntentPrediction {
    let cleaned = preprocess_text(text);
    let query = text_features(core, &cleaned);
    let signals = IntentClassifier::extract_context_features(&cleaned);
    let mut scores = Vec::new();
    for (intent, patterns) in core.intent_pattern_list() {
        let mut score: f64 = 0.0;
        for p in &patterns {
            score = score.max(cosine(&query, &text_features(core, p)));
        }
        let mut boost = 0.0;
        for _ in 0..core.calculate_context_boost(&intent, &signals) {
            boost += 0.1;
        }
        score += boost;
        scores.push((intent, score.min(1.0).to_bits()));
    }
    core.predict_intent(text, scores).unwrap()
}

fn add(core: &mut IntentClassifier, text: &str, intent: &str, confidence: f64, source: TrainingSource) {
    core.add_training_example(TrainingExample {
        text: text.to_string(),
        intent: IntentId(intent.to_string()),
        confidence_bits: confidence.to_bits(),
        source,
    })
    .unwrap();
}

#[test]
fn test_intent_classification() {
    let classifier = IntentClassifier::new().unwrap();
    let prediction = predict(&classifier, "merge these JSON files together");
    assert_eq!(prediction.intent.0, "data_merge");
    assert!(f64::from_bits(prediction.confidence_bits) > 0.5);
}

#[test]
fn test_library_integration() {
    let classifier = IntentClassifier::new().unwrap();
    let prediction = predict(&classifier, "analyze this data");
    assert!(prediction.intent.0.contains("data"));

    let request = ClassificationRequest {
        text: "save this file".to_string(),
        context: None,
        include_alternatives: true,
        include_reasoning: true,
    };
    let response = apply_request_options(predict(&classifier, &request.text), &request);
    assert_eq!(response.intent.0, "file_write");
}

#[test]
fn test_classification_request_options() {
    let classifier = IntentClassifier::new().unwrap();
    let full = ClassificationRequest {
        text: "analyze this data".to_string(),
        context: Some(std::collections::HashMap::new()),
        include_alternatives: true,
        include_reasoning: true,
    };
    let full_response = apply_request_options(predict(&classifier, &full.text), &full);
    assert!(!full_response.reasoning.is_empty());

    let minimal = ClassificationRequest {
        text: "analyze this data".to_string(),
        context: None,
        include_alternatives: false,
        include_reasoning: false,
    };
    let minimal_response = apply_request_options(predict(&classifier, &minimal.text), &minimal);
    assert!(minimal_response.alternative_intents.is_empty());
    assert!(minimal_response.reasoning.is_empty());
}

#[test]
fn test_edge_case_inputs() {
    let classifier = IntentClassifier::new().unwrap();
    assert_eq!(predict(&classifier, "").intent.0, "general_processing");
    assert!(!predict(&classifier, "a").intent.0.is_empty());
    assert!(!predict(&classifier, &"a ".repeat(1000)).intent.0.is_empty());
    assert!(!predict(&classifier, "!@#$%^&*()_+-=[]{}|;':\",./<>?").intent.0.is_empty());
    assert!(!predict(&classifier, "analyze 这些 données с данными").intent.0.is_empty());
    assert!(!predict(&classifier, "123 456 789").intent.0.is_empty());
    assert!(!predict(&classifier, "Merge 123 files_with-special.chars ✨").intent.0.is_empty());
}

#[test]
fn test_alternative_intents() {
    let mut classifier = IntentClassifier::new().unwrap();
    for (text, intent) in [
        ("process this file", "file_process"),
        ("process this data", "data_process"),
        ("process this request", "request_process"),
    ] {
        add(&mut classifier, text, intent, 1.0, TrainingSource::Programmatic);
    }
    let prediction = predict(&classifier, "process this");
    assert!(!prediction.alternative_intents.is_empty());
    assert!(prediction.alternative_intents.len() <= 3);
    for i in 1..prediction.alternative_intents.len() {
        assert!(
            f64::from_bits(prediction.alternative_intents[i - 1].1)
                >= f64::from_bits(prediction.alternative_intents[i].1)
        );
    }
}

#[test]
fn test_extreme_confidence_values() {
    let mut classifier = IntentClassifier::new().unwrap();
    add(&mut classifier, "test example", "test_intent", 1.0, TrainingSource::UserFeedback);
    let result = predict(&classifier, "test example");
    assert!(f64::from_bits(result.confidence_bits) > 0.5);
    let result = predict(&classifier, "completely different unrelated text");
    let c = f64::from_bits(result.confidence_bits);
    assert!(c >= 0.0 && c <= 1.0);
}

#[test]
fn test_data_export_import() {
    let mut first = IntentClassifier::new().unwrap();
    add(&mut first, "custom example 1", "custom_intent_1", 0.9, TrainingSource::Programmatic);
    add(&mut first, "custom example 2", "custom_intent_2", 0.8, TrainingSource::UserFeedback);
    let exported: Vec<TrainingExample> = first.training_examples().clone();

    let mut second = IntentClassifier::new().unwrap();
    second.clear_training_data().unwrap();
    second.import_training_data(exported.clone()).unwrap();
    assert!(second.get_stats().training_examples >= exported.len());
    assert_eq!(predict(&second, "custom example 1").intent.0, "custom_intent_1");
}

#[test]
fn test_massive_vocabulary() {
    let mut classifier = IntentClassifier::new().unwrap();
    for i in 0..100 {
        add(
            &mut classifier,
            &format!("unique_word_{} action_{} object_{}", i, i * 2, i * 3),
            &format!("intent_{}", i % 10),
            1.0,
            TrainingSource::UserFeedback,
        );
    }
    let _ = predict(&classifier, "unique_word_50 action_100 object_150");
    assert!(classifier.get_stats().training_examples >= 100);
}

#[test]
fn test_text_preprocessing() {
    let classifier = IntentClassifier::new().unwrap();
    let upper = predict(&classifier, "MERGE FILES");
    let lower = predict(&classifier, "merge files");
    let mixed = predict(&classifier, "MeRgE fIlEs");
    assert_eq!(upper.intent.0, lower.intent.0);
    assert_eq!(lower.intent.0, mixed.intent.0);
    let clean = predict(&classifier, "merge files");
    let dirty = predict(&classifier, "merge!!! @#$ files???");
    assert_eq!(clean.intent.0, dirty.intent.0);
}

#[test]
fn test_configuration_edge_cases() {
    let config = intent_classifier::types::ClassifierConfig {
        feature_dimensions: 1,
        min_confidence_threshold_bits: 0.0f64.to_bits(),
        debug_mode: true,
        ..Default::default()
    };
    let mut classifier = IntentClassifier::with_config(config).unwrap();
    add(&mut classifier, "test example", "test_intent", 1.0, TrainingSource::UserFeedback);
    let _ = predict(&classifier, "test query");

    let config = intent_classifier::types::ClassifierConfig { max_vocabulary_size: 100000, ..Default::default() };
    let mut classifier = IntentClassifier::with_config(config).unwrap();
    for i in 0..10 {
        add(&mut classifier, &format!("example text {}", i), &format!("intent_{}", i), 1.0, TrainingSource::UserFeedback);
    }
    let _ = predict(&classifier, "example text");
}

#[test]
fn test_empty_inputs() {
    let classifier = IntentClassifier::new().unwrap();
    for text in ["", "   \t\n   ", "a"] {
        assert!(!predict(&classifier, text).intent.0.is_empty());
    }
}

#[test]
fn test_very_long_inputs() {
    let classifier = IntentClassifier::new().unwrap();
    assert!(!predict(&classifier, &"word ".repeat(1000)).intent.0.is_empty());
    assert!(!predict(&classifier, &"a".repeat(10000)).intent.0.is_empty());
}

#[test]
fn test_special_characters() {
    let classifier = IntentClassifier::new().unwrap();
    let inputs = [
        "¡¢£¤¥¦§¨©ª«¬\u{ad}®¯°±²³´µ¶·¸¹º»¼½¾¿",
        "αβγδεζηθικλμνξοπρστυφχψω",
        "你好世界",
        "🚀🌟💫⭐️✨🎯",
        "\\n\\t\\r\\0",
        "\"quoted text\"",
        "'single quotes'",
        "`backticks`",
        "line1\nline2\nline3",
        "tab\tseparated\tvalues",
    ];
    for input in inputs {
        assert!(!predict(&classifier, input).intent.0.is_empty(), "Failed on input: {}", input);
    }
}

#[test]
fn test_resource_limits() {
    let config = intent_classifier::types::ClassifierConfig { feature_dimensions: 10000, ..Default::default() };
    let mut classifier = IntentClassifier::with_config(config).unwrap();
    add(&mut classifier, "test example", "test_intent", 1.0, TrainingSource::UserFeedback);
    assert!(!predict(&classifier, "test query").intent.0.is_empty());
}

#[test]
fn test_unusual_input_patterns() {
    let classifier = IntentClassifier::new().unwrap();
    let inputs = [
        "test test test test test",
        "a a a a a a a a a a",
        "tEsT TeXt",
        "UPPER lower MixeD",
        "123 456 789",
        "test 123 example 456",
        "https://example.com/path?query=value",
        "/home/user/file.txt",
        "C:\\Windows\\System32\\file.exe",
        "supercalifragilisticexpialidocious",
        "pneumonoultramicroscopicsilicovolcanoconiosis",
        "!@#$%^&*()_+-=[]{}|;':\",./<>?",
        "test... with... dots...",
        "text--with--dashes",
        "function(arg1, arg2)",
        "if (condition) { return true; }",
        "SELECT * FROM table WHERE id = 1",
    ];
    for input in inputs {
        assert!(!predict(&classifier, input).intent.0.is_empty(), "Failed on input: {}", input);
    }
}

#[test]
fn exact_training_text_wins_over_scores() {
    let classifier = IntentClassifier::new().unwrap();
    let scores = vec![(IntentId("file_read".to_string()), 0.9f64.to_bits())];
    let p = classifier.predict_intent("merge these JSON files together", scores.clone()).unwrap();
    assert_eq!(p.intent.0, "data_merge");
    assert_eq!(p.confidence_bits, 1.0f64.to_bits());
    assert_eq!(p.reasoning, "Exact match found in training data");
    assert!(p.alternative_intents.is_empty());
    let q = classifier.predict_intent("no training example reads like this", scores).unwrap();
    assert_eq!(q.intent.0, "file_read");
    assert_eq!(q.confidence_bits, 0.9f64.to_bits());
}

#[test]
fn new_classifier_uses_default_configuration() {
    let classifier = IntentClassifier::new().unwrap();
    let config = classifier.config();
    assert_eq!(config.min_confidence_threshold_bits, 0.3f64.to_bits());
    assert!(!config.debug_mode);
    for blank in ["", "   \t\n   "] {
        let p = predict(&classifier, blank);
        assert_eq!(p.intent.0, "general_processing");
        assert_eq!(p.confidence_bits, 0.5f64.to_bits());
        assert_eq!(p.reasoning, "Classified as 'general_processing' using rule-based analysis");
        assert_eq!(p.alternative_intents.len(), 3);
        assert!(p.alternative_intents.iter().all(|(_, c)| *c == 0.0f64.to_bits()));
    }
}

#[test]
fn normalizing_twice_changes_nothing() {
    for raw in ["  Hello,   WORLD  again ", "Merge these JSON-files, please!", "", "ÉTÉ!! été", "a\u{3000}b"] {
        let once = preprocess_text(raw);
        assert_eq!(preprocess_text(&once), once);
    }
}
