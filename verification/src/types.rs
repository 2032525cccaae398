//! The library's data: intents, training examples, configuration, requests,
//! predictions, statistics and errors.
use std::collections::HashMap;
use vstd::prelude::*;
use crate::scores::POINT_THREE_BITS;

verus! {

/// `serde_json::Error`, carried by `IntentError::SerializationError`.
#[verifier::external_type_specification]
#[verifier::external_body]
pub struct ExJsonError(serde_json::Error);

/// Errors of the intent classifier.
#[derive(Debug)]
pub enum IntentError {
    ClassificationFailed(String),
    InvalidParameter { parameter: String, message: String },
    TrainingFailed(String),
    SerializationError(serde_json::Error),
    InvalidConfidence(String),
}

/// The name of an intent.
#[derive(Debug, PartialEq, Eq, Hash)]
pub struct IntentId(pub String);

impl Clone for IntentId {
    fn clone(&self) -> (r: IntentId)
        ensures
            r == *self,
    {
        IntentId(self.0.clone())
    }
}

impl View for IntentId {
    type V = Seq<char>;

    open spec fn view(&self) -> Seq<char> {
        self.0@
    }
}

impl IntentId {
    /// The intent's name.
    pub fn as_text(&self) -> (r: &str)
        ensures
            r@ == self@,
    {
        self.0.as_str()
    }

    /// The intent's name as an owned string (what `Display` prints).
    pub fn to_text(&self) -> (r: String)
        ensures
            r@ == self@,
    {
        self.0.clone()
    }

    /// Whether two intents have the same name.
    pub fn same_as(&self, other: &IntentId) -> (r: bool)
        ensures
            r == (self@ == other@),
    {
        self.0 == other.0
    }
}

impl From<String> for IntentId {
    fn from(s: String) -> (r: IntentId) {
        IntentId(s)
    }
}

impl vstd::std_specs::convert::FromSpecImpl<String> for IntentId {
    open spec fn obeys_from_spec() -> bool {
        true
    }

    open spec fn from_spec(v: String) -> IntentId {
        IntentId(v)
    }
}

/// Where a training example came from.
#[derive(Clone, Copy, Debug, PartialEq, Eq, Structural)]
pub enum TrainingSource {
    /// Bootstrap data provided with the library
    Bootstrap,
    /// User-provided feedback
    UserFeedback,
    /// Programmatically added examples
    Programmatic,
}

/// A training example. Its confidence is the bit pattern of an `f64`
/// (`f64::to_bits`), which the library accepts only in `0.0..=1.0`.
#[derive(Clone, Debug)]
pub struct TrainingExample {
    pub text: String,
    pub intent: IntentId,
    pub confidence_bits: u64,
    pub source: TrainingSource,
}

/// Configuration of a classifier. The confidence threshold is the bit
/// pattern of an `f64`.
#[derive(Clone, Copy, Debug)]
pub struct ClassifierConfig {
    /// Number of dimensions for feature vectors
    pub feature_dimensions: usize,
    /// Maximum vocabulary size
    pub max_vocabulary_size: usize,
    /// Minimum confidence threshold for predictions (`f64` bits)
    pub min_confidence_threshold_bits: u64,
    /// Number of feedback examples required before retraining
    pub retraining_threshold: usize,
    /// Whether to enable debug logging
    pub debug_mode: bool,
}

impl Default for ClassifierConfig {
    fn default() -> (r: ClassifierConfig)
        ensures
            r.feature_dimensions == 1000,
            r.max_vocabulary_size == 10000,
            r.min_confidence_threshold_bits == POINT_THREE_BITS,
            r.retraining_threshold == 10,
            !r.debug_mode,
    {
        ClassifierConfig {
            feature_dimensions: 1000,
            max_vocabulary_size: 10000,
            min_confidence_threshold_bits: POINT_THREE_BITS,
            retraining_threshold: 10,
            debug_mode: false,
        }
    }
}

/// A request to classify a text.
#[derive(Clone, Debug)]
pub struct ClassificationRequest {
    /// The text to classify
    pub text: String,
    /// Optional context information
    pub context: Option<HashMap<String, String>>,
    /// Whether to include alternative intents in the response
    pub include_alternatives: bool,
    /// Whether to include reasoning in the response
    pub include_reasoning: bool,
}

/// The outcome of a classification. Confidences are `f64` bit patterns.
#[derive(Clone, Debug)]
pub struct IntentPrediction {
    /// The predicted intent
    pub intent: IntentId,
    /// Confidence of the prediction (`f64` bits, in `0.0..=1.0`)
    pub confidence_bits: u64,
    /// Other intents with their confidences, best first
    pub alternative_intents: Vec<(IntentId, u64)>,
    /// Human-readable reasoning for the classification
    pub reasoning: String,
}

/// Statistics about a classifier.
#[derive(Clone, Debug)]
pub struct ClassifierStats {
    /// Number of training examples
    pub training_examples: usize,
    /// Size of the vocabulary
    pub vocabulary_size: usize,
    /// Number of known intents
    pub intent_count: usize,
    /// Number of user feedback examples
    pub feedback_examples: usize,
}

/// What the context of a (normalized) query shows: its length in bytes, its
/// number of words, and whether it holds a question mark, "file" or "data".
#[derive(Clone, Copy, Debug)]
pub struct ContextSignals {
    pub byte_length: usize,
    pub word_count: usize,
    pub has_question_mark: bool,
    pub mentions_file: bool,
    pub mentions_data: bool,
}

} // verus!
