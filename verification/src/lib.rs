//! Few-shot intent classification: training data, vocabulary, intent
//! patterns, query normalization and the ranking of scored intents, each
//! operation stated by its contract over a mathematical model of the data.

pub mod bootstrap;
pub mod classifier;
pub mod laws;
pub mod ranking;
pub mod scores;
pub mod tables;
pub mod text;
pub mod types;

pub use classifier::IntentClassifier;
pub use types::{
    ClassificationRequest, ClassifierConfig, ClassifierStats, ContextSignals, IntentError,
    IntentId, IntentPrediction, TrainingExample, TrainingSource,
};
