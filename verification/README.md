# intent_classifier

A few-shot intent classifier whose training and ranking logic is verified
with Verus.

- `src/` is the verified library:
  - `text.rs`: tokenization (`split_words`), query normalization
    (`preprocess_text`), blank and substring tests, decimal rendering;
  - `scores.rs`: scores and confidences held as `f64` bit patterns, with
    NaN tests, comparison and range checks as integer functions;
  - `tables.rs`: the vocabulary and intent-pattern maps (`dashmap` with
    `ahash`), each operation specified over the map's content;
  - `classifier.rs`: the classifier state, training, feedback, retraining,
    statistics, exact matches, feature indices and prediction from scores;
  - `ranking.rs`: the rule-based fallback, the best intent and the ranked
    alternatives;
  - `bootstrap.rs`: the built-in training examples;
  - `laws.rs`: properties proved of all inputs.
- `app/` is the asynchronous, shareable classifier around the library: the
  `tokio` lock, the floating-point feature and similarity arithmetic,
  request ids, timestamps, logging and JSON import/export.
- `tests/` runs the library on concrete scenarios.
