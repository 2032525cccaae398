//! The classifier's two concurrent maps: the vocabulary (word to feature
//! index) and the intent patterns (intent to the texts that taught it).
//! Both are `dashmap::DashMap`s hashed with `ahash::RandomState`; what each
//! holds is named below, and every operation the classifier uses states its
//! effect on that content.
use ahash::RandomState;
use dashmap::DashMap;
use vstd::prelude::*;
use crate::text::strings_view;
use crate::types::IntentId;

verus! {

/// `ahash::RandomState`, the hasher of both maps.
#[verifier::external_type_specification]
#[verifier::external_body]
pub struct ExRandomState(ahash::RandomState);

/// `dashmap::DashMap`, a sharded concurrent hash map.
#[verifier::external_type_specification]
#[verifier::external_body]
#[verifier::reject_recursive_types(K)]
#[verifier::reject_recursive_types(V)]
#[verifier::reject_recursive_types(S)]
pub struct ExDashMap<K, V, S>(dashmap::DashMap<K, V, S>);

/// The entries of a vocabulary map: each word with its feature index.
pub uninterp spec fn vocabulary_entries(m: DashMap<String, usize, RandomState>) -> Map<Seq<char>, usize>;

/// The entries of a pattern map: each intent's name with the texts recorded
/// for it, oldest first.
pub uninterp spec fn pattern_entries(m: DashMap<IntentId, Vec<String>, RandomState>) -> Map<Seq<char>, Seq<Seq<char>>>;

/// `ahash::RandomState::new`: a hasher with fresh random keys. Nothing is
/// stated of it: it only decides where entries are stored. (It panics only
/// if the operating system's random source fails.)
#[verifier::external_body]
pub(crate) fn fresh_random_state() -> RandomState {
    RandomState::new()
}

/// `DashMap::with_hasher` for a vocabulary: the new map is empty.
#[verifier::external_body]
pub(crate) fn empty_vocabulary(hasher: RandomState) -> (m: DashMap<String, usize, RandomState>)
    ensures
        vocabulary_entries(m).dom() == Set::<Seq<char>>::empty(),
{
    DashMap::with_hasher(hasher)
}

/// `DashMap::with_hasher` for a pattern map: the new map is empty.
#[verifier::external_body]
pub(crate) fn empty_patterns(hasher: RandomState) -> (m: DashMap<IntentId, Vec<String>, RandomState>)
    ensures
        pattern_entries(m).dom() == Set::<Seq<char>>::empty(),
{
    DashMap::with_hasher(hasher)
}

/// `DashMap::len` of a vocabulary: the number of its words.
#[verifier::external_body]
pub(crate) fn vocabulary_len(m: &DashMap<String, usize, RandomState>) -> (r: usize)
    ensures
        r == vocabulary_entries(*m).dom().len(),
{
    m.len()
}

/// `DashMap::len` of a pattern map: the number of its intents.
#[verifier::external_body]
pub(crate) fn patterns_len(m: &DashMap<IntentId, Vec<String>, RandomState>) -> (r: usize)
    ensures
        r == pattern_entries(*m).dom().len(),
{
    m.len()
}

/// `DashMap::contains_key` of a vocabulary.
#[verifier::external_body]
pub(crate) fn vocabulary_contains(m: &DashMap<String, usize, RandomState>, word: &str) -> (r: bool)
    ensures
        r == vocabulary_entries(*m).contains_key(word@),
{
    m.contains_key(word)
}

/// `DashMap::insert` into a vocabulary: the word now maps to `index`, and
/// nothing else changes.
#[verifier::external_body]
pub(crate) fn vocabulary_insert(m: &mut DashMap<String, usize, RandomState>, word: String, index: usize)
    ensures
        vocabulary_entries(*final(m)) == vocabulary_entries(*old(m)).insert(word@, index),
{
    m.insert(word, index);
}

/// `DashMap::get` in a vocabulary: the word's index, if it has one.
#[verifier::external_body]
pub(crate) fn vocabulary_get(m: &DashMap<String, usize, RandomState>, word: &str) -> (r: Option<usize>)
    ensures
        r == (if vocabulary_entries(*m).contains_key(word@) {
            Some(vocabulary_entries(*m)[word@])
        } else {
            None
        }),
{
    m.get(word).map(|e| *e.value())
}

/// `DashMap::clear` of a vocabulary: it is empty afterwards.
#[verifier::external_body]
pub(crate) fn vocabulary_clear(m: &mut DashMap<String, usize, RandomState>)
    ensures
        vocabulary_entries(*final(m)).dom() == Set::<Seq<char>>::empty(),
{
    m.clear()
}

/// `DashMap::clear` of a pattern map: it is empty afterwards.
#[verifier::external_body]
pub(crate) fn patterns_clear(m: &mut DashMap<IntentId, Vec<String>, RandomState>)
    ensures
        pattern_entries(*final(m)).dom() == Set::<Seq<char>>::empty(),
{
    m.clear()
}

/// `DashMap::entry(intent).or_insert_with(Vec::new)` followed by a push:
/// the text is appended to the intent's list, which starts empty for a new
/// intent. Keys are told apart by the derived `Eq` and `Hash` of `IntentId`,
/// that is by the intent's name.
#[verifier::external_body]
pub(crate) fn patterns_append(m: &mut DashMap<IntentId, Vec<String>, RandomState>, intent: IntentId, text: String)
    ensures
        pattern_entries(*final(m)) == pattern_entries(*old(m)).insert(
            intent@,
            (if pattern_entries(*old(m)).contains_key(intent@) {
                pattern_entries(*old(m))[intent@]
            } else {
                Seq::empty()
            }).push(text@),
        ),
{
    m.entry(intent).or_insert_with(Vec::new).push(text);
}

/// `DashMap::get` in a pattern map, copying out the intent's texts.
#[verifier::external_body]
pub(crate) fn patterns_get(m: &DashMap<IntentId, Vec<String>, RandomState>, intent: &IntentId) -> (r: Option<Vec<String>>)
    ensures
        match r {
            Some(v) => pattern_entries(*m).contains_key(intent@) && strings_view(v@) == pattern_entries(*m)[intent@],
            None => !pattern_entries(*m).contains_key(intent@),
        },
{
    match m.get(intent) {
        Some(e) => Some(e.value().clone()),
        None => None,
    }
}

/// `DashMap::iter` over a pattern map, copying out every entry. Each intent
/// comes exactly once; the order depends on the random hasher and is not
/// stated.
#[verifier::external_body]
pub(crate) fn patterns_snapshot(m: &DashMap<IntentId, Vec<String>, RandomState>) -> (r: Vec<(IntentId, Vec<String>)>)
    ensures
        r@.len() == pattern_entries(*m).dom().len(),
        forall|i: int|
            0 <= i < r@.len() ==> pattern_entries(*m).contains_key(#[trigger] r@[i].0@)
                && strings_view(r@[i].1@) == pattern_entries(*m)[r@[i].0@],
        forall|i: int, j: int| 0 <= i < j < r@.len() ==> r@[i].0@ != r@[j].0@,
        forall|k: Seq<char>|
            pattern_entries(*m).contains_key(k) ==> exists|i: int| 0 <= i < r@.len() && #[trigger] r@[i].0@ == k,
{
    m.iter().map(|e| (e.key().clone(), e.value().clone())).collect()
}

} // verus!
