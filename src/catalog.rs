use vstd::prelude::*;

verus! {

/// One translation of a word, with an optional part-of-speech tag.
#[derive(Debug, Clone, PartialEq)]
pub struct Translation {
    pub translation: String,
    pub word_type: Option<String>,
}

/// An example phrase and its translation.
#[derive(Debug, Clone, PartialEq)]
pub struct Phrase {
    pub phrase: String,
    pub translation: String,
}

/// A vocabulary entry. Its surface form `word` is its identity everywhere in
/// the engine: buckets, pools and statistics are keyed by it.
#[derive(Debug, Clone, PartialEq)]
pub struct Word {
    pub word: String,
    pub translations: Vec<Translation>,
    pub phrases: Vec<Phrase>,
}

} // verus!
