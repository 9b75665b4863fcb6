//! Vectorization of tokens into feature indices.
//!
//! A token is turned into the sequence of its characters' numbers plus its
//! tag's number, each looked up in a frozen table, with `0` for anything
//! the tables do not know.

use vstd::prelude::*;
use vstd::string::*;
use crate::lookup::{feature_index, LookupTable};
use crate::LemmatizationError;

verus! {

/// The number a frozen table assigns to a feature: its index plus one, or
/// the null index `0` when the table does not hold it.
pub open spec fn number_or_null<T: crate::lookup::Feature>(items: Seq<T>, f: T) -> int {
    match feature_index(items, f, 0) {
        Some(j) => j + 1,
        None => 0,
    }
}

/// A vectorized token: one index per character, and a tag index.
pub struct InputVector {
    chars: Vec<usize>,
    tag: usize,
}

impl View for InputVector {
    type V = (Seq<usize>, usize);

    closed spec fn view(&self) -> (Seq<usize>, usize) {
        (self.chars@, self.tag)
    }
}

impl InputVector {
    /// The character indices.
    pub fn chars(&self) -> (r: &Vec<usize>)
        ensures
            r@ == self@.0,
    {
        &self.chars
    }

    /// The tag index.
    pub fn tag(&self) -> (r: usize)
        ensures
            r == self@.1,
    {
        self.tag
    }
}

/// Vectorizes tokens over a character table and a tag table.
pub struct InputVectorizer {
    char_lookup: LookupTable<char>,
    tag_lookup: LookupTable<String>,
}

impl View for InputVectorizer {
    type V = (Seq<char>, Seq<String>);

    closed spec fn view(&self) -> (Seq<char>, Seq<String>) {
        (self.char_lookup@, self.tag_lookup@)
    }
}

impl InputVectorizer {
    /// A vectorizer over the two tables.
    pub fn new(char_lookup: LookupTable<char>, tag_lookup: LookupTable<String>) -> (r: Self)
        ensures
            r@.0 == char_lookup@,
            r@.1 == tag_lookup@,
    {
        InputVectorizer { char_lookup, tag_lookup }
    }

    /// Vectorize one token: each character and the tag become their table
    /// numbers, unknown ones the null index.
    #[verifier::loop_isolation(false)]
    pub fn vectorize(&self, token: &str, tag: &String) -> (r: InputVector)
        ensures
            r@.0.len() == token@.len(),
            forall|i: int| 0 <= i < token@.len() ==> r@.0[i] == number_or_null(self@.0, token@[i]),
            r@.1 == number_or_null(self@.1, *tag),
    {
        let len = token.unicode_len();
        let mut chars: Vec<usize> = Vec::new();
        let mut i: usize = 0;
        while i < len
            invariant
                i <= len,
                chars@.len() == i,
                forall|k: int| 0 <= k < i ==> chars@[k] == number_or_null(self@.0, token@[k]),
            decreases len - i,
        {
            let c = token.get_char(i);
            let idx = match self.char_lookup.get(&c) {
                Some(v) => v,
                None => 0,
            };
            chars.push(idx);
            i = i + 1;
        }
        let tag_idx = match self.tag_lookup.get(tag) {
            Some(v) => v,
            None => 0,
        };
        InputVector { chars, tag: tag_idx }
    }
}

/// A batch of tokens and their tags.
pub struct Batch<W, T> {
    pub tokens: W,
    pub tags: T,
}

impl<W, T> Batch<W, T> {
    /// A batch from its two halves.
    pub fn new(tokens: W, tags: T) -> (r: Self)
        ensures
            r == (Batch { tokens, tags }),
    {
        Batch { tokens, tags }
    }

    /// The tokens of the batch.
    pub fn tokens(&self) -> (r: &W)
        ensures
            r == &self.tokens,
    {
        &self.tokens
    }

    /// The tags of the batch.
    pub fn tags(&self) -> (r: &T)
        ensures
            r == &self.tags,
    {
        &self.tags
    }
}

/// Collects (and typically stores) vectorized tokens; how they are kept is
/// up to the implementation.
pub trait Collector {
    /// Collect one token with its tag and lemma.
    fn collect(&mut self, token: &str, tag: &str, lemma: &str) -> Result<(), LemmatizationError>;
}

} // verus!
