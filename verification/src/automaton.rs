//! A finite set of prefix strings with prefix search.
//!
//! `PrefixSet` holds the separable-verb prefix lexicon.  Its two queries walk
//! a word one character at a time from the start: `prefixes` returns every
//! member of the set that is a prefix of the word, in strictly increasing
//! length, and `longest_prefix` returns the longest such member.

use vstd::prelude::*;
use vstd::string::*;
use crate::text::str_eq;

verus! {

/// An immutable set of prefix strings.
pub struct PrefixSet {
    words: Vec<String>,
}

impl View for PrefixSet {
    type V = Seq<Seq<char>>;

    closed spec fn view(&self) -> Seq<Seq<char>> {
        self.words.deep_view()
    }
}

/// The members of `ws` among the prefixes of `word` of length `1..=n`,
/// ordered by increasing length.
pub open spec fn prefixes_upto(ws: Seq<Seq<char>>, word: Seq<char>, n: int) -> Seq<Seq<char>>
    decreases n,
{
    if n <= 0 {
        Seq::empty()
    } else {
        prefixes_upto(ws, word, n - 1) + if ws.contains(word.take(n)) {
            seq![word.take(n)]
        } else {
            Seq::empty()
        }
    }
}

/// The members of `ws` that are non-empty prefixes of `word`, by increasing
/// length.
pub open spec fn prefixes_of(ws: Seq<Seq<char>>, word: Seq<char>) -> Seq<Seq<char>> {
    prefixes_upto(ws, word, word.len() as int)
}

/// The longest member of `ws` that is a non-empty prefix of `word`.
pub open spec fn longest_prefix_of(ws: Seq<Seq<char>>, word: Seq<char>) -> Option<Seq<char>> {
    let ps = prefixes_of(ws, word);
    if ps.len() == 0 {
        None
    } else {
        Some(ps.last())
    }
}

/// Search the longest prefix of a string in a set.
pub trait LongestPrefix {
    /// The set of strings searched, as sequences of characters.
    spec fn word_set(&self) -> Seq<Seq<char>>;

    /// The longest member of the set that is a non-empty prefix of `word`.
    fn longest_prefix(&self, word: &str) -> (r: Option<String>)
        ensures
            match longest_prefix_of(self.word_set(), word@) {
                Option::None => r is None,
                Option::Some(p) => r matches Some(q) && q@ == p,
            },
    ;
}

impl PrefixSet {
    /// Build the set from its member strings.
    pub fn from_words(words: Vec<String>) -> (r: Self)
        ensures
            r@ == words.deep_view(),
    {
        PrefixSet { words }
    }

    /// Is `w` a member of the set?
    fn contains_str(&self, w: &str) -> (r: bool)
        ensures
            r == self@.contains(w@),
    {
        let n = self.words.len();
        let mut i: usize = 0;
        while i < n
            invariant
                i <= n,
                n == self.words@.len(),
                forall|k: int| 0 <= k < i ==> self.words@[k]@ != w@,
            decreases n - i,
        {
            if str_eq(self.words[i].as_str(), w) {
                proof {
                    assert(self@[i as int] == w@);
                }
                return true;
            }
            i = i + 1;
        }
        proof {
            assert forall|k: int| 0 <= k < self@.len() implies self@[k] != w@ by {
                assert(self@[k] == self.words@[k]@);
            }
        }
        false
    }

    /// All members of the set that are non-empty prefixes of `word`, found by
    /// scanning the word from the front, so they come in strictly increasing
    /// length.
    pub fn prefixes(&self, word: &str) -> (r: Vec<String>)
        ensures
            r.deep_view() == prefixes_of(self@, word@),
    {
        let len = word.unicode_len();
        let mut r: Vec<String> = Vec::new();
        let mut i: usize = 0;
        while i < len
            invariant
                i <= len,
                len == word@.len(),
                r.deep_view() == prefixes_upto(self@, word@, i as int),
            decreases len - i,
        {
            let ghost old_dv = r.deep_view();
            let p = word.substring_char(0, i + 1);
            proof {
                assert(p@ == word@.take(i + 1));
            }
            if self.contains_str(p) {
                r.push(p.to_owned());
                proof {
                    assert(r.deep_view() =~= old_dv + seq![word@.take(i + 1)]);
                }
            }
            i = i + 1;
        }
        r
    }
}

impl LongestPrefix for PrefixSet {
    open spec fn word_set(&self) -> Seq<Seq<char>> {
        self@
    }

    fn longest_prefix(&self, word: &str) -> (r: Option<String>) {
        let mut ps = self.prefixes(word);
        let n = ps.len();
        if n == 0 {
            None
        } else {
            let last = ps.pop().unwrap();
            proof {
                assert(last@ == ps.deep_view().push(last@).last());
            }
            Some(last)
        }
    }
}

/// Every result of `prefixes` is a member of the set and a prefix of the
/// word; the results come in strictly increasing length; and every member
/// that is a non-empty prefix of the word appears among the results.
pub proof fn lemma_prefixes_characterize(ws: Seq<Seq<char>>, word: Seq<char>, n: int)
    requires
        0 <= n <= word.len(),
    ensures
        forall|i: int|
            0 <= i < prefixes_upto(ws, word, n).len() ==> {
                &&& ws.contains(#[trigger] prefixes_upto(ws, word, n)[i])
                &&& prefixes_upto(ws, word, n)[i].is_prefix_of(word)
                &&& 1 <= prefixes_upto(ws, word, n)[i].len() <= n
            },
        forall|i: int, j: int|
            0 <= i < j < prefixes_upto(ws, word, n).len() ==> prefixes_upto(ws, word, n)[i].len()
                < prefixes_upto(ws, word, n)[j].len(),
        forall|l: int|
            1 <= l <= n && ws.contains(word.take(l)) ==> prefixes_upto(ws, word, n).contains(
                word.take(l),
            ),
    decreases n,
{
    if n > 0 {
        lemma_prefixes_characterize(ws, word, n - 1);
        let prev = prefixes_upto(ws, word, n - 1);
        let cur = prefixes_upto(ws, word, n);
        if ws.contains(word.take(n)) {
            assert(cur == prev + seq![word.take(n)]);
            assert(word.take(n).is_prefix_of(word)) by {
                assert(word.take(n) =~= word.take(word.take(n).len() as int));
            }
            assert(forall|i: int| 0 <= i < prev.len() ==> cur[i] == prev[i]);
            assert(cur.last() == word.take(n));
            assert(word.take(n).len() == n);
        } else {
            assert(cur =~= prev);
        }
        assert forall|l: int|
            1 <= l <= n && ws.contains(word.take(l)) implies cur.contains(word.take(l)) by {
            if l < n || !ws.contains(word.take(n)) {
                assert(prev.contains(word.take(l)));
                let wit = choose|i: int| 0 <= i < prev.len() && prev[i] == word.take(l);
                assert(cur[wit] == word.take(l));
            } else {
                assert(cur.last() == word.take(l));
            }
        }
    }
}

/// Every string in the prefix set, used as the word itself, appears as the
/// last element of its own prefix search.
pub proof fn lemma_member_is_last_prefix(ws: Seq<Seq<char>>, w: Seq<char>)
    requires
        ws.contains(w),
        w.len() >= 1,
    ensures
        prefixes_of(ws, w).len() > 0,
        prefixes_of(ws, w).last() == w,
{
    let n = w.len() as int;
    assert(w.take(n) =~= w);
    assert(prefixes_of(ws, w) == prefixes_upto(ws, w, n - 1) + seq![w]);
}

/// `longest_prefix` and `prefixes` are consistent: the longest prefix is the
/// last element of the prefix sequence, and is absent exactly when that
/// sequence is empty.
pub proof fn lemma_longest_prefix_consistent(ws: Seq<Seq<char>>, word: Seq<char>)
    ensures
        prefixes_of(ws, word).len() == 0 ==> longest_prefix_of(ws, word) is None,
        prefixes_of(ws, word).len() > 0 ==> longest_prefix_of(ws, word) == Some(
            prefixes_of(ws, word).last(),
        ),
{
}

} // verus!
