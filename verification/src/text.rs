//! Character-level helpers for working with strings.
//!
//! Lemmas and transformation rules reason about strings as sequences of
//! characters (`Seq<char>`).  This module provides the small executable
//! toolkit they need: equality, prefix/suffix tests, locating a character,
//! slicing, and Unicode case mapping.  Case mapping is delegated to the
//! standard library and named by the uninterpreted functions `lower_of`,
//! `upper_of_char` and `is_upper_char`.

use vstd::prelude::*;
use vstd::string::*;

verus! {

/// The lowercase mapping of a string, as computed by `str::to_lowercase`.
pub uninterp spec fn lower_of(s: Seq<char>) -> Seq<char>;

/// The uppercase mapping of a single character, as computed by
/// `char::to_uppercase` (one character can map to several).
pub uninterp spec fn upper_of_char(c: char) -> Seq<char>;

/// Whether a character is uppercase, as decided by `char::is_uppercase`.
pub uninterp spec fn is_upper_char(c: char) -> bool;

/// Relies on `str::to_lowercase`: the result is a pure function of the
/// characters of the input (Unicode lowercase mapping, locale-independent).
#[verifier::external_body]
pub fn lowercase(s: &str) -> (r: String)
    ensures
        r@ == lower_of(s@),
{
    s.to_lowercase()
}

/// Relies on `char::to_uppercase`: the result is a pure function of the
/// character (Unicode uppercase mapping, locale-independent).
#[verifier::external_body]
pub fn uppercase_char(c: char) -> (r: String)
    ensures
        r@ == upper_of_char(c),
{
    c.to_uppercase().collect()
}

/// Relies on `char::is_uppercase`: a pure property of the character.
#[verifier::external_body]
pub fn char_is_uppercase(c: char) -> (r: bool)
    ensures
        r == is_upper_char(c),
{
    c.is_uppercase()
}

/// Character-for-character equality of two string slices.
pub fn str_eq(a: &str, b: &str) -> (r: bool)
    ensures
        r == (a@ == b@),
{
    let alen = a.unicode_len();
    let blen = b.unicode_len();
    if alen != blen {
        return false;
    }
    let mut i: usize = 0;
    while i < alen
        invariant
            i <= alen,
            alen == a@.len(),
            alen == b@.len(),
            forall|k: int| 0 <= k < i ==> a@[k] == b@[k],
        decreases alen - i,
    {
        if a.get_char(i) != b.get_char(i) {
            return false;
        }
        i = i + 1;
    }
    proof {
        assert(a@ =~= b@);
    }
    true
}

/// Does `s` start with `p`?
pub fn starts_with_str(s: &str, p: &str) -> (r: bool)
    ensures
        r == p@.is_prefix_of(s@),
{
    let slen = s.unicode_len();
    let plen = p.unicode_len();
    if plen > slen {
        return false;
    }
    let mut i: usize = 0;
    while i < plen
        invariant
            i <= plen,
            plen <= slen,
            slen == s@.len(),
            plen == p@.len(),
            forall|k: int| 0 <= k < i ==> s@[k] == p@[k],
        decreases plen - i,
    {
        if s.get_char(i) != p.get_char(i) {
            return false;
        }
        i = i + 1;
    }
    proof {
        assert(s@.take(p@.len() as int) =~= p@);
    }
    true
}

/// Does `s` end with `p`?
pub fn ends_with_str(s: &str, p: &str) -> (r: bool)
    ensures
        r == p@.is_suffix_of(s@),
{
    let slen = s.unicode_len();
    let plen = p.unicode_len();
    if plen > slen {
        return false;
    }
    let offset = slen - plen;
    let mut i: usize = 0;
    while i < plen
        invariant
            i <= plen,
            plen <= slen,
            slen == s@.len(),
            plen == p@.len(),
            offset == slen - plen,
            forall|k: int| 0 <= k < i ==> s@[offset + k] == p@[k],
        decreases plen - i,
    {
        if s.get_char(offset + i) != p.get_char(i) {
            return false;
        }
        i = i + 1;
    }
    proof {
        assert(s@.skip(s@.len() - p@.len()) =~= p@);
    }
    true
}

/// Index of the first occurrence of `c` in `s`, or `-1` if there is none.
pub open spec fn first_index_of(s: Seq<char>, c: char) -> int
    decreases s.len(),
{
    if s.len() == 0 {
        -1
    } else if s[0] == c {
        0
    } else {
        let sub = first_index_of(s.skip(1), c);
        if sub == -1 {
            -1
        } else {
            sub + 1
        }
    }
}

/// Index of the last occurrence of `c` in `s`, or `-1` if there is none.
pub open spec fn last_index_of(s: Seq<char>, c: char) -> int
    decreases s.len(),
{
    if s.len() == 0 {
        -1
    } else if s[s.len() - 1] == c {
        s.len() - 1
    } else {
        last_index_of(s.drop_last(), c)
    }
}

/// `first_index_of` returns either `-1`, with no occurrence of `c` in `s`,
/// or the smallest index holding `c`.
pub proof fn lemma_first_index_of(s: Seq<char>, c: char)
    ensures
        first_index_of(s, c) == -1 ==> forall|k: int| 0 <= k < s.len() ==> s[k] != c,
        first_index_of(s, c) != -1 ==> {
            &&& 0 <= first_index_of(s, c) < s.len()
            &&& s[first_index_of(s, c)] == c
            &&& forall|k: int| 0 <= k < first_index_of(s, c) ==> s[k] != c
        },
    decreases s.len(),
{
    if s.len() != 0 && s[0] != c {
        lemma_first_index_of(s.skip(1), c);
        assert forall|k: int| 0 <= k < s.len() implies (s.skip(1)[k - 1] == s[k] || k == 0) by {}
    }
}

/// `last_index_of` returns either `-1`, with no occurrence of `c` in `s`,
/// or the largest index holding `c`.
pub proof fn lemma_last_index_of(s: Seq<char>, c: char)
    ensures
        last_index_of(s, c) == -1 ==> forall|k: int| 0 <= k < s.len() ==> s[k] != c,
        last_index_of(s, c) != -1 ==> {
            &&& 0 <= last_index_of(s, c) < s.len()
            &&& s[last_index_of(s, c)] == c
            &&& forall|k: int| last_index_of(s, c) < k < s.len() ==> s[k] != c
        },
    decreases s.len(),
{
    if s.len() != 0 && s[s.len() - 1] != c {
        lemma_last_index_of(s.drop_last(), c);
        assert(forall|k: int| 0 <= k < s.len() - 1 ==> s.drop_last()[k] == s[k]);
    }
}

/// First index of `c` in `s`, executable.
pub fn find_char(s: &str, c: char) -> (r: Option<usize>)
    ensures
        first_index_of(s@, c) == -1 ==> r is None,
        first_index_of(s@, c) != -1 ==> r == Some(first_index_of(s@, c) as usize),
{
    proof {
        lemma_first_index_of(s@, c);
    }
    let len = s.unicode_len();
    let mut i: usize = 0;
    while i < len
        invariant
            i <= len,
            len == s@.len(),
            forall|k: int| 0 <= k < i ==> s@[k] != c,
        decreases len - i,
    {
        if s.get_char(i) == c {
            proof {
                lemma_index_bounds_first(s@, c, i as int);
            }
            return Some(i);
        }
        i = i + 1;
    }
    None
}

/// Last index of `c` in `s`, executable.
pub fn rfind_char(s: &str, c: char) -> (r: Option<usize>)
    ensures
        last_index_of(s@, c) == -1 ==> r is None,
        last_index_of(s@, c) != -1 ==> r == Some(last_index_of(s@, c) as usize),
{
    proof {
        lemma_last_index_of(s@, c);
    }
    let len = s.unicode_len();
    let mut i: usize = len;
    while i > 0
        invariant
            i <= len,
            len == s@.len(),
            forall|k: int| i <= k < len ==> s@[k] != c,
        decreases i,
    {
        i = i - 1;
        if s.get_char(i) == c {
            proof {
                lemma_index_bounds_last(s@, c, i as int);
            }
            return Some(i);
        }
    }
    None
}

/// If `s[i] == c` and no earlier index holds `c`, then `i` is the first index.
pub proof fn lemma_index_bounds_first(s: Seq<char>, c: char, i: int)
    requires
        0 <= i < s.len(),
        s[i] == c,
        forall|k: int| 0 <= k < i ==> s[k] != c,
    ensures
        first_index_of(s, c) == i,
{
    lemma_first_index_of(s, c);
    let fi = first_index_of(s, c);
    if fi == -1 {
        assert(s[i] != c);
    } else {
        if fi < i {
            assert(s[fi] != c);
        }
        if fi > i {
            assert(s[i] != c);
        }
    }
}

/// If `s[i] == c` and no later index holds `c`, then `i` is the last index.
pub proof fn lemma_index_bounds_last(s: Seq<char>, c: char, i: int)
    requires
        0 <= i < s.len(),
        s[i] == c,
        forall|k: int| i < k < s.len() ==> s[k] != c,
    ensures
        last_index_of(s, c) == i,
{
    lemma_last_index_of(s, c);
    let li = last_index_of(s, c);
    if li == -1 {
        assert(s[i] != c);
    } else {
        if li < i {
            assert(s[i] != c);
        }
        if li > i {
            assert(s[li] != c);
        }
    }
}

/// A fresh `String` holding the characters `from..to` of `s`.
pub fn substr(s: &str, from: usize, to: usize) -> (r: String)
    requires
        from <= to <= s@.len(),
    ensures
        r@ == s@.subrange(from as int, to as int),
{
    s.substring_char(from, to).to_owned()
}

/// The lemma of a noun gets its first character uppercased; uppercasing a
/// single character may produce several characters, which all replace it.
pub fn uppercase_first_char(s: &str) -> (r: String)
    ensures
        s@.len() == 0 ==> r@ == Seq::<char>::empty(),
        s@.len() > 0 ==> r@ == upper_of_char(s@[0]) + s@.skip(1),
{
    let len = s.unicode_len();
    if len == 0 {
        return String::new();
    }
    let first = s.get_char(0);
    let mut r = uppercase_char(first);
    let rest = s.substring_char(1, len);
    r.append(rest);
    r
}

} // verus!
