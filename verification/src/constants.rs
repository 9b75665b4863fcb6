//! Tags, dependency relations and lemma markers of the treebank convention.
//!
//! Tags are compared as plain strings.  Every predicate has a specification
//! twin over `Seq<char>` that the transformation rules' contracts use.

use vstd::prelude::*;
use crate::text::str_eq;

verus! {

/// A verb tag starts with `V`.
pub open spec fn is_verb_tag(t: Seq<char>) -> bool {
    t.len() >= 1 && t[0] == 'V'
}

/// A finite verb tag starts with `V` and ends with `FIN`.
pub open spec fn is_finite_verb_tag(t: Seq<char>) -> bool {
    t.len() >= 3 && t[0] == 'V' && t[t.len() - 3] == 'F' && t[t.len() - 2] == 'I' && t[t.len()
        - 1] == 'N'
}

/// The tags whose verbs can carry a separated prefix.
pub open spec fn is_separable_verb_tag(t: Seq<char>) -> bool {
    ||| t == "VVFIN"@
    ||| t == "VVPP"@
    ||| t == "VVIMP"@
    ||| t == "VMFIN"@
    ||| t == "VAFIN"@
}

/// An auxiliary verb tag starts with `VA`.
pub open spec fn is_auxiliary_tag(t: Seq<char>) -> bool {
    t.len() >= 2 && t[0] == 'V' && t[1] == 'A'
}

/// A modal verb tag starts with `VM`.
pub open spec fn is_modal_tag(t: Seq<char>) -> bool {
    t.len() >= 2 && t[0] == 'V' && t[1] == 'M'
}

/// A punctuation tag starts with `$`.
pub open spec fn is_punctuation_tag(t: Seq<char>) -> bool {
    t.len() >= 1 && t[0] == '$'
}

/// The tags whose lemma is defined to be the lowercased form.
pub open spec fn is_lemma_is_form_tag(t: Seq<char>) -> bool {
    ||| t == "$,"@
    ||| t == "$."@
    ||| t == "$("@
    ||| t == "ADV"@
    ||| t == "APPR"@
    ||| t == "APPO"@
    ||| t == "APZR"@
    ||| t == "FM"@
    ||| t == "ITJ"@
    ||| t == "KOUI"@
    ||| t == "KOUS"@
    ||| t == "KON"@
    ||| t == "KOKOM"@
    ||| t == "ADJD"@
    ||| t == "CARD"@
    ||| t == "PTKZU"@
    ||| t == "PTKA"@
    ||| t == "PTKNEG"@
}

/// Does the tag mark a verb?
pub fn is_verb(tag: &str) -> (r: bool)
    ensures
        r == is_verb_tag(tag@),
{
    tag.unicode_len() >= 1 && tag.get_char(0) == 'V'
}

/// Does the tag mark a finite verb?
pub fn is_finite_verb(tag: &str) -> (r: bool)
    ensures
        r == is_finite_verb_tag(tag@),
{
    let len = tag.unicode_len();
    len >= 3 && tag.get_char(0) == 'V' && tag.get_char(len - 3) == 'F' && tag.get_char(len - 2)
        == 'I' && tag.get_char(len - 1) == 'N'
}

/// Does the tag mark a verb that can carry a separated prefix?
pub fn is_separable_verb(tag: &str) -> (r: bool)
    ensures
        r == is_separable_verb_tag(tag@),
{
    str_eq(tag, "VVFIN") || str_eq(tag, "VVPP") || str_eq(tag, "VVIMP") || str_eq(tag, "VMFIN")
        || str_eq(tag, "VAFIN")
}

/// Does the tag mark an auxiliary verb?
pub fn is_auxiliary(tag: &str) -> (r: bool)
    ensures
        r == is_auxiliary_tag(tag@),
{
    tag.unicode_len() >= 2 && tag.get_char(0) == 'V' && tag.get_char(1) == 'A'
}

/// Does the tag mark a modal verb?
pub fn is_modal(tag: &str) -> (r: bool)
    ensures
        r == is_modal_tag(tag@),
{
    tag.unicode_len() >= 2 && tag.get_char(0) == 'V' && tag.get_char(1) == 'M'
}

/// Does the tag mark punctuation?
pub fn is_punctuation(tag: &str) -> (r: bool)
    ensures
        r == is_punctuation_tag(tag@),
{
    tag.unicode_len() >= 1 && tag.get_char(0) == '$'
}

/// Is the tag one whose lemma is defined to be the lowercased form?
pub fn is_lemma_is_form(tag: &str) -> (r: bool)
    ensures
        r == is_lemma_is_form_tag(tag@),
{
    str_eq(tag, "$,") || str_eq(tag, "$.") || str_eq(tag, "$(") || str_eq(tag, "ADV") || str_eq(
        tag,
        "APPR",
    ) || str_eq(tag, "APPO") || str_eq(tag, "APZR") || str_eq(tag, "FM") || str_eq(tag, "ITJ")
        || str_eq(tag, "KOUI") || str_eq(tag, "KOUS") || str_eq(tag, "KON") || str_eq(tag, "KOKOM")
        || str_eq(tag, "ADJD") || str_eq(tag, "CARD") || str_eq(tag, "PTKZU") || str_eq(tag, "PTKA")
        || str_eq(tag, "PTKNEG")
}

} // verus!
