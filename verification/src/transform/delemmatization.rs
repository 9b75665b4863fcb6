//! Rules that turn treebank-convention lemmas back into plain lemmas.

use vstd::prelude::*;
use vstd::string::*;
use crate::constants::{
    is_auxiliary, is_auxiliary_tag, is_modal, is_modal_tag, is_punctuation, is_punctuation_tag,
    is_verb, is_verb_tag,
};
use crate::graph::{DependencyGraph, TokView};
use crate::text::{
    ends_with_str, find_char, first_index_of, last_index_of, lemma_first_index_of,
    lemma_last_index_of, lower_of, lowercase, rfind_char, str_eq, substr,
};

verus! {

/// Remove alternative lemma analyses.
///
/// The treebank sometimes provides several lemma analyses for one form,
/// joined by `|`.  This rule keeps only the first analysis.  Punctuation,
/// non-word and foreign-word tokens are passed through unchanged.
pub struct RemoveAlternatives;

/// What `RemoveAlternatives` writes as the lemma of a token.
pub open spec fn remove_alternatives_spec(t: TokView) -> Seq<char> {
    if is_punctuation_tag(t.tag) || t.tag == "XY"@ || t.tag == "FM"@ {
        t.lemma
    } else {
        let idx = first_index_of(t.lemma, '|');
        if idx == -1 {
            t.lemma
        } else {
            t.lemma.take(idx)
        }
    }
}

impl RemoveAlternatives {
    /// The new lemma for `node`: everything before the first `|` of the old
    /// lemma, except for punctuation, non-word and foreign-word tokens.
    pub fn transform(&self, graph: &DependencyGraph, node: usize) -> (r: String)
        requires
            node < graph@.nodes.len(),
        ensures
            r@ == remove_alternatives_spec(graph@.nodes[node as int]),
    {
        let token = graph.token(node);
        let lemma = token.lemma.as_str();
        let tag = token.tag.as_str();
        if is_punctuation(tag) || str_eq(tag, "XY") || str_eq(tag, "FM") {
            return lemma.to_owned();
        }
        proof {
            lemma_first_index_of(lemma@, '|');
        }
        let len = lemma.unicode_len();
        proof {
            assert(len == lemma@.len());
        }
        match find_char(lemma, '|') {
            Some(idx) => substr(lemma, 0, idx),
            None => lemma.to_owned(),
        }
    }
}

/// Running `RemoveAlternatives` twice yields the same lemma as running it
/// once: its output never contains a `|` unless the token was exempt.
pub proof fn lemma_remove_alternatives_idempotent(t: TokView)
    ensures
        remove_alternatives_spec(
            TokView { lemma: remove_alternatives_spec(t), ..t },
        ) == remove_alternatives_spec(t),
{
    if !(is_punctuation_tag(t.tag) || t.tag == "XY"@ || t.tag == "FM"@) {
        lemma_first_index_of(t.lemma, '|');
        let idx = first_index_of(t.lemma, '|');
        if idx != -1 {
            let out = t.lemma.take(idx);
            lemma_first_index_of(out, '|');
            if first_index_of(out, '|') != -1 {
                assert(out[first_index_of(out, '|')] == '|');
                assert(t.lemma[first_index_of(out, '|')] == '|');
            }
        }
    }
}

/// Replace the reflexive pseudo-lemma.
///
/// Reflexive pronouns use the placeholder lemma `#refl`; this rule replaces
/// it by the lowercased surface form.
pub struct RemoveReflexiveTag;

/// What `RemoveReflexiveTag` writes as the lemma of a token.
pub open spec fn remove_reflexive_tag_spec(t: TokView) -> Seq<char> {
    if t.tag == "PRF"@ && t.lemma == "#refl"@ {
        lower_of(t.form)
    } else {
        t.lemma
    }
}

impl RemoveReflexiveTag {
    /// The new lemma for `node`: the lowercased form if the token is a
    /// reflexive pronoun carrying the reflexive placeholder lemma.
    pub fn transform(&self, graph: &DependencyGraph, node: usize) -> (r: String)
        requires
            node < graph@.nodes.len(),
        ensures
            r@ == remove_reflexive_tag_spec(graph@.nodes[node as int]),
    {
        let token = graph.token(node);
        if str_eq(token.tag.as_str(), "PRF") && str_eq(token.lemma.as_str(), "#refl") {
            lowercase(token.form.as_str())
        } else {
            token.lemma.as_str().to_owned()
        }
    }
}

/// Remove separable prefixes from verb lemmas.
///
/// A marked lemma like `ab#zeichnen` becomes `zeichnen`: everything up to
/// and including the last `#` is discarded, for verb tags only.
pub struct RemoveSepVerbPrefix;

/// What `RemoveSepVerbPrefix` writes as the lemma of a token.
pub open spec fn remove_sep_verb_prefix_spec(t: TokView) -> Seq<char> {
    if is_verb_tag(t.tag) {
        let idx = last_index_of(t.lemma, '#');
        if idx == -1 {
            t.lemma
        } else {
            t.lemma.skip(idx + 1)
        }
    } else {
        t.lemma
    }
}

impl RemoveSepVerbPrefix {
    /// The new lemma for `node`: everything after the last `#` of the old
    /// lemma, for verb tags.
    pub fn transform(&self, graph: &DependencyGraph, node: usize) -> (r: String)
        requires
            node < graph@.nodes.len(),
        ensures
            r@ == remove_sep_verb_prefix_spec(graph@.nodes[node as int]),
    {
        let token = graph.token(node);
        let lemma = token.lemma.as_str();
        if !is_verb(token.tag.as_str()) {
            return lemma.to_owned();
        }
        proof {
            lemma_last_index_of(lemma@, '#');
        }
        let len = lemma.unicode_len();
        match rfind_char(lemma, '#') {
            Some(idx) => substr(lemma, idx + 1, len),
            None => lemma.to_owned(),
        }
    }
}

/// Remove truncation markers.
///
/// A truncated token (`Bau-` in `Bau- und Verkehrsplanungen`) carries a
/// recovered lemma plus a simplified tag after a `%` marker, e.g.
/// `Bauplanung%n`.  This rule restores the surface form as the lemma,
/// lowercased unless the embedded simplified tag is `n`.
pub struct RemoveTruncMarker;

/// What `RemoveTruncMarker` writes as the lemma of a token.
pub open spec fn remove_trunc_marker_spec(t: TokView) -> Seq<char> {
    if t.tag == "TRUNC"@ {
        let idx = last_index_of(t.lemma, '%');
        if idx == -1 {
            t.lemma
        } else if t.lemma.skip(idx + 1) == "n"@ {
            t.form
        } else {
            lower_of(t.form)
        }
    } else {
        t.lemma
    }
}

impl RemoveTruncMarker {
    /// The new lemma for `node`: the surface form, case-preserved when the
    /// marker's embedded tag is `n`, lowercased otherwise.
    pub fn transform(&self, graph: &DependencyGraph, node: usize) -> (r: String)
        requires
            node < graph@.nodes.len(),
        ensures
            r@ == remove_trunc_marker_spec(graph@.nodes[node as int]),
    {
        let token = graph.token(node);
        let lemma = token.lemma.as_str();
        if !str_eq(token.tag.as_str(), "TRUNC") {
            return lemma.to_owned();
        }
        proof {
            lemma_last_index_of(lemma@, '%');
        }
        let len = lemma.unicode_len();
        match rfind_char(lemma, '%') {
            Some(idx) => {
                let marker_tag = substr(lemma, idx + 1, len);
                if str_eq(marker_tag.as_str(), "n") {
                    token.form.as_str().to_owned()
                } else {
                    lowercase(token.form.as_str())
                }
            },
            None => lemma.to_owned(),
        }
    }
}

/// Remove the auxiliary marker from auxiliary and modal verb lemmas.
///
/// A lemma like `haben%aux` becomes `haben`.
pub struct RemoveAuxTag;

/// What `RemoveAuxTag` writes as the lemma of a token.
pub open spec fn remove_aux_tag_spec(t: TokView) -> Seq<char> {
    if (is_auxiliary_tag(t.tag) || is_modal_tag(t.tag)) && "%aux"@.is_suffix_of(t.lemma) {
        t.lemma.take(t.lemma.len() - "%aux"@.len())
    } else {
        t.lemma
    }
}

impl RemoveAuxTag {
    /// The new lemma for `node`: the old lemma with a trailing `%aux`
    /// removed, for auxiliary and modal tags.
    pub fn transform(&self, graph: &DependencyGraph, node: usize) -> (r: String)
        requires
            node < graph@.nodes.len(),
        ensures
            r@ == remove_aux_tag_spec(graph@.nodes[node as int]),
    {
        let token = graph.token(node);
        let lemma = token.lemma.as_str();
        let tag = token.tag.as_str();
        if (is_auxiliary(tag) || is_modal(tag)) && ends_with_str(lemma, "%aux") {
            let mlen = "%aux".unicode_len();
            substr(lemma, 0, lemma.unicode_len() - mlen)
        } else {
            lemma.to_owned()
        }
    }
}

/// Remove the passive marker from auxiliary and modal verb lemmas.
///
/// A lemma like `werden%passiv` becomes `werden`.
pub struct RemovePassivTag;

/// What `RemovePassivTag` writes as the lemma of a token.
pub open spec fn remove_passiv_tag_spec(t: TokView) -> Seq<char> {
    if (is_auxiliary_tag(t.tag) || is_modal_tag(t.tag)) && "%passiv"@.is_suffix_of(t.lemma) {
        t.lemma.take(t.lemma.len() - "%passiv"@.len())
    } else {
        t.lemma
    }
}

impl RemovePassivTag {
    /// The new lemma for `node`: the old lemma with a trailing `%passiv`
    /// removed, for auxiliary and modal tags.
    pub fn transform(&self, graph: &DependencyGraph, node: usize) -> (r: String)
        requires
            node < graph@.nodes.len(),
        ensures
            r@ == remove_passiv_tag_spec(graph@.nodes[node as int]),
    {
        let token = graph.token(node);
        let lemma = token.lemma.as_str();
        let tag = token.tag.as_str();
        if (is_auxiliary(tag) || is_modal(tag)) && ends_with_str(lemma, "%passiv") {
            let mlen = "%passiv".unicode_len();
            substr(lemma, 0, lemma.unicode_len() - mlen)
        } else {
            lemma.to_owned()
        }
    }
}

} // verus!
