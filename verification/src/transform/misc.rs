//! Lemma simplifications shared by lemmatization and delemmatization.

use vstd::prelude::*;
use vstd::string::*;
use crate::automaton::{prefixes_of, PrefixSet};
use crate::graph::{DependencyGraph, TokView};
use crate::text::{lower_of, lowercase, starts_with_str, str_eq};

verus! {

/// Simplify article and relative pronoun lemmas.
///
/// Articles and relative pronouns are reduced to a one-character lemma:
/// `d` for definite (*den*, *dessen*), `e` for indefinite (*einem*).
pub struct SimplifyArticleLemma;

/// What `SimplifyArticleLemma` writes as the lemma of a token.
pub open spec fn simplify_article_lemma_spec(t: TokView) -> Seq<char> {
    if t.tag == "ART"@ || t.tag == "PRELS"@ || t.tag == "PRELAT"@ {
        let lf = lower_of(t.form);
        if "d"@.is_prefix_of(lf) {
            "d"@
        } else if "e"@.is_prefix_of(lf) {
            "e"@
        } else {
            t.lemma
        }
    } else {
        t.lemma
    }
}

impl SimplifyArticleLemma {
    /// The new lemma for `node`: `d` or `e` after the first character of the
    /// lowercased form, for articles and relative pronouns.
    pub fn transform(&self, graph: &DependencyGraph, node: usize) -> (r: String)
        requires
            node < graph@.nodes.len(),
        ensures
            r@ == simplify_article_lemma_spec(graph@.nodes[node as int]),
    {
        let token = graph.token(node);
        let tag = token.tag.as_str();
        if str_eq(tag, "ART") || str_eq(tag, "PRELS") || str_eq(tag, "PRELAT") {
            let lf = lowercase(token.form.as_str());
            if starts_with_str(lf.as_str(), "d") {
                return "d".to_owned();
            }
            if starts_with_str(lf.as_str(), "e") {
                return "e".to_owned();
            }
        }
        token.lemma.as_str().to_owned()
    }
}

/// The canonical personal pronoun for a lowercased surface form; the
/// ambiguous *ihr* resolves to *sie*, and only *euch* yields *ihr*.
pub open spec fn pronoun_lookup(f: Seq<char>) -> Option<Seq<char>> {
    if f == "ich"@ || f == "mich"@ || f == "mir"@ || f == "meiner"@ {
        Some("ich"@)
    } else if f == "du"@ || f == "dir"@ || f == "dich"@ || f == "deiner"@ {
        Some("du"@)
    } else if f == "er"@ || f == "ihn"@ || f == "ihm"@ || f == "seiner"@ {
        Some("er"@)
    } else if f == "sie"@ || f == "ihr"@ || f == "ihnen"@ || f == "ihrer"@ {
        Some("sie"@)
    } else if f == "es"@ || f == "'s"@ {
        Some("es"@)
    } else if f == "wir"@ || f == "uns"@ || f == "unser"@ {
        Some("wir"@)
    } else if f == "euch"@ {
        Some("ihr"@)
    } else {
        None
    }
}

/// Simplify personal pronoun lemmas.
///
/// A personal pronoun's lemma becomes the canonical pronoun of its
/// lowercased surface form, looked up in a fixed case-form table.
pub struct SimplifyPersonalPronounLemma;

/// What `SimplifyPersonalPronounLemma` writes as the lemma of a token.
pub open spec fn simplify_personal_pronoun_spec(t: TokView) -> Seq<char> {
    if t.tag == "PPER"@ {
        match pronoun_lookup(lower_of(t.form)) {
            Some(l) => l,
            None => t.lemma,
        }
    } else {
        t.lemma
    }
}

impl SimplifyPersonalPronounLemma {
    /// The new lemma for `node`: the canonical pronoun of the lowercased
    /// form, for personal pronouns whose form the table covers.
    pub fn transform(&self, graph: &DependencyGraph, node: usize) -> (r: String)
        requires
            node < graph@.nodes.len(),
        ensures
            r@ == simplify_personal_pronoun_spec(graph@.nodes[node as int]),
    {
        let token = graph.token(node);
        if !str_eq(token.tag.as_str(), "PPER") {
            return token.lemma.as_str().to_owned();
        }
        let lf = lowercase(token.form.as_str());
        let f = lf.as_str();
        if str_eq(f, "ich") || str_eq(f, "mich") || str_eq(f, "mir") || str_eq(f, "meiner") {
            "ich".to_owned()
        } else if str_eq(f, "du") || str_eq(f, "dir") || str_eq(f, "dich") || str_eq(f, "deiner") {
            "du".to_owned()
        } else if str_eq(f, "er") || str_eq(f, "ihn") || str_eq(f, "ihm") || str_eq(f, "seiner") {
            "er".to_owned()
        } else if str_eq(f, "sie") || str_eq(f, "ihr") || str_eq(f, "ihnen") || str_eq(f, "ihrer") {
            "sie".to_owned()
        } else if str_eq(f, "es") || str_eq(f, "'s") {
            "es".to_owned()
        } else if str_eq(f, "wir") || str_eq(f, "uns") || str_eq(f, "unser") {
            "wir".to_owned()
        } else if str_eq(f, "euch") {
            "ihr".to_owned()
        } else {
            token.lemma.as_str().to_owned()
        }
    }
}

/// The possessive stem prefixes for attributive possessive pronouns.
pub open spec fn attr_poss_prefixes() -> Seq<Seq<char>> {
    seq!["dein"@, "euer"@, "eure"@, "ihr"@, "mein"@, "sein"@, "unser"@]
}

/// The possessive stem prefixes for substituting possessive pronouns.
pub open spec fn subst_poss_prefixes() -> Seq<Seq<char>> {
    seq!["dein"@, "ihr"@, "mein"@, "sein"@, "unser"@, "unsrig"@]
}

/// Simplify possessive pronoun lemmas.
///
/// A possessive pronoun is reduced to its canonical stem: the shortest
/// member of a fixed prefix set that is a prefix of the lowercased form,
/// with the literal exception that *eure* maps to *euer*.
pub struct SimplifyPossesivePronounLemma {
    attr: PrefixSet,
    subst: PrefixSet,
}

impl View for SimplifyPossesivePronounLemma {
    type V = (Seq<Seq<char>>, Seq<Seq<char>>);

    closed spec fn view(&self) -> (Seq<Seq<char>>, Seq<Seq<char>>) {
        (self.attr@, self.subst@)
    }
}

/// What `SimplifyPossesivePronounLemma` writes as the lemma of a token,
/// over the attributive and substituting prefix sets.
pub open spec fn simplify_possesive_pronoun_spec(
    attr: Seq<Seq<char>>,
    subst: Seq<Seq<char>>,
    t: TokView,
) -> Seq<char> {
    if t.tag == "PPOSAT"@ || t.tag == "PPOSS"@ {
        let ws = if t.tag == "PPOSS"@ {
            subst
        } else {
            attr
        };
        let ps = prefixes_of(ws, lower_of(t.form));
        if ps.len() == 0 {
            t.lemma
        } else if ps[0] == "eure"@ {
            "euer"@
        } else {
            ps[0]
        }
    } else {
        t.lemma
    }
}

impl SimplifyPossesivePronounLemma {
    /// The rule with its two fixed prefix sets.
    pub fn new() -> (r: Self)
        ensures
            r@.0 == attr_poss_prefixes(),
            r@.1 == subst_poss_prefixes(),
    {
        let mut attr_words: Vec<String> = Vec::new();
        attr_words.push("dein".to_owned());
        attr_words.push("euer".to_owned());
        attr_words.push("eure".to_owned());
        attr_words.push("ihr".to_owned());
        attr_words.push("mein".to_owned());
        attr_words.push("sein".to_owned());
        attr_words.push("unser".to_owned());
        let mut subst_words: Vec<String> = Vec::new();
        subst_words.push("dein".to_owned());
        subst_words.push("ihr".to_owned());
        subst_words.push("mein".to_owned());
        subst_words.push("sein".to_owned());
        subst_words.push("unser".to_owned());
        subst_words.push("unsrig".to_owned());
        proof {
            assert(attr_words.deep_view() =~~= attr_poss_prefixes());
            assert(subst_words.deep_view() =~~= subst_poss_prefixes());
        }
        SimplifyPossesivePronounLemma {
            attr: PrefixSet::from_words(attr_words),
            subst: PrefixSet::from_words(subst_words),
        }
    }

    /// The new lemma for `node`: the canonical possessive stem prefix of
    /// the lowercased form, for possessive pronoun tags.
    pub fn transform(&self, graph: &DependencyGraph, node: usize) -> (r: String)
        requires
            node < graph@.nodes.len(),
        ensures
            r@ == simplify_possesive_pronoun_spec(self@.0, self@.1, graph@.nodes[node as int]),
    {
        let token = graph.token(node);
        let tag = token.tag.as_str();
        let is_subst = str_eq(tag, "PPOSS");
        if !(str_eq(tag, "PPOSAT") || is_subst) {
            return token.lemma.as_str().to_owned();
        }
        let lf = lowercase(token.form.as_str());
        let ps = if is_subst {
            self.subst.prefixes(lf.as_str())
        } else {
            self.attr.prefixes(lf.as_str())
        };
        if ps.len() == 0 {
            token.lemma.as_str().to_owned()
        } else {
            let p = &ps[0];
            proof {
                assert(p@ == ps.deep_view()[0]);
            }
            if str_eq(p.as_str(), "eure") {
                "euer".to_owned()
            } else {
                p.as_str().to_owned()
            }
        }
    }
}

} // verus!
