//! Rules that turn plain lemmas into treebank-convention lemmas.

use vstd::prelude::*;
use vstd::string::*;
use crate::automaton::PrefixSet;
use crate::constants::{
    is_lemma_is_form, is_lemma_is_form_tag, is_separable_verb, is_separable_verb_tag, is_verb,
    is_verb_tag,
};
use crate::graph::{DependencyGraph, GraphView, graph_wf, TokView};
use crate::svp::{longest_prefixes, longest_prefixes_spec};
use crate::text::{
    char_is_uppercase, is_upper_char, last_index_of, lemma_index_bounds_last, lemma_last_index_of,
    lower_of, lowercase, str_eq, upper_of_char, uppercase_first_char,
};
use crate::transform::delemmatization::remove_sep_verb_prefix_spec;

verus! {

/// Lemmatize tokens whose lemma is defined to be the lowercased form.
pub struct FormAsLemma;

/// What `FormAsLemma` writes as the lemma of a token.
pub open spec fn form_as_lemma_spec(t: TokView) -> Seq<char> {
    if is_lemma_is_form_tag(t.tag) {
        lower_of(t.form)
    } else {
        t.lemma
    }
}

impl FormAsLemma {
    /// The new lemma for `node`: the lowercased form, for the fixed set of
    /// tags whose lemma is the form.
    pub fn transform(&self, graph: &DependencyGraph, node: usize) -> (r: String)
        requires
            node < graph@.nodes.len(),
        ensures
            r@ == form_as_lemma_spec(graph@.nodes[node as int]),
    {
        let token = graph.token(node);
        if is_lemma_is_form(token.tag.as_str()) {
            lowercase(token.form.as_str())
        } else {
            token.lemma.as_str().to_owned()
        }
    }
}

/// The particle forms of the dependents of `n` that are tagged as separable
/// particles, lowercased, over the first `m` edges, in edge order.
pub open spec fn particle_forms(g: GraphView, n: int, m: int) -> Seq<Seq<char>>
    decreases m,
{
    if m <= 0 {
        Seq::empty()
    } else {
        particle_forms(g, n, m - 1) + {
            let e = g.edges[m - 1];
            if e.head == n && g.nodes[e.dependent].tag == "PTKVZ"@ {
                seq![lower_of(g.nodes[e.dependent].form)]
            } else {
                Seq::empty()
            }
        }
    }
}

/// One lemma variant per particle, `particle#lemma`, joined with `|`.
pub open spec fn join_variants(parts: Seq<Seq<char>>, lemma: Seq<char>) -> Seq<char>
    decreases parts.len(),
{
    if parts.len() == 0 {
        Seq::empty()
    } else if parts.len() == 1 {
        parts[0] + "#"@ + lemma
    } else {
        join_variants(parts.drop_last(), lemma) + "|"@ + parts.last() + "#"@ + lemma
    }
}

/// Add separated verb prefixes to verbs.
///
/// The convention marks separable verb prefixes in the verb lemma, e.g.
/// *ab#zeichnen*.  This rule handles prefixes that appear detached from
/// their verb: the separable particles among the verb's dependents are
/// rejoined into the lemma.  In multiple-prefix mode every particle yields
/// one lemma variant and the variants are joined with `|`; in single-prefix
/// mode only the first particle found is prepended.
pub struct AddSeparatedVerbPrefix {
    multiple_prefixes: bool,
}

impl View for AddSeparatedVerbPrefix {
    type V = bool;

    closed spec fn view(&self) -> bool {
        self.multiple_prefixes
    }
}

/// What `AddSeparatedVerbPrefix` writes as the lemma of a node.
pub open spec fn add_separated_verb_prefix_spec(multiple: bool, g: GraphView, n: int) -> Seq<
    char,
> {
    let t = g.nodes[n];
    if !is_separable_verb_tag(t.tag) {
        t.lemma
    } else {
        let parts = particle_forms(g, n, g.edges.len() as int);
        if parts.len() == 0 {
            t.lemma
        } else if multiple {
            join_variants(parts, t.lemma)
        } else {
            parts[0] + "#"@ + t.lemma
        }
    }
}

impl AddSeparatedVerbPrefix {
    /// The rule; `multiple_prefixes` selects multiple-prefix mode.
    pub fn new(multiple_prefixes: bool) -> (r: Self)
        ensures
            r@ == multiple_prefixes,
    {
        AddSeparatedVerbPrefix { multiple_prefixes }
    }

    /// The new lemma for `node`, per `add_separated_verb_prefix_spec`.
    #[verifier::loop_isolation(false)]
    pub fn transform(&self, graph: &DependencyGraph, node: usize) -> (r: String)
        requires
            graph_wf(graph@),
            node < graph@.nodes.len(),
        ensures
            r@ == add_separated_verb_prefix_spec(self@, graph@, node as int),
    {
        let token = graph.token(node);
        let lemma = token.lemma.as_str();
        if !is_separable_verb(token.tag.as_str()) {
            return lemma.to_owned();
        }
        let m = graph.edge_count();
        let mut parts: Vec<String> = Vec::new();
        let mut i: usize = 0;
        while i < m
            invariant
                i <= m,
                parts.deep_view() =~~= particle_forms(graph@, node as int, i as int),
            decreases m - i,
        {
            let e = graph.edge(i);
            if e.head == node {
                proof {
                    assert(0 <= graph@.edges[i as int].dependent < graph@.nodes.len());
                }
                let dep = graph.token(e.dependent);
                if str_eq(dep.tag.as_str(), "PTKVZ") {
                    parts.push(lowercase(dep.form.as_str()));
                }
            }
            proof {
                assert(parts.deep_view() =~~= particle_forms(graph@, node as int, i + 1));
            }
            i = i + 1;
        }
        let np = parts.len();
        if np == 0 {
            return lemma.to_owned();
        }
        if self.multiple_prefixes {
            let ghost pv = parts.deep_view();
            let mut r = String::new();
            let mut idx: usize = 0;
            while idx < np
                invariant
                    idx <= np,
                    idx > 0 ==> r@ =~= join_variants(pv.take(idx as int), token@.lemma),
                    idx == 0 ==> r@ =~= Seq::<char>::empty(),
                decreases np - idx,
            {
                if idx > 0 {
                    r.append("|");
                }
                r.append(parts[idx].as_str());
                r.append("#");
                r.append(lemma);
                proof {
                    assert(pv.take(idx + 1).drop_last() =~~= pv.take(idx as int));
                    assert(pv.take(idx + 1).last() == pv[idx as int]);
                    assert(r@ =~= join_variants(pv.take(idx + 1), token@.lemma));
                }
                idx = idx + 1;
            }
            proof {
                assert(pv.take(np as int) =~~= pv);
            }
            r
        } else {
            let mut r = parts[0].clone();
            r.append("#");
            r.append(lemma);
            r
        }
    }
}

/// The association list of explicit prefix-verb overrides: the first value
/// whose key equals `key`, scanning from index `i`.
pub open spec fn assoc_lookup(
    pairs: Seq<(Seq<char>, Seq<char>)>,
    key: Seq<char>,
    i: int,
) -> Option<Seq<char>>
    decreases pairs.len() - i,
{
    if i < 0 || i >= pairs.len() {
        None
    } else if pairs[i].0 == key {
        Some(pairs[i].1)
    } else {
        assoc_lookup(pairs, key, i + 1)
    }
}

/// If entry `e` matches `key` and no earlier entry from `j` on does, the
/// lookup from `j` returns its value; if nothing from `j` on matches, it
/// returns nothing.
pub proof fn lemma_assoc_lookup_is(
    pairs: Seq<(Seq<char>, Seq<char>)>,
    key: Seq<char>,
    j: int,
    e: int,
)
    requires
        0 <= j <= e < pairs.len(),
        pairs[e].0 == key,
        forall|k: int| j <= k < e ==> (#[trigger] pairs[k]).0 != key,
    ensures
        assoc_lookup(pairs, key, j) == Some(pairs[e].1),
    decreases e - j,
{
    if j < e {
        lemma_assoc_lookup_is(pairs, key, j + 1, e);
    }
}

/// If no entry from `j` on matches `key`, the lookup from `j` returns
/// nothing.
pub proof fn lemma_assoc_lookup_none(pairs: Seq<(Seq<char>, Seq<char>)>, key: Seq<char>, j: int)
    requires
        0 <= j <= pairs.len(),
        forall|k: int| j <= k < pairs.len() ==> (#[trigger] pairs[k]).0 != key,
    ensures
        assoc_lookup(pairs, key, j) is None,
    decreases pairs.len() - j,
{
    if j < pairs.len() {
        lemma_assoc_lookup_none(pairs, key, j + 1);
    }
}

/// The segments of a marked lemma, joined with `#`.
pub open spec fn join_hash(parts: Seq<Seq<char>>) -> Seq<char>
    decreases parts.len(),
{
    if parts.len() == 0 {
        Seq::empty()
    } else if parts.len() == 1 {
        parts[0]
    } else {
        join_hash(parts.drop_last()) + "#"@ + parts.last()
    }
}

/// Mark separable verb prefixes in verbs.
///
/// This rule handles prefixes that are *not* separated from the verb:
/// *dazugefügt* with lemma *fügen* becomes *dazu#fügen*.  A lookup table of
/// explicit overrides, keyed by the lowercased lemma, is consulted first;
/// otherwise the lowercased form is segmented over the prefix set and, if
/// any prefixes were found, they are joined with `#` in front of the
/// lowercased lemma.
pub struct MarkVerbPrefix {
    prefix_verbs: Vec<(String, String)>,
    prefixes: PrefixSet,
}

impl View for MarkVerbPrefix {
    type V = (Seq<(Seq<char>, Seq<char>)>, Seq<Seq<char>>);

    closed spec fn view(&self) -> (Seq<(Seq<char>, Seq<char>)>, Seq<Seq<char>>) {
        (self.prefix_verbs.deep_view(), self.prefixes@)
    }
}

/// What `MarkVerbPrefix` writes as the lemma of a token, over the override
/// table `pv` and the prefix set `ws`.
pub open spec fn mark_verb_prefix_spec(
    pv: Seq<(Seq<char>, Seq<char>)>,
    ws: Seq<Seq<char>>,
    t: TokView,
) -> Seq<char> {
    if !is_verb_tag(t.tag) {
        t.lemma
    } else {
        let lemma_lc = lower_of(t.lemma);
        match assoc_lookup(pv, lemma_lc, 0) {
            Some(sep) => sep,
            None => {
                let parts = longest_prefixes_spec(ws, lower_of(t.form), lemma_lc, t.tag);
                if parts.len() == 0 {
                    t.lemma
                } else {
                    join_hash(parts.push(lemma_lc))
                }
            },
        }
    }
}

impl MarkVerbPrefix {
    /// The rule, from a table of explicit prefix-verb overrides and the
    /// prefix set used for segmentation.
    pub fn new(prefix_verbs: Vec<(String, String)>, prefixes: PrefixSet) -> (r: Self)
        ensures
            r@.0 == prefix_verbs.deep_view(),
            r@.1 == prefixes@,
    {
        MarkVerbPrefix { prefix_verbs, prefixes }
    }

    /// Replace the override table.
    pub fn set_prefix_verbs(&mut self, prefix_verbs: Vec<(String, String)>)
        ensures
            final(self)@.0 == prefix_verbs.deep_view(),
            final(self)@.1 == old(self)@.1,
    {
        self.prefix_verbs = prefix_verbs;
    }

    /// The new lemma for `node`, per `mark_verb_prefix_spec`.
    #[verifier::loop_isolation(false)]
    pub fn transform(&self, graph: &DependencyGraph, node: usize) -> (r: String)
        requires
            node < graph@.nodes.len(),
        ensures
            r@ == mark_verb_prefix_spec(self@.0, self@.1, graph@.nodes[node as int]),
    {
        let token = graph.token(node);
        let lemma = token.lemma.as_str();
        let tag = token.tag.as_str();
        if !is_verb(tag) {
            return lemma.to_owned();
        }
        let lemma_lc = lowercase(lemma);
        let ghost pairs = self.prefix_verbs.deep_view();
        let np = self.prefix_verbs.len();
        let mut i: usize = 0;
        while i < np
            invariant
                i <= np,
                forall|k: int| 0 <= k < i ==> (#[trigger] pairs[k]).0 != lemma_lc@,
            decreases np - i,
        {
            let entry = &self.prefix_verbs[i];
            if str_eq(entry.0.as_str(), lemma_lc.as_str()) {
                proof {
                    assert(pairs[i as int].0 == lemma_lc@);
                    lemma_assoc_lookup_is(pairs, lemma_lc@, 0, i as int);
                }
                return entry.1.clone();
            }
            i = i + 1;
        }
        proof {
            lemma_assoc_lookup_none(pairs, lemma_lc@, 0);
        }
        let form_lc = lowercase(token.form.as_str());
        let parts = longest_prefixes(&self.prefixes, form_lc.as_str(), lemma_lc.as_str(), tag);
        let nparts = parts.len();
        if nparts == 0 {
            return lemma.to_owned();
        }
        let ghost all = parts.deep_view().push(lemma_lc@);
        let mut r = String::new();
        let mut idx: usize = 0;
        while idx < nparts
            invariant
                idx <= nparts,
                idx > 0 ==> r@ =~= join_hash(all.take(idx as int)),
                idx == 0 ==> r@ =~= Seq::<char>::empty(),
            decreases nparts - idx,
        {
            if idx > 0 {
                r.append("#");
            }
            r.append(parts[idx].as_str());
            proof {
                assert(all.take(idx + 1).drop_last() =~~= all.take(idx as int));
                assert(all.take(idx + 1).last() == all[idx as int]);
                assert(all[idx as int] == parts.deep_view()[idx as int]);
                assert(r@ =~= join_hash(all.take(idx + 1)));
            }
            idx = idx + 1;
        }
        r.append("#");
        r.append(lemma_lc.as_str());
        proof {
            assert(all.take(nparts + 1).drop_last() =~~= all.take(nparts as int));
            assert(all.take(nparts + 1).last() == lemma_lc@);
            assert(all.take(nparts + 1) =~~= all);
            assert(r@ =~= join_hash(all));
        }
        r
    }
}

/// Copy the casing of the surface form onto a named entity's lemma: when
/// the form starts with an uppercase character, the lemma's first character
/// is uppercased; otherwise the lemma is unchanged.
pub open spec fn restore_named_entity_case_spec(form: Seq<char>, lemma: Seq<char>) -> Seq<char> {
    if form.len() > 0 && is_upper_char(form[0]) {
        ucfirst_spec(lemma)
    } else {
        lemma
    }
}

/// A string with its first character uppercased; uppercasing one character
/// can yield several.
pub open spec fn ucfirst_spec(s: Seq<char>) -> Seq<char> {
    if s.len() == 0 {
        Seq::empty()
    } else {
        upper_of_char(s[0]) + s.skip(1)
    }
}

/// Copy the casing of the surface form onto the lemma of a named entity.
pub fn restore_named_entity_case(form: &str, lemma: &str) -> (r: String)
    ensures
        r@ == restore_named_entity_case_spec(form@, lemma@),
{
    if form.unicode_len() > 0 && char_is_uppercase(form.get_char(0)) {
        uppercase_first_char(lemma)
    } else {
        lemma.to_owned()
    }
}

/// Restore the case of noun and named-entity lemmas.
///
/// Nouns get their lemma's first character uppercased; named entities copy
/// the casing of the surface form.
pub struct RestoreCase;

/// What `RestoreCase` writes as the lemma of a token.
pub open spec fn restore_case_spec(t: TokView) -> Seq<char> {
    if t.tag == "NN"@ {
        ucfirst_spec(t.lemma)
    } else if t.tag == "NE"@ {
        restore_named_entity_case_spec(t.form, t.lemma)
    } else {
        t.lemma
    }
}

impl RestoreCase {
    /// The new lemma for `node`, per `restore_case_spec`.
    pub fn transform(&self, graph: &DependencyGraph, node: usize) -> (r: String)
        requires
            node < graph@.nodes.len(),
        ensures
            r@ == restore_case_spec(graph@.nodes[node as int]),
    {
        let token = graph.token(node);
        if str_eq(token.tag.as_str(), "NN") {
            uppercase_first_char(token.lemma.as_str())
        } else if str_eq(token.tag.as_str(), "NE") {
            restore_named_entity_case(token.form.as_str(), token.lemma.as_str())
        } else {
            token.lemma.as_str().to_owned()
        }
    }
}

/// Adding a separated prefix in single-prefix mode and then removing
/// separated prefixes recovers the bare lemma, provided the bare lemma
/// itself contains no `#`.
pub proof fn lemma_sep_prefix_round_trip(g: GraphView, n: int)
    requires
        0 <= n < g.nodes.len(),
        is_separable_verb_tag(g.nodes[n].tag),
        forall|k: int| 0 <= k < g.nodes[n].lemma.len() ==> g.nodes[n].lemma[k] != '#',
    ensures
        remove_sep_verb_prefix_spec(
            TokView { lemma: add_separated_verb_prefix_spec(false, g, n), ..g.nodes[n] },
        ) == g.nodes[n].lemma,
{
    let t = g.nodes[n];
    assert(is_verb_tag(t.tag)) by {
        reveal_strlit("VVFIN");
        reveal_strlit("VVPP");
        reveal_strlit("VVIMP");
        reveal_strlit("VMFIN");
        reveal_strlit("VAFIN");
    }
    reveal_strlit("#");
    let parts = particle_forms(g, n, g.edges.len() as int);
    if parts.len() == 0 {
        lemma_last_index_of(t.lemma, '#');
        if last_index_of(t.lemma, '#') != -1 {
            assert(t.lemma[last_index_of(t.lemma, '#')] == '#');
        }
    } else {
        let added = parts[0] + "#"@ + t.lemma;
        let hash_pos = parts[0].len() as int;
        assert(added[hash_pos] == '#');
        assert(forall|k: int| hash_pos < k < added.len() ==> added[k] == t.lemma[k - hash_pos - 1]);
        lemma_index_bounds_last(added, '#', hash_pos);
        assert(added.skip(hash_pos + 1) =~= t.lemma);
    }
}

} // verus!
