use ohnomore::batch::{Batch, InputVectorizer};
use ohnomore::graph::{sentence_to_graph, CorpusToken, DependencyGraph, InputToken};
use ohnomore::lookup::{Lookup, LookupTable, MutableLookupTable};
use ohnomore::transform::auxpassiv::{verb_lemma_tag, AddAuxPassivTag, VerbLemmaTag};
use ohnomore::transform::delemmatization::{RemoveAlternatives, RemoveSepVerbPrefix};
use ohnomore::transform::lemmatization::{AddSeparatedVerbPrefix, RestoreCase};
use ohnomore::transform::{Transform, Transforms};
use ohnomore::LemmatizationError;

fn node(g: &mut DependencyGraph, form: &str, lemma: &str, tag: &str) -> usize {
    g.add_node(CorpusToken::new(
        form.to_string(),
        lemma.to_string(),
        tag.to_string(),
    ))
}

#[test]
fn aux_passiv_direct_verdict() {
    // werden + AUX -> participle: passive.
    let mut g = DependencyGraph::new();
    let v = node(&mut g, "wird", "werden", "VAFIN");
    let d = node(&mut g, "gebaut", "bauen", "VVPP");
    g.add_edge(v, d, "AUX".to_string());
    assert!(matches!(verb_lemma_tag(&g, v), VerbLemmaTag::Passive));
    assert_eq!(AddAuxPassivTag.transform(&g, v), "werden%passiv");

    // haben + AUX -> participle: auxiliary.
    let mut g = DependencyGraph::new();
    let v = node(&mut g, "hat", "haben", "VAFIN");
    let d = node(&mut g, "gebaut", "bauen", "VVPP");
    g.add_edge(v, d, "AUX".to_string());
    assert!(matches!(verb_lemma_tag(&g, v), VerbLemmaTag::Auxiliary));
    assert_eq!(AddAuxPassivTag.transform(&g, v), "haben%aux");

    // A non-auxiliary tag is untouched.
    let mut g = DependencyGraph::new();
    let v = node(&mut g, "baut", "bauen", "VVFIN");
    let d = node(&mut g, "gebaut", "bauen", "VVPP");
    g.add_edge(v, d, "AUX".to_string());
    assert_eq!(AddAuxPassivTag.transform(&g, v), "bauen");
}

#[test]
fn aux_passiv_conjunction_ancestor_verdict() {
    // The verb has no dependents of its own; the verdict comes from the
    // ancestor reached through a conjunct-complement and a coordination
    // edge.
    let mut g = DependencyGraph::new();
    let v = node(&mut g, "wird", "werden", "VAFIN");
    let cj = node(&mut g, "und", "und", "KON");
    let anc = node(&mut g, "wird", "werden", "VAFIN");
    let part = node(&mut g, "gebaut", "bauen", "VVPP");
    g.add_edge(cj, v, "CJ".to_string());
    g.add_edge(anc, cj, "KON".to_string());
    g.add_edge(anc, part, "AUX".to_string());
    assert_eq!(AddAuxPassivTag.transform(&g, v), "werden%passiv");
}

#[test]
fn aux_passiv_adverbial_governor_verdict() {
    // An infinitive governs the auxiliary through an adverbial relation.
    let mut g = DependencyGraph::new();
    let v = node(&mut g, "hat", "haben", "VAFIN");
    let inf = node(&mut g, "bauen", "bauen", "VVINF");
    g.add_edge(inf, v, "ADV".to_string());
    assert_eq!(AddAuxPassivTag.transform(&g, v), "haben%aux");

    // Without any evidence the lemma is unchanged.
    let mut g = DependencyGraph::new();
    let v = node(&mut g, "hat", "haben", "VAFIN");
    assert_eq!(AddAuxPassivTag.transform(&g, v), "haben");
}

fn input(form: &str, lemma: &str, tag: &str, head: usize, rel: Option<&str>) -> InputToken {
    InputToken {
        form: form.to_string(),
        lemma: lemma.to_string(),
        tag: tag.to_string(),
        head,
        head_rel: rel.map(|r| r.to_string()),
    }
}

#[test]
fn sentence_without_head_relation_is_rejected() {
    let sentence = vec![
        input("Das", "d", "ART", 2, Some("DET")),
        input("Haus", "haus", "NN", 0, None),
    ];
    match sentence_to_graph(&sentence) {
        Err(LemmatizationError::MissingHeadRelation) => {},
        _ => panic!("a token without a head relation must be rejected"),
    }
}

#[test]
fn sentence_builds_graph_with_head_edges() {
    let sentence = vec![
        input("Das", "d", "ART", 2, Some("DET")),
        input("Haus", "haus", "NN", 0, Some("ROOT")),
    ];
    let g = sentence_to_graph(&sentence).expect("both tokens carry a head relation");
    assert_eq!(g.node_count(), 2);
    // The root token contributes no edge; the article hangs off the noun.
    assert_eq!(g.edge_count(), 1);
    let e = g.edge(0);
    assert_eq!(e.head, 1);
    assert_eq!(e.dependent, 0);
    assert_eq!(e.relation, "DET");
    assert_eq!(g.token(0).form, "Das");
    assert_eq!(g.token(1).lemma, "haus");
}

#[test]
fn pipeline_applies_rules_in_order() {
    // RestoreCase runs before RemoveAlternatives would matter, and the
    // separated prefix is added before the alternative-stripping pass.
    let mut g = DependencyGraph::new();
    let v = node(&mut g, "zeichnen", "zeichnen", "VVFIN");
    let p = node(&mut g, "ab", "ab", "PTKVZ");
    let n = node(&mut g, "Häuser", "haus", "NN");
    g.add_edge(v, p, "AVZ".to_string());
    g.add_edge(v, n, "OBJ".to_string());

    let pipeline = Transforms(vec![
        Transform::RestoreCase(RestoreCase),
        Transform::AddSeparatedVerbPrefix(AddSeparatedVerbPrefix::new(true)),
    ]);
    pipeline.transform(&mut g);
    assert_eq!(g.token(v).lemma, "ab#zeichnen");
    assert_eq!(g.token(n).lemma, "Haus");
    // Forms and tags pass through unchanged.
    assert_eq!(g.token(v).form, "zeichnen");
    assert_eq!(g.token(n).tag, "NN");
}

#[test]
fn pipeline_round_trip_on_sentence() {
    // Lemmatize a marked lemma away and back.
    let mut g = DependencyGraph::new();
    let v = node(&mut g, "zeichnen", "zeichnen", "VVFIN");
    let p = node(&mut g, "ab", "ab", "PTKVZ");
    g.add_edge(v, p, "AVZ".to_string());

    Transforms(vec![Transform::AddSeparatedVerbPrefix(
        AddSeparatedVerbPrefix::new(false),
    )])
    .transform(&mut g);
    assert_eq!(g.token(v).lemma, "ab#zeichnen");

    Transforms(vec![Transform::RemoveSepVerbPrefix(RemoveSepVerbPrefix)]).transform(&mut g);
    assert_eq!(g.token(v).lemma, "zeichnen");
}

#[test]
fn pipeline_strips_alternatives_everywhere() {
    let mut g = DependencyGraph::new();
    let a = node(&mut g, "nimmt", "zu#nehmen|ab#nehmen", "VVFIN");
    let b = node(&mut g, "gibt", "geben", "VVFIN");
    Transforms(vec![Transform::RemoveAlternatives(RemoveAlternatives)]).transform(&mut g);
    assert_eq!(g.token(a).lemma, "zu#nehmen");
    assert_eq!(g.token(b).lemma, "geben");
}

#[test]
fn vectorizer_numbers_chars_and_tags() {
    let mut chars: MutableLookupTable<char> = MutableLookupTable::new();
    assert_eq!(chars.lookup(&'a'), Some(1));
    assert_eq!(chars.lookup(&'b'), Some(2));
    let mut tags: MutableLookupTable<String> = MutableLookupTable::new();
    assert_eq!(tags.lookup(&"NN".to_string()), Some(1));

    let vectorizer = InputVectorizer::new(LookupTable::from(chars), LookupTable::from(tags));
    let v = vectorizer.vectorize("aba", &"NN".to_string());
    assert_eq!(v.chars(), &vec![1, 2, 1]);
    assert_eq!(v.tag(), 1);

    // Unknown characters and tags get the null index.
    let v = vectorizer.vectorize("abc", &"XY".to_string());
    assert_eq!(v.chars(), &vec![1, 2, 0]);
    assert_eq!(v.tag(), 0);
}

#[test]
fn batch_holds_its_halves() {
    let batch = Batch::new(vec!["a".to_string()], vec!["NN".to_string()]);
    assert_eq!(batch.tokens(), &vec!["a".to_string()]);
    assert_eq!(batch.tags(), &vec!["NN".to_string()]);
}

#[test]
fn error_message_names_the_problem() {
    let e = LemmatizationError::MissingHeadRelation;
    assert_eq!(e.message(), "token without head relation");
}
