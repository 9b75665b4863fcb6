use ohnomore::automaton::PrefixSet;
use ohnomore::svp::longest_prefixes;
use ohnomore::graph::{CorpusToken, DependencyGraph};
use ohnomore::text::uppercase_first_char;
use ohnomore::transform::delemmatization::RemoveSepVerbPrefix;
use ohnomore::transform::lemmatization::{
    AddSeparatedVerbPrefix, FormAsLemma, MarkVerbPrefix, RestoreCase,
};

fn single(form: &str, lemma: &str, tag: &str) -> DependencyGraph {
    let mut g = DependencyGraph::new();
    g.add_node(CorpusToken::new(
        form.to_string(),
        lemma.to_string(),
        tag.to_string(),
    ));
    g
}

/// A graph with one verb and one separable particle attached to it.
fn verb_with_particles(verb: (&str, &str, &str), particles: &[&str]) -> DependencyGraph {
    let mut g = DependencyGraph::new();
    let v = g.add_node(CorpusToken::new(
        verb.0.to_string(),
        verb.1.to_string(),
        verb.2.to_string(),
    ));
    for p in particles {
        let d = g.add_node(CorpusToken::new(
            p.to_string(),
            p.to_string(),
            "PTKVZ".to_string(),
        ));
        g.add_edge(v, d, "AVZ".to_string());
    }
    g
}

#[test]
fn first_char_is_uppercased() {
    assert_eq!(uppercase_first_char("test"), "Test");
    assert_eq!(uppercase_first_char("Test"), "Test");
    assert_eq!(uppercase_first_char(""), "");
}

#[test]
fn add_separated_verb_prefix() {
    // A separated particle is rejoined into the lemma.
    let g = verb_with_particles(("zeichnen", "zeichnen", "VVFIN"), &["ab"]);
    assert_eq!(
        AddSeparatedVerbPrefix::new(true).transform(&g, 0),
        "ab#zeichnen"
    );
    assert_eq!(
        AddSeparatedVerbPrefix::new(false).transform(&g, 0),
        "ab#zeichnen"
    );

    // Multiple competing particles, multiple-prefix mode: one variant each.
    let g = verb_with_particles(("nimmt", "nehmen", "VVFIN"), &["zu", "ab"]);
    assert_eq!(
        AddSeparatedVerbPrefix::new(true).transform(&g, 0),
        "zu#nehmen|ab#nehmen"
    );
    // Single-prefix mode: only the first particle is prepended.
    assert_eq!(
        AddSeparatedVerbPrefix::new(false).transform(&g, 0),
        "zu#nehmen"
    );

    // A particle's form is lowercased.
    let g = verb_with_particles(("zeichnen", "zeichnen", "VVFIN"), &["Ab"]);
    assert_eq!(
        AddSeparatedVerbPrefix::new(true).transform(&g, 0),
        "ab#zeichnen"
    );

    // No particle, or a non-separable tag: the lemma is unchanged.
    let g = verb_with_particles(("zeichnen", "zeichnen", "VVFIN"), &[]);
    assert_eq!(AddSeparatedVerbPrefix::new(true).transform(&g, 0), "zeichnen");
    let g = verb_with_particles(("zeichnen", "zeichnen", "VVINF"), &["ab"]);
    assert_eq!(AddSeparatedVerbPrefix::new(true).transform(&g, 0), "zeichnen");
}

#[test]
fn sep_prefix_round_trip_recovers_lemma() {
    // Adding a separated prefix in single-prefix mode and removing it
    // again recovers the bare lemma.
    let g = verb_with_particles(("zeichnen", "zeichnen", "VVFIN"), &["ab"]);
    let marked = AddSeparatedVerbPrefix::new(false).transform(&g, 0);
    let g2 = single("zeichnen", &marked, "VVFIN");
    assert_eq!(RemoveSepVerbPrefix.transform(&g2, 0), "zeichnen");
}

#[test]
fn form_as_lemma() {
    // For these tags the lemma is the lowercased form.
    let g = single("Bereits", "x", "ADV");
    assert_eq!(FormAsLemma.transform(&g, 0), "bereits");
    let g = single("Und", "", "KON");
    assert_eq!(FormAsLemma.transform(&g, 0), "und");
    let g = single(",", "", "$,");
    assert_eq!(FormAsLemma.transform(&g, 0), ",");

    // Other tags keep their lemma.
    let g = single("Haus", "haus", "NN");
    assert_eq!(FormAsLemma.transform(&g, 0), "haus");
}

#[test]
fn restore_case() {
    // Nouns get their lemma uppercased.
    let g = single("Hauses", "haus", "NN");
    assert_eq!(RestoreCase.transform(&g, 0), "Haus");

    // Named entities copy the casing of the form.
    let g = single("Hamburg", "hamburg", "NE");
    assert_eq!(RestoreCase.transform(&g, 0), "Hamburg");
    let g = single("ebay", "ebay", "NE");
    assert_eq!(RestoreCase.transform(&g, 0), "ebay");

    // Other tags keep their lemma.
    let g = single("Gehen", "gehen", "VVINF");
    assert_eq!(RestoreCase.transform(&g, 0), "gehen");
}

fn prefix_set() -> PrefixSet {
    let words = [
        "ab", "an", "auf", "aus", "bei", "dazu", "hin", "hinzu", "mit", "nach", "vor", "weg",
        "zu",
    ];
    PrefixSet::from_words(words.iter().map(|w| w.to_string()).collect())
}

#[test]
fn mark_verb_prefix() {
    let prefix_verbs = vec![("abbestellen".to_string(), "ab#bestellen".to_string())];
    let transform = MarkVerbPrefix::new(prefix_verbs, prefix_set());

    // An explicit override is looked up by the lowercased lemma.
    let g = single("abbestellte", "Abbestellen", "VVFIN");
    assert_eq!(transform.transform(&g, 0), "ab#bestellen");

    // A prefix found in the form is marked in the lemma.
    let g = single("dazugefügt", "fügen", "VVPP");
    assert_eq!(transform.transform(&g, 0), "dazu#fügen");

    // In a zu-infinitive the particle is not absorbed into a prefix.
    let g = single("hinzubewegen", "bewegen", "VVIZU");
    assert_eq!(transform.transform(&g, 0), "hin#bewegen");

    // No prefix, or not a verb: the lemma is unchanged.
    let g = single("lacht", "lachen", "VVFIN");
    assert_eq!(transform.transform(&g, 0), "lachen");
    let g = single("Abfahrt", "abfahrt", "NN");
    assert_eq!(transform.transform(&g, 0), "abfahrt");
}

#[test]
fn segmentation_is_deterministic() {
    let set = prefix_set();
    let first = longest_prefixes(&set, "dazugefügt", "fügen", "VVPP");
    let second = longest_prefixes(&set, "dazugefügt", "fügen", "VVPP");
    assert_eq!(first, second);
    assert_eq!(first, vec!["dazu".to_string()]);
}

#[test]
fn segmentation_prefers_more_consumed_then_finer() {
    // Both "auf" and "aus" could start a chain; the one consuming more of
    // the form wins.
    let set = prefix_set();
    assert_eq!(
        longest_prefixes(&set, "aufgemacht", "machen", "VVPP"),
        vec!["auf".to_string()]
    );

    // "hinzu" and "hin"+"zu" consume equally much; the finer segmentation
    // wins.
    let g = longest_prefixes(&set, "hinzugefügt", "fügen", "VVPP");
    assert_eq!(g, vec!["hin".to_string(), "zu".to_string()]);

    // The chain stops before the verb stem: *abgefangen* with lemma
    // *fangen* yields only *ab*, not a chain reaching into *gefangen*.
    assert_eq!(
        longest_prefixes(&set, "abgefangen", "fangen", "VVPP"),
        vec!["ab".to_string()]
    );
}

#[test]
fn segmentation_ties_pick_the_latest_chain() {
    // *da#rein* and *dar#ein* consume equally much with equally many
    // prefixes; of fully tied chains the one enumerated last wins, here
    // the one starting with the longer first prefix.
    let words = ["da", "dar", "ein", "rein"];
    let set = PrefixSet::from_words(words.iter().map(|w| w.to_string()).collect());
    assert_eq!(
        longest_prefixes(&set, "dareinlegen", "legen", "VVPP"),
        vec!["dar".to_string(), "ein".to_string()]
    );
}
