use ohnomore::graph::{CorpusToken, DependencyGraph};
use ohnomore::transform::delemmatization::{
    RemoveAlternatives, RemoveAuxTag, RemovePassivTag, RemoveReflexiveTag, RemoveSepVerbPrefix,
    RemoveTruncMarker,
};

fn single(form: &str, lemma: &str, tag: &str) -> DependencyGraph {
    let mut g = DependencyGraph::new();
    g.add_node(CorpusToken::new(
        form.to_string(),
        lemma.to_string(),
        tag.to_string(),
    ));
    g
}

#[test]
fn remove_sep_verb_prefix() {
    let g = single("zeichnen", "ab#zeichnen", "VVFIN");
    assert_eq!(RemoveSepVerbPrefix.transform(&g, 0), "zeichnen");

    let g = single("machen", "wieder#gut#machen", "VVINF");
    assert_eq!(RemoveSepVerbPrefix.transform(&g, 0), "machen");

    let g = single("lacht", "lachen", "VVFIN");
    assert_eq!(RemoveSepVerbPrefix.transform(&g, 0), "lachen");

    // Not a verb: the lemma keeps its marker.
    let g = single("Haus", "ab#zeichnen", "NN");
    assert_eq!(RemoveSepVerbPrefix.transform(&g, 0), "ab#zeichnen");
}

#[test]
fn remove_trunc_marker() {
    let g = single("Bau-", "Bauplanung%n", "TRUNC");
    assert_eq!(RemoveTruncMarker.transform(&g, 0), "Bau-");

    let g = single("Bau-", "Bauplanung%adj", "TRUNC");
    assert_eq!(RemoveTruncMarker.transform(&g, 0), "bau-");

    // No marker: the lemma is unchanged.
    let g = single("Bau-", "Bauplanung", "TRUNC");
    assert_eq!(RemoveTruncMarker.transform(&g, 0), "Bauplanung");

    // Not truncated: the lemma is unchanged.
    let g = single("Bau", "Bauplanung%n", "NN");
    assert_eq!(RemoveTruncMarker.transform(&g, 0), "Bauplanung%n");
}

#[test]
fn remove_alternatives_takes_first_analysis() {
    let g = single("nimmt", "zu#nehmen|ab#nehmen", "VVFIN");
    assert_eq!(RemoveAlternatives.transform(&g, 0), "zu#nehmen");

    // Punctuation, non-word and foreign-word tokens pass through.
    let g = single("-", "a|b", "$(");
    assert_eq!(RemoveAlternatives.transform(&g, 0), "a|b");
    let g = single("x", "a|b", "XY");
    assert_eq!(RemoveAlternatives.transform(&g, 0), "a|b");
    let g = single("the", "a|b", "FM");
    assert_eq!(RemoveAlternatives.transform(&g, 0), "a|b");
}

#[test]
fn remove_alternatives_is_idempotent_on_samples() {
    for lemma in ["zu#nehmen|ab#nehmen", "gehen", "a|b|c", "", "|x"] {
        let g = single("w", lemma, "VVFIN");
        let once = RemoveAlternatives.transform(&g, 0);
        let g2 = single("w", &once, "VVFIN");
        let twice = RemoveAlternatives.transform(&g2, 0);
        assert_eq!(once, twice, "stripping {lemma} twice differs from once");
    }
}

#[test]
fn remove_reflexive_tag_uses_form() {
    let g = single("Sich", "#refl", "PRF");
    assert_eq!(RemoveReflexiveTag.transform(&g, 0), "sich");

    // A reflexive pronoun with an ordinary lemma is unchanged.
    let g = single("sich", "sich", "PRF");
    assert_eq!(RemoveReflexiveTag.transform(&g, 0), "sich");

    // The placeholder on another tag is unchanged.
    let g = single("Sich", "#refl", "NN");
    assert_eq!(RemoveReflexiveTag.transform(&g, 0), "#refl");
}

#[test]
fn remove_aux_tag_strips_marker() {
    let g = single("hat", "haben%aux", "VAFIN");
    assert_eq!(RemoveAuxTag.transform(&g, 0), "haben");

    let g = single("kann", "können%aux", "VMFIN");
    assert_eq!(RemoveAuxTag.transform(&g, 0), "können");

    let g = single("hat", "haben", "VAFIN");
    assert_eq!(RemoveAuxTag.transform(&g, 0), "haben");

    // The marker survives on a non-auxiliary tag.
    let g = single("hat", "haben%aux", "NN");
    assert_eq!(RemoveAuxTag.transform(&g, 0), "haben%aux");
}

#[test]
fn remove_passiv_tag_strips_marker() {
    let g = single("wird", "werden%passiv", "VAFIN");
    assert_eq!(RemovePassivTag.transform(&g, 0), "werden");

    let g = single("wird", "werden", "VAFIN");
    assert_eq!(RemovePassivTag.transform(&g, 0), "werden");

    let g = single("wird", "werden%passiv", "NN");
    assert_eq!(RemovePassivTag.transform(&g, 0), "werden%passiv");
}
