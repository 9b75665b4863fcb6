use ohnomore::graph::{CorpusToken, DependencyGraph};
use ohnomore::transform::misc::{
    SimplifyArticleLemma, SimplifyPersonalPronounLemma, SimplifyPossesivePronounLemma,
};

fn single(form: &str, lemma: &str, tag: &str) -> DependencyGraph {
    let mut g = DependencyGraph::new();
    g.add_node(CorpusToken::new(
        form.to_string(),
        lemma.to_string(),
        tag.to_string(),
    ));
    g
}

#[test]
fn simplify_article_lemma() {
    let g = single("dessen", "das", "ART");
    assert_eq!(SimplifyArticleLemma.transform(&g, 0), "d");

    let g = single("einem", "ein", "ART");
    assert_eq!(SimplifyArticleLemma.transform(&g, 0), "e");

    // The form is lowercased first.
    let g = single("Der", "der", "ART");
    assert_eq!(SimplifyArticleLemma.transform(&g, 0), "d");
    let g = single("Eine", "ein", "ART");
    assert_eq!(SimplifyArticleLemma.transform(&g, 0), "e");

    // Relative pronouns are simplified too.
    let g = single("deren", "die", "PRELS");
    assert_eq!(SimplifyArticleLemma.transform(&g, 0), "d");
    let g = single("dessen", "das", "PRELAT");
    assert_eq!(SimplifyArticleLemma.transform(&g, 0), "d");

    // Other forms and tags are unchanged.
    let g = single("welchem", "welch", "ART");
    assert_eq!(SimplifyArticleLemma.transform(&g, 0), "welch");
    let g = single("dessen", "das", "NN");
    assert_eq!(SimplifyArticleLemma.transform(&g, 0), "das");
}

#[test]
fn simplify_possesive_pronoun_lemma() {
    let rule = SimplifyPossesivePronounLemma::new();

    let g = single("deinen", "dein", "PPOSAT");
    assert_eq!(rule.transform(&g, 0), "dein");
    let g = single("Deiner", "dein", "PPOSAT");
    assert_eq!(rule.transform(&g, 0), "dein");
    let g = single("meinem", "mein", "PPOSAT");
    assert_eq!(rule.transform(&g, 0), "mein");

    // The literal exception: *eure* maps to *euer*.
    let g = single("eurem", "euer", "PPOSAT");
    assert_eq!(rule.transform(&g, 0), "euer");

    // The substituting tag uses its own prefix set.
    let g = single("unsrigen", "unsrig", "PPOSS");
    assert_eq!(rule.transform(&g, 0), "unsrig");

    // No prefix matches: the lemma is unchanged.
    let g = single("wessen", "wes", "PPOSAT");
    assert_eq!(rule.transform(&g, 0), "wes");

    // Other tags are unchanged.
    let g = single("deinen", "x", "NN");
    assert_eq!(rule.transform(&g, 0), "x");
}

#[test]
fn simplify_personal_pronoun_lemma() {
    let cases = [
        ("mich", "ich"),
        ("mir", "ich"),
        ("dich", "du"),
        ("deiner", "du"),
        ("ihn", "er"),
        ("ihm", "er"),
        ("ihnen", "sie"),
        ("'s", "es"),
        ("uns", "wir"),
        ("euch", "ihr"),
    ];
    for (form, lemma) in cases {
        let g = single(form, "x", "PPER");
        assert_eq!(
            SimplifyPersonalPronounLemma.transform(&g, 0),
            lemma,
            "form {form}"
        );
    }

    // The ambiguous *ihr* always resolves to *sie*.
    let g = single("Ihr", "x", "PPER");
    assert_eq!(SimplifyPersonalPronounLemma.transform(&g, 0), "sie");

    // An unknown form keeps its lemma; another tag is untouched.
    let g = single("man", "man", "PPER");
    assert_eq!(SimplifyPersonalPronounLemma.transform(&g, 0), "man");
    let g = single("euch", "x", "NN");
    assert_eq!(SimplifyPersonalPronounLemma.transform(&g, 0), "x");
}
