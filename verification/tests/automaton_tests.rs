use ohnomore::automaton::{LongestPrefix, PrefixSet};

fn test_set() -> PrefixSet {
    let words = vec![
        "p".to_string(),
        "pre".to_string(),
        "pref".to_string(),
        "prefix".to_string(),
    ];
    PrefixSet::from_words(words)
}

#[test]
fn finds_prefixes() {
    let set = test_set();

    let prefixes = set.prefixes("prefixes");
    let mut iter = prefixes.iter();
    assert_eq!(iter.next().map(|s| s.as_str()), Some("p"));
    assert_eq!(iter.next().map(|s| s.as_str()), Some("pre"));
    assert_eq!(iter.next().map(|s| s.as_str()), Some("pref"));
    assert_eq!(iter.next().map(|s| s.as_str()), Some("prefix"));
    assert!(iter.next().is_none());

    let prefixes = set.prefixes("pre");
    let mut iter = prefixes.iter();
    assert_eq!(iter.next().map(|s| s.as_str()), Some("p"));
    assert_eq!(iter.next().map(|s| s.as_str()), Some("pre"));
    assert!(iter.next().is_none());

    assert!(set.prefixes("fix").is_empty());
}

#[test]
fn member_is_its_own_longest_prefix() {
    // A string in the prefix set is the last element of its own prefix
    // sequence.
    let set = test_set();
    for word in ["p", "pre", "pref", "prefix"] {
        let prefixes = set.prefixes(word);
        assert_eq!(prefixes.last().map(|s| s.as_str()), Some(word));
    }
}

#[test]
fn longest_prefix_is_last_of_prefixes() {
    let set = test_set();
    for word in ["prefixes", "pre", "fix", "apropos", "prefab"] {
        let prefixes = set.prefixes(word);
        assert_eq!(
            set.longest_prefix(word),
            prefixes.last().cloned(),
            "longest_prefix and prefixes disagree on {word}"
        );
    }
    assert_eq!(set.longest_prefix("prefabricated").map(|s| s), Some("pref".to_string()));
    assert_eq!(set.longest_prefix("fix"), None);
}
