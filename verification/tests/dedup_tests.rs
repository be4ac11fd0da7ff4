use case_insensitive_dedup::dedup::deduplicate_case_insensitive;
use case_insensitive_dedup::key::CaseInsensitiveString;

#[test]
fn removes_duplicates() {
    let input = vec![
        CaseInsensitiveString::new("bar"),
        CaseInsensitiveString::new("baz"),
        CaseInsensitiveString::new("foo"),
        CaseInsensitiveString::new("Bar"),
        CaseInsensitiveString::new("Baz"),
    ];
    let expected = vec!["bar", "baz", "foo"];

    let results: Vec<String> = deduplicate_case_insensitive(input)
        .into_iter()
        .map(|s| s.inner)
        .collect();

    assert_eq!(results.len(), expected.len());
    assert_eq!(results.contains(&String::from("bar")), true);
    assert_eq!(results.contains(&String::from("baz")), true);
    assert_eq!(results.contains(&String::from("foo")), true);
    assert_eq!(results.contains(&String::from("Bar")), false);
    assert_eq!(results.contains(&String::from("Baz")), false);
}

/// Retains the first seen value - in this case "Bar", not "bar"
#[test]
fn keeps_first_seen() {
    let input = vec![
        CaseInsensitiveString::new("Bar"),
        CaseInsensitiveString::new("baz"),
        CaseInsensitiveString::new("foo"),
        CaseInsensitiveString::new("bar"),
        CaseInsensitiveString::new("Baz"),
    ];
    let expected = vec!["bar", "baz", "foo"];

    let results: Vec<String> = deduplicate_case_insensitive(input)
        .into_iter()
        .map(|s| s.inner)
        .collect();

    assert_eq!(results.len(), expected.len());
    assert_eq!(results.contains(&String::from("Bar")), true);
    assert_eq!(results.contains(&String::from("baz")), true);
    assert_eq!(results.contains(&String::from("foo")), true);
    assert_eq!(results.contains(&String::from("bar")), false);
    assert_eq!(results.contains(&String::from("Baz")), false);
}

#[test]
fn empty_input_gives_empty_output() {
    let input: Vec<CaseInsensitiveString> = Vec::new();
    let results = deduplicate_case_insensitive(input);
    assert_eq!(results.len(), 0);
}

#[test]
fn single_element_is_returned_unchanged() {
    let input = vec![CaseInsensitiveString::new("Foo")];
    let results = deduplicate_case_insensitive(input);
    assert_eq!(results.len(), 1);
    assert_eq!(results[0].inner, "Foo");
}

#[test]
fn distinct_input_keeps_every_value() {
    let input = vec![
        CaseInsensitiveString::new("alpha"),
        CaseInsensitiveString::new("Beta"),
        CaseInsensitiveString::new("GAMMA"),
    ];
    let mut results: Vec<String> = deduplicate_case_insensitive(input)
        .into_iter()
        .map(|s| s.inner)
        .collect();
    let mut expected = vec![
        String::from("alpha"),
        String::from("Beta"),
        String::from("GAMMA"),
    ];
    results.sort();
    expected.sort();
    assert_eq!(results, expected);
}

#[test]
fn all_duplicates_collapse_to_first_spelling() {
    let input = vec![
        CaseInsensitiveString::new("Word"),
        CaseInsensitiveString::new("word"),
        CaseInsensitiveString::new("WORD"),
        CaseInsensitiveString::new("WoRd"),
        CaseInsensitiveString::new("wOrD"),
    ];
    let results = deduplicate_case_insensitive(input);
    assert_eq!(results.len(), 1);
    assert_eq!(results[0].inner, "Word");
}

#[test]
fn output_length_counts_distinct_folded_values() {
    let input = vec![
        CaseInsensitiveString::new("a"),
        CaseInsensitiveString::new("A"),
        CaseInsensitiveString::new("b"),
        CaseInsensitiveString::new("B"),
        CaseInsensitiveString::new("b"),
        CaseInsensitiveString::new("c"),
    ];
    let results = deduplicate_case_insensitive(input);
    assert_eq!(results.len(), 3);
}

#[test]
fn empty_strings_are_duplicates_of_each_other() {
    let input = vec![
        CaseInsensitiveString::new(""),
        CaseInsensitiveString::new(""),
    ];
    let results = deduplicate_case_insensitive(input);
    assert_eq!(results.len(), 1);
    assert_eq!(results[0].inner, "");
}
