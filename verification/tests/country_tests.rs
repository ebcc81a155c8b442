use kinsaga::country::{country_code_exact, country_code_of};
use kinsaga::country::{contains_word, suggestion_query};
use kinsaga::fuzzy_match;

#[test]
fn test_fuzzy_match_exact() {
    assert!(fuzzy_match("France", "France"));
    assert!(fuzzy_match("france", "FRANCE"));
}

#[test]
fn test_fuzzy_match_contains() {
    assert!(fuzzy_match("Paris", "Paris, France"));
    assert!(fuzzy_match("New York City", "New York"));
}

#[test]
fn test_fuzzy_match_normalized() {
    // Hyphens and underscores are normalized to spaces
    assert!(fuzzy_match("Ile-de-France", "Ile de France"));
    assert!(fuzzy_match("New_York", "new york"));
}

#[test]
fn test_fuzzy_match_no_match() {
    assert!(!fuzzy_match("France", "Germany"));
    assert!(!fuzzy_match("Paris", "London"));
}

#[test]
fn test_fuzzy_match_iso_country_codes() {
    // Swiss codes
    assert!(fuzzy_match("CH", "Switzerland"));
    assert!(fuzzy_match("CH", "Schweiz"));
    assert!(fuzzy_match("CH", "Schweiz/Suisse/Svizzera/Svizra"));

    // Japanese codes
    assert!(fuzzy_match("JP", "Japan"));
    assert!(fuzzy_match("JP", "日本"));

    // German codes
    assert!(fuzzy_match("DE", "Germany"));
    assert!(fuzzy_match("DE", "Deutschland"));

    // US codes
    assert!(fuzzy_match("US", "United States"));
    assert!(fuzzy_match("US", "USA"));

    // Reverse order should also work
    assert!(fuzzy_match("Switzerland", "CH"));
    assert!(fuzzy_match("日本", "JP"));

    // Different names for the same country should match
    assert!(fuzzy_match("Japan", "日本"));
    assert!(fuzzy_match("Deutschland", "Germany"));
    assert!(fuzzy_match("Schweiz", "Switzerland"));
}

#[test]
fn test_fuzzy_match_full_iso_coverage() {
    // Countries beyond the alias overlay resolve via the ISO 3166 table
    assert!(fuzzy_match("UA", "Ukraine"));
    assert!(fuzzy_match("Ukraine", "Україна"));
    assert!(fuzzy_match("HR", "Croatia"));
    assert!(fuzzy_match("Hrvatska", "Croatia"));
    assert!(fuzzy_match("EE", "Estonia"));
    assert!(fuzzy_match("Eesti", "Estonia"));
    // Official long forms match their common short forms
    assert!(fuzzy_match("US", "United States of America"));
    assert!(fuzzy_match("Bolivia", "Bolivia (Plurinational State of)"));
    // Alpha-3 codes resolve too
    assert!(fuzzy_match("UKR", "Ukraine"));
    // No new false positives
    assert!(!fuzzy_match("UA", "United Arab Emirates"));
    assert!(!fuzzy_match("Niger", "Nigeria"));
    assert!(!fuzzy_match("Sudan", "South Sudan"));
}

#[test]
fn test_fuzzy_match_no_short_code_false_positives() {
    // ISO codes must not substring-match unrelated country names
    assert!(!fuzzy_match("CH", "China"));
    assert!(!fuzzy_match("US", "Russia"));
    assert!(!fuzzy_match("IN", "Argentina"));
    assert!(!fuzzy_match("Ukraine", "United Kingdom"));
}

#[test]
fn test_contains_word() {
    assert!(contains_word("paris, france", "paris"));
    assert!(contains_word("new york city", "new york"));
    assert!(contains_word("schweiz/suisse/svizzera", "schweiz"));
    assert!(!contains_word("china", "ch"));
    assert!(!contains_word("russia", "us"));
    assert!(!contains_word("ukraine", "uk"));
    assert!(!contains_word("jerusalem", "usa"));
    assert!(!contains_word("paris", ""));
}

#[test]
fn test_suggestion_query() {
    assert_eq!(suggestion_query("France", Some("Paris")), "Paris, France");
    assert_eq!(suggestion_query("France", None), "France");
}

// ---------------------------------------------------------------------------

#[test]
fn fuzzy_match_is_symmetric_on_examples() {
    for (a, b) in [("CH", "Schweiz"), ("Paris", "Paris, France"), ("France", "Germany"), ("JP", "日本")] {
        assert_eq!(fuzzy_match(a, b), fuzzy_match(b, a));
    }
}

#[test]
fn country_codes_resolve() {
    assert_eq!(country_code_exact("Deutschland").as_deref(), Some("DE"));
    assert_eq!(country_code_exact("de").as_deref(), Some("DE"));
    assert_eq!(country_code_exact("Atlantis"), None);
    assert_eq!(country_code_of("Schweiz/Suisse/Svizzera/Svizra").as_deref(), Some("CH"));
}
