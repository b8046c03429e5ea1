use std::str::FromStr;

use rust_diagnostics::extract::item_query;
use rust_diagnostics::language::Language;

#[test]
fn all_lists_every_language() {
    let all = Language::all();
    assert_eq!(all.len(), 1);
    assert!(matches!(all[0], Language::Rust));
}

#[test]
fn types_builder_name_is_rust() {
    assert_eq!(Language::Rust.name_for_types_builder(), "rust");
}

#[test]
fn language_for_name_knows_exactly_rust() {
    assert!(matches!(
        Language::language_for_name("rust"),
        Some(Language::Rust)
    ));
    assert!(Language::language_for_name("Rust").is_none());
    assert!(Language::language_for_name("").is_none());
}

#[test]
fn language_names_parse_back() {
    assert!(matches!(Language::from_str("rust"), Ok(Language::Rust)));
    assert!(Language::from_str("cobol").is_err());
}

#[test]
fn the_item_query_compiles() {
    assert!(Language::Rust.parse_query(item_query()).is_some());
}

#[test]
fn a_broken_query_is_refused() {
    assert!(Language::Rust.parse_query("((").is_none());
}

#[test]
fn the_grammar_is_available() {
    let _ = Language::Rust.language();
}
