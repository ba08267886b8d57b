use subs::text::{
    chars_of, contains_name, contains_text, decimal_text, fit_name, same_text,
    same_text_ignoring_case,
};

#[test]
fn chars_of_keeps_every_character() {
    assert_eq!(chars_of("Aleñá"), vec!['A', 'l', 'e', 'ñ', 'á']);
    assert_eq!(chars_of(""), Vec::<char>::new());
}

#[test]
fn same_text_compares_exactly() {
    assert!(same_text("Pass", "Pass"));
    assert!(!same_text("Pass", "pass"));
    assert!(!same_text("Pass", "Passes"));
    assert!(same_text("", ""));
}

#[test]
fn ascii_case_is_ignored_only_for_ascii_letters() {
    assert!(same_text_ignoring_case("Barcelona", "barcelona"));
    assert!(same_text_ignoring_case("REAL MADRID", "Real Madrid"));
    assert!(!same_text_ignoring_case("Barcelona", "Barcelon"));
    assert!(!same_text_ignoring_case("Atlético", "ATLÉTICO"));
    assert!(same_text_ignoring_case("Atlético", "ATLéTICO"));
    assert!(!same_text_ignoring_case("a-b", "a_b"));
}

#[test]
fn substring_search() {
    assert!(contains_text("RCB", "CB"));
    assert!(contains_text("CDM", "DM"));
    assert!(!contains_text("CDM", "CM"));
    assert!(contains_text("anything", ""));
    assert!(!contains_text("", "x"));
    assert!(contains_text("Won", "Won"));
    assert!(!contains_text("Lost In Play", "Won"));
}

#[test]
fn decimal_text_of_numbers() {
    assert_eq!(decimal_text(0), "0");
    assert_eq!(decimal_text(7), "7");
    assert_eq!(decimal_text(10), "10");
    assert_eq!(decimal_text(69225), "69225");
    assert_eq!(decimal_text(u32::MAX), "4294967295");
}

#[test]
fn fit_name_cuts_with_an_ellipsis() {
    assert_eq!(fit_name("Sergio Busquets Burgos", 10), "Sergio Bu…");
    assert_eq!(fit_name("Messi", 10), "Messi");
    assert_eq!(fit_name("Messi", 5), "Messi");
    assert_eq!(fit_name("Messi", 4), "Mes…");
    assert_eq!(fit_name("Messi", 1), "…");
    assert_eq!(fit_name("Messi", 0), "…");
    assert_eq!(fit_name("Carles Aleñá Castillo", 8), "Carles …");
}

#[test]
fn contains_name_finds_exact_names() {
    let names = vec!["Pique".to_string(), "Vidal".to_string()];
    assert!(contains_name(&names, "Vidal"));
    assert!(!contains_name(&names, "vidal"));
    assert!(!contains_name(&Vec::new(), "Vidal"));
}
