use local_projects::lexer::tokenize;

fn chars(s: &str) -> Vec<char> {
    s.chars().collect()
}

#[test]
fn tokenize_splits_on_space_and_punctuation() {
    let toks = tokenize(&chars("Hello, World! next.js"));
    assert_eq!(toks, vec!["hello", "world", "next", "js"]);
}

#[test]
fn tokenize_empty_and_blank_text() {
    assert!(tokenize(&chars("")).is_empty());
    assert!(tokenize(&chars("  \t\n ,;")).is_empty());
}

#[test]
fn tokenize_keeps_non_ascii_letters_and_digits() {
    let toks = tokenize(&chars("Größe\u{3000}version2 ÉCOLE"));
    assert_eq!(toks, vec!["größe", "version2", "École"]);
}

#[test]
fn tokenize_is_the_same_for_query_and_document() {
    let text = chars("Rust Systems programming");
    assert_eq!(tokenize(&text), tokenize(&text));
    assert_eq!(tokenize(&text), vec!["rust", "systems", "programming"]);
}
