use mini_regex::engine::{match_pattern, search};
use mini_regex::parser::parse;
use mini_regex::syntax::{Expr, PatternError};
use mini_regex::text::chars_of;

fn m(text: &str, pattern: &str) -> bool {
    match_pattern(text, pattern).unwrap()
}

#[test]
fn literal_patterns() {
    assert!(m("cat", "cat"));
    assert!(!m("dog", "cat"));
}

#[test]
fn anchors() {
    assert!(m("cat", "^cat$"));
    assert!(!m("cats", "^cat$"));
    assert!(m("concatenate", "cat"));
    assert!(!m("concatenate", "^cat"));
    assert!(m("bobcat", "cat$"));
    assert!(!m("cats", "cat$"));
}

#[test]
fn character_classes() {
    assert!(m("3", "\\d"));
    assert!(!m("a", "\\d"));
    assert!(m("sally_12", "\\w+"));
    assert!(m("_", "\\w"));
    assert!(!m("-", "\\w"));
    assert!(!m("$!", "\\w"));
    assert!(m("x", "."));
    assert!(!m("", "."));
}

#[test]
fn bracket_expressions() {
    assert!(m("a", "[abc]"));
    assert!(!m("d", "[abc]"));
    assert!(m("d", "[^abc]"));
    assert!(!m("", "[^abc]"));
    assert!(!m("abc", "[^abc]"));
    assert!(m("x7", "[\\d]"));
    assert!(!m("a", "[]"));
}

#[test]
fn quantifiers() {
    assert!(!m("", "a+"));
    assert!(m("aaa", "a+"));
    assert!(m("", "a?"));
    assert!(!m("b", "ca?t"));
    assert!(m("ct", "ca?t"));
    assert!(m("cat", "ca?t"));
    assert!(!m("caat", "^ca?t$"));
}

#[test]
fn alternation() {
    assert!(m("cat", "(cat|dog)"));
    assert!(!m("fish", "(cat|dog)"));
    assert!(m("cats", "(cat|dog)s"));
    assert!(m("dogs", "^(cat|dog)s$"));
    assert!(!m("dog", "^(cat|dog)s$"));
    assert!(m("x", "(|x)y?"));
}

#[test]
fn backtracking_gives_back_repetitions() {
    assert!(m("aaab", "a+ab"));
    assert!(m("ab", "a?ab"));
    assert!(m("abab", "^(ab)+$"));
    assert!(!m("aba", "^(ab)+$"));
}

#[test]
fn unterminated_bracket_is_an_error() {
    assert_eq!(parse(&"[abc".to_string()), Err(PatternError::UnterminatedBracket));
    assert_eq!(match_pattern("abc", "[abc"), Err(PatternError::UnterminatedBracket));
    assert_eq!(parse(&"[^".to_string()), Err(PatternError::UnterminatedBracket));
}

#[test]
fn unterminated_group_is_an_error() {
    assert_eq!(parse(&"(cat|dog".to_string()), Err(PatternError::UnterminatedGroup));
    assert_eq!(match_pattern("cat", "(a"), Err(PatternError::UnterminatedGroup));
}

#[test]
fn empty_pattern_matches_every_text() {
    assert_eq!(parse(&"".to_string()), Ok(Expr::BLANK));
    assert!(m("", ""));
    assert!(m("anything", ""));
}

#[test]
fn empty_text_matches_only_nullable_patterns() {
    assert!(m("", "^$"));
    assert!(m("", "a?b?"));
    assert!(m("", "(a|)"));
    assert!(!m("", "a"));
    assert!(!m("", "[a]?b"));
}

#[test]
fn quantifier_without_atom_wraps_the_empty_expression() {
    assert_eq!(
        parse(&"+".to_string()),
        Ok(Expr::SEQUENCE(Box::new(Expr::PLUS(Box::new(Expr::BLANK))), Box::new(Expr::BLANK)))
    );
    assert!(m("", "?"));
    assert!(m("b", "?b"));
}

#[test]
fn unknown_escape_is_a_literal_backslash() {
    assert!(m("a\\q", "\\q"));
    assert!(!m("q", "\\q"));
    assert!(m("\\", "\\"));
}

#[test]
fn search_on_a_compiled_pattern() {
    let e = parse(&"b+c".to_string()).unwrap();
    assert!(search(&chars_of("abbbc"), &e));
    assert!(!search(&chars_of("abbb"), &e));
}
