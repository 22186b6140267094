use facts::tags::{matches_search_expr, matches_tag_expr, validate_tag_expr};

fn tags(names: &[&str]) -> Vec<String> {
    names.iter().map(|s| s.to_string()).collect()
}

#[test]
fn test_simple_tag() {
    assert!(matches_tag_expr("mvp", &tags(&["mvp", "core"])));
    assert!(!matches_tag_expr("blocked", &tags(&["mvp", "core"])));
}

#[test]
fn test_and() {
    assert!(matches_tag_expr("mvp and core", &tags(&["mvp", "core"])));
    assert!(!matches_tag_expr(
        "mvp and blocked",
        &tags(&["mvp", "core"])
    ));
}

#[test]
fn test_or() {
    assert!(matches_tag_expr("mvp or blocked", &tags(&["mvp", "core"])));
    assert!(!matches_tag_expr(
        "blocked or deferred",
        &tags(&["mvp", "core"])
    ));
}

#[test]
fn test_not() {
    assert!(matches_tag_expr(
        "mvp and not blocked",
        &tags(&["mvp", "core"])
    ));
    assert!(!matches_tag_expr("not mvp", &tags(&["mvp", "core"])));
}

#[test]
fn test_parens() {
    assert!(matches_tag_expr(
        "(mvp or blocked) and core",
        &tags(&["mvp", "core"])
    ));
}

#[test]
fn test_complex_expression() {
    // (a or b) and not c
    assert!(matches_tag_expr("(a or b) and not c", &tags(&["a", "d"])));
    assert!(!matches_tag_expr("(a or b) and not c", &tags(&["a", "c"])));
    assert!(!matches_tag_expr("(a or b) and not c", &tags(&["d"])));
}

#[test]
fn test_double_not() {
    assert!(matches_tag_expr("not not mvp", &tags(&["mvp"])));
    assert!(!matches_tag_expr("not not mvp", &tags(&["core"])));
}

#[test]
fn test_empty_tags() {
    assert!(!matches_tag_expr("mvp", &tags(&[])));
    assert!(matches_tag_expr("not mvp", &tags(&[])));
}

#[test]
fn test_invalid_expression_detected_by_validate() {
    // Malformed expressions should be caught by validate_tag_expr
    assert!(validate_tag_expr("").is_err());
    assert!(validate_tag_expr("(").is_err());
    assert!(validate_tag_expr("mvp and").is_err());
    assert!(validate_tag_expr("((").is_err());
    assert!(validate_tag_expr("mvp or").is_err());
}

#[test]
fn test_search_substring_match() {
    assert!(matches_search_expr("init", "cli init scaffolds"));
    assert!(!matches_search_expr("deploy", "cli init scaffolds"));
}

#[test]
fn test_search_case_insensitive() {
    assert!(matches_search_expr("CLI", "cli init scaffolds"));
    assert!(matches_search_expr("Init", "cli init scaffolds"));
}

#[test]
fn test_search_boolean() {
    assert!(matches_search_expr("cli and init", "cli init scaffolds"));
    assert!(!matches_search_expr("cli and deploy", "cli init scaffolds"));
    assert!(matches_search_expr("cli or deploy", "cli init scaffolds"));
    assert!(matches_search_expr("not deploy", "cli init scaffolds"));
    assert!(!matches_search_expr("not cli", "cli init scaffolds"));
}

#[test]
fn test_search_parens() {
    assert!(matches_search_expr(
        "(init or check) and cli",
        "cli init scaffolds"
    ));
    assert!(!matches_search_expr(
        "(init or check) and api",
        "cli init scaffolds"
    ));
}

#[test]
fn test_valid_expression_passes_validate() {
    assert!(validate_tag_expr("mvp").is_ok());
    assert!(validate_tag_expr("mvp and core").is_ok());
    assert!(validate_tag_expr("not blocked").is_ok());
    assert!(validate_tag_expr("(mvp or core) and not blocked").is_ok());
}

// Further cases.

#[test]
fn validate_error_messages() {
    assert_eq!(validate_tag_expr("").unwrap_err(), "unexpected end of expression");
    assert_eq!(validate_tag_expr("(a").unwrap_err(), "missing closing parenthesis");
    assert_eq!(validate_tag_expr("a b c").unwrap_err(), "unexpected tokens: [\"b\", \"c\"]");
}

#[test]
fn tag_match_ignores_ascii_case() {
    assert!(matches_tag_expr("MVP", &tags(&["mvp"])));
    assert!(!matches_tag_expr("a b", &tags(&["a", "b"])));
}

#[test]
fn and_binds_tighter_than_or() {
    assert!(matches_tag_expr("a or b and c", &tags(&["a"])));
    assert!(!matches_tag_expr("(a or b) and c", &tags(&["a"])));
}

#[test]
fn operators_combine_as_booleans() {
    let both = vec!["x".to_string(), "y".to_string()];
    let one = vec!["x".to_string()];
    let none: Vec<String> = vec![];
    for tags in [&both, &one, &none] {
        let hx = tags.iter().any(|t| t == "x");
        let hy = tags.iter().any(|t| t == "y");
        assert_eq!(matches_tag_expr("x and y", tags), hx && hy);
        assert_eq!(matches_tag_expr("x or y", tags), hx || hy);
        assert_eq!(matches_tag_expr("not x", tags), !hx);
    }
}

#[test]
fn single_words_and_parenthesised_operands() {
    let t = vec!["Alpha".to_string(), "beta".to_string()];
    assert!(matches_tag_expr("alpha", &t));
    assert!(!matches_tag_expr("gamma", &t));
    assert!(matches_search_expr("FOX", "the quick fox"));
    assert!(!matches_search_expr("dog", "the quick fox"));
    let m = |e: &str| matches_tag_expr(e, &t);
    for (x, y) in [("alpha or gamma", "not beta"), ("gamma", "beta and alpha"), ("not gamma", "alpha")] {
        assert_eq!(m(&format!("({x})")), m(x));
        assert_eq!(m(&format!("not ({x})")), !m(x));
        assert_eq!(m(&format!("({x}) and ({y})")), m(x) && m(y));
        assert_eq!(m(&format!("({x}) or ({y})")), m(x) || m(y));
    }
    assert!(m("(alpha) or (gamma) and (delta)"));
    assert!(!m("(gamma) or (alpha) and (delta)"));
    assert!(!matches_tag_expr("alpha and", &t));
}
