use session_search::SearchExpr;

#[test]
fn test_parse_single_term() {
    let expr = SearchExpr::parse("error").unwrap();
    assert!(expr.matches("This is an error message"));
    assert!(expr.matches("ERROR in caps"));
    assert!(!expr.matches("This is fine"));
}

#[test]
fn test_parse_implicit_and() {
    let expr = SearchExpr::parse("error bash").unwrap();
    assert!(expr.matches("error in bash command"));
    assert!(expr.matches("bash threw an error"));
    assert!(!expr.matches("error in python"));
    assert!(!expr.matches("bash completed successfully"));
}

#[test]
fn test_parse_explicit_and() {
    let expr = SearchExpr::parse("error AND bash").unwrap();
    assert!(expr.matches("error in bash command"));
    assert!(!expr.matches("error in python"));
}

#[test]
fn test_parse_or() {
    let expr = SearchExpr::parse("error OR warning").unwrap();
    assert!(expr.matches("This is an error"));
    assert!(expr.matches("This is a warning"));
    assert!(!expr.matches("This is fine"));
}

#[test]
fn test_parse_and_or_precedence() {
    // "error AND bash OR write" should be "(error AND bash) OR write"
    let expr = SearchExpr::parse("error AND bash OR write").unwrap();
    assert!(expr.matches("error in bash")); // matches left side
    assert!(expr.matches("write to file")); // matches right side
    assert!(!expr.matches("error in python")); // doesn't match either
}

#[test]
fn test_parse_multiple_or() {
    let expr = SearchExpr::parse("error OR warning OR info").unwrap();
    assert!(expr.matches("error occurred"));
    assert!(expr.matches("warning issued"));
    assert!(expr.matches("info message"));
    assert!(!expr.matches("debug only"));
}

#[test]
fn test_case_insensitive() {
    let expr = SearchExpr::parse("Error").unwrap();
    assert!(expr.matches("ERROR"));
    assert!(expr.matches("error"));
    assert!(expr.matches("ErRoR"));
}

#[test]
fn test_empty_query() {
    assert!(SearchExpr::parse("").is_none());
    assert!(SearchExpr::parse("   ").is_none());
}

#[test]
fn test_orphan_operators() {
    // Orphan AND at start - should skip and parse rest
    let expr = SearchExpr::parse("AND error");
    assert!(expr.is_some());
    assert!(expr.unwrap().matches("error here"));

    // Orphan OR at end - should parse what's before
    let expr = SearchExpr::parse("error OR");
    assert!(expr.is_some());
}

#[test]
fn test_implicit_and_explicit_agree_on_corpus() {
    let implicit = SearchExpr::parse("error bash").unwrap();
    let explicit = SearchExpr::parse("error AND bash").unwrap();
    let corpus = [
        "error in bash command",
        "bash threw an error",
        "error in python",
        "bash completed successfully",
        "nothing here",
        "ERROR IN BASH",
        "",
    ];
    for line in corpus.iter() {
        assert_eq!(implicit.matches(line), explicit.matches(line));
    }
}

#[test]
fn test_whitespace_variants_yield_nothing() {
    assert!(SearchExpr::parse("\t").is_none());
    assert!(SearchExpr::parse(" \t \n ").is_none());
    assert!(SearchExpr::parse("\n\n").is_none());
}

#[test]
fn test_orphan_operators_equal_bare_term() {
    let bare = SearchExpr::parse("error").unwrap();
    let leading = SearchExpr::parse("AND error").unwrap();
    let trailing = SearchExpr::parse("error OR").unwrap();
    let corpus = ["an error", "no problem", "ERROR", "err or"];
    for line in corpus.iter() {
        assert_eq!(bare.matches(line), leading.matches(line));
        assert_eq!(bare.matches(line), trailing.matches(line));
    }
}

#[test]
fn test_trailing_and_rejects_query() {
    // An AND with no right operand fails the AND level, so the whole
    // query yields no expression (unlike a trailing OR).
    assert!(SearchExpr::parse("error AND").is_none());
}

#[test]
fn test_quote_character_is_literal() {
    // No quoting support: a quote is part of the term.
    let expr = SearchExpr::parse("\"error\"").unwrap();
    assert!(expr.matches("saw \"error\" in log"));
    assert!(!expr.matches("saw error in log"));
}

#[test]
fn test_tabs_and_newlines_separate_terms() {
    let expr = SearchExpr::parse("error\tbash\nwrite").unwrap();
    assert!(expr.matches("bash write error"));
    assert!(!expr.matches("bash write"));
}

#[test]
fn test_operators_are_case_sensitive() {
    // Lowercase "and" is an ordinary term, not an operator.
    let expr = SearchExpr::parse("error and bash").unwrap();
    assert!(expr.matches("error and bash"));
    assert!(!expr.matches("error in bash"));
}

#[test]
fn test_shell_escape_plain() {
    assert_eq!(session_search::shell_escape("abc"), "'abc'");
    assert_eq!(session_search::shell_escape(""), "''");
}

#[test]
fn test_shell_escape_quotes() {
    assert_eq!(session_search::shell_escape("a'b"), "'a'\\''b'");
    assert_eq!(session_search::shell_escape("'"), "''\\'''");
}

#[test]
fn test_shell_escape_multibyte() {
    assert_eq!(session_search::shell_escape("caf\u{e9} 'x'"), "'caf\u{e9} '\\''x'\\'''");
}
