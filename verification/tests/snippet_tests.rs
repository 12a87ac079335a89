use session_search::build_snippet;

#[test]
fn test_snippet_multibyte_utf8() {
    // Test that build_snippet handles multi-byte UTF-8 characters without panicking
    // The box-drawing character '─' is 3 bytes (E2 94 80)
    let text = "prefix ─────────────────────────────────────── error ─────────────────────────────────────── suffix";
    let terms = vec!["error".to_string()];

    // Should not panic - this was the bug that caused the crash
    let snippet = build_snippet(text, &terms, 30);
    assert!(snippet.contains("error"));
}

#[test]
fn test_snippet_emoji() {
    // Test with emoji (4-byte UTF-8)
    let text = "Hello 🎉🎊🎈 world error 🚀🌟 end";
    let terms = vec!["error".to_string()];

    let snippet = build_snippet(text, &terms, 20);
    assert!(snippet.contains("error"));
}

#[test]
fn test_snippet_exact_window() {
    // "hello world": the term starts at byte 6; a radius of 3 gives the
    // raw window [3, 9], there are no spaces inside the clamped prefix or
    // suffix, and both ends are elided.
    let text = "hello world";
    let terms = vec!["world".to_string()];
    let snippet = build_snippet(text, &terms, 3);
    assert_eq!(snippet, "...lo wor...");
}

#[test]
fn test_snippet_whole_text_when_radius_covers_it() {
    let text = "short line";
    let terms = vec!["line".to_string()];
    let snippet = build_snippet(text, &terms, 60);
    assert_eq!(snippet, "short line");
}

#[test]
fn test_snippet_earliest_term_wins() {
    // "beta" occurs earlier than "delta"; the window centres on it.
    let text = "alpha beta gamma delta epsilon zeta eta theta iota kappa lambda mu";
    let terms = vec!["delta".to_string(), "beta".to_string()];
    let snippet = build_snippet(text, &terms, 10);
    assert_eq!(snippet, "alpha beta gamma...");
}

#[test]
fn test_snippet_no_term_found_defaults_to_start() {
    // The defensive branch: no term occurs at all, so the window sits at
    // offset zero.
    let text = "some ordinary text without the needle";
    let terms = vec!["zzz".to_string()];
    let snippet = build_snippet(text, &terms, 10);
    assert!(snippet.starts_with("some"));
    assert!(snippet.ends_with("..."));
}

#[test]
fn test_snippet_case_insensitive_position() {
    // The term is found in the lower-cased text even though the original
    // is upper case.
    let text = "AAAA BBBB ERROR CCCC DDDD";
    let terms = vec!["error".to_string()];
    let snippet = build_snippet(text, &terms, 5);
    assert!(snippet.contains("ERROR"));
}

#[test]
fn test_snippet_empty_text() {
    let terms = vec!["x".to_string()];
    let snippet = build_snippet("", &terms, 60);
    assert_eq!(snippet, "");
}

#[test]
fn test_snippet_only_multibyte_text() {
    // Text consisting solely of multi-byte characters, radius smaller than
    // one character's encoding.
    let text = "🎉🎊🎈🚀🌟";
    let terms = vec!["needle".to_string()];
    let snippet = build_snippet(text, &terms, 1);
    // Window [0,1] snaps to [0,4]: exactly the first emoji, then an
    // ellipsis for the elided tail.
    assert_eq!(snippet, "🎉...");
}
