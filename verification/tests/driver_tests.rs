use session_search::LogLine;
use session_search::search_session;
use session_search::search_subagent;

fn event_lines() -> Vec<LogLine> {
    vec![
        LogLine::Text("{\"content\":\"all good\"}".to_string()),
        LogLine::Text("{\"content\":\"an error occurred\"}".to_string()),
        LogLine::Text("{\"content\":\"warning: low disk\"}".to_string()),
    ]
}

#[test]
fn test_or_query_two_matches() {
    let lines = event_lines();
    let r = search_session(Some(&lines), "error OR warning", None);
    assert_eq!(r.matches.len(), 2);
    assert_eq!(r.matches[0].sequence, 1);
    assert_eq!(r.matches[1].sequence, 2);
    assert_eq!(r.total_searched, 3);
    assert!(!r.truncated);
    assert_eq!(r.matches[0].snippet, "an error occurred");
    assert_eq!(r.matches[1].snippet, "warning: low disk");
}

#[test]
fn test_and_query_no_single_line_holds_both() {
    let lines = event_lines();
    let r = search_session(Some(&lines), "error AND disk", None);
    assert_eq!(r.matches.len(), 0);
    assert_eq!(r.total_searched, 3);
    assert!(!r.truncated);
}

#[test]
fn test_cap_of_one_truncates() {
    let lines = event_lines();
    // "o" occurs in every line; the cap is hit on the very first match,
    // and that line still counts as searched.
    let r = search_session(Some(&lines), "o", Some(1));
    assert_eq!(r.matches.len(), 1);
    assert!(r.truncated);
    assert_eq!(r.matches[0].sequence, 0);
    assert_eq!(r.total_searched, 1);
}

#[test]
fn test_cap_of_zero_returns_no_matches() {
    let lines = event_lines();
    let r = search_session(Some(&lines), "o", Some(0));
    assert_eq!(r.matches.len(), 0);
    assert!(r.truncated);
    assert_eq!(r.total_searched, 0);
}

#[test]
fn test_cap_equal_to_match_count_still_truncates() {
    let lines = event_lines();
    let r = search_session(Some(&lines), "error OR warning", Some(2));
    assert_eq!(r.matches.len(), 2);
    assert!(r.truncated);
    // The scan stopped on the last match, which still counts as searched.
    assert_eq!(r.total_searched, 3);
}

#[test]
fn test_cap_above_match_count_not_truncated() {
    let lines = event_lines();
    let r = search_session(Some(&lines), "error OR warning", Some(10));
    assert_eq!(r.matches.len(), 2);
    assert!(!r.truncated);
    assert_eq!(r.total_searched, 3);
}

#[test]
fn test_byte_offsets_land_on_match_lines() {
    let raw = [
        "{\"content\":\"all good\"}",
        "{\"content\":\"an error occurred\"}",
        "{\"content\":\"warning: low disk\"}",
    ];
    let file = format!("{}\n{}\n{}\n", raw[0], raw[1], raw[2]);
    let lines = event_lines();
    let r = search_session(Some(&lines), "error OR warning", None);
    for m in r.matches.iter() {
        let rest = &file[m.byte_offset as usize..];
        assert!(rest.starts_with(raw[m.sequence as usize]));
    }
    assert_eq!(r.matches[0].byte_offset, raw[0].len() as u64 + 1);
}

#[test]
fn test_unreadable_line_keeps_place_and_one_byte() {
    let lines = vec![
        LogLine::Unreadable,
        LogLine::Text("plain error line".to_string()),
    ];
    let r = search_session(Some(&lines), "error", None);
    assert_eq!(r.matches.len(), 1);
    assert_eq!(r.matches[0].sequence, 1);
    assert_eq!(r.matches[0].byte_offset, 1);
    assert_eq!(r.total_searched, 1);
    assert!(!r.truncated);
}

#[test]
fn test_unresolved_log_yields_empty_response() {
    let r = search_session(None, "error", None);
    assert_eq!(r.matches.len(), 0);
    assert_eq!(r.total_searched, 0);
    assert!(!r.truncated);
}

#[test]
fn test_blank_query_yields_empty_response() {
    let lines = event_lines();
    let r = search_session(Some(&lines), "   ", None);
    assert_eq!(r.matches.len(), 0);
    assert_eq!(r.total_searched, 0);
    assert!(!r.truncated);
}

#[test]
fn test_subagent_search_same_engine() {
    let lines = event_lines();
    let r = search_subagent(Some(&lines), "error", None);
    assert_eq!(r.matches.len(), 1);
    assert_eq!(r.matches[0].sequence, 1);
    assert_eq!(r.total_searched, 3);
}

#[test]
fn test_non_json_lines_match_and_snippet_raw() {
    let lines = vec![LogLine::Text("not json but has error in it".to_string())];
    let r = search_session(Some(&lines), "error", None);
    assert_eq!(r.matches.len(), 1);
    assert_eq!(r.matches[0].snippet, "not json but has error in it");
}
