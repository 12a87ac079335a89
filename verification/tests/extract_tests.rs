use session_search::extract::ContentBlock;
use session_search::extract::extract_text_from_content;
use session_search::extract::extract_text_from_json;
use session_search::extract::select_block_text;

#[test]
fn test_invalid_json_returns_raw_line() {
    let line = "this is not json {";
    assert_eq!(extract_text_from_json(line), line);
}

#[test]
fn test_top_level_content_string() {
    assert_eq!(extract_text_from_json("{\"content\":\"hi there\"}"), "hi there");
}

#[test]
fn test_message_content_string() {
    let line = "{\"message\":{\"content\":\"assistant says\"}}";
    assert_eq!(extract_text_from_json(line), "assistant says");
}

#[test]
fn test_message_content_text_block_wins_over_thinking() {
    let line = "{\"message\":{\"content\":[\
        {\"type\":\"thinking\",\"thinking\":\"hmm\"},\
        {\"type\":\"text\",\"text\":\"the answer\"}]}}";
    assert_eq!(extract_text_from_json(line), "the answer");
}

#[test]
fn test_message_content_thinking_fallback() {
    let line = "{\"message\":{\"content\":[{\"type\":\"thinking\",\"thinking\":\"hmm\"}]}}";
    assert_eq!(extract_text_from_json(line), "hmm");
}

#[test]
fn test_message_content_tool_use_label() {
    let line = "{\"message\":{\"content\":[\
        {\"type\":\"tool_use\",\"name\":\"bash\",\"input\":{\"cmd\":\"ls\"}}]}}";
    assert_eq!(extract_text_from_json(line), "[bash] {\"cmd\":\"ls\"}");
}

#[test]
fn test_message_content_tool_use_without_input() {
    let line = "{\"message\":{\"content\":[{\"type\":\"tool_use\",\"name\":\"bash\"}]}}";
    assert_eq!(extract_text_from_json(line), "[bash]");
}

#[test]
fn test_summary_field() {
    assert_eq!(extract_text_from_json("{\"summary\":\"a summary\"}"), "a summary");
}

#[test]
fn test_unrecognized_json_falls_back_to_line() {
    let line = "{\"other\":1}";
    assert_eq!(extract_text_from_json(line), line);
}

#[test]
fn test_extract_from_content_value_directly() {
    let v: serde_json::Value = serde_json::from_str("\"plain\"").unwrap();
    assert_eq!(extract_text_from_content(&v), Some("plain".to_string()));
    let n: serde_json::Value = serde_json::from_str("42").unwrap();
    assert_eq!(extract_text_from_content(&n), None);
}

#[test]
fn test_select_block_text_priorities() {
    let text_first = vec![
        ContentBlock::Other,
        ContentBlock::Thinking("hmm".to_string()),
        ContentBlock::Text("yes".to_string()),
        ContentBlock::Text("later".to_string()),
    ];
    assert_eq!(select_block_text(&text_first), Some("yes".to_string()));

    let thinking_only = vec![ContentBlock::Other, ContentBlock::Thinking("hmm".to_string())];
    assert_eq!(select_block_text(&thinking_only), Some("hmm".to_string()));

    let tool_only = vec![ContentBlock::ToolUse("grep".to_string(), Some("x".to_string()))];
    assert_eq!(select_block_text(&tool_only), Some("[grep] x".to_string()));

    let tool_no_input = vec![ContentBlock::ToolUse("grep".to_string(), None)];
    assert_eq!(select_block_text(&tool_no_input), Some("[grep]".to_string()));

    let nothing: Vec<ContentBlock> = vec![ContentBlock::Other];
    assert_eq!(select_block_text(&nothing), None);
    assert_eq!(select_block_text(&Vec::new()), None);
}
