use el_terminal::llm::{extract_assistant_content, parse_commands, parse_reply, ReplySegment};

#[test]
fn parses_json_commands() {
    let cmds = parse_commands(r#"{"commands":["ls -la","pwd"]}"#).unwrap();
    assert_eq!(cmds, vec!["ls -la", "pwd"]);
}

#[test]
fn parses_fenced_bash_as_runnable() {
    let reply = parse_reply("Here:\n```bash\nls\npwd\n```").unwrap();
    assert_eq!(reply.runnable_count(), 1);
    assert!(matches!(
        &reply.segments[0],
        ReplySegment::Text(t) if t == "Here:"
    ));
    assert!(matches!(
        &reply.segments[1],
        ReplySegment::Code { code, .. } if code == "ls\npwd"
    ));
}

#[test]
fn non_shell_fence_has_no_apply() {
    let reply = parse_reply("Example:\n```python\nprint(1)\n```").unwrap();
    assert_eq!(reply.runnable_count(), 0);
    assert!(reply.segments.iter().all(|s| !s.is_runnable()));
}

#[test]
fn plain_text_has_no_apply() {
    let reply = parse_reply("Just an explanation with no code.").unwrap();
    assert_eq!(reply.runnable_count(), 0);
    assert!(matches!(reply.segments[0], ReplySegment::Text(_)));
}

#[test]
fn extracts_non_stream_json() {
    let body = r#"{"choices":[{"message":{"role":"assistant","content":"{\"commands\":[\"echo hi\"]}"}}]}"#;
    let content = extract_assistant_content(body, "application/json").unwrap();
    let cmds = parse_commands(&content).unwrap();
    assert_eq!(cmds, vec!["echo hi"]);
}

#[test]
fn extracts_sse_stream() {
    let body = "\
data: {\"choices\":[{\"delta\":{\"content\":\"{\\\"commands\\\"\"}}]}\n\n\
data: {\"choices\":[{\"delta\":{\"content\":\":[\\\"uname -a\\\"]}\"}}]}\n\n\
data: [DONE]\n";
    let content = extract_assistant_content(body, "text/event-stream").unwrap();
    let cmds = parse_commands(&content).unwrap();
    assert_eq!(cmds, vec!["uname -a"]);
}

#[test]
fn extracts_sse_without_content_type_header() {
    let body = "\
data: {\"choices\":[{\"delta\":{\"content\":\"{\\\"commands\\\":[\\\"pwd\\\"]}\"}}]}\n\n\
data: [DONE]\n";
    let content = extract_assistant_content(body, "").unwrap();
    let cmds = parse_commands(&content).unwrap();
    assert_eq!(cmds, vec!["pwd"]);
}
