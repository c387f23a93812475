use el_terminal::ask::{
    format_reply_for_terminal, panel_ask, reply_status_text, run_payload, shell_ask,
    shell_ask_on_key, shell_ask_result_text, PanelAsk, ShellAsk,
};
use el_terminal::env_context::TerminalContext;
use el_terminal::llm::{
    extract_assistant_content, finish_ask, format_api_error, parse_commands, parse_reply,
    prepare_ask, AskReply, ReplySegment,
};
use el_terminal::settings::{AppSettings, ThemePreset};

fn settings(key: &str, share: bool) -> AppSettings {
    let catalog = vec![ThemePreset { id: "glass".to_string(), label: "Glass".to_string(), default: true, style: () }];
    let mut s = AppSettings::default_for(&catalog);
    s.llm_api_key = key.to_string();
    s.llm_endpoint = "http://localhost:11434/v1//".to_string();
    s.llm_model = "llama3".to_string();
    s.ask_share_terminal_context = share;
    s
}

fn context() -> TerminalContext {
    TerminalContext {
        shell: "/bin/bash".into(),
        cwd: Some("/srv/secret-project".into()),
        ..Default::default()
    }
}

#[test]
fn empty_content_is_an_error() {
    assert_eq!(parse_reply("   \n ").unwrap_err(), "Model returned an empty reply");
}

#[test]
fn prose_only_has_no_commands() {
    assert_eq!(parse_commands("just words").unwrap_err(), "No runnable commands in reply");
}

#[test]
fn fenced_json_commands_are_read() {
    let cmds = parse_commands("```json\n{\"commands\":[\"df -h\"]}\n```").unwrap();
    assert_eq!(cmds, vec!["df -h"]);
}

#[test]
fn json_inside_prose_is_read() {
    let reply = parse_reply("Try this: {\"commands\":[\"uptime\"]} done").unwrap();
    assert_eq!(reply.runnable_count(), 1);
    assert!(matches!(&reply.segments[0], ReplySegment::Text(t) if t == "Try this:"));
    assert!(matches!(&reply.segments[1], ReplySegment::Code { code, .. } if code == "uptime"));
    assert!(matches!(&reply.segments[2], ReplySegment::Text(t) if t == "done"));
}

#[test]
fn empty_body_is_an_error() {
    assert_eq!(extract_assistant_content("  ", "application/json").unwrap_err(), "Empty API response");
}

#[test]
fn stream_without_content_is_an_error() {
    let body = "data: [DONE]\n";
    assert_eq!(
        extract_assistant_content(body, "text/event-stream").unwrap_err(),
        "Stream ended with no content"
    );
}

#[test]
fn stream_error_is_reported() {
    let body = "data: {\"error\":{\"message\":\"quota\"}}\n\ndata: [DONE]\n";
    assert_eq!(extract_assistant_content(body, "text/event-stream").unwrap_err(), "quota");
}

#[test]
fn non_stream_api_error_is_reported() {
    let body = r#"{"error":{"message":"bad key"}}"#;
    assert_eq!(extract_assistant_content(body, "application/json").unwrap_err(), "bad key");
}

#[test]
fn api_error_uses_the_message_when_there_is_one() {
    assert_eq!(
        format_api_error(401, r#"{"error":{"message":"Invalid key"}}"#),
        "API error (401): Invalid key"
    );
    assert_eq!(format_api_error(502, "Bad gateway"), "API error (502): Bad gateway");
}

#[test]
fn finishing_an_ask() {
    assert_eq!(finish_ask(500, "text/plain", "boom").unwrap_err(), "API error (500): boom");
    let body = r#"{"choices":[{"message":{"content":"```sh\nls\n```"}}]}"#;
    let reply = finish_ask(200, "Application/JSON", body).unwrap();
    assert_eq!(reply.runnable_count(), 1);
}

#[test]
fn preparing_an_ask_checks_prompt_and_key() {
    assert_eq!(prepare_ask(&settings("k", false), "  ", &context()).err(), Some("Prompt is empty".to_string()));
    assert_eq!(
        prepare_ask(&settings(" ", false), "hi", &context()).err(),
        Some("Set an API key in Settings".to_string())
    );
    let req = prepare_ask(&settings(" sk-1 ", false), "  list files ", &context()).unwrap();
    assert_eq!(req.url, "http://localhost:11434/v1/chat/completions");
    assert_eq!(req.authorization, "Bearer sk-1");
    assert_eq!(req.model, "llama3");
    assert_eq!(req.prompt, "list files");
}

#[test]
fn context_goes_out_only_when_shared() {
    let private = prepare_ask(&settings("k", false), "q", &context()).unwrap();
    assert!(private.system.contains("No live terminal context was shared"));
    assert!(!private.system.contains("secret-project"));
    let shared = prepare_ask(&settings("k", true), "q", &context()).unwrap();
    assert!(shared.system.contains("secret-project"));
}

#[test]
fn reply_written_into_the_terminal() {
    let reply = parse_reply("Here:\n```bash\nls\npwd\n```").unwrap();
    assert_eq!(format_reply_for_terminal(&reply), "Here:\r\n\x1b[32m  ls\r\n  pwd\r\n\x1b[0m");
    let empty = AskReply { segments: vec![] };
    assert_eq!(format_reply_for_terminal(&empty), "\x1b[2m(empty reply)\x1b[0m\r\n");
    assert!(empty.is_empty());
}

#[test]
fn panel_status_lines() {
    let reply = parse_reply("```bash\nls\n```\n```sh\npwd\n```").unwrap();
    assert_eq!(reply_status_text(&reply, false), "2 runnable block(s)");
    let prose = parse_reply("no code").unwrap();
    assert_eq!(
        reply_status_text(&prose, false),
        "No runnable code blocks \u{2014} Apply/Run only appears on shell fences."
    );
    assert_eq!(reply_status_text(&AskReply { segments: vec![] }, false), "Empty reply.");
    assert_eq!(
        reply_status_text(&reply, true),
        "2 runnable block(s) (terminal context shared)"
    );
}

#[test]
fn run_payload_ends_with_newline() {
    assert_eq!(run_payload("ls"), "ls\n");
    assert_eq!(run_payload("ls\n"), "ls\n");
}

#[test]
fn panel_ask_outcomes() {
    assert!(matches!(panel_ask("  ", true, false, false), PanelAsk::EmptyPrompt));
    assert!(matches!(panel_ask("q", false, false, false), PanelAsk::NeedsSettings));
    assert!(matches!(panel_ask("q", true, true, false), PanelAsk::Busy));
    let quiet = panel_ask(" q ", true, false, false);
    assert_eq!(quiet.status(), "Thinking\u{2026}");
    match quiet {
        PanelAsk::Send { prompt, share } => {
            assert_eq!(prompt, "q");
            assert!(!share);
        }
        _ => panic!("expected send"),
    }
    let shared = panel_ask("q", true, false, true);
    assert_eq!(shared.status(), "Thinking\u{2026} (terminal context shared)");
    assert_eq!(PanelAsk::EmptyPrompt.status(), "Enter a prompt first.");
}

#[test]
fn shell_ask_outcomes() {
    assert!(matches!(shell_ask("  ", true, false), ShellAsk::Ignore));
    match shell_ask("why", false, false) {
        ShellAsk::NeedsSettings(n) => assert!(n.contains("set endpoint + API key in Settings first.")),
        _ => panic!("expected settings notice"),
    }
    match shell_ask(" why ", true, false) {
        ShellAsk::Send { question, echo } => {
            assert_eq!(question, "why");
            assert_eq!(echo, "\r\n\x1b[1;36m??\x1b[0m why\r\n\x1b[2m\u{2026}\x1b[0m\r\n");
            assert!(!echo.contains("terminal context shared"));
        }
        _ => panic!("expected send"),
    }
    match shell_ask("why", true, true) {
        ShellAsk::Send { echo, .. } => assert_eq!(
            echo,
            "\r\n\x1b[1;36m??\x1b[0m why\r\n\x1b[2m(terminal context shared)\x1b[0m\r\n\x1b[2m\u{2026}\x1b[0m\r\n"
        ),
        _ => panic!("expected send"),
    }
    assert_eq!(
        shell_ask_result_text(&Err("boom".to_string())),
        "\x1b[31mask error:\x1b[0m boom\r\n"
    );
}

#[test]
fn commands_match_the_runnable_blocks() {
    let content = "Steps:\n```bash\nls\n```\ntext\n```zsh\npwd\n```\n```python\nprint(1)\n```";
    let reply = parse_reply(content).unwrap();
    let cmds = parse_commands(content).unwrap();
    assert_eq!(cmds.len(), reply.runnable_count());
    assert_eq!(cmds, vec!["ls", "pwd"]);
}

#[test]
fn enter_with_an_ask_line_carries_the_question() {
    assert_eq!(shell_ask_on_key(true, Some("host$ ?? disk usage"), "??").as_deref(), Some("disk usage"));
    assert_eq!(shell_ask_on_key(false, Some("host$ ?? disk usage"), "??"), None);
    assert_eq!(shell_ask_on_key(true, Some("host$ ls"), "??"), None);
    assert_eq!(shell_ask_on_key(true, None, "??"), None);
}
