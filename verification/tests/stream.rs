use review_helper::json::Json;
use review_helper::model::{ClaudeCodeProvider, ModelEvent, UnavailableReason};
use review_helper::stream::{line_event, StreamRun};

fn to_json(v: &serde_json::Value) -> Json {
    match v {
        serde_json::Value::Null => Json::Null,
        serde_json::Value::Bool(b) => Json::Bool(*b),
        serde_json::Value::Number(n) => Json::Num(n.to_string()),
        serde_json::Value::String(s) => Json::Str(s.clone()),
        serde_json::Value::Array(a) => Json::Arr(a.iter().map(to_json).collect()),
        serde_json::Value::Object(m) => Json::Obj(m.iter().map(|(k, v)| (k.clone(), to_json(v))).collect()),
    }
}

/// One output line: parsed, then read as an event.
fn parse_line(line: &str) -> Option<ModelEvent> {
    let v: serde_json::Value = serde_json::from_str(line).ok()?;
    line_event(&to_json(&v))
}

#[test]
fn parses_init_into_started() {
    let line = r#"{"type":"system","subtype":"init","session_id":"abc","model":"opus-4-8"}"#;
    match parse_line(line).unwrap() {
        ModelEvent::Started { session_id, model } => {
            assert_eq!(session_id.as_deref(), Some("abc"));
            assert_eq!(model.as_deref(), Some("opus-4-8"));
        }
        other => panic!("expected Started, got {other:?}"),
    }
}

#[test]
fn parses_text_delta_into_assistant_text() {
    let line = r#"{"type":"stream_event","event":{"type":"content_block_delta","delta":{"type":"text_delta","text":"Hel"}}}"#;
    assert_eq!(parse_line(line).unwrap(), ModelEvent::AssistantText { text: "Hel".into() });
}

#[test]
fn parses_tool_use_from_assistant() {
    let line = r#"{"type":"assistant","message":{"content":[{"type":"tool_use","name":"Read"}]}}"#;
    assert_eq!(parse_line(line).unwrap(), ModelEvent::ToolUse { name: "Read".into() });
}

#[test]
fn ignores_plain_assistant_text_block() {
    let line = r#"{"type":"assistant","message":{"content":[{"type":"text","text":"hi"}]}}"#;
    assert!(parse_line(line).is_none());
}

#[test]
fn parses_success_result_into_completed() {
    let line = r#"{"type":"result","subtype":"success","is_error":false,"result":"ping","session_id":"s1"}"#;
    assert_eq!(
        parse_line(line).unwrap(),
        ModelEvent::Completed { session_id: Some("s1".into()), text: "ping".into() }
    );
}

#[test]
fn classifies_credit_exhaustion() {
    let line = r#"{"type":"result","subtype":"error","is_error":true,"api_error_status":402,"result":"payment required"}"#;
    match parse_line(line).unwrap() {
        ModelEvent::Unavailable { reason, detail } => {
            assert_eq!(reason, UnavailableReason::CreditExhausted);
            assert_eq!(detail, "payment required");
        }
        other => panic!("expected Unavailable, got {other:?}"),
    }
}

#[test]
fn classifies_generic_error_as_failed() {
    let line = r#"{"type":"result","subtype":"error","is_error":true,"result":"boom"}"#;
    assert_eq!(parse_line(line).unwrap(), ModelEvent::Failed { detail: "boom".into() });
    let line = r#"{"type":"result","subtype":"success","is_error":true}"#;
    assert_eq!(parse_line(line).unwrap(), ModelEvent::Failed { detail: "the model returned an error".into() });
}

#[test]
fn skips_unknown_and_malformed_lines() {
    assert!(parse_line("not json").is_none());
    assert!(parse_line(r#"{"type":"rate_limit_event"}"#).is_none());
    assert!(parse_line(r#"{"type":"system","subtype":"other"}"#).is_none());
}

#[test]
fn a_nameless_tool_use_reads_as_tool() {
    let line = r#"{"type":"assistant","message":{"content":[{"type":"text"},{"type":"tool_use"}]}}"#;
    assert_eq!(parse_line(line).unwrap(), ModelEvent::ToolUse { name: "tool".into() });
}

#[test]
fn only_result_lines_end_the_run() {
    let result = parse_line(r#"{"type":"result","subtype":"weird"}"#).unwrap();
    assert!(result.is_terminal());
    assert_eq!(result, ModelEvent::Failed { detail: "the model returned an error".into() });
    for line in [
        r#"{"type":"system","subtype":"init"}"#,
        r#"{"type":"stream_event","event":{"type":"content_block_delta","delta":{"type":"text_delta","text":"x"}}}"#,
        r#"{"type":"assistant","message":{"content":[{"type":"tool_use","name":"Grep"}]}}"#,
    ] {
        assert!(!parse_line(line).unwrap().is_terminal(), "{line}");
    }
}

fn json_of(line: &str) -> Option<Json> {
    serde_json::from_str::<serde_json::Value>(line).ok().map(|v| to_json(&v))
}

#[test]
fn a_run_with_a_result_line_needs_no_closing_event() {
    let cli = ClaudeCodeProvider::with_binary("cli");
    let mut run = StreamRun::new();
    let lines = [
        r#"{"type":"system","subtype":"init","session_id":"s","model":"m"}"#,
        "not json",
        r#"{"type":"result","subtype":"success","is_error":false,"result":"hi","session_id":"s"}"#,
    ];
    let mut evs = Vec::new();
    for l in lines {
        if let Some(e) = run.on_line(json_of(l).as_ref()) {
            evs.push(e);
        }
    }
    assert!(run.saw_terminal);
    assert_eq!(run.on_end(&cli, "", Some(0)), None);
    assert_eq!(evs.len(), 2);
    assert!(evs[1].is_terminal());
}

#[test]
fn a_run_without_a_result_is_closed_by_one_unavailable_event() {
    let cli = ClaudeCodeProvider::with_binary("cli");
    let mut run = StreamRun::new();
    assert_eq!(run.on_line(json_of(r#"{"type":"system","subtype":"init"}"#).as_ref()).map(|e| e.is_terminal()), Some(false));
    assert!(!run.saw_terminal);
    match run.on_end(&cli, " Please log in ", Some(1)) {
        Some(ModelEvent::Unavailable { reason, detail }) => {
            assert_eq!(reason, UnavailableReason::NotAuthenticated);
            assert_eq!(detail, "Please log in");
        }
        other => panic!("unexpected {other:?}"),
    }
    assert!(run.saw_terminal);
    assert_eq!(run.on_end(&cli, "", None), None);
}

#[test]
fn a_stopped_run_ends_with_stopped() {
    let mut run = StreamRun::new();
    assert_eq!(run.on_stop(), Some(ModelEvent::Stopped));
    assert!(run.saw_terminal);
    assert_eq!(run.on_stop(), None);
}

#[test]
fn nothing_is_handed_on_after_the_run_has_ended() {
    let cli = ClaudeCodeProvider::with_binary("cli");
    let mut run = StreamRun::new();
    let done = r#"{"type":"result","subtype":"success","is_error":false,"result":"hi"}"#;
    let first = run.on_line(json_of(done).as_ref());
    assert_eq!(first, Some(ModelEvent::Completed { session_id: None, text: "hi".into() }));
    assert_eq!(run.on_line(json_of(done).as_ref()), None);
    assert_eq!(run.on_line(json_of(r#"{"type":"system","subtype":"init"}"#).as_ref()), None);
    assert_eq!(run.on_stop(), None);
    assert_eq!(run.on_end(&cli, "", Some(0)), None);
}
