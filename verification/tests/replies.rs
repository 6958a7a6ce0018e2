use jc::claude_client::ClaudeRequest;
use jc::codex_client::CodexRequest;

#[test]
fn requests_name_the_model() {
    let args = ["-p".to_string()];
    let request = ClaudeRequest {
        command: "c",
        args: &args,
        model: "m",
        prompt: "p",
        spinner_message: "s",
    };
    assert_eq!(request.arguments(), ["-p", "--model", "m"]);
    let mut request = CodexRequest {
        command: "c",
        args: &args,
        model: Some("m"),
        prompt: "p",
        spinner_message: "s",
    };
    assert_eq!(request.arguments(), ["-p", "--model", "m"]);
    request.model = None;
    assert_eq!(request.arguments(), ["-p"]);
}

#[test]
fn result_documents_are_read() {
    let read = |raw: &str| jc::claude_client::reply_text(true, raw.as_bytes());
    assert_eq!(read(r#"{"type":"result","result":"hi"}"#), Some("hi".to_string()));
    assert_eq!(read(r#"{"result":"hi"}"#), Some("hi".to_string()));
    assert_eq!(
        read(r#"[{"type":"result","result":"a"},{"type":"x"},{"type":"result","result":"b"},{}]"#),
        Some("b".to_string())
    );
    assert_eq!(read(r#"[{"type":"x"}]"#), None);
    assert_eq!(read(r#"{"result":"hi","is_error":true}"#), None);
    assert_eq!(read(r#"{"result":"hi","is_error":"true"}"#), Some("hi".to_string()));
    assert_eq!(read(r#"{"result":7}"#), None);
    assert_eq!(read("hi"), None);
    let bytes = b"{\"result\":\"a\xff\"}";
    assert_eq!(jc::claude_client::reply_text(true, bytes), Some("a\u{fffd}".into()));
}

#[test]
fn event_streams_are_read() {
    let read = |raw: &str| jc::codex_client::reply_text(true, raw.as_bytes());
    let first = r#"{"type":"item.completed","item":{"type":"agent_message","text":"one"}}"#;
    let second = r#"{"type":"item.completed","item":{"type":"agent_message","text":"two"}}"#;
    let thought = r#"{"type":"item.completed","item":{"type":"reasoning","text":"hm"}}"#;
    let error = r#"{"type":"error","message":"limit"}"#;
    let failed = r#"{"type":"turn.failed","error":{"message":"limit"}}"#;
    assert_eq!(read(&format!("{first}\n\n {second} \n{thought}\n")), Some("two".to_string()));
    assert_eq!(read(&format!("{first}\n{error}")), Some("one".to_string()));
    assert_eq!(read(&format!("plain\n{error}")), None);
    assert_eq!(read(&format!("plain\n{failed}")), None);
    assert_eq!(read(&format!("{thought}\nplain")), Some("plain".to_string()));
    assert_eq!(read(r#"{"type":"result","result":"hi"}"#), Some("hi".to_string()));
    assert_eq!(read(r#"{"type":"result","result":"hi","is_error":true}"#), None);
    assert_eq!(read(r#"{"type":"result"}"#), None);
}

#[test]
fn plain_replies_are_read() {
    let read = |raw: &str| jc::codex_client::reply_text(true, raw.as_bytes());
    assert_eq!(
        read("Reading prompt from stdin...\n fix: a \n\n{\"x\":1}\n[b]\nbody\n"),
        Some("fix: a\nbody".to_string())
    );
    assert_eq!(read(""), None);
    assert_eq!(read("{}"), None);
    // A document that is a string but no result event is taken as it is written.
    assert_eq!(read("\"hi\""), Some("\"hi\"".to_string()));
}

#[test]
fn failed_commands_give_no_reply() {
    let raw = br#"{"type":"result","result":"hi"}"#;
    assert_eq!(jc::claude_client::reply_text(false, raw), None);
    assert_eq!(jc::codex_client::reply_text(false, raw), None);
    assert_eq!(jc::codex_client::reply_text(false, b"plain"), None);
}
