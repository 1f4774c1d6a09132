use romajiagent::codex_messages::{
    codex_prompt, initialize_line, read_message, reject_server_request,
    text_from_codex_notification, thread_start_line, turn_start_line,
};
use romajiagent::codex_session::{CodexSession, Phase, Step};
use romajiagent::json::{array, look_up, member, object, text_member};
use romajiagent::prompt::transform_response_schema;
use romajiagent::protocol::{
    Confidence, Timestamp, TransformContext, TransformRequest, TransformResponse,
};
use romajiagent::response::parse_transform_response_text;

fn json(text: &str) -> serde_json::Value {
    serde_json::from_str(text).unwrap()
}

fn session() -> CodexSession {
    CodexSession::start("/work", Some("model".into()), "prompt".into(), "0.1.0").0
}

fn running() -> CodexSession {
    CodexSession { phase: Phase::Running("turn".into()), ..session() }
}

fn delta(turn: &str, text: &str) -> String {
    format!(
        r#"{{"jsonrpc":"2.0","method":"item/agentMessage/delta","params":{{"turnId":"{turn}","delta":"{text}"}}}}"#
    )
}

fn completed_item(turn: &str, kind: &str, text: &str) -> String {
    format!(
        r#"{{"method":"item/completed","params":{{"turnId":"{turn}","item":{{"type":"{kind}","text":"{text}"}}}}}}"#
    )
}

fn completed_turn(turn: &str) -> String {
    format!(r#"{{"method":"turn/completed","params":{{"turn":{{"id":"{turn}"}}}}}}"#)
}

fn sent(step: Step) -> serde_json::Value {
    match step {
        Step::Send(line) => {
            assert!(!line.contains('\n'));
            json(&line)
        }
        other => panic!("expected a line, got {other:?}"),
    }
}

fn failed(reason: &str) -> Step {
    Step::Failed(reason.to_string())
}

#[test]
fn parses_codex_agent_message_notification() {
    let mut accumulated = String::new();
    let delta = read_message(
        r#"{
            "jsonrpc": "2.0",
            "method": "item/agentMessage/delta",
            "params": {
                "threadId": "thread",
                "turnId": "turn",
                "itemId": "item",
                "delta": "{\"converted\":\"今日\""
            }
        }"#,
    )
    .unwrap();
    assert!(text_from_codex_notification(&delta, "turn", &mut accumulated).is_none());
    assert_eq!(accumulated, "{\"converted\":\"今日\"");

    let completed = read_message(
        r#"{
            "jsonrpc": "2.0",
            "method": "item/completed",
            "params": {
                "threadId": "thread",
                "turnId": "turn",
                "completedAtMs": 0,
                "item": {
                    "type": "agentMessage",
                    "id": "item",
                    "text": "{\"converted\":\"今日\",\"refined\":\"今日はよい天気です。\",\"confidence\":0.9}",
                    "phase": null,
                    "memoryCitation": null
                }
            }
        }"#,
    )
    .unwrap();

    let text = text_from_codex_notification(&completed, "turn", &mut accumulated).unwrap();
    let value = json(&text);
    let whole = TransformResponse {
        converted: value["converted"].as_str().unwrap().to_string(),
        refined: value["refined"].as_str().unwrap().to_string(),
        confidence: Confidence { bits: (value["confidence"].as_f64().unwrap() as f32).to_bits() },
    };
    let response = parse_transform_response_text(&text, Ok(whole), Err(String::new())).unwrap();
    assert_eq!(response.converted, "今日");
    assert_eq!(response.refined, "今日はよい天気です。");
}

#[test]
fn rejects_codex_server_request_but_ignores_notifications() {
    let request = read_message(
        r#"{"jsonrpc": "2.0", "id": 42, "method": "exec/approval", "params": {}}"#,
    )
    .unwrap();
    let response = json(&reject_server_request(&request).unwrap());
    assert_eq!(response["id"], 42);
    assert_eq!(response["error"]["code"], -32601);

    let notification = read_message(
        r#"{"jsonrpc": "2.0", "method": "item/completed", "params": {}}"#,
    )
    .unwrap();
    assert!(reject_server_request(&notification).is_none());
}

#[test]
fn refusal_repeats_the_id_as_it_is() {
    let request = read_message(r#"{"id": "a\nb", "method": "x"}"#).unwrap();
    let line = reject_server_request(&request).unwrap();
    assert!(!line.contains('\n'));
    assert_eq!(json(&line)["id"], "a\nb");
    assert_eq!(
        json(&line)["error"]["message"],
        "Romaji Agent does not allow app-server initiated actions"
    );
    let request = read_message(r#"{"id": null, "method": "x"}"#).unwrap();
    assert!(json(&reject_server_request(&request).unwrap())["id"].is_null());
    let reply = read_message(r#"{"id": 1, "result": {}}"#).unwrap();
    assert!(reject_server_request(&reply).is_none());
}

#[test]
fn requests_are_what_serde_would_write() {
    let line = initialize_line("0.1.0");
    assert_eq!(json(&line).to_string(), line);
    assert_eq!(
        line,
        r#"{"id":1,"jsonrpc":"2.0","method":"initialize","params":{"capabilities":{"experimentalApi":true,"optOutNotificationMethods":[],"requestAttestation":false},"clientInfo":{"name":"romajiagent","version":"0.1.0"}}}"#
    );
    let line = thread_start_line("/w\"x", &Some("m".into()));
    assert_eq!(json(&line).to_string(), line);
    let line = turn_start_line("t", "a\nb\u{1}");
    assert_eq!(json(&line).to_string(), line);
    assert_eq!(json(&line)["params"]["input"][0]["text"], "a\nb\u{1}");
    assert_eq!(
        json(&line)["params"]["outputSchema"].to_string(),
        transform_response_schema()
    );
}

#[test]
fn thread_is_confined() {
    let params = json(&thread_start_line("/work", &None))["params"].clone();
    assert_eq!(params["approvalPolicy"], "never");
    assert_eq!(params["sandbox"], "read-only");
    assert_eq!(params["ephemeral"], true);
    assert_eq!(params["cwd"], "/work");
    assert!(params.get("model").is_none());
    let params = json(&thread_start_line("", &Some(String::new())))["params"].clone();
    assert!(params.get("model").is_none());
    let params = json(&thread_start_line("", &Some("gpt".into())))["params"].clone();
    assert_eq!(params["model"], "gpt");
}

#[test]
fn codex_prompt_holds_the_request() {
    let request = TransformRequest {
        raw: "kyou".into(),
        memory: "mtg -> 会議".into(),
        context: TransformContext {
            timestamp: Timestamp { seconds: 0, nanos: 0 },
            os: String::new(),
            app_name: None,
            process_id: None,
            window_title: None,
        },
        kana_candidate: Some("きょう".into()),
    };
    let prompt = codex_prompt(&request);
    assert!(prompt.contains("- Do not use tools, shell commands, file reads, or network browsing.\n"));
    assert!(prompt.contains("{\"converted\": string, \"refined\": string, \"confidence\": number}"));
    assert!(prompt.ends_with("\n\nRaw:\nkyou\n\nKana candidate:\nきょう\n\n\nMemory:\nmtg -> 会議\n"));
    let prompt = codex_prompt(&TransformRequest { kana_candidate: None, ..request });
    assert!(prompt.ends_with("\n\nRaw:\nkyou\n\n\nMemory:\nmtg -> 会議\n"));
}

#[test]
fn json_text_is_quoted_as_serde_quotes_it() {
    let mut text = String::new();
    for code in 0u32..0x100 {
        text.push(char::from_u32(code).unwrap());
    }
    text.push_str("今日\u{2028}😀");
    let quoted = serde_json::Value::String(text.clone()).to_string();
    assert_eq!(text_member("a\"", &text), format!("\"a\\\"\":{quoted}"));
    assert_eq!(
        text_member("k", "\u{8}\u{c}\n\r\t\"\\/\u{1f}\u{7f}"),
        "\"k\":\"\\b\\f\\n\\r\\t\\\"\\\\/\\u001f\u{7f}\""
    );
    let members = vec![member("a", "1"), member("b", "[]")];
    assert_eq!(object(&members), r#"{"a":1,"b":[]}"#);
    assert_eq!(object(&[]), "{}");
    assert_eq!(array(&members), r#"["a":1,"b":[]]"#);
}

#[test]
fn values_are_looked_up_by_pointer() {
    let found = look_up(r#" {"a":{"b":["x", 7, -1, null]}} "#, &["/a/b/0", "/a/b/1", "/a/b/2", "/c", ""])
        .unwrap();
    assert_eq!(found[0].as_ref().unwrap().string.as_deref(), Some("x"));
    assert_eq!(found[0].as_ref().unwrap().text, "\"x\"");
    assert_eq!(found[0].as_ref().unwrap().unsigned, None);
    assert_eq!(found[1].as_ref().unwrap().unsigned, Some(7));
    assert_eq!(found[2].as_ref().unwrap().unsigned, None);
    assert_eq!(found[2].as_ref().unwrap().text, "-1");
    assert!(found[3].is_none());
    assert_eq!(found[4].as_ref().unwrap().text, r#"{"a":{"b":["x",7,-1,null]}}"#);
    assert_eq!(look_up("x", &[]), Err("expected value at line 1 column 1".to_string()));
}

#[test]
fn session_opens_a_thread_and_a_turn() {
    let (mut session, line) = CodexSession::start("/work", None, "do it".into(), "1.2");
    assert_eq!(json(&line)["id"], 1);
    assert_eq!(session.on_line(r#"{"method":"log"}"#), Step::Wait);
    let thread = sent(session.on_line(r#"{"id":1,"result":{}}"#));
    assert_eq!(thread["id"], 2);
    assert_eq!(thread["method"], "thread/start");
    assert_eq!(thread["params"]["cwd"], "/work");
    let turn = sent(session.on_line(r#"{"id":2,"result":{"thread":{"id":"t1"}}}"#));
    assert_eq!(turn["id"], 3);
    assert_eq!(turn["method"], "turn/start");
    assert_eq!(turn["params"]["threadId"], "t1");
    assert_eq!(turn["params"]["input"][0]["text"], "do it");
    assert_eq!(session.on_line(r#"{"id":3,"result":{"turn":{"id":"turn"}}}"#), Step::Wait);
    assert_eq!(session.phase, Phase::Running("turn".into()));
    assert_eq!(session.on_line(&delta("turn", "a")), Step::Wait);
    assert_eq!(session.on_line(&delta("turn", "b")), Step::Wait);
    assert_eq!(session.on_line(&completed_turn("turn")), Step::Answered("ab".into()));
    assert_eq!(session.phase, Phase::Closed);
    assert_eq!(session.on_line(&delta("turn", "c")), Step::Wait);
}

#[test]
fn session_opens_whatever_comes_between_the_replies() {
    let (mut session, _) = CodexSession::start("/work", None, "do it".into(), "1.2");
    let noise = [
        r#"{"id":9,"method":"exec/approval"}"#,
        r#"{"method":"log"}"#,
        r#"{"id":7,"result":{}}"#,
    ];
    let replies = [
        r#"{"id":1,"result":{}}"#,
        r#"{"id":2,"result":{"thread":{"id":"t1"}}}"#,
        r#"{"id":3,"result":{"turn":{"id":"turn"}}}"#,
    ];
    let mut requests: Vec<String> = Vec::new();
    for reply in replies {
        let before = session.clone();
        assert_eq!(sent(session.on_line(noise[0]))["error"]["code"], -32601);
        assert_eq!(session.on_line(noise[1]), Step::Wait);
        assert_eq!(session.on_line(noise[2]), Step::Wait);
        assert_eq!(session, before);
        if let Step::Send(line) = session.on_line(reply) {
            requests.push(line);
        }
    }
    assert_eq!(
        requests,
        vec![thread_start_line("/work", &None), turn_start_line("t1", "do it")]
    );
    assert_eq!(session.phase, Phase::Running("turn".into()));
}

#[test]
fn session_prefers_the_whole_answer() {
    let mut session = running();
    session.on_line(&delta("turn", "piece"));
    session.on_line(&completed_item("turn", "agentMessage", "first"));
    session.on_line(&completed_item("turn", "agentMessage", "second"));
    session.on_line(&completed_item("turn", "reasoning", "third"));
    assert_eq!(session.on_line(&completed_turn("turn")), Step::Answered("second".into()));
}

#[test]
fn session_ignores_other_turns() {
    let mut session = running();
    session.on_line(&delta("other", "x"));
    session.on_line(&completed_item("other", "agentMessage", "y"));
    assert_eq!(session.on_line(&completed_turn("other")), Step::Wait);
    assert_eq!(session, running());
    assert_eq!(
        session.on_line(&completed_turn("turn")),
        failed("codex app-server completed without an agent message")
    );
}

#[test]
fn session_does_not_answer_with_white_space() {
    let mut session = running();
    session.on_line(&delta("turn", " \\n"));
    assert_eq!(
        session.on_line(&completed_turn("turn")),
        failed("codex app-server completed without an agent message")
    );
}

#[test]
fn session_refuses_requests_at_every_point() {
    let request = r#"{"id":"r","method":"exec/approval"}"#;
    let phases = [
        Phase::Initializing,
        Phase::StartingThread,
        Phase::StartingTurn,
        Phase::Running("turn".into()),
    ];
    for phase in phases {
        let mut session = CodexSession { phase: phase.clone(), ..session() };
        let refusal = sent(session.on_line(request));
        assert_eq!(refusal["id"], "r");
        assert_eq!(refusal["error"]["code"], -32601);
        assert_eq!(session.phase, phase);
    }
}

#[test]
fn session_fails_with_the_reason() {
    assert_eq!(
        session().on_line(r#"{"id":1,"error":{"code": -1}}"#),
        failed(r#"codex app-server error: {"code":-1}"#)
    );
    let mut starting = CodexSession { phase: Phase::StartingThread, ..session() };
    assert_eq!(
        starting.on_line(r#"{"id":2,"result":{"thread":{"id":5}}}"#),
        failed(r#"thread/start did not return a thread id: {"thread":{"id":5}}"#)
    );
    let mut starting = CodexSession { phase: Phase::StartingTurn, ..session() };
    assert_eq!(
        starting.on_line(r#"{"id":3}"#),
        failed("turn/start did not return a turn id: null")
    );
    assert_eq!(
        running().on_line(r#"{"method":"error", "params":{}}"#),
        failed(r#"codex app-server notification error: {"method":"error","params":{}}"#)
    );
    assert_eq!(
        session().on_line("nonsense"),
        failed("invalid app-server json: expected ident at line 1 column 2")
    );
    let mut late = session();
    assert_eq!(late.on_timeout(), failed("codex app-server timed out"));
    assert_eq!(late.phase, Phase::Closed);
}

#[test]
fn session_waits_for_the_id_it_asked_with() {
    let mut session = session();
    assert_eq!(session.on_line(r#"{"id":2,"result":{}}"#), Step::Wait);
    assert_eq!(session.on_line(r#"{"id":"1","result":{}}"#), Step::Wait);
    assert_eq!(session.on_line(r#"{"id":1.0,"result":{}}"#), Step::Wait);
    assert_eq!(session.on_line("[1]"), Step::Wait);
    assert_eq!(session.phase, Phase::Initializing);
    let message = read_message(r#"{"id":1,"method":"odd"}"#).unwrap();
    assert_eq!(sent(session.on_message(&message))["method"], "thread/start");
}

#[test]
fn turn_messages_are_taken_by_turn() {
    let mut session = running();
    let message = read_message(&completed_item("turn", "agentMessage", "x")).unwrap();
    assert_eq!(session.wait_for_codex_turn(&message, "turn"), Step::Wait);
    assert_eq!(session.final_text.as_deref(), Some("x"));
    let message = read_message(&completed_turn("turn")).unwrap();
    assert_eq!(session.wait_for_codex_turn(&message, "turn"), Step::Answered("x".into()));
}
