use co_scientist::claude_cli::{
    build_args, extract_assistant_text, extract_stream_delta, init_frame, is_init_success, user_frame,
    ClaudeOptions, PermissionMode, StreamReader, TurnReader,
};
use co_scientist::json::{Json, Number};
use serde_json::Value;

fn json(text: &str) -> Json {
    from_value(&serde_json::from_str(text).expect("valid JSON"))
}

fn from_value(v: &Value) -> Json {
    match v {
        Value::Null => Json::Null,
        Value::Bool(b) => Json::Bool(*b),
        Value::Number(n) => Json::Number(if let Some(u) = n.as_u64() {
            Number::PosInt(u)
        } else if let Some(i) = n.as_i64() {
            Number::NegInt(i)
        } else {
            Number::Float(n.to_string())
        }),
        Value::String(s) => Json::Str(s.clone()),
        Value::Array(items) => Json::Array(items.iter().map(from_value).collect()),
        Value::Object(map) => {
            Json::Object(map.iter().map(|(k, v)| (k.clone(), from_value(v))).collect())
        }
    }
}

fn to_value(v: &Json) -> Value {
    match v {
        Json::Null => Value::Null,
        Json::Bool(b) => Value::from(*b),
        Json::Number(Number::PosInt(n)) => Value::from(*n),
        Json::Number(Number::NegInt(n)) => Value::from(*n),
        Json::Number(Number::Float(s)) => serde_json::from_str(s).expect("a number"),
        Json::Str(s) => Value::from(s.as_str()),
        Json::Array(items) => Value::from(items.iter().map(to_value).collect::<Vec<Value>>()),
        Json::Object(fields) => Value::Object(
            fields.iter().map(|(k, v)| (k.clone(), to_value(v))).collect::<serde_json::Map<String, Value>>(),
        ),
    }
}

fn replay(frames: &[Json]) -> (String, String) {
    let mut reader = StreamReader::new();
    let mut emitted = String::new();
    for v in frames {
        let step = reader.step(v);
        if let Some(delta) = step.delta {
            emitted.push_str(&delta);
        }
        if step.done {
            break;
        }
    }
    (emitted, reader.text)
}

fn answer(frames: &[Json]) -> String {
    let mut reader = TurnReader::new();
    for v in frames {
        if reader.step(v) {
            break;
        }
    }
    reader.text
}

#[test]
fn build_args_matches_sdk_shape_for_runner_use() {
    let opts = ClaudeOptions {
        system_prompt: Some("you are a helper".to_string()),
        model: Some("sonnet".to_string()),
        max_turns: Some(3),
        permission_mode: Some(PermissionMode::BypassPermissions),
        allowed_tools: vec!["Bash".to_string(), "Read".to_string()],
        ..ClaudeOptions::default()
    };
    let args = build_args(&opts);
    assert_eq!(
        args,
        vec![
            "--output-format",
            "stream-json",
            "--input-format",
            "stream-json",
            "--verbose",
            "--include-partial-messages",
            "--system-prompt",
            "you are a helper",
            "--allowedTools",
            "Bash,Read",
            "--max-turns",
            "3",
            "--model",
            "sonnet",
            "--permission-mode",
            "bypassPermissions",
        ]
    );
}

#[test]
fn init_success_detected() {
    let v = json(r#"{
        "type":"control_response",
        "response":{"subtype":"success","request_id":"req_1","response":{"ok":true}}
    }"#);
    assert!(is_init_success(&v));
    let v2 = json(r#"{"type":"control_response","response":{"subtype":"success","request_id":"req_2"}}"#);
    assert!(!is_init_success(&v2));
    let v3 = json(r#"{"type":"control_response","response":{"subtype":"error","request_id":"req_1"}}"#);
    assert!(!is_init_success(&v3));
}

#[test]
fn stream_delta_extracts_text_only() {
    let v = json(r#"{
        "type": "stream_event",
        "event": {
            "type": "content_block_delta",
            "index": 0,
            "delta": {"type": "text_delta", "text": "Hello world"}
        }
    }"#);
    assert_eq!(extract_stream_delta(&v).as_deref(), Some("Hello world"));

    let v_tool = json(r#"{
        "type": "stream_event",
        "event": {
            "type": "content_block_delta",
            "index": 1,
            "delta": {"type": "input_json_delta", "partial_json": "{\"a\":"}
        }
    }"#);
    assert_eq!(extract_stream_delta(&v_tool), None);

    let v_start = json(r#"{
        "type": "stream_event",
        "event": {"type": "content_block_start", "index": 0, "content_block": {"type": "text", "text": ""}}
    }"#);
    assert_eq!(extract_stream_delta(&v_start), None);

    let v_assistant = json(r#"{
        "type": "assistant",
        "message": {"content": [{"type": "text", "text": "x"}]}
    }"#);
    assert_eq!(extract_stream_delta(&v_assistant), None);
}

#[test]
fn stream_then_assistant_does_not_double_emit() {
    let frames = vec![
        json(r#"{"type":"stream_event","event":{"type":"content_block_delta","index":0,"delta":{"type":"text_delta","text":"Hello "}}}"#),
        json(r#"{"type":"stream_event","event":{"type":"content_block_delta","index":0,"delta":{"type":"text_delta","text":"world"}}}"#),
        json(r#"{"type":"stream_event","event":{"type":"content_block_delta","index":0,"delta":{"type":"text_delta","text":"!"}}}"#),
        json(r#"{"type":"assistant","message":{"content":[{"type":"text","text":"Hello world!"}]}}"#),
        json(r#"{"type":"result","result":"ok"}"#),
    ];

    let (emitted, assistant_text) = replay(&frames);

    assert_eq!(emitted, "Hello world!");
    assert_eq!(assistant_text, "Hello world!");
}

#[test]
fn assistant_only_emits_full_text() {
    let frames = vec![
        json(r#"{"type":"assistant","message":{"content":[{"type":"text","text":"fallback response"}]}}"#),
        json(r#"{"type":"result","result":"ok"}"#),
    ];

    let (emitted, assistant_text) = replay(&frames);

    assert_eq!(emitted, "fallback response");
    assert_eq!(assistant_text, "fallback response");
}

#[test]
fn shorter_assistant_snapshot_does_not_truncate_streamed_text() {
    let frames = vec![
        json(r#"{"type":"stream_event","event":{"type":"content_block_delta","index":0,"delta":{"type":"text_delta","text":"Hello world"}}}"#),
        json(r#"{"type":"assistant","message":{"content":[{"type":"text","text":"Hello"}]}}"#),
        json(r#"{"type":"result","result":"ok"}"#),
    ];

    let (emitted, assistant_text) = replay(&frames);

    assert_eq!(emitted, "Hello world");
    assert_eq!(assistant_text, "Hello world");
}

#[test]
fn query_returns_assistant_text_then_terminates_on_result() {
    let frames = vec![
        json(r#"{"type":"assistant","message":{"model":"sonnet-4-5","content":[{"type":"text","text":"Hello "},{"type":"text","text":"world"}]}}"#),
        json(r#"{"type":"result","subtype":"success","is_error":false,"num_turns":1,"session_id":"s1","total_cost_usd":0.001,"result":"done"}"#),
        json(r#"{"type":"assistant","message":{"content":[{"type":"text","text":"too late"}]}}"#),
    ];
    assert_eq!(answer(&frames), "Hello \nworld");
}

#[test]
fn non_assistant_frames_before_result_are_ignored() {
    let frames = vec![
        json(r#"{"type":"system","subtype":"some_status"}"#),
        json(r#"{"type":"assistant","message":{"content":[{"type":"text","text":"only this"}]}}"#),
        json(r#"{"type":"control_request","request_id":"req_99","request":{"subtype":"hook_callback"}}"#),
        json(r#"{"type":"result","subtype":"success","is_error":false,"num_turns":1,"session_id":"s1","total_cost_usd":0.0,"result":"done"}"#),
    ];
    assert_eq!(answer(&frames), "only this");
}

#[test]
fn frames_are_written_as_the_client_expects() {
    assert_eq!(
        to_value(&init_frame()),
        to_value(&json(r#"{"type":"control_request","request_id":"req_1","request":{"subtype":"initialize","hooks":null}}"#))
    );
    assert_eq!(
        to_value(&user_frame("say \"hi\"")),
        to_value(&json(r#"{"type":"user","message":{"role":"user","content":"say \"hi\""},"parent_tool_use_id":null,"session_id":"default"}"#))
    );
}

fn said(text: &str) -> Json {
    json(&format!(
        r#"{{"type":"assistant","message":{{"content":[{{"type":"text","text":"{text}"}}]}}}}"#
    ))
}

fn delta(text: &str) -> Json {
    json(&format!(
        r#"{{"type":"stream_event","event":{{"type":"content_block_delta","index":0,"delta":{{"type":"text_delta","text":"{text}"}}}}}}"#
    ))
}

#[test]
fn only_the_new_tail_of_a_snapshot_is_handed_on() {
    let mut reader = StreamReader::new();
    assert_eq!(reader.step(&said("Hel")).delta.as_deref(), Some("Hel"));
    assert_eq!(reader.step(&said("Hello")).delta.as_deref(), Some("lo"));
    assert_eq!(reader.step(&said("Hello")).delta, None);
    assert!(reader.step(&json(r#"{"type":"result"}"#)).done);
    assert_eq!(reader.text, "Hello");
}

#[test]
fn a_streamed_turn_is_as_it_is_collected() {
    let turns = vec![
        vec![said("Hel"), said("Hello"), json(r#"{"type":"result"}"#)],
        vec![said("a"), said("b"), said("a")],
        vec![delta("He"), said("Hel"), delta("lo"), said("Hello"), said("Hello")],
        vec![said("He"), delta("l"), said("Hello")],
        vec![],
    ];
    let texts = ["Hello", "a\nb\na", "Hello", "Hello", ""];
    for (frames, text) in turns.iter().zip(texts) {
        assert_eq!(answer(frames), text);
        assert_eq!(replay(frames), (text.to_string(), text.to_string()));
    }
}

#[test]
fn default_options_give_only_the_fixed_arguments() {
    assert_eq!(
        build_args(&ClaudeOptions::default()),
        vec![
            "--output-format",
            "stream-json",
            "--input-format",
            "stream-json",
            "--verbose",
            "--include-partial-messages",
        ]
    );
    assert_eq!(extract_assistant_text(&json("{}")), None);
}
