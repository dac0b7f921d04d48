use mii_text::conversation::{
    build_chat_messages, is_provider_continuation_value, load_input_messages, load_stateful,
    push_assistant_turn, save_stateful, Message,
};
use mii_text::json::Json;
use mii_text::output::ProviderContinuation;
use mii_text::providers::responses::build_input;

fn json(text: &str) -> Json {
    Json::parse(text).unwrap()
}

fn messages(text: &str) -> Vec<Message> {
    load_input_messages(&Some(text.to_string()), false, None).unwrap()
}

#[test]
fn preserves_tool_message_fields() {
    let raw = r#"[
        {"role":"tool","tool_call_id":"call_1","content":"ok"},
        {"type":"function_call_output","call_id":"call_2","output":"done"}
    ]"#;
    let messages = messages(raw);
    let values: Vec<Json> = messages.iter().map(Message::to_api_value).collect();

    assert_eq!(values[0].get_str("role"), Some("tool"));
    assert_eq!(values[0].get_str("tool_call_id"), Some("call_1"));
    assert_eq!(values[0].get_str("content"), Some("ok"));
    assert_eq!(
        values[1],
        json(
            r#"{
                "type": "function_call_output",
                "call_id": "call_2",
                "output": "done"
            }"#
        )
    );
}

#[test]
fn accepts_null_content_tool_calls() {
    let raw = r#"[{"role":"assistant","content":null,"tool_calls":[]}]"#;
    let messages = messages(raw);
    let value = messages[0].to_api_value();

    assert_eq!(value.get_str("role"), Some("assistant"));
    assert!(value.get("content").is_none());
    assert_eq!(value.get("tool_calls"), Some(&json("[]")));
}

#[test]
fn quick_input_trims_stdin_override_and_rejects_empty_prompts() {
    let messages = load_input_messages(&None, true, Some("  hello shell  \n")).unwrap();

    assert_eq!(messages.len(), 1);
    assert_eq!(messages[0].to_api_value().get_str("role"), Some("user"));
    assert_eq!(
        messages[0].to_api_value().get_str("content"),
        Some("hello shell")
    );
    assert_eq!(
        load_input_messages(&None, true, Some(" \n\t ")).unwrap_err(),
        "quick mode requires non-empty input"
    );
}

#[test]
fn json_messages_are_loaded_from_argument_before_stdin_override() {
    let arg = Some(r#"[{"role":"user","content":"from args"}]"#.to_string());
    let messages =
        load_input_messages(&arg, false, Some(r#"[{"role":"user","content":"stdin"}]"#)).unwrap();

    assert_eq!(messages.len(), 1);
    assert_eq!(
        messages[0].to_api_value().get_str("content"),
        Some("from args")
    );
}

#[test]
fn stateful_files_round_trip_and_missing_files_start_empty() {
    assert!(load_stateful(None).unwrap().is_empty());

    let messages = vec![
        Message::user("hello".to_string()),
        Message::assistant("hi".to_string()),
    ];
    let saved = save_stateful(&messages);
    let loaded = load_stateful(Some(&saved)).unwrap();

    assert_eq!(loaded.len(), 2);
    assert_eq!(loaded[0].to_api_value().get_str("role"), Some("user"));
    assert_eq!(loaded[0].to_api_value().get_str("content"), Some("hello"));
    assert_eq!(loaded[1].to_api_value().get_str("role"), Some("assistant"));
    assert_eq!(loaded[1].to_api_value().get_str("content"), Some("hi"));
}

#[test]
fn build_chat_messages_prepends_system_and_preserves_extra_fields() {
    let system = Some("system prompt".to_string());
    let messages = messages(
        r#"[
            {"role":"assistant","content":null,"tool_calls":[{"id":"call_1"}]},
            {"role":"tool","tool_call_id":"call_1","content":"ok"}
        ]"#,
    );

    let api = build_chat_messages(&system, &messages);

    assert_eq!(api.len(), 3);
    assert_eq!(
        api[0],
        json(r#"{ "role": "system", "content": "system prompt" }"#)
    );
    assert_eq!(api[1].get_str("role"), Some("assistant"));
    assert!(api[1].get("content").is_none());
    assert_eq!(api[1].to_value()["tool_calls"][0]["id"], "call_1");
    assert_eq!(api[2].get_str("tool_call_id"), Some("call_1"));
    assert_eq!(api[2].get_str("content"), Some("ok"));
}

#[test]
fn files_keep_every_kind_of_message() {
    let kept = messages(
        r#"[
            {"role":"user","content":[{"type":"text","text":"é\n"}],"name":"x"},
            {"type":"reasoning","n":-3,"big":18446744073709551615,"flag":true},
            {}
        ]"#,
    );
    let text = save_stateful(&kept);
    assert_eq!(load_stateful(Some(&text)).unwrap(), kept);
    assert_eq!(
        load_stateful(Some(&format!("\n {text} \n"))).unwrap(),
        kept
    );
    assert_eq!(save_stateful(&[]), "[]");
    assert!(load_stateful(Some(" \n")).unwrap().is_empty());
}

#[test]
fn broken_input_is_explained() {
    let load = |text: &str| load_input_messages(&Some(text.to_string()), false, None).unwrap_err();
    assert_eq!(load(" "), "no input messages provided");
    assert!(load("{").starts_with("failed to parse messages json: EOF"));
    assert_eq!(
        load("{}"),
        "failed to parse messages json: expected an array of messages"
    );
    assert_eq!(
        load("[1]"),
        "failed to parse messages json: each message must be an object, with a text as its role"
    );
    assert!(load(r#"[{"role":null}]"#).starts_with("failed to parse messages json: "));
    assert!(load_stateful(Some("["))
        .unwrap_err()
        .starts_with("failed to parse stateful file json: "));
}

fn continuation() -> ProviderContinuation {
    ProviderContinuation {
        provider: "openai".to_string(),
        response_id: Some("resp_1".to_string()),
        reasoning_items: vec![json(r#"{"type":"reasoning","encrypted_content":"e"}"#)],
    }
}

#[test]
fn a_turn_adds_the_answer_and_then_the_continuation() {
    let mut conversation = vec![Message::user("q".to_string())];
    push_assistant_turn(
        &mut conversation,
        "a".to_string(),
        &Some(continuation()),
        &None,
    );
    assert_eq!(conversation.len(), 3);
    assert_eq!(conversation[1], Message::assistant("a".to_string()));
    assert_eq!(
        conversation[2].to_json().to_compact(),
        concat_parts(&[
            r#"{"provider":"openai","response_id":"resp_1","#,
            r#""reasoning_items":[{"type":"reasoning","encrypted_content":"e"}]}"#,
        ])
    );
    let chat = build_chat_messages(&None, &conversation);
    assert_eq!(chat.len(), 2);
    let input = build_input(&None, &conversation).unwrap();
    assert_eq!(input.len(), 3);
    assert_eq!(input[2].get_str("encrypted_content"), Some("e"));
    let text = save_stateful(&conversation);
    assert_eq!(load_stateful(Some(&text)).unwrap(), conversation);
}

fn concat_parts(parts: &[&str]) -> String {
    parts.concat()
}

#[test]
fn continuations_are_known_by_mark_or_by_provider_and_items() {
    assert!(is_provider_continuation_value(&continuation().to_json()));
    assert!(is_provider_continuation_value(&continuation().stream_event()));
    assert!(is_provider_continuation_value(&json(
        r#"{"type":"provider_continuation"}"#
    )));
    assert!(!is_provider_continuation_value(&json(
        r#"{"provider":"openai","reasoning_items":{}}"#
    )));
    assert!(!is_provider_continuation_value(&json(
        r#"{"provider":1,"reasoning_items":[]}"#
    )));
}

#[test]
fn constrained_answers_are_kept_and_not_sent() {
    let kept = messages(r#"[{"role":"assistant","content":"a","constrained":{"x":1},"y":2}]"#);
    assert_eq!(
        kept[0].to_api_value().to_compact(),
        r#"{"y":2,"role":"assistant","content":"a"}"#
    );
    assert_eq!(
        kept[0].to_json().to_compact(),
        r#"{"role":"assistant","content":"a","constrained":{"x":1},"y":2}"#
    );
}

#[test]
fn white_space_is_that_of_unicode() {
    let messages = load_input_messages(&None, true, Some("\u{3000}\u{85} a\u{a0}b \u{2029}"));
    assert_eq!(
        messages.unwrap()[0],
        Message::user("\u{3000}\u{85} a\u{a0}b \u{2029}".trim().to_string())
    );
}
