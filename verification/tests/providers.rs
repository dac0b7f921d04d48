use mii_text::conversation::Message;
use mii_text::json::Json;
use mii_text::providers::chat::{self, merge_delta_value, merge_tool_call_deltas};
use mii_text::providers::responses::{
    self, append_input_item, build_input, extract_provider_continuation,
    extract_reasoning_summary, extract_tool_calls, is_countable, reasoning_event_text,
};
use mii_text::providers::{
    api_error, api_stream_error, is_openai, outgoing, own_error, should_include_reasoning,
    use_chat_completions, CallOutcome, CallParams, Outgoing, Session,
};
use mii_text::sink::Sink;

fn json(text: &str) -> Json {
    Json::parse(text).unwrap()
}

fn message(text: &str) -> Message {
    Message::from_json(&json(text)).unwrap()
}

#[test]
fn routes_openai_to_responses_by_default() {
    assert!(!use_chat_completions(false, None));
    assert!(!use_chat_completions(
        false,
        Some("https://api.openai.com/v1")
    ));
}

#[test]
fn keeps_chat_completions_for_compatibility() {
    assert!(use_chat_completions(true, None));
    assert!(use_chat_completions(false, Some("https://example.test/v1")));
}

#[test]
fn includes_reasoning_by_default_only_for_structured_non_streaming_output() {
    assert!(should_include_reasoning(false, false, false));
    assert!(should_include_reasoning(true, false, false));
    assert!(should_include_reasoning(true, true, false));
    assert!(should_include_reasoning(true, false, true));
    assert!(!should_include_reasoning(false, true, false));
    assert!(!should_include_reasoning(false, false, true));
}

#[test]
fn api_failures_have_their_exit_code() {
    assert_eq!(api_error("x"), (2, "api error: x".to_string()));
    assert_eq!(api_stream_error("x"), (2, "api stream error: x".to_string()));
    assert_eq!(own_error("x".to_string()), (1, "x".to_string()));
}

#[test]
fn openai_is_known_by_its_host() {
    assert!(is_openai(None));
    assert!(is_openai(Some("http://api.openai.com")));
    assert!(is_openai(Some("api.openai.com")));
    assert!(!is_openai(Some("http://openai.com")));
    assert!(!is_openai(Some("")));
}

#[test]
fn merges_streamed_tool_call_deltas() {
    let mut calls = Vec::new();
    merge_tool_call_deltas(
        &mut calls,
        &json(
            r#"{
                "tool_calls": [{
                    "index": 0,
                    "id": "call_1",
                    "type": "function",
                    "function": { "name": "search", "arguments": "{\"q\"" }
                }]
            }"#,
        ),
    );
    merge_tool_call_deltas(
        &mut calls,
        &json(
            r#"{
                "tool_calls": [{
                    "index": 0,
                    "function": { "arguments": ":\"rust\"}" }
                }]
            }"#,
        ),
    );

    let first = calls[0].to_value();
    assert_eq!(first["id"], "call_1");
    assert_eq!(first["function"]["name"], "search");
    assert_eq!(first["function"]["arguments"], "{\"q\":\"rust\"}");
    assert!(first.get("index").is_none());
}

#[test]
fn merges_tool_call_input_deltas_and_overwrites_changed_metadata() {
    let mut calls = Vec::new();
    merge_tool_call_deltas(
        &mut calls,
        &json(
            r#"{
                "tool_calls": [{
                    "index": 1,
                    "id": "call_1",
                    "type": "function",
                    "name": "draft",
                    "input": "{\"city\""
                }]
            }"#,
        ),
    );
    merge_tool_call_deltas(
        &mut calls,
        &json(
            r#"{
                "tool_calls": [{
                    "index": 1,
                    "name": "weather",
                    "input": ":\"Paris\"}"
                }]
            }"#,
        ),
    );

    assert_eq!(calls.len(), 2);
    assert_eq!(calls[0], json("{}"));
    let second = calls[1].to_value();
    assert_eq!(second["id"], "call_1");
    assert_eq!(second["type"], "function");
    assert_eq!(second["name"], "weather");
    assert_eq!(second["input"], "{\"city\":\"Paris\"}");
}

#[test]
fn merge_delta_value_replaces_non_object_targets() {
    let mut target = json(r#""old""#);
    merge_delta_value(&mut target, &json(r#"{ "id": "call_1" }"#));

    assert_eq!(target, json(r#"{ "id": "call_1" }"#));
}

#[test]
fn null_members_of_a_piece_change_nothing() {
    let mut target = json(r#"{"id":"a","n":1}"#);
    merge_delta_value(&mut target, &json(r#"{"id":null,"index":3,"n":2,"x":{"y":1}}"#));
    assert_eq!(target.to_compact(), r#"{"id":"a","n":2,"x":{"y":1}}"#);
    merge_delta_value(&mut target, &json(r#"{"x":{"y":2,"z":3}}"#));
    assert_eq!(target.to_compact(), r#"{"id":"a","n":2,"x":{"y":2,"z":3}}"#);
}

#[test]
fn pieces_without_a_position_start_a_new_call() {
    let mut calls = vec![json(r#"{"id":"a"}"#)];
    merge_tool_call_deltas(&mut calls, &json(r#"{"tool_calls":[{"id":"b"},{"id":"c"}]}"#));
    assert_eq!(calls.len(), 3);
    assert_eq!(calls[2].get_str("id"), Some("c"));
    merge_tool_call_deltas(&mut calls, &json(r#"{"content":"x"}"#));
    assert_eq!(calls.len(), 3);
}

#[test]
fn extracts_response_tool_call_items() {
    let calls = extract_tool_calls(&[
        json(r#"{ "type": "reasoning" }"#),
        json(r#"{ "type": "function_call", "call_id": "call_1" }"#),
        json(r#"{ "type": "custom_tool_call", "call_id": "call_2" }"#),
        json(r#"{ "type": "message", "content": [] }"#),
    ]);

    assert_eq!(calls.len(), 2);
    assert_eq!(calls[0].get_str("call_id"), Some("call_1"));
    assert_eq!(calls[1].get_str("call_id"), Some("call_2"));
}

#[test]
fn build_input_prepends_system_and_preserves_response_tool_messages() {
    let system = Some("system prompt".to_string());
    let messages = vec![
        Message::user("hello".to_string()),
        message(
            r#"{
                "type": "function_call_output",
                "call_id": "call_1",
                "output": "done"
            }"#,
        ),
    ];

    let input = build_input(&system, &messages).unwrap();

    assert_eq!(input.len(), 3);
    assert_eq!(
        input[0],
        json(r#"{ "role": "system", "content": "system prompt" }"#)
    );
    assert_eq!(input[1], json(r#"{ "role": "user", "content": "hello" }"#));
    assert_eq!(
        input[2],
        json(
            r#"{
                "type": "function_call_output",
                "call_id": "call_1",
                "output": "done"
            }"#
        )
    );
}

#[test]
fn build_input_expands_provider_continuation_items() {
    let messages = vec![
        message(
            r#"{
                "provider": "openai",
                "response_id": "resp_1",
                "reasoning_items": [
                    {
                        "type": "reasoning",
                        "id": "rs_1",
                        "summary": [],
                        "encrypted_content": "opaque"
                    }
                ]
            }"#,
        ),
        Message::user("continue".to_string()),
    ];

    let input = build_input(&None, &messages).unwrap();

    assert_eq!(input.len(), 2);
    assert_eq!(input[0].get_str("type"), Some("reasoning"));
    assert_eq!(input[0].get_str("encrypted_content"), Some("opaque"));
    assert_eq!(input[1], json(r#"{ "role": "user", "content": "continue" }"#));
}

#[test]
fn build_input_accepts_streamed_provider_continuation_event_shape() {
    let messages = vec![message(
        r#"{
            "type": "provider_continuation",
            "provider": "openai",
            "reasoning_items": [
                {
                    "type": "reasoning",
                    "encrypted_content": "opaque"
                }
            ]
        }"#,
    )];

    let input = build_input(&None, &messages).unwrap();

    assert_eq!(input.len(), 1);
    assert_eq!(input[0].get_str("type"), Some("reasoning"));
    assert_eq!(input[0].get_str("encrypted_content"), Some("opaque"));
}

#[test]
fn build_input_does_not_treat_provider_metadata_as_continuation() {
    let messages = vec![message(
        r#"{
            "provider": "openai",
            "content": "ordinary metadata"
        }"#,
    )];

    let input = build_input(&None, &messages).unwrap();

    assert_eq!(input.len(), 1);
    assert_eq!(input[0].get_str("provider"), Some("openai"));
    assert_eq!(input[0].get_str("content"), Some("ordinary metadata"));
}

#[test]
fn build_input_requires_provider_marker_for_untyped_continuation() {
    let messages = vec![message(
        r#"{
            "reasoning_items": [
                {
                    "type": "reasoning",
                    "encrypted_content": "opaque"
                }
            ]
        }"#,
    )];

    let input = build_input(&None, &messages).unwrap();

    assert_eq!(input.len(), 1);
    assert_eq!(
        input[0].to_value()["reasoning_items"][0]["encrypted_content"],
        "opaque"
    );
}

#[test]
fn continuations_that_cannot_be_sent_are_refused() {
    let mut out = Vec::new();
    assert_eq!(
        append_input_item(
            &mut out,
            json(r#"{"provider":"other","reasoning_items":[]}"#)
        )
        .unwrap_err(),
        "provider_continuation for provider 'other' cannot be sent to OpenAI"
    );
    assert_eq!(
        append_input_item(&mut out, json(r#"{"type":"provider_continuation"}"#)).unwrap_err(),
        "provider_continuation requires a reasoning_items array"
    );
    assert!(out.is_empty());
    append_input_item(
        &mut out,
        json(r#"{"type":"provider_continuation","items":[{"a":1},2]}"#),
    )
    .unwrap();
    assert_eq!(out.len(), 2);
    assert!(build_input(
        &None,
        &[
            Message::user("a".to_string()),
            message(r#"{"provider":"other","reasoning_items":[]}"#)
        ]
    )
    .is_err());
}

#[test]
fn extracts_encrypted_reasoning_continuation() {
    let continuation = extract_provider_continuation(
        &json(r#"{ "id": "resp_1" }"#),
        &[
            json(
                r#"{
                    "type": "reasoning",
                    "id": "rs_1",
                    "summary": [],
                    "encrypted_content": "opaque"
                }"#,
            ),
            json(r#"{ "type": "reasoning", "summary": [] }"#),
            json(r#"{ "type": "function_call", "call_id": "call_1" }"#),
        ],
    )
    .unwrap();

    assert_eq!(continuation.provider, "openai");
    assert_eq!(continuation.response_id.as_deref(), Some("resp_1"));
    assert_eq!(continuation.reasoning_items.len(), 1);
    assert_eq!(
        continuation.reasoning_items[0].get_str("encrypted_content"),
        Some("opaque")
    );
}

#[test]
fn empty_encrypted_content_is_no_continuation() {
    let items = [json(r#"{"type":"compaction","encrypted_content":""}"#)];
    assert!(extract_provider_continuation(&json("{}"), &items).is_none());
    let items = [json(r#"{"type":"compaction","encrypted_content":"x"}"#)];
    let found = extract_provider_continuation(&json("{}"), &items).unwrap();
    assert_eq!(found.response_id, None);
}

#[test]
fn extract_tool_calls_ignores_messages_and_reasoning_items() {
    let calls = extract_tool_calls(&[
        json(r#"{ "type": "message", "content": [{ "type": "output_text", "text": "hi" }] }"#),
        json(r#"{ "type": "reasoning", "summary": [] }"#),
    ]);

    assert!(calls.is_empty());
}

#[test]
fn extracts_reasoning_summary_from_response_output_items() {
    let reasoning = extract_reasoning_summary(&[
        json(
            r#"{
                "type": "reasoning",
                "summary": [
                    { "type": "summary_text", "text": "first" },
                    { "type": "summary_text", "text": " second" }
                ]
            }"#,
        ),
        json(r#"{ "type": "function_call", "name": "echo" }"#),
    ]);

    assert_eq!(reasoning.as_deref(), Some("first second"));
}

#[test]
fn extracts_reasoning_text_from_content_fallbacks() {
    let reasoning = extract_reasoning_summary(&[
        json(
            r#"{
                "type": "reasoning",
                "content": [
                    { "type": "reasoning_text", "text": "fallback" }
                ]
            }"#,
        ),
        json(
            r#"{
                "type": "reasoning",
                "summary": " plus string summary"
            }"#,
        ),
    ]);

    assert_eq!(reasoning.as_deref(), Some("fallback plus string summary"));
}

#[test]
fn nested_reasoning_is_found() {
    let items = [json(
        r#"{"type":"reasoning","summary":[["a",{"summary":"b","content":[{"text":"c"}]}],1,null]}"#,
    )];
    assert_eq!(extract_reasoning_summary(&items).as_deref(), Some("abc"));
    assert_eq!(extract_reasoning_summary(&[json(r#"{"type":"reasoning"}"#)]), None);
}

#[test]
fn extracts_reasoning_text_from_stream_event_variants() {
    assert_eq!(
        reasoning_event_text(
            "response.reasoning_summary_text.delta",
            &json(r#"{ "delta": "delta summary" }"#)
        ),
        Some("delta summary")
    );
    assert_eq!(
        reasoning_event_text(
            "response.reasoning_summary_text.done",
            &json(r#"{ "text": "done summary" }"#)
        ),
        Some("done summary")
    );
    assert_eq!(
        reasoning_event_text(
            "response.reasoning_summary_part.done",
            &json(r#"{ "part": { "type": "summary_text", "text": "part summary" } }"#)
        ),
        Some("part summary")
    );
    assert_eq!(
        reasoning_event_text("response.output_text.delta", &json(r#"{ "delta": "nope" }"#)),
        None
    );
}

struct Asked {
    system: Option<String>,
    messages: Vec<Message>,
    reasoning: Option<String>,
    temperature: Option<Json>,
    tools: Option<Vec<Json>>,
    schema: Option<Json>,
}

fn asked() -> Asked {
    Asked {
        system: Some("sys".to_string()),
        messages: vec![Message::user("hi".to_string())],
        reasoning: Some("low".to_string()),
        temperature: Some(json("0.5")),
        tools: Some(vec![json(r#"{"name":"t","input_schema":{}}"#)]),
        schema: Some(json(r#"{"type":"object"}"#)),
    }
}

fn params(asked: &Asked, simple: bool, stream: bool, reasoning_summary: bool) -> CallParams<'_> {
    CallParams {
        model: "m",
        system: &asked.system,
        messages: &asked.messages,
        stream,
        reasoning: &asked.reasoning,
        temperature: &asked.temperature,
        max_tokens: 7,
        reasoning_summary,
        stats: true,
        tools: &asked.tools,
        completions: false,
        simple,
        schema: &asked.schema,
        emit_done: true,
    }
}

#[test]
fn chat_request_holds_what_was_asked_for() {
    let asked = asked();
    let body = chat::request_body(&params(&asked, false, true, false)).unwrap();
    assert_eq!(
        body.to_compact(),
        concat_lines(&[
            r#"{"model":"m","messages":[{"role":"system","content":"sys"},"#,
            r#"{"role":"user","content":"hi"}],"stream":true,"reasoning_effort":"low","#,
            r#""temperature":0.5,"tools":[{"type":"function","function":{"name":"t","#,
            r#""parameters":{}}}],"response_format":{"type":"json_schema","json_schema":"#,
            r#"{"name":"mii_text_constrained_response","schema":{"type":"object"}}},"#,
            r#""max_completion_tokens":7,"stream_options":{"include_usage":true}}"#,
        ])
    );
}

fn concat_lines(parts: &[&str]) -> String {
    parts.concat()
}

#[test]
fn responses_request_holds_what_was_asked_for() {
    let asked = asked();
    let body = responses::request_body(&params(&asked, false, false, false)).unwrap();
    assert_eq!(
        body.to_compact(),
        concat_lines(&[
            r#"{"model":"m","input":[{"role":"system","content":"sys"},"#,
            r#"{"role":"user","content":"hi"}],"stream":true,"store":false,"#,
            r#""include":["reasoning.encrypted_content"],"max_output_tokens":7,"#,
            r#""reasoning":{"summary":"auto","effort":"low"},"temperature":0.5,"#,
            r#""tools":[{"name":"t","parameters":{},"type":"function"}],"#,
            r#""text":{"format":{"type":"json_schema","name":"mii_text_constrained_response","#,
            r#""schema":{"type":"object"}}}}"#,
        ])
    );
}

#[test]
fn unknown_reasoning_levels_stop_a_request() {
    let mut asked = asked();
    asked.reasoning = Some("much".to_string());
    let expected = "invalid --reasoning value 'much': expected none|low|medium|high|xhigh";
    assert_eq!(
        chat::request_body(&params(&asked, false, true, false)).unwrap_err(),
        expected
    );
    assert_eq!(
        responses::request_body(&params(&asked, false, true, false)).unwrap_err(),
        expected
    );
}

#[test]
fn a_request_goes_to_its_api_or_fails_before_the_provider_is_asked() {
    let mut asked = asked();
    let local = Some("http://localhost:8080/v1");
    let asking = params(&asked, false, true, false);
    assert_eq!(
        outgoing(&asking, None),
        Ok(Outgoing::Responses(responses::request_body(&asking).unwrap()))
    );
    assert_eq!(
        outgoing(&asking, local),
        Ok(Outgoing::Chat(chat::request_body(&asking).unwrap()))
    );
    asked.messages = vec![message(r#"{"provider":"other","reasoning_items":[]}"#)];
    let asking = params(&asked, false, true, false);
    assert_eq!(
        outgoing(&asking, None),
        Err((
            1,
            "provider_continuation for provider 'other' cannot be sent to OpenAI".to_string()
        ))
    );
    assert!(outgoing(&asking, local).is_ok());
    asked.reasoning = Some("much".to_string());
    for base_url in [None, local] {
        let (code, _) = outgoing(&params(&asked, false, true, false), base_url).unwrap_err();
        assert_eq!(code, 1);
    }
}

#[test]
fn plain_requests_leave_out_what_was_not_asked_for() {
    let asked = Asked {
        system: None,
        messages: vec![],
        reasoning: None,
        temperature: None,
        tools: None,
        schema: None,
    };
    assert_eq!(
        chat::request_body(&params(&asked, false, false, false))
            .unwrap()
            .to_compact(),
        r#"{"model":"m","messages":[],"stream":false,"max_completion_tokens":7}"#
    );
    let body = responses::request_body(&params(&asked, false, false, false)).unwrap();
    assert_eq!(
        body.get("reasoning").unwrap().to_compact(),
        r#"{"summary":"auto"}"#
    );
    assert!(body.get("temperature").is_none());
}

fn finish(mut session: Session, sink: &mut Sink) -> CallOutcome {
    session.finish(sink);
    session.into_outcome()
}

#[test]
fn chat_chunks_build_the_answer() {
    let asked = asked();
    let mut sink = Sink::channel();
    let mut session = Session::new(&params(&asked, true, true, true));
    session.take_chat_chunk(
        &mut sink,
        &json(r#"{"model":"m1","choices":[{"delta":{"role":"assistant","content":""}}]}"#),
    );
    assert!(!session.has_first_token());
    session.take_chat_chunk(
        &mut sink,
        &json(r#"{"model":"m2","choices":[{"delta":{"reasoning":"hm"}}]}"#),
    );
    assert!(session.has_first_token());
    session.take_chat_chunk(
        &mut sink,
        &json(r#"{"choices":[{"delta":{"content":"an"}}],"usage":null}"#),
    );
    session.take_chat_chunk(&mut sink, &json(r#"{"choices":[{"delta":{"content":"swer"}}]}"#));
    session.take_chat_chunk(&mut sink, &json(r#"{"choices":[],"usage":{"total_tokens":4}}"#));
    let outcome = finish(session, &mut sink);
    assert_eq!(outcome.assistant_buf, "answer");
    assert_eq!(outcome.full_output, "<think>hm</think>\nanswer");
    assert_eq!(outcome.model_used.as_deref(), Some("m1"));
    assert_eq!(outcome.usage, Some(json(r#"{"total_tokens":4}"#)));
    assert_eq!(outcome.prospect.reasoning.as_deref(), Some("hm"));
    assert_eq!(outcome.events.len(), 3);
    assert_eq!(
        sink.take_chunks(),
        vec!["<think>", "hm", "</think>\n", "an", "swer"]
    );
}

#[test]
fn chat_reply_in_one_piece_is_shown_at_the_end() {
    let asked = asked();
    let mut sink = Sink::memory();
    let mut session = Session::new(&params(&asked, false, false, false));
    session.take_chat_reply(
        &mut sink,
        &json(
            r#"{"model":"m1","usage":{"total_tokens":3},"choices":[{"message":{
                "reasoning_content":"r","content":"c","tool_calls":[{"id":"x"}]}}]}"#,
        ),
    );
    assert!(!session.has_first_token());
    let outcome = finish(session, &mut sink);
    assert_eq!(outcome.prospect.tool_calls, vec![json(r#"{"id":"x"}"#)]);
    assert_eq!(outcome.assistant_buf, "c");
    let shown = sink.into_memory().unwrap();
    assert_eq!(shown, outcome.full_output);
    let value = json(&shown).to_value();
    assert_eq!(value["reasoning"], "r");
    assert_eq!(value["tool_calls"][0]["id"], "x");
}

#[test]
fn responses_events_build_the_answer() {
    let asked = asked();
    let mut sink = Sink::channel();
    let mut session = Session::new(&params(&asked, false, true, true));
    let events = [
        r#"{"type":"response.created","response":{"model":"gpt","usage":null}}"#,
        r#"{"type":"response.reasoning_summary_text.delta","delta":"why"}"#,
        r#"{"type":"response.reasoning_summary_text.done","text":"why"}"#,
        r#"{"type":"response.output_text.delta","delta":"be"}"#,
        r#"{"type":"response.output_text.delta","delta":"cause"}"#,
        r#"{"type":"response.something.else"}"#,
        r#"{"type":"response.completed","response":{"id":"resp_1","model":"other",
            "usage":{"input_tokens":1,"output_tokens":2},
            "output":[{"type":"reasoning","encrypted_content":"e","summary":["late"]},
                      {"type":"function_call","call_id":"c1"}]}}"#,
    ];
    for event in events {
        let event = json(event);
        assert!(is_countable(&event));
        session.take_response_event(&mut sink, &event);
    }
    let outcome = finish(session, &mut sink);
    assert_eq!(outcome.model_used.as_deref(), Some("gpt"));
    assert_eq!(outcome.assistant_buf, "because");
    assert_eq!(outcome.prospect.reasoning.as_deref(), Some("why"));
    assert_eq!(
        outcome.usage.unwrap().to_compact(),
        r#"{"prompt_tokens":1,"completion_tokens":2,"total_tokens":3}"#
    );
    let continuation = outcome.prospect.provider_continuation.unwrap();
    assert_eq!(continuation.response_id.as_deref(), Some("resp_1"));
    let lines = sink.take_chunks();
    assert_eq!(lines.len(), 6);
    assert_eq!(lines[0], "{\"type\":\"reasoning_delta\",\"delta\":\"why\"}\n");
    assert_eq!(lines[1], "{\"type\":\"content_delta\",\"delta\":\"be\"}\n");
    assert_eq!(
        lines[3],
        "{\"type\":\"tool_calls\",\"tool_calls\":[{\"type\":\"function_call\",\"call_id\":\"c1\"}]}\n"
    );
    assert_eq!(lines.concat(), outcome.full_output);
}

#[test]
fn late_reasoning_and_finished_calls_are_taken() {
    let asked = asked();
    let mut sink = Sink::memory();
    let mut session = Session::new(&params(&asked, true, false, false));
    session.take_response_event(
        &mut sink,
        &json(r#"{"type":"response.function_call_arguments.done","item":{"id":"1"}}"#),
    );
    assert!(session.has_first_token());
    session.take_response_event(
        &mut sink,
        &json(
            r#"{"type":"response.completed","response":{"output":[
                {"type":"reasoning","summary":"late"}]}}"#,
        ),
    );
    let outcome = finish(session, &mut sink);
    assert_eq!(outcome.prospect.reasoning.as_deref(), Some("late"));
    assert_eq!(outcome.prospect.tool_calls.len(), 1);
    assert_eq!(outcome.full_output, "[\n  {\n    \"id\": \"1\"\n  }\n]\n");
}

#[test]
fn reasoning_as_a_whole_counts_only_without_pieces() {
    let asked = asked();
    let mut sink = Sink::memory();
    let mut session = Session::new(&params(&asked, true, false, true));
    let part =
        json(r#"{"type":"response.reasoning_summary_part.done","part":{"text":"once"}}"#);
    session.take_response_event(&mut sink, &part);
    session.take_response_event(&mut sink, &part);
    session.take_response_event(
        &mut sink,
        &json(r#"{"type":"response.reasoning_text.delta","delta":"+"}"#),
    );
    let outcome = finish(session, &mut sink);
    assert_eq!(outcome.full_output, "<think>once+</think>\n");
}

#[test]
fn totals_beyond_counting_are_seen_before() {
    let event = json(
        r#"{"type":"response.completed","response":{"usage":
            {"input_tokens":18446744073709551615,"output_tokens":1}}}"#,
    );
    assert!(!is_countable(&event));
    let event = json(
        r#"{"type":"response.completed","response":{"usage":
            {"input_tokens":18446744073709551615,"output_tokens":1,"total_tokens":2}}}"#,
    );
    assert!(is_countable(&event));
}
