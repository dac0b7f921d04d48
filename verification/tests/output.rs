use mii_text::json::Json;
use mii_text::output::{
    render_cached, render_finale, OutputWriter, Prospect, ProviderContinuation,
};
use mii_text::sink::Sink;

fn json(text: &str) -> Json {
    Json::parse(text).unwrap()
}

fn lines(text: &str) -> Vec<Json> {
    text.lines().map(json).collect()
}

#[test]
fn structured_prospect_serializes_with_expected_fields() {
    let prospect = Prospect {
        reasoning: Some("because".to_string()),
        content: "hello".to_string(),
        tool_calls: vec![json(r#"{ "name": "echo" }"#)],
        provider_continuation: None,
        constrained: None,
    };
    let value = prospect.to_json().to_value();

    assert_eq!(value["reasoning"], "because");
    assert_eq!(value["content"], "hello");
    assert_eq!(value["tool_calls"][0]["name"], "echo");
    assert_eq!(
        prospect.to_json().to_compact(),
        r#"{"reasoning":"because","content":"hello","tool_calls":[{"name":"echo"}],"provider_continuation":null}"#
    );
}

#[test]
fn writes_structured_json_object_when_not_streaming() {
    let mut sink = Sink::channel();
    let mut mirror = String::new();
    let mut writer = OutputWriter::with_reasoning(false, false, true);

    writer.push_content(&mut sink, &mut mirror, "hello");
    writer.finish(&mut sink, &mut mirror);

    let mut chunks = sink.take_chunks().into_iter();
    let text = chunks.next().unwrap();
    let value = json(&text).to_value();
    assert_eq!(value["reasoning"], serde_json::Value::Null);
    assert_eq!(value["content"], "hello");
    assert_eq!(value["tool_calls"], serde_json::Value::Array(vec![]));
    assert_eq!(mirror, text);
    assert_eq!(chunks.next(), None);
}

#[test]
fn writes_structured_jsonl_when_streaming() {
    let mut sink = Sink::channel();
    let mut mirror = String::new();
    let mut writer = OutputWriter::with_reasoning(false, true, true);

    writer.push_content(&mut sink, &mut mirror, "hel");
    writer.push_content(&mut sink, &mut mirror, "lo");
    writer.finish(&mut sink, &mut mirror);

    let mut chunks = sink.take_chunks().into_iter();
    let first = json(&chunks.next().unwrap());
    let second = json(&chunks.next().unwrap());
    assert_eq!(first.get_str("type"), Some("content_delta"));
    assert_eq!(first.get_str("delta"), Some("hel"));
    assert_eq!(second.get_str("type"), Some("content_delta"));
    assert_eq!(second.get_str("delta"), Some("lo"));
    let done = json(&chunks.next().unwrap());
    assert_eq!(done.get_str("type"), Some("done"));
    assert_eq!(done.get_str("content"), Some("hello"));
    assert_eq!(chunks.next(), None);
}

#[test]
fn simple_mode_preserves_plain_text_output() {
    let mut sink = Sink::channel();
    let mut mirror = String::new();
    let mut writer = OutputWriter::with_reasoning(true, true, true);

    writer.push_reasoning(&mut sink, &mut mirror, "thinking");
    writer.push_content(&mut sink, &mut mirror, "answer");
    writer.finish(&mut sink, &mut mirror);

    let mut chunks = sink.take_chunks().into_iter();
    assert_eq!(chunks.next().unwrap(), "<think>");
    assert_eq!(chunks.next().unwrap(), "thinking");
    assert_eq!(chunks.next().unwrap(), "</think>\n");
    assert_eq!(chunks.next().unwrap(), "answer");
    assert_eq!(mirror, "<think>thinking</think>\nanswer");
    assert_eq!(chunks.next(), None);
}

#[test]
fn simple_mode_opens_think_block_only_once() {
    let mut sink = Sink::channel();
    let mut mirror = String::new();
    let mut writer = OutputWriter::with_reasoning(true, true, true);

    assert!(writer.push_reasoning(&mut sink, &mut mirror, "first"));
    assert!(!writer.push_reasoning(&mut sink, &mut mirror, " second"));
    writer.push_content(&mut sink, &mut mirror, "answer");

    let mut chunks = sink.take_chunks().into_iter();
    assert_eq!(chunks.next().unwrap(), "<think>");
    assert_eq!(chunks.next().unwrap(), "first");
    assert_eq!(chunks.next().unwrap(), " second");
    assert_eq!(chunks.next().unwrap(), "</think>\n");
    assert_eq!(chunks.next().unwrap(), "answer");
    assert_eq!(chunks.next(), None);
    assert_eq!(mirror, "<think>first second</think>\nanswer");
}

#[test]
fn late_reasoning_has_a_block_of_its_own() {
    let mut sink = Sink::channel();
    let mut mirror = String::new();
    let mut writer = OutputWriter::with_reasoning(true, true, true);

    assert!(writer.push_reasoning(&mut sink, &mut mirror, "a"));
    writer.push_content(&mut sink, &mut mirror, "b");
    assert!(writer.push_reasoning(&mut sink, &mut mirror, "c"));
    assert!(!writer.push_reasoning(&mut sink, &mut mirror, "d"));
    assert_eq!(mirror, "<think>a</think>\nb<think>cd");
    writer.push_content(&mut sink, &mut mirror, "e");
    writer.push_reasoning(&mut sink, &mut mirror, "f");
    writer.finish(&mut sink, &mut mirror);
    assert_eq!(
        mirror,
        "<think>a</think>\nb<think>cd</think>\ne<think>f</think>\n"
    );
    assert_eq!(sink.take_chunks().concat(), mirror);
    assert_eq!(writer.prospect().reasoning.as_deref(), Some("acdf"));
    assert_eq!(writer.prospect().content, "be");
}

#[test]
fn simple_mode_writes_tool_calls_when_content_is_empty() {
    let mut sink = Sink::channel();
    let mut mirror = String::new();
    let mut writer = OutputWriter::with_reasoning(true, false, true);

    writer.set_tool_calls(vec![json(
        r#"{
            "type": "function_call",
            "name": "echo",
            "arguments": "{\"message\":\"hello\"}"
        }"#,
    )]);
    writer.finish(&mut sink, &mut mirror);

    let mut chunks = sink.take_chunks().into_iter();
    let text = chunks.next().unwrap();
    let calls = json(&text).to_value();
    assert_eq!(calls[0]["name"], "echo");
    assert_eq!(mirror, text);
    assert_eq!(chunks.next(), None);
}

#[test]
fn simple_mode_does_not_append_tool_calls_after_text_content() {
    let mut sink = Sink::channel();
    let mut mirror = String::new();
    let mut writer = OutputWriter::with_reasoning(true, false, true);

    writer.push_content(&mut sink, &mut mirror, "answer");
    writer.set_tool_calls(vec![json(r#"{ "call_id": "call_1" }"#)]);
    writer.finish(&mut sink, &mut mirror);

    assert_eq!(sink.take_chunks(), vec!["answer"]);
    assert_eq!(mirror, "answer");
}

#[test]
fn simple_stream_does_not_append_tool_calls_after_text_content() {
    let mut sink = Sink::channel();
    let mut mirror = String::new();
    let mut writer = OutputWriter::with_reasoning(true, true, true);

    writer.push_content(&mut sink, &mut mirror, "answer");
    writer.set_tool_calls(vec![json(r#"{ "call_id": "call_1" }"#)]);
    writer.finish(&mut sink, &mut mirror);

    assert_eq!(sink.take_chunks(), vec!["answer"]);
    assert_eq!(mirror, "answer");
}

#[test]
fn simple_stream_without_content_or_tool_calls_writes_nothing() {
    let mut sink = Sink::channel();
    let mut mirror = String::new();
    let mut writer = OutputWriter::with_reasoning(true, true, true);

    writer.finish(&mut sink, &mut mirror);

    assert!(sink.take_chunks().is_empty());
    assert!(mirror.is_empty());
}

#[test]
fn simple_non_streaming_defers_reasoning_until_finish() {
    let mut sink = Sink::channel();
    let mut mirror = String::new();
    let mut writer = OutputWriter::with_reasoning(true, false, true);

    writer.push_reasoning(&mut sink, &mut mirror, "thinking");
    writer.push_content(&mut sink, &mut mirror, "answer");
    assert!(sink.take_chunks().is_empty());

    writer.finish(&mut sink, &mut mirror);

    assert_eq!(sink.take_chunks(), vec!["<think>thinking</think>\nanswer"]);
    assert_eq!(mirror, "<think>thinking</think>\nanswer");
}

#[test]
fn structured_stream_writes_tool_calls_before_done() {
    let mut sink = Sink::channel();
    let mut mirror = String::new();
    let mut writer = OutputWriter::with_reasoning(false, true, true);

    writer.push_reasoning(&mut sink, &mut mirror, "because");
    writer.set_tool_calls(vec![json(r#"{ "call_id": "call_1" }"#)]);
    writer.finish(&mut sink, &mut mirror);

    let mut chunks = sink.take_chunks().into_iter();
    let reasoning = json(&chunks.next().unwrap()).to_value();
    let calls = json(&chunks.next().unwrap()).to_value();
    let done = json(&chunks.next().unwrap()).to_value();
    assert_eq!(reasoning["type"], "reasoning_delta");
    assert_eq!(calls["type"], "tool_calls");
    assert_eq!(calls["tool_calls"][0]["call_id"], "call_1");
    assert_eq!(done["type"], "done");
    assert_eq!(done["reasoning"], "because");
    assert_eq!(done["tool_calls"][0]["call_id"], "call_1");
    assert_eq!(chunks.next(), None);
    assert_eq!(writer.events().len(), 2);
    assert_eq!(writer.events()[0].get_str("type"), Some("reasoning_delta"));
    assert_eq!(writer.events()[1].get_str("type"), Some("tool_calls"));
    assert_eq!(
        writer.events()[1].to_value()["tool_calls"][0]["call_id"],
        "call_1"
    );
}

fn continuation() -> ProviderContinuation {
    ProviderContinuation {
        provider: "openai".to_string(),
        response_id: Some("resp_1".to_string()),
        reasoning_items: vec![json(
            r#"{
                "type": "reasoning",
                "encrypted_content": "opaque"
            }"#,
        )],
    }
}

#[test]
fn structured_stream_writes_provider_continuation_before_done() {
    let mut sink = Sink::channel();
    let mut mirror = String::new();
    let mut writer = OutputWriter::with_reasoning(false, true, true);

    writer.set_provider_continuation(continuation());
    writer.finish(&mut sink, &mut mirror);

    let mut chunks = sink.take_chunks().into_iter();
    let told = json(&chunks.next().unwrap()).to_value();
    let done = json(&chunks.next().unwrap()).to_value();
    assert_eq!(told["type"], "provider_continuation");
    assert_eq!(told["provider"], "openai");
    assert_eq!(told["reasoning_items"][0]["encrypted_content"], "opaque");
    assert_eq!(done["type"], "done");
    assert_eq!(done["provider_continuation"]["response_id"], "resp_1");
    assert_eq!(chunks.next(), None);
    assert_eq!(writer.events().len(), 1);
    assert_eq!(
        writer.events()[0].get_str("type"),
        Some("provider_continuation")
    );
}

#[test]
fn final_events_are_recorded_only_once() {
    let mut sink = Sink::channel();
    let mut mirror = String::new();
    let mut writer = OutputWriter::with_reasoning(false, true, true);

    writer.set_tool_calls(vec![json(r#"{ "call_id": "call_1" }"#)]);
    writer.finish(&mut sink, &mut mirror);
    writer.finish(&mut sink, &mut mirror);

    let tool_events = writer
        .events()
        .iter()
        .filter(|event| event.get_str("type") == Some("tool_calls"))
        .count();
    assert_eq!(tool_events, 1);
}

#[test]
fn prospect_tracks_reasoning_content_and_tool_calls_before_finish() {
    let mut sink = Sink::channel();
    let mut mirror = String::new();
    let mut writer = OutputWriter::with_reasoning(false, false, true);

    writer.push_reasoning(&mut sink, &mut mirror, "because");
    writer.push_content(&mut sink, &mut mirror, "answer");
    writer.set_tool_calls(vec![json(r#"{ "call_id": "call_1" }"#)]);

    let prospect = writer.prospect();
    assert_eq!(prospect.reasoning.as_deref(), Some("because"));
    assert_eq!(prospect.content, "answer");
    assert_eq!(prospect.tool_calls[0].get_str("call_id"), Some("call_1"));
    assert!(mirror.is_empty());
}

#[test]
fn cached_rendering_reuses_one_prospect_for_multiple_output_modes() {
    let prospect = Prospect {
        reasoning: Some("because".to_string()),
        content: "answer".to_string(),
        tool_calls: vec![json(r#"{ "call_id": "call_1" }"#)],
        provider_continuation: None,
        constrained: None,
    };

    let structured = json(&render_cached(&prospect, None, false, false, true).unwrap());
    assert_eq!(structured.get_str("reasoning"), Some("because"));
    assert_eq!(structured.get_str("content"), Some("answer"));

    let hidden = json(&render_cached(&prospect, None, false, false, false).unwrap());
    assert_eq!(hidden.get("reasoning"), Some(&Json::Null));

    let simple = render_cached(&prospect, None, true, false, true).unwrap();
    assert_eq!(simple, "<think>because</think>\nanswer");

    let jsonl = render_cached(&prospect, None, false, true, true).unwrap();
    let lines = lines(&jsonl);
    assert_eq!(lines[0].get_str("type"), Some("reasoning_delta"));
    assert_eq!(lines[1].get_str("type"), Some("content_delta"));
    assert_eq!(lines[2].get_str("type"), Some("tool_calls"));
    assert_eq!(lines[3].get_str("type"), Some("done"));
}

#[test]
fn cached_stream_rendering_replays_event_chunks_losslessly() {
    let prospect = Prospect {
        reasoning: Some("because".to_string()),
        content: "answer".to_string(),
        tool_calls: Vec::new(),
        provider_continuation: None,
        constrained: None,
    };
    let events = vec![
        json(r#"{ "type": "reasoning_delta", "delta": "because" }"#),
        json(r#"{ "type": "content_delta", "delta": "ans" }"#),
        json(r#"{ "type": "content_delta", "delta": "wer" }"#),
    ];

    let jsonl = render_cached(&prospect, Some(&events), false, true, false).unwrap();
    let lines = lines(&jsonl);

    assert_eq!(lines.len(), 3);
    assert_eq!(
        lines[0],
        json(r#"{ "type": "content_delta", "delta": "ans" }"#)
    );
    assert_eq!(
        lines[1],
        json(r#"{ "type": "content_delta", "delta": "wer" }"#)
    );
    assert_eq!(lines[2].get_str("type"), Some("done"));
    assert_eq!(lines[2].get("reasoning"), Some(&Json::Null));
}

#[test]
fn simple_rendering_prefers_constrained_output_when_present() {
    let prospect = Prospect {
        reasoning: Some("because".to_string()),
        content: "draft".to_string(),
        tool_calls: Vec::new(),
        provider_continuation: None,
        constrained: Some(json(r#"{ "title": "Brazil" }"#)),
    };

    let simple = render_cached(&prospect, None, true, false, true).unwrap();

    assert_eq!(simple, "{\n  \"title\": \"Brazil\"\n}\n");
}

fn told(simple: bool, stream: bool, emit_reasoning: bool) -> (String, Prospect, Vec<Json>) {
    let mut sink = Sink::memory();
    let mut mirror = String::new();
    let mut writer = OutputWriter::with_reasoning(simple, stream, emit_reasoning);
    writer.push_reasoning(&mut sink, &mut mirror, "r1");
    writer.push_content(&mut sink, &mut mirror, "c1\n");
    writer.push_reasoning(&mut sink, &mut mirror, "");
    writer.push_reasoning(&mut sink, &mut mirror, "r2");
    writer.push_content(&mut sink, &mut mirror, "c2");
    writer.set_tool_calls(vec![json(r#"{"id":1}"#)]);
    writer.set_provider_continuation(continuation());
    writer.finish(&mut sink, &mut mirror);
    assert_eq!(sink.into_memory().unwrap(), mirror);
    (mirror, writer.prospect().clone(), writer.events().to_vec())
}

#[test]
fn a_replay_shows_what_was_shown() {
    for simple in [false, true] {
        for stream in [false, true] {
            for emit_reasoning in [false, true] {
                let (shown, prospect, events) = told(simple, stream, emit_reasoning);
                let replayed =
                    render_cached(&prospect, Some(&events), simple, stream, emit_reasoning);
                if !(simple && stream) {
                    assert_eq!(replayed.unwrap(), shown);
                }
            }
        }
    }
}

#[test]
fn what_is_kept_does_not_depend_on_the_way_it_is_shown() {
    let (_, prospect, events) = told(false, false, true);
    for simple in [false, true] {
        for stream in [false, true] {
            for emit_reasoning in [false, true] {
                let (_, other, others) = told(simple, stream, emit_reasoning);
                assert_eq!(other, prospect);
                assert_eq!(others, events);
            }
        }
    }
    assert_eq!(events.len(), 6);
}

#[test]
fn answers_read_back_from_their_objects() {
    let (_, mut prospect, _) = told(false, false, true);
    assert_eq!(Prospect::from_json(&prospect.to_json()), Some(prospect.clone()));
    prospect.constrained = Some(json("[1]"));
    assert_eq!(Prospect::from_json(&prospect.to_json()), Some(prospect));
    assert_eq!(
        Prospect::from_json(&json(r#"{"content":"x","tool_calls":[]}"#)).unwrap(),
        Prospect {
            content: "x".to_string(),
            ..Prospect::default()
        }
    );
    for broken in [
        r#"{"content":"x"}"#,
        r#"{"tool_calls":[]}"#,
        r#"{"content":"x","tool_calls":[],"reasoning":1}"#,
        r#"{"content":"x","tool_calls":[],"provider_continuation":{}}"#,
        "[]",
    ] {
        assert_eq!(Prospect::from_json(&json(broken)), None);
    }
    let event = continuation().stream_event();
    assert_eq!(ProviderContinuation::from_json(&event), Some(continuation()));
    assert_eq!(
        ProviderContinuation::from_json(&json(r#"{"provider":"p"}"#)).unwrap(),
        ProviderContinuation {
            provider: "p".to_string(),
            response_id: None,
            reasoning_items: vec![],
        }
    );
}

#[test]
fn a_stream_may_end_without_the_whole_answer() {
    let mut sink = Sink::channel();
    let mut mirror = String::new();
    let mut writer = OutputWriter::with_done(false, true, true, false);
    writer.push_content(&mut sink, &mut mirror, "x");
    writer.finish(&mut sink, &mut mirror);
    assert_eq!(
        sink.take_chunks(),
        vec!["{\"type\":\"content_delta\",\"delta\":\"x\"}\n"]
    );
    assert_eq!(
        render_finale(writer.prospect(), false, true, true),
        concat_parts(&[
            "{\"type\":\"done\",\"reasoning\":null,\"content\":\"x\",\"tool_calls\":[],",
            "\"provider_continuation\":null}\n",
        ])
    );
}

fn concat_parts(parts: &[&str]) -> String {
    parts.concat()
}

#[test]
fn a_snapshot_tells_of_the_continuation() {
    let prospect = Prospect {
        provider_continuation: Some(continuation()),
        ..Prospect::default()
    };
    let lines = lines(&render_cached(&prospect, None, false, true, true).unwrap());
    assert_eq!(lines.len(), 2);
    assert_eq!(lines[0].get_str("type"), Some("provider_continuation"));
    assert_eq!(
        render_cached(&prospect, Some(&[]), false, true, true).unwrap(),
        render_cached(&prospect, None, false, true, true).unwrap()
    );
}

#[test]
fn hidden_reasoning_still_counts_as_a_sign_of_an_answer() {
    let mut sink = Sink::channel();
    let mut mirror = String::new();
    let mut writer = OutputWriter::with_reasoning(true, true, false);
    assert!(writer.push_reasoning(&mut sink, &mut mirror, "r"));
    assert!(!writer.push_reasoning(&mut sink, &mut mirror, ""));
    assert!(!writer.push_content(&mut sink, &mut mirror, ""));
    assert!(sink.take_chunks().is_empty());
    writer.set_tool_calls(vec![json("1")]);
    writer.finish(&mut sink, &mut mirror);
    assert_eq!(mirror, "[\n  1\n]\n");
}

#[test]
fn answers_may_be_given_as_arrays() {
    let prospect =
        Prospect::from_json(&json(r#"["r","c",[1],["openai","id",[2]],{"x":3}]"#)).unwrap();
    assert_eq!(
        prospect.to_json(),
        json(
            r#"{"reasoning":"r","content":"c","tool_calls":[1],"provider_continuation":
                {"provider":"openai","response_id":"id","reasoning_items":[2]},
                "constrained":{"x":3}}"#
        )
    );
    assert!(Prospect::from_json(&json(r#"[null,"c",[],null]"#)).is_some());
    assert!(Prospect::from_json(&json(r#"[null,"c",[]]"#)).is_none());
    assert!(Prospect::from_json(&json(r#"[null,"c",[],null,1,2]"#)).is_none());
    let short = ProviderContinuation::from_json(&json(r#"["openai"]"#)).unwrap();
    assert_eq!(short.response_id, None);
    assert!(short.reasoning_items.is_empty());
    assert!(ProviderContinuation::from_json(&json("[]")).is_none());
}
