use mii_text::args::{Args, ClientArgs};
use mii_text::cache::{lookup, CachedEntry, Row};
use mii_text::conversation::{load_stateful, push_assistant_turn, save_stateful, Message};
use mii_text::json::{Json, Object};
use mii_text::output::Prospect;
use mii_text::providers::{CallOutcome, Session};
use mii_text::run::{
    api_key_for_base_url, cache_key, call_params, combine_passes, gather, max_tokens, model,
    non_empty, replay_cached, Action, Run, RunEvent, Step, Surroundings,
};
use mii_text::sink::Sink;
use mii_text::tools::ToolSource;

fn json(text: &str) -> Json {
    Json::parse(text).unwrap()
}

#[test]
fn api_key_is_required_for_openai_base_urls() {
    assert!(api_key_for_base_url(None, None, None).is_err());
    assert!(api_key_for_base_url(None, None, Some("https://api.openai.com/v1")).is_err());
    assert_eq!(
        api_key_for_base_url(Some("sk-explicit"), None, None).unwrap(),
        "sk-explicit"
    );
    assert_eq!(
        api_key_for_base_url(None, Some("sk-env"), None).unwrap(),
        "sk-env"
    );
}

#[test]
fn custom_base_urls_can_run_without_a_key() {
    assert_eq!(
        api_key_for_base_url(None, None, Some("http://localhost:8080/v1")).unwrap(),
        "mii-text-local"
    );
    assert_eq!(
        api_key_for_base_url(
            None,
            Some("real-local-key"),
            Some("http://localhost:8080/v1")
        )
        .unwrap(),
        "real-local-key"
    );
}

#[test]
fn the_missing_key_is_named() {
    assert_eq!(
        api_key_for_base_url(None, None, None).unwrap_err(),
        "missing API key (--key or OPENAI_API_KEY)"
    );
    assert_eq!(
        api_key_for_base_url(Some("a"), Some("b"), None).unwrap(),
        "a"
    );
    assert_eq!(non_empty(" \t\n".to_string()), None);
    assert_eq!(non_empty(" k ".to_string()).as_deref(), Some(" k "));
}

#[test]
fn the_model_comes_from_the_arguments_or_the_environment() {
    let env = || Some("env".to_string());
    assert_eq!(model(&Some("arg".to_string()), env()), Ok("arg".to_string()));
    assert_eq!(model(&None, env()), Ok("env".to_string()));
    assert_eq!(
        model(&None, None),
        Err((1, "missing model (--model or OPENAI_MODEL_NAME)".to_string()))
    );
}

fn found() -> Surroundings {
    Surroundings {
        stateful: Ok(None),
        stdin: Err("closed".to_string()),
        tool_files: Vec::new(),
        schema_file: Err("absent".to_string()),
    }
}

#[test]
fn a_request_is_gathered_from_history_input_tools_and_schema() {
    let args = Args {
        stateful: Some("chat.json".to_string()),
        messages: Some(" next ".to_string()),
        quick: true,
        tools: vec![ToolSource::File("t.json".to_string())],
        schema: Some("s.json".to_string()),
        ..Args::default()
    };
    let request = gather(
        &args,
        &Surroundings {
            stateful: Ok(Some(r#"[{"role":"user","content":"first"}]"#.to_string())),
            stdin: Err("closed".to_string()),
            tool_files: vec![Ok(r#"{"name":"t"}"#.to_string())],
            schema_file: Ok(r#"{"type":"object"}"#.to_string()),
        },
    )
    .unwrap();
    assert_eq!(request.conversation.len(), 2);
    assert_eq!(request.conversation[1], Message::user("next".to_string()));
    assert_eq!(request.tools, Some(vec![json(r#"{"name":"t"}"#)]));
    assert_eq!(request.schema, Some(json(r#"{"type":"object"}"#)));
}

#[test]
fn complaints_come_in_the_order_of_the_request() {
    let complaint = |args: &Args, found: &Surroundings| gather(args, found).err().unwrap();
    let mut args = Args {
        stateful: Some("chat.json".to_string()),
        tools: vec![ToolSource::Inline("1".to_string())],
        schema: Some("[]".to_string()),
        ..Args::default()
    };
    let mut around = Surroundings {
        stateful: Err("locked".to_string()),
        tool_files: vec![Err(String::new())],
        ..found()
    };
    assert_eq!(
        complaint(&args, &around),
        "failed to read stateful file: locked"
    );
    around.stateful = Ok(Some("{}".to_string()));
    assert_eq!(
        complaint(&args, &around),
        "failed to parse stateful file json: expected an array of messages"
    );
    around.stateful = Ok(None);
    assert_eq!(complaint(&args, &around), "failed to read stdin: closed");
    around.stdin = Ok(" ".to_string());
    assert_eq!(complaint(&args, &around), "no input messages provided");
    args.messages = Some("[]".to_string());
    assert!(complaint(&args, &around).starts_with("--tool: expected a tool object"));
    args.tools.clear();
    around.tool_files.clear();
    assert_eq!(
        complaint(&args, &around),
        "--schema must be a JSON schema object"
    );
    args.schema = None;
    assert!(gather(&args, &around).unwrap().conversation.is_empty());
}

fn args(simple: bool, stream: bool) -> Args {
    Args {
        messages: Some("q".to_string()),
        quick: true,
        simple,
        stream,
        ..Args::default()
    }
}

#[test]
fn the_cache_key_does_not_know_how_the_answer_is_shown() {
    let plain = args(false, false);
    let request = gather(&plain, &found()).unwrap();
    let key = cache_key(&plain, "m", &request);
    let mut shown = args(true, true);
    shown.stats = true;
    shown.reasoning_summary = true;
    shown.key = Some("secret".to_string());
    shown.url = Some("http://x".to_string());
    shown.out = Some("o".to_string());
    assert_eq!(cache_key(&shown, "m", &request), key);
    assert_ne!(cache_key(&plain, "n", &request), key);
    let limited = Args {
        max_tokens: Some(5),
        ..args(false, false)
    };
    assert_eq!(max_tokens(&limited), 5);
    assert_eq!(max_tokens(&plain), 128_000);
    assert_ne!(cache_key(&limited, "m", &request), key);
}

#[test]
fn call_params_carry_the_request() {
    let asked = args(true, false);
    let request = gather(&asked, &found()).unwrap();
    let params = call_params(&asked, "m", &request);
    assert_eq!(params.model, "m");
    assert!(params.simple && !params.stream && params.emit_done);
    assert_eq!(params.messages, &[Message::user("q".to_string())]);
    assert_eq!(params.max_tokens, 128_000);
}

fn hit(prospect: Option<Prospect>) -> CachedEntry {
    CachedEntry {
        content: "old output".to_string(),
        assistant: None,
        prospect,
        events: Some(vec![json(r#"{"type":"content_delta","delta":"a"}"#)]),
        usage: None,
        model: None,
    }
}

#[test]
fn a_hit_is_replayed_in_the_way_asked_for() {
    let prospect = Prospect {
        reasoning: Some("r".to_string()),
        content: "a".to_string(),
        ..Prospect::default()
    };
    let (rendered, outcome) = replay_cached(&hit(Some(prospect.clone())), true, false, false);
    assert_eq!(rendered, "a");
    assert_eq!(outcome.exit_code, 0);
    assert_eq!(outcome.assistant_buf, "a");
    let (rendered, _) = replay_cached(&hit(Some(prospect.clone())), true, false, true);
    assert_eq!(rendered, "<think>r</think>\na");
    let (rendered, _) = replay_cached(&hit(Some(prospect.clone())), false, true, false);
    assert!(rendered
        .starts_with("{\"type\":\"content_delta\",\"delta\":\"a\"}\n{\"type\":\"done\""));
    let (rendered, _) = replay_cached(&hit(Some(prospect)), false, false, true);
    assert_eq!(json(&rendered).get_str("reasoning"), Some("r"));
}

#[test]
fn an_old_hit_is_replayed_as_it_is() {
    let (rendered, outcome) = replay_cached(&hit(None), false, true, true);
    assert_eq!(rendered, "old output");
    assert_eq!(outcome.assistant_buf, "old output");
    assert_eq!(outcome.provider_continuation, None);
    let entry = CachedEntry {
        assistant: Some("answer".to_string()),
        ..hit(None)
    };
    let (_, outcome) = replay_cached(&entry, false, false, false);
    assert_eq!(outcome.assistant_buf, "answer");
}

fn start(args: Args) -> Run {
    let request = gather(&args, &found()).unwrap();
    Run::new(args, "m".to_string(), request)
}

fn answer(run: &Run, messages: &[Message], second: bool, sink: &mut Sink, text: &str) -> CallOutcome {
    let params = run.call(messages, second);
    let mut session = Session::new(&params);
    let reply = Json::Object(Object::new().add(
        "choices",
        Json::array(vec![Json::Object(Object::new().add(
            "delta",
            Json::Object(Object::new().add("content", Json::text(text))),
        ))]),
    ));
    session.take_chat_chunk(sink, &reply);
    session.finish(sink);
    session.into_outcome()
}

fn ok(result: Result<(Run, Step), (u8, String)>) -> (Run, Step) {
    match result {
        Ok(next) => next,
        Err((code, message)) => panic!("{code}: {message}"),
    }
}

#[test]
fn a_run_without_cache_calls_shows_and_ends() {
    let (run, step) = ok(start(args(true, false)).advance(RunEvent::Begin));
    let Step::Call {
        messages,
        second,
        shown,
    } = step
    else {
        panic!("expected a call");
    };
    assert!(!second && shown);
    assert_eq!(messages, vec![Message::user("q".to_string())]);
    let mut sink = Sink::memory();
    let outcome = answer(&run, &messages, second, &mut sink, "a");
    let (_, step) = ok(run.advance(RunEvent::Answered(outcome)));
    let Step::Finish { actions, outcome } = step else {
        panic!("expected the end");
    };
    assert_eq!(actions, vec![Action::Flush]);
    assert_eq!(outcome.assistant_buf, "a");
    assert_eq!(sink.into_memory().as_deref(), Some("a"));
}

fn keeping() -> Args {
    Args {
        cache: Some("db".to_string()),
        stats: true,
        stateful: Some("chat.json".to_string()),
        ..args(false, true)
    }
}

#[test]
fn a_run_with_cache_stores_reports_and_saves_in_order() {
    let (run, step) = ok(start(keeping()).advance(RunEvent::Begin));
    let Step::LookUp { key } = step else {
        panic!("expected a look into the cache");
    };
    assert_eq!(key.len(), 64);
    let (run, step) = ok(run.advance(RunEvent::Found(None)));
    let Step::Call { messages, .. } = step else {
        panic!("expected a call");
    };
    let mut sink = Sink::memory();
    let outcome = answer(&run, &messages, false, &mut sink, "a");
    let (_, step) = ok(run.advance(RunEvent::Answered(outcome)));
    let Step::Finish { actions, .. } = step else {
        panic!("expected the end");
    };
    assert_eq!(actions.len(), 4);
    assert_eq!(actions[0], Action::Flush);
    let Action::Store(row) = &actions[1] else {
        panic!("expected a row");
    };
    assert_eq!(row.key, key);
    let shown = sink.into_memory().unwrap();
    assert_eq!(row.content, shown);
    assert_eq!(
        actions[2],
        Action::Report {
            model: None,
            usage: None,
            cached: false
        }
    );
    let Action::Save { path, contents } = &actions[3] else {
        panic!("expected the conversation");
    };
    assert_eq!(path, "chat.json");
    assert_eq!(
        load_stateful(Some(contents)).unwrap(),
        vec![
            Message::user("q".to_string()),
            Message::assistant("a".to_string())
        ]
    );

    let (run, _) = ok(start(keeping()).advance(RunEvent::Begin));
    let stored = Row {
        key: row.key.clone(),
        content: row.content.clone(),
        assistant: row.assistant.clone(),
        prospect: row.prospect.clone(),
        events: row.events.clone(),
        usage: row.usage.clone(),
        model: row.model.clone(),
    };
    let (_, step) = ok(run.advance(RunEvent::Found(Some(stored))));
    let Step::Finish { actions, outcome } = step else {
        panic!("expected the end");
    };
    assert_eq!(actions[0], Action::Show(shown));
    assert_eq!(actions[1], Action::Flush);
    assert_eq!(
        actions[2],
        Action::Report {
            model: None,
            usage: None,
            cached: true
        }
    );
    assert!(matches!(&actions[3], Action::Save { contents: again, .. } if again == contents));
    assert_eq!(outcome.assistant_buf, "a");
}

#[test]
fn two_passes_are_shown_as_they_are_replayed() {
    for (simple, stream) in [(false, false), (false, true), (true, false), (true, true)] {
        let asked = Args {
            schema: Some(r#"{"type":"object","title":"Film"}"#.to_string()),
            cache: Some("db".to_string()),
            ..args(simple, stream)
        };
        let (run, _) = ok(start(asked).advance(RunEvent::Begin));
        let (run, step) = ok(run.advance(RunEvent::Found(None)));
        let Step::Call {
            messages,
            second,
            shown,
        } = step
        else {
            panic!("expected the first pass");
        };
        assert!(!second);
        assert_eq!(shown, stream && !simple);
        assert!(messages[0]
            .content
            .as_ref()
            .and_then(Json::as_str)
            .unwrap()
            .starts_with("Question: q\nPlease answer"));
        let params = run.call(&messages, false);
        assert!(params.schema.is_none() && !params.emit_done);
        let mut sink = Sink::memory();
        let first = answer(&run, &messages, false, &mut sink, "Brazil");
        let mut seen = String::new();
        if shown {
            seen.push_str(&sink.into_memory().unwrap());
        }
        let (run, step) = ok(run.advance(RunEvent::Answered(first)));
        let Step::Call {
            messages,
            second,
            shown,
        } = step
        else {
            panic!("expected the second pass");
        };
        assert!(second && !shown);
        assert_eq!(messages.len(), 3);
        let params = run.call(&messages, true);
        assert!(params.schema.is_some() && !params.stream && params.tools.is_none());
        let second = answer(
            &run,
            &messages,
            true,
            &mut Sink::memory(),
            r#"{"title":"Brazil"}"#,
        );
        let (_, step) = ok(run.advance(RunEvent::Answered(second)));
        let Step::Finish { actions, outcome } = step else {
            panic!("expected the end");
        };
        let Action::Show(left) = &actions[0] else {
            panic!("expected the rest");
        };
        seen.push_str(left);
        assert_eq!(outcome.assistant_buf, "Brazil");
        assert_eq!(outcome.constrained, Some(json(r#"{"title":"Brazil"}"#)));
        if simple {
            assert_eq!(seen, "{\n  \"title\": \"Brazil\"\n}\n");
        }
        let Action::Store(row) = &actions[2] else {
            panic!("expected a row");
        };
        assert_eq!(row.content, seen);
        let hit = lookup(Some(Row {
            key: row.key.clone(),
            content: row.content.clone(),
            assistant: row.assistant.clone(),
            prospect: row.prospect.clone(),
            events: row.events.clone(),
            usage: row.usage.clone(),
            model: row.model.clone(),
        }))
        .unwrap();
        let (replayed, _) = replay_cached(&hit, simple, stream, !simple && !stream);
        assert_eq!(replayed, seen);
    }
}

#[test]
fn a_second_pass_without_json_is_an_api_error() {
    for (text, expected) in [
        (" ", "schema-constrained pass returned empty content"),
        ("no", "schema-constrained pass returned invalid JSON: "),
    ] {
        let asked = Args {
            schema: Some("{}".to_string()),
            ..args(false, false)
        };
        let (run, step) = ok(start(asked).advance(RunEvent::Begin));
        let Step::Call { messages, .. } = step else {
            panic!("expected the first pass");
        };
        let first = answer(&run, &messages, false, &mut Sink::memory(), "a");
        let (run, step) = ok(run.advance(RunEvent::Answered(first)));
        let Step::Call { messages, .. } = step else {
            panic!("expected the second pass");
        };
        let second = answer(&run, &messages, true, &mut Sink::memory(), text);
        let (code, message) = run.advance(RunEvent::Answered(second)).err().unwrap();
        assert_eq!(code, 2);
        assert!(message.starts_with(expected));
    }
}

#[test]
fn a_turn_is_kept_with_its_constrained_answer() {
    let prospect = Prospect {
        content: "a".to_string(),
        ..Prospect::default()
    };
    let first = CallOutcome {
        assistant_buf: "a".to_string(),
        full_output: "shown".to_string(),
        prospect,
        events: Vec::new(),
        usage: None,
        model_used: None,
    };
    let (left, whole) = combine_passes(first, json(r#"{"x":1}"#), true, false, false);
    assert_eq!(left, "{\n  \"x\": 1\n}\n");
    assert_eq!(whole.full_output, left);
    let mut conversation = vec![Message::user("q".to_string())];
    push_assistant_turn(
        &mut conversation,
        whole.assistant_buf.clone(),
        &whole.prospect.provider_continuation,
        &whole.prospect.constrained,
    );
    assert_eq!(
        conversation[1].to_json().to_compact(),
        r#"{"role":"assistant","content":"a","constrained":{"x":1}}"#
    );
    assert_eq!(
        conversation[1].to_api_value().to_compact(),
        r#"{"role":"assistant","content":"a"}"#
    );
    let text = save_stateful(&conversation);
    assert_eq!(load_stateful(Some(&text)).unwrap(), conversation);
}

#[test]
fn client_arguments_start_empty() {
    assert_eq!(ClientArgs::default(), Args::default().to_client());
}

fn row_in(actions: &[Action]) -> Row {
    for action in actions {
        if let Action::Store(row) = action {
            return Row {
                key: row.key.clone(),
                content: row.content.clone(),
                assistant: row.assistant.clone(),
                prospect: row.prospect.clone(),
                events: row.events.clone(),
                usage: row.usage.clone(),
                model: row.model.clone(),
            };
        }
    }
    panic!("expected a row");
}

fn saved_in(actions: &[Action]) -> String {
    for action in actions {
        if let Action::Save { contents, .. } = action {
            return contents.clone();
        }
    }
    panic!("expected the conversation");
}

const CHUNKS: [&str; 4] = [
    r#"{"model":"m","choices":[{"delta":{"content":"","reasoning":"h"}}]}"#,
    r#"{"choices":[{"delta":{"reasoning":"m"}}]}"#,
    r#"{"choices":[{"delta":{"content":"a","tool_calls":[{"index":0,"id":"c"}]}}]}"#,
    r#"{"choices":[{"delta":{"content":"b"}}],"usage":{"total_tokens":2}}"#,
];

const EVENTS: [&str; 4] = [
    r#"{"type":"response.reasoning_text.delta","delta":"h"}"#,
    r#"{"type":"response.output_text.delta","delta":"a"}"#,
    r#"{"type":"response.output_text.delta","delta":"b"}"#,
    r#"{"type":"response.completed","response":{"id":"r","model":"m","output":[
        {"type":"reasoning","encrypted_content":"e"},{"type":"function_call","id":"c"}]}}"#,
];

#[test]
fn a_hit_shows_what_the_call_showed() {
    for (simple, stream, summary) in [
        (false, false, false),
        (false, true, false),
        (false, true, true),
        (true, false, true),
        (true, true, false),
        (true, true, true),
    ] {
        for chat in [true, false] {
            let asked = || Args {
                cache: Some("db".to_string()),
                reasoning_summary: summary,
                ..args(simple, stream)
            };
            let (run, _) = ok(start(asked()).advance(RunEvent::Begin));
            let (run, step) = ok(run.advance(RunEvent::Found(None)));
            let Step::Call { messages, .. } = step else {
                panic!("expected a call");
            };
            let mut sink = Sink::memory();
            let mut session = Session::new(&run.call(&messages, false));
            for part in if chat { CHUNKS } else { EVENTS } {
                if chat {
                    session.take_chat_chunk(&mut sink, &json(part));
                } else {
                    session.take_response_event(&mut sink, &json(part));
                }
            }
            session.finish(&mut sink);
            let (_, step) = ok(run.advance(RunEvent::Answered(session.into_outcome())));
            let Step::Finish { actions, outcome } = step else {
                panic!("expected the end");
            };
            let shown = sink.into_memory().unwrap();
            assert!(shown.contains('b'));

            let (run, _) = ok(start(asked()).advance(RunEvent::Begin));
            let (_, step) = ok(run.advance(RunEvent::Found(Some(row_in(&actions)))));
            let Step::Finish {
                actions,
                outcome: again,
            } = step
            else {
                panic!("expected the end");
            };
            assert_eq!(actions[0], Action::Show(shown));
            assert_eq!(again, outcome);
            assert_eq!(outcome.provider_continuation.is_some(), !chat);
        }
    }
}

#[test]
fn the_next_run_begins_with_what_was_saved() {
    let (run, _) = ok(start(keeping()).advance(RunEvent::Begin));
    let (run, step) = ok(run.advance(RunEvent::Found(None)));
    let Step::Call { messages, .. } = step else {
        panic!("expected a call");
    };
    let mut sink = Sink::memory();
    let mut session = Session::new(&run.call(&messages, false));
    for event in EVENTS {
        session.take_response_event(&mut sink, &json(event));
    }
    session.finish(&mut sink);
    let (_, step) = ok(run.advance(RunEvent::Answered(session.into_outcome())));
    let Step::Finish { actions, .. } = step else {
        panic!("expected the end");
    };
    let contents = saved_in(&actions);
    let next = Args {
        messages: Some("more".to_string()),
        quick: true,
        stateful: Some("chat.json".to_string()),
        ..Args::default()
    };
    let request = gather(
        &next,
        &Surroundings {
            stateful: Ok(Some(contents.clone())),
            ..found()
        },
    )
    .unwrap();
    assert_eq!(request.conversation.len(), 4);
    assert_eq!(request.conversation[0], Message::user("q".to_string()));
    assert_eq!(request.conversation[1], Message::assistant("ab".to_string()));
    assert_eq!(
        request.conversation[2].to_json().get_str("provider"),
        Some("openai")
    );
    assert_eq!(request.conversation[3], Message::user("more".to_string()));

    // Reasoning that was shown is not kept.
    let reasoning = |text: &str| Prospect {
        content: "ab".to_string(),
        reasoning: Some(text.to_string()),
        ..Prospect::default()
    };
    let kept = |prospect: Prospect| {
        let (run, _) = ok(start(keeping()).advance(RunEvent::Begin));
        let (run, _) = ok(run.advance(RunEvent::Found(None)));
        let outcome = CallOutcome {
            assistant_buf: "ab".to_string(),
            full_output: String::new(),
            prospect,
            events: Vec::new(),
            usage: None,
            model_used: None,
        };
        match ok(run.advance(RunEvent::Answered(outcome))).1 {
            Step::Finish { actions, .. } => saved_in(&actions),
            _ => panic!("expected the end"),
        }
    };
    assert_eq!(kept(reasoning("x")), kept(reasoning("y")));
    assert!(!kept(reasoning("secret thought")).contains("thought"));
}
