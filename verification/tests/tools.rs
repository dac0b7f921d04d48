use mii_text::json::Json;
use mii_text::tools::{
    append_tool_value, for_chat, for_responses, format_tool_calls, resolve, resolved_sources,
    ToolSource,
};

fn json(text: &str) -> Json {
    Json::parse(text).unwrap()
}

fn unread() -> Result<String, String> {
    Err("not read".to_string())
}

#[test]
fn accepts_inline_tool_arrays_and_wrappers() {
    let mut out = Vec::new();
    append_tool_value(
        &mut out,
        json(r#"{ "type": "function", "name": "one" }"#),
        "--tool",
    )
    .unwrap();
    append_tool_value(
        &mut out,
        json(r#"{ "tools": [{ "type": "function", "name": "two" }] }"#),
        "--tools tools.json",
    )
    .unwrap();
    append_tool_value(
        &mut out,
        json(r#"[{ "type": "function", "name": "three" }]"#),
        "--tools tools.json",
    )
    .unwrap();

    assert_eq!(out.len(), 3);
}

#[test]
fn normalizes_function_tools_for_chat_and_responses() {
    let responses_style = json(
        r#"{
            "type": "function",
            "name": "get_weather",
            "description": "Gets weather",
            "parameters": { "type": "object" },
            "strict": true
        }"#,
    );
    let chat_tool = for_chat(&[responses_style])[0].clone();
    let chat_style = chat_tool.to_value();

    assert_eq!(chat_style["type"], "function");
    assert_eq!(chat_style["function"]["name"], "get_weather");
    assert_eq!(chat_style["function"]["strict"], true);

    let responses_again = for_responses(&[chat_tool])[0].to_value();
    assert_eq!(responses_again["type"], "function");
    assert_eq!(responses_again["name"], "get_weather");
    assert_eq!(responses_again["parameters"]["type"], "object");
}

#[test]
fn maps_plain_input_schema_tools_to_openai_shapes() {
    let plain = json(
        r#"{
            "name": "echo",
            "description": "Echo a message back to the user.",
            "input_schema": {
                "type": "object",
                "properties": { "message": { "type": "string" } },
                "required": ["message"]
            }
        }"#,
    );

    let chat = for_chat(std::slice::from_ref(&plain))[0].to_value();
    assert_eq!(chat["type"], "function");
    assert_eq!(chat["function"]["name"], "echo");
    assert!(chat["function"].get("input_schema").is_none());
    assert_eq!(chat["function"]["parameters"]["required"][0], "message");

    let responses = for_responses(&[plain])[0].to_value();
    assert_eq!(responses["type"], "function");
    assert_eq!(responses["name"], "echo");
    assert!(responses.get("input_schema").is_none());
    assert_eq!(
        responses["parameters"]["properties"]["message"]["type"],
        "string"
    );
}

#[test]
fn maps_input_schema_inside_openai_function_wrappers() {
    let chat_style = json(
        r#"{
            "type": "function",
            "function": {
                "name": "echo",
                "input_schema": { "type": "object" }
            }
        }"#,
    );

    let chat = for_chat(std::slice::from_ref(&chat_style))[0].to_value();
    assert!(chat["function"].get("input_schema").is_none());
    assert_eq!(chat["function"]["parameters"]["type"], "object");

    let responses = for_responses(&[chat_style])[0].to_value();
    assert!(responses.get("input_schema").is_none());
    assert_eq!(responses["parameters"]["type"], "object");
}

#[test]
fn resolve_loads_inline_file_and_pre_resolved_sources_in_order() {
    let tools = resolve(
        &[
            ToolSource::Inline(r#"{"name":"inline","input_schema":{"type":"object"}}"#.into()),
            ToolSource::File("tools.json".into()),
            ToolSource::Resolved(vec![json(
                r#"{ "name": "resolved", "input_schema": { "type": "object" } }"#,
            )]),
        ],
        &[
            unread(),
            Ok(r#"{"tools":[{"name":"from_file","input_schema":{"type":"object"}}]}"#.to_string()),
            unread(),
        ],
    )
    .unwrap()
    .unwrap();

    assert_eq!(tools.len(), 3);
    assert_eq!(tools[0].get_str("name"), Some("inline"));
    assert_eq!(tools[1].get_str("name"), Some("from_file"));
    assert_eq!(tools[2].get_str("name"), Some("resolved"));
}

#[test]
fn resolve_returns_none_for_empty_sources_and_rejects_bad_shapes() {
    assert!(resolve(&[], &[]).unwrap().is_none());

    let err = resolve(&[ToolSource::Inline("42".into())], &[unread()]).unwrap_err();
    assert!(err.contains("expected a tool object"));

    let err = resolve(&[ToolSource::Inline(r#"{"tools":42}"#.into())], &[unread()]).unwrap_err();
    assert!(err.contains("expected `tools` to be an array"));

    let err = resolve(&[ToolSource::Inline("[42]".into())], &[unread()]).unwrap_err();
    assert!(err.contains("each tool must be a JSON object"));
}

#[test]
fn resolved_sources_and_tool_call_formatting_are_stable() {
    assert!(resolved_sources(Vec::new()).is_empty());

    let sources = resolved_sources(vec![json(r#"{ "name": "echo" }"#)]);
    assert_eq!(sources.len(), 1);
    match &sources[0] {
        ToolSource::Resolved(items) => assert_eq!(items[0].get_str("name"), Some("echo")),
        other => panic!("unexpected source: {other:?}"),
    }

    let text = format_tool_calls(&[json(r#"{ "call_id": "call_1" }"#)]).unwrap();
    assert!(text.ends_with('\n'));
    let calls = json(&text).to_value();
    assert_eq!(calls[0]["call_id"], "call_1");
}

#[test]
fn response_normalization_leaves_non_function_tools_untouched() {
    let custom = json(
        r#"{
            "type": "custom",
            "name": "raw_exec",
            "input": { "type": "text" }
        }"#,
    );

    assert_eq!(for_chat(std::slice::from_ref(&custom))[0], custom);
    assert_eq!(for_responses(std::slice::from_ref(&custom))[0], custom);
}

#[test]
fn tools_of_other_types_stay_though_they_look_like_functions() {
    for text in [
        r#"{"type":"custom","name":"raw","parameters":{}}"#,
        r#"{"type":"custom","name":"raw","input_schema":{}}"#,
    ] {
        let tool = json(text);
        assert_eq!(for_chat(std::slice::from_ref(&tool))[0], tool);
        assert_eq!(for_responses(std::slice::from_ref(&tool))[0], tool);
    }
}

#[test]
fn a_type_that_is_no_text_is_no_type() {
    for kind in ["null", "1", "{}"] {
        let tool = json(&format!(r#"{{"type":{kind},"name":"raw","parameters":{{}}}}"#));
        assert_eq!(
            for_chat(std::slice::from_ref(&tool))[0],
            json(r#"{"type":"function","function":{"name":"raw","parameters":{}}}"#)
        );
        assert_eq!(
            for_responses(std::slice::from_ref(&tool))[0],
            json(r#"{"name":"raw","parameters":{},"type":"function"}"#)
        );
    }
}

#[test]
fn responses_normalization_flattens_nested_function_without_leaking_wrapper_fields() {
    let chat_style = json(
        r#"{
            "type": "function",
            "metadata": { "owner": "tests" },
            "function": {
                "type": "function",
                "function": { "should": "not leak" },
                "name": "echo",
                "description": "Echo",
                "parameters": { "type": "object" }
            }
        }"#,
    );

    let normalized = for_responses(&[chat_style])[0].to_value();

    assert_eq!(normalized["type"], "function");
    assert_eq!(normalized["name"], "echo");
    assert_eq!(normalized["description"], "Echo");
    assert_eq!(normalized["parameters"]["type"], "object");
    assert_eq!(normalized["metadata"]["owner"], "tests");
    assert!(normalized.get("function").is_none());
}

#[test]
fn chat_shape_is_stable_under_a_second_pass() {
    let tools = vec![
        json(r#"{"name":"a","input_schema":{"type":"object"}}"#),
        json(r#"{"type":"function","function":{"name":"b","input_schema":{}}}"#),
        json(r#"{"type":"function","name":"c"}"#),
        json(r#"{"type":"web_search"}"#),
        json("7"),
    ];
    let once = for_chat(&tools);
    assert_eq!(for_chat(&once), once);
    assert_eq!(
        once[0].to_compact(),
        r#"{"type":"function","function":{"name":"a","parameters":{"type":"object"}}}"#
    );
    assert_eq!(once[3], tools[3]);
    assert_eq!(once[4], tools[4]);
}

#[test]
fn parameters_win_over_input_schema() {
    let tool = json(r#"{"name":"a","input_schema":{"x":1},"parameters":{"y":2}}"#);
    assert_eq!(
        for_responses(&[tool])[0].to_compact(),
        r#"{"name":"a","parameters":{"y":2},"type":"function"}"#
    );
}

#[test]
fn marked_function_without_a_name_stays_for_chat() {
    let tool = json(r#"{"type":"function","x":1}"#);
    assert_eq!(for_chat(std::slice::from_ref(&tool))[0], tool);
    assert_eq!(
        for_responses(&[tool])[0].to_compact(),
        r#"{"x":1,"type":"function"}"#
    );
}

#[test]
fn tool_complaints_name_their_source() {
    let file = [ToolSource::File("defs.json".into())];
    assert_eq!(
        resolve(&file, &[Err("no such file".to_string())]).unwrap_err(),
        "failed to read --tools defs.json: no such file"
    );
    let err = resolve(&file, &[Ok("{".to_string())]).unwrap_err();
    assert!(err.starts_with("failed to parse --tools defs.json: "));
    assert_eq!(
        resolve(&file, &[Ok("[1]".to_string())]).unwrap_err(),
        "--tools defs.json: each tool must be a JSON object"
    );
    let err = resolve(&[ToolSource::Inline("{".into())], &[unread()]).unwrap_err();
    assert!(err.starts_with("failed to parse --tool json: "));
    assert_eq!(
        resolve(&[ToolSource::Resolved(vec![json("1")])], &[unread()]).unwrap_err(),
        "resolved tools: each tool must be a JSON object"
    );
}

#[test]
fn the_first_complaint_about_tools_is_reported() {
    let err = resolve(
        &[
            ToolSource::Inline("[]".into()),
            ToolSource::Inline("1".into()),
            ToolSource::File("missing".into()),
        ],
        &[unread(), unread(), unread()],
    )
    .unwrap_err();
    assert_eq!(
        err,
        "--tool: expected a tool object, an array of tool objects, or an object with a `tools` array"
    );
    assert!(resolve(&[ToolSource::Inline("[]".into())], &[unread()])
        .unwrap()
        .is_none());
}

#[test]
fn tools_before_a_bad_one_are_added() {
    let mut out = Vec::new();
    let result = append_tool_value(&mut out, json(r#"[{"a":1},{"b":2},3,{"c":4}]"#), "--tool");
    assert_eq!(result, Err("--tool: each tool must be a JSON object".to_string()));
    assert_eq!(out.len(), 2);
}

#[test]
fn tool_calls_are_laid_out() {
    assert_eq!(format_tool_calls(&[]).unwrap(), "[]\n");
    assert_eq!(
        format_tool_calls(&[json(r#"{"id":"x"}"#)]).unwrap(),
        "[\n  {\n    \"id\": \"x\"\n  }\n]\n"
    );
}

#[test]
fn resolved_tools_need_no_source_any_more() {
    let sources = [
        ToolSource::File("t.json".to_string()),
        ToolSource::Inline(r#"{"name":"b"}"#.to_string()),
    ];
    let reads = [Ok(r#"{"tools":[{"name":"a"}]}"#.to_string()), unread()];
    let found = resolve(&sources, &reads).unwrap().unwrap();
    let names: Vec<_> = found.iter().map(|tool| tool.get_str("name").unwrap()).collect();
    assert_eq!(names, vec!["a", "b"]);
    let later = resolved_sources(found);
    let again = resolve(&later, &[unread()]).unwrap().unwrap();
    assert_eq!(again, vec![json(r#"{"name":"a"}"#), json(r#"{"name":"b"}"#)]);
}
