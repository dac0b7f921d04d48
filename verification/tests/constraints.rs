use mii_text::constraints::{
    apply_first_pass_prompt, is_inline_schema, parse_constrained_response, resolve_schema,
    response_format_for_chat, schema_guidance, second_pass_messages, text_format_for_responses,
};
use mii_text::conversation::Message;
use mii_text::json::{Json, Object};
use mii_text::output::Prospect;

fn json(text: &str) -> Json {
    Json::parse(text).unwrap()
}

#[test]
fn schema_guidance_extracts_descriptions_and_properties() {
    let guidance = schema_guidance(&json(
        r#"{
            "type": "object",
            "description": "Movie data",
            "properties": {
                "title": {
                    "type": "string",
                    "description": "The title of the movie"
                },
                "year": {
                    "type": "integer",
                    "description": "The year the movie was released"
                }
            }
        }"#,
    ));

    assert!(guidance.contains("Please answer the above question"));
    assert!(guidance.contains("Movie data:"));
    assert!(guidance.contains("- title: The title of the movie"));
    assert!(guidance.contains("- year: The year the movie was released"));
    assert_eq!(
        guidance,
        "Please answer the above question with the following structure:\n\
         Movie data:\n- title: The title of the movie\n\
         - year: The year the movie was released"
    );
}

#[test]
fn guidance_goes_as_deep_as_the_schema() {
    let guidance = schema_guidance(&json(
        r#"{
            "type": "array",
            "items": {
                "title": "Film",
                "properties": {"cast": {"type": "array", "items": {}}, "x": 1}
            },
            "properties": []
        }"#,
    ));
    assert_eq!(
        guidance,
        "Please answer the above question with the following structure:\n\
         array:\n- items[]: Film\n  - cast: array\n    - items[]\n  - x"
    );
    assert!(schema_guidance(&json("{}")).ends_with("\nresponse:"));
    assert!(schema_guidance(&json(r#"{"description":1,"title":"T"}"#)).ends_with("\nT:"));
}

#[test]
fn first_pass_prompt_wraps_the_latest_user_string() {
    let messages = vec![
        Message::user("old".to_string()),
        Message::assistant("answer".to_string()),
        Message::user("new question".to_string()),
    ];

    let prompted = apply_first_pass_prompt(&messages, &json(r#"{"type":"object"}"#));

    assert_eq!(prompted.len(), 3);
    let content = prompted[2].content.as_ref().and_then(Json::as_str).unwrap();
    assert!(content.contains("Question: new question"));
    assert!(content.contains("Please answer the above question"));
    assert_eq!(
        prompted[0].content.as_ref().and_then(Json::as_str),
        Some("old")
    );
}

#[test]
fn guidance_stands_alone_without_a_text_question() {
    let schema = json(r#"{"type":"object"}"#);
    let guidance = schema_guidance(&schema);
    let only_assistant = vec![Message::assistant("a".to_string())];
    let prompted = apply_first_pass_prompt(&only_assistant, &schema);
    assert_eq!(prompted.len(), 2);
    assert_eq!(prompted[1], Message::user(guidance.clone()));
    let parts = vec![
        Message::user("text".to_string()),
        Message {
            role: "user".to_string(),
            content: Some(json("[]")),
            extra: Object::new(),
        },
    ];
    let prompted = apply_first_pass_prompt(&parts, &schema);
    assert_eq!(prompted.len(), 3);
    assert_eq!(prompted[0], parts[0]);
    assert_eq!(prompted[2], Message::user(guidance.clone()));
    let spaced = vec![Message::user("  why? \n".to_string())];
    let prompted = apply_first_pass_prompt(&spaced, &schema);
    assert_eq!(
        prompted[0],
        Message::user(format!("Question: why?\n{guidance}"))
    );
}

#[test]
fn parses_constrained_json_and_rejects_empty_or_invalid_content() {
    assert_eq!(
        parse_constrained_response(r#"{"title":"Brazil"}"#)
            .unwrap()
            .get_str("title"),
        Some("Brazil")
    );
    assert!(parse_constrained_response("")
        .unwrap_err()
        .contains("empty"));
    assert!(parse_constrained_response("not json")
        .unwrap_err()
        .contains("invalid JSON"));
}

#[test]
fn response_formats_use_the_openai_json_schema_shape() {
    let schema = json(r#"{"type":"object"}"#);
    let chat = response_format_for_chat(&schema).to_value();
    let responses = text_format_for_responses(&schema).to_value();

    assert_eq!(chat["type"], "json_schema");
    assert_eq!(chat["json_schema"]["schema"]["type"], "object");
    assert_eq!(responses["format"]["type"], "json_schema");
    assert_eq!(responses["format"]["schema"]["type"], "object");
}

#[test]
fn a_schema_is_text_or_a_file() {
    let schema = json(r#"{"type":"object"}"#);
    assert!(is_inline_schema("[1]"));
    assert!(!is_inline_schema("schema.json"));
    assert_eq!(
        resolve_schema(r#" {"type":"object"} "#, Err("unread")),
        Ok(schema.clone())
    );
    assert_eq!(
        resolve_schema("schema.json", Ok(r#"{"type":"object"}"#)),
        Ok(schema)
    );
    assert_eq!(
        resolve_schema("schema.json", Err("no such file")).unwrap_err(),
        "failed to parse --schema as JSON or read schema.json: no such file"
    );
    assert!(resolve_schema("schema.json", Ok("{"))
        .unwrap_err()
        .starts_with("failed to parse --schema schema.json: "));
    assert_eq!(
        resolve_schema("[]", Err("unread")).unwrap_err(),
        "--schema must be a JSON schema object"
    );
    assert_eq!(
        resolve_schema("f", Ok("1")).unwrap_err(),
        "--schema must be a JSON schema object"
    );
}

#[test]
fn the_second_pass_follows_the_first() {
    let guided = vec![Message::user("q".to_string())];
    let first = Prospect {
        content: "draft".to_string(),
        ..Prospect::default()
    };
    let messages = second_pass_messages(&guided, &first);
    assert_eq!(messages.len(), 3);
    assert_eq!(messages[0], guided[0]);
    assert_eq!(messages[1], Message::assistant("draft".to_string()));
    assert_eq!(
        messages[2],
        Message::user(
            "Convert the assistant answer into JSON that validates against the provided schema. \
             Return only the JSON value."
                .to_string()
        )
    );
    let calls = Prospect {
        content: " \n".to_string(),
        tool_calls: vec![json("1")],
        ..Prospect::default()
    };
    let messages = second_pass_messages(&guided, &calls);
    assert_eq!(messages[1], Message::assistant("[\n  1\n]".to_string()));
    let nothing = Prospect {
        content: " ".to_string(),
        ..Prospect::default()
    };
    let messages = second_pass_messages(&guided, &nothing);
    assert_eq!(messages[1], Message::assistant(String::new()));
}
