use mii_text::args::{
    default_ipc_socket_from, map_reasoning, parse_from, usage, Args, ClientArgs, Mode, ParseOutcome,
    DEFAULT_MAX_TOKENS,
};
use mii_text::json::Json;
use mii_text::tools::ToolSource;

fn number(token: &str) -> Option<Json> {
    token
        .parse::<f32>()
        .ok()
        .map(|value| Json::from_value(serde_json::Value::from(value)))
}

fn parse_outcome(tokens: &[&str]) -> Result<ParseOutcome, String> {
    let tokens: Vec<String> = tokens.iter().map(|s| s.to_string()).collect();
    let temperatures: Vec<Option<Json>> = tokens.iter().map(|s| number(s)).collect();
    parse_from(&tokens, &temperatures)
}

fn parse_tokens(tokens: &[&str]) -> Result<Args, String> {
    match parse_outcome(tokens)? {
        ParseOutcome::Args(args) => Ok(args),
        ParseOutcome::Help => panic!("unexpected help"),
    }
}

#[test]
fn parses_generation_provider_output_and_tool_flags() {
    let args = parse_tokens(&[
        "--key",
        "sk-test",
        "--url",
        "https://example.test/v1",
        "--model",
        "model-a",
        "--stream",
        "--out",
        "out.txt",
        "--system",
        "sys",
        "--messages",
        "[]",
        "--quick",
        "--stateful",
        "state.json",
        "--reasoning",
        "high",
        "--stats",
        "--cache",
        "cache.db",
        "--temperature",
        "0.25",
        "--max-tokens",
        "42",
        "--reasoning-summary",
        "--tool",
        "{\"name\":\"echo\",\"input_schema\":{\"type\":\"object\"}}",
        "--tools",
        "tools.json",
        "--completions",
        "--simple",
        "--serve",
        "--ipc",
        "sock",
        "--status",
        "--quiet",
    ])
    .unwrap();

    assert_eq!(args.key.as_deref(), Some("sk-test"));
    assert_eq!(args.url.as_deref(), Some("https://example.test/v1"));
    assert_eq!(args.model.as_deref(), Some("model-a"));
    assert!(args.stream);
    assert_eq!(args.out.as_deref(), Some("out.txt"));
    assert_eq!(args.system.as_deref(), Some("sys"));
    assert_eq!(args.messages.as_deref(), Some("[]"));
    assert!(args.quick);
    assert_eq!(args.stateful.as_deref(), Some("state.json"));
    assert_eq!(args.reasoning.as_deref(), Some("high"));
    assert!(args.stats);
    assert_eq!(args.cache.as_deref(), Some("cache.db"));
    assert_eq!(args.temperature, Some(Json::parse("0.25").unwrap()));
    assert_eq!(args.max_tokens, Some(42));
    assert!(args.reasoning_summary);
    assert_eq!(args.tools.len(), 2);
    assert!(matches!(args.tools[0], ToolSource::Inline(_)));
    assert!(matches!(args.tools[1], ToolSource::File(_)));
    assert!(args.completions);
    assert!(args.simple);
    assert!(args.serve);
    assert!(args.ipc);
    assert_eq!(args.ipc_path.as_deref(), Some("sock"));
    assert!(args.status);
    assert!(args.quiet);
}

#[test]
fn default_socket_is_in_the_runtime_dir_when_there_is_one() {
    assert_eq!(
        default_ipc_socket_from(Some("/run/user/test")),
        "/run/user/test/mii-text.sock"
    );
    assert_eq!(
        default_ipc_socket_from(Some("/run/user/test/")),
        "/run/user/test/mii-text.sock"
    );
    assert_eq!(default_ipc_socket_from(Some("")), "/tmp/mii-text.sock");
    assert_eq!(default_ipc_socket_from(None), "/tmp/mii-text.sock");
}

#[test]
fn socket_path_of_the_arguments_wins() {
    let args = parse_tokens(&["--ipc", "here"]).unwrap();
    assert_eq!(args.socket(Some("/run")), "here");
    let args = parse_tokens(&["--ipc"]).unwrap();
    assert_eq!(args.socket(Some("/run")), "/run/mii-text.sock");
}

#[test]
fn the_mode_follows_from_the_flags() {
    let mode = |tokens: &[&str]| parse_tokens(tokens).unwrap().mode();
    assert_eq!(mode(&["--serve", "--ipc", "--status"]), Mode::Serve);
    assert_eq!(mode(&["--ipc", "--status"]), Mode::AskStatus);
    assert_eq!(mode(&["--ipc"]), Mode::AskServer);
    assert_eq!(mode(&["--status"]), Mode::Local);
}

#[test]
fn ipc_without_path_does_not_consume_the_next_flag() {
    let args = parse_tokens(&["--ipc", "--status"]).unwrap();

    assert!(args.ipc);
    assert!(args.status);
    assert_eq!(args.ipc_path, None);
}

#[test]
fn parse_rejects_missing_values_unknown_flags_and_bad_numbers() {
    assert_eq!(
        parse_tokens(&["--model"]).unwrap_err(),
        "missing value for --model"
    );
    assert_eq!(
        parse_tokens(&["--temperature", "warm"]).unwrap_err(),
        "invalid --temperature value 'warm': expected float"
    );
    assert_eq!(
        parse_tokens(&["--max-tokens", "many"]).unwrap_err(),
        "invalid --max-tokens value 'many': expected positive integer"
    );
    assert_eq!(
        parse_tokens(&["--surprise"]).unwrap_err(),
        "unknown argument: --surprise"
    );
}

#[test]
fn help_stops_the_parser() {
    assert_eq!(parse_outcome(&["--stream", "-h", "--surprise"]), Ok(ParseOutcome::Help));
    assert_eq!(parse_outcome(&["--help"]), Ok(ParseOutcome::Help));
    assert_eq!(
        parse_outcome(&["--surprise", "--help"]),
        Err("unknown argument: --surprise".to_string())
    );
}

#[test]
fn token_limits_are_read_as_the_standard_library_does() {
    let limit = |token: &str| parse_tokens(&["--max-tokens", token]).map(|args| args.max_tokens);
    for token in ["0", "+7", "0000000000000000000012", "4294967295"] {
        assert_eq!(limit(token), Ok(token.parse::<u32>().ok()));
    }
    for token in ["", "+", "-1", "4294967296", "99999999999999999999999", "1 ", "1_0"] {
        assert!(token.parse::<u32>().is_err());
        assert!(limit(token).is_err());
    }
}

#[test]
fn values_may_look_like_flags_and_the_last_one_counts() {
    let args = parse_tokens(&["--model", "--stream", "--model", "b", "--schema", "{}"]).unwrap();
    assert_eq!(args.model.as_deref(), Some("b"));
    assert!(!args.stream);
    assert_eq!(args.schema.as_deref(), Some("{}"));
    assert_eq!(parse_tokens(&[]).unwrap(), Args::default());
    assert_eq!(DEFAULT_MAX_TOKENS, 128_000);
}

#[test]
fn maps_reasoning_levels_and_rejects_unknown_values() {
    for level in ["none", "low", "medium", "high", "xhigh"] {
        assert_eq!(map_reasoning(level).unwrap(), level);
    }

    assert_eq!(
        map_reasoning("maximum").unwrap_err(),
        "invalid --reasoning value 'maximum': expected none|low|medium|high|xhigh"
    );
}

#[test]
fn to_client_carries_every_shareable_field() {
    let args = parse_tokens(&[
        "--model",
        "model-a",
        "--stream",
        "--out",
        "out.txt",
        "--system",
        "sys",
        "--messages",
        "[]",
        "--quick",
        "--stateful",
        "state.json",
        "--reasoning",
        "low",
        "--stats",
        "--cache",
        "cache.db",
        "--temperature",
        "0.5",
        "--max-tokens",
        "99",
        "--reasoning-summary",
        "--tool",
        "{\"name\":\"echo\",\"input_schema\":{\"type\":\"object\"}}",
        "--completions",
        "--simple",
    ])
    .unwrap();

    let client = args.to_client();

    assert_eq!(client.model.as_deref(), Some("model-a"));
    assert!(client.stream);
    assert_eq!(client.out.as_deref(), Some("out.txt"));
    assert_eq!(client.system.as_deref(), Some("sys"));
    assert_eq!(client.messages.as_deref(), Some("[]"));
    assert!(client.quick);
    assert_eq!(client.stateful.as_deref(), Some("state.json"));
    assert_eq!(client.reasoning.as_deref(), Some("low"));
    assert!(client.stats);
    assert_eq!(client.cache.as_deref(), Some("cache.db"));
    assert_eq!(client.temperature, Some(Json::parse("0.5").unwrap()));
    assert_eq!(client.max_tokens, Some(99));
    assert!(client.reasoning_summary);
    assert_eq!(client.tools.len(), 1);
    assert!(client.completions);
    assert!(client.simple);
}

#[test]
fn merge_client_only_enables_booleans_and_replaces_client_tools() {
    let mut server = parse_tokens(&[
        "--model",
        "server-model",
        "--stream",
        "--system",
        "server-system",
        "--tool",
        "{\"name\":\"server\",\"input_schema\":{\"type\":\"object\"}}",
        "--simple",
    ])
    .unwrap();

    server.merge_client(ClientArgs {
        model: Some("client-model".to_string()),
        stream: false,
        system: None,
        messages: Some("[]".to_string()),
        tools: vec![ToolSource::Inline(
            "{\"name\":\"client\",\"input_schema\":{\"type\":\"object\"}}".to_string(),
        )],
        completions: true,
        simple: false,
        ..ClientArgs::default()
    });

    assert_eq!(server.model.as_deref(), Some("client-model"));
    assert!(server.stream);
    assert_eq!(server.system.as_deref(), Some("server-system"));
    assert_eq!(server.messages.as_deref(), Some("[]"));
    assert_eq!(server.tools.len(), 1);
    match &server.tools[0] {
        ToolSource::Inline(raw) => assert!(raw.contains("client")),
        other => panic!("unexpected tool source: {other:?}"),
    }
    assert!(server.completions);
    assert!(server.simple);
}

#[test]
fn merging_nothing_keeps_the_arguments() {
    let args = parse_tokens(&["--model", "m", "--stats", "--tool", "{}", "--key", "k"]).unwrap();
    let mut merged = args.clone();
    merged.merge_client(ClientArgs::default());
    assert_eq!(merged, args);
    merged.merge_client(args.to_client());
    assert_eq!(merged, args);
}

#[test]
fn usage_mentions_the_structural_output_flags() {
    let text = usage();

    assert!(text.contains("--tool <json>"));
    assert!(text.contains("--tools <path>"));
    assert!(text.contains("--completions"));
    assert!(text.contains("--simple"));
    assert!(text.contains("--schema <path|json>"));
}
