use mii_text::args::{Args, ClientArgs};
use mii_text::client::{connect_error, format_status, run_request, Listener, Show};
use mii_text::conversation::{load_input_messages, Message};
use mii_text::ipc::{Frame, Request, StatusInfo};
use mii_text::json::Json;
use mii_text::output::ProviderContinuation;
use mii_text::run::{gather, RunOutcome, Surroundings};
use mii_text::server::{
    closing_frames, describe_end, describe_event, describe_request, effective_args, exit_code,
    log_line, plan, require_key, ts, Plan,
};
use mii_text::sink::ErrSink;
use mii_text::tools::ToolSource;

fn json(text: &str) -> Json {
    Json::parse(text).unwrap()
}

fn info() -> StatusInfo {
    StatusInfo {
        pid: 12,
        uptime_ms: 34,
        requests_served: 5,
        model: None,
        socket: "/tmp/s".to_string(),
    }
}

fn exit() -> Frame {
    Frame::Exit {
        code: 0,
        assistant: Some("a\n\u{1f600}".to_string()),
        provider_continuation: Some(ProviderContinuation {
            provider: "openai".to_string(),
            response_id: None,
            reasoning_items: vec![json("{}")],
        }),
        constrained: Some(json(r#"{"x":[1,-2,true]}"#)),
    }
}

#[test]
fn frames_survive_the_wire() {
    let frames = [
        Frame::Stdout {
            text: "line\r\n\"quoted\"".to_string(),
        },
        Frame::Stderr {
            text: String::new(),
        },
        Frame::Status { info: info() },
        exit(),
        Frame::Exit {
            code: 255,
            assistant: None,
            provider_continuation: None,
            constrained: None,
        },
    ];
    for frame in frames {
        let line = frame.to_line();
        assert!(line.ends_with('\n'));
        assert_eq!(line.matches('\n').count(), 1);
        assert_eq!(Frame::from_line(&line), Ok(frame));
    }
}

#[test]
fn frames_have_the_documented_shape() {
    assert_eq!(
        Frame::Stdout {
            text: "x".to_string()
        }
        .to_line(),
        "{\"type\":\"stdout\",\"text\":\"x\"}\n"
    );
    assert_eq!(
        Frame::Status { info: info() }.to_line(),
        "{\"type\":\"status\",\"info\":{\"pid\":12,\"uptime_ms\":34,\"requests_served\":5,\"model\":null,\"socket\":\"/tmp/s\"}}\n"
    );
    assert_eq!(
        Frame::from_line("{\"type\":\"exit\",\"code\":2}\r\n"),
        Ok(Frame::Exit {
            code: 2,
            assistant: None,
            provider_continuation: None,
            constrained: None
        })
    );
    assert_eq!(Request::Status.to_line(), "{\"kind\":\"status\"}\n");
}

#[test]
fn broken_lines_are_refused() {
    for line in [
        "{\"type\":\"exit\",\"code\":256}\n",
        "{\"type\":\"exit\"}\n",
        "{\"type\":\"stdout\"}\n",
        "{\"type\":\"status\",\"info\":{\"pid\":4294967296}}\n",
        "{\"type\":\"other\"}\n",
        "[]\n",
    ] {
        assert_eq!(Frame::from_line(line), Err("unexpected frame".to_string()));
    }
    assert!(Frame::from_line("\n").is_err());
    for line in [
        "{\"kind\":\"run\",\"args\":{},\"stdin\":1}",
        "{\"kind\":\"run\",\"args\":{\"stream\":null},\"stdin\":\"\"}",
        "{\"kind\":\"run\",\"args\":{\"max_tokens\":-1},\"stdin\":\"\"}",
        "{\"kind\":\"run\",\"args\":{\"temperature\":\"1\"},\"stdin\":\"\"}",
        "{\"kind\":\"run\",\"args\":{\"tools\":[{\"kind\":\"inline\"}]},\"stdin\":\"\"}",
        "{\"kind\":\"run\",\"args\":1,\"stdin\":\"\"}",
        "{}",
    ] {
        assert_eq!(
            Request::from_line(line),
            Err("unexpected request".to_string())
        );
    }
}

fn client_args() -> ClientArgs {
    ClientArgs {
        model: Some("m".to_string()),
        stream: true,
        out: Some("o".to_string()),
        system: Some("s".to_string()),
        messages: Some("[]".to_string()),
        quick: true,
        stateful: Some("f".to_string()),
        reasoning: Some("low".to_string()),
        stats: true,
        cache: Some("c".to_string()),
        temperature: Some(json("0.5")),
        max_tokens: Some(9),
        reasoning_summary: true,
        tools: vec![
            ToolSource::Inline("{}".to_string()),
            ToolSource::File("t".to_string()),
            ToolSource::Resolved(vec![json("{}")]),
        ],
        completions: true,
        simple: true,
        schema: Some("{}".to_string()),
    }
}

#[test]
fn requests_survive_the_wire() {
    for args in [client_args(), ClientArgs::default()] {
        let request = Request::Run {
            args,
            stdin: "in\n".to_string(),
        };
        let line = request.to_line();
        assert_eq!(line.matches('\n').count(), 1);
        assert_eq!(Request::from_line(&line), Ok(request));
    }
    assert_eq!(
        Request::from_line(&Request::Status.to_line()),
        Ok(Request::Status)
    );
    assert_eq!(
        Request::from_line("{\"kind\":\"run\",\"args\":{},\"stdin\":\"\"}"),
        Ok(Request::Run {
            args: ClientArgs::default(),
            stdin: String::new()
        })
    );
    let tools = Request::Run {
        args: ClientArgs {
            tools: vec![ToolSource::File("t".to_string())],
            ..ClientArgs::default()
        },
        stdin: String::new(),
    };
    assert!(tools
        .to_line()
        .contains("\"tools\":[{\"kind\":\"file\",\"value\":\"t\"}]"));
}

#[test]
fn secrets_are_no_part_of_a_request() {
    let args = Args {
        key: Some("sk-hidden".to_string()),
        url: Some("http://hidden".to_string()),
        ..Args::default()
    };
    let line = run_request(&args, &[], None, &None).to_line();
    assert!(!line.contains("hidden"));
}

#[test]
fn a_client_sends_what_it_has_read() {
    let args = Args {
        stateful: Some("f".to_string()),
        out: Some("o".to_string()),
        quick: true,
        messages: Some("raw".to_string()),
        tools: vec![ToolSource::File("t".to_string())],
        model: Some("m".to_string()),
        schema: Some("schema.json".to_string()),
        ..Args::default()
    };
    let conversation = vec![
        Message::user("one".to_string()),
        Message::assistant("two".to_string()),
    ];
    let request = run_request(
        &args,
        &conversation,
        Some(vec![json(r#"{"name":"x"}"#)]),
        &Some(json(r#"{"type":"object"}"#)),
    );
    let Request::Run { args: sent, stdin } = request else {
        panic!("unexpected request");
    };
    assert_eq!(stdin, "");
    assert_eq!(sent.stateful, None);
    assert_eq!(sent.out, None);
    assert!(!sent.quick);
    assert_eq!(sent.model.as_deref(), Some("m"));
    assert_eq!(sent.schema.as_deref(), Some(r#"{"type":"object"}"#));
    assert_eq!(
        sent.tools,
        vec![ToolSource::Resolved(vec![json(r#"{"name":"x"}"#)])]
    );
    assert_eq!(
        load_input_messages(&sent.messages, false, None).unwrap(),
        conversation
    );
}

#[test]
fn a_server_runs_requests_under_merged_arguments() {
    let server = Args {
        key: Some("k".to_string()),
        url: Some("u".to_string()),
        model: Some("server".to_string()),
        out: Some("server-out".to_string()),
        stateful: Some("server-state".to_string()),
        cache: Some("db".to_string()),
        serve: true,
        ipc: true,
        ipc_path: Some("sock".to_string()),
        quiet: true,
        simple: true,
        ..Args::default()
    };
    let effective = effective_args(
        &server,
        ClientArgs {
            reasoning: Some("low".to_string()),
            out: Some("client-out".to_string()),
            stateful: Some("client-state".to_string()),
            ..ClientArgs::default()
        },
    );
    assert_eq!(
        effective,
        Args {
            key: Some("k".to_string()),
            url: Some("u".to_string()),
            model: Some("server".to_string()),
            cache: Some("db".to_string()),
            reasoning: Some("low".to_string()),
            quiet: true,
            simple: true,
            stats: true,
            ..Args::default()
        }
    );
}

#[test]
fn a_server_plans_by_request() {
    let server = Args {
        model: Some("m".to_string()),
        quiet: true,
        ..Args::default()
    };
    assert!(matches!(
        plan(&server, None, 1, 2, 3, 4, "s"),
        Plan::Closed
    ));
    let Plan::Answer(frames) = plan(&server, Some(Request::Status), 1, 2, 3, 4, "s") else {
        panic!("expected frames");
    };
    assert_eq!(
        frames,
        vec![
            Frame::Status {
                info: StatusInfo {
                    pid: 2,
                    uptime_ms: 3,
                    requests_served: 4,
                    model: Some("m".to_string()),
                    socket: "s".to_string(),
                }
            },
            Frame::Exit {
                code: 0,
                assistant: None,
                provider_continuation: None,
                constrained: None
            },
        ]
    );
    let request = Request::Run {
        args: client_args(),
        stdin: "in".to_string(),
    };
    let Plan::Run { args, stdin, err } = plan(&server, Some(request), 1, 2, 3, 4, "s") else {
        panic!("expected a run");
    };
    assert_eq!(args, effective_args(&server, client_args()));
    assert_eq!(stdin, "in");
    assert_eq!(
        err,
        ErrSink::Server {
            forward_to_client: true,
            quiet: true,
            conn_id: 1
        }
    );
}

fn outcome() -> RunOutcome {
    RunOutcome {
        exit_code: 0,
        assistant_buf: "a".to_string(),
        provider_continuation: None,
        constrained: Some(json("1")),
    }
}

#[test]
fn the_end_of_a_request_reaches_the_client() {
    let mut listener = Listener::new(false);
    assert_eq!(listener.exit_code(), 1);
    assert_eq!(exit_code(&Ok(outcome())), 0);
    for frame in closing_frames(Ok(outcome())) {
        assert_eq!(listener.take(frame), Show::Nothing);
    }
    assert!(listener.has_ended());
    assert_eq!(listener.exit_code(), 0);
    let mut conversation = vec![Message::user("q".to_string())];
    assert!(listener.keep_turn(&mut conversation));
    assert_eq!(conversation.len(), 2);
    assert_eq!(
        conversation[1].to_json().to_compact(),
        r#"{"role":"assistant","content":"a","constrained":1}"#
    );
}

#[test]
fn a_failed_request_is_reported_and_not_kept() {
    let failure = Err((2, "api error: x".to_string()));
    assert_eq!(exit_code(&failure), 2);
    let mut listener = Listener::new(false);
    let shown: Vec<Show> = closing_frames(failure)
        .into_iter()
        .map(|frame| listener.take(frame))
        .collect();
    assert_eq!(
        shown,
        vec![Show::Stderr("api error: x\n".to_string()), Show::Nothing]
    );
    assert_eq!(listener.exit_code(), 2);
    let mut conversation = Vec::new();
    assert!(!listener.keep_turn(&mut conversation));
    assert!(conversation.is_empty());
}

#[test]
fn facts_about_the_server_are_shown_when_asked_for() {
    let frame = || Frame::Status { info: info() };
    let expected = "socket:           /tmp/s\npid:              12\nuptime:           34 ms\n\
                    requests served:  5\nmodel:            <unset>\n";
    assert_eq!(format_status(&info()), expected);
    assert_eq!(
        Listener::new(true).take(frame()),
        Show::Stdout(expected.to_string())
    );
    assert_eq!(Listener::new(false).take(frame()), Show::Nothing);
    let mut listener = Listener::new(true);
    assert_eq!(
        listener.take(Frame::Stdout {
            text: "o".to_string()
        }),
        Show::Stdout("o".to_string())
    );
    assert!(!listener.has_ended());
}

#[test]
fn unreachable_sockets_are_reported_with_a_hint() {
    let error = connect_error("/tmp/s", true, "refused");
    assert_eq!(
        error,
        "connection /tmp/s unreachable (is `mii-text --serve` running?)"
    );
    assert_eq!(
        connect_error("/tmp/s", false, "denied"),
        "connect /tmp/s: denied"
    );
}

#[test]
fn a_server_needs_a_key() {
    let mut args = Args::default();
    assert_eq!(
        require_key(&args, false).unwrap_err(),
        "--serve requires an API key (--key or OPENAI_API_KEY)"
    );
    assert!(require_key(&args, true).is_ok());
    args.key = Some(String::new());
    assert!(require_key(&args, false).is_ok());
}

#[test]
fn the_log_tells_time_and_request() {
    assert_eq!(ts(0, 0), "00:00:00.000");
    assert_eq!(ts(86_400 * 3 + 3_600 * 23 + 60 * 59 + 7, 42), "23:59:07.042");
    assert_eq!(log_line("t", "m"), "[t] m\n");
    assert_eq!(describe_event(3, "accepted"), "#3 accepted");
    assert_eq!(describe_end(3, 2, 150), "#3 done code=2 elapsed=150ms");
    let args = Args {
        model: Some("m".to_string()),
        cache: Some("c".to_string()),
        ..Args::default()
    };
    assert_eq!(
        describe_request(10, &args),
        "#10 request model=m reasoning=<none> stream=false cache=true"
    );
    assert_eq!(
        describe_request(0, &Args::default()),
        "#0 request model=<unset> reasoning=<none> stream=false cache=false"
    );
}

#[test]
fn a_server_finds_what_the_client_found() {
    let client = Args {
        stateful: Some("chat.json".to_string()),
        messages: Some(" and now? ".to_string()),
        quick: true,
        tools: vec![ToolSource::File("t.json".to_string())],
        schema: Some("s.json".to_string()),
        ..Args::default()
    };
    let seen = Surroundings {
        stateful: Ok(Some(r#"[{"role":"user","content":"x","note":[1]}]"#.to_string())),
        stdin: Err("closed".to_string()),
        tool_files: vec![Ok(r#"[{"name":"t"}]"#.to_string())],
        schema_file: Ok(r#"{"title":"S"}"#.to_string()),
    };
    let wanted = gather(&client, &seen).unwrap();
    let line = run_request(
        &client,
        &wanted.conversation,
        Some(vec![json(r#"{"name":"t"}"#)]),
        &wanted.schema,
    )
    .to_line();
    let server = Args {
        key: Some("k".to_string()),
        stateful: Some("server.json".to_string()),
        ..Args::default()
    };
    let request = Request::from_line(&line).unwrap();
    let Plan::Run { args, stdin, .. } = plan(&server, Some(request), 1, 2, 3, 4, "s") else {
        panic!("expected a run");
    };
    let blind = Surroundings {
        stateful: Err("not there".to_string()),
        stdin: Ok(stdin),
        tool_files: vec![Err("not there".to_string())],
        schema_file: Err("not there".to_string()),
    };
    assert_eq!(args.tools.len(), blind.tool_files.len());
    let found = gather(&args, &blind).unwrap();
    assert_eq!(found.conversation, wanted.conversation);
    assert_eq!(found.conversation[1], Message::user("and now?".to_string()));
    assert_eq!(found.tools, wanted.tools);
    assert_eq!(found.schema, Some(json(r#"{"title":"S"}"#)));
}

#[test]
fn records_may_be_given_as_arrays() {
    assert_eq!(
        Frame::from_line(r#"["stdout","a"]"#),
        Ok(Frame::Stdout {
            text: "a".to_string()
        })
    );
    assert_eq!(
        Frame::from_line(r#"["status",[12,34,5,null,"/tmp/s"]]"#),
        Ok(Frame::Status { info: info() })
    );
    assert_eq!(
        Frame::from_line(r#"["exit",3,"a"]"#),
        Ok(Frame::Exit {
            code: 3,
            assistant: Some("a".to_string()),
            provider_continuation: None,
            constrained: None,
        })
    );
    assert_eq!(Request::from_line(r#"["status"]"#), Ok(Request::Status));
    assert_eq!(
        Request::from_line(
            r#"["run",["m",true,null,"s",null,false,null,null,false,null,null,7,false,
                [["inline","x"],[1,"f"],{"kind":{"resolved":null},"value":[{}]}]],"in"]"#
        ),
        Ok(Request::Run {
            args: ClientArgs {
                model: Some("m".to_string()),
                stream: true,
                system: Some("s".to_string()),
                max_tokens: Some(7),
                tools: vec![
                    ToolSource::Inline("x".to_string()),
                    ToolSource::File("f".to_string()),
                    ToolSource::Resolved(vec![json("{}")]),
                ],
                ..ClientArgs::default()
            },
            stdin: "in".to_string(),
        })
    );
    for line in [
        "[]",
        "[1]",
        r#"["status",1]"#,
        r#"["run",[]]"#,
        r#"["run",[],"",""]"#,
        r#"["run",{"tools":[["inline"]]},""]"#,
        r#"["run",{"tools":[[3,"x"]]},""]"#,
        r#"["run",{"tools":[{"kind":{"inline":1},"value":"x"}]},""]"#,
    ] {
        assert_eq!(
            Request::from_line(line),
            Err("unexpected request".to_string()),
            "{line}"
        );
    }
    for line in [r#"["stdout"]"#, r#"["stdout","a","b"]"#, r#"["exit",0]"#] {
        assert_eq!(
            Frame::from_line(line),
            Err("unexpected frame".to_string()),
            "{line}"
        );
    }
}
