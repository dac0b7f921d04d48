//! The server: what it makes of a request, and the frames with which it answers.
use vstd::prelude::*;
use vstd::string::*;

use crate::args;
use crate::args::{Args, ArgsView, ClientArgs, ClientView};
use crate::ipc::{Frame, FrameView, Request, StatusInfo, StatusView};
use crate::json;
use crate::output;
use crate::run::RunOutcome;
use crate::sink::ErrSink;
use crate::text;

verus! {

/// A server starts only with an API key, given as an argument or by the environment.
pub fn require_key(args: &Args, environment_has_key: bool) -> (result: Result<(), String>)
    ensures
        match result {
            Ok(_) => args@.key is Some || environment_has_key,
            Err(message) => {
                &&& args@.key is None && !environment_has_key
                &&& message@ == "--serve requires an API key (--key or OPENAI_API_KEY)"@
            },
        },
{
    if args.key.is_none() && !environment_has_key {
        Err("--serve requires an API key (--key or OPENAI_API_KEY)".to_owned())
    } else {
        Ok(())
    }
}

/// Digits with zeros before them, up to a width.
pub open spec fn zero_padded(digits: Seq<char>, width: nat) -> Seq<char>
    decreases width - digits.len(),
{
    if digits.len() >= width {
        digits
    } else {
        zero_padded(seq!['0'] + digits, width)
    }
}

fn padded(n: u64, width: usize) -> (digits: String)
    ensures
        digits@ == zero_padded(text::decimal(n as nat), width as nat),
{
    let mut digits = text::decimal_text(n);
    let ghost start = digits@;
    while digits.as_str().unicode_len() < width
        invariant
            zero_padded(digits@, width as nat) == zero_padded(start, width as nat),
        decreases width - digits@.len(),
    {
        proof {
            reveal_strlit("0");
            assert("0"@ =~= seq!['0']);
        }
        digits = text::concat("0", digits.as_str());
    }
    digits
}

/// The time of day, in hours, minutes, seconds and milliseconds.
pub open spec fn time_of_day(secs: u64, millis: u32) -> Seq<char> {
    zero_padded(text::decimal(((secs / 3600) % 24) as nat), 2) + ":"@ + zero_padded(
        text::decimal(((secs / 60) % 60) as nat),
        2,
    ) + ":"@ + zero_padded(text::decimal((secs % 60) as nat), 2) + "."@ + zero_padded(
        text::decimal(millis as nat),
        3,
    )
}

/// The time of day of a log line, from the seconds of the clock and the milliseconds in the
/// second.
pub fn ts(secs: u64, millis: u32) -> (time: String)
    ensures
        time@ == time_of_day(secs, millis),
{
    let mut time = padded((secs / 3600) % 24, 2);
    time.append(":");
    let minutes = padded((secs / 60) % 60, 2);
    time.append(minutes.as_str());
    time.append(":");
    let seconds = padded(secs % 60, 2);
    time.append(seconds.as_str());
    time.append(".");
    let rest = padded(millis as u64, 3);
    time.append(rest.as_str());
    time
}

/// A line of the log.
pub fn log_line(time: &str, message: &str) -> (line: String)
    ensures
        line@ == "["@ + time@ + "] "@ + message@ + "\n"@,
{
    let mut line = text::concat4("[", time, "] ", message);
    line.append("\n");
    line
}

/// The arguments under which a server runs the request of a client: its own, with those of the
/// client over them. Files of the client's are the client's business, and the mode of the
/// server is not that of the request. Stats are always computed, for the log.
pub open spec fn effective(server: ArgsView, client: ClientView) -> ArgsView {
    let base = ClientView { out: None, stateful: None, ..server.client };
    let asked = ClientView { out: None, stateful: None, ..client };
    ArgsView {
        client: ClientView { stats: true, ..args::merged(base, asked) },
        serve: false,
        ipc: false,
        ipc_path: None,
        status: false,
        ..server
    }
}

/// A copy of the arguments of a server for one request.
fn clone_args(server: &Args) -> (copy: Args)
    ensures
        copy@ == (ArgsView { serve: false, ipc: false, ipc_path: None, status: false, ..server@ }),
{
    let mut copy = server.clone();
    copy.serve = false;
    copy.ipc = false;
    copy.ipc_path = None;
    copy.status = false;
    copy
}

/// The arguments under which a server runs the request of a client.
pub fn effective_args(server: &Args, client: ClientArgs) -> (args: Args)
    ensures
        args@ == effective(server@, client@),
{
    let mut asked = client;
    asked.out = None;
    asked.stateful = None;
    let mut args = clone_args(server);
    args.out = None;
    args.stateful = None;
    args.merge_client(asked);
    args.stats = true;
    args
}

/// What a server does about a request.
pub enum Plan {
    /// There was none.
    Closed,
    /// It answers at once.
    Answer(Vec<Frame>),
    /// It runs the request and forwards what comes.
    Run { args: Args, stdin: String, err: ErrSink },
}

/// What each of the frames says.
pub open spec fn frame_views(frames: Seq<Frame>) -> Seq<FrameView> {
    Seq::new(frames.len(), |i: int| frames[i]@)
}

/// The end of a request that leaves nothing to keep.
pub open spec fn bare_exit(code: u8) -> FrameView {
    FrameView::Exit { code, assistant: None, provider_continuation: None, constrained: None }
}

/// The answer to a question about the status.
pub open spec fn status_reply(info: StatusView) -> Seq<FrameView> {
    seq![FrameView::Status { info }, bare_exit(0)]
}

fn bare_exit_frame(code: u8) -> (frame: Frame)
    ensures
        frame@ == bare_exit(code),
{
    Frame::Exit { code, assistant: None, provider_continuation: None, constrained: None }
}

/// Decides about a request.
pub fn plan(
    server: &Args,
    request: Option<Request>,
    conn_id: u64,
    pid: u32,
    uptime_ms: u64,
    requests_served: u64,
    socket: &str,
) -> (result: Plan)
    ensures
        match request {
            None => result is Closed,
            Some(Request::Status) => result matches Plan::Answer(frames) && frame_views(frames@)
                == status_reply(
                StatusView {
                    pid,
                    uptime_ms,
                    requests_served,
                    model: server@.client.model,
                    socket: socket@,
                },
            ),
            Some(Request::Run { args, stdin }) => {
                &&& result matches Plan::Run { args: run_args, stdin: run_stdin, err }
                &&& run_args@ == effective(server@, args@)
                &&& run_stdin@ == stdin@
                &&& err == (ErrSink::Server {
                    forward_to_client: args@.stats,
                    quiet: server@.quiet,
                    conn_id,
                })
            },
        },
{
    match request {
        None => Plan::Closed,
        Some(Request::Status) => {
            let info = StatusInfo {
                pid,
                uptime_ms,
                requests_served,
                model: text::copy_opt(&server.model),
                socket: socket.to_owned(),
            };
            let frames = vec![Frame::Status { info }, bare_exit_frame(0)];
            assert(frame_views(frames@) =~= status_reply(info@));
            Plan::Answer(frames)
        },
        Some(Request::Run { args, stdin }) => {
            let err = ErrSink::Server {
                forward_to_client: args.stats,
                quiet: server.quiet,
                conn_id,
            };
            Plan::Run { args: effective_args(server, args), stdin, err }
        },
    }
}

/// The frames that end a request: what the client keeps of an answer, or the complaint.
pub open spec fn last_frames(outcome: Result<RunOutcome, (u8, String)>) -> Seq<FrameView> {
    match outcome {
        Ok(outcome) => seq![
            FrameView::Exit {
                code: outcome.exit_code,
                assistant: Some(outcome.assistant_buf@),
                provider_continuation: output::opt_continuation(outcome.provider_continuation),
                constrained: json::opt_json(outcome.constrained),
            },
        ],
        Err((code, message)) => seq![
            FrameView::Stderr { text: message@ + "\n"@ },
            bare_exit(code),
        ],
    }
}

/// The frames that end a request.
pub fn closing_frames(outcome: Result<RunOutcome, (u8, String)>) -> (frames: Vec<Frame>)
    ensures
        frame_views(frames@) == last_frames(outcome),
{
    match outcome {
        Ok(outcome) => {
            let frames = vec![
                Frame::Exit {
                    code: outcome.exit_code,
                    assistant: Some(outcome.assistant_buf),
                    provider_continuation: outcome.provider_continuation,
                    constrained: outcome.constrained,
                },
            ];
            assert(frame_views(frames@) =~= last_frames(Ok(outcome)));
            frames
        },
        Err((code, message)) => {
            let text = text::concat(message.as_str(), "\n");
            let frames = vec![Frame::Stderr { text }, bare_exit_frame(code)];
            assert(frame_views(frames@) =~= last_frames(Err((code, message))));
            frames
        },
    }
}

/// The exit code of a request.
pub fn exit_code(outcome: &Result<RunOutcome, (u8, String)>) -> (code: u8)
    ensures
        code == (match *outcome {
            Ok(outcome) => outcome.exit_code,
            Err((code, _)) => code,
        }),
{
    match outcome {
        Ok(outcome) => outcome.exit_code,
        Err((code, _)) => *code,
    }
}

/// A text, or a word for its absence.
pub open spec fn or_word(value: Option<Seq<char>>, word: Seq<char>) -> Seq<char> {
    match value {
        Some(text) => text,
        None => word,
    }
}

pub open spec fn bool_word(b: bool) -> Seq<char> {
    if b {
        "true"@
    } else {
        "false"@
    }
}

/// What the log says of a request.
pub open spec fn request_message(conn_id: u64, args: ClientView) -> Seq<char> {
    "#"@ + text::decimal(conn_id as nat) + " request model="@ + or_word(args.model, "<unset>"@)
        + " reasoning="@ + or_word(args.reasoning, "<none>"@) + " stream="@ + bool_word(args.stream)
        + " cache="@ + bool_word(args.cache is Some)
}

fn push_opt(line: &mut String, value: &Option<String>, word: &str)
    ensures
        final(line)@ == old(line)@ + or_word(text::opt(*value), word@),
{
    match value {
        Some(text) => line.append(text.as_str()),
        None => line.append(word),
    }
}

fn push_bool(line: &mut String, b: bool)
    ensures
        final(line)@ == old(line)@ + bool_word(b),
{
    line.append(
        if b {
            "true"
        } else {
            "false"
        },
    );
}

/// What the log says of a request.
pub fn describe_request(conn_id: u64, args: &Args) -> (message: String)
    ensures
        message@ == request_message(conn_id, args@.client),
{
    let number = text::decimal_text(conn_id);
    let mut line = text::concat3("#", number.as_str(), " request model=");
    push_opt(&mut line, &args.model, "<unset>");
    line.append(" reasoning=");
    push_opt(&mut line, &args.reasoning, "<none>");
    line.append(" stream=");
    push_bool(&mut line, args.stream);
    line.append(" cache=");
    push_bool(&mut line, args.cache.is_some());
    line
}

/// What the log says of the end of a request.
pub fn describe_end(conn_id: u64, code: u8, elapsed_ms: u64) -> (message: String)
    ensures
        message@ == "#"@ + text::decimal(conn_id as nat) + " done code="@ + text::decimal(
            code as nat,
        ) + " elapsed="@ + text::decimal(elapsed_ms as nat) + "ms"@,
{
    let number = text::decimal_text(conn_id);
    let mut line = text::concat3("#", number.as_str(), " done code=");
    let code = text::decimal_text(code as u64);
    line.append(code.as_str());
    line.append(" elapsed=");
    let elapsed = text::decimal_text(elapsed_ms);
    line.append(elapsed.as_str());
    line.append("ms");
    line
}

/// What the log says of another event of a connection.
pub fn describe_event(conn_id: u64, event: &str) -> (message: String)
    ensures
        message@ == "#"@ + text::decimal(conn_id as nat) + " "@ + event@,
{
    let number = text::decimal_text(conn_id);
    text::concat4("#", number.as_str(), " ", event)
}

/// A request runs with the secrets of the server, writes no file on its machine and keeps no
/// conversation there. A value of the client's wins, else the server's is used; a switch that
/// either turned on is on; the client's tools take the place of the server's, where it has any.
pub proof fn law_effective_args(server: ArgsView, client: ClientView)
    ensures
        ({
            let args = effective(server, client);
            let (ours, theirs, run) = (server.client, client, args.client);
            &&& args.key == server.key && args.url == server.url && args.quiet == server.quiet
            &&& run.out is None && run.stateful is None && run.stats
            &&& run.model == args::over(theirs.model, ours.model)
            &&& run.system == args::over(theirs.system, ours.system)
            &&& run.messages == args::over(theirs.messages, ours.messages)
            &&& run.reasoning == args::over(theirs.reasoning, ours.reasoning)
            &&& run.cache == args::over(theirs.cache, ours.cache)
            &&& run.temperature == args::over(theirs.temperature, ours.temperature)
            &&& run.max_tokens == args::over(theirs.max_tokens, ours.max_tokens)
            &&& run.schema == args::over(theirs.schema, ours.schema)
            &&& run.stream == (ours.stream || theirs.stream)
            &&& run.quick == (ours.quick || theirs.quick)
            &&& run.reasoning_summary == (ours.reasoning_summary || theirs.reasoning_summary)
            &&& run.completions == (ours.completions || theirs.completions)
            &&& run.simple == (ours.simple || theirs.simple)
            &&& theirs.tools.len() > 0 ==> run.tools == theirs.tools
            &&& theirs.tools.len() == 0 ==> run.tools == ours.tools
        }),
{
}

proof fn lemma_leading_zero(digits: Seq<char>)
    ensures
        text::number(seq!['0'] + digits) == text::number(digits),
    decreases digits.len(),
{
    let all = seq!['0'] + digits;
    if digits.len() == 0 {
        assert(all.drop_last() =~= digits);
        assert(all.last() == '0');
        assert(text::number(all.drop_last()) == 0);
    } else {
        lemma_leading_zero(digits.drop_last());
        assert(all.drop_last() =~= seq!['0'] + digits.drop_last());
    }
}

proof fn lemma_zero_padded(digits: Seq<char>, width: nat)
    requires
        digits.len() <= width,
    ensures
        zero_padded(digits, width).len() == width,
        text::number(zero_padded(digits, width)) == text::number(digits),
    decreases width - digits.len(),
{
    if digits.len() < width {
        lemma_leading_zero(digits);
        lemma_zero_padded(seq!['0'] + digits, width);
    }
}

proof fn lemma_field(n: nat, width: nat)
    requires
        n < 1000,
        width == 3 || width == 2 && n < 100,
    ensures
        zero_padded(text::decimal(n), width).len() == width,
        text::number(zero_padded(text::decimal(n), width)) == n,
{
    reveal_with_fuel(text::decimal, 3);
    text::law_decimal_says_the_number(n);
    lemma_zero_padded(text::decimal(n), width);
}

/// The time of day is written as hours, minutes, seconds and milliseconds, each with its full
/// width.
pub proof fn law_time_of_day(secs: u64, millis: u32)
    requires
        millis < 1000,
    ensures
        ({
            let time = time_of_day(secs, millis);
            &&& time.len() == 12
            &&& text::number(time.subrange(0, 2)) == (secs / 3600) % 24
            &&& time[2] == ':'
            &&& text::number(time.subrange(3, 5)) == (secs / 60) % 60
            &&& time[5] == ':'
            &&& text::number(time.subrange(6, 8)) == secs % 60
            &&& time[8] == '.'
            &&& text::number(time.subrange(9, 12)) == millis
        }),
{
    reveal_strlit(":");
    reveal_strlit(".");
    let hours = ((secs / 3600) % 24) as nat;
    let minutes = ((secs / 60) % 60) as nat;
    let seconds = (secs % 60) as nat;
    lemma_field(hours, 2);
    lemma_field(minutes, 2);
    lemma_field(seconds, 2);
    lemma_field(millis as nat, 3);
    let time = time_of_day(secs, millis);
    assert(time.subrange(0, 2) =~= zero_padded(text::decimal(hours), 2));
    assert(time.subrange(3, 5) =~= zero_padded(text::decimal(minutes), 2));
    assert(time.subrange(6, 8) =~= zero_padded(text::decimal(seconds), 2));
    assert(time.subrange(9, 12) =~= zero_padded(text::decimal(millis as nat), 3));
}

/// A request for the status is answered with the status and an end without a fault.
pub proof fn law_status_is_told(info: StatusView)
    ensures
        ({
            let frames = status_reply(info);
            &&& frames.len() == 2
            &&& frames[0] == (FrameView::Status { info })
            &&& frames[1] == (FrameView::Exit {
                code: 0,
                assistant: None,
                provider_continuation: None,
                constrained: None,
            })
        }),
{
}

/// A request ends with one frame that carries all that the client keeps of the answer; a request
/// that failed ends with the complaint, on a line, and its exit code.
pub proof fn law_last_frames(outcome: RunOutcome, code: u8, message: String)
    ensures
        ({
            let frames = last_frames(Ok(outcome));
            &&& frames.len() == 1
            &&& frames[0] == (FrameView::Exit {
                code: outcome.exit_code,
                assistant: Some(outcome.assistant_buf@),
                provider_continuation: output::opt_continuation(outcome.provider_continuation),
                constrained: json::opt_json(outcome.constrained),
            })
        }),
        ({
            let frames = last_frames(Err((code, message)));
            &&& frames.len() == 2
            &&& frames[0] == (FrameView::Stderr { text: message@ + "\n"@ })
            &&& frames[1] == (FrameView::Exit {
                code,
                assistant: None,
                provider_continuation: None,
                constrained: None,
            })
        }),
{
}

/// What is logged of a request names its connection, its model, its level of reasoning, and
/// whether it streams and has a cache.
pub proof fn law_what_is_logged(conn_id: u64, args: ClientView, model: Seq<char>, level: Seq<char>)
    requires
        args.model == Some(model),
        args.reasoning == Some(level),
        args.stream,
        args.cache is None,
    ensures
        request_message(conn_id, args) == "#"@ + text::decimal(conn_id as nat) + " request model="@
            + model + " reasoning="@ + level + " stream="@ + "true"@ + " cache="@ + "false"@,
        request_message(conn_id, ClientView { model: None, reasoning: None, ..args }) == "#"@
            + text::decimal(conn_id as nat) + " request model="@ + "<unset>"@ + " reasoning="@
            + "<none>"@ + " stream="@ + "true"@ + " cache="@ + "false"@,
        request_message(conn_id, ClientView { stream: false, cache: Some(model), ..args }) == "#"@
            + text::decimal(conn_id as nat) + " request model="@ + model + " reasoning="@ + level
            + " stream="@ + "false"@ + " cache="@ + "true"@,
{
}

/// The run of a request on a server has the settings of the client where it gives them, and
/// those of the server else. It serves nobody, asks no server, writes to no file and keeps no
/// conversation; its stats are always made.
pub proof fn law_run_on_a_server(server: ArgsView, client: ClientView)
    ensures
        ({
            let args = effective(server, client);
            let run = args.client;
            &&& !args.serve && !args.ipc && !args.status && args.ipc_path is None
            &&& args.key == server.key
            &&& args.url == server.url
            &&& run.out is None && run.stateful is None && run.stats
            &&& client.model is Some ==> run.model == client.model
            &&& client.model is None ==> run.model == server.client.model
            &&& client.temperature is Some ==> run.temperature == client.temperature
            &&& client.temperature is None ==> run.temperature == server.client.temperature
            &&& client.schema is Some ==> run.schema == client.schema
            &&& client.schema is None ==> run.schema == server.client.schema
            &&& client.cache is Some ==> run.cache == client.cache
            &&& client.cache is None ==> run.cache == server.client.cache
            &&& client.messages is Some ==> run.messages == client.messages
            &&& client.tools.len() > 0 ==> run.tools == client.tools
            &&& client.tools.len() == 0 ==> run.tools == server.client.tools
            &&& client.stream ==> run.stream
            &&& client.simple ==> run.simple
            &&& args.mode() is Local
        }),
{
}

} // verus!
