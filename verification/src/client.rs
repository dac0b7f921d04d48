//! The client of a server: the request it sends, and what it does with the frames that come.
use vstd::prelude::*;
use vstd::string::*;

use crate::args::{Args, ArgsView, ClientView};
use crate::bridge;
use crate::conversation;
use crate::conversation::{Message, MessageView};
use crate::ipc::{Frame, FrameView, Request, RequestView, StatusInfo, StatusView};
use crate::json;
use crate::json::{Json, JsonView};
use crate::output;
use crate::output::{ContinuationView, ProviderContinuation};
use crate::run;
use crate::run::{GatheredView, Surroundings};
use crate::server;
use crate::text;
use crate::tools;
use crate::tools::ToolSourceView;

verus! {

/// The tool sources that a client sends: the definitions it found, where it named any source.
pub open spec fn sent_tools(
    sources: Seq<ToolSourceView>,
    found: Option<Seq<JsonView>>,
) -> Seq<ToolSourceView> {
    match found {
        Some(items) => if sources.len() > 0 && items.len() > 0 {
            seq![ToolSourceView::Resolved(items)]
        } else {
            Seq::empty()
        },
        None => Seq::empty(),
    }
}

/// The request that a client sends. What stands in files of the client's, and what came over
/// its standard input, is read before: the request holds the whole conversation, the tool
/// definitions and the schema themselves.
pub open spec fn sent_request(
    args: ArgsView,
    messages: Seq<MessageView>,
    found_tools: Option<Seq<JsonView>>,
    schema: Option<JsonView>,
) -> RequestView {
    RequestView::Run {
        args: ClientView {
            stateful: None,
            out: None,
            quick: false,
            messages: Some(bridge::compact(conversation::kept_messages(messages))),
            tools: sent_tools(args.client.tools, found_tools),
            schema: match schema {
                Some(schema) => Some(bridge::compact(schema)),
                None => None,
            },
            ..args.client
        },
        stdin: Seq::empty(),
    }
}

/// What a server finds a request to be about, whatever it finds on its own machine.
pub open spec fn found_by(
    server: ArgsView,
    request: RequestView,
    found: Surroundings,
) -> Result<GatheredView, Seq<char>> {
    match request {
        RequestView::Run { args, .. } => run::gathered(server::effective(server, args), found),
        RequestView::Status => Err(Seq::empty()),
    }
}

/// Whether a server adds nothing of its own to a request about these things: it has no tools
/// or schema where the client has none, and does not take the messages for one text.
pub open spec fn adds_nothing(server: ArgsView, request: GatheredView) -> bool {
    &&& !server.client.quick
    &&& request.tools is None ==> server.client.tools.len() == 0
    &&& request.schema is None ==> server.client.schema is None
}

/// Whether a request about these things survives the way to a server.
pub open spec fn travels(request: GatheredView) -> bool {
    &&& bridge::round_trips(conversation::kept_messages(request.conversation))
    &&& forall|i: int|
        0 <= i < request.conversation.len() ==> (#[trigger] request.conversation[i]).valid()
    &&& tools::are_tools(request.tools)
    &&& request.schema matches Some(schema) ==> schema is Object && bridge::round_trips(schema)
}

/// Builds the request that a client sends. The server finds in it what the client found, and
/// looks at no file for it.
pub fn run_request(
    args: &Args,
    messages: &[Message],
    found_tools: Option<Vec<Json>>,
    schema: &Option<Json>,
) -> (request: Request)
    ensures
        request@ == sent_request(
            args@,
            conversation::message_views(messages@),
            json::opt_views(found_tools),
            json::opt_json(*schema),
        ),
        args@.client.tools.len() > 0 || found_tools is None ==> ({
            let whole = GatheredView {
                conversation: conversation::message_views(messages@),
                tools: json::opt_views(found_tools),
                schema: json::opt_json(*schema),
            };
            travels(whole) ==> forall|server: ArgsView, found: Surroundings|
                adds_nothing(server, whole) ==> #[trigger] found_by(server, request@, found) == Ok::<
                    GatheredView,
                    Seq<char>,
                >(whole)
        }),
{
    let ghost views = conversation::message_views(messages@);
    let ghost whole = GatheredView {
        conversation: views,
        tools: json::opt_views(found_tools),
        schema: json::opt_json(*schema),
    };
    let raw = conversation::keep(messages).to_compact();
    proof {
        text::lemma_trimmed(raw@);
        if travels(whole) {
            conversation::law_kept_messages_read_back(views);
        }
    }
    let mut client = args.to_client();
    client.stateful = None;
    client.out = None;
    client.quick = false;
    client.messages = Some(raw);
    client.tools = if args.tools.len() > 0 {
        match found_tools {
            Some(items) => tools::resolved_sources(items),
            None => Vec::new(),
        }
    } else {
        Vec::new()
    };
    client.schema = match schema {
        Some(schema) => Some(schema.to_compact()),
        None => None,
    };
    let stdin = String::new();
    assert(stdin@ =~= Seq::empty());
    assert(client@.tools =~= sent_tools(args@.client.tools, json::opt_views(found_tools)));
    let request = Request::Run { args: client, stdin };
    proof {
        if travels(whole) && (args@.client.tools.len() > 0 || found_tools is None) {
            assert(conversation::input_messages(raw@, false) == Ok::<Seq<MessageView>, Seq<char>>(
                views,
            ));
            assert forall|server: ArgsView, found: Surroundings|
                adds_nothing(server, whole) implies #[trigger] found_by(server, request@, found)
                == Ok::<GatheredView, Seq<char>>(whole) by {
                let reads = tools::read_views(found.tool_files@);
                match whole.tools {
                    Some(items) => tools::lemma_found_again(items, reads),
                    None => {
                        assert(server.client.tools =~= Seq::empty());
                    },
                }
                assert(Seq::<MessageView>::empty() + views =~= views);
            }
        }
    }
    request
}

/// The facts about a server, a line each.
pub open spec fn status_text(info: StatusView) -> Seq<char> {
    "socket:           "@ + info.socket + "\n"@ + "pid:              "@ + text::decimal(
        info.pid as nat,
    ) + "\n"@ + "uptime:           "@ + text::decimal(info.uptime_ms as nat) + " ms\n"@
        + "requests served:  "@ + text::decimal(info.requests_served as nat) + "\n"@
        + "model:            "@ + (match info.model {
        Some(model) => model,
        None => "<unset>"@,
    }) + "\n"@
}

/// The facts about a server, a line each.
pub fn format_status(info: &StatusInfo) -> (text: String)
    ensures
        text@ == status_text(info@),
{
    let mut text = text::concat3("socket:           ", info.socket.as_str(), "\n");
    text.append("pid:              ");
    let pid = text::decimal_text(info.pid as u64);
    text.append(pid.as_str());
    text.append("\n");
    text.append("uptime:           ");
    let uptime = text::decimal_text(info.uptime_ms);
    text.append(uptime.as_str());
    text.append(" ms\n");
    text.append("requests served:  ");
    let served = text::decimal_text(info.requests_served);
    text.append(served.as_str());
    text.append("\n");
    text.append("model:            ");
    match &info.model {
        Some(model) => text.append(model.as_str()),
        None => text.append("<unset>"),
    }
    text.append("\n");
    text
}

/// What a frame makes a client show.
#[derive(Debug, PartialEq, Eq)]
pub enum Show {
    Stdout(String),
    Stderr(String),
    Nothing,
}

/// What is shown, and where.
pub enum ShowView {
    Stdout(Seq<char>),
    Stderr(Seq<char>),
    Nothing,
}

impl View for Show {
    type V = ShowView;

    open spec fn view(&self) -> ShowView {
        match self {
            Show::Stdout(text) => ShowView::Stdout(text@),
            Show::Stderr(text) => ShowView::Stderr(text@),
            Show::Nothing => ShowView::Nothing,
        }
    }
}

/// A client that listens to a server.
pub struct Listener {
    /// Whether the client asked about the status.
    asks_status: bool,
    exit_code: u8,
    assistant: Option<String>,
    provider_continuation: Option<ProviderContinuation>,
    constrained: Option<Json>,
    ended: bool,
}

pub struct ListenerView {
    pub asks_status: bool,
    /// The exit code; that of a failure until the server gives one.
    pub exit_code: u8,
    /// The answer, where there is one to keep.
    pub assistant: Option<Seq<char>>,
    pub provider_continuation: Option<ContinuationView>,
    pub constrained: Option<JsonView>,
    /// Whether the last frame has come.
    pub ended: bool,
}

impl View for Listener {
    type V = ListenerView;

    closed spec fn view(&self) -> ListenerView {
        ListenerView {
            asks_status: self.asks_status,
            exit_code: self.exit_code,
            assistant: text::opt(self.assistant),
            provider_continuation: output::opt_continuation(self.provider_continuation),
            constrained: json::opt_json(self.constrained),
            ended: self.ended,
        }
    }
}

impl ListenerView {
    /// A client that has heard nothing yet.
    pub open spec fn start(asks_status: bool) -> ListenerView {
        ListenerView {
            asks_status,
            exit_code: 1,
            assistant: None,
            provider_continuation: None,
            constrained: None,
            ended: false,
        }
    }

    /// The client after a frame.
    pub open spec fn heard(self, frame: FrameView) -> ListenerView {
        match frame {
            FrameView::Exit {
                code,
                assistant,
                provider_continuation,
                constrained,
            } => ListenerView {
                exit_code: code,
                assistant,
                provider_continuation,
                constrained,
                ended: true,
                ..self
            },
            _ => self,
        }
    }

    /// What a frame makes the client show. Facts about the server are shown only to a client
    /// that asked for them.
    pub open spec fn shows(self, frame: FrameView) -> ShowView {
        match frame {
            FrameView::Stdout { text } => ShowView::Stdout(text),
            FrameView::Stderr { text } => ShowView::Stderr(text),
            FrameView::Status { info } => if self.asks_status {
                ShowView::Stdout(status_text(info))
            } else {
                ShowView::Nothing
            },
            FrameView::Exit { .. } => ShowView::Nothing,
        }
    }
}

impl Listener {
    /// A client that has heard nothing yet.
    pub fn new(asks_status: bool) -> (listener: Listener)
        ensures
            listener@ == ListenerView::start(asks_status),
    {
        Listener {
            asks_status,
            exit_code: 1,
            assistant: None,
            provider_continuation: None,
            constrained: None,
            ended: false,
        }
    }

    /// Takes a frame.
    pub fn take(&mut self, frame: Frame) -> (show: Show)
        ensures
            final(self)@ == old(self)@.heard(frame@),
            show@ == old(self)@.shows(frame@),
    {
        match frame {
            Frame::Stdout { text } => Show::Stdout(text),
            Frame::Stderr { text } => Show::Stderr(text),
            Frame::Status { info } => if self.asks_status {
                Show::Stdout(format_status(&info))
            } else {
                Show::Nothing
            },
            Frame::Exit { code, assistant, provider_continuation, constrained } => {
                self.exit_code = code;
                self.assistant = assistant;
                self.provider_continuation = provider_continuation;
                self.constrained = constrained;
                self.ended = true;
                Show::Nothing
            },
        }
    }

    /// Whether the last frame has come.
    pub fn has_ended(&self) -> (result: bool)
        ensures
            result == self@.ended,
    {
        self.ended
    }

    pub fn exit_code(&self) -> (code: u8)
        ensures
            code == self@.exit_code,
    {
        self.exit_code
    }

    /// Adds the answer to the conversation that the client keeps, where there is an answer.
    /// Says whether there was one.
    pub fn keep_turn(&self, conversation: &mut Vec<Message>) -> (kept: bool)
        ensures
            kept == (self@.assistant is Some),
            conversation::message_views(final(conversation)@) == conversation::message_views(
                old(conversation)@,
            ) + (match self@.assistant {
                Some(content) => conversation::assistant_turn(
                    content,
                    self@.provider_continuation,
                    self@.constrained,
                ),
                None => Seq::empty(),
            }),
    {
        match &self.assistant {
            Some(content) => {
                conversation::push_assistant_turn(
                    conversation,
                    content.clone(),
                    &self.provider_continuation,
                    &self.constrained,
                );
                true
            },
            None => {
                assert(conversation::message_views(conversation@) =~= conversation::message_views(
                    conversation@,
                ) + Seq::empty());
                false
            },
        }
    }
}

/// The complaint about a socket that cannot be connected to. `unreachable` is whether nobody
/// listens there.
pub fn connect_error(path: &str, unreachable: bool, message: &str) -> (error: String)
    ensures
        error@ == (if unreachable {
            "connection "@ + path@ + " unreachable (is `mii-text --serve` running?)"@
        } else {
            "connect "@ + path@ + ": "@ + message@
        }),
{
    if unreachable {
        text::concat3("connection ", path, " unreachable (is `mii-text --serve` running?)")
    } else {
        text::concat4("connect ", path, ": ", message)
    }
}

/// Secrets never travel: the request is the same whatever key and URL the client was given.
pub proof fn law_secrets_stay(
    one: ArgsView,
    other: ArgsView,
    messages: Seq<MessageView>,
    found_tools: Option<Seq<JsonView>>,
    schema: Option<JsonView>,
)
    requires
        one.client == other.client,
    ensures
        sent_request(one, messages, found_tools, schema) == sent_request(
            other,
            messages,
            found_tools,
            schema,
        ),
{
}

/// What a client keeps of an answer over a server is what it would keep of the answer itself.
pub proof fn law_listener_keeps_the_answer(
    before: ListenerView,
    outcome: run::RunOutcome,
)
    ensures
        ({
            let frames = server::last_frames(Ok(outcome));
            let after = before.heard(frames[0]);
            &&& frames.len() == 1
            &&& after.ended
            &&& after.exit_code == outcome.exit_code
            &&& after.assistant == Some(outcome.assistant_buf@)
            &&& after.provider_continuation == output::opt_continuation(
                outcome.provider_continuation,
            )
            &&& after.constrained == json::opt_json(outcome.constrained)
        }),
{
}

/// The complaint about a failed request reaches the client's diagnostics, and its exit code the
/// client's; nothing is kept.
pub proof fn law_listener_reports_failure(asks_status: bool, code: u8, message: String)
    ensures
        ({
            let start = ListenerView::start(asks_status);
            let frames = server::last_frames(Err((code, message)));
            let after = start.heard(frames[0]).heard(frames[1]);
            &&& frames.len() == 2
            &&& start.shows(frames[0]) == ShowView::Stderr(message@ + "\n"@)
            &&& after.ended
            &&& after.exit_code == code
            &&& after.assistant is None
        }),
{
}

/// What is sent to a server: the arguments as they are, with the messages, the tools and the
/// schema in place of where they were to be found. What concerns the files of the client stays.
pub proof fn law_what_is_sent(
    args: ArgsView,
    messages: Seq<MessageView>,
    found_tools: Option<Seq<JsonView>>,
    schema: Option<JsonView>,
)
    ensures
        sent_request(args, messages, found_tools, schema) matches RequestView::Run {
            args: sent,
            stdin,
        } && {
            let client = args.client;
            &&& stdin.len() == 0
            &&& sent.messages == Some(bridge::compact(conversation::kept_messages(messages)))
            &&& sent.schema == (match schema {
                Some(schema) => Some(bridge::compact(schema)),
                None => None,
            })
            &&& found_tools is Some && found_tools->0.len() > 0 && client.tools.len() > 0
                ==> sent.tools.len() == 1 && sent.tools[0] == ToolSourceView::Resolved(
                found_tools->0,
            )
            &&& found_tools is None || found_tools->0.len() == 0 || client.tools.len() == 0
                ==> sent.tools.len() == 0
            &&& sent.out is None && sent.stateful is None && !sent.quick
            &&& sent.model == client.model
            &&& sent.system == client.system
            &&& sent.reasoning == client.reasoning
            &&& sent.temperature == client.temperature
            &&& sent.max_tokens == client.max_tokens
            &&& sent.cache == client.cache
            &&& sent.stream == client.stream
            &&& sent.stats == client.stats
            &&& sent.reasoning_summary == client.reasoning_summary
            &&& sent.completions == client.completions
            &&& sent.simple == client.simple
        },
{
}

/// What a listener does with a frame: output and complaints are shown as they are, the status
/// only where it was asked for. The last frame says what the run came to; no other frame
/// changes what is known of that.
pub proof fn law_what_a_listener_does(
    listener: ListenerView,
    text: Seq<char>,
    info: StatusView,
    code: u8,
    assistant: Option<Seq<char>>,
)
    ensures
        listener.shows(FrameView::Stdout { text }) == ShowView::Stdout(text),
        listener.shows(FrameView::Stderr { text }) == ShowView::Stderr(text),
        listener.asks_status ==> listener.shows(FrameView::Status { info }) == ShowView::Stdout(
            status_text(info),
        ),
        !listener.asks_status ==> listener.shows(FrameView::Status { info }) is Nothing,
        listener.heard(FrameView::Stdout { text }) == listener,
        listener.heard(FrameView::Stderr { text }) == listener,
        listener.heard(FrameView::Status { info }) == listener,
        ({
            let after = listener.heard(
                FrameView::Exit {
                    code,
                    assistant,
                    provider_continuation: None,
                    constrained: None,
                },
            );
            &&& after.ended
            &&& after.exit_code == code
            &&& after.assistant == assistant
        }),
        ListenerView::start(listener.asks_status).exit_code == 1,
        !ListenerView::start(listener.asks_status).ended,
        ListenerView::start(listener.asks_status).assistant is None,
{
}

/// The status says socket, process, uptime, requests and model, each on a line.
pub proof fn law_status_lines(info: StatusView, model: Seq<char>)
    ensures
        ({
            let head = "socket:           "@ + info.socket + "\n"@ + "pid:              "@
                + text::decimal(info.pid as nat) + "\n"@ + "uptime:           "@ + text::decimal(
                info.uptime_ms as nat,
            ) + " ms\n"@ + "requests served:  "@ + text::decimal(info.requests_served as nat)
                + "\n"@ + "model:            "@;
            &&& info.model == Some(model) ==> status_text(info) == head + model + "\n"@
            &&& info.model is None ==> status_text(info) == head + "<unset>"@ + "\n"@
        }),
{
}

} // verus!
