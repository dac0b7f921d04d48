//! Requests to providers and their replies. A call runs outside; what is sent, and what each
//! piece of the reply does to the answer, stands here.
use vstd::prelude::*;
use vstd::string::*;

use crate::args;
use crate::conversation;
use crate::conversation::{Message, MessageView};
use crate::json;
use crate::json::{Json, JsonView};
use crate::output;
use crate::output::{
    ContinuationView, OutputWriter, Piece, Prospect, ProspectView, ProviderContinuation, WriterView,
};
use crate::sink::Sink;
use crate::text;

pub mod chat;
pub mod responses;

verus! {

/// What a request is made of.
pub struct CallParams<'a> {
    pub model: &'a str,
    pub system: &'a Option<String>,
    pub messages: &'a [Message],
    pub stream: bool,
    pub reasoning: &'a Option<String>,
    pub temperature: &'a Option<Json>,
    pub max_tokens: u32,
    pub reasoning_summary: bool,
    pub stats: bool,
    pub tools: &'a Option<Vec<Json>>,
    pub completions: bool,
    pub simple: bool,
    /// The schema that constrains the answer.
    pub schema: &'a Option<Json>,
    /// A stream ends with the whole answer.
    pub emit_done: bool,
}

pub struct ParamsView {
    pub model: Seq<char>,
    pub system: Option<Seq<char>>,
    pub messages: Seq<MessageView>,
    pub stream: bool,
    pub reasoning: Option<Seq<char>>,
    pub temperature: Option<JsonView>,
    pub max_tokens: u32,
    pub reasoning_summary: bool,
    pub stats: bool,
    pub tools: Option<Seq<JsonView>>,
    pub completions: bool,
    pub simple: bool,
    pub schema: Option<JsonView>,
    pub emit_done: bool,
}

impl<'a> View for CallParams<'a> {
    type V = ParamsView;

    open spec fn view(&self) -> ParamsView {
        ParamsView {
            model: self.model@,
            system: text::opt(*self.system),
            messages: conversation::message_views(self.messages@),
            stream: self.stream,
            reasoning: text::opt(*self.reasoning),
            temperature: json::opt_json(*self.temperature),
            max_tokens: self.max_tokens,
            reasoning_summary: self.reasoning_summary,
            stats: self.stats,
            tools: json::opt_views(*self.tools),
            completions: self.completions,
            simple: self.simple,
            schema: json::opt_json(*self.schema),
            emit_done: self.emit_done,
        }
    }
}

/// A level of reasoning as a value, where one is asked for; or the complaint about it.
pub open spec fn effort(reasoning: Option<Seq<char>>) -> Result<Option<JsonView>, Seq<char>> {
    match reasoning {
        None => Ok(None),
        Some(level) => if args::is_reasoning_level(level) {
            Ok(Some(JsonView::Text(level)))
        } else {
            Err(args::reasoning_complaint(level))
        },
    }
}

pub(crate) fn effort_of(reasoning: &Option<String>) -> (result: Result<Option<Json>, String>)
    ensures
        match result {
            Ok(value) => effort(text::opt(*reasoning)) == Ok::<Option<JsonView>, Seq<char>>(
                json::opt_json(value),
            ),
            Err(message) => effort(text::opt(*reasoning)) == Err::<Option<JsonView>, Seq<char>>(
                message@,
            ),
        },
{
    match reasoning {
        None => Ok(None),
        Some(level) => match args::map_reasoning(level.as_str()) {
            Ok(mapped) => Ok(Some(Json::text(mapped))),
            Err(message) => Err(message),
        },
    }
}

/// What a call came to.
pub struct CallOutcome {
    pub assistant_buf: String,
    pub full_output: String,
    pub prospect: Prospect,
    pub events: Vec<Json>,
    pub usage: Option<Json>,
    pub model_used: Option<String>,
}

pub struct OutcomeView {
    pub assistant_buf: Seq<char>,
    pub full_output: Seq<char>,
    pub prospect: ProspectView,
    pub events: Seq<JsonView>,
    pub usage: Option<JsonView>,
    pub model_used: Option<Seq<char>>,
}

impl View for CallOutcome {
    type V = OutcomeView;

    open spec fn view(&self) -> OutcomeView {
        OutcomeView {
            assistant_buf: self.assistant_buf@,
            full_output: self.full_output@,
            prospect: self.prospect@,
            events: json::views(self.events@),
            usage: json::opt_json(self.usage),
            model_used: text::opt(self.model_used),
        }
    }
}

impl Clone for CallOutcome {
    fn clone(&self) -> (copy: CallOutcome)
        ensures
            copy@ == self@,
    {
        CallOutcome {
            assistant_buf: self.assistant_buf.clone(),
            full_output: self.full_output.clone(),
            prospect: self.prospect.clone(),
            events: json::copy_all(self.events.as_slice()),
            usage: json::copy_opt(&self.usage),
            model_used: text::copy_opt(&self.model_used),
        }
    }
}

/// Whether the base URL is that of OpenAI: the default, or one that names its host.
pub open spec fn names_openai(base_url: Option<Seq<char>>) -> bool {
    match base_url {
        None => true,
        Some(url) => text::occurs("api.openai.com"@, url),
    }
}

pub fn is_openai(base_url: Option<&str>) -> (result: bool)
    ensures
        result == names_openai(json::opt_text(base_url)),
{
    match base_url {
        None => true,
        Some(url) => text::contains(url, "api.openai.com"),
    }
}

/// Whether a request goes to the Chat Completions API: it was asked for, or the provider is
/// another than OpenAI.
pub fn use_chat_completions(completions: bool, base_url: Option<&str>) -> (result: bool)
    ensures
        result == (completions || !names_openai(json::opt_text(base_url))),
{
    completions || !is_openai(base_url)
}

/// Whether reasoning is shown: it was asked for, or the output is one structured object.
pub fn should_include_reasoning(reasoning_summary: bool, stream: bool, simple: bool) -> (result:
    bool)
    ensures
        result == (reasoning_summary || (!stream && !simple)),
{
    reasoning_summary || (!stream && !simple)
}

/// A failure that is not the provider's: the exit code and the message.
pub fn own_error(message: String) -> (error: (u8, String))
    ensures
        error.0 == 1,
        error.1@ == message@,
{
    (1, message)
}

/// The failure of a call: the exit code and the message.
pub fn api_error(message: &str) -> (error: (u8, String))
    ensures
        error.0 == 2,
        error.1@ == "api error: "@ + message@,
{
    (2, text::concat("api error: ", message))
}

/// The failure of a call under way: the exit code and the message.
pub fn api_stream_error(message: &str) -> (error: (u8, String))
    ensures
        error.0 == 2,
        error.1@ == "api stream error: "@ + message@,
{
    (2, text::concat("api stream error: ", message))
}

/// A request, and the API that it goes to.
#[derive(Debug, PartialEq)]
pub enum Outgoing {
    Chat(Json),
    Responses(Json),
}

pub enum OutgoingView {
    Chat(JsonView),
    Responses(JsonView),
}

impl View for Outgoing {
    type V = OutgoingView;

    open spec fn view(&self) -> OutgoingView {
        match self {
            Outgoing::Chat(body) => OutgoingView::Chat(body@),
            Outgoing::Responses(body) => OutgoingView::Responses(body@),
        }
    }
}

/// The request of a call, or the complaint that stops it before the provider is asked.
pub open spec fn wanted_request(params: ParamsView, base_url: Option<Seq<char>>) -> Result<
    OutgoingView,
    Seq<char>,
> {
    if params.completions || !names_openai(base_url) {
        match chat::body(params) {
            Ok(body) => Ok(OutgoingView::Chat(body)),
            Err(message) => Err(message),
        }
    } else {
        match responses::body(params) {
            Ok(body) => Ok(OutgoingView::Responses(body)),
            Err(message) => Err(message),
        }
    }
}

/// Builds the request of a call for the API that it goes to. What stops it here is no failure of
/// the provider.
pub fn outgoing(params: &CallParams<'_>, base_url: Option<&str>) -> (result: Result<
    Outgoing,
    (u8, String),
>)
    ensures
        match wanted_request(params@, json::opt_text(base_url)) {
            Ok(request) => result matches Ok(found) && found@ == request,
            Err(message) => result matches Err((code, found)) && code == 1 && found@ == message,
        },
{
    if use_chat_completions(params.completions, base_url) {
        match chat::request_body(params) {
            Ok(body) => Ok(Outgoing::Chat(body)),
            Err(message) => Err(own_error(message)),
        }
    } else {
        match responses::request_body(params) {
            Ok(body) => Ok(Outgoing::Responses(body)),
            Err(message) => Err(own_error(message)),
        }
    }
}

/// A call under way: the answer as far as it has arrived.
pub struct Session {
    output: OutputWriter,
    full_output: String,
    tool_calls: Vec<Json>,
    usage: Option<Json>,
    model_used: Option<String>,
    first_token: bool,
}

pub struct SessionView {
    pub writer: WriterView,
    /// What was written so far.
    pub full_output: Seq<char>,
    pub tool_calls: Seq<JsonView>,
    pub usage: Option<JsonView>,
    pub model_used: Option<Seq<char>>,
    /// Whether there was a first sign of an answer.
    pub first_token: bool,
}

impl View for Session {
    type V = SessionView;

    closed spec fn view(&self) -> SessionView {
        SessionView {
            writer: self.output@,
            full_output: self.full_output@,
            tool_calls: json::views(self.tool_calls@),
            usage: json::opt_json(self.usage),
            model_used: text::opt(self.model_used),
            first_token: self.first_token,
        }
    }
}

impl SessionView {
    /// A call of which nothing has arrived.
    pub open spec fn start(writer: WriterView) -> SessionView {
        SessionView {
            writer,
            full_output: Seq::empty(),
            tool_calls: Seq::empty(),
            usage: None,
            model_used: None,
            first_token: false,
        }
    }

    pub open spec fn after_reasoning(self, delta: Seq<char>) -> SessionView {
        SessionView {
            writer: self.writer.after_reasoning(delta),
            full_output: self.full_output + text::joined(self.writer.reasoning_chunks(delta)),
            first_token: self.first_token || self.writer.reasoning_counts(delta),
            ..self
        }
    }

    pub open spec fn after_content(self, delta: Seq<char>) -> SessionView {
        SessionView {
            writer: self.writer.after_content(delta),
            full_output: self.full_output + text::joined(self.writer.content_chunks(delta)),
            first_token: self.first_token || delta.len() > 0,
            ..self
        }
    }

    /// The model is noted the first time it is named.
    pub open spec fn with_model(self, model: Option<Seq<char>>) -> SessionView {
        SessionView {
            model_used: match self.model_used {
                Some(known) => Some(known),
                None => model,
            },
            ..self
        }
    }

    /// A report on the usage takes the place of an earlier one; null is none.
    pub open spec fn with_usage(self, usage: Option<JsonView>) -> SessionView {
        SessionView {
            usage: match usage {
                None => self.usage,
                Some(JsonView::Null) => self.usage,
                Some(usage) => Some(usage),
            },
            ..self
        }
    }

    /// The writer with the calls that came with the answer.
    pub open spec fn complete_writer(self) -> WriterView {
        self.writer.with_tool_calls(self.tool_calls)
    }

    /// The call after its end.
    pub open spec fn after_finish(self) -> SessionView {
        SessionView {
            writer: self.complete_writer().after_finish(),
            full_output: self.full_output + text::joined(self.complete_writer().finish_chunks()),
            ..self
        }
    }
}

/// Whether two calls came to the same answer, in whatever way it is shown.
pub open spec fn same_answer(one: SessionView, other: SessionView) -> bool {
    &&& one.writer.prospect == other.writer.prospect
    &&& one.writer.events == other.writer.events
    &&& one.writer.final_events_recorded == other.writer.final_events_recorded
    &&& one.tool_calls == other.tool_calls
    &&& one.usage == other.usage
    &&& one.model_used == other.model_used
}

/// Whether a call came to where it is by these pieces and this continuation.
pub open spec fn came_by(
    session: SessionView,
    start: WriterView,
    pieces: Seq<Piece>,
    continuation: Option<ContinuationView>,
) -> bool {
    &&& session.writer == (match continuation {
        Some(continuation) => start.after_pieces(pieces).with_continuation(continuation),
        None => start.after_pieces(pieces),
    })
    &&& session.full_output == text::joined(start.piece_chunks(pieces))
}

/// A piece of reasoning is one piece more.
pub(crate) proof fn lemma_came_by_reasoning(
    session: SessionView,
    start: WriterView,
    pieces: Seq<Piece>,
    continuation: Option<ContinuationView>,
    delta: Seq<char>,
)
    requires
        came_by(session, start, pieces, continuation),
    ensures
        came_by(
            session.after_reasoning(delta),
            start,
            pieces.push(Piece::Reasoning(delta)),
            continuation,
        ),
{
    let more = pieces.push(Piece::Reasoning(delta));
    assert(more.drop_last() =~= pieces);
    let before = start.after_pieces(pieces);
    text::lemma_joined_add(start.piece_chunks(pieces), before.reasoning_chunks(delta));
}

/// A piece of the answer is one piece more.
pub(crate) proof fn lemma_came_by_content(
    session: SessionView,
    start: WriterView,
    pieces: Seq<Piece>,
    continuation: Option<ContinuationView>,
    delta: Seq<char>,
)
    requires
        came_by(session, start, pieces, continuation),
    ensures
        came_by(
            session.after_content(delta),
            start,
            pieces.push(Piece::Content(delta)),
            continuation,
        ),
{
    let more = pieces.push(Piece::Content(delta));
    assert(more.drop_last() =~= pieces);
    let before = start.after_pieces(pieces);
    text::lemma_joined_add(start.piece_chunks(pieces), before.content_chunks(delta));
}

/// Whether the whole output of a call is what a replay of its answer shows in the same way.
pub open spec fn replays(session: SessionView) -> bool {
    let writer = session.writer;
    session.full_output == output::cached_text(
        writer.prospect,
        Some(writer.events),
        writer.simple,
        writer.stream,
        writer.emit_reasoning,
    )
}

/// Whether an answer can be replayed as it was shown: only of plain text that is streamed
/// something is asked.
pub open spec fn can_replay(start: WriterView, pieces: Seq<Piece>, calls: Seq<JsonView>) -> bool {
    start.simple && start.stream ==> output::plain_stream_replays(
        start.emit_reasoning,
        pieces,
        calls,
    )
}

proof fn lemma_modes_stay(start: WriterView, pieces: Seq<Piece>)
    ensures
        ({
            let writer = start.after_pieces(pieces);
            &&& writer.simple == start.simple
            &&& writer.stream == start.stream
            &&& writer.emit_reasoning == start.emit_reasoning
        }),
    decreases pieces.len(),
{
    if pieces.len() > 0 {
        lemma_modes_stay(start, pieces.drop_last());
    }
}

/// A call that came by pieces replays once it has ended.
pub(crate) proof fn lemma_ended_call_replays(
    session: SessionView,
    start: WriterView,
    pieces: Seq<Piece>,
    continuation: Option<ContinuationView>,
)
    requires
        came_by(session, start, pieces, continuation),
        start == WriterView::start(start.simple, start.stream, start.emit_reasoning, true),
        can_replay(start, pieces, session.tool_calls),
    ensures
        replays(session.after_finish()),
{
    let told = start.after_pieces(pieces).with_rest(session.tool_calls, continuation);
    assert(told == session.complete_writer());
    lemma_modes_stay(start, pieces);
    text::lemma_joined_add(start.piece_chunks(pieces), told.finish_chunks());
    if start.simple && start.stream {
        output::law_plain_stream_replays(
            start.emit_reasoning,
            pieces,
            session.tool_calls,
            continuation,
        );
    } else {
        output::law_replay_shows_what_was_shown(
            start.simple,
            start.stream,
            start.emit_reasoning,
            pieces,
            session.tool_calls,
            continuation,
        );
    }
}

/// Two calls that came to the same answer end with the same answer.
pub proof fn law_same_answer_at_the_end(one: SessionView, other: SessionView)
    requires
        same_answer(one, other),
    ensures
        same_answer(one.after_finish(), other.after_finish()),
{
}

impl SessionView {
    /// What a finished call came to.
    pub open spec fn outcome(self) -> OutcomeView {
        OutcomeView {
            assistant_buf: self.writer.prospect.content,
            full_output: self.full_output,
            prospect: self.writer.prospect,
            events: self.writer.events,
            usage: self.usage,
            model_used: self.model_used,
        }
    }
}

impl Session {
    /// Starts a call.
    pub fn new(params: &CallParams<'_>) -> (session: Session)
        ensures
            session@ == SessionView::start(
                WriterView::start(
                    params.simple,
                    params.stream,
                    params.reasoning_summary || (!params.stream && !params.simple),
                    params.emit_done,
                ),
            ),
    {
        let emit_reasoning = should_include_reasoning(
            params.reasoning_summary,
            params.stream,
            params.simple,
        );
        let session = Session {
            output: OutputWriter::with_done(
                params.simple,
                params.stream,
                emit_reasoning,
                params.emit_done,
            ),
            full_output: String::new(),
            tool_calls: Vec::new(),
            usage: None,
            model_used: None,
            first_token: false,
        };
        assert(session@.full_output =~= Seq::empty());
        assert(session@.tool_calls =~= Seq::empty());
        session
    }

    /// Whether there was a first sign of an answer.
    pub fn has_first_token(&self) -> (result: bool)
        ensures
            result == self@.first_token,
    {
        self.first_token
    }

    pub(crate) fn prospect(&self) -> (prospect: &Prospect)
        ensures
            prospect@ == self@.writer.prospect,
    {
        self.output.prospect()
    }

    pub(crate) fn push_reasoning(&mut self, sink: &mut Sink, delta: &str)
        ensures
            final(self)@ == old(self)@.after_reasoning(delta@),
            final(sink)@ == old(sink)@.wrote(old(self)@.writer.reasoning_chunks(delta@)),
    {
        let counts = self.output.push_reasoning(sink, &mut self.full_output, delta);
        if counts {
            self.first_token = true;
        }
    }

    pub(crate) fn push_content(&mut self, sink: &mut Sink, delta: &str)
        ensures
            final(self)@ == old(self)@.after_content(delta@),
            final(sink)@ == old(sink)@.wrote(old(self)@.writer.content_chunks(delta@)),
    {
        let some = self.output.push_content(sink, &mut self.full_output, delta);
        if some {
            self.first_token = true;
        }
    }

    pub(crate) fn note_model(&mut self, model: Option<&str>)
        ensures
            final(self)@ == old(self)@.with_model(json::opt_text(model)),
    {
        if self.model_used.is_none() {
            if let Some(model) = model {
                self.model_used = Some(model.to_owned());
            }
        }
    }

    pub(crate) fn note_usage(&mut self, usage: Option<&Json>)
        ensures
            final(self)@ == old(self)@.with_usage(json::opt_view(usage)),
    {
        if let Some(usage) = usage {
            if !usage.is_null() {
                self.usage = Some(usage.clone());
            }
        }
    }

    pub(crate) fn set_first_token(&mut self, first_token: bool)
        ensures
            final(self)@ == (SessionView { first_token, ..old(self)@ }),
    {
        self.first_token = first_token;
    }

    pub(crate) fn merge_tool_calls(&mut self, delta: &Json)
        ensures
            final(self)@ == (SessionView {
                tool_calls: chat::calls_after(old(self)@.tool_calls, delta@),
                ..old(self)@
            }),
    {
        chat::merge_tool_call_deltas(&mut self.tool_calls, delta);
    }

    pub(crate) fn has_tool_calls(&self) -> (result: bool)
        ensures
            result == (self@.tool_calls.len() > 0),
    {
        self.tool_calls.len() > 0
    }

    pub(crate) fn push_tool_call(&mut self, call: Json)
        ensures
            final(self)@ == (SessionView {
                tool_calls: old(self)@.tool_calls.push(call@),
                ..old(self)@
            }),
    {
        broadcast use json::lemma_views_push;

        self.tool_calls.push(call);
    }

    pub(crate) fn set_tool_calls(&mut self, calls: Vec<Json>)
        ensures
            final(self)@ == (SessionView { tool_calls: json::views(calls@), ..old(self)@ }),
    {
        self.tool_calls = calls;
    }

    pub(crate) fn set_continuation(&mut self, continuation: ProviderContinuation)
        ensures
            final(self)@ == (SessionView {
                writer: old(self)@.writer.with_continuation(continuation@),
                ..old(self)@
            }),
    {
        self.output.set_provider_continuation(continuation);
    }

    /// Ends a call: writes what is left to write.
    pub fn finish(&mut self, sink: &mut Sink)
        ensures
            final(self)@ == old(self)@.after_finish(),
            final(sink)@ == old(sink)@.wrote(old(self)@.complete_writer().finish_chunks()),
    {
        self.output.set_tool_calls(json::copy_all(self.tool_calls.as_slice()));
        self.output.finish(sink, &mut self.full_output);
    }

    /// What a finished call came to.
    pub fn into_outcome(self) -> (outcome: CallOutcome)
        ensures
            outcome@ == self@.outcome(),
    {
        let prospect = self.output.prospect().clone();
        let events = json::copy_all(self.output.events());
        CallOutcome {
            assistant_buf: prospect.content.clone(),
            full_output: self.full_output,
            prospect,
            events,
            usage: self.usage,
            model_used: self.model_used,
        }
    }
}

/// Which API a request goes to: Chat Completions where it is asked for or the provider is not
/// OpenAI, else Responses. A request that cannot be built goes nowhere.
pub proof fn law_which_api(params: ParamsView, url: Seq<char>)
    ensures
        params.completions ==> (wanted_request(params, None) == (match chat::body(params) {
            Ok(body) => Ok::<OutgoingView, Seq<char>>(OutgoingView::Chat(body)),
            Err(message) => Err::<OutgoingView, Seq<char>>(message),
        })),
        params.completions || !text::occurs("api.openai.com"@, url) ==> (wanted_request(
            params,
            Some(url),
        ) == (match chat::body(params) {
            Ok(body) => Ok::<OutgoingView, Seq<char>>(OutgoingView::Chat(body)),
            Err(message) => Err::<OutgoingView, Seq<char>>(message),
        })),
        !params.completions ==> (wanted_request(params, None) == (match responses::body(params) {
            Ok(body) => Ok::<OutgoingView, Seq<char>>(OutgoingView::Responses(body)),
            Err(message) => Err::<OutgoingView, Seq<char>>(message),
        })),
        !params.completions && text::occurs("api.openai.com"@, url) ==> wanted_request(
            params,
            Some(url),
        ) == wanted_request(params, None),
{
}

/// A level of reasoning is passed on as it is, if it is one.
pub proof fn law_effort_is_the_level(level: Seq<char>)
    ensures
        effort(None) == Ok::<Option<JsonView>, Seq<char>>(None),
        level == "none"@ || level == "low"@ || level == "medium"@ || level == "high"@ || level
            == "xhigh"@ ==> effort(Some(level)) == Ok::<Option<JsonView>, Seq<char>>(
            Some(JsonView::Text(level)),
        ),
        level != "none"@ && level != "low"@ && level != "medium"@ && level != "high"@ && level
            != "xhigh"@ ==> effort(Some(level)) == Err::<Option<JsonView>, Seq<char>>(
            "invalid --reasoning value '"@ + level + "': expected none|low|medium|high|xhigh"@,
        ),
{
}

/// A call begins with nothing.
pub proof fn law_call_begins_empty(
    simple: bool,
    stream: bool,
    emit_reasoning: bool,
    emit_done: bool,
)
    ensures
        ({
            let writer = WriterView::start(simple, stream, emit_reasoning, emit_done);
            let session = SessionView::start(writer);
            &&& writer.simple == simple
            &&& writer.stream == stream
            &&& writer.emit_reasoning == emit_reasoning
            &&& writer.emit_done == emit_done
            &&& writer.prospect.content.len() == 0
            &&& writer.prospect.reasoning is None
            &&& writer.prospect.tool_calls.len() == 0
            &&& writer.prospect.provider_continuation is None
            &&& writer.prospect.constrained is None
            &&& writer.events.len() == 0
            &&& !writer.think_open
            &&& session.writer == writer
            &&& session.full_output.len() == 0
            &&& session.tool_calls.len() == 0
            &&& session.usage is None
            &&& session.model_used is None
            &&& !session.first_token
        }),
{
}

/// What a call comes to in the end: the answer with its tool calls, the events with those of
/// the end behind them, and all that was written, that of the end behind it.
pub proof fn law_what_a_call_comes_to(session: SessionView)
    requires
        !session.writer.final_events_recorded,
    ensures
        ({
            let before = session.writer.prospect;
            let outcome = session.after_finish().outcome();
            let whole = output::ProspectView { tool_calls: session.tool_calls, ..before };
            &&& outcome.assistant_buf == before.content
            &&& outcome.prospect.content == before.content
            &&& outcome.prospect.reasoning == before.reasoning
            &&& outcome.prospect.tool_calls == session.tool_calls
            &&& outcome.prospect.provider_continuation == before.provider_continuation
            &&& outcome.prospect.constrained == before.constrained
            &&& outcome.usage == session.usage
            &&& outcome.model_used == session.model_used
            &&& outcome.events == session.writer.events + output::final_events(whole)
            &&& session.full_output.is_prefix_of(outcome.full_output)
        }),
{
    let more = text::joined(session.complete_writer().finish_chunks());
    let after = session.after_finish();
    assert(after.full_output.subrange(0, session.full_output.len() as int)
        =~= session.full_output);
}

/// The first sign of an answer is the first piece of content that is not empty; and of reasoning
/// where none is shown as a stream of plain text.
pub proof fn law_first_sign(session: SessionView, delta: Seq<char>)
    ensures
        session.after_content(delta).first_token == (session.first_token || delta.len() > 0),
        delta.len() == 0 ==> session.after_reasoning(delta).first_token == session.first_token,
        session.first_token ==> session.after_reasoning(delta).first_token,
        delta.len() > 0 && session.writer.prospect.reasoning is None && !session.writer.think_open
            ==> session.after_reasoning(delta).first_token,
{
}

} // verus!
