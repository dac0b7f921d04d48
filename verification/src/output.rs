//! What a model answered and how it is shown: one structured object, JSON lines as they
//! arrive, or plain text.
use vstd::prelude::*;
use vstd::string::*;

use crate::bridge;
use crate::json;
use crate::json::{Entries, Json, JsonView, Object};
use crate::sink;
use crate::sink::Sink;
use crate::text;
use crate::tools;

verus! {

broadcast use json::group_lookup;

/// What a provider hands out to continue a conversation, not to be interpreted.
#[derive(Debug, PartialEq)]
pub struct ProviderContinuation {
    pub provider: String,
    pub response_id: Option<String>,
    pub reasoning_items: Vec<Json>,
}

pub struct ContinuationView {
    pub provider: Seq<char>,
    pub response_id: Option<Seq<char>>,
    pub reasoning_items: Seq<JsonView>,
}

/// The answer of a model.
#[derive(Debug, PartialEq)]
pub struct Prospect {
    pub reasoning: Option<String>,
    pub content: String,
    pub tool_calls: Vec<Json>,
    pub provider_continuation: Option<ProviderContinuation>,
    /// The answer in the shape that a schema demands.
    pub constrained: Option<Json>,
}

pub struct ProspectView {
    pub reasoning: Option<Seq<char>>,
    pub content: Seq<char>,
    pub tool_calls: Seq<JsonView>,
    pub provider_continuation: Option<ContinuationView>,
    pub constrained: Option<JsonView>,
}

impl View for ProviderContinuation {
    type V = ContinuationView;

    open spec fn view(&self) -> ContinuationView {
        ContinuationView {
            provider: self.provider@,
            response_id: text::opt(self.response_id),
            reasoning_items: json::views(self.reasoning_items@),
        }
    }
}

/// What a continuation says, if there is one.
pub open spec fn opt_continuation(value: Option<ProviderContinuation>) -> Option<
    ContinuationView,
> {
    match value {
        Some(continuation) => Some(continuation@),
        None => None,
    }
}

impl View for Prospect {
    type V = ProspectView;

    open spec fn view(&self) -> ProspectView {
        ProspectView {
            reasoning: text::opt(self.reasoning),
            content: self.content@,
            tool_calls: json::views(self.tool_calls@),
            provider_continuation: opt_continuation(self.provider_continuation),
            constrained: json::opt_json(self.constrained),
        }
    }
}

impl ContinuationView {
    /// The members of the object that carries the continuation.
    pub open spec fn entries(self) -> Entries {
        let head: Entries = seq![("provider"@, JsonView::Text(self.provider))];
        let named = match self.response_id {
            Some(id) => head.push(("response_id"@, JsonView::Text(id))),
            None => head,
        };
        named.push(("reasoning_items"@, JsonView::Array(self.reasoning_items)))
    }

    pub open spec fn json(self) -> JsonView {
        JsonView::Object(self.entries())
    }

    /// The continuation as an event of a stream.
    pub open spec fn stream_event(self) -> JsonView {
        JsonView::Object(self.entries().push(("type"@, JsonView::Text("provider_continuation"@))))
    }
}

/// The members of a continuation in order.
pub open spec fn continuation_names() -> Seq<Seq<char>> {
    seq!["provider"@, "response_id"@, "reasoning_items"@]
}

/// The continuation that a record carries.
pub open spec fn continuation_of(record: JsonView) -> Option<ContinuationView> {
    let value = json::by_name(record, continuation_names(), 1);
    match (value.get_str("provider"@), json::text_member(value.get("response_id"@))) {
        (Some(provider), Some(response_id)) => match value.get("reasoning_items"@) {
            None => Some(
                ContinuationView { provider, response_id, reasoning_items: Seq::empty() },
            ),
            Some(JsonView::Array(reasoning_items)) => Some(
                ContinuationView { provider, response_id, reasoning_items },
            ),
            Some(_) => None,
        },
        _ => None,
    }
}

/// The continuation, or null where there is none.
pub open spec fn continuation_or_null(value: Option<ContinuationView>) -> JsonView {
    match value {
        Some(continuation) => continuation.json(),
        None => JsonView::Null,
    }
}

impl ProspectView {
    /// An answer that holds nothing yet.
    pub open spec fn empty() -> ProspectView {
        ProspectView {
            reasoning: None,
            content: Seq::empty(),
            tool_calls: Seq::empty(),
            provider_continuation: None,
            constrained: None,
        }
    }

    /// The members of the object that shows the answer.
    pub open spec fn entries(self) -> Entries {
        let plain: Entries = seq![
            ("reasoning"@, json::text_or_null(self.reasoning)),
            ("content"@, JsonView::Text(self.content)),
            ("tool_calls"@, JsonView::Array(self.tool_calls)),
            ("provider_continuation"@, continuation_or_null(self.provider_continuation)),
        ];
        match self.constrained {
            Some(value) => plain.push(("constrained"@, value)),
            None => plain,
        }
    }

    pub open spec fn json(self) -> JsonView {
        JsonView::Object(self.entries())
    }

    /// The last event of a stream: the whole answer once more.
    pub open spec fn done_event(self) -> JsonView {
        JsonView::Object(seq![("type"@, JsonView::Text("done"@))] + self.entries())
    }

    /// The answer as far as it is to be shown.
    pub open spec fn visible(self, emit_reasoning: bool) -> ProspectView {
        if emit_reasoning {
            self
        } else {
            ProspectView { reasoning: None, ..self }
        }
    }
}

/// The members of an answer in order.
pub open spec fn prospect_names() -> Seq<Seq<char>> {
    seq![
        "reasoning"@,
        "content"@,
        "tool_calls"@,
        "provider_continuation"@,
        "constrained"@,
    ]
}

/// The answer that a record shows.
pub open spec fn prospect_of(record: JsonView) -> Option<ProspectView> {
    let value = json::by_name(record, prospect_names(), 4);
    let continuation = match value.get("provider_continuation"@) {
        None => Some(None),
        Some(JsonView::Null) => Some(None),
        Some(held) => match continuation_of(held) {
            Some(continuation) => Some(Some(continuation)),
            None => None,
        },
    };
    let constrained = match value.get("constrained"@) {
        Some(JsonView::Null) => None,
        held => held,
    };
    match (
        json::text_member(value.get("reasoning"@)),
        value.get_str("content"@),
        value.get_array("tool_calls"@),
        continuation,
    ) {
        (
            Some(reasoning),
            Some(content),
            Some(tool_calls),
            Some(provider_continuation),
        ) => Some(
            ProspectView { reasoning, content, tool_calls, provider_continuation, constrained },
        ),
        _ => None,
    }
}

/// The names of the members differ, since their lengths do.
proof fn lemma_member_names()
    ensures
        "type"@.len() == 4,
        "reasoning"@.len() == 9,
        "content"@.len() == 7,
        "tool_calls"@.len() == 10,
        "provider_continuation"@.len() == 21,
        "constrained"@.len() == 11,
        "provider"@.len() == 8,
        "response_id"@.len() == 11,
        "reasoning_items"@.len() == 15,
        "delta"@.len() == 5,
{
    reveal_strlit("type");
    reveal_strlit("reasoning");
    reveal_strlit("content");
    reveal_strlit("tool_calls");
    reveal_strlit("provider_continuation");
    reveal_strlit("constrained");
    reveal_strlit("provider");
    reveal_strlit("response_id");
    reveal_strlit("reasoning_items");
    reveal_strlit("delta");
}

impl Clone for ProviderContinuation {
    fn clone(&self) -> (copy: ProviderContinuation)
        ensures
            copy@ == self@,
    {
        ProviderContinuation {
            provider: self.provider.clone(),
            response_id: text::copy_opt(&self.response_id),
            reasoning_items: json::copy_all(self.reasoning_items.as_slice()),
        }
    }
}

/// A copy of a continuation, if there is one.
pub fn copy_continuation(value: &Option<ProviderContinuation>) -> (copy: Option<
    ProviderContinuation,
>)
    ensures
        opt_continuation(copy) == opt_continuation(*value),
{
    match value {
        Some(continuation) => Some(continuation.clone()),
        None => None,
    }
}

impl Clone for Prospect {
    fn clone(&self) -> (copy: Prospect)
        ensures
            copy@ == self@,
    {
        Prospect {
            reasoning: text::copy_opt(&self.reasoning),
            content: self.content.clone(),
            tool_calls: json::copy_all(self.tool_calls.as_slice()),
            provider_continuation: copy_continuation(&self.provider_continuation),
            constrained: json::copy_opt(&self.constrained),
        }
    }
}

impl Default for Prospect {
    fn default() -> (prospect: Prospect)
        ensures
            prospect@ == ProspectView::empty(),
    {
        let prospect = Prospect {
            reasoning: None,
            content: String::new(),
            tool_calls: Vec::new(),
            provider_continuation: None,
            constrained: None,
        };
        assert(prospect@.content =~= Seq::empty());
        assert(prospect@.tool_calls =~= Seq::empty());
        prospect
    }
}

impl ProviderContinuation {
    /// The members of the object that carries the continuation.
    pub fn object(&self) -> (object: Object)
        ensures
            object@ == self@.entries(),
    {
        proof {
            lemma_member_names();
        }
        let mut object = Object::new().add("provider", Json::Text(self.provider.clone()));
        if let Some(id) = &self.response_id {
            object = object.add("response_id", Json::Text(id.clone()));
        }
        let object = object.add("reasoning_items", Json::array_of(self.reasoning_items.as_slice()));
        assert(object@ =~= self@.entries());
        object
    }

    /// The object that carries the continuation.
    pub fn to_json(&self) -> (json: Json)
        ensures
            json@ == self@.json(),
    {
        Json::Object(self.object())
    }

    /// The continuation as an event of a stream.
    pub fn stream_event(&self) -> (event: Json)
        ensures
            event@ == self@.stream_event(),
    {
        proof {
            lemma_member_names();
        }
        Json::Object(self.object().add("type", Json::text("provider_continuation")))
    }

    /// The continuation that a record carries.
    pub fn from_json(record: &Json) -> (result: Option<ProviderContinuation>)
        ensures
            opt_continuation(result) == continuation_of(record@),
    {
        let names: Vec<&str> = vec!["provider", "response_id", "reasoning_items"];
        assert(json::name_views(names@) =~= continuation_names());
        let value = record.by_name(names.as_slice(), 1);
        let provider = match value.get_str("provider") {
            Some(provider) => provider.to_owned(),
            None => return None,
        };
        let response_id = match Json::text_member(value.get("response_id")) {
            Ok(response_id) => response_id,
            Err(_) => return None,
        };
        let reasoning_items = match value.get("reasoning_items") {
            None => {
                let none: Vec<Json> = Vec::new();
                assert(json::views(none@) =~= Seq::empty());
                none
            },
            Some(items) => match items.as_array() {
                Some(items) => json::copy_all(items.as_slice()),
                None => return None,
            },
        };
        Some(ProviderContinuation { provider, response_id, reasoning_items })
    }
}

impl Prospect {
    fn extend_object(&self, object: Object) -> (full: Object)
        requires
            json::lookup(object@, "reasoning"@) is None,
            json::lookup(object@, "content"@) is None,
            json::lookup(object@, "tool_calls"@) is None,
            json::lookup(object@, "provider_continuation"@) is None,
            json::lookup(object@, "constrained"@) is None,
        ensures
            full@ == object@ + self@.entries(),
    {
        proof {
            lemma_member_names();
        }
        let ghost before = object@;
        let continuation = match &self.provider_continuation {
            Some(continuation) => continuation.to_json(),
            None => Json::Null,
        };
        let full = object.add("reasoning", Json::text_or_null(&self.reasoning));
        let full = full.add("content", Json::Text(self.content.clone()));
        let full = full.add("tool_calls", Json::array_of(self.tool_calls.as_slice()));
        let full = full.add("provider_continuation", continuation);
        match &self.constrained {
            Some(value) => {
                let full = full.add("constrained", value.clone());
                assert(full@ =~= before + self@.entries());
                full
            },
            None => {
                assert(full@ =~= before + self@.entries());
                full
            },
        }
    }

    /// The object that shows the answer.
    pub fn to_json(&self) -> (json: Json)
        ensures
            json@ == self@.json(),
    {
        let object = self.extend_object(Object::new());
        assert(object@ =~= self@.entries());
        Json::Object(object)
    }

    /// The answer that a record shows.
    pub fn from_json(record: &Json) -> (result: Option<Prospect>)
        ensures
            match result {
                Some(prospect) => prospect_of(record@) == Some(prospect@),
                None => prospect_of(record@) is None,
            },
    {
        let names: Vec<&str> = vec![
            "reasoning",
            "content",
            "tool_calls",
            "provider_continuation",
            "constrained",
        ];
        assert(json::name_views(names@) =~= prospect_names());
        let value = record.by_name(names.as_slice(), 4);
        let reasoning = match Json::text_member(value.get("reasoning")) {
            Ok(reasoning) => reasoning,
            Err(_) => return None,
        };
        let content = match value.get_str("content") {
            Some(content) => content.to_owned(),
            None => return None,
        };
        let tool_calls = match value.get_array("tool_calls") {
            Some(calls) => json::copy_all(calls.as_slice()),
            None => return None,
        };
        let provider_continuation = match value.get("provider_continuation") {
            None => None,
            Some(held) => if held.is_null() {
                None
            } else {
                match ProviderContinuation::from_json(held) {
                    Some(continuation) => Some(continuation),
                    None => return None,
                }
            },
        };
        let constrained = match value.get("constrained") {
            None => None,
            Some(held) => if held.is_null() {
                None
            } else {
                Some(held.clone())
            },
        };
        Some(Prospect { reasoning, content, tool_calls, provider_continuation, constrained })
    }
}

/// A value on a line of its own.
pub open spec fn line(value: JsonView) -> Seq<char> {
    bridge::compact(value) + "\n"@
}

/// An event that carries a piece of text.
pub open spec fn delta_event(kind: Seq<char>, delta: Seq<char>) -> JsonView {
    JsonView::Object(seq![("type"@, JsonView::Text(kind)), ("delta"@, JsonView::Text(delta))])
}

pub open spec fn reasoning_event(delta: Seq<char>) -> JsonView {
    delta_event("reasoning_delta"@, delta)
}

pub open spec fn content_event(delta: Seq<char>) -> JsonView {
    delta_event("content_delta"@, delta)
}

pub open spec fn tool_calls_event(calls: Seq<JsonView>) -> JsonView {
    JsonView::Object(
        seq![("type"@, JsonView::Text("tool_calls"@)), ("tool_calls"@, JsonView::Array(calls))],
    )
}

/// The events that come after the deltas, before the last one.
pub open spec fn final_events(prospect: ProspectView) -> Seq<JsonView> {
    let calls = if prospect.tool_calls.len() > 0 {
        seq![tool_calls_event(prospect.tool_calls)]
    } else {
        Seq::empty()
    };
    match prospect.provider_continuation {
        Some(continuation) => calls.push(continuation.stream_event()),
        None => calls,
    }
}

/// Whether the tool calls stand in for an answer that says nothing.
pub open spec fn calls_only(prospect: ProspectView) -> bool {
    text::trimmed(prospect.content).len() == 0 && prospect.tool_calls.len() > 0
}

/// The answer as plain text.
pub open spec fn simple_text_of(prospect: ProspectView) -> Seq<char> {
    match prospect.constrained {
        Some(value) => bridge::pretty(value) + "\n"@,
        None => {
            let thought = match prospect.reasoning {
                Some(reasoning) => "<think>"@ + reasoning + "</think>\n"@,
                None => Seq::empty(),
            };
            thought + if calls_only(prospect) {
                tools::tool_calls_text(prospect.tool_calls)
            } else {
                prospect.content
            }
        },
    }
}

/// The answer as one laid out object.
pub open spec fn structured_text(prospect: ProspectView) -> Seq<char> {
    bridge::pretty(prospect.json()) + "\n"@
}

/// The events that tell of an answer whose deltas are not known.
pub open spec fn snapshot_events(prospect: ProspectView) -> Seq<JsonView> {
    let reasoning = match prospect.reasoning {
        Some(reasoning) => if reasoning.len() > 0 {
            seq![reasoning_event(reasoning)]
        } else {
            Seq::empty()
        },
        None => Seq::empty(),
    };
    let content = if prospect.content.len() > 0 {
        seq![content_event(prospect.content)]
    } else {
        Seq::empty()
    };
    reasoning + content + final_events(prospect)
}

/// Whether an event is shown.
pub open spec fn shown(event: JsonView, emit_reasoning: bool) -> bool {
    emit_reasoning || event.get_str("type"@) != Some("reasoning_delta"@)
}

/// The shown events, a line each.
pub open spec fn event_lines(events: Seq<JsonView>, emit_reasoning: bool) -> Seq<char>
    decreases events.len(),
{
    if events.len() == 0 {
        Seq::empty()
    } else {
        let before = event_lines(events.drop_last(), emit_reasoning);
        if shown(events.last(), emit_reasoning) {
            before + line(events.last())
        } else {
            before
        }
    }
}

/// An answer of before, shown in any of the ways: as plain text, as JSON lines with the
/// events of then where they are known, or as one object.
pub open spec fn cached_text(
    prospect: ProspectView,
    events: Option<Seq<JsonView>>,
    simple: bool,
    stream: bool,
    emit_reasoning: bool,
) -> Seq<char> {
    let visible = prospect.visible(emit_reasoning);
    if simple {
        simple_text_of(visible)
    } else if stream {
        let told = match events {
            Some(events) => if events.len() > 0 {
                events
            } else {
                snapshot_events(visible)
            },
            None => snapshot_events(visible),
        };
        event_lines(told, emit_reasoning) + line(visible.done_event())
    } else {
        structured_text(visible)
    }
}

/// The lines at the end of a stream.
pub open spec fn closing_lines(visible: ProspectView, emit_done: bool) -> Seq<Seq<char>> {
    let told = final_events(visible).map_values(|event: JsonView| line(event));
    if emit_done {
        told.push(line(visible.done_event()))
    } else {
        told
    }
}

/// Writes an answer while it arrives, and keeps it.
pub struct OutputWriter {
    simple: bool,
    stream: bool,
    emit_reasoning: bool,
    emit_done: bool,
    prospect: Prospect,
    events: Vec<Json>,
    final_events_recorded: bool,
    think_open: bool,
    think_closed: bool,
}

/// The state of a writer.
pub struct WriterView {
    /// Plain text in place of JSON.
    pub simple: bool,
    /// Written as it arrives in place of at the end.
    pub stream: bool,
    /// Reasoning is shown.
    pub emit_reasoning: bool,
    /// A stream ends with the whole answer.
    pub emit_done: bool,
    pub prospect: ProspectView,
    pub events: Seq<JsonView>,
    pub final_events_recorded: bool,
    pub think_open: bool,
    pub think_closed: bool,
}

impl View for OutputWriter {
    type V = WriterView;

    closed spec fn view(&self) -> WriterView {
        WriterView {
            simple: self.simple,
            stream: self.stream,
            emit_reasoning: self.emit_reasoning,
            emit_done: self.emit_done,
            prospect: self.prospect@,
            events: json::views(self.events@),
            final_events_recorded: self.final_events_recorded,
            think_open: self.think_open,
            think_closed: self.think_closed,
        }
    }
}

impl WriterView {
    /// A writer that has written nothing.
    pub open spec fn start(
        simple: bool,
        stream: bool,
        emit_reasoning: bool,
        emit_done: bool,
    ) -> WriterView {
        WriterView {
            simple,
            stream,
            emit_reasoning,
            emit_done,
            prospect: ProspectView::empty(),
            events: Seq::empty(),
            final_events_recorded: false,
            think_open: false,
            think_closed: false,
        }
    }

    /// Plain text that is written as it arrives.
    pub open spec fn plain_stream(self) -> bool {
        self.simple && self.stream
    }

    /// Whether a block round reasoning is open.
    pub open spec fn in_think(self) -> bool {
        self.plain_stream() && self.think_open && !self.think_closed
    }

    /// Whether a piece of reasoning opens a block: it does wherever none is open.
    pub open spec fn opens_think(self) -> bool {
        self.plain_stream() && !self.in_think()
    }

    pub open spec fn after_reasoning(self, delta: Seq<char>) -> WriterView {
        if delta.len() == 0 {
            self
        } else {
            let before = match self.prospect.reasoning {
                Some(reasoning) => reasoning,
                None => Seq::empty(),
            };
            WriterView {
                prospect: ProspectView { reasoning: Some(before + delta), ..self.prospect },
                events: self.events.push(reasoning_event(delta)),
                think_open: self.think_open || (self.emit_reasoning && self.opens_think()),
                think_closed: self.think_closed && !(self.emit_reasoning && self.opens_think()),
                ..self
            }
        }
    }

    /// What is written when a piece of reasoning arrives.
    pub open spec fn reasoning_chunks(self, delta: Seq<char>) -> Seq<Seq<char>> {
        if delta.len() == 0 || !self.emit_reasoning {
            Seq::empty()
        } else if self.opens_think() {
            seq!["<think>"@, delta]
        } else if self.simple {
            if self.stream {
                seq![delta]
            } else {
                Seq::empty()
            }
        } else if self.stream {
            seq![line(reasoning_event(delta))]
        } else {
            Seq::empty()
        }
    }

    /// Whether a piece of reasoning counts as the first sign of an answer.
    pub open spec fn reasoning_counts(self, delta: Seq<char>) -> bool {
        &&& delta.len() > 0
        &&& self.emit_reasoning && self.plain_stream() ==> self.opens_think()
    }

    pub open spec fn after_content(self, delta: Seq<char>) -> WriterView {
        if delta.len() == 0 {
            self
        } else {
            WriterView {
                prospect: ProspectView { content: self.prospect.content + delta, ..self.prospect },
                events: self.events.push(content_event(delta)),
                think_closed: self.think_closed || self.in_think(),
                ..self
            }
        }
    }

    /// What is written to close a block round reasoning.
    pub open spec fn closing_chunks(self) -> Seq<Seq<char>> {
        if self.in_think() {
            seq!["</think>\n"@]
        } else {
            Seq::empty()
        }
    }

    /// What is written when a piece of the answer arrives.
    pub open spec fn content_chunks(self, delta: Seq<char>) -> Seq<Seq<char>> {
        if delta.len() == 0 {
            Seq::empty()
        } else if self.plain_stream() {
            self.closing_chunks() + seq![delta]
        } else if self.stream {
            seq![line(content_event(delta))]
        } else {
            Seq::empty()
        }
    }

    pub open spec fn with_tool_calls(self, calls: Seq<JsonView>) -> WriterView {
        WriterView { prospect: ProspectView { tool_calls: calls, ..self.prospect }, ..self }
    }

    pub open spec fn with_continuation(self, continuation: ContinuationView) -> WriterView {
        WriterView {
            prospect: ProspectView {
                provider_continuation: Some(continuation),
                ..self.prospect
            },
            ..self
        }
    }

    pub open spec fn after_finish(self) -> WriterView {
        WriterView {
            events: if self.final_events_recorded {
                self.events
            } else {
                self.events + final_events(self.prospect)
            },
            final_events_recorded: true,
            think_closed: self.think_closed || self.in_think(),
            ..self
        }
    }

    /// What is written at the end.
    pub open spec fn finish_chunks(self) -> Seq<Seq<char>> {
        let visible = self.prospect.visible(self.emit_reasoning);
        if self.plain_stream() {
            if calls_only(visible) {
                self.closing_chunks().push(tools::tool_calls_text(visible.tool_calls))
            } else {
                self.closing_chunks()
            }
        } else if self.simple {
            if simple_text_of(visible).len() > 0 {
                seq![simple_text_of(visible)]
            } else {
                Seq::empty()
            }
        } else if self.stream {
            closing_lines(visible, self.emit_done)
        } else {
            seq![structured_text(visible)]
        }
    }
}

fn write_raw(sink: &mut Sink, mirror: &mut String, s: &str)
    ensures
        final(sink)@ == old(sink)@.wrote(seq![s@]),
        final(mirror)@ == old(mirror)@ + s@,
{
    sink.write_str(s);
    mirror.append(s);
}

fn line_of(value: &Json) -> (result: String)
    ensures
        result@ == line(value@),
{
    let mut result = value.to_compact();
    result.append("\n");
    result
}

fn write_jsonl(sink: &mut Sink, mirror: &mut String, value: &Json)
    ensures
        final(sink)@ == old(sink)@.wrote(seq![line(value@)]),
        final(mirror)@ == old(mirror)@ + line(value@),
{
    let text = line_of(value);
    write_raw(sink, mirror, text.as_str());
}

fn delta_json(kind: &str, delta: &str) -> (event: Json)
    ensures
        event@ == delta_event(kind@, delta@),
{
    proof {
        lemma_member_names();
    }
    let object = Object::new().add("type", Json::text(kind)).add("delta", Json::text(delta));
    assert(object@ =~= delta_event(kind@, delta@)->Object_0);
    Json::Object(object)
}

fn tool_calls_json(calls: &[Json]) -> (event: Json)
    ensures
        event@ == tool_calls_event(json::views(calls@)),
{
    proof {
        lemma_member_names();
    }
    let object = Object::new().add("type", Json::text("tool_calls"));
    let object = object.add("tool_calls", Json::array_of(calls));
    assert(object@ =~= tool_calls_event(json::views(calls@))->Object_0);
    Json::Object(object)
}

fn done_event(prospect: &Prospect) -> (event: Json)
    ensures
        event@ == prospect@.done_event(),
{
    proof {
        lemma_member_names();
    }
    let head = Object::new().add("type", Json::text("done"));
    assert(head@ =~= seq![("type"@, JsonView::Text("done"@))]);
    Json::Object(prospect.extend_object(head))
}

fn visible_prospect(prospect: &Prospect, emit_reasoning: bool) -> (visible: Prospect)
    ensures
        visible@ == prospect@.visible(emit_reasoning),
{
    let mut visible = prospect.clone();
    if !emit_reasoning {
        visible.reasoning = None;
    }
    visible
}

fn is_calls_only(prospect: &Prospect) -> (result: bool)
    ensures
        result == calls_only(prospect@),
{
    let content = text::trim(prospect.content.as_str());
    text::is_empty(content) && prospect.tool_calls.len() > 0
}

fn simple_text(prospect: &Prospect) -> (result: String)
    ensures
        result@ == simple_text_of(prospect@),
{
    if let Some(value) = &prospect.constrained {
        let mut text = value.to_pretty();
        text.append("\n");
        return text;
    }
    let mut text = String::new();
    assert(text@ =~= Seq::empty());
    if let Some(reasoning) = &prospect.reasoning {
        text.append("<think>");
        text.append(reasoning.as_str());
        text.append("</think>\n");
        assert(text@ =~= "<think>"@ + reasoning@ + "</think>\n"@);
    }
    if is_calls_only(prospect) {
        let calls = tool_calls_text(prospect.tool_calls.as_slice());
        text.append(calls.as_str());
    } else {
        text.append(prospect.content.as_str());
    }
    text
}

fn tool_calls_text(calls: &[Json]) -> (text: String)
    ensures
        text@ == tools::tool_calls_text(json::views(calls@)),
{
    match tools::format_tool_calls(calls) {
        Ok(text) => text,
        Err(text) => text,
    }
}

fn render_structured(prospect: &Prospect) -> (text: String)
    ensures
        text@ == structured_text(prospect@),
{
    let mut text = prospect.to_json().to_pretty();
    text.append("\n");
    text
}

impl OutputWriter {
    /// A writer for one answer. A stream ends with the whole answer.
    pub fn with_reasoning(simple: bool, stream: bool, emit_reasoning: bool) -> (writer: OutputWriter)
        ensures
            writer@ == WriterView::start(simple, stream, emit_reasoning, true),
    {
        OutputWriter::with_done(simple, stream, emit_reasoning, true)
    }

    /// A writer for one answer, with the choice whether a stream ends with the whole answer.
    pub fn with_done(
        simple: bool,
        stream: bool,
        emit_reasoning: bool,
        emit_done: bool,
    ) -> (writer: OutputWriter)
        ensures
            writer@ == WriterView::start(simple, stream, emit_reasoning, emit_done),
    {
        let writer = OutputWriter {
            simple,
            stream,
            emit_reasoning,
            emit_done,
            prospect: Prospect::default(),
            events: Vec::new(),
            final_events_recorded: false,
            think_open: false,
            think_closed: false,
        };
        assert(writer@.events =~= Seq::empty());
        writer
    }

    fn push_event(&mut self, event: Json)
        ensures
            final(self)@ == (WriterView { events: old(self)@.events.push(event@), ..old(self)@ }),
    {
        broadcast use json::lemma_views_push;

        self.events.push(event);
    }

    /// Takes a piece of reasoning. Says whether it counts as the first sign of an answer.
    pub fn push_reasoning(&mut self, sink: &mut Sink, mirror: &mut String, delta: &str) -> (counts:
        bool)
        ensures
            final(self)@ == old(self)@.after_reasoning(delta@),
            final(sink)@ == old(sink)@.wrote(old(self)@.reasoning_chunks(delta@)),
            final(mirror)@ == old(mirror)@ + text::joined(old(self)@.reasoning_chunks(delta@)),
            counts == old(self)@.reasoning_counts(delta@),
    {
        broadcast use text::lemma_joined_push;

        let ghost start = self@;
        let ghost target = sink@;
        let ghost written = mirror@;
        proof {
            sink::lemma_wrote_nothing(target);
            assert(written + text::joined(Seq::empty()) =~= written);
        }
        if text::is_empty(delta) {
            return false;
        }
        let mut reasoning = match self.prospect.reasoning.take() {
            Some(reasoning) => reasoning,
            None => String::new(),
        };
        reasoning.append(delta);
        self.prospect.reasoning = Some(reasoning);
        self.push_event(delta_json("reasoning_delta", delta));
        proof {
            let before = match start.prospect.reasoning {
                Some(reasoning) => reasoning,
                None => Seq::empty(),
            };
            assert(reasoning@ =~= before + delta@);
        }
        if !self.emit_reasoning {
            return true;
        }
        proof {
            assert(seq![delta@] =~= Seq::empty().push(delta@));
            assert(Seq::<char>::empty() + delta@ =~= delta@);
        }
        if self.simple && self.stream {
            let opened = !self.think_open || self.think_closed;
            if opened {
                self.think_open = true;
                self.think_closed = false;
                write_raw(sink, mirror, "<think>");
            }
            write_raw(sink, mirror, delta);
            proof {
                if opened {
                    let both = seq!["<think>"@, delta@];
                    sink::lemma_wrote_twice(target, seq!["<think>"@], seq![delta@]);
                    assert(seq!["<think>"@] + seq![delta@] =~= both);
                    assert(both =~= Seq::empty().push("<think>"@).push(delta@));
                    assert(written + text::joined(both) =~= written + "<think>"@ + delta@);
                }
            }
            return opened;
        }
        if self.stream {
            write_jsonl(sink, mirror, &delta_json("reasoning_delta", delta));
            proof {
                let told = line(reasoning_event(delta@));
                assert(seq![told] =~= Seq::empty().push(told));
                assert(Seq::<char>::empty() + told =~= told);
            }
        }
        true
    }

    fn close_think_if_open(&mut self, sink: &mut Sink, mirror: &mut String)
        requires
            old(self)@.plain_stream(),
        ensures
            final(self)@ == (WriterView {
                think_closed: old(self)@.think_closed || old(self)@.in_think(),
                ..old(self)@
            }),
            final(sink)@ == old(sink)@.wrote(old(self)@.closing_chunks()),
            final(mirror)@ == old(mirror)@ + text::joined(old(self)@.closing_chunks()),
    {
        broadcast use text::lemma_joined_push;

        let ghost written = mirror@;
        proof {
            let close = "</think>\n"@;
            sink::lemma_wrote_nothing(sink@);
            assert(written + text::joined(Seq::empty()) =~= written);
            assert(seq![close] =~= Seq::empty().push(close));
            assert(Seq::<char>::empty() + close =~= close);
        }
        if self.think_open && !self.think_closed {
            write_raw(sink, mirror, "</think>\n");
            self.think_closed = true;
        }
    }

    /// Takes a piece of the answer. Says whether there was any.
    pub fn push_content(&mut self, sink: &mut Sink, mirror: &mut String, delta: &str) -> (some: bool)
        ensures
            final(self)@ == old(self)@.after_content(delta@),
            final(sink)@ == old(sink)@.wrote(old(self)@.content_chunks(delta@)),
            final(mirror)@ == old(mirror)@ + text::joined(old(self)@.content_chunks(delta@)),
            some == (delta@.len() > 0),
    {
        broadcast use text::lemma_joined_push;

        let ghost start = self@;
        let ghost target = sink@;
        let ghost written = mirror@;
        proof {
            sink::lemma_wrote_nothing(target);
            assert(written + text::joined(Seq::empty()) =~= written);
        }
        if text::is_empty(delta) {
            return false;
        }
        self.prospect.content.append(delta);
        self.push_event(delta_json("content_delta", delta));
        if self.simple && self.stream {
            self.close_think_if_open(sink, mirror);
            write_raw(sink, mirror, delta);
            proof {
                sink::lemma_wrote_twice(target, start.closing_chunks(), seq![delta@]);
                assert(start.closing_chunks() + seq![delta@] =~= start.closing_chunks().push(
                    delta@,
                ));
                assert(written + text::joined(start.content_chunks(delta@)) =~= written
                    + text::joined(start.closing_chunks()) + delta@);
            }
            return true;
        }
        if self.stream {
            write_jsonl(sink, mirror, &delta_json("content_delta", delta));
            proof {
                let told = line(content_event(delta@));
                assert(seq![told] =~= Seq::empty().push(told));
                assert(Seq::<char>::empty() + told =~= told);
            }
        }
        true
    }

    pub fn set_tool_calls(&mut self, tool_calls: Vec<Json>)
        ensures
            final(self)@ == old(self)@.with_tool_calls(json::views(tool_calls@)),
    {
        self.prospect.tool_calls = tool_calls;
    }

    pub fn set_provider_continuation(&mut self, continuation: ProviderContinuation)
        ensures
            final(self)@ == old(self)@.with_continuation(continuation@),
    {
        self.prospect.provider_continuation = Some(continuation);
    }

    fn record_final_events(&mut self)
        ensures
            final(self)@ == (WriterView {
                events: old(self)@.after_finish().events,
                final_events_recorded: true,
                ..old(self)@
            }),
    {
        if self.final_events_recorded {
            return;
        }
        let ghost start = self@;
        self.final_events_recorded = true;
        if self.prospect.tool_calls.len() > 0 {
            let event = tool_calls_json(self.prospect.tool_calls.as_slice());
            self.push_event(event);
        }
        if let Some(continuation) = &self.prospect.provider_continuation {
            let event = continuation.stream_event();
            self.push_event(event);
        }
        assert(self@.events =~= start.events + final_events(start.prospect));
    }

    /// Writes what is left to write.
    pub fn finish(&mut self, sink: &mut Sink, mirror: &mut String)
        ensures
            final(self)@ == old(self)@.after_finish(),
            final(sink)@ == old(sink)@.wrote(old(self)@.finish_chunks()),
            final(mirror)@ == old(mirror)@ + text::joined(old(self)@.finish_chunks()),
    {
        broadcast use text::lemma_joined_push;

        let ghost start = self@;
        let ghost target = sink@;
        let ghost written = mirror@;
        proof {
            sink::lemma_wrote_nothing(target);
            assert(written + text::joined(Seq::empty()) =~= written);
        }
        self.record_final_events();
        let visible = visible_prospect(&self.prospect, self.emit_reasoning);
        if self.simple && self.stream {
            self.close_think_if_open(sink, mirror);
            if is_calls_only(&visible) {
                let calls = tool_calls_text(visible.tool_calls.as_slice());
                write_raw(sink, mirror, calls.as_str());
                proof {
                    let close = start.closing_chunks();
                    sink::lemma_wrote_twice(target, close, seq![calls@]);
                    assert(close + seq![calls@] =~= close.push(calls@));
                    assert(written + text::joined(close.push(calls@)) =~= written + text::joined(
                        close,
                    ) + calls@);
                }
            }
            return;
        }
        if self.simple {
            let text = simple_text(&visible);
            if !text::is_empty(text.as_str()) {
                write_raw(sink, mirror, text.as_str());
                proof {
                    assert(seq![text@] =~= Seq::empty().push(text@));
                    assert(Seq::<char>::empty() + text@ =~= text@);
                }
            }
            return;
        }
        if self.stream {
            write_final_events(&visible, self.emit_done, sink, mirror);
            return;
        }
        let text = render_structured(&visible);
        write_raw(sink, mirror, text.as_str());
        proof {
            assert(seq![text@] =~= Seq::empty().push(text@));
            assert(Seq::<char>::empty() + text@ =~= text@);
        }
    }

    pub fn prospect(&self) -> (prospect: &Prospect)
        ensures
            prospect@ == self@.prospect,
    {
        &self.prospect
    }

    pub fn events(&self) -> (events: &[Json])
        ensures
            json::views(events@) == self@.events,
    {
        self.events.as_slice()
    }
}

fn write_final_events(visible: &Prospect, emit_done: bool, sink: &mut Sink, mirror: &mut String)
    ensures
        final(sink)@ == old(sink)@.wrote(closing_lines(visible@, emit_done)),
        final(mirror)@ == old(mirror)@ + text::joined(closing_lines(visible@, emit_done)),
{
    broadcast use text::lemma_joined_push;

    let ghost target = sink@;
    let ghost written = mirror@;
    let ghost mut told: Seq<Seq<char>> = Seq::empty();
    proof {
        sink::lemma_wrote_nothing(target);
        assert(written + text::joined(told) =~= written);
    }
    if visible.tool_calls.len() > 0 {
        let event = tool_calls_json(visible.tool_calls.as_slice());
        write_jsonl(sink, mirror, &event);
        proof {
            lemma_one_more(target, written, told, line(event@));
            told = told.push(line(event@));
        }
    }
    if let Some(continuation) = &visible.provider_continuation {
        let event = continuation.stream_event();
        write_jsonl(sink, mirror, &event);
        proof {
            lemma_one_more(target, written, told, line(event@));
            told = told.push(line(event@));
        }
    }
    assert(told =~= final_events(visible@).map_values(|event: JsonView| line(event)));
    if emit_done {
        let event = done_event(visible);
        write_jsonl(sink, mirror, &event);
        proof {
            lemma_one_more(target, written, told, line(event@));
        }
    }
}

/// One more chunk after others.
proof fn lemma_one_more(
    target: sink::SinkView,
    written: Seq<char>,
    told: Seq<Seq<char>>,
    chunk: Seq<char>,
)
    ensures
        target.wrote(told).wrote(seq![chunk]) == target.wrote(told.push(chunk)),
        written + text::joined(told) + chunk == written + text::joined(told.push(chunk)),
{
    sink::lemma_wrote_twice(target, told, seq![chunk]);
    assert(told + seq![chunk] =~= told.push(chunk));
    text::lemma_joined_push(told, chunk);
    assert(written + text::joined(told) + chunk =~= written + (text::joined(told) + chunk));
}

fn is_shown(event: &Json, emit_reasoning: bool) -> (result: bool)
    ensures
        result == shown(event@, emit_reasoning),
{
    emit_reasoning || match event.get_str("type") {
        Some(kind) => !text::same(kind, "reasoning_delta"),
        None => true,
    }
}

fn render_jsonl_events(events: &[Json], prospect: &Prospect, emit_reasoning: bool) -> (text: String)
    ensures
        text@ == event_lines(json::views(events@), emit_reasoning) + line(prospect@.done_event()),
{
    let ghost all = json::views(events@);
    let mut text = String::new();
    let mut i: usize = 0;
    assert(all.take(0) =~= Seq::empty());
    assert(text@ =~= Seq::empty());
    while i < events.len()
        invariant
            i <= events@.len(),
            all == json::views(events@),
            text@ == event_lines(all.take(i as int), emit_reasoning),
        decreases events@.len() - i,
    {
        assert(all.take(i + 1).drop_last() =~= all.take(i as int));
        if is_shown(&events[i], emit_reasoning) {
            let told = line_of(&events[i]);
            text.append(told.as_str());
        }
        i += 1;
    }
    assert(all.take(i as int) =~= all);
    let told = line_of(&done_event(prospect));
    text.append(told.as_str());
    text
}

fn snapshot(prospect: &Prospect) -> (events: Vec<Json>)
    ensures
        json::views(events@) == snapshot_events(prospect@),
{
    let mut events: Vec<Json> = Vec::new();
    if let Some(reasoning) = &prospect.reasoning {
        if !text::is_empty(reasoning.as_str()) {
            events.push(delta_json("reasoning_delta", reasoning.as_str()));
        }
    }
    if !text::is_empty(prospect.content.as_str()) {
        events.push(delta_json("content_delta", prospect.content.as_str()));
    }
    if prospect.tool_calls.len() > 0 {
        events.push(tool_calls_json(prospect.tool_calls.as_slice()));
    }
    if let Some(continuation) = &prospect.provider_continuation {
        events.push(continuation.stream_event());
    }
    assert(json::views(events@) =~= snapshot_events(prospect@));
    events
}

/// Shows an answer of before.
pub fn render_cached(
    prospect: &Prospect,
    events: Option<&[Json]>,
    simple: bool,
    stream: bool,
    emit_reasoning: bool,
) -> (result: Result<String, String>)
    ensures
        result matches Ok(text) && text@ == cached_text(
            prospect@,
            match events {
                Some(events) => Some(json::views(events@)),
                None => None,
            },
            simple,
            stream,
            emit_reasoning,
        ),
{
    let visible = visible_prospect(prospect, emit_reasoning);
    if simple {
        return Ok(simple_text(&visible));
    }
    if stream {
        if let Some(events) = events {
            if events.len() > 0 {
                return Ok(render_jsonl_events(events, &visible, emit_reasoning));
            }
        }
        let events = snapshot(&visible);
        return Ok(render_jsonl_events(events.as_slice(), &visible, emit_reasoning));
    }
    Ok(render_structured(&visible))
}

/// What is left to show of an answer once all of it is there: of a stream only the last line.
pub open spec fn finale(
    prospect: ProspectView,
    simple: bool,
    stream: bool,
    emit_reasoning: bool,
) -> Seq<char> {
    let visible = prospect.visible(emit_reasoning);
    if simple {
        simple_text_of(visible)
    } else if stream {
        line(visible.done_event())
    } else {
        structured_text(visible)
    }
}

/// Shows what is left of an answer once all of it is there.
pub fn render_finale(prospect: &Prospect, simple: bool, stream: bool, emit_reasoning: bool) -> (text:
    String)
    ensures
        text@ == finale(prospect@, simple, stream, emit_reasoning),
{
    let visible = visible_prospect(prospect, emit_reasoning);
    if simple {
        simple_text(&visible)
    } else if stream {
        line_of(&done_event(&visible))
    } else {
        render_structured(&visible)
    }
}

/// A piece of an answer as it arrives.
pub enum Piece {
    Reasoning(Seq<char>),
    Content(Seq<char>),
}

impl WriterView {
    /// The writer after the pieces arrived in order.
    pub open spec fn after_pieces(self, pieces: Seq<Piece>) -> WriterView
        decreases pieces.len(),
    {
        if pieces.len() == 0 {
            self
        } else {
            let before = self.after_pieces(pieces.drop_last());
            match pieces.last() {
                Piece::Reasoning(delta) => before.after_reasoning(delta),
                Piece::Content(delta) => before.after_content(delta),
            }
        }
    }

    /// What is written while the pieces arrive.
    pub open spec fn piece_chunks(self, pieces: Seq<Piece>) -> Seq<Seq<char>>
        decreases pieces.len(),
    {
        if pieces.len() == 0 {
            Seq::empty()
        } else {
            let before = self.after_pieces(pieces.drop_last());
            self.piece_chunks(pieces.drop_last()) + match pieces.last() {
                Piece::Reasoning(delta) => before.reasoning_chunks(delta),
                Piece::Content(delta) => before.content_chunks(delta),
            }
        }
    }

    /// The writer with the calls and the continuation that came with the answer.
    pub open spec fn with_rest(
        self,
        calls: Seq<JsonView>,
        continuation: Option<ContinuationView>,
    ) -> WriterView {
        match continuation {
            Some(continuation) => self.with_tool_calls(calls).with_continuation(continuation),
            None => self.with_tool_calls(calls),
        }
    }
}

proof fn lemma_event_lines_push(events: Seq<JsonView>, event: JsonView, emit_reasoning: bool)
    ensures
        event_lines(events.push(event), emit_reasoning) == (if shown(event, emit_reasoning) {
            event_lines(events, emit_reasoning) + line(event)
        } else {
            event_lines(events, emit_reasoning)
        }),
{
    assert(events.push(event).drop_last() =~= events);
}

/// Of the events a writer records only reasoning can be hidden.
proof fn lemma_shown(
    delta: Seq<char>,
    calls: Seq<JsonView>,
    continuation: ContinuationView,
    emit_reasoning: bool,
)
    ensures
        shown(reasoning_event(delta), emit_reasoning) == emit_reasoning,
        shown(content_event(delta), emit_reasoning),
        shown(tool_calls_event(calls), emit_reasoning),
        shown(continuation.stream_event(), emit_reasoning),
{
    broadcast use json::group_lookup;

    lemma_member_names();
    reveal_strlit("reasoning_delta");
    reveal_strlit("content_delta");
    assert("reasoning_delta"@.len() == 15 && "content_delta"@.len() == 13);
    let empty: Entries = Seq::empty();
    let reasoning = ("type"@, JsonView::Text("reasoning_delta"@));
    let content = ("type"@, JsonView::Text("content_delta"@));
    let called = ("type"@, JsonView::Text("tool_calls"@));
    let text = ("delta"@, JsonView::Text(delta));
    let items = ("tool_calls"@, JsonView::Array(calls));
    assert(reasoning_event(delta)->Object_0 =~= empty.push(reasoning).push(text));
    assert(content_event(delta)->Object_0 =~= empty.push(content).push(text));
    assert(tool_calls_event(calls)->Object_0 =~= empty.push(called).push(items));
}

/// The events of a writer tell what it has written as JSON lines, and there are none only
/// while there is no answer.
proof fn lemma_pieces_told(start: WriterView, pieces: Seq<Piece>)
    requires
        start == WriterView::start(
            start.simple,
            start.stream,
            start.emit_reasoning,
            start.emit_done,
        ),
    ensures
        ({
            let writer = start.after_pieces(pieces);
            &&& writer.simple == start.simple && writer.stream == start.stream
            &&& writer.emit_reasoning == start.emit_reasoning && writer.emit_done
                == start.emit_done
            &&& !writer.final_events_recorded
            &&& writer.prospect.constrained is None
            &&& !start.simple && start.stream ==> text::joined(start.piece_chunks(pieces))
                == event_lines(writer.events, start.emit_reasoning)
            &&& !start.stream ==> start.piece_chunks(pieces).len() == 0
            &&& writer.events.len() == 0 ==> writer.prospect.reasoning is None
                && writer.prospect.content.len() == 0
        }),
    decreases pieces.len(),
{
    broadcast use {text::lemma_joined_push, text::lemma_joined_add};

    if pieces.len() > 0 {
        lemma_pieces_told(start, pieces.drop_last());
        let before = start.after_pieces(pieces.drop_last());
        let written = text::joined(start.piece_chunks(pieces.drop_last()));
        assert(written + text::joined(Seq::empty()) =~= written);
        let none = ContinuationView {
            provider: Seq::empty(),
            response_id: None,
            reasoning_items: Seq::empty(),
        };
        match pieces.last() {
            Piece::Reasoning(delta) => {
                lemma_shown(delta, Seq::empty(), none, start.emit_reasoning);
                lemma_event_lines_push(before.events, reasoning_event(delta), start.emit_reasoning);
                let told = line(reasoning_event(delta));
                assert(seq![told] =~= Seq::empty().push(told));
                assert(text::joined(seq![told]) =~= told);
            },
            Piece::Content(delta) => {
                lemma_shown(delta, Seq::empty(), none, start.emit_reasoning);
                lemma_event_lines_push(before.events, content_event(delta), start.emit_reasoning);
                let told = line(content_event(delta));
                assert(seq![told] =~= Seq::empty().push(told));
                assert(text::joined(seq![told]) =~= told);
            },
        }
    }
}

/// The lines at the end of a stream are those of the final events and of the last one.
proof fn lemma_closing_lines(events: Seq<JsonView>, visible: ProspectView, emit_reasoning: bool)
    ensures
        event_lines(events, emit_reasoning) + text::joined(closing_lines(visible, true))
            == event_lines(events + final_events(visible), emit_reasoning) + line(
            visible.done_event(),
        ),
{
    broadcast use text::lemma_joined_push;

    let last = line(visible.done_event());
    let calls = tool_calls_event(visible.tool_calls);
    let none = ContinuationView {
        provider: Seq::empty(),
        response_id: None,
        reasoning_items: Seq::empty(),
    };
    let continuation = match visible.provider_continuation {
        Some(continuation) => continuation,
        None => none,
    };
    let event = continuation.stream_event();
    lemma_shown(Seq::empty(), visible.tool_calls, continuation, emit_reasoning);
    let base = event_lines(events, emit_reasoning);
    let no_lines: Seq<Seq<char>> = Seq::empty();
    lemma_event_lines_push(events, calls, emit_reasoning);
    lemma_event_lines_push(events, event, emit_reasoning);
    lemma_event_lines_push(events.push(calls), event, emit_reasoning);
    if visible.tool_calls.len() > 0 {
        if visible.provider_continuation is Some {
            assert(closing_lines(visible, true) =~= no_lines.push(line(calls)).push(
                line(event),
            ).push(last));
            assert(events + final_events(visible) =~= events.push(calls).push(event));
        } else {
            assert(closing_lines(visible, true) =~= no_lines.push(line(calls)).push(last));
            assert(events + final_events(visible) =~= events.push(calls));
        }
    } else {
        if visible.provider_continuation is Some {
            assert(closing_lines(visible, true) =~= no_lines.push(line(event)).push(last));
            assert(events + final_events(visible) =~= events.push(event));
        } else {
            assert(closing_lines(visible, true) =~= no_lines.push(last));
            assert(events + final_events(visible) =~= events);
        }
    }
    assert(base + text::joined(closing_lines(visible, true)) =~= event_lines(
        events + final_events(visible),
        emit_reasoning,
    ) + last);
}

/// Replaying an answer from what the writer kept shows exactly what was shown when the answer
/// arrived: as one object, as JSON lines with the same boundaries, and as plain text. Plain
/// text that is streamed is the one way left out: reasoning that comes after some of the answer
/// has a block of its own there, where a replay has one block for all of it.
pub proof fn law_replay_shows_what_was_shown(
    simple: bool,
    stream: bool,
    emit_reasoning: bool,
    pieces: Seq<Piece>,
    calls: Seq<JsonView>,
    continuation: Option<ContinuationView>,
)
    requires
        !(simple && stream),
    ensures
        ({
            let start = WriterView::start(simple, stream, emit_reasoning, true);
            let told = start.after_pieces(pieces).with_rest(calls, continuation);
            let kept = told.after_finish();
            text::joined(start.piece_chunks(pieces) + told.finish_chunks()) == cached_text(
                kept.prospect,
                Some(kept.events),
                simple,
                stream,
                emit_reasoning,
            )
        }),
{
    broadcast use {text::lemma_joined_push, text::lemma_joined_add};

    let start = WriterView::start(simple, stream, emit_reasoning, true);
    let arrived = start.after_pieces(pieces);
    let told = arrived.with_rest(calls, continuation);
    let kept = told.after_finish();
    let visible = kept.prospect.visible(emit_reasoning);
    lemma_pieces_told(start, pieces);
    assert(final_events(kept.prospect) == final_events(visible));
    if !simple && stream {
        lemma_closing_lines(arrived.events, visible, emit_reasoning);
        if kept.events.len() == 0 {
            assert(final_events(visible).len() == 0);
            assert(snapshot_events(visible) =~= kept.events);
        }
    } else {
        assert(start.piece_chunks(pieces) =~= Seq::empty());
        assert(start.piece_chunks(pieces) + told.finish_chunks() =~= told.finish_chunks());
        if simple {
            let text = simple_text_of(visible);
            assert(seq![text] =~= Seq::empty().push(text));
            assert(text::joined(seq![text]) =~= text);
            assert(text.len() == 0 ==> text =~= text::joined(Seq::empty()));
        } else {
            let text = structured_text(visible);
            assert(seq![text] =~= Seq::empty().push(text));
            assert(text::joined(seq![text]) =~= text);
        }
    }
}

/// A stream that does not end with the whole answer tells the events and nothing else. Where
/// there are none, the whole answer tells none before it either.
pub proof fn lemma_stream_without_end(
    emit_reasoning: bool,
    pieces: Seq<Piece>,
    calls: Seq<JsonView>,
    continuation: Option<ContinuationView>,
)
    ensures
        ({
            let start = WriterView::start(false, true, emit_reasoning, false);
            let told = start.after_pieces(pieces).with_rest(calls, continuation);
            let kept = told.after_finish();
            &&& text::joined(start.piece_chunks(pieces) + told.finish_chunks()) == event_lines(
                kept.events,
                emit_reasoning,
            )
            &&& kept.events.len() == 0 ==> snapshot_events(kept.prospect.visible(emit_reasoning))
                == kept.events
            &&& kept.events.len() == 0 ==> kept.prospect.reasoning is None
                && kept.prospect.content.len() == 0 && final_events(kept.prospect).len() == 0
        }),
{
    broadcast use {text::lemma_joined_push, text::lemma_joined_add};

    let start = WriterView::start(false, true, emit_reasoning, false);
    let arrived = start.after_pieces(pieces);
    let told = arrived.with_rest(calls, continuation);
    let kept = told.after_finish();
    let visible = kept.prospect.visible(emit_reasoning);
    lemma_pieces_told(start, pieces);
    assert(final_events(kept.prospect) == final_events(visible));
    lemma_closing_lines(arrived.events, visible, emit_reasoning);
    let whole = closing_lines(visible, true);
    let told_lines = closing_lines(visible, false);
    let last = line(visible.done_event());
    assert(whole == told_lines.push(last));
    let lines = event_lines(arrived.events, emit_reasoning) + text::joined(told_lines);
    let events = event_lines(kept.events, emit_reasoning);
    assert(lines + last =~= events + last);
    assert(lines =~= (lines + last).take(lines.len() as int));
    assert(events =~= (events + last).take(events.len() as int));
    assert((lines + last).len() == (events + last).len());
    if kept.events.len() == 0 {
        assert(snapshot_events(visible) =~= kept.events);
    }
}

proof fn lemma_kept_in_any_mode(one: WriterView, other: WriterView, pieces: Seq<Piece>)
    requires
        one.prospect == other.prospect,
        one.events == other.events,
        one.final_events_recorded == other.final_events_recorded,
    ensures
        one.after_pieces(pieces).prospect == other.after_pieces(pieces).prospect,
        one.after_pieces(pieces).events == other.after_pieces(pieces).events,
        one.after_pieces(pieces).final_events_recorded == other.after_pieces(
            pieces,
        ).final_events_recorded,
    decreases pieces.len(),
{
    if pieces.len() > 0 {
        lemma_kept_in_any_mode(one, other, pieces.drop_last());
    }
}

/// What is kept of an answer does not depend on the way it is shown, so what was kept in one
/// way can be replayed in any other.
pub proof fn law_kept_answer_is_mode_free(
    one: (bool, bool, bool, bool),
    other: (bool, bool, bool, bool),
    pieces: Seq<Piece>,
    calls: Seq<JsonView>,
    continuation: Option<ContinuationView>,
)
    ensures
        ({
            let a = WriterView::start(one.0, one.1, one.2, one.3).after_pieces(pieces).with_rest(
                calls,
                continuation,
            ).after_finish();
            let b = WriterView::start(other.0, other.1, other.2, other.3).after_pieces(
                pieces,
            ).with_rest(calls, continuation).after_finish();
            a.prospect == b.prospect && a.events == b.events
        }),
{
    lemma_kept_in_any_mode(
        WriterView::start(one.0, one.1, one.2, one.3),
        WriterView::start(other.0, other.1, other.2, other.3),
        pieces,
    );
}

/// Finishing a second time records no event a second time.
pub proof fn law_final_events_once(writer: WriterView)
    ensures
        writer.after_finish().after_finish().events == writer.after_finish().events,
        writer.after_finish().after_finish() == writer.after_finish(),
{
}

/// An answer survives being stored as an object, unless its constrained part is null: null
/// is read back as no constrained part.
pub proof fn law_prospect_round_trip(prospect: ProspectView)
    requires
        prospect.constrained != Some(JsonView::Null),
    ensures
        prospect_of(prospect.json()) == Some(prospect),
{
    broadcast use json::group_lookup;

    lemma_member_names();
    let empty: Entries = Seq::empty();
    let plain = empty.push(("reasoning"@, json::text_or_null(prospect.reasoning))).push(
        ("content"@, JsonView::Text(prospect.content)),
    ).push(("tool_calls"@, JsonView::Array(prospect.tool_calls))).push(
        ("provider_continuation"@, continuation_or_null(prospect.provider_continuation)),
    );
    let all = match prospect.constrained {
        Some(value) => plain.push(("constrained"@, value)),
        None => plain,
    };
    assert(prospect.entries() =~= all);
    if let Some(continuation) = prospect.provider_continuation {
        law_continuation_round_trip(continuation);
    }
}

/// The last event of a stream is the whole answer: it repeats reasoning, content, tool calls
/// and continuation.
pub proof fn law_done_event_is_the_whole_answer(prospect: ProspectView)
    requires
        prospect.constrained != Some(JsonView::Null),
    ensures
        prospect_of(prospect.done_event()) == Some(prospect),
        prospect.done_event().get("type"@) == Some(JsonView::Text("done"@)),
{
    lemma_member_names();
    let none: Entries = Seq::empty();
    let plain = none.push(("type"@, JsonView::Text("done"@))).push(
        ("reasoning"@, json::text_or_null(prospect.reasoning)),
    ).push(("content"@, JsonView::Text(prospect.content))).push(
        ("tool_calls"@, JsonView::Array(prospect.tool_calls)),
    ).push(("provider_continuation"@, continuation_or_null(prospect.provider_continuation)));
    let all = match prospect.constrained {
        Some(value) => plain.push(("constrained"@, value)),
        None => plain,
    };
    assert(prospect.done_event()->Object_0 =~= all);
    if let Some(continuation) = prospect.provider_continuation {
        law_continuation_round_trip(continuation);
    }
}

/// The pieces of a kind that events tell, one after the other.
pub open spec fn told_text(events: Seq<JsonView>, kind: Seq<char>) -> Seq<char>
    decreases events.len(),
{
    if events.len() == 0 {
        Seq::empty()
    } else {
        let before = told_text(events.drop_last(), kind);
        match (events.last().get_str("type"@), events.last().get_str("delta"@)) {
            (Some(found), Some(delta)) => if found == kind {
                before + delta
            } else {
                before
            },
            _ => before,
        }
    }
}

proof fn lemma_told_text_push(events: Seq<JsonView>, kind: Seq<char>, delta: Seq<char>)
    ensures
        told_text(events.push(reasoning_event(delta)), kind) == (if kind == "reasoning_delta"@ {
            told_text(events, kind) + delta
        } else {
            told_text(events, kind)
        }),
        told_text(events.push(content_event(delta)), kind) == (if kind == "content_delta"@ {
            told_text(events, kind) + delta
        } else {
            told_text(events, kind)
        }),
{
    lemma_member_names();
    let none: Entries = Seq::empty();
    let reasoning = ("type"@, JsonView::Text("reasoning_delta"@));
    let content = ("type"@, JsonView::Text("content_delta"@));
    let text = ("delta"@, JsonView::Text(delta));
    assert(reasoning_event(delta)->Object_0 =~= none.push(reasoning).push(text));
    assert(content_event(delta)->Object_0 =~= none.push(content).push(text));
    assert(events.push(reasoning_event(delta)).drop_last() =~= events);
    assert(events.push(content_event(delta)).drop_last() =~= events);
}

/// The deltas of a stream add up to the answer: those of content to the content, and those of
/// reasoning to the reasoning.
pub proof fn law_deltas_add_up(
    simple: bool,
    stream: bool,
    emit_reasoning: bool,
    emit_done: bool,
    pieces: Seq<Piece>,
)
    ensures
        ({
            let writer = WriterView::start(simple, stream, emit_reasoning, emit_done).after_pieces(
                pieces,
            );
            &&& told_text(writer.events, "content_delta"@) == writer.prospect.content
            &&& told_text(writer.events, "reasoning_delta"@) == (match writer.prospect.reasoning {
                Some(reasoning) => reasoning,
                None => Seq::empty(),
            })
        }),
    decreases pieces.len(),
{
    reveal_strlit("reasoning_delta");
    reveal_strlit("content_delta");
    assert("reasoning_delta"@.len() != "content_delta"@.len());
    if pieces.len() > 0 {
        law_deltas_add_up(simple, stream, emit_reasoning, emit_done, pieces.drop_last());
        let before = WriterView::start(simple, stream, emit_reasoning, emit_done).after_pieces(
            pieces.drop_last(),
        );
        let delta = match pieces.last() {
            Piece::Reasoning(delta) => delta,
            Piece::Content(delta) => delta,
        };
        lemma_told_text_push(before.events, "content_delta"@, delta);
        lemma_told_text_push(before.events, "reasoning_delta"@, delta);
    }
}

/// Whether a piece brings some of the answer.
pub open spec fn brings_content(piece: Piece) -> bool {
    piece matches Piece::Content(delta) && delta.len() > 0
}

/// Whether a piece brings some reasoning.
pub open spec fn brings_reasoning(piece: Piece) -> bool {
    piece matches Piece::Reasoning(delta) && delta.len() > 0
}

/// Whether nothing of the answer comes before any reasoning.
pub open spec fn reasoning_first(pieces: Seq<Piece>) -> bool {
    forall|i: int, j: int|
        0 <= i < j < pieces.len() && #[trigger] brings_content(pieces[i])
            ==> !#[trigger] brings_reasoning(pieces[j])
}

/// The block round the reasoning, as far as it was written.
spec fn think_text(writer: WriterView) -> Seq<char> {
    match writer.prospect.reasoning {
        Some(reasoning) => if writer.emit_reasoning {
            "<think>"@ + reasoning + if writer.think_closed {
                "</think>\n"@
            } else {
                Seq::empty()
            }
        } else {
            Seq::empty()
        },
        None => Seq::empty(),
    }
}

proof fn lemma_plain_stream(start: WriterView, pieces: Seq<Piece>)
    requires
        start == WriterView::start(true, true, start.emit_reasoning, start.emit_done),
        start.emit_reasoning ==> reasoning_first(pieces),
    ensures
        ({
            let writer = start.after_pieces(pieces);
            &&& writer.simple && writer.stream && writer.emit_reasoning == start.emit_reasoning
            &&& writer.prospect.constrained is None
            &&& writer.think_open == (writer.emit_reasoning && writer.prospect.reasoning is Some)
            &&& writer.think_closed ==> writer.think_open && writer.prospect.content.len() > 0
            &&& writer.prospect.content.len() > 0 && writer.think_open ==> writer.think_closed
            &&& text::joined(start.piece_chunks(pieces)) == think_text(writer)
                + writer.prospect.content
            &&& writer.prospect.content.len() > 0 ==> exists|i: int|
                0 <= i < pieces.len() && #[trigger] brings_content(pieces[i])
        }),
    decreases pieces.len(),
{
    broadcast use {text::lemma_joined_push, text::lemma_joined_add};

    let none: Seq<Seq<char>> = Seq::empty();
    if pieces.len() == 0 {
        assert(text::joined(start.piece_chunks(pieces)) =~= think_text(start)
            + start.prospect.content);
    } else {
        let rest = pieces.drop_last();
        if start.emit_reasoning {
            assert forall|i: int, j: int|
                0 <= i < j < rest.len() && #[trigger] brings_content(
                    rest[i],
                ) implies !#[trigger] brings_reasoning(rest[j]) by {
                assert(brings_content(pieces[i]));
                assert(!brings_reasoning(pieces[j]));
            }
        }
        lemma_plain_stream(start, rest);
        let before = start.after_pieces(rest);
        let after = start.after_pieces(pieces);
        let last = pieces.len() - 1;
        if before.prospect.content.len() > 0 {
            let i = choose|i: int| 0 <= i < rest.len() && #[trigger] brings_content(rest[i]);
            assert(brings_content(pieces[i]));
            assert(start.emit_reasoning ==> !brings_reasoning(pieces[last]));
        }
        match pieces.last() {
            Piece::Reasoning(delta) => {
                assert(seq!["<think>"@, delta] =~= none.push("<think>"@).push(delta));
                assert(seq![delta] =~= none.push(delta));
            },
            Piece::Content(delta) => {
                assert(delta.len() > 0 ==> brings_content(pieces[last]));
                assert(seq!["</think>\n"@] =~= none.push("</think>\n"@));
                assert(seq![delta] =~= none.push(delta));
            },
        }
        assert(text::joined(start.piece_chunks(pieces)) =~= think_text(after)
            + after.prospect.content);
    }
}

/// A part of plain text: a block of reasoning, or some of the answer.
pub enum Segment {
    Block(Seq<char>),
    Answer(Seq<char>),
}

impl Segment {
    pub open spec fn text(self) -> Seq<char> {
        match self {
            Segment::Block(reasoning) => "<think>"@ + reasoning + "</think>\n"@,
            Segment::Answer(content) => content,
        }
    }
}

/// The segments of pieces: reasoning that comes in a row makes a block, and each piece of the
/// answer stands by itself.
pub open spec fn segments(pieces: Seq<Piece>, emit_reasoning: bool) -> Seq<Segment>
    decreases pieces.len(),
{
    if pieces.len() == 0 {
        Seq::empty()
    } else {
        let before = segments(pieces.drop_last(), emit_reasoning);
        match pieces.last() {
            Piece::Reasoning(delta) => if delta.len() == 0 || !emit_reasoning {
                before
            } else if before.len() > 0 && before.last() is Block {
                before.drop_last().push(Segment::Block(before.last()->Block_0 + delta))
            } else {
                before.push(Segment::Block(delta))
            },
            Piece::Content(delta) => if delta.len() == 0 {
                before
            } else {
                before.push(Segment::Answer(delta))
            },
        }
    }
}

/// The text of segments in order.
pub open spec fn segments_text(segments: Seq<Segment>) -> Seq<char>
    decreases segments.len(),
{
    if segments.len() == 0 {
        Seq::empty()
    } else {
        segments_text(segments.drop_last()) + segments.last().text()
    }
}

/// What stands in the blocks of segments.
pub open spec fn block_text(segments: Seq<Segment>) -> Seq<char>
    decreases segments.len(),
{
    if segments.len() == 0 {
        Seq::empty()
    } else {
        block_text(segments.drop_last()) + match segments.last() {
            Segment::Block(reasoning) => reasoning,
            Segment::Answer(_) => Seq::empty(),
        }
    }
}

/// What stands outside the blocks of segments.
pub open spec fn answer_text(segments: Seq<Segment>) -> Seq<char>
    decreases segments.len(),
{
    if segments.len() == 0 {
        Seq::empty()
    } else {
        answer_text(segments.drop_last()) + match segments.last() {
            Segment::Block(_) => Seq::empty(),
            Segment::Answer(content) => content,
        }
    }
}

proof fn lemma_segment_push(before: Seq<Segment>, segment: Segment)
    ensures
        segments_text(before.push(segment)) == segments_text(before) + segment.text(),
        block_text(before.push(segment)) == block_text(before) + (match segment {
            Segment::Block(reasoning) => reasoning,
            Segment::Answer(_) => Seq::empty(),
        }),
        answer_text(before.push(segment)) == answer_text(before) + (match segment {
            Segment::Block(_) => Seq::empty(),
            Segment::Answer(content) => content,
        }),
{
    assert(before.push(segment).drop_last() =~= before);
}

/// The state of a writer of plain text after pieces, in the terms of their segments.
spec fn in_segments(start: WriterView, pieces: Seq<Piece>) -> bool {
    let writer = start.after_pieces(pieces);
    let parts = segments(pieces, start.emit_reasoning);
    let close = if writer.in_think() {
        "</think>\n"@
    } else {
        Seq::empty()
    };
    &&& writer.plain_stream() && writer.emit_reasoning == start.emit_reasoning
    &&& writer.in_think() == (parts.len() > 0 && parts.last() is Block)
    &&& text::joined(start.piece_chunks(pieces)) + close == segments_text(parts)
    &&& answer_text(parts) == writer.prospect.content
    &&& block_text(parts) == (match writer.prospect.visible(start.emit_reasoning).reasoning {
        Some(reasoning) => reasoning,
        None => Seq::empty(),
    })
}

proof fn lemma_reasoning_in_segments(start: WriterView, pieces: Seq<Piece>, delta: Seq<char>)
    requires
        in_segments(start, pieces),
    ensures
        in_segments(start, pieces.push(Piece::Reasoning(delta))),
{
    broadcast use {text::lemma_joined_push, text::lemma_joined_add};

    let more = pieces.push(Piece::Reasoning(delta));
    assert(more.drop_last() =~= pieces);
    let none: Seq<Seq<char>> = Seq::empty();
    let before = start.after_pieces(pieces);
    let parts = segments(pieces, start.emit_reasoning);
    let written = text::joined(start.piece_chunks(pieces));
    assert(written + text::joined(none) =~= written);
    if delta.len() > 0 && start.emit_reasoning {
        assert(seq!["<think>"@, delta] =~= none.push("<think>"@).push(delta));
        assert(seq![delta] =~= none.push(delta));
        let after = segments(more, start.emit_reasoning);
        if before.in_think() {
            let held = parts.last()->Block_0;
            let rest = parts.drop_last();
            lemma_segment_push(rest, Segment::Block(held));
            lemma_segment_push(rest, Segment::Block(held + delta));
            assert(rest.push(Segment::Block(held)) =~= parts);
            assert(written =~= segments_text(rest) + "<think>"@ + held) by {
                let close = "</think>\n"@;
                let whole = segments_text(rest) + "<think>"@ + held;
                assert(written + close =~= whole + close);
                assert((written + close).take(written.len() as int) =~= written);
                assert((whole + close).take(whole.len() as int) =~= whole);
            }
            assert(text::joined(start.piece_chunks(more)) + "</think>\n"@ =~= segments_text(after));
            assert(block_text(after) =~= block_text(parts) + delta);
        } else {
            lemma_segment_push(parts, Segment::Block(delta));
            assert(written + Seq::<char>::empty() =~= written);
            assert(text::joined(start.piece_chunks(more)) + "</think>\n"@ =~= segments_text(after));
        }
        assert(answer_text(after) =~= answer_text(parts));
    }
}

proof fn lemma_content_in_segments(start: WriterView, pieces: Seq<Piece>, delta: Seq<char>)
    requires
        in_segments(start, pieces),
    ensures
        in_segments(start, pieces.push(Piece::Content(delta))),
{
    broadcast use {text::lemma_joined_push, text::lemma_joined_add};

    let more = pieces.push(Piece::Content(delta));
    assert(more.drop_last() =~= pieces);
    let none: Seq<Seq<char>> = Seq::empty();
    let before = start.after_pieces(pieces);
    let parts = segments(pieces, start.emit_reasoning);
    let written = text::joined(start.piece_chunks(pieces));
    assert(written + text::joined(none) =~= written);
    if delta.len() > 0 {
        assert(seq!["</think>\n"@] =~= none.push("</think>\n"@));
        assert(seq![delta] =~= none.push(delta));
        let after = segments(more, start.emit_reasoning);
        lemma_segment_push(parts, Segment::Answer(delta));
        assert(text::joined(start.piece_chunks(more)) + Seq::<char>::empty() =~= segments_text(
            after,
        ));
        assert(block_text(after) =~= block_text(parts));
    }
}

proof fn lemma_in_segments(start: WriterView, pieces: Seq<Piece>)
    requires
        start == WriterView::start(true, true, start.emit_reasoning, start.emit_done),
    ensures
        in_segments(start, pieces),
    decreases pieces.len(),
{
    if pieces.len() == 0 {
        let empty: Seq<char> = Seq::empty();
        assert(text::joined(start.piece_chunks(pieces)) + empty =~= segments_text(
            segments(pieces, start.emit_reasoning),
        ));
    } else {
        let rest = pieces.drop_last();
        lemma_in_segments(start, rest);
        assert(rest.push(pieces.last()) =~= pieces);
        match pieces.last() {
            Piece::Reasoning(delta) => lemma_reasoning_in_segments(start, rest, delta),
            Piece::Content(delta) => lemma_content_in_segments(start, rest, delta),
        }
    }
}

/// In plain text that is streamed all reasoning that is shown stands within blocks, and outside
/// them stands the answer and nothing else but tool calls at the end.
pub proof fn law_reasoning_stands_in_blocks(
    emit_reasoning: bool,
    emit_done: bool,
    pieces: Seq<Piece>,
    calls: Seq<JsonView>,
    continuation: Option<ContinuationView>,
)
    ensures
        ({
            let start = WriterView::start(true, true, emit_reasoning, emit_done);
            let told = start.after_pieces(pieces).with_rest(calls, continuation);
            let visible = told.prospect.visible(emit_reasoning);
            let parts = segments(pieces, emit_reasoning);
            &&& text::joined(start.piece_chunks(pieces) + told.finish_chunks()) == segments_text(
                parts,
            ) + (if calls_only(visible) {
                tools::tool_calls_text(calls)
            } else {
                Seq::empty()
            })
            &&& answer_text(parts) == visible.content
            &&& block_text(parts) == (match visible.reasoning {
                Some(reasoning) => reasoning,
                None => Seq::empty(),
            })
        }),
{
    broadcast use {text::lemma_joined_push, text::lemma_joined_add};

    let none: Seq<Seq<char>> = Seq::empty();
    let start = WriterView::start(true, true, emit_reasoning, emit_done);
    let told = start.after_pieces(pieces).with_rest(calls, continuation);
    let visible = told.prospect.visible(emit_reasoning);
    let parts = segments(pieces, emit_reasoning);
    lemma_in_segments(start, pieces);
    assert(seq!["</think>\n"@] =~= none.push("</think>\n"@));
    let written = text::joined(start.piece_chunks(pieces));
    let close = text::joined(told.closing_chunks());
    assert(written + close =~= segments_text(parts));
    let shown = text::joined(start.piece_chunks(pieces) + told.finish_chunks());
    if calls_only(visible) {
        assert(shown =~= written + close + tools::tool_calls_text(calls));
    } else {
        assert(shown =~= written + close + Seq::<char>::empty());
    }
}

/// Whether plain text that is streamed can be replayed as it was shown. It cannot where
/// reasoning that is shown comes after some of the answer, since it has a block of its own then
/// and a replay has one block for all; nor where an answer of nothing but white space comes
/// beside tool calls, since that white space is out before the calls are known.
pub open spec fn plain_stream_replays(
    emit_reasoning: bool,
    pieces: Seq<Piece>,
    calls: Seq<JsonView>,
) -> bool {
    let content = WriterView::start(true, true, emit_reasoning, true).after_pieces(
        pieces,
    ).prospect.content;
    &&& emit_reasoning ==> reasoning_first(pieces)
    &&& calls.len() > 0 && text::trimmed(content).len() == 0 ==> content.len() == 0
}

/// Plain text that is streamed is what a replay shows too, where the reasoning that is shown
/// comes before the answer, as providers send it, and the answer is not nothing but white space
/// beside tool calls.
pub proof fn law_plain_stream_replays(
    emit_reasoning: bool,
    pieces: Seq<Piece>,
    calls: Seq<JsonView>,
    continuation: Option<ContinuationView>,
)
    requires
        plain_stream_replays(emit_reasoning, pieces, calls),
    ensures
        ({
            let start = WriterView::start(true, true, emit_reasoning, true);
            let told = start.after_pieces(pieces).with_rest(calls, continuation);
            let kept = told.after_finish();
            text::joined(start.piece_chunks(pieces) + told.finish_chunks()) == cached_text(
                kept.prospect,
                Some(kept.events),
                true,
                true,
                emit_reasoning,
            )
        }),
{
    broadcast use {text::lemma_joined_push, text::lemma_joined_add};

    let none: Seq<Seq<char>> = Seq::empty();
    let start = WriterView::start(true, true, emit_reasoning, true);
    let arrived = start.after_pieces(pieces);
    let told = arrived.with_rest(calls, continuation);
    let kept = told.after_finish();
    let visible = kept.prospect.visible(emit_reasoning);
    lemma_plain_stream(start, pieces);
    assert(seq!["</think>\n"@] =~= none.push("</think>\n"@));
    let shown = text::joined(start.piece_chunks(pieces) + told.finish_chunks());
    let written = text::joined(start.piece_chunks(pieces));
    let close = text::joined(told.closing_chunks());
    let called = tools::tool_calls_text(visible.tool_calls);
    if calls_only(visible) {
        assert(shown == written + (close + called));
        assert(visible.content =~= Seq::empty());
        assert(shown =~= simple_text_of(visible));
    } else {
        assert(shown == written + close);
        assert(shown =~= simple_text_of(visible));
    }
}

/// A continuation survives being stored as an object and being told as an event.
pub proof fn law_continuation_round_trip(continuation: ContinuationView)
    ensures
        continuation_of(continuation.json()) == Some(continuation),
        continuation_of(continuation.stream_event()) == Some(continuation),
{
    broadcast use json::group_lookup;

    lemma_member_names();
    let empty: Entries = Seq::empty();
    let head = empty.push(("provider"@, JsonView::Text(continuation.provider)));
    let items = ("reasoning_items"@, JsonView::Array(continuation.reasoning_items));
    match continuation.response_id {
        Some(id) => {
            assert(continuation.entries() =~= head.push(("response_id"@, JsonView::Text(id))).push(
                items,
            ));
        },
        None => {
            assert(continuation.entries() =~= head.push(items));
        },
    }
}

/// The members of an answer that is shown or kept as an object, and those of the last event of
/// a stream: the whole of it, each under its name.
pub proof fn law_answer_members(prospect: ProspectView, key: Seq<char>)
    ensures
        ({
            let shown = prospect.json();
            let done = prospect.done_event();
            &&& shown.get("content"@) == Some(JsonView::Text(prospect.content))
            &&& shown.get("reasoning"@) == Some(
                match prospect.reasoning {
                    Some(reasoning) => JsonView::Text(reasoning),
                    None => JsonView::Null,
                },
            )
            &&& shown.get("tool_calls"@) == Some(JsonView::Array(prospect.tool_calls))
            &&& match prospect.provider_continuation {
                Some(continuation) => shown.get("provider_continuation"@) == Some(
                    continuation.json(),
                ),
                None => shown.get("provider_continuation"@) == Some(JsonView::Null),
            }
            &&& shown.get("constrained"@) == prospect.constrained
            &&& key != "content"@ && key != "reasoning"@ && key != "tool_calls"@ && key
                != "provider_continuation"@ && key != "constrained"@ ==> shown.get(key) is None
            &&& done.get("type"@) == Some(JsonView::Text("done"@))
            &&& key != "type"@ ==> done.get(key) == shown.get(key)
        }),
{
    lemma_member_names();
    let none: Entries = Seq::empty();
    let mark: Entries = none.push(("type"@, JsonView::Text("done"@)));
    let reasoning = ("reasoning"@, json::text_or_null(prospect.reasoning));
    let content = ("content"@, JsonView::Text(prospect.content));
    let calls = ("tool_calls"@, JsonView::Array(prospect.tool_calls));
    let continuation = (
        "provider_continuation"@,
        continuation_or_null(prospect.provider_continuation),
    );
    let plain = none.push(reasoning).push(content).push(calls).push(continuation);
    let told = mark.push(reasoning).push(content).push(calls).push(continuation);
    match prospect.constrained {
        Some(value) => {
            assert(prospect.entries() =~= plain.push(("constrained"@, value)));
            assert(prospect.done_event()->Object_0 =~= told.push(("constrained"@, value)));
        },
        None => {
            assert(prospect.entries() =~= plain);
            assert(prospect.done_event()->Object_0 =~= told);
        },
    }
}

/// The members of a continuation, and those of the event that tells it.
pub proof fn law_continuation_members(continuation: ContinuationView)
    ensures
        ({
            let kept = continuation.json();
            let told = continuation.stream_event();
            &&& kept.get("provider"@) == Some(JsonView::Text(continuation.provider))
            &&& kept.get("response_id"@) == (match continuation.response_id {
                Some(id) => Some(JsonView::Text(id)),
                None => None,
            })
            &&& kept.get("reasoning_items"@) == Some(JsonView::Array(continuation.reasoning_items))
            &&& told.get("type"@) == Some(JsonView::Text("provider_continuation"@))
            &&& told.get("provider"@) == kept.get("provider"@)
            &&& told.get("response_id"@) == kept.get("response_id"@)
            &&& told.get("reasoning_items"@) == kept.get("reasoning_items"@)
        }),
{
    lemma_member_names();
    let none: Entries = Seq::empty();
    let head: Entries = seq![("provider"@, JsonView::Text(continuation.provider))];
    assert(head =~= none.push(("provider"@, JsonView::Text(continuation.provider))));
}

/// The members of the event that tells tool calls.
pub proof fn law_tool_calls_event(calls: Seq<JsonView>)
    ensures
        tool_calls_event(calls).get("type"@) == Some(JsonView::Text("tool_calls"@)),
        tool_calls_event(calls).get("tool_calls"@) == Some(JsonView::Array(calls)),
{
    lemma_member_names();
    let none: Entries = Seq::empty();
    let mark = ("type"@, JsonView::Text("tool_calls"@));
    let held = ("tool_calls"@, JsonView::Array(calls));
    assert(tool_calls_event(calls)->Object_0 =~= none.push(mark).push(held));
}

/// The members of the events that tell a piece of the answer.
pub proof fn law_delta_events(delta: Seq<char>)
    ensures
        content_event(delta).get("type"@) == Some(JsonView::Text("content_delta"@)),
        content_event(delta).get("delta"@) == Some(JsonView::Text(delta)),
        reasoning_event(delta).get("type"@) == Some(JsonView::Text("reasoning_delta"@)),
        reasoning_event(delta).get("delta"@) == Some(JsonView::Text(delta)),
{
    lemma_member_names();
    let none: Entries = Seq::empty();
    let held = ("delta"@, JsonView::Text(delta));
    let content = ("type"@, JsonView::Text("content_delta"@));
    let reasoning = ("type"@, JsonView::Text("reasoning_delta"@));
    assert(content_event(delta)->Object_0 =~= none.push(content).push(held));
    assert(reasoning_event(delta)->Object_0 =~= none.push(reasoning).push(held));
}

/// What is told at the end of a stream: the tool calls, where there are any, and behind them
/// the continuation, where there is one.
pub proof fn law_what_the_end_tells(prospect: ProspectView)
    ensures
        ({
            let told = final_events(prospect);
            let calls: int = if prospect.tool_calls.len() > 0 {
                1
            } else {
                0
            };
            let rest: int = if prospect.provider_continuation is Some {
                1
            } else {
                0
            };
            &&& told.len() == calls + rest
            &&& calls == 1 ==> told[0].get("type"@) == Some(JsonView::Text("tool_calls"@))
                && told[0].get("tool_calls"@) == Some(JsonView::Array(prospect.tool_calls))
            &&& prospect.provider_continuation matches Some(continuation) ==> told[calls].get(
                "type"@,
            ) == Some(JsonView::Text("provider_continuation"@)) && told[calls].get("provider"@)
                == Some(JsonView::Text(continuation.provider)) && told[calls].get(
                "reasoning_items"@,
            ) == Some(JsonView::Array(continuation.reasoning_items))
        }),
{
    law_tool_calls_event(prospect.tool_calls);
    if let Some(continuation) = prospect.provider_continuation {
        law_continuation_members(continuation);
    }
}

/// The plain text of an answer: the constrained value by itself, where there is one; else the
/// reasoning in its block and the content. Tool calls are shown where there is no content.
pub proof fn law_plain_text(
    prospect: ProspectView,
    events: Option<Seq<JsonView>>,
    stream: bool,
    emit_reasoning: bool,
)
    ensures
        ({
            let text = cached_text(prospect, events, true, stream, emit_reasoning);
            let thought = match prospect.reasoning {
                Some(reasoning) => if emit_reasoning {
                    "<think>"@ + reasoning + "</think>\n"@
                } else {
                    Seq::empty()
                },
                None => Seq::empty(),
            };
            let blank = text::trimmed(prospect.content).len() == 0;
            &&& prospect.constrained matches Some(value) ==> text == bridge::pretty(value) + "\n"@
            &&& prospect.constrained is None && (!blank || prospect.tool_calls.len() == 0) ==> text
                == thought + prospect.content
            &&& prospect.constrained is None && blank && prospect.tool_calls.len() > 0 ==> text
                == thought + (bridge::pretty(JsonView::Array(prospect.tool_calls)) + "\n"@)
        }),
{
}

/// The answer as it is shown has all that it has, but for reasoning that is not to be shown.
pub proof fn law_only_reasoning_is_hidden(prospect: ProspectView, emit_reasoning: bool)
    ensures
        ({
            let shown = prospect.visible(emit_reasoning);
            &&& shown.content == prospect.content
            &&& shown.tool_calls == prospect.tool_calls
            &&& shown.provider_continuation == prospect.provider_continuation
            &&& shown.constrained == prospect.constrained
            &&& emit_reasoning ==> shown.reasoning == prospect.reasoning
            &&& !emit_reasoning ==> shown.reasoning is None
        }),
{
}

/// An answer that is shown neither as plain text nor as a stream is shown as one object, laid
/// out, with all that is to be shown of it.
pub proof fn law_object_text(
    prospect: ProspectView,
    events: Option<Seq<JsonView>>,
    emit_reasoning: bool,
)
    ensures
        exists|object: JsonView|
            {
                &&& cached_text(prospect, events, false, false, emit_reasoning)
                    == #[trigger] bridge::pretty(object) + "\n"@
                &&& object.get("content"@) == Some(JsonView::Text(prospect.content))
                &&& object.get("tool_calls"@) == Some(JsonView::Array(prospect.tool_calls))
                &&& object.get("constrained"@) == prospect.constrained
                &&& object.get("reasoning"@) == Some(
                    match prospect.reasoning {
                        Some(reasoning) => if emit_reasoning {
                            JsonView::Text(reasoning)
                        } else {
                            JsonView::Null
                        },
                        None => JsonView::Null,
                    },
                )
            },
{
    let shown = prospect.visible(emit_reasoning);
    law_answer_members(shown, "content"@);
    assert(cached_text(prospect, events, false, false, emit_reasoning) == bridge::pretty(
        shown.json(),
    ) + "\n"@);
}

/// The events of a stream are told each on a line of its own, in order. Events of reasoning are
/// left out where no reasoning is to be shown, and no others.
pub proof fn law_events_line_by_line(
    events: Seq<JsonView>,
    event: JsonView,
    emit_reasoning: bool,
)
    ensures
        event_lines(Seq::empty(), emit_reasoning).len() == 0,
        event_lines(events.push(event), emit_reasoning) == event_lines(events, emit_reasoning) + (
        if !emit_reasoning && event.get_str("type"@) == Some("reasoning_delta"@) {
            Seq::empty()
        } else {
            bridge::compact(event) + "\n"@
        }),
{
    assert(events.push(event).drop_last() =~= events);
    let before = event_lines(events, emit_reasoning);
    assert(before + Seq::empty() =~= before);
}

/// A stream that is replayed tells the events that were recorded, where there are any, and then
/// the whole answer as far as it is to be shown.
pub proof fn law_replayed_stream(
    prospect: ProspectView,
    events: Seq<JsonView>,
    emit_reasoning: bool,
)
    requires
        events.len() > 0,
    ensures
        exists|done: JsonView|
            {
                &&& cached_text(prospect, Some(events), false, true, emit_reasoning) == event_lines(
                    events,
                    emit_reasoning,
                ) + (#[trigger] bridge::compact(done) + "\n"@)
                &&& done.get("type"@) == Some(JsonView::Text("done"@))
                &&& done.get("content"@) == Some(JsonView::Text(prospect.content))
                &&& done.get("tool_calls"@) == Some(JsonView::Array(prospect.tool_calls))
                &&& done.get("constrained"@) == prospect.constrained
                &&& !emit_reasoning ==> done.get("reasoning"@) == Some(JsonView::Null)
            },
{
    lemma_member_names();
    let shown = prospect.visible(emit_reasoning);
    law_answer_members(shown, "content"@);
    law_answer_members(shown, "tool_calls"@);
    law_answer_members(shown, "constrained"@);
    law_answer_members(shown, "reasoning"@);
    let done = shown.done_event();
    assert(cached_text(prospect, Some(events), false, true, emit_reasoning) == event_lines(
        events,
        emit_reasoning,
    ) + (bridge::compact(done) + "\n"@));
}

/// An answer of which no events were recorded is told by one event for its reasoning, one for
/// its content, and those of its end; there is none for what is empty.
pub proof fn law_snapshot(prospect: ProspectView)
    ensures
        ({
            let told = snapshot_events(prospect);
            let thought: int = if prospect.reasoning matches Some(text) && text.len() > 0 {
                1
            } else {
                0
            };
            let said: int = if prospect.content.len() > 0 {
                1
            } else {
                0
            };
            &&& told.skip(thought + said) == final_events(prospect)
            &&& told.len() == thought + said + final_events(prospect).len()
            &&& thought == 1 ==> told[0].get("type"@) == Some(JsonView::Text("reasoning_delta"@))
                && told[0].get("delta"@) == Some(JsonView::Text(prospect.reasoning->0))
            &&& said == 1 ==> told[thought].get("type"@) == Some(JsonView::Text("content_delta"@))
                && told[thought].get("delta"@) == Some(JsonView::Text(prospect.content))
        }),
{
    let thought: int = if prospect.reasoning matches Some(text) && text.len() > 0 {
        1
    } else {
        0
    };
    let said: int = if prospect.content.len() > 0 {
        1
    } else {
        0
    };
    assert(snapshot_events(prospect).skip(thought + said) =~= final_events(prospect));
    law_delta_events(prospect.content);
    if let Some(text) = prospect.reasoning {
        law_delta_events(text);
    }
}

/// What is written when a piece of the answer arrives: the piece itself in a stream of plain
/// text, behind the end of a block of reasoning that is open; an event on a line in a stream of
/// events; nothing yet where the answer is not streamed.
pub proof fn law_content_as_it_arrives(writer: WriterView, delta: Seq<char>)
    requires
        delta.len() > 0,
    ensures
        ({
            let written = text::joined(writer.content_chunks(delta));
            let open = writer.think_open && !writer.think_closed;
            &&& !writer.stream ==> written.len() == 0
            &&& writer.stream && writer.simple ==> written == (if open {
                "</think>\n"@ + delta
            } else {
                delta
            })
            &&& writer.stream && !writer.simple ==> exists|event: JsonView|
                {
                    &&& written == #[trigger] bridge::compact(event) + "\n"@
                    &&& event.get("type"@) == Some(JsonView::Text("content_delta"@))
                    &&& event.get("delta"@) == Some(JsonView::Text(delta))
                }
            &&& writer.stream && writer.simple ==> {
                let after = writer.after_content(delta);
                !(after.think_open && !after.think_closed)
            }
        }),
{
    law_delta_events(delta);
    reveal_with_fuel(text::joined, 3);
    let chunks = writer.content_chunks(delta);
    if writer.stream && !writer.simple {
        assert(chunks.drop_last() =~= Seq::empty());
        assert(text::joined(chunks) =~= bridge::compact(content_event(delta)) + "\n"@);
    } else if writer.stream {
        if writer.in_think() {
            assert(chunks.drop_last() =~= seq!["</think>\n"@]);
            assert(chunks.drop_last().drop_last() =~= Seq::empty());
            assert(text::joined(chunks) =~= "</think>\n"@ + delta);
        } else {
            assert(chunks.drop_last() =~= Seq::empty());
            assert(text::joined(chunks) =~= delta);
        }
    }
}

/// What is written when a piece of reasoning arrives that is to be shown: the piece in a block
/// in a stream of plain text; an event on a line in a stream of events. Nothing is written where
/// the answer is not streamed or no reasoning is to be shown.
pub proof fn law_reasoning_as_it_arrives(writer: WriterView, delta: Seq<char>)
    requires
        delta.len() > 0,
    ensures
        ({
            let written = text::joined(writer.reasoning_chunks(delta));
            let open = writer.think_open && !writer.think_closed;
            &&& !writer.stream || !writer.emit_reasoning ==> written.len() == 0
            &&& writer.stream && writer.emit_reasoning && writer.simple ==> written == (if open {
                delta
            } else {
                "<think>"@ + delta
            })
            &&& writer.stream && writer.emit_reasoning && !writer.simple ==> exists|
                event: JsonView,
            |
                {
                    &&& written == #[trigger] bridge::compact(event) + "\n"@
                    &&& event.get("type"@) == Some(JsonView::Text("reasoning_delta"@))
                    &&& event.get("delta"@) == Some(JsonView::Text(delta))
                }
            &&& writer.stream && writer.emit_reasoning && writer.simple ==> {
                let after = writer.after_reasoning(delta);
                after.think_open && !after.think_closed
            }
        }),
{
    law_delta_events(delta);
    reveal_with_fuel(text::joined, 3);
    let chunks = writer.reasoning_chunks(delta);
    if writer.stream && writer.emit_reasoning {
        if !writer.simple {
            assert(chunks.drop_last() =~= Seq::empty());
            assert(text::joined(chunks) =~= bridge::compact(reasoning_event(delta)) + "\n"@);
        } else if writer.in_think() {
            assert(chunks.drop_last() =~= Seq::empty());
            assert(text::joined(chunks) =~= delta);
        } else {
            assert(chunks.drop_last() =~= seq!["<think>"@]);
            assert(chunks.drop_last().drop_last() =~= Seq::empty());
            assert(text::joined(chunks) =~= "<think>"@ + delta);
        }
    }
}

/// What is written when an answer ends: in a stream of plain text the end of an open block, and
/// the tool calls where there is no content; else what a replay of the answer shows.
pub proof fn law_what_the_end_writes(writer: WriterView)
    ensures
        ({
            let written = text::joined(writer.finish_chunks());
            let prospect = writer.prospect;
            let open = writer.think_open && !writer.think_closed;
            let calls = if text::trimmed(prospect.content).len() == 0 && prospect.tool_calls.len()
                > 0 {
                bridge::pretty(JsonView::Array(prospect.tool_calls)) + "\n"@
            } else {
                Seq::empty()
            };
            &&& writer.simple && writer.stream ==> written == (if open {
                "</think>\n"@ + calls
            } else {
                calls
            })
            &&& !writer.stream ==> written == cached_text(
                prospect,
                None,
                writer.simple,
                false,
                writer.emit_reasoning,
            )
        }),
{
    reveal_with_fuel(text::joined, 3);
    let chunks = writer.finish_chunks();
    let prospect = writer.prospect;
    let none: Seq<Seq<char>> = Seq::empty();
    if writer.simple && writer.stream {
        let closing = writer.closing_chunks();
        let close = if writer.in_think() {
            "</think>\n"@
        } else {
            Seq::empty()
        };
        if writer.in_think() {
            assert(closing.drop_last() =~= none);
            assert(text::joined(closing) =~= close);
        }
        if calls_only(prospect) {
            assert(chunks.drop_last() =~= closing);
            assert(text::joined(chunks) =~= close + tools::tool_calls_text(prospect.tool_calls));
            assert(Seq::<char>::empty() + tools::tool_calls_text(prospect.tool_calls)
                =~= tools::tool_calls_text(prospect.tool_calls));
        } else {
            assert(close + Seq::<char>::empty() =~= close);
        }
    } else if !writer.stream {
        let shown = cached_text(prospect, None, writer.simple, false, writer.emit_reasoning);
        if shown.len() > 0 || !writer.simple {
            assert(chunks.drop_last() =~= none);
            assert(text::joined(chunks) =~= shown);
        } else {
            assert(chunks =~= none);
            assert(shown =~= Seq::empty());
        }
    }
}

/// What is read of an answer that is kept as an object, member by member. It needs a content and
/// tool calls; reasoning, continuation and constrained value may be missing or null.
pub proof fn law_answer_read_by_member(entries: Entries)
    ensures
        ({
            let value = JsonView::Object(entries);
            let reasoning = match json::lookup(entries, "reasoning"@) {
                Some(held) => held is Null || held is Text,
                None => true,
            };
            let continuation = match json::lookup(entries, "provider_continuation"@) {
                Some(held) => held is Null || continuation_of(held) is Some,
                None => true,
            };
            &&& prospect_of(value) is Some <==> value.get_str("content"@) is Some
                && value.get_array("tool_calls"@) is Some && reasoning && continuation
            &&& prospect_of(value) matches Some(prospect) ==> {
                &&& json::lookup(entries, "content"@) == Some(JsonView::Text(prospect.content))
                &&& json::lookup(entries, "tool_calls"@) == Some(
                    JsonView::Array(prospect.tool_calls),
                )
                &&& prospect.reasoning == value.get_str("reasoning"@)
                &&& prospect.constrained == (match json::lookup(entries, "constrained"@) {
                    Some(held) => if held is Null {
                        None
                    } else {
                        Some(held)
                    },
                    None => None,
                })
                &&& prospect.provider_continuation == (match json::lookup(
                    entries,
                    "provider_continuation"@,
                ) {
                    Some(held) => if held is Null {
                        None
                    } else {
                        continuation_of(held)
                    },
                    None => None,
                })
            }
        }),
{
}

/// What is read of a continuation that is kept as an object, member by member. It needs a
/// provider; the identifier may be missing or null, the items may be missing.
pub proof fn law_continuation_read_by_member(entries: Entries)
    ensures
        ({
            let value = JsonView::Object(entries);
            let id = match json::lookup(entries, "response_id"@) {
                Some(held) => held is Null || held is Text,
                None => true,
            };
            let items = match json::lookup(entries, "reasoning_items"@) {
                Some(held) => held is Array,
                None => true,
            };
            &&& continuation_of(value) is Some <==> value.get_str("provider"@) is Some && id
                && items
            &&& continuation_of(value) matches Some(continuation) ==> {
                &&& json::lookup(entries, "provider"@) == Some(
                    JsonView::Text(continuation.provider),
                )
                &&& continuation.response_id == value.get_str("response_id"@)
                &&& match json::lookup(entries, "reasoning_items"@) {
                    Some(held) => held == JsonView::Array(continuation.reasoning_items),
                    None => continuation.reasoning_items.len() == 0,
                }
            }
        }),
{
}

/// An answer may also be kept as an array of its members in their order.
pub proof fn law_answer_read_by_place(items: Seq<JsonView>)
    requires
        4 <= items.len() <= 5,
    ensures
        prospect_of(JsonView::Array(items)) matches Some(prospect) ==> {
            &&& items[0] == (match prospect.reasoning {
                Some(text) => JsonView::Text(text),
                None => JsonView::Null,
            })
            &&& items[1] == JsonView::Text(prospect.content)
            &&& items[2] == JsonView::Array(prospect.tool_calls)
            &&& items[3] is Null ==> prospect.provider_continuation is None
            &&& items[3] !is Null ==> prospect.provider_continuation == continuation_of(items[3])
            &&& items.len() == 4 ==> prospect.constrained is None
            &&& items.len() == 5 && items[4] !is Null ==> prospect.constrained == Some(items[4])
        },
{
    lemma_member_names();
    let names = prospect_names();
    assert(names[0] == "reasoning"@ && names[1] == "content"@ && names[2] == "tool_calls"@);
    assert(names[3] == "provider_continuation"@ && names[4] == "constrained"@);
    assert(names.no_duplicates());
    json::law_members_by_place(names, items, "constrained"@);
    let entries = json::named(names, items);
    assert(json::lookup(entries, names[0]) == Some(items[0]));
    assert(json::lookup(entries, names[1]) == Some(items[1]));
    assert(json::lookup(entries, names[2]) == Some(items[2]));
    assert(json::lookup(entries, names[3]) == Some(items[3]));
    if items.len() == 5 {
        assert(json::lookup(entries, names[4]) == Some(items[4]));
    }
}

/// What is written at the end of a stream of events: each event of the end on a line of its own,
/// and behind them the whole answer where the stream ends with it.
pub proof fn law_end_of_an_event_stream(writer: WriterView)
    requires
        writer.stream,
        !writer.simple,
    ensures
        ({
            let shown = writer.prospect.visible(writer.emit_reasoning);
            let told = final_events(shown);
            let lines = writer.finish_chunks();
            &&& lines.len() == told.len() + (if writer.emit_done {
                1int
            } else {
                0int
            })
            &&& forall|i: int|
                0 <= i < told.len() ==> #[trigger] lines[i] == bridge::compact(told[i]) + "\n"@
            &&& writer.emit_done ==> lines.last() == bridge::compact(shown.done_event()) + "\n"@
        }),
{
}

} // verus!
