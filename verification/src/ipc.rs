//! The protocol between server and client: requests and frames, each a JSON value on a line of
//! its own.
use vstd::prelude::*;
use vstd::string::*;

use crate::args::{ClientArgs, ClientView};
use crate::bridge;
use crate::json;
use crate::json::{Entries, Json, JsonView, Object};
use crate::output;
use crate::output::{ContinuationView, ProviderContinuation};
use crate::text;
use crate::tools;
use crate::tools::{ToolSource, ToolSourceView};

verus! {

broadcast use json::group_lookup;

/// What a client asks of a server.
#[derive(Debug, PartialEq)]
pub enum Request {
    /// An answer. The standard input of the client stands in for that of the server.
    Run { args: ClientArgs, stdin: String },
    /// Whether the server is there, and a few facts about it.
    Status,
}

pub enum RequestView {
    Run { args: ClientView, stdin: Seq<char> },
    Status,
}

/// Facts about a server.
#[derive(Debug, PartialEq, Eq)]
pub struct StatusInfo {
    pub pid: u32,
    pub uptime_ms: u64,
    pub requests_served: u64,
    pub model: Option<String>,
    pub socket: String,
}

pub struct StatusView {
    pub pid: u32,
    pub uptime_ms: u64,
    pub requests_served: u64,
    pub model: Option<Seq<char>>,
    pub socket: Seq<char>,
}

/// What a server sends to a client.
#[derive(Debug, PartialEq)]
pub enum Frame {
    /// A piece of output.
    Stdout { text: String },
    /// A piece of diagnostics.
    Stderr { text: String },
    /// The reply to a question about the status.
    Status { info: StatusInfo },
    /// The end: the exit code, and what the client keeps of the answer.
    Exit {
        code: u8,
        assistant: Option<String>,
        provider_continuation: Option<ProviderContinuation>,
        constrained: Option<Json>,
    },
}

pub enum FrameView {
    Stdout { text: Seq<char> },
    Stderr { text: Seq<char> },
    Status { info: StatusView },
    Exit {
        code: u8,
        assistant: Option<Seq<char>>,
        provider_continuation: Option<ContinuationView>,
        constrained: Option<JsonView>,
    },
}

impl View for Request {
    type V = RequestView;

    open spec fn view(&self) -> RequestView {
        match self {
            Request::Run { args, stdin } => RequestView::Run { args: args@, stdin: stdin@ },
            Request::Status => RequestView::Status,
        }
    }
}

impl View for StatusInfo {
    type V = StatusView;

    open spec fn view(&self) -> StatusView {
        StatusView {
            pid: self.pid,
            uptime_ms: self.uptime_ms,
            requests_served: self.requests_served,
            model: text::opt(self.model),
            socket: self.socket@,
        }
    }
}

impl View for Frame {
    type V = FrameView;

    open spec fn view(&self) -> FrameView {
        match self {
            Frame::Stdout { text } => FrameView::Stdout { text: text@ },
            Frame::Stderr { text } => FrameView::Stderr { text: text@ },
            Frame::Status { info } => FrameView::Status { info: info@ },
            Frame::Exit { code, assistant, provider_continuation, constrained } => FrameView::Exit {
                code: *code,
                assistant: text::opt(*assistant),
                provider_continuation: output::opt_continuation(*provider_continuation),
                constrained: json::opt_json(*constrained),
            },
        }
    }
}

/// A tool source as it travels.
pub open spec fn source_json(source: ToolSourceView) -> JsonView {
    let (kind, value) = match source {
        ToolSourceView::Inline(raw) => ("inline"@, JsonView::Text(raw)),
        ToolSourceView::File(path) => ("file"@, JsonView::Text(path)),
        ToolSourceView::Resolved(items) => ("resolved"@, JsonView::Array(items)),
    };
    JsonView::Object(seq![("kind"@, JsonView::Text(kind)), ("value"@, value)])
}

/// The kind that a member names: a text, or an object with the kind as its only key and nothing
/// under it.
pub open spec fn kind_member(value: JsonView) -> Option<Seq<char>> {
    match value {
        JsonView::Text(kind) => Some(kind),
        JsonView::Object(entries) => if entries.len() == 1 && (entries[0].1 is Null
            || entries[0].1 == JsonView::Object(Seq::empty())) {
            Some(entries[0].0)
        } else {
            None
        },
        _ => None,
    }
}

/// The kind that an item names: a text, or its place among the kinds.
pub open spec fn kind_item(value: JsonView) -> Option<Seq<char>> {
    match value {
        JsonView::Text(kind) => Some(kind),
        JsonView::Unsigned(0) => Some("inline"@),
        JsonView::Unsigned(1) => Some("file"@),
        JsonView::Unsigned(2) => Some("resolved"@),
        _ => None,
    }
}

/// The kind of a tool source and what it holds. As an array a source is its kind and its value.
pub open spec fn source_parts(value: JsonView) -> Option<(Seq<char>, JsonView)> {
    match value {
        JsonView::Array(items) => if items.len() == 2 && kind_item(items[0]) is Some {
            Some((kind_item(items[0])->0, items[1]))
        } else {
            None
        },
        _ => match (value.get("kind"@), value.get("value"@)) {
            (Some(named), Some(held)) => match kind_member(named) {
                Some(kind) => Some((kind, held)),
                None => None,
            },
            _ => None,
        },
    }
}

/// The tool source that a value says.
pub open spec fn source_of(value: JsonView) -> Option<ToolSourceView> {
    match source_parts(value) {
        Some((kind, held)) => if kind == "inline"@ {
            match held {
                JsonView::Text(raw) => Some(ToolSourceView::Inline(raw)),
                _ => None,
            }
        } else if kind == "file"@ {
            match held {
                JsonView::Text(path) => Some(ToolSourceView::File(path)),
                _ => None,
            }
        } else if kind == "resolved"@ {
            match held {
                JsonView::Array(items) => Some(ToolSourceView::Resolved(items)),
                _ => None,
            }
        } else {
            None
        },
        None => None,
    }
}

/// A count, or null where there is none.
pub open spec fn count_or_null(value: Option<u32>) -> JsonView {
    match value {
        Some(count) => JsonView::Unsigned(count as u64),
        None => JsonView::Null,
    }
}

/// Tool sources as they travel.
pub open spec fn sources_json(sources: Seq<ToolSourceView>) -> JsonView {
    JsonView::Array(sources.map_values(|source: ToolSourceView| source_json(source)))
}

/// The members of the arguments of a client as they travel.
#[verifier::opaque]
pub open spec fn client_entries(args: ClientView) -> Entries {
    let none: Entries = Seq::empty();
    none.push(
        ("model"@, json::text_or_null(args.model)),
    ).push(
        ("stream"@, JsonView::Bool(args.stream)),
    ).push(
        ("out"@, json::text_or_null(args.out)),
    ).push(
        ("system"@, json::text_or_null(args.system)),
    ).push(
        ("messages"@, json::text_or_null(args.messages)),
    ).push(
        ("quick"@, JsonView::Bool(args.quick)),
    ).push(
        ("stateful"@, json::text_or_null(args.stateful)),
    ).push(
        ("reasoning"@, json::text_or_null(args.reasoning)),
    ).push(
        ("stats"@, JsonView::Bool(args.stats)),
    ).push(
        ("cache"@, json::text_or_null(args.cache)),
    ).push(
        ("temperature"@, json::or_null(args.temperature)),
    ).push(
        ("max_tokens"@, count_or_null(args.max_tokens)),
    ).push(
        ("reasoning_summary"@, JsonView::Bool(args.reasoning_summary)),
    ).push(
        ("tools"@, sources_json(args.tools)),
    ).push(
        ("completions"@, JsonView::Bool(args.completions)),
    ).push(
        ("simple"@, JsonView::Bool(args.simple)),
    ).push(
        ("schema"@, json::text_or_null(args.schema)),
    )
}

/// A switch: off where it is absent, and `None` for a value that is no boolean.
pub open spec fn switch_member(value: Option<JsonView>) -> Option<bool> {
    match value {
        None => Some(false),
        Some(JsonView::Bool(b)) => Some(b),
        Some(_) => None,
    }
}

/// Whether a value is a number.
pub open spec fn is_number(value: JsonView) -> bool {
    value is Unsigned || value is Negative || value is Float
}

/// An optional number: nothing where it is absent or null, and `None` outside for a value that
/// is no number.
pub open spec fn number_member(value: Option<JsonView>) -> Option<Option<JsonView>> {
    match value {
        None => Some(None),
        Some(JsonView::Null) => Some(None),
        Some(number) => if is_number(number) {
            Some(Some(number))
        } else {
            None
        },
    }
}

/// An optional count of 32 bits.
pub open spec fn count_member(value: Option<JsonView>) -> Option<Option<u32>> {
    match value {
        None => Some(None),
        Some(JsonView::Null) => Some(None),
        Some(JsonView::Unsigned(n)) => if n <= u32::MAX {
            Some(Some(n as u32))
        } else {
            None
        },
        Some(_) => None,
    }
}

/// The tool sources of a list: none where it is absent.
pub open spec fn sources_member(value: Option<JsonView>) -> Option<Seq<ToolSourceView>> {
    match value {
        None => Some(Seq::empty()),
        Some(JsonView::Array(items)) => if forall|i: int|
            0 <= i < items.len() ==> source_of(#[trigger] items[i]) is Some {
            Some(Seq::new(items.len(), |i: int| source_of(items[i])->0))
        } else {
            None
        },
        Some(_) => None,
    }
}

/// The arguments of a client in order.
#[verifier::opaque]
pub open spec fn client_names() -> Seq<Seq<char>> {
    seq![
        "model"@,
        "stream"@,
        "out"@,
        "system"@,
        "messages"@,
        "quick"@,
        "stateful"@,
        "reasoning"@,
        "stats"@,
        "cache"@,
        "temperature"@,
        "max_tokens"@,
        "reasoning_summary"@,
        "tools"@,
        "completions"@,
        "simple"@,
        "schema"@,
    ]
}

/// The arguments of a client that a record says. What is absent is not asked for.
pub open spec fn client_of(record: JsonView) -> Option<ClientView> {
    let value = json::by_name(record, client_names(), 0);
    let model = json::text_member(value.get("model"@));
    let stream = switch_member(value.get("stream"@));
    let out = json::text_member(value.get("out"@));
    let system = json::text_member(value.get("system"@));
    let messages = json::text_member(value.get("messages"@));
    let quick = switch_member(value.get("quick"@));
    let stateful = json::text_member(value.get("stateful"@));
    let reasoning = json::text_member(value.get("reasoning"@));
    let stats = switch_member(value.get("stats"@));
    let cache = json::text_member(value.get("cache"@));
    let temperature = number_member(value.get("temperature"@));
    let max_tokens = count_member(value.get("max_tokens"@));
    let reasoning_summary = switch_member(value.get("reasoning_summary"@));
    let tools = sources_member(value.get("tools"@));
    let completions = switch_member(value.get("completions"@));
    let simple = switch_member(value.get("simple"@));
    let schema = json::text_member(value.get("schema"@));
    if value is Object && model is Some && stream is Some && out is Some && system is Some && messages is Some && quick is Some && stateful is Some && reasoning is Some && stats is Some && cache is Some && temperature is Some && max_tokens is Some && reasoning_summary is Some && tools is Some && completions is Some && simple is Some && schema is Some {
        Some(
            ClientView {
                model: model->0,
                stream: stream->0,
                out: out->0,
                system: system->0,
                messages: messages->0,
                quick: quick->0,
                stateful: stateful->0,
                reasoning: reasoning->0,
                stats: stats->0,
                cache: cache->0,
                temperature: temperature->0,
                max_tokens: max_tokens->0,
                reasoning_summary: reasoning_summary->0,
                tools: tools->0,
                completions: completions->0,
                simple: simple->0,
                schema: schema->0,
            },
        )
    } else {
        None
    }
}

proof fn lemma_client_names()
    ensures
        "model"@.len() == 5,
        "stream"@.len() == 6,
        "out"@.len() == 3,
        "system"@.len() == 6,
        "messages"@.len() == 8,
        "quick"@.len() == 5,
        "stateful"@.len() == 8,
        "reasoning"@.len() == 9,
        "stats"@.len() == 5,
        "cache"@.len() == 5,
        "temperature"@.len() == 11,
        "max_tokens"@.len() == 10,
        "reasoning_summary"@.len() == 17,
        "tools"@.len() == 5,
        "completions"@.len() == 11,
        "simple"@.len() == 6,
        "schema"@.len() == 6,
        "model"@[0] == 'm',
        "quick"@[0] == 'q',
        "stats"@[0] == 's',
        "cache"@[0] == 'c',
        "tools"@[0] == 't',
        "stream"@[1] == 't',
        "system"@[1] == 'y',
        "simple"@[1] == 'i',
        "schema"@[1] == 'c',
        "messages"@[0] == 'm',
        "stateful"@[0] == 's',
        "temperature"@[0] == 't',
        "completions"@[0] == 'c',
{
    reveal_strlit("model");
    reveal_strlit("stream");
    reveal_strlit("out");
    reveal_strlit("system");
    reveal_strlit("messages");
    reveal_strlit("quick");
    reveal_strlit("stateful");
    reveal_strlit("reasoning");
    reveal_strlit("stats");
    reveal_strlit("cache");
    reveal_strlit("temperature");
    reveal_strlit("max_tokens");
    reveal_strlit("reasoning_summary");
    reveal_strlit("tools");
    reveal_strlit("completions");
    reveal_strlit("simple");
    reveal_strlit("schema");
}

fn source_to_json(source: &ToolSource) -> (value: Json)
    ensures
        value@ == source_json(source@),
{
    proof {
        reveal_strlit("kind");
        reveal_strlit("value");
        assert("kind"@.len() != "value"@.len());
    }
    let (kind, held) = match source {
        ToolSource::Inline(raw) => ("inline", Json::Text(raw.clone())),
        ToolSource::File(path) => ("file", Json::Text(path.clone())),
        ToolSource::Resolved(items) => ("resolved", Json::array_of(items.as_slice())),
    };
    let object = Object::new().add("kind", Json::text(kind)).add("value", held);
    assert(object@ =~= source_json(source@)->Object_0);
    Json::Object(object)
}

fn sources_to_json(sources: &[ToolSource]) -> (value: Json)
    ensures
        value@ == sources_json(tools::source_views(sources@)),
{
    let mut items: Vec<Json> = Vec::new();
    let mut i: usize = 0;
    while i < sources.len()
        invariant
            i <= sources@.len(),
            items@.len() == i,
            forall|j: int| 0 <= j < i ==> (#[trigger] items@[j])@ == source_json(sources@[j]@),
        decreases sources@.len() - i,
    {
        items.push(source_to_json(&sources[i]));
        i += 1;
    }
    assert(json::views(items@) =~= tools::source_views(sources@).map_values(
        |source: ToolSourceView| source_json(source),
    ));
    Json::array(items)
}

fn kind_from_member(value: &Json) -> (kind: Option<&str>)
    ensures
        json::opt_text(kind) == kind_member(value@),
{
    if let Some(kind) = value.as_str() {
        return Some(kind);
    }
    let object = match value.as_object() {
        Some(object) => object,
        None => return None,
    };
    if object.len() != 1 {
        return None;
    }
    let (kind, held) = object.entry(0);
    if held.is_null() {
        return Some(kind.as_str());
    }
    match held.as_object() {
        Some(empty) => if empty.len() == 0 {
            assert(empty@ =~= Seq::empty());
            Some(kind.as_str())
        } else {
            None
        },
        None => None,
    }
}

fn kind_from_item(value: &Json) -> (kind: Option<&str>)
    ensures
        json::opt_text(kind) == kind_item(value@),
{
    if let Some(kind) = value.as_str() {
        return Some(kind);
    }
    match value.as_u64() {
        Some(0) => Some("inline"),
        Some(1) => Some("file"),
        Some(2) => Some("resolved"),
        _ => None,
    }
}

fn parts_from_json(value: &Json) -> (parts: Option<(&str, &Json)>)
    ensures
        match parts {
            Some((kind, held)) => source_parts(value@) == Some((kind@, held@)),
            None => source_parts(value@) is None,
        },
{
    if let Some(items) = value.as_array() {
        if items.len() != 2 {
            return None;
        }
        assert(json::views(items@)[0] == items@[0]@ && json::views(items@)[1] == items@[1]@);
        return match kind_from_item(&items[0]) {
            Some(kind) => Some((kind, &items[1])),
            None => None,
        };
    }
    match (value.get("kind"), value.get("value")) {
        (Some(named), Some(held)) => match kind_from_member(named) {
            Some(kind) => Some((kind, held)),
            None => None,
        },
        _ => None,
    }
}

fn source_from_json(value: &Json) -> (source: Option<ToolSource>)
    ensures
        match source {
            Some(source) => source_of(value@) == Some(source@),
            None => source_of(value@) is None,
        },
{
    let (kind, held) = match parts_from_json(value) {
        Some(parts) => parts,
        None => return None,
    };
    if text::same(kind, "inline") {
        match held.as_str() {
            Some(raw) => Some(ToolSource::Inline(raw.to_owned())),
            None => None,
        }
    } else if text::same(kind, "file") {
        match held.as_str() {
            Some(path) => Some(ToolSource::File(path.to_owned())),
            None => None,
        }
    } else if text::same(kind, "resolved") {
        match held.as_array() {
            Some(items) => Some(ToolSource::Resolved(json::copy_all(items.as_slice()))),
            None => None,
        }
    } else {
        None
    }
}

fn sources_from_json(value: Option<&Json>) -> (sources: Option<Vec<ToolSource>>)
    ensures
        match sources {
            Some(sources) => sources_member(json::opt_view(value)) == Some(
                tools::source_views(sources@),
            ),
            None => sources_member(json::opt_view(value)) is None,
        },
{
    let mut sources: Vec<ToolSource> = Vec::new();
    let array = match value {
        Some(array) => array,
        None => {
            assert(tools::source_views(sources@) =~= Seq::empty());
            return Some(sources);
        },
    };
    let items = match array.as_array() {
        Some(items) => items,
        None => return None,
    };
    let ghost all = json::views(items@);
    let mut i: usize = 0;
    while i < items.len()
        invariant
            i <= items@.len(),
            all == json::views(items@),
            array@ == JsonView::Array(all),
            json::opt_view(value) == Some(array@),
            sources@.len() == i,
            forall|j: int| 0 <= j < i ==> source_of(#[trigger] all[j]) == Some(sources@[j]@),
        decreases items@.len() - i,
    {
        match source_from_json(&items[i]) {
            Some(source) => sources.push(source),
            None => {
                assert(source_of(all[i as int]) is None);
                return None;
            },
        }
        i += 1;
    }
    proof {
        assert forall|j: int| 0 <= j < all.len() implies source_of(#[trigger] all[j]) is Some by {
            assert(source_of(all[j]) == Some(sources@[j]@));
        }
        assert(tools::source_views(sources@) =~= Seq::new(
            all.len(),
            |j: int| source_of(all[j])->0,
        ));
    }
    Some(sources)
}

fn client_to_json(args: &ClientArgs) -> (value: Json)
    ensures
        value@ == JsonView::Object(client_entries(args@)),
{
    proof {
        lemma_client_names();
        reveal(client_entries);
    }
    let temperature = match &args.temperature {
        Some(value) => value.clone(),
        None => Json::Null,
    };
    let max_tokens = match args.max_tokens {
        Some(count) => Json::Unsigned(count as u64),
        None => Json::Null,
    };
    let object = Object::new().add("model", Json::text_or_null(&args.model));
    let object = object.add("stream", Json::Bool(args.stream));
    let object = object.add("out", Json::text_or_null(&args.out));
    let object = object.add("system", Json::text_or_null(&args.system));
    let object = object.add("messages", Json::text_or_null(&args.messages));
    let object = object.add("quick", Json::Bool(args.quick));
    let object = object.add("stateful", Json::text_or_null(&args.stateful));
    let object = object.add("reasoning", Json::text_or_null(&args.reasoning));
    let object = object.add("stats", Json::Bool(args.stats));
    let object = object.add("cache", Json::text_or_null(&args.cache));
    let object = object.add("temperature", temperature);
    let object = object.add("max_tokens", max_tokens);
    let object = object.add("reasoning_summary", Json::Bool(args.reasoning_summary));
    let object = object.add("tools", sources_to_json(args.tools.as_slice()));
    let object = object.add("completions", Json::Bool(args.completions));
    let object = object.add("simple", Json::Bool(args.simple));
    let object = object.add("schema", Json::text_or_null(&args.schema));
    Json::Object(object)
}

fn switch_from_json(value: Option<&Json>) -> (result: Option<bool>)
    ensures
        result == switch_member(json::opt_view(value)),
{
    match value {
        None => Some(false),
        Some(value) => value.as_bool(),
    }
}

fn number_from_json(value: Option<&Json>) -> (result: Option<Option<Json>>)
    ensures
        match result {
            Some(number) => number_member(json::opt_view(value)) == Some(json::opt_json(number)),
            None => number_member(json::opt_view(value)) is None,
        },
{
    match value {
        None => Some(None),
        Some(value) => if value.is_null() {
            Some(None)
        } else if value.is_number() {
            Some(Some(value.clone()))
        } else {
            None
        },
    }
}

fn count_from_json(value: Option<&Json>) -> (result: Option<Option<u32>>)
    ensures
        result == count_member(json::opt_view(value)),
{
    match value {
        None => Some(None),
        Some(value) => if value.is_null() {
            Some(None)
        } else {
            match value.as_u64() {
                Some(count) => if count <= u32::MAX as u64 {
                    Some(Some(count as u32))
                } else {
                    None
                },
                None => None,
            }
        },
    }
}

fn text_from_json(value: Option<&Json>) -> (result: Option<Option<String>>)
    ensures
        match result {
            Some(found) => json::text_member(json::opt_view(value)) == Some(text::opt(found)),
            None => json::text_member(json::opt_view(value)) is None,
        },
{
    match Json::text_member(value) {
        Ok(found) => Some(found),
        Err(_) => None,
    }
}

fn client_by_name(record: &Json) -> (value: Json)
    ensures
        value@ == json::by_name(record@, client_names(), 0),
{
    let names: Vec<&str> = vec![
        "model",
        "stream",
        "out",
        "system",
        "messages",
        "quick",
        "stateful",
        "reasoning",
        "stats",
        "cache",
        "temperature",
        "max_tokens",
        "reasoning_summary",
        "tools",
        "completions",
        "simple",
        "schema",
    ];
    proof {
        reveal(client_names);
        assert(json::name_views(names@) =~= client_names());
    }
    record.by_name(names.as_slice(), 0)
}

fn client_from_json(record: &Json) -> (result: Option<ClientArgs>)
    ensures
        match result {
            Some(args) => client_of(record@) == Some(args@),
            None => client_of(record@) is None,
        },
{
    let value = client_by_name(record);
    if !value.is_object() {
        return None;
    }
    let model = match text_from_json(value.get("model")) {
        Some(found) => found,
        None => return None,
    };
    let stream = match switch_from_json(value.get("stream")) {
        Some(found) => found,
        None => return None,
    };
    let out = match text_from_json(value.get("out")) {
        Some(found) => found,
        None => return None,
    };
    let system = match text_from_json(value.get("system")) {
        Some(found) => found,
        None => return None,
    };
    let messages = match text_from_json(value.get("messages")) {
        Some(found) => found,
        None => return None,
    };
    let quick = match switch_from_json(value.get("quick")) {
        Some(found) => found,
        None => return None,
    };
    let stateful = match text_from_json(value.get("stateful")) {
        Some(found) => found,
        None => return None,
    };
    let reasoning = match text_from_json(value.get("reasoning")) {
        Some(found) => found,
        None => return None,
    };
    let stats = match switch_from_json(value.get("stats")) {
        Some(found) => found,
        None => return None,
    };
    let cache = match text_from_json(value.get("cache")) {
        Some(found) => found,
        None => return None,
    };
    let temperature = match number_from_json(value.get("temperature")) {
        Some(found) => found,
        None => return None,
    };
    let max_tokens = match count_from_json(value.get("max_tokens")) {
        Some(found) => found,
        None => return None,
    };
    let reasoning_summary = match switch_from_json(value.get("reasoning_summary")) {
        Some(found) => found,
        None => return None,
    };
    let tools = match sources_from_json(value.get("tools")) {
        Some(found) => found,
        None => return None,
    };
    let completions = match switch_from_json(value.get("completions")) {
        Some(found) => found,
        None => return None,
    };
    let simple = match switch_from_json(value.get("simple")) {
        Some(found) => found,
        None => return None,
    };
    let schema = match text_from_json(value.get("schema")) {
        Some(found) => found,
        None => return None,
    };
    Some(
        ClientArgs {
            model,
            stream,
            out,
            system,
            messages,
            quick,
            stateful,
            reasoning,
            stats,
            cache,
            temperature,
            max_tokens,
            reasoning_summary,
            tools,
            completions,
            simple,
            schema,
        },
    )
}

/// A request as it travels.
pub open spec fn request_json(request: RequestView) -> JsonView {
    let none: Entries = Seq::empty();
    JsonView::Object(
        match request {
            RequestView::Run { args, stdin } => none.push(("kind"@, JsonView::Text("run"@))).push(
                ("args"@, JsonView::Object(client_entries(args))),
            ).push(("stdin"@, JsonView::Text(stdin))),
            RequestView::Status => none.push(("kind"@, JsonView::Text("status"@))),
        },
    )
}

/// The request that a record says.
pub open spec fn request_of(record: JsonView) -> Option<RequestView> {
    match json::by_kind(record, "kind"@) {
        Some((kind, rest)) => if kind == "run"@ {
            let value = json::by_name(rest, seq!["args"@, "stdin"@], 2);
            match (value.get("args"@), value.get_str("stdin"@)) {
                (Some(held), Some(stdin)) => match client_of(held) {
                    Some(args) => Some(RequestView::Run { args, stdin }),
                    None => None,
                },
                _ => None,
            }
        } else if kind == "status"@ && (rest matches JsonView::Array(items) ==> items.len()
            == 0) {
            Some(RequestView::Status)
        } else {
            None
        },
        None => None,
    }
}

/// Facts about a server as they travel.
pub open spec fn status_json(info: StatusView) -> JsonView {
    let none: Entries = Seq::empty();
    JsonView::Object(
        none.push(("pid"@, JsonView::Unsigned(info.pid as u64))).push(
            ("uptime_ms"@, JsonView::Unsigned(info.uptime_ms)),
        ).push(("requests_served"@, JsonView::Unsigned(info.requests_served))).push(
            ("model"@, json::text_or_null(info.model)),
        ).push(("socket"@, JsonView::Text(info.socket))),
    )
}

/// The facts about a server that a record says.
pub open spec fn status_of(record: JsonView) -> Option<StatusView> {
    let names = seq!["pid"@, "uptime_ms"@, "requests_served"@, "model"@, "socket"@];
    let value = json::by_name(record, names, 5);
    match (
        value.get_u64("pid"@),
        value.get_u64("uptime_ms"@),
        value.get_u64("requests_served"@),
        json::text_member(value.get("model"@)),
        value.get_str("socket"@),
    ) {
        (
            Some(pid),
            Some(uptime_ms),
            Some(requests_served),
            Some(model),
            Some(socket),
        ) => if pid <= u32::MAX {
            Some(StatusView { pid: pid as u32, uptime_ms, requests_served, model, socket })
        } else {
            None
        },
        _ => None,
    }
}

/// A frame as it travels.
pub open spec fn frame_json(frame: FrameView) -> JsonView {
    let none: Entries = Seq::empty();
    JsonView::Object(
        match frame {
            FrameView::Stdout { text } => none.push(("type"@, JsonView::Text("stdout"@))).push(
                ("text"@, JsonView::Text(text)),
            ),
            FrameView::Stderr { text } => none.push(("type"@, JsonView::Text("stderr"@))).push(
                ("text"@, JsonView::Text(text)),
            ),
            FrameView::Status { info } => none.push(("type"@, JsonView::Text("status"@))).push(
                ("info"@, status_json(info)),
            ),
            FrameView::Exit {
                code,
                assistant,
                provider_continuation,
                constrained,
            } => json::with_entry(
                none.push(("type"@, JsonView::Text("exit"@))).push(
                    ("code"@, JsonView::Unsigned(code as u64)),
                ).push(("assistant"@, json::text_or_null(assistant))).push(
                    (
                        "provider_continuation"@,
                        output::continuation_or_null(provider_continuation),
                    ),
                ),
                "constrained"@,
                constrained,
            ),
        },
    )
}

/// An optional continuation: nothing where it is absent or null, and `None` outside for a value
/// that carries none.
pub open spec fn continuation_member(value: Option<JsonView>) -> Option<Option<ContinuationView>> {
    match value {
        None => Some(None),
        Some(JsonView::Null) => Some(None),
        Some(held) => match output::continuation_of(held) {
            Some(continuation) => Some(Some(continuation)),
            None => None,
        },
    }
}

/// The end that a record says.
pub open spec fn exit_of(record: JsonView) -> Option<FrameView> {
    let names = seq!["code"@, "assistant"@, "provider_continuation"@, "constrained"@];
    let value = json::by_name(record, names, 2);
    let constrained = match value.get("constrained"@) {
        Some(JsonView::Null) => None,
        held => held,
    };
    match (
        value.get_u64("code"@),
        json::text_member(value.get("assistant"@)),
        continuation_member(value.get("provider_continuation"@)),
    ) {
        (Some(code), Some(assistant), Some(provider_continuation)) => if code <= u8::MAX {
            Some(
                FrameView::Exit {
                    code: code as u8,
                    assistant,
                    provider_continuation,
                    constrained,
                },
            )
        } else {
            None
        },
        _ => None,
    }
}

/// The frame that a record says.
pub open spec fn frame_of(record: JsonView) -> Option<FrameView> {
    match json::by_kind(record, "type"@) {
        Some((kind, rest)) => if kind == "stdout"@ {
            match json::by_name(rest, seq!["text"@], 1).get_str("text"@) {
                Some(text) => Some(FrameView::Stdout { text }),
                None => None,
            }
        } else if kind == "stderr"@ {
            match json::by_name(rest, seq!["text"@], 1).get_str("text"@) {
                Some(text) => Some(FrameView::Stderr { text }),
                None => None,
            }
        } else if kind == "status"@ {
            match json::by_name(rest, seq!["info"@], 1).get("info"@) {
                Some(held) => match status_of(held) {
                    Some(info) => Some(FrameView::Status { info }),
                    None => None,
                },
                None => None,
            }
        } else if kind == "exit"@ {
            exit_of(rest)
        } else {
            None
        },
        None => None,
    }
}

proof fn lemma_frame_names()
    ensures
        "kind"@.len() == 4,
        "args"@.len() == 4,
        "kind"@ != "args"@,
        "stdin"@.len() == 5,
        "pid"@.len() == 3,
        "uptime_ms"@.len() == 9,
        "requests_served"@.len() == 15,
        "model"@.len() == 5,
        "socket"@.len() == 6,
        "type"@.len() == 4,
        "text"@.len() == 4,
        "info"@.len() == 4,
        "code"@.len() == 4,
        "type"@ != "text"@,
        "type"@ != "info"@,
        "type"@ != "code"@,
        "assistant"@.len() == 9,
        "provider_continuation"@.len() == 21,
        "constrained"@.len() == 11,
        "run"@.len() == 3,
        "status"@.len() == 6,
        "stdout"@.len() == 6,
        "stderr"@.len() == 6,
        "exit"@.len() == 4,
        "stdout"@ != "stderr"@,
        "status"@ != "stderr"@,
        "status"@ != "stdout"@,
{
    reveal_strlit("kind");
    reveal_strlit("args");
    reveal_strlit("stdin");
    reveal_strlit("pid");
    reveal_strlit("uptime_ms");
    reveal_strlit("requests_served");
    reveal_strlit("model");
    reveal_strlit("socket");
    reveal_strlit("type");
    reveal_strlit("text");
    reveal_strlit("info");
    reveal_strlit("code");
    reveal_strlit("assistant");
    reveal_strlit("provider_continuation");
    reveal_strlit("constrained");
    reveal_strlit("run");
    reveal_strlit("status");
    reveal_strlit("stdout");
    reveal_strlit("stderr");
    reveal_strlit("exit");
    assert("kind"@[0] != "args"@[0]);
    assert("type"@[1] != "text"@[1]);
    assert("type"@[0] != "info"@[0]);
    assert("type"@[0] != "code"@[0]);
    assert("stdout"@[3] != "stderr"@[3]);
    assert("status"@[2] != "stderr"@[2]);
    assert("status"@[2] != "stdout"@[2]);
}

/// The line that carries a value.
pub open spec fn wire_line(value: JsonView) -> Seq<char> {
    bridge::compact(value) + "\n"@
}

/// Whether a text is one line: its only line break is its last character.
pub open spec fn is_one_line(text: Seq<char>) -> bool {
    &&& text.len() > 0
    &&& text.last() == '\n'
    &&& forall|i: int| 0 <= i < text.len() - 1 ==> #[trigger] text[i] != '\n'
}

/// The value that a line carries, or the message of the reader.
pub open spec fn line_value(line: Seq<char>) -> Result<JsonView, Seq<char>> {
    bridge::parsed(text::chomped(line))
}

/// The line that carries a value. Reading it gives the value back.
pub fn write_json_line(value: &Json) -> (line: String)
    ensures
        line@ == wire_line(value@),
        is_one_line(line@),
        bridge::round_trips(value@) ==> line_value(line@) == Ok::<JsonView, Seq<char>>(value@),
{
    let mut line = value.to_compact();
    proof {
        text::lemma_chomped(line@);
        reveal_strlit("\n");
    }
    line.append("\n");
    line
}

/// Reads the value that a line carries.
pub fn read_json_line(line: &str) -> (result: Result<Json, String>)
    ensures
        match result {
            Ok(value) => line_value(line@) == Ok::<JsonView, Seq<char>>(value@),
            Err(message) => line_value(line@) == Err::<JsonView, Seq<char>>(message@),
        },
{
    Json::parse(text::chomp(line))
}

/// The request that a line carries, or what is wrong with it.
pub open spec fn line_request(line: Seq<char>) -> Result<RequestView, Seq<char>> {
    match line_value(line) {
        Ok(value) => match request_of(value) {
            Some(request) => Ok(request),
            None => Err("unexpected request"@),
        },
        Err(message) => Err(message),
    }
}

/// The frame that a line carries, or what is wrong with it.
pub open spec fn line_frame(line: Seq<char>) -> Result<FrameView, Seq<char>> {
    match line_value(line) {
        Ok(value) => match frame_of(value) {
            Some(frame) => Ok(frame),
            None => Err("unexpected frame"@),
        },
        Err(message) => Err(message),
    }
}

impl Request {
    fn to_json(&self) -> (value: Json)
        ensures
            value@ == request_json(self@),
    {
        proof {
            lemma_frame_names();
        }
        match self {
            Request::Run { args, stdin } => {
                let object = Object::new().add("kind", Json::text("run"));
                let object = object.add("args", client_to_json(args));
                Json::Object(object.add("stdin", Json::Text(stdin.clone())))
            },
            Request::Status => Json::Object(Object::new().add("kind", Json::text("status"))),
        }
    }

    fn from_json(record: &Json) -> (result: Option<Request>)
        ensures
            match result {
                Some(request) => request_of(record@) == Some(request@),
                None => request_of(record@) is None,
            },
    {
        let (kind, rest) = match record.by_kind("kind") {
            Some(parts) => parts,
            None => return None,
        };
        if text::same(kind.as_str(), "run") {
            let names: Vec<&str> = vec!["args", "stdin"];
            assert(json::name_views(names@) =~= seq!["args"@, "stdin"@]);
            let value = rest.by_name(names.as_slice(), 2);
            let held = match value.get("args") {
                Some(held) => held,
                None => return None,
            };
            let stdin = match value.get_str("stdin") {
                Some(stdin) => stdin.to_owned(),
                None => return None,
            };
            match client_from_json(held) {
                Some(args) => Some(Request::Run { args, stdin }),
                None => None,
            }
        } else if text::same(kind.as_str(), "status") {
            match rest.as_array() {
                Some(items) => if items.len() == 0 {
                    Some(Request::Status)
                } else {
                    None
                },
                None => Some(Request::Status),
            }
        } else {
            None
        }
    }

    /// The line that carries the request. Reading it gives the request back.
    pub fn to_line(&self) -> (line: String)
        ensures
            line@ == wire_line(request_json(self@)),
            is_one_line(line@),
            bridge::round_trips(request_json(self@)) && valid_request(self@) ==> line_request(line@)
                == Ok::<RequestView, Seq<char>>(self@),
    {
        proof {
            if valid_request(self@) {
                law_request_round_trip(self@);
            }
        }
        write_json_line(&self.to_json())
    }

    /// Reads the request that a line carries.
    pub fn from_line(line: &str) -> (result: Result<Request, String>)
        ensures
            match result {
                Ok(request) => line_request(line@) == Ok::<RequestView, Seq<char>>(request@),
                Err(message) => line_request(line@) == Err::<RequestView, Seq<char>>(message@),
            },
    {
        match read_json_line(line) {
            Ok(value) => match Request::from_json(&value) {
                Some(request) => Ok(request),
                None => Err("unexpected request".to_owned()),
            },
            Err(message) => Err(message),
        }
    }
}

impl StatusInfo {
    fn to_json(&self) -> (value: Json)
        ensures
            value@ == status_json(self@),
    {
        proof {
            lemma_frame_names();
        }
        let object = Object::new().add("pid", Json::Unsigned(self.pid as u64));
        let object = object.add("uptime_ms", Json::Unsigned(self.uptime_ms));
        let object = object.add("requests_served", Json::Unsigned(self.requests_served));
        let object = object.add("model", Json::text_or_null(&self.model));
        Json::Object(object.add("socket", Json::Text(self.socket.clone())))
    }

    fn from_json(record: &Json) -> (result: Option<StatusInfo>)
        ensures
            match result {
                Some(info) => status_of(record@) == Some(info@),
                None => status_of(record@) is None,
            },
    {
        let names: Vec<&str> = vec!["pid", "uptime_ms", "requests_served", "model", "socket"];
        assert(json::name_views(names@) =~= seq![
            "pid"@,
            "uptime_ms"@,
            "requests_served"@,
            "model"@,
            "socket"@,
        ]);
        let value = record.by_name(names.as_slice(), 5);
        let pid = match value.get_u64("pid") {
            Some(pid) => pid,
            None => return None,
        };
        let uptime_ms = match value.get_u64("uptime_ms") {
            Some(uptime_ms) => uptime_ms,
            None => return None,
        };
        let requests_served = match value.get_u64("requests_served") {
            Some(requests_served) => requests_served,
            None => return None,
        };
        let model = match text_from_json(value.get("model")) {
            Some(model) => model,
            None => return None,
        };
        let socket = match value.get_str("socket") {
            Some(socket) => socket.to_owned(),
            None => return None,
        };
        if pid > u32::MAX as u64 {
            return None;
        }
        Some(StatusInfo { pid: pid as u32, uptime_ms, requests_served, model, socket })
    }
}

fn only_member(record: &Json, name: &str) -> (value: Json)
    ensures
        value@ == json::by_name(record@, seq![name@], 1),
{
    let names: Vec<&str> = vec![name];
    assert(json::name_views(names@) =~= seq![name@]);
    record.by_name(names.as_slice(), 1)
}

impl Frame {
    fn to_json(&self) -> (value: Json)
        ensures
            value@ == frame_json(self@),
    {
        proof {
            lemma_frame_names();
        }
        match self {
            Frame::Stdout { text } => {
                let object = Object::new().add("type", Json::text("stdout"));
                Json::Object(object.add("text", Json::Text(text.clone())))
            },
            Frame::Stderr { text } => {
                let object = Object::new().add("type", Json::text("stderr"));
                Json::Object(object.add("text", Json::Text(text.clone())))
            },
            Frame::Status { info } => {
                let object = Object::new().add("type", Json::text("status"));
                Json::Object(object.add("info", info.to_json()))
            },
            Frame::Exit { code, assistant, provider_continuation, constrained } => {
                let continuation = match provider_continuation {
                    Some(continuation) => continuation.to_json(),
                    None => Json::Null,
                };
                let mut object = Object::new().add("type", Json::text("exit"));
                object = object.add("code", Json::Unsigned(*code as u64));
                object = object.add("assistant", Json::text_or_null(assistant));
                object = object.add("provider_continuation", continuation);
                if let Some(value) = constrained {
                    object = object.add("constrained", value.clone());
                }
                Json::Object(object)
            },
        }
    }

    fn exit_from_json(record: &Json) -> (result: Option<Frame>)
        ensures
            match result {
                Some(frame) => exit_of(record@) == Some(frame@),
                None => exit_of(record@) is None,
            },
    {
        let names: Vec<&str> = vec!["code", "assistant", "provider_continuation", "constrained"];
        assert(json::name_views(names@) =~= seq![
            "code"@,
            "assistant"@,
            "provider_continuation"@,
            "constrained"@,
        ]);
        let value = record.by_name(names.as_slice(), 2);
        let code = match value.get_u64("code") {
            Some(code) => code,
            None => return None,
        };
        let assistant = match text_from_json(value.get("assistant")) {
            Some(assistant) => assistant,
            None => return None,
        };
        let provider_continuation = match value.get("provider_continuation") {
            None => None,
            Some(held) => if held.is_null() {
                None
            } else {
                match ProviderContinuation::from_json(held) {
                    Some(continuation) => Some(continuation),
                    None => return None,
                }
            },
        };
        let constrained = match value.get("constrained") {
            None => None,
            Some(held) => if held.is_null() {
                None
            } else {
                Some(held.clone())
            },
        };
        if code > u8::MAX as u64 {
            return None;
        }
        Some(Frame::Exit { code: code as u8, assistant, provider_continuation, constrained })
    }

    fn from_json(record: &Json) -> (result: Option<Frame>)
        ensures
            match result {
                Some(frame) => frame_of(record@) == Some(frame@),
                None => frame_of(record@) is None,
            },
    {
        let (kind, rest) = match record.by_kind("type") {
            Some(parts) => parts,
            None => return None,
        };
        if text::same(kind.as_str(), "stdout") {
            match only_member(&rest, "text").get_str("text") {
                Some(text) => Some(Frame::Stdout { text: text.to_owned() }),
                None => None,
            }
        } else if text::same(kind.as_str(), "stderr") {
            match only_member(&rest, "text").get_str("text") {
                Some(text) => Some(Frame::Stderr { text: text.to_owned() }),
                None => None,
            }
        } else if text::same(kind.as_str(), "status") {
            match only_member(&rest, "info").get("info") {
                Some(held) => match StatusInfo::from_json(held) {
                    Some(info) => Some(Frame::Status { info }),
                    None => None,
                },
                None => None,
            }
        } else if text::same(kind.as_str(), "exit") {
            Frame::exit_from_json(&rest)
        } else {
            None
        }
    }

    /// The line that carries the frame. Reading it gives the frame back.
    pub fn to_line(&self) -> (line: String)
        ensures
            line@ == wire_line(frame_json(self@)),
            is_one_line(line@),
            bridge::round_trips(frame_json(self@)) && valid_frame(self@) ==> line_frame(line@)
                == Ok::<FrameView, Seq<char>>(self@),
    {
        proof {
            if valid_frame(self@) {
                law_frame_round_trip(self@);
            }
        }
        write_json_line(&self.to_json())
    }

    /// Reads the frame that a line carries.
    pub fn from_line(line: &str) -> (result: Result<Frame, String>)
        ensures
            match result {
                Ok(frame) => line_frame(line@) == Ok::<FrameView, Seq<char>>(frame@),
                Err(message) => line_frame(line@) == Err::<FrameView, Seq<char>>(message@),
            },
    {
        match read_json_line(line) {
            Ok(value) => match Frame::from_json(&value) {
                Some(frame) => Ok(frame),
                None => Err("unexpected frame".to_owned()),
            },
            Err(message) => Err(message),
        }
    }
}

/// A frame that travels without loss: null is no constrained answer.
pub open spec fn valid_frame(frame: FrameView) -> bool {
    frame matches FrameView::Exit { constrained, .. } ==> constrained != Some(JsonView::Null)
}

/// A request that travels without loss: its temperature is a number.
pub open spec fn valid_request(request: RequestView) -> bool {
    request matches RequestView::Run { args, .. } ==> (args.temperature matches Some(value)
        ==> is_number(value))
}

/// A frame says the same after the way over the wire.
pub proof fn law_frame_round_trip(frame: FrameView)
    requires
        valid_frame(frame),
    ensures
        frame_of(frame_json(frame)) == Some(frame),
{
    lemma_frame_names();
    if let FrameView::Exit { provider_continuation, .. } = frame {
        if let Some(continuation) = provider_continuation {
            output::law_continuation_round_trip(continuation);
        }
    }
}

proof fn lemma_sources_round_trip(sources: Seq<ToolSourceView>)
    ensures
        sources_member(Some(sources_json(sources))) == Some(sources),
{
    reveal_strlit("kind");
    reveal_strlit("value");
    assert("kind"@.len() != "value"@.len());
    reveal_strlit("inline");
    reveal_strlit("file");
    reveal_strlit("resolved");
    assert("inline"@.len() == 6 && "file"@.len() == 4 && "resolved"@.len() == 8);
    let items = sources_json(sources)->Array_0;
    assert forall|i: int| 0 <= i < items.len() implies source_of(#[trigger] items[i]) == Some(
        sources[i],
    ) by {
        let none: Entries = Seq::empty();
        let entries = items[i]->Object_0;
        assert(entries =~= none.push(entries[0]).push(entries[1]));
    }
    assert(Seq::new(items.len(), |i: int| source_of(items[i])->0) =~= sources);
}

proof fn lemma_members_round_trip(
    text: Option<Seq<char>>,
    number: Option<JsonView>,
    count: Option<u32>,
)
    requires
        number matches Some(value) ==> is_number(value),
    ensures
        json::text_member(Some(json::text_or_null(text))) == Some(text),
        number_member(Some(json::or_null(number))) == Some(number),
        count_member(Some(count_or_null(count))) == Some(count),
{
}

proof fn lemma_first_members(args: ClientView)
    requires
        args.temperature matches Some(value) ==> is_number(value),
    ensures
        json::text_member(json::lookup(client_entries(args), "model"@)) == Some(args.model),
        switch_member(json::lookup(client_entries(args), "stream"@)) == Some(args.stream),
        json::text_member(json::lookup(client_entries(args), "out"@)) == Some(args.out),
        json::text_member(json::lookup(client_entries(args), "system"@)) == Some(args.system),
        json::text_member(json::lookup(client_entries(args), "messages"@)) == Some(args.messages),
        switch_member(json::lookup(client_entries(args), "quick"@)) == Some(args.quick),
{
    lemma_client_names();
    reveal(client_entries);
    let number = args.temperature;
    let count = args.max_tokens;
    lemma_members_round_trip(args.model, number, count);
    lemma_members_round_trip(args.out, number, count);
    lemma_members_round_trip(args.system, number, count);
    lemma_members_round_trip(args.messages, number, count);
}

proof fn lemma_second_members(args: ClientView)
    requires
        args.temperature matches Some(value) ==> is_number(value),
    ensures
        json::text_member(json::lookup(client_entries(args), "stateful"@)) == Some(args.stateful),
        json::text_member(json::lookup(client_entries(args), "reasoning"@)) == Some(args.reasoning),
        switch_member(json::lookup(client_entries(args), "stats"@)) == Some(args.stats),
        json::text_member(json::lookup(client_entries(args), "cache"@)) == Some(args.cache),
        number_member(json::lookup(client_entries(args), "temperature"@)) == Some(args.temperature),
        count_member(json::lookup(client_entries(args), "max_tokens"@)) == Some(args.max_tokens),
{
    lemma_client_names();
    reveal(client_entries);
    let number = args.temperature;
    let count = args.max_tokens;
    lemma_members_round_trip(args.stateful, number, count);
    lemma_members_round_trip(args.reasoning, number, count);
    lemma_members_round_trip(args.cache, number, count);
}

proof fn lemma_third_members(args: ClientView)
    requires
        args.temperature matches Some(value) ==> is_number(value),
    ensures
        switch_member(json::lookup(client_entries(args), "reasoning_summary"@)) == Some(args.reasoning_summary),
        sources_member(json::lookup(client_entries(args), "tools"@)) == Some(args.tools),
        switch_member(json::lookup(client_entries(args), "completions"@)) == Some(args.completions),
        switch_member(json::lookup(client_entries(args), "simple"@)) == Some(args.simple),
        json::text_member(json::lookup(client_entries(args), "schema"@)) == Some(args.schema),
{
    lemma_client_names();
    reveal(client_entries);
    let number = args.temperature;
    let count = args.max_tokens;
    lemma_members_round_trip(args.schema, number, count);
    lemma_sources_round_trip(args.tools);
}

/// The arguments of a client say the same after the way over the wire.
pub proof fn law_client_round_trip(args: ClientView)
    requires
        args.temperature matches Some(value) ==> is_number(value),
    ensures
        client_of(JsonView::Object(client_entries(args))) == Some(args),
{
    lemma_first_members(args);
    lemma_second_members(args);
    lemma_third_members(args);
}

/// A request says the same after the way over the wire.
pub proof fn law_request_round_trip(request: RequestView)
    requires
        valid_request(request),
    ensures
        request_of(request_json(request)) == Some(request),
{
    lemma_frame_names();
    if let RequestView::Run { args, .. } = request {
        law_client_round_trip(args);
    }
}

/// The members by which the arguments of a client travel, each under its name.
pub proof fn law_members_of_a_client(args: ClientView)
    ensures
        ({
            let sent = client_entries(args);
            &&& json::lookup(sent, "model"@) == Some(json::text_or_null(args.model))
            &&& json::lookup(sent, "system"@) == Some(json::text_or_null(args.system))
            &&& json::lookup(sent, "messages"@) == Some(json::text_or_null(args.messages))
            &&& json::lookup(sent, "reasoning"@) == Some(json::text_or_null(args.reasoning))
            &&& json::lookup(sent, "cache"@) == Some(json::text_or_null(args.cache))
            &&& json::lookup(sent, "schema"@) == Some(json::text_or_null(args.schema))
            &&& json::lookup(sent, "stream"@) == Some(JsonView::Bool(args.stream))
            &&& json::lookup(sent, "stats"@) == Some(JsonView::Bool(args.stats))
            &&& json::lookup(sent, "simple"@) == Some(JsonView::Bool(args.simple))
            &&& json::lookup(sent, "quick"@) == Some(JsonView::Bool(args.quick))
            &&& json::lookup(sent, "completions"@) == Some(JsonView::Bool(args.completions))
            &&& json::lookup(sent, "reasoning_summary"@) == Some(
                JsonView::Bool(args.reasoning_summary),
            )
            &&& json::lookup(sent, "temperature"@) == Some(
                match args.temperature {
                    Some(temperature) => temperature,
                    None => JsonView::Null,
                },
            )
            &&& json::lookup(sent, "max_tokens"@) == Some(
                match args.max_tokens {
                    Some(limit) => JsonView::Unsigned(limit as u64),
                    None => JsonView::Null,
                },
            )
            &&& json::lookup(sent, "tools"@) == Some(
                JsonView::Array(
                    args.tools.map_values(|source: ToolSourceView| source_json(source)),
                ),
            )
        }),
{
    lemma_client_names();
    reveal(client_entries);
}

/// A source of tools travels with its kind and what it names or holds.
pub proof fn law_members_of_a_source(raw: Seq<char>, items: Seq<JsonView>)
    ensures
        source_json(ToolSourceView::Inline(raw)).get("kind"@) == Some(JsonView::Text("inline"@)),
        source_json(ToolSourceView::Inline(raw)).get("value"@) == Some(JsonView::Text(raw)),
        source_json(ToolSourceView::File(raw)).get("kind"@) == Some(JsonView::Text("file"@)),
        source_json(ToolSourceView::File(raw)).get("value"@) == Some(JsonView::Text(raw)),
        source_json(ToolSourceView::Resolved(items)).get("kind"@) == Some(
            JsonView::Text("resolved"@),
        ),
        source_json(ToolSourceView::Resolved(items)).get("value"@) == Some(JsonView::Array(items)),
{
    reveal_strlit("kind");
    reveal_strlit("value");
    assert("kind"@.len() != "value"@.len());
    let none: Entries = Seq::empty();
    let inline = source_json(ToolSourceView::Inline(raw))->Object_0;
    assert(inline =~= none.push(inline[0]).push(inline[1]));
    let file = source_json(ToolSourceView::File(raw))->Object_0;
    assert(file =~= none.push(file[0]).push(file[1]));
    let resolved = source_json(ToolSourceView::Resolved(items))->Object_0;
    assert(resolved =~= none.push(resolved[0]).push(resolved[1]));
}

/// The members of a request.
pub proof fn law_members_of_a_request(args: ClientView, stdin: Seq<char>)
    ensures
        ({
            let sent = request_json(RequestView::Run { args, stdin });
            &&& sent.get("kind"@) == Some(JsonView::Text("run"@))
            &&& sent.get("args"@) == Some(JsonView::Object(client_entries(args)))
            &&& sent.get("stdin"@) == Some(JsonView::Text(stdin))
        }),
        request_json(RequestView::Status).get("kind"@) == Some(JsonView::Text("status"@)),
{
    lemma_frame_names();
}

/// The members of a frame.
pub proof fn law_members_of_a_frame(
    text: Seq<char>,
    info: StatusView,
    code: u8,
    assistant: Option<Seq<char>>,
    continuation: Option<ContinuationView>,
    constrained: Option<JsonView>,
)
    ensures
        frame_json(FrameView::Stdout { text }).get("type"@) == Some(JsonView::Text("stdout"@)),
        frame_json(FrameView::Stdout { text }).get("text"@) == Some(JsonView::Text(text)),
        frame_json(FrameView::Stderr { text }).get("type"@) == Some(JsonView::Text("stderr"@)),
        frame_json(FrameView::Stderr { text }).get("text"@) == Some(JsonView::Text(text)),
        frame_json(FrameView::Status { info }).get("type"@) == Some(JsonView::Text("status"@)),
        frame_json(FrameView::Status { info }).get("info"@) matches Some(told) && {
            &&& told.get("pid"@) == Some(JsonView::Unsigned(info.pid as u64))
            &&& told.get("uptime_ms"@) == Some(JsonView::Unsigned(info.uptime_ms))
            &&& told.get("requests_served"@) == Some(JsonView::Unsigned(info.requests_served))
            &&& told.get("model"@) == Some(json::text_or_null(info.model))
            &&& told.get("socket"@) == Some(JsonView::Text(info.socket))
        },
        ({
            let sent = frame_json(
                FrameView::Exit {
                    code,
                    assistant,
                    provider_continuation: continuation,
                    constrained,
                },
            );
            &&& sent.get("type"@) == Some(JsonView::Text("exit"@))
            &&& sent.get("code"@) == Some(JsonView::Unsigned(code as u64))
            &&& sent.get("assistant"@) == Some(
                match assistant {
                    Some(text) => JsonView::Text(text),
                    None => JsonView::Null,
                },
            )
            &&& sent.get("provider_continuation"@) == Some(
                match continuation {
                    Some(held) => held.json(),
                    None => JsonView::Null,
                },
            )
            &&& sent.get("constrained"@) == constrained
        }),
{
    lemma_frame_names();
}

/// What is read of the arguments of a client, member by member: a text, a switch or a number
/// where there is one, and nothing where there is none.
pub proof fn law_client_read_by_member(entries: Entries, args: ClientView)
    requires
        client_of(JsonView::Object(entries)) == Some(args),
    ensures
        args.model == JsonView::Object(entries).get_str("model"@),
        args.out == JsonView::Object(entries).get_str("out"@),
        args.system == JsonView::Object(entries).get_str("system"@),
        args.messages == JsonView::Object(entries).get_str("messages"@),
        args.stateful == JsonView::Object(entries).get_str("stateful"@),
        args.reasoning == JsonView::Object(entries).get_str("reasoning"@),
        args.cache == JsonView::Object(entries).get_str("cache"@),
        args.schema == JsonView::Object(entries).get_str("schema"@),
        args.stream == (json::lookup(entries, "stream"@) == Some(JsonView::Bool(true))),
        args.quick == (json::lookup(entries, "quick"@) == Some(JsonView::Bool(true))),
        args.stats == (json::lookup(entries, "stats"@) == Some(JsonView::Bool(true))),
        args.completions == (json::lookup(entries, "completions"@) == Some(JsonView::Bool(true))),
        args.simple == (json::lookup(entries, "simple"@) == Some(JsonView::Bool(true))),
        args.reasoning_summary == (json::lookup(entries, "reasoning_summary"@) == Some(
            JsonView::Bool(true),
        )),
        match json::lookup(entries, "temperature"@) {
            Some(value) => if value is Null {
                args.temperature is None
            } else {
                args.temperature == Some(value)
            },
            None => args.temperature is None,
        },
        match json::lookup(entries, "max_tokens"@) {
            Some(JsonView::Unsigned(n)) => args.max_tokens matches Some(limit) && limit == n,
            _ => args.max_tokens is None,
        },
        match json::lookup(entries, "tools"@) {
            Some(JsonView::Array(items)) => args.tools.len() == items.len(),
            _ => args.tools.len() == 0,
        },
{
}

/// Arguments of which nothing is said are those in which nothing is set.
pub proof fn law_client_without_members(entries: Entries)
    requires
        json::lookup(entries, "model"@) is None,
        json::lookup(entries, "stream"@) is None,
        json::lookup(entries, "out"@) is None,
        json::lookup(entries, "system"@) is None,
        json::lookup(entries, "messages"@) is None,
        json::lookup(entries, "quick"@) is None,
        json::lookup(entries, "stateful"@) is None,
        json::lookup(entries, "reasoning"@) is None,
        json::lookup(entries, "stats"@) is None,
        json::lookup(entries, "cache"@) is None,
        json::lookup(entries, "temperature"@) is None,
        json::lookup(entries, "max_tokens"@) is None,
        json::lookup(entries, "reasoning_summary"@) is None,
        json::lookup(entries, "tools"@) is None,
        json::lookup(entries, "completions"@) is None,
        json::lookup(entries, "simple"@) is None,
        json::lookup(entries, "schema"@) is None,
    ensures
        client_of(JsonView::Object(entries)) == Some(ClientView::none()),
{
}

/// What is read of a frame, member by member.
pub proof fn law_frame_read_by_member(value: JsonView, text: Seq<char>, code: u64)
    requires
        value is Object,
    ensures
        value.get_str("type"@) == Some("stdout"@) && value.get_str("text"@) == Some(text)
            ==> frame_of(value) == Some(FrameView::Stdout { text }),
        value.get_str("type"@) == Some("stderr"@) && value.get_str("text"@) == Some(text)
            ==> frame_of(value) == Some(FrameView::Stderr { text }),
        value.get_str("type"@) == Some("exit"@) && value.get_u64("code"@) == Some(code) && code
            <= 255 ==> (frame_of(value) matches Some(frame) ==> (frame matches FrameView::Exit {
            code: found,
            assistant,
            constrained,
            ..
        } && found == code && assistant == value.get_str("assistant"@) && (match value.get(
            "constrained"@,
        ) {
            Some(held) => if held is Null {
                constrained is None
            } else {
                constrained == Some(held)
            },
            None => constrained is None,
        }))),
        value.get_str("type"@) == Some("exit"@) && value.get_u64("code"@) == Some(code) && code
            <= 255 && value.get("assistant"@) is None && value.get("provider_continuation"@) is None
            ==> frame_of(value) is Some,
        value.get_str("type"@) is None ==> frame_of(value) is None,
{
    lemma_frame_names();
}

/// What is read of a request, member by member.
pub proof fn law_request_read_by_member(value: JsonView, held: JsonView, stdin: Seq<char>)
    requires
        value is Object,
    ensures
        value.get_str("kind"@) == Some("status"@) ==> request_of(value) == Some(
            RequestView::Status,
        ),
        value.get_str("kind"@) == Some("run"@) && value.get("args"@) == Some(held)
            && value.get_str("stdin"@) == Some(stdin) ==> request_of(value) == (match client_of(
            held,
        ) {
            Some(args) => Some(RequestView::Run { args, stdin }),
            None => None,
        }),
        value.get_str("kind"@) is None ==> request_of(value) is None,
{
    lemma_frame_names();
}

/// A value travels as its text on one line, and the text of the line, without its end, is what
/// is read.
pub proof fn law_line_carries_the_value(value: JsonView, line: Seq<char>)
    ensures
        wire_line(value) == bridge::compact(value) + "\n"@,
        line.len() == 0 || line.last() != '\n' && line.last() != '\r' ==> {
            &&& line_request(line + "\n"@) == line_request(line)
            &&& line_frame(line + "\n"@) == line_frame(line)
        },
        line_request(line) == (match bridge::parsed(text::chomped(line)) {
            Ok(value) => match request_of(value) {
                Some(request) => Ok::<RequestView, Seq<char>>(request),
                None => Err::<RequestView, Seq<char>>("unexpected request"@),
            },
            Err(message) => Err::<RequestView, Seq<char>>(message),
        }),
        line_frame(line) == (match bridge::parsed(text::chomped(line)) {
            Ok(value) => match frame_of(value) {
                Some(frame) => Ok::<FrameView, Seq<char>>(frame),
                None => Err::<FrameView, Seq<char>>("unexpected frame"@),
            },
            Err(message) => Err::<FrameView, Seq<char>>(message),
        }),
{
    if line.len() == 0 || line.last() != '\n' && line.last() != '\r' {
        text::lemma_chomped(line);
        assert(text::chomped(line) == line);
    }
}

/// Whether a member is missing, null, or a text.
pub open spec fn text_or_nothing(value: Option<JsonView>) -> bool {
    match value {
        Some(held) => held is Null || held is Text,
        None => true,
    }
}

/// Whether a member is missing, or a truth value.
pub open spec fn bool_or_nothing(value: Option<JsonView>) -> bool {
    match value {
        Some(held) => held is Bool,
        None => true,
    }
}

/// The arguments of a client can be read exactly where each member that is there has its type.
pub proof fn law_when_a_client_is_read(entries: Entries)
    ensures
        client_of(JsonView::Object(entries)) is Some <==> {
            &&& text_or_nothing(json::lookup(entries, "model"@))
            &&& text_or_nothing(json::lookup(entries, "out"@))
            &&& text_or_nothing(json::lookup(entries, "system"@))
            &&& text_or_nothing(json::lookup(entries, "messages"@))
            &&& text_or_nothing(json::lookup(entries, "stateful"@))
            &&& text_or_nothing(json::lookup(entries, "reasoning"@))
            &&& text_or_nothing(json::lookup(entries, "cache"@))
            &&& text_or_nothing(json::lookup(entries, "schema"@))
            &&& bool_or_nothing(json::lookup(entries, "stream"@))
            &&& bool_or_nothing(json::lookup(entries, "quick"@))
            &&& bool_or_nothing(json::lookup(entries, "stats"@))
            &&& bool_or_nothing(json::lookup(entries, "reasoning_summary"@))
            &&& bool_or_nothing(json::lookup(entries, "completions"@))
            &&& bool_or_nothing(json::lookup(entries, "simple"@))
            &&& match json::lookup(entries, "temperature"@) {
                Some(held) => held is Null || held is Unsigned || held is Negative || held is Float,
                None => true,
            }
            &&& match json::lookup(entries, "max_tokens"@) {
                Some(JsonView::Unsigned(n)) => n <= u32::MAX,
                Some(held) => held is Null,
                None => true,
            }
            &&& match json::lookup(entries, "tools"@) {
                Some(JsonView::Array(items)) => forall|i: int|
                    0 <= i < items.len() ==> source_of(#[trigger] items[i]) is Some,
                Some(_) => false,
                None => true,
            }
        },
{
}

/// What is read of a source of tools: its kind and what it names or holds.
pub proof fn law_source_read_by_member(value: JsonView, raw: Seq<char>, items: Seq<JsonView>)
    requires
        value is Object,
    ensures
        value.get("kind"@) == Some(JsonView::Text("inline"@)) && value.get("value"@) == Some(
            JsonView::Text(raw),
        ) ==> source_of(value) == Some(ToolSourceView::Inline(raw)),
        value.get("kind"@) == Some(JsonView::Text("file"@)) && value.get("value"@) == Some(
            JsonView::Text(raw),
        ) ==> source_of(value) == Some(ToolSourceView::File(raw)),
        value.get("kind"@) == Some(JsonView::Text("resolved"@)) && value.get("value"@) == Some(
            JsonView::Array(items),
        ) ==> source_of(value) == Some(ToolSourceView::Resolved(items)),
        value.get("value"@) is None ==> source_of(value) is None,
        value.get("kind"@) is None ==> source_of(value) is None,
{
    reveal_strlit("inline");
    reveal_strlit("file");
    reveal_strlit("resolved");
    assert("inline"@.len() == 6 && "file"@.len() == 4 && "resolved"@.len() == 8);
}

/// The sources of a client are read one by one, in order.
pub proof fn law_sources_read_in_order(entries: Entries, args: ClientView, items: Seq<JsonView>, at: int)
    requires
        client_of(JsonView::Object(entries)) == Some(args),
        json::lookup(entries, "tools"@) == Some(JsonView::Array(items)),
        0 <= at < items.len(),
    ensures
        args.tools.len() == items.len(),
        source_of(items[at]) == Some(args.tools[at]),
{
}

/// What is read of a status, member by member.
pub proof fn law_status_read_by_member(value: JsonView)
    requires
        value is Object,
    ensures
        status_of(value) is Some <==> (value.get_u64("pid"@) matches Some(pid) && pid <= u32::MAX)
            && value.get_u64("uptime_ms"@) is Some && value.get_u64("requests_served"@) is Some
            && text_or_nothing(value.get("model"@)) && value.get_str("socket"@) is Some,
        status_of(value) matches Some(info) ==> {
            &&& value.get_u64("pid"@) == Some(info.pid as u64)
            &&& value.get_u64("uptime_ms"@) == Some(info.uptime_ms)
            &&& value.get_u64("requests_served"@) == Some(info.requests_served)
            &&& value.get_str("model"@) == info.model
            &&& value.get_str("socket"@) == Some(info.socket)
        },
{
}

} // verus!
