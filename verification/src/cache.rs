//! The response cache: the key of a request, and what a row of the database says.
use vstd::prelude::*;
use vstd::string::*;
use vstd::utf8;

use crate::bridge;
use crate::conversation;
use crate::conversation::{Message, MessageView};
use crate::json;
use crate::json::{Entries, Json, JsonView, Object};
use crate::output;
use crate::output::{Prospect, ProspectView};
use crate::text;

verus! {

broadcast use json::group_lookup;

/// An answer that was found in the cache.
#[derive(Debug, PartialEq)]
pub struct CachedEntry {
    /// The output as it was written.
    pub content: String,
    pub assistant: Option<String>,
    pub prospect: Option<Prospect>,
    pub events: Option<Vec<Json>>,
    pub usage: Option<Json>,
    pub model: Option<String>,
}

/// What decides about the answer of a model, and with it the cache key. Secrets, and what only
/// decides about transport or rendering, are not among it.
pub struct KeyParts<'a> {
    pub model: &'a str,
    pub system: &'a Option<String>,
    pub messages: &'a [Message],
    pub reasoning: &'a Option<String>,
    pub temperature: &'a Option<Json>,
    pub max_tokens: u32,
    pub tools: &'a Option<Vec<Json>>,
    pub completions: bool,
    pub schema: &'a Option<Json>,
}

pub struct KeyPartsView {
    pub model: Seq<char>,
    pub system: Option<Seq<char>>,
    pub messages: Seq<MessageView>,
    pub reasoning: Option<Seq<char>>,
    pub temperature: Option<JsonView>,
    pub max_tokens: u32,
    pub tools: Option<Seq<JsonView>>,
    pub completions: bool,
    pub schema: Option<JsonView>,
}

impl<'a> View for KeyParts<'a> {
    type V = KeyPartsView;

    open spec fn view(&self) -> KeyPartsView {
        KeyPartsView {
            model: self.model@,
            system: text::opt(*self.system),
            messages: conversation::message_views(self.messages@),
            reasoning: text::opt(*self.reasoning),
            temperature: json::opt_json(*self.temperature),
            max_tokens: self.max_tokens,
            tools: json::opt_views(*self.tools),
            completions: self.completions,
            schema: json::opt_json(*self.schema),
        }
    }
}

/// An array, or null where there is none.
pub open spec fn array_or_null(items: Option<Seq<JsonView>>) -> JsonView {
    match items {
        Some(items) => JsonView::Array(items),
        None => JsonView::Null,
    }
}

impl KeyPartsView {
    /// The document whose hash is the key.
    pub open spec fn canonical(self) -> JsonView {
        let entries: Entries = seq![
            ("v"@, JsonView::Unsigned(10)),
            ("model"@, JsonView::Text(self.model)),
            ("system"@, json::text_or_null(self.system)),
            ("messages"@, conversation::kept_messages(self.messages)),
            ("reasoning"@, json::text_or_null(self.reasoning)),
            ("temperature"@, json::or_null(self.temperature)),
            ("max_tokens"@, JsonView::Unsigned(self.max_tokens as u64)),
            ("tools"@, array_or_null(self.tools)),
            ("completions"@, JsonView::Bool(self.completions)),
        ];
        JsonView::Object(
            match self.schema {
                Some(schema) => entries.push(("schema"@, schema)),
                None => entries,
            },
        )
    }

    /// The bytes whose hash is the key.
    pub open spec fn bytes(self) -> Seq<u8> {
        utf8::encode_utf8(bridge::compact(self.canonical()))
    }

    /// Whether the canonical document is one that can be written, and its text that of no other
    /// document.
    pub open spec fn has_own_text(self) -> bool {
        &&& bridge::is_held(self.canonical())
        &&& bridge::only_text_of(self.canonical(), bridge::compact(self.canonical()))
    }

    /// Whether everything that decides about the answer is the same in both: model, system
    /// prompt, conversation, reasoning level, temperature, token limit, tools, provider mode and
    /// schema. A value of null counts as none.
    pub open spec fn same_request(self, other: KeyPartsView) -> bool {
        &&& self.model == other.model
        &&& self.system == other.system
        &&& conversation::kept_messages(self.messages) == conversation::kept_messages(
            other.messages,
        )
        &&& self.reasoning == other.reasoning
        &&& json::or_null(self.temperature) == json::or_null(other.temperature)
        &&& self.max_tokens == other.max_tokens
        &&& self.tools == other.tools
        &&& self.completions == other.completions
        &&& self.schema == other.schema
    }

    /// The cache key: the hash of the canonical document, in hexadecimal digits.
    pub open spec fn key(self) -> Seq<char> {
        text::hex(sha256_digest(self.bytes()))
    }
}

/// The SHA-256 hash of bytes, as `sha2::Sha256` computes it.
pub uninterp spec fn sha256_digest(bytes: Seq<u8>) -> Seq<u8>;

/// `sha2::Sha256::digest`. The hash has 32 bytes.
#[verifier::external_body]
fn sha256(bytes: &[u8]) -> (digest: Vec<u8>)
    ensures
        digest@ == sha256_digest(bytes@),
        digest@.len() == 32,
{
    <sha2::Sha256 as sha2::Digest>::digest(bytes).to_vec()
}

proof fn lemma_part_names()
    ensures
        "v"@.len() == 1,
        "model"@.len() == 5,
        "system"@.len() == 6,
        "messages"@.len() == 8,
        "reasoning"@.len() == 9,
        "temperature"@.len() == 11,
        "max_tokens"@.len() == 10,
        "tools"@.len() == 5,
        "model"@ != "tools"@,
        "completions"@.len() == 11,
        "temperature"@ != "completions"@,
        "schema"@.len() == 6,
        "system"@ != "schema"@,
{
    reveal_strlit("v");
    reveal_strlit("model");
    reveal_strlit("system");
    reveal_strlit("messages");
    reveal_strlit("reasoning");
    reveal_strlit("temperature");
    reveal_strlit("max_tokens");
    reveal_strlit("tools");
    reveal_strlit("completions");
    reveal_strlit("schema");
    assert("model"@[0] != "tools"@[0]);
    assert("temperature"@[0] != "completions"@[0]);
    assert("system"@[1] != "schema"@[1]);
}

fn canonical(parts: &KeyParts<'_>) -> (document: Json)
    ensures
        document@ == parts@.canonical(),
{
    proof {
        lemma_part_names();
    }
    let temperature = match parts.temperature {
        Some(value) => value.clone(),
        None => Json::Null,
    };
    let tools = match parts.tools {
        Some(items) => Json::array_of(items.as_slice()),
        None => Json::Null,
    };
    let object = Object::new().add("v", Json::Unsigned(10));
    let object = object.add("model", Json::text(parts.model));
    let object = object.add("system", Json::text_or_null(parts.system));
    let object = object.add("messages", conversation::keep(parts.messages));
    let object = object.add("reasoning", Json::text_or_null(parts.reasoning));
    let object = object.add("temperature", temperature);
    let object = object.add("max_tokens", Json::Unsigned(parts.max_tokens as u64));
    let object = object.add("tools", tools);
    let object = object.add("completions", Json::Bool(parts.completions));
    match parts.schema {
        Some(schema) => {
            let object = object.add("schema", schema.clone());
            assert(object@ =~= parts@.canonical()->Object_0);
            Json::Object(object)
        },
        None => {
            assert(object@ =~= parts@.canonical()->Object_0);
            Json::Object(object)
        },
    }
}

/// The cache key of a request: 64 hexadecimal digits. The text that is hashed is that of no
/// other canonical document.
pub fn key(parts: KeyParts<'_>) -> (result: String)
    ensures
        result@ == parts@.key(),
        result@.len() == 64,
        forall|i: int|
            0 <= i < result@.len() ==> '0' <= #[trigger] result@[i] <= '9' || 'a' <= result@[i]
                <= 'f',
        parts@.has_own_text(),
{
    let serialized = canonical(&parts).to_compact();
    let digest = sha256(serialized.as_str().as_bytes());
    proof {
        text::lemma_hex(digest@);
    }
    text::hex_text(digest.as_slice())
}

/// The canonical documents of two requests are the same only where everything that decides
/// about the answer is.
pub proof fn law_canonical_tells_requests_apart(one: KeyPartsView, other: KeyPartsView)
    requires
        one.canonical() == other.canonical(),
    ensures
        one.same_request(other),
{
    let a = one.canonical()->Object_0;
    let b = other.canonical()->Object_0;
    assert(a[1] == b[1]);
    assert(a[2] == b[2]);
    assert(a[3] == b[3]);
    assert(a[4] == b[4]);
    assert(a[5] == b[5]);
    assert(a[6] == b[6]);
    assert(a[7] == b[7]);
    assert(a[8] == b[8]);
    assert(a.len() == b.len());
    if a.len() == 10 {
        assert(a[9] == b[9]);
    }
}

/// Requests that are the same in everything that decides about the answer have the same key.
pub proof fn law_same_request_same_key(one: KeyPartsView, other: KeyPartsView)
    requires
        one.same_request(other),
    ensures
        one.key() == other.key(),
{
}

/// Different requests have different keys but for a collision of SHA-256: where their keys are
/// the same, the hash is that of two different byte strings. Each request for which
/// [`key`] gives a key has a text of its own.
pub proof fn law_key_tells_requests_apart(one: KeyPartsView, other: KeyPartsView)
    requires
        one.has_own_text(),
        other.has_own_text(),
        !one.same_request(other),
    ensures
        one.bytes() != other.bytes(),
        one.key() == other.key() ==> sha256_digest(one.bytes()) == sha256_digest(other.bytes()),
{
    if one.bytes() == other.bytes() {
        utf8::encode_utf8_decode_utf8(bridge::compact(one.canonical()));
        utf8::encode_utf8_decode_utf8(bridge::compact(other.canonical()));
        let value = choose|value: serde_json::Value| bridge::value_tree(value)
            == other.canonical();
        assert(bridge::compact(bridge::value_tree(value)) == bridge::compact(one.canonical()));
        law_canonical_tells_requests_apart(one, other);
    }
    if one.key() == other.key() {
        text::lemma_hex_apart(sha256_digest(one.bytes()), sha256_digest(other.bytes()));
    }
}

/// A row of the database.
#[derive(Debug, PartialEq, Eq)]
pub struct Row {
    pub key: String,
    pub content: String,
    pub assistant: Option<String>,
    pub prospect: Option<String>,
    pub events: Option<String>,
    pub usage: Option<String>,
    pub model: Option<String>,
}

pub struct RowView {
    pub key: Seq<char>,
    pub content: Seq<char>,
    pub assistant: Option<Seq<char>>,
    pub prospect: Option<Seq<char>>,
    pub events: Option<Seq<char>>,
    pub usage: Option<Seq<char>>,
    pub model: Option<Seq<char>>,
}

impl View for Row {
    type V = RowView;

    open spec fn view(&self) -> RowView {
        RowView {
            key: self.key@,
            content: self.content@,
            assistant: text::opt(self.assistant),
            prospect: text::opt(self.prospect),
            events: text::opt(self.events),
            usage: text::opt(self.usage),
            model: text::opt(self.model),
        }
    }
}

/// An answer to be kept.
pub struct StoreEntry<'a> {
    pub key: &'a str,
    pub content: &'a str,
    pub assistant: &'a str,
    pub prospect: &'a Prospect,
    pub events: &'a [Json],
    pub usage: &'a Option<Json>,
    pub model: &'a Option<String>,
}

/// The JSON value of a column; nothing where the column is empty or holds no JSON.
pub open spec fn column_value(column: Option<Seq<char>>) -> Option<JsonView> {
    match column {
        Some(raw) => match bridge::parsed(raw) {
            Ok(value) => Some(value),
            Err(_) => None,
        },
        None => None,
    }
}

/// The answer of a column; nothing where the column holds none.
pub open spec fn column_prospect(column: Option<Seq<char>>) -> Option<ProspectView> {
    match column_value(column) {
        Some(value) => output::prospect_of(value),
        None => None,
    }
}

/// The events of a column; nothing where the column holds no array.
pub open spec fn column_events(column: Option<Seq<char>>) -> Option<Seq<JsonView>> {
    match column_value(column) {
        Some(value) => value.as_array(),
        None => None,
    }
}

/// What an answer says, if there is one.
pub open spec fn opt_prospect(prospect: Option<Prospect>) -> Option<ProspectView> {
    match prospect {
        Some(prospect) => Some(prospect@),
        None => None,
    }
}

pub struct EntryView {
    pub content: Seq<char>,
    pub assistant: Option<Seq<char>>,
    pub prospect: Option<ProspectView>,
    pub events: Option<Seq<JsonView>>,
    pub usage: Option<JsonView>,
    pub model: Option<Seq<char>>,
}

impl View for CachedEntry {
    type V = EntryView;

    open spec fn view(&self) -> EntryView {
        EntryView {
            content: self.content@,
            assistant: text::opt(self.assistant),
            prospect: opt_prospect(self.prospect),
            events: json::opt_views(self.events),
            usage: json::opt_json(self.usage),
            model: text::opt(self.model),
        }
    }
}

/// The answer that a row holds.
pub open spec fn entry_of(row: RowView) -> EntryView {
    EntryView {
        content: row.content,
        assistant: row.assistant,
        prospect: column_prospect(row.prospect),
        events: column_events(row.events),
        usage: column_value(row.usage),
        model: row.model,
    }
}

/// The row that keeps an answer.
pub open spec fn row_of(
    key: Seq<char>,
    content: Seq<char>,
    assistant: Seq<char>,
    prospect: ProspectView,
    events: Seq<JsonView>,
    usage: Option<JsonView>,
    model: Option<Seq<char>>,
) -> RowView {
    RowView {
        key,
        content,
        assistant: Some(assistant),
        prospect: Some(bridge::compact(prospect.json())),
        events: Some(bridge::compact(JsonView::Array(events))),
        usage: match usage {
            Some(usage) => Some(bridge::compact(usage)),
            None => None,
        },
        model,
    }
}

fn read_column(column: &Option<String>) -> (value: Option<Json>)
    ensures
        json::opt_json(value) == column_value(text::opt(*column)),
{
    match column {
        Some(raw) => match Json::parse(raw.as_str()) {
            Ok(value) => Some(value),
            Err(_) => None,
        },
        None => None,
    }
}

/// The answer that a row holds, where a row was found. A column that cannot be read counts as
/// empty.
pub fn lookup(row: Option<Row>) -> (entry: Option<CachedEntry>)
    ensures
        match row {
            Some(row) => entry matches Some(entry) && entry@ == entry_of(row@),
            None => entry is None,
        },
{
    let row = match row {
        Some(row) => row,
        None => return None,
    };
    let prospect = match read_column(&row.prospect) {
        Some(value) => Prospect::from_json(&value),
        None => None,
    };
    let events = match read_column(&row.events) {
        Some(value) => match value.as_array() {
            Some(items) => Some(json::copy_all(items.as_slice())),
            None => None,
        },
        None => None,
    };
    let usage = read_column(&row.usage);
    Some(
        CachedEntry {
            content: row.content,
            assistant: row.assistant,
            prospect,
            events,
            usage,
            model: row.model,
        },
    )
}

/// The row that keeps an answer. What is kept reads back as it was.
pub fn store(entry: StoreEntry<'_>) -> (row: Row)
    ensures
        row@ == row_of(
            entry.key@,
            entry.content@,
            entry.assistant@,
            entry.prospect@,
            json::views(entry.events@),
            json::opt_json(*entry.usage),
            text::opt(*entry.model),
        ),
        bridge::round_trips(entry.prospect@.json()) && entry.prospect@.constrained != Some(
            JsonView::Null,
        ) ==> entry_of(row@).prospect == Some(entry.prospect@),
        bridge::round_trips(JsonView::Array(json::views(entry.events@))) ==> entry_of(row@).events
            == Some(json::views(entry.events@)),
        (json::opt_json(*entry.usage) matches Some(usage) ==> bridge::round_trips(usage))
            ==> entry_of(row@).usage == json::opt_json(*entry.usage),
{
    proof {
        if entry.prospect@.constrained != Some(JsonView::Null) {
            output::law_prospect_round_trip(entry.prospect@);
        }
    }
    let prospect = entry.prospect.to_json().to_compact();
    let events = Json::array_of(entry.events).to_compact();
    let usage = match entry.usage {
        Some(usage) => Some(usage.to_compact()),
        None => None,
    };
    Row {
        key: entry.key.to_owned(),
        content: entry.content.to_owned(),
        assistant: Some(entry.assistant.to_owned()),
        prospect: Some(prospect),
        events: Some(events),
        usage,
        model: text::copy_opt(entry.model),
    }
}

/// The columns that a database of an earlier version lacks, in the order in which they are
/// added.
pub open spec fn late_columns() -> Seq<Seq<char>> {
    seq!["assistant"@, "prospect"@, "events"@]
}

/// Those of the columns that are not among the names.
pub open spec fn columns_without(columns: Seq<Seq<char>>, names: Seq<Seq<char>>) -> Seq<Seq<char>>
    decreases columns.len(),
{
    if columns.len() == 0 {
        columns
    } else {
        let rest = columns_without(columns.drop_last(), names);
        if names.contains(columns.last()) {
            rest
        } else {
            rest.push(columns.last())
        }
    }
}

fn has_name(names: &[String], name: &str) -> (result: bool)
    ensures
        result == text::texts(names@).contains(name@),
{
    let ghost all = text::texts(names@);
    let mut i: usize = 0;
    while i < names.len()
        invariant
            i <= names@.len(),
            all == text::texts(names@),
            forall|j: int| 0 <= j < i ==> #[trigger] all[j] != name@,
        decreases names@.len() - i,
    {
        if text::same(names[i].as_str(), name) {
            assert(all[i as int] == name@);
            return true;
        }
        i += 1;
    }
    false
}

/// The columns that have to be added to a table with the given columns.
pub fn missing_columns(names: &[String]) -> (columns: Vec<String>)
    ensures
        text::texts(columns@) == columns_without(late_columns(), text::texts(names@)),
{
    broadcast use text::lemma_texts_push;

    let ghost all = text::texts(names@);
    let mut columns: Vec<String> = Vec::new();
    assert(text::texts(columns@) =~= Seq::empty());
    proof {
        let none: Seq<Seq<char>> = Seq::empty();
        reveal_with_fuel(columns_without, 4);
        assert(late_columns().drop_last() =~= none.push("assistant"@).push("prospect"@));
        assert(none.push("assistant"@).push("prospect"@).drop_last() =~= none.push("assistant"@));
        assert(none.push("assistant"@).drop_last() =~= none);
    }
    if !has_name(names, "assistant") {
        columns.push("assistant".to_owned());
    }
    if !has_name(names, "prospect") {
        columns.push("prospect".to_owned());
    }
    if !has_name(names, "events") {
        columns.push("events".to_owned());
    }
    columns
}

/// The statement that adds a text column.
pub fn add_column_statement(column: &str) -> (statement: String)
    ensures
        statement@ == "ALTER TABLE responses ADD COLUMN "@ + column@ + " TEXT"@,
{
    text::concat3("ALTER TABLE responses ADD COLUMN ", column, " TEXT")
}

/// What the key of a request is made of: everything that decides about the answer, each under
/// its name.
pub proof fn law_key_covers_the_request(parts: KeyPartsView)
    ensures
        ({
            let document = parts.canonical();
            &&& document.get("v"@) == Some(JsonView::Unsigned(10))
            &&& document.get("model"@) == Some(JsonView::Text(parts.model))
            &&& document.get("system"@) == Some(
                match parts.system {
                    Some(prompt) => JsonView::Text(prompt),
                    None => JsonView::Null,
                },
            )
            &&& document.get("messages"@) matches Some(JsonView::Array(items)) && items.len()
                == parts.messages.len() && (forall|i: int|
                0 <= i < items.len() ==> #[trigger] items[i] == parts.messages[i].json())
            &&& document.get("reasoning"@) == Some(
                match parts.reasoning {
                    Some(level) => JsonView::Text(level),
                    None => JsonView::Null,
                },
            )
            &&& document.get("temperature"@) == Some(
                match parts.temperature {
                    Some(temperature) => temperature,
                    None => JsonView::Null,
                },
            )
            &&& document.get("max_tokens"@) == Some(JsonView::Unsigned(parts.max_tokens as u64))
            &&& document.get("tools"@) == Some(
                match parts.tools {
                    Some(tools) => JsonView::Array(tools),
                    None => JsonView::Null,
                },
            )
            &&& document.get("completions"@) == Some(JsonView::Bool(parts.completions))
            &&& document.get("schema"@) == parts.schema
        }),
{
    broadcast use json::group_lookup;

    lemma_part_names();
    let none: Entries = Seq::empty();
    let chain = none.push(("v"@, JsonView::Unsigned(10))).push(
        ("model"@, JsonView::Text(parts.model)),
    ).push(("system"@, json::text_or_null(parts.system))).push(
        ("messages"@, conversation::kept_messages(parts.messages)),
    ).push(("reasoning"@, json::text_or_null(parts.reasoning))).push(
        ("temperature"@, json::or_null(parts.temperature)),
    ).push(("max_tokens"@, JsonView::Unsigned(parts.max_tokens as u64))).push(
        ("tools"@, array_or_null(parts.tools)),
    ).push(("completions"@, JsonView::Bool(parts.completions)));
    match parts.schema {
        Some(schema) => {
            assert(parts.canonical()->Object_0 =~= chain.push(("schema"@, schema)));
        },
        None => {
            assert(parts.canonical()->Object_0 =~= chain);
        },
    }
    conversation::law_kept_one_by_one(parts.messages);
}

/// Requests that differ in anything that decides about the answer are hashed from different
/// bytes.
pub proof fn law_every_difference_shows(one: KeyPartsView, other: KeyPartsView)
    requires
        one.has_own_text(),
        other.has_own_text(),
        one.temperature != Some(JsonView::Null),
        other.temperature != Some(JsonView::Null),
        forall|i: int| 0 <= i < one.messages.len() ==> (#[trigger] one.messages[i]).valid(),
        forall|i: int| 0 <= i < other.messages.len() ==> (#[trigger] other.messages[i]).valid(),
    ensures
        one.bytes() == other.bytes() ==> {
            &&& one.model == other.model
            &&& one.system == other.system
            &&& one.messages == other.messages
            &&& one.reasoning == other.reasoning
            &&& one.temperature == other.temperature
            &&& one.max_tokens == other.max_tokens
            &&& one.tools == other.tools
            &&& one.completions == other.completions
            &&& one.schema == other.schema
        },
{
    if one.bytes() == other.bytes() {
        if !one.same_request(other) {
            law_key_tells_requests_apart(one, other);
        }
        conversation::law_kept_messages_read_back(one.messages);
        conversation::law_kept_messages_read_back(other.messages);
    }
}

/// What is stored of an answer: what was shown, the text, the whole answer, its events, its
/// usage and its model, each in a column of its own.
pub proof fn law_what_is_stored(
    key: Seq<char>,
    content: Seq<char>,
    assistant: Seq<char>,
    prospect: ProspectView,
    events: Seq<JsonView>,
    usage: Option<JsonView>,
    model: Option<Seq<char>>,
)
    ensures
        ({
            let row = row_of(key, content, assistant, prospect, events, usage, model);
            &&& row.key == key
            &&& row.content == content
            &&& row.assistant == Some(assistant)
            &&& row.prospect == Some(bridge::compact(prospect.json()))
            &&& row.events == Some(bridge::compact(JsonView::Array(events)))
            &&& row.usage == (match usage {
                Some(usage) => Some(bridge::compact(usage)),
                None => None,
            })
            &&& row.model == model
        }),
{
}

/// What is found in a row: each column by itself. A column that is empty, or that does not hold
/// what it should, counts as nothing and takes nothing else with it.
pub proof fn law_what_is_found(row: RowView)
    ensures
        ({
            let entry = entry_of(row);
            &&& entry.content == row.content
            &&& entry.assistant == row.assistant
            &&& entry.model == row.model
            &&& match row.usage {
                Some(raw) => entry.usage == (match bridge::parsed(raw) {
                    Ok(usage) => Some(usage),
                    Err(_) => None,
                }),
                None => entry.usage is None,
            }
            &&& match row.events {
                Some(raw) => entry.events == (match bridge::parsed(raw) {
                    Ok(JsonView::Array(events)) => Some(events),
                    _ => None,
                }),
                None => entry.events is None,
            }
            &&& match row.prospect {
                Some(raw) => entry.prospect == (match bridge::parsed(raw) {
                    Ok(value) => output::prospect_of(value),
                    Err(_) => None,
                }),
                None => entry.prospect is None,
            }
        }),
{
}

/// Every column that a table lacks is added, and none that it has.
pub proof fn law_lacking_columns_are_added(names: Seq<Seq<char>>, column: Seq<char>)
    ensures
        columns_without(late_columns(), names).contains(column) <==> !names.contains(column) && (
        column == "assistant"@ || column == "prospect"@ || column == "events"@),
{
    let none: Seq<Seq<char>> = Seq::empty();
    let one = none.push("assistant"@);
    let two = one.push("prospect"@);
    reveal_with_fuel(columns_without, 4);
    assert(late_columns().drop_last() =~= two);
    assert(two.drop_last() =~= one);
    assert(one.drop_last() =~= none);
    let first = columns_without(one, names);
    let second = columns_without(two, names);
    let all = columns_without(late_columns(), names);
    if !names.contains("assistant"@) {
        assert(first =~= none.push("assistant"@));
        assert(first[0] == "assistant"@);
    } else {
        assert(first =~= none);
    }
    let before = first.len() as int;
    assert(first.len() > 0 ==> second[0] == first[0]);
    assert(!names.contains("prospect"@) ==> second[before] == "prospect"@);
    let later = second.len() as int;
    assert(forall|i: int| 0 <= i < second.len() ==> all[i] == second[i]);
    assert(!names.contains("events"@) ==> all[later] == "events"@);
    assert(first.len() > 0 ==> all[0] == "assistant"@);
    assert(!names.contains("prospect"@) ==> all[before] == "prospect"@);
}

} // verus!
