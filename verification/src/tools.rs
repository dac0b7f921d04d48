//! Tool definitions: reading them, shaping them for each provider, and printing tool calls.
use vstd::prelude::*;
use vstd::string::*;

use crate::bridge;
use crate::json;
use crate::json::{Entries, Json, JsonView, Object};
use crate::text;

verus! {

broadcast use json::group_lookup;

/// Where tool definitions come from.
#[derive(Debug, PartialEq)]
pub enum ToolSource {
    /// JSON text given on the command line.
    Inline(String),
    /// The path of a file that holds JSON text.
    File(String),
    /// Definitions that were read before.
    Resolved(Vec<Json>),
}

/// What a tool source says.
pub enum ToolSourceView {
    Inline(Seq<char>),
    File(Seq<char>),
    Resolved(Seq<JsonView>),
}

impl View for ToolSource {
    type V = ToolSourceView;

    open spec fn view(&self) -> ToolSourceView {
        match self {
            ToolSource::Inline(raw) => ToolSourceView::Inline(raw@),
            ToolSource::File(path) => ToolSourceView::File(path@),
            ToolSource::Resolved(items) => ToolSourceView::Resolved(json::views(items@)),
        }
    }
}

/// The fields of a function definition as the providers name them: `input_schema` becomes
/// `parameters` unless `parameters` is there, and the wrapper's own keys are left out.
/// `fields` is the part of `all` that is taken over.
pub open spec fn function_fields_of(all: Entries, fields: Entries) -> Entries
    decreases fields.len(),
{
    if fields.len() == 0 {
        fields
    } else {
        let rest = function_fields_of(all, fields.drop_last());
        let (key, value) = fields.last();
        if key == "type"@ || key == "function"@ {
            rest
        } else if key == "input_schema"@ {
            if json::lookup(all, "parameters"@) is Some {
                rest
            } else {
                json::insert(rest, "parameters"@, value)
            }
        } else {
            json::insert(rest, key, value)
        }
    }
}

pub open spec fn function_fields(all: Entries) -> Entries {
    function_fields_of(all, all)
}

/// A tool without wrapper that names no type: a name, and a schema under either of its two
/// names.
pub open spec fn plain_function(tool: Entries) -> bool {
    &&& JsonView::Object(tool).get_str("type"@) is None
    &&& json::lookup(tool, "name"@) is Some
    &&& json::lookup(tool, "input_schema"@) is Some || json::lookup(tool, "parameters"@) is Some
}

/// A tool marked as a function.
pub open spec fn typed_function(tool: Entries) -> bool {
    JsonView::Object(tool).get_str("type"@) == Some("function"@)
}

/// The definition that a tool nests under `function`.
pub open spec fn nested_function(tool: Entries) -> Option<Entries> {
    match json::lookup(tool, "function"@) {
        Some(JsonView::Object(function)) => Some(function),
        _ => None,
    }
}

/// The Chat Completions wrapper round a definition.
pub open spec fn wrapped_function(fields: Entries) -> JsonView {
    JsonView::Object(
        seq![("type"@, JsonView::Text("function"@)), ("function"@, JsonView::Object(fields))],
    )
}

/// A tool in the shape of the Chat Completions API.
pub open spec fn chat_tool(tool: JsonView) -> JsonView {
    match tool {
        JsonView::Object(entries) => if typed_function(entries) {
            match nested_function(entries) {
                Some(function) => JsonView::Object(
                    json::insert(
                        entries,
                        "function"@,
                        JsonView::Object(function_fields(function)),
                    ),
                ),
                None => if json::lookup(entries, "name"@) is Some {
                    wrapped_function(function_fields(entries))
                } else {
                    tool
                },
            }
        } else if plain_function(entries) {
            wrapped_function(function_fields(entries))
        } else {
            tool
        },
        _ => tool,
    }
}

/// The entries of a wrapper other than the mark and the nested definition.
pub open spec fn wrapper_fields(tool: Entries) -> Entries {
    json::without(json::without(tool, "type"@), "function"@)
}

/// A tool in the shape of the Responses API.
pub open spec fn responses_tool(tool: JsonView) -> JsonView {
    let mark = JsonView::Text("function"@);
    match tool {
        JsonView::Object(entries) => if typed_function(entries) {
            match nested_function(entries) {
                Some(function) => JsonView::Object(
                    json::extend(
                        json::extend(seq![("type"@, mark)], wrapper_fields(entries)),
                        function_fields(function),
                    ),
                ),
                None => JsonView::Object(
                    json::insert(function_fields(entries), "type"@, mark),
                ),
            }
        } else if plain_function(entries) {
            JsonView::Object(json::insert(function_fields(entries), "type"@, mark))
        } else {
            tool
        },
        _ => tool,
    }
}

fn normalize_function_fields(object: &Object) -> (fields: Object)
    ensures
        fields@ == function_fields(object@),
{
    let mut fields = Object::new();
    let mut i: usize = 0;
    assert(object@.take(0) =~= Entries::empty());
    while i < object.len()
        invariant
            i <= object@.len(),
            fields@ == function_fields_of(object@, object@.take(i as int)),
        decreases object@.len() - i,
    {
        assert(object@.take(i + 1).drop_last() =~= object@.take(i as int));
        let (key, value) = object.entry(i);
        if text::same(key.as_str(), "type") || text::same(key.as_str(), "function") {
        } else if text::same(key.as_str(), "input_schema") {
            if !object.contains_key("parameters") {
                fields = fields.insert("parameters", value.clone());
            }
        } else {
            fields = fields.insert(key.as_str(), value.clone());
        }
        i += 1;
    }
    assert(object@.take(i as int) =~= object@);
    fields
}

fn names_type(tool: &Object) -> (result: bool)
    ensures
        result == (JsonView::Object(tool@).get_str("type"@) is Some),
{
    match tool.get("type") {
        Some(kind) => kind.as_str().is_some(),
        None => false,
    }
}

fn looks_like_plain_function(object: &Object) -> (result: bool)
    ensures
        result == plain_function(object@),
{
    !names_type(object) && object.contains_key("name") && (object.contains_key("input_schema")
        || object.contains_key("parameters"))
}

fn is_typed_function(tool: &Object) -> (result: bool)
    ensures
        result == typed_function(tool@),
{
    match tool.get("type") {
        Some(kind) => match kind.as_str() {
            Some(kind) => text::same(kind, "function"),
            None => false,
        },
        None => false,
    }
}

fn nested(tool: &Object) -> (function: Option<&Object>)
    ensures
        match function {
            Some(function) => nested_function(tool@) == Some(function@),
            None => nested_function(tool@) is None,
        },
{
    match tool.get("function") {
        Some(function) => function.as_object(),
        None => None,
    }
}

fn wrap_function(fields: Object) -> (tool: Json)
    ensures
        tool@ == wrapped_function(fields@),
{
    proof {
        reveal_strlit("type");
        reveal_strlit("function");
        assert("type"@.len() != "function"@.len());
    }
    let wrapper = Object::new().add("type", Json::text("function"));
    let wrapper = wrapper.add("function", Json::Object(fields));
    assert(wrapper@ =~= wrapped_function(fields@)->Object_0);
    Json::Object(wrapper)
}

fn normalize_for_chat(tool: &Json) -> (shaped: Json)
    ensures
        shaped@ == chat_tool(tool@),
{
    let object = match tool.as_object() {
        Some(object) => object,
        None => return tool.clone(),
    };
    if is_typed_function(object) {
        if let Some(function) = nested(object) {
            let fields = normalize_function_fields(function);
            return Json::Object(object.clone().insert("function", Json::Object(fields)));
        }
        if object.contains_key("name") {
            return wrap_function(normalize_function_fields(object));
        }
        return tool.clone();
    }
    if looks_like_plain_function(object) {
        return wrap_function(normalize_function_fields(object));
    }
    tool.clone()
}

fn normalize_for_responses(tool: &Json) -> (shaped: Json)
    ensures
        shaped@ == responses_tool(tool@),
{
    let object = match tool.as_object() {
        Some(object) => object,
        None => return tool.clone(),
    };
    if !is_typed_function(object) {
        if looks_like_plain_function(object) {
            let fields = normalize_function_fields(object);
            return Json::Object(fields.insert("type", Json::text("function")));
        }
        return tool.clone();
    }
    match nested(object) {
        None => {
            let fields = normalize_function_fields(object);
            Json::Object(fields.insert("type", Json::text("function")))
        },
        Some(function) => {
            let head = Object::new().add("type", Json::text("function"));
            assert(head@ =~= seq![("type"@, JsonView::Text("function"@))]);
            let outer = object.clone().remove("type").remove("function");
            let fields = normalize_function_fields(function);
            Json::Object(head.extend(&outer).extend(&fields))
        },
    }
}

/// The tools in the shape of the Chat Completions API.
pub fn for_chat(tools: &[Json]) -> (shaped: Vec<Json>)
    ensures
        json::views(shaped@) == json::views(tools@).map_values(|tool: JsonView| chat_tool(tool)),
{
    let mut shaped: Vec<Json> = Vec::new();
    let mut i: usize = 0;
    while i < tools.len()
        invariant
            i <= tools@.len(),
            shaped@.len() == i,
            forall|j: int| 0 <= j < i ==> (#[trigger] shaped@[j])@ == chat_tool(tools@[j]@),
        decreases tools@.len() - i,
    {
        shaped.push(normalize_for_chat(&tools[i]));
        i += 1;
    }
    assert(json::views(shaped@) =~= json::views(tools@).map_values(
        |tool: JsonView| chat_tool(tool),
    ));
    shaped
}

/// The tools in the shape of the Responses API.
pub fn for_responses(tools: &[Json]) -> (shaped: Vec<Json>)
    ensures
        json::views(shaped@) == json::views(tools@).map_values(
            |tool: JsonView| responses_tool(tool),
        ),
{
    let mut shaped: Vec<Json> = Vec::new();
    let mut i: usize = 0;
    while i < tools.len()
        invariant
            i <= tools@.len(),
            shaped@.len() == i,
            forall|j: int| 0 <= j < i ==> (#[trigger] shaped@[j])@ == responses_tool(tools@[j]@),
        decreases tools@.len() - i,
    {
        shaped.push(normalize_for_responses(&tools[i]));
        i += 1;
    }
    assert(json::views(shaped@) =~= json::views(tools@).map_values(
        |tool: JsonView| responses_tool(tool),
    ));
    shaped
}

/// The tools as one source of their own; no source where there are none.
pub fn resolved_sources(tools: Vec<Json>) -> (sources: Vec<ToolSource>)
    ensures
        tools@.len() == 0 ==> sources@.len() == 0,
        tools@.len() > 0 ==> sources@.len() == 1 && sources@[0]@ == ToolSourceView::Resolved(
            json::views(tools@),
        ),
{
    if tools.len() == 0 {
        Vec::new()
    } else {
        vec![ToolSource::Resolved(tools)]
    }
}

/// The text of tool calls: a laid out array and a line break.
pub open spec fn tool_calls_text(calls: Seq<JsonView>) -> Seq<char> {
    bridge::pretty(JsonView::Array(calls)) + "\n"@
}

pub fn format_tool_calls(calls: &[Json]) -> (result: Result<String, String>)
    ensures
        result matches Ok(text) && text@ == tool_calls_text(json::views(calls@)),
{
    let mut text = Json::array_of(calls).to_pretty();
    text.append("\n");
    Ok(text)
}

/// How many of the values from the first on are objects.
pub open spec fn leading_objects(items: Seq<JsonView>) -> nat
    decreases items.len(),
{
    if items.len() == 0 || items[0] !is Object {
        0
    } else {
        1 + leading_objects(items.skip(1))
    }
}

/// The tools that a parsed definition adds, up to the first that is no object, and the
/// complaint about what is wrong with it.
pub open spec fn added_tools(value: JsonView, label: Seq<char>) -> (Seq<JsonView>, Option<Seq<char>>) {
    match value {
        JsonView::Array(items) => added_items(items, label),
        JsonView::Object(entries) => match json::lookup(entries, "tools"@) {
            Some(JsonView::Array(items)) => added_items(items, label),
            Some(_) => (Seq::empty(), Some(label + ": expected `tools` to be an array"@)),
            None => (seq![value], None),
        },
        _ => (
            Seq::empty(),
            Some(
                label
                    + ": expected a tool object, an array of tool objects, or an object with a `tools` array"@,
            ),
        ),
    }
}

pub open spec fn added_items(items: Seq<JsonView>, label: Seq<char>) -> (
    Seq<JsonView>,
    Option<Seq<char>>,
) {
    let count = leading_objects(items);
    (
        items.take(count as int),
        if count == items.len() {
            None
        } else {
            Some(label + ": each tool must be a JSON object"@)
        },
    )
}

/// What a fallible step reports: nothing, or the text of its complaint.
pub open spec fn complaint(result: Result<(), String>) -> Option<Seq<char>> {
    match result {
        Ok(_) => None,
        Err(message) => Some(message@),
    }
}

proof fn lemma_leading_objects(items: Seq<JsonView>, n: int)
    requires
        0 <= n <= items.len(),
        forall|i: int| 0 <= i < n ==> (#[trigger] items[i]) is Object,
        n < items.len() ==> items[n] !is Object,
    ensures
        leading_objects(items) == n,
    decreases n,
{
    if n > 0 {
        let rest = items.skip(1);
        assert(items[0] is Object);
        assert forall|i: int| 0 <= i < n - 1 implies (#[trigger] rest[i]) is Object by {
            assert(items[i + 1] is Object);
        }
        lemma_leading_objects(rest, n - 1);
    }
}

fn push_tools(out: &mut Vec<Json>, items: &[Json], label: &str) -> (result: Result<(), String>)
    ensures
        json::views(final(out)@) == json::views(old(out)@) + added_items(
            json::views(items@),
            label@,
        ).0,
        complaint(result) == added_items(json::views(items@), label@).1,
{
    let ghost before = json::views(out@);
    let ghost all = json::views(items@);
    let mut i: usize = 0;
    while i < items.len()
        invariant
            i <= items@.len(),
            all == json::views(items@),
            forall|j: int| 0 <= j < i ==> (#[trigger] all[j]) is Object,
            json::views(out@) == before + all.take(i as int),
            before == json::views(old(out)@),
        decreases items@.len() - i,
    {
        let ghost prior = out@;
        if !items[i].is_object() {
            proof {
                lemma_leading_objects(all, i as int);
            }
            return Err(text::concat(label, ": each tool must be a JSON object"));
        }
        out.push(items[i].clone());
        i += 1;
        proof {
            json::lemma_views_push(prior, out@.last());
            assert(out@ =~= prior.push(out@.last()));
        }
        assert(json::views(out@) =~= before + all.take(i as int));
    }
    proof {
        lemma_leading_objects(all, i as int);
    }
    Ok(())
}

/// Adds the tools of a parsed definition: one object, an array of them, or an object that
/// holds the array under `tools`.
pub fn append_tool_value(out: &mut Vec<Json>, value: Json, label: &str) -> (result: Result<
    (),
    String,
>)
    ensures
        json::views(final(out)@) == json::views(old(out)@) + added_tools(value@, label@).0,
        complaint(result) == added_tools(value@, label@).1,
{
    if let Some(items) = value.as_array() {
        return push_tools(out, items.as_slice(), label);
    }
    match value.as_object() {
        Some(object) => match object.get("tools") {
            Some(tools) => match tools.as_array() {
                Some(items) => push_tools(out, items.as_slice(), label),
                None => {
                    assert(json::views(out@) =~= json::views(out@) + Seq::empty());
                    Err(text::concat(label, ": expected `tools` to be an array"))
                },
            },
            None => {
                let ghost before = json::views(out@);
                out.push(value.clone());
                assert(json::views(out@) =~= before + seq![value@]);
                Ok(())
            },
        },
        None => {
            assert(json::views(out@) =~= json::views(out@) + Seq::empty());
            Err(
                text::concat(
                    label,
                    ": expected a tool object, an array of tool objects, or an object with a `tools` array",
                ),
            )
        },
    }
}

/// What a file that holds tool definitions was found to hold, or why it was not read.
pub open spec fn read_view(read: Result<String, String>) -> Result<Seq<char>, Seq<char>> {
    match read {
        Ok(text) => Ok(text@),
        Err(message) => Err(message@),
    }
}

/// The tools that one source adds and the complaint about it. `read` is what the source's
/// file holds, where the source is a file.
pub open spec fn source_tools(
    source: ToolSourceView,
    read: Result<Seq<char>, Seq<char>>,
) -> (Seq<JsonView>, Option<Seq<char>>) {
    match source {
        ToolSourceView::Inline(raw) => match bridge::parsed(raw) {
            Ok(value) => added_tools(value, "--tool"@),
            Err(message) => (Seq::empty(), Some("failed to parse --tool json: "@ + message)),
        },
        ToolSourceView::File(path) => match read {
            Ok(raw) => match bridge::parsed(raw) {
                Ok(value) => added_tools(value, "--tools "@ + path),
                Err(message) => (
                    Seq::empty(),
                    Some("failed to parse --tools "@ + path + ": "@ + message),
                ),
            },
            Err(message) => (
                Seq::empty(),
                Some("failed to read --tools "@ + path + ": "@ + message),
            ),
        },
        ToolSourceView::Resolved(items) => added_items(items, "resolved tools"@),
    }
}

/// What each of the sources says.
pub open spec fn source_views(sources: Seq<ToolSource>) -> Seq<ToolSourceView> {
    Seq::new(sources.len(), |i: int| sources[i]@)
}

/// What each of the files was found to hold.
pub open spec fn read_views(reads: Seq<Result<String, String>>) -> Seq<
    Result<Seq<char>, Seq<char>>,
> {
    Seq::new(reads.len(), |i: int| read_view(reads[i]))
}

/// The tools of the first `n` sources, or the first complaint.
pub open spec fn tools_of(
    sources: Seq<ToolSourceView>,
    reads: Seq<Result<Seq<char>, Seq<char>>>,
    n: nat,
) -> Result<Seq<JsonView>, Seq<char>>
    decreases n,
{
    if n == 0 {
        Ok(Seq::empty())
    } else {
        match tools_of(sources, reads, (n - 1) as nat) {
            Err(message) => Err(message),
            Ok(tools) => {
                let (more, complaint) = source_tools(sources[n - 1], reads[n - 1]);
                match complaint {
                    Some(message) => Err(message),
                    None => Ok(tools + more),
                }
            },
        }
    }
}

/// Once a source is complained about, no later source mends it.
proof fn lemma_first_complaint(
    sources: Seq<ToolSourceView>,
    reads: Seq<Result<Seq<char>, Seq<char>>>,
    n: nat,
    m: nat,
)
    requires
        n <= m,
        tools_of(sources, reads, n) is Err,
    ensures
        tools_of(sources, reads, m) == tools_of(sources, reads, n),
    decreases m,
{
    if n < m {
        lemma_first_complaint(sources, reads, n, (m - 1) as nat);
    }
}

fn append_source(out: &mut Vec<Json>, source: &ToolSource, read: &Result<String, String>) -> (result:
    Result<(), String>)
    ensures
        json::views(final(out)@) == json::views(old(out)@) + source_tools(
            source@,
            read_view(*read),
        ).0,
        complaint(result) == source_tools(source@, read_view(*read)).1,
{
    match source {
        ToolSource::Inline(raw) => match Json::parse(raw.as_str()) {
            Ok(value) => append_tool_value(out, value, "--tool"),
            Err(message) => {
                assert(json::views(out@) =~= json::views(out@) + Seq::empty());
                Err(text::concat("failed to parse --tool json: ", message.as_str()))
            },
        },
        ToolSource::File(path) => match read {
            Ok(raw) => match Json::parse(raw.as_str()) {
                Ok(value) => {
                    let label = text::concat("--tools ", path.as_str());
                    append_tool_value(out, value, label.as_str())
                },
                Err(message) => {
                    assert(json::views(out@) =~= json::views(out@) + Seq::empty());
                    Err(text::concat4("failed to parse --tools ", path.as_str(), ": ", message.as_str()))
                },
            },
            Err(message) => {
                assert(json::views(out@) =~= json::views(out@) + Seq::empty());
                Err(text::concat4("failed to read --tools ", path.as_str(), ": ", message.as_str()))
            },
        },
        ToolSource::Resolved(items) => push_tools(out, items.as_slice(), "resolved tools"),
    }
}

/// The tools of all sources in order, or the first complaint; nothing where there are none.
pub open spec fn resolved(
    sources: Seq<ToolSourceView>,
    reads: Seq<Result<Seq<char>, Seq<char>>>,
) -> Result<Option<Seq<JsonView>>, Seq<char>> {
    match tools_of(sources, reads, sources.len()) {
        Ok(tools) => if tools.len() == 0 {
            Ok(None)
        } else {
            Ok(Some(tools))
        },
        Err(message) => Err(message),
    }
}

/// What the function that reads the tools returns.
pub open spec fn tools_result(result: Result<Option<Vec<Json>>, String>) -> Result<
    Option<Seq<JsonView>>,
    Seq<char>,
> {
    match result {
        Ok(tools) => Ok(json::opt_views(tools)),
        Err(message) => Err(message@),
    }
}

/// The tools of all sources in order; `None` where there are none. `reads` holds for each
/// source what its file holds or why it was not read, and is not looked at for a source that
/// is no file.
pub fn resolve(sources: &[ToolSource], reads: &[Result<String, String>]) -> (result: Result<
    Option<Vec<Json>>,
    String,
>)
    requires
        reads@.len() == sources@.len(),
    ensures
        tools_result(result) == resolved(source_views(sources@), read_views(reads@)),
{
    let ghost all = source_views(sources@);
    let ghost found = read_views(reads@);
    let mut tools: Vec<Json> = Vec::new();
    let mut i: usize = 0;
    assert(json::views(tools@) =~= Seq::empty());
    while i < sources.len()
        invariant
            i <= sources@.len(),
            reads@.len() == sources@.len(),
            all == source_views(sources@),
            found == read_views(reads@),
            tools_of(all, found, i as nat) == Ok::<Seq<JsonView>, Seq<char>>(json::views(tools@)),
        decreases sources@.len() - i,
    {
        if let Err(message) = append_source(&mut tools, &sources[i], &reads[i]) {
            proof {
                lemma_first_complaint(all, found, (i + 1) as nat, all.len());
            }
            return Err(message);
        }
        i += 1;
    }
    if tools.len() == 0 {
        Ok(None)
    } else {
        Ok(Some(tools))
    }
}

/// Whether tools are such as sources can give: objects, and at least one where there are any.
pub open spec fn are_tools(found: Option<Seq<JsonView>>) -> bool {
    match found {
        Some(items) => items.len() > 0 && forall|i: int|
            0 <= i < items.len() ==> (#[trigger] items[i]) is Object,
        None => true,
    }
}

proof fn lemma_leading_are_objects(items: Seq<JsonView>)
    ensures
        leading_objects(items) <= items.len(),
        forall|i: int| 0 <= i < leading_objects(items) ==> (#[trigger] items[i]) is Object,
    decreases items.len(),
{
    if items.len() > 0 && items[0] is Object {
        let rest = items.skip(1);
        lemma_leading_are_objects(rest);
        assert forall|i: int| 0 <= i < leading_objects(items) implies (
        #[trigger] items[i]) is Object by {
            if i > 0 {
                assert(rest[i - 1] is Object);
            }
        }
    }
}

proof fn lemma_source_tools_are_objects(
    source: ToolSourceView,
    read: Result<Seq<char>, Seq<char>>,
)
    ensures
        forall|i: int|
            0 <= i < source_tools(source, read).0.len() ==> (#[trigger] source_tools(
                source,
                read,
            ).0[i]) is Object,
{
    let added = source_tools(source, read).0;
    if added.len() > 0 {
        let value = match source {
            ToolSourceView::Inline(raw) => bridge::parsed(raw)->Ok_0,
            ToolSourceView::File(_) => bridge::parsed(read->Ok_0)->Ok_0,
            ToolSourceView::Resolved(items) => JsonView::Array(items),
        };
        match value {
            JsonView::Array(items) => lemma_leading_are_objects(items),
            JsonView::Object(entries) => {
                if let Some(JsonView::Array(items)) = json::lookup(entries, "tools"@) {
                    lemma_leading_are_objects(items);
                }
            },
            _ => {},
        }
    }
}

proof fn lemma_tools_are_objects(
    sources: Seq<ToolSourceView>,
    reads: Seq<Result<Seq<char>, Seq<char>>>,
    n: nat,
)
    requires
        tools_of(sources, reads, n) is Ok,
    ensures
        forall|i: int|
            0 <= i < tools_of(sources, reads, n)->Ok_0.len() ==> (#[trigger] tools_of(
                sources,
                reads,
                n,
            )->Ok_0[i]) is Object,
    decreases n,
{
    if n > 0 {
        lemma_tools_are_objects(sources, reads, (n - 1) as nat);
        lemma_source_tools_are_objects(sources[n - 1], reads[n - 1]);
    }
}

/// Tools that were read once need no source any more: as resolved tools they are found again,
/// whatever can be read then.
pub proof fn law_resolved_tools_stay(
    sources: Seq<ToolSourceView>,
    reads: Seq<Result<Seq<char>, Seq<char>>>,
    later: Seq<Result<Seq<char>, Seq<char>>>,
)
    requires
        resolved(sources, reads) is Ok,
    ensures
        are_tools(resolved(sources, reads)->Ok_0),
        resolved(sources, reads)->Ok_0 matches Some(items) ==> resolved(
            seq![ToolSourceView::Resolved(items)],
            later,
        ) == resolved(sources, reads),
{
    lemma_tools_are_objects(sources, reads, sources.len());
    if let Some(items) = resolved(sources, reads)->Ok_0 {
        lemma_found_again(items, later);
    }
}

/// Tools that sources can give are found again as resolved tools.
pub proof fn lemma_found_again(
    items: Seq<JsonView>,
    reads: Seq<Result<Seq<char>, Seq<char>>>,
)
    requires
        are_tools(Some(items)),
    ensures
        resolved(seq![ToolSourceView::Resolved(items)], reads) == Ok::<
            Option<Seq<JsonView>>,
            Seq<char>,
        >(Some(items)),
{
    let sources = seq![ToolSourceView::Resolved(items)];
    lemma_leading_objects(items, items.len() as int);
    reveal_with_fuel(tools_of, 2);
    assert(items.take(items.len() as int) =~= items);
    assert(Seq::<JsonView>::empty() + items =~= items);
}

impl Clone for ToolSource {
    fn clone(&self) -> (copy: ToolSource)
        ensures
            copy@ == self@,
    {
        match self {
            ToolSource::Inline(raw) => ToolSource::Inline(raw.clone()),
            ToolSource::File(path) => ToolSource::File(path.clone()),
            ToolSource::Resolved(items) => ToolSource::Resolved(json::copy_all(items.as_slice())),
        }
    }
}

/// What a part of the fields of a function definition turns into.
proof fn lemma_function_fields_of(all: Entries, n: int, key: Seq<char>)
    requires
        0 <= n <= all.len(),
    ensures
        json::distinct_keys(function_fields_of(all, all.take(n))),
        json::lookup(function_fields_of(all, all.take(n)), key) == (if key == "type"@ || key
            == "function"@ || key == "input_schema"@ {
            None
        } else if key == "parameters"@ && json::lookup(all, "parameters"@) is None {
            json::lookup(all.take(n), "input_schema"@)
        } else {
            json::lookup(all.take(n), key)
        }),
    decreases n,
{
    broadcast use json::group_lookup;

    reveal_strlit("type");
    reveal_strlit("function");
    reveal_strlit("input_schema");
    reveal_strlit("parameters");
    assert("type"@.len() == 4 && "function"@.len() == 8);
    assert("input_schema"@.len() == 12 && "parameters"@.len() == 10);
    if n == 0 {
        assert(all.take(0) =~= Entries::empty());
    } else {
        lemma_function_fields_of(all, n - 1, key);
        assert(all.take(n).drop_last() =~= all.take(n - 1));
        assert(all.take(n).last() == all[n - 1]);
        if json::lookup(all, "parameters"@) is None {
            json::lemma_lookup_prefix(all, n, "parameters"@);
        }
        let rest = function_fields_of(all, all.take(n - 1));
        let (name, value) = all[n - 1];
        json::lemma_insert_distinct(rest, name, value);
        json::lemma_insert_distinct(rest, "parameters"@, value);
    }
}

/// The fields of a definition after normalisation: the schema stands under `parameters`
/// whichever name it had, neither `input_schema` nor a wrapper key is left, and every other
/// field is what it was.
pub proof fn law_function_fields(all: Entries, key: Seq<char>)
    ensures
        json::distinct_keys(function_fields(all)),
        json::lookup(function_fields(all), key) == (if key == "type"@ || key == "function"@ || key
            == "input_schema"@ {
            None
        } else if key == "parameters"@ && json::lookup(all, "parameters"@) is None {
            json::lookup(all, "input_schema"@)
        } else {
            json::lookup(all, key)
        }),
{
    assert(all.take(all.len() as int) =~= all);
    lemma_function_fields_of(all, all.len() as int, key);
}

proof fn lemma_normal_fields_kept(all: Entries, n: int)
    requires
        0 <= n <= all.len(),
        json::distinct_keys(all),
        json::lookup(all, "type"@) is None,
        json::lookup(all, "function"@) is None,
        json::lookup(all, "input_schema"@) is None,
    ensures
        function_fields_of(all, all.take(n)) == all.take(n),
    decreases n,
{
    if n > 0 {
        lemma_normal_fields_kept(all, n - 1);
        assert(all.take(n).drop_last() =~= all.take(n - 1));
        json::lemma_lookup_absent(all, "type"@);
        json::lemma_lookup_absent(all, "function"@);
        json::lemma_lookup_absent(all, "input_schema"@);
        json::lemma_lookup_absent(all.take(n - 1), all[n - 1].0);
        assert(all.take(n - 1).push(all[n - 1]) =~= all.take(n));
    } else {
        assert(all.take(0) =~= Entries::empty());
    }
}

/// Normalising the fields of a definition twice is normalising them once.
pub proof fn law_function_fields_idempotent(all: Entries)
    ensures
        function_fields(function_fields(all)) == function_fields(all),
{
    let fields = function_fields(all);
    law_function_fields(all, "type"@);
    law_function_fields(all, "function"@);
    law_function_fields(all, "input_schema"@);
    assert(fields.take(fields.len() as int) =~= fields);
    lemma_normal_fields_kept(fields, fields.len() as int);
}

/// A tool that is in the shape of the Chat Completions API already stays as it is.
pub proof fn law_chat_tool_idempotent(tool: JsonView)
    ensures
        chat_tool(chat_tool(tool)) == chat_tool(tool),
{
    broadcast use json::group_lookup;

    reveal_strlit("type");
    reveal_strlit("function");
    assert("type"@.len() != "function"@.len());
    if let JsonView::Object(entries) = tool {
        if typed_function(entries) && nested_function(entries) is Some {
            let function = nested_function(entries)->0;
            let fields = JsonView::Object(function_fields(function));
            law_function_fields_idempotent(function);
            json::lemma_insert_same(
                json::insert(entries, "function"@, fields),
                "function"@,
                fields,
            );
        } else {
            let wrapped = wrapped_function(function_fields(entries));
            let fields = JsonView::Object(function_fields(entries));
            law_function_fields_idempotent(entries);
            assert(wrapped->Object_0 =~= Entries::empty().push(
                ("type"@, JsonView::Text("function"@)),
            ).push(("function"@, fields)));
            json::lemma_insert_same(wrapped->Object_0, "function"@, fields);
        }
    }
}

/// A tool of a type other than function is sent as it was given, whatever else it holds; so is
/// one that names no type and does not look like a function.
pub proof fn law_other_tools_untouched(tool: JsonView)
    requires
        tool matches JsonView::Object(entries) ==> (match tool.get_str("type"@) {
            Some(kind) => kind != "function"@,
            None => !plain_function(entries),
        }),
    ensures
        chat_tool(tool) == tool,
        responses_tool(tool) == tool,
{
}

/// The compact shape of a function tool reaches either provider with the same definition:
/// nested under `function` for the one, beside the mark for the other.
pub proof fn law_compact_function_reaches_both(tool: Entries, key: Seq<char>)
    requires
        plain_function(tool),
        key != "type"@,
    ensures
        chat_tool(JsonView::Object(tool)).get("type"@) == Some(JsonView::Text("function"@)),
        responses_tool(JsonView::Object(tool)).get("type"@) == Some(JsonView::Text("function"@)),
        chat_tool(JsonView::Object(tool)).get("function"@) == Some(
            JsonView::Object(function_fields(tool)),
        ),
        responses_tool(JsonView::Object(tool)).get(key) == json::lookup(
            function_fields(tool),
            key,
        ),
{
    broadcast use json::group_lookup;

    reveal_strlit("type");
    reveal_strlit("function");
    assert("type"@.len() != "function"@.len());
    let wrapped = wrapped_function(function_fields(tool));
    assert(wrapped->Object_0 =~= Entries::empty().push(
        ("type"@, JsonView::Text("function"@)),
    ).push(("function"@, JsonView::Object(function_fields(tool)))));
}

/// What a definition says under a key, as the providers name it.
pub open spec fn wanted_field(definition: Entries, key: Seq<char>) -> Option<JsonView> {
    if key == "type"@ || key == "function"@ || key == "input_schema"@ {
        None
    } else if key == "parameters"@ && json::lookup(definition, "parameters"@) is None {
        json::lookup(definition, "input_schema"@)
    } else {
        json::lookup(definition, key)
    }
}

proof fn lemma_wrapped(fields: Entries)
    ensures
        wrapped_function(fields).get("type"@) == Some(JsonView::Text("function"@)),
        wrapped_function(fields).get("function"@) == Some(JsonView::Object(fields)),
        forall|key: Seq<char>|
            key != "type"@ && key != "function"@ ==> #[trigger] wrapped_function(fields).get(key)
                is None,
{
    broadcast use json::group_lookup;

    reveal_strlit("type");
    reveal_strlit("function");
    assert("type"@.len() != "function"@.len());
    assert(wrapped_function(fields)->Object_0 =~= Entries::empty().push(
        ("type"@, JsonView::Text("function"@)),
    ).push(("function"@, JsonView::Object(fields))));
}

/// A tool that is marked as a function and nests no definition reaches the Responses API with
/// every field: beside the mark under each key what the tool says under it.
pub proof fn law_marked_function_reaches_responses(tool: Entries, key: Seq<char>)
    requires
        json::lookup(tool, "type"@) == Some(JsonView::Text("function"@)),
        !(json::lookup(tool, "function"@) matches Some(JsonView::Object(_))),
    ensures
        responses_tool(JsonView::Object(tool)).get("type"@) == Some(JsonView::Text("function"@)),
        key != "type"@ ==> responses_tool(JsonView::Object(tool)).get(key) == json::lookup(
            function_fields(tool),
            key,
        ),
        key != "type"@ ==> responses_tool(JsonView::Object(tool)).get(key) == wanted_field(
            tool,
            key,
        ),
{
    broadcast use json::group_lookup;

    law_function_fields(tool, key);
}

/// A tool that is marked as a function, has a name and nests no definition reaches the Chat
/// Completions API with every field, in a definition under `function`. Without a name it is
/// sent as it was given.
pub proof fn law_marked_function_reaches_chat(tool: Entries, key: Seq<char>)
    requires
        json::lookup(tool, "type"@) == Some(JsonView::Text("function"@)),
        !(json::lookup(tool, "function"@) matches Some(JsonView::Object(_))),
    ensures
        json::lookup(tool, "name"@) is None ==> chat_tool(JsonView::Object(tool))
            == JsonView::Object(tool),
        json::lookup(tool, "name"@) is Some ==> {
            let sent = chat_tool(JsonView::Object(tool));
            &&& sent.get("type"@) == Some(JsonView::Text("function"@))
            &&& sent.get("function"@) matches Some(JsonView::Object(definition))
                && json::lookup(definition, key) == wanted_field(tool, key)
            &&& key != "type"@ && key != "function"@ ==> sent.get(key) is None
        },
{
    lemma_wrapped(function_fields(tool));
    law_function_fields(tool, key);
}

/// A tool without a type, with a name and a schema, reaches either API with every field.
pub proof fn law_plain_function_reaches_both(tool: Entries, key: Seq<char>)
    requires
        !(json::lookup(tool, "type"@) matches Some(JsonView::Text(_))),
        json::lookup(tool, "name"@) is Some,
        json::lookup(tool, "input_schema"@) is Some || json::lookup(tool, "parameters"@) is Some,
    ensures
        ({
            let sent = chat_tool(JsonView::Object(tool));
            &&& sent.get("type"@) == Some(JsonView::Text("function"@))
            &&& sent.get("function"@) matches Some(JsonView::Object(definition))
                && json::lookup(definition, key) == wanted_field(tool, key)
            &&& key != "type"@ && key != "function"@ ==> sent.get(key) is None
        }),
        responses_tool(JsonView::Object(tool)).get("type"@) == Some(JsonView::Text("function"@)),
        key != "type"@ ==> responses_tool(JsonView::Object(tool)).get(key) == wanted_field(
            tool,
            key,
        ),
{
    broadcast use json::group_lookup;

    lemma_wrapped(function_fields(tool));
    law_function_fields(tool, key);
}

/// A tool that nests its definition keeps its wrapper for the Chat Completions API, and is laid
/// flat for the Responses API: under each key what the definition says, else what the wrapper
/// says.
pub proof fn law_nested_function_reaches_both(tool: Entries, definition: Entries, key: Seq<char>)
    requires
        json::lookup(tool, "type"@) == Some(JsonView::Text("function"@)),
        json::lookup(tool, "function"@) == Some(JsonView::Object(definition)),
    ensures
        ({
            let sent = chat_tool(JsonView::Object(tool));
            &&& sent.get("function"@) matches Some(JsonView::Object(fields)) && json::lookup(
                fields,
                key,
            ) == wanted_field(definition, key)
            &&& key != "function"@ ==> sent.get(key) == json::lookup(tool, key)
        }),
        ({
            let sent = responses_tool(JsonView::Object(tool));
            &&& sent.get("type"@) == Some(JsonView::Text("function"@))
            &&& sent.get("function"@) is None
            &&& key != "type"@ && key != "function"@ ==> sent.get(key) == (match wanted_field(
                definition,
                key,
            ) {
                Some(value) => Some(value),
                None => json::lookup(tool, key),
            })
        }),
{
    broadcast use json::group_lookup;

    reveal_strlit("type");
    reveal_strlit("function");
    assert("type"@.len() != "function"@.len());
    let mark = ("type"@, JsonView::Text("function"@));
    let base: Entries = seq![mark];
    assert(base =~= Entries::empty().push(mark));
    let wrapper = wrapper_fields(tool);
    let flat = json::extend(base, wrapper);
    let fields = function_fields(definition);
    law_function_fields(definition, key);
    law_function_fields(definition, "type"@);
    law_function_fields(definition, "function"@);
    json::law_lookup_extend(base, wrapper, key);
    json::law_lookup_extend(base, wrapper, "type"@);
    json::law_lookup_extend(base, wrapper, "function"@);
    json::law_lookup_extend(flat, fields, key);
    json::law_lookup_extend(flat, fields, "type"@);
    json::law_lookup_extend(flat, fields, "function"@);
}

/// The forms in which tools are given: an array of them, an object that holds the array, and a
/// tool by itself.
pub proof fn law_forms_of_tools(items: Seq<JsonView>, entries: Entries, label: Seq<char>)
    ensures
        (forall|i: int| 0 <= i < items.len() ==> (#[trigger] items[i]) is Object) ==> {
            &&& added_tools(JsonView::Array(items), label) == (items, None::<Seq<char>>)
            &&& json::lookup(entries, "tools"@) == Some(JsonView::Array(items)) ==> added_tools(
                JsonView::Object(entries),
                label,
            ) == (items, None::<Seq<char>>)
        },
        (exists|i: int| 0 <= i < items.len() && (#[trigger] items[i]) !is Object) ==> {
            &&& added_tools(JsonView::Array(items), label).1 == Some(
                label + ": each tool must be a JSON object"@,
            )
            &&& json::lookup(entries, "tools"@) == Some(JsonView::Array(items)) ==> added_tools(
                JsonView::Object(entries),
                label,
            ).1 == Some(label + ": each tool must be a JSON object"@)
        },
        json::lookup(entries, "tools"@) is None ==> added_tools(JsonView::Object(entries), label)
            == (seq![JsonView::Object(entries)], None::<Seq<char>>),
        json::lookup(entries, "tools"@) matches Some(held) && held !is Array ==> added_tools(
            JsonView::Object(entries),
            label,
        ).1 == Some(label + ": expected `tools` to be an array"@),
{
    if forall|i: int| 0 <= i < items.len() ==> (#[trigger] items[i]) is Object {
        lemma_leading_objects(items, items.len() as int);
        assert(items.take(items.len() as int) =~= items);
    } else {
        let at = choose|i: int| 0 <= i < items.len() && (#[trigger] items[i]) !is Object;
        lemma_leading_below(items, at);
    }
}

proof fn lemma_leading_below(items: Seq<JsonView>, at: int)
    requires
        0 <= at < items.len(),
        items[at] !is Object,
    ensures
        leading_objects(items) <= at,
    decreases items.len(),
{
    if at > 0 && items[0] is Object {
        assert(items.skip(1)[at - 1] == items[at]);
        lemma_leading_below(items.skip(1), at - 1);
    }
}

/// What a source of tools is read as: the text of the flag itself, the text of the file that
/// it names, or the tools that are there already.
pub proof fn law_what_a_source_holds(
    raw: Seq<char>,
    path: Seq<char>,
    read: Result<Seq<char>, Seq<char>>,
    items: Seq<JsonView>,
)
    ensures
        source_tools(ToolSourceView::Inline(raw), read) == (match bridge::parsed(raw) {
            Ok(value) => added_tools(value, "--tool"@),
            Err(message) => (
                Seq::empty(),
                Some("failed to parse --tool json: "@ + message),
            ),
        }),
        source_tools(ToolSourceView::File(path), Ok(raw)) == (match bridge::parsed(raw) {
            Ok(value) => added_tools(value, "--tools "@ + path),
            Err(message) => (
                Seq::empty(),
                Some("failed to parse --tools "@ + path + ": "@ + message),
            ),
        }),
        source_tools(ToolSourceView::File(path), Err(raw)).1 == Some(
            "failed to read --tools "@ + path + ": "@ + raw,
        ),
        source_tools(ToolSourceView::Resolved(items), read) == added_tools(
            JsonView::Array(items),
            "resolved tools"@,
        ),
{
}

proof fn lemma_tools_of_prefix(
    sources: Seq<ToolSourceView>,
    reads: Seq<Result<Seq<char>, Seq<char>>>,
    source: ToolSourceView,
    read: Result<Seq<char>, Seq<char>>,
    n: nat,
)
    requires
        n <= sources.len(),
        reads.len() == sources.len(),
    ensures
        tools_of(sources.push(source), reads.push(read), n) == tools_of(sources, reads, n),
    decreases n,
{
    if n > 0 {
        lemma_tools_of_prefix(sources, reads, source, read, (n - 1) as nat);
        assert(sources.push(source)[n - 1] == sources[n - 1]);
        assert(reads.push(read)[n - 1] == reads[n - 1]);
    }
}

/// The tools of a further source come behind those of the sources before it. The first
/// complaint is the one that is told. Where no source holds a tool, there are none.
pub proof fn law_tools_in_the_order_of_their_sources(
    sources: Seq<ToolSourceView>,
    reads: Seq<Result<Seq<char>, Seq<char>>>,
    source: ToolSourceView,
    read: Result<Seq<char>, Seq<char>>,
)
    requires
        reads.len() == sources.len(),
    ensures
        resolved(Seq::empty(), Seq::empty()) == Ok::<Option<Seq<JsonView>>, Seq<char>>(None),
        ({
            let after = resolved(sources.push(source), reads.push(read));
            let (more, complaint) = source_tools(source, read);
            match resolved(sources, reads) {
                Err(message) => after == Err::<Option<Seq<JsonView>>, Seq<char>>(message),
                Ok(found) => match complaint {
                    Some(message) => after == Err::<Option<Seq<JsonView>>, Seq<char>>(message),
                    None => {
                        let all = match found {
                            Some(tools) => tools + more,
                            None => more,
                        };
                        after == Ok::<Option<Seq<JsonView>>, Seq<char>>(
                            if all.len() == 0 {
                                None
                            } else {
                                Some(all)
                            },
                        )
                    },
                },
            }
        }),
{
    lemma_tools_of_prefix(sources, reads, source, read, sources.len());
    let more = source_tools(source, read).0;
    let all = sources.push(source);
    assert(all[sources.len() as int] == source);
    assert(reads.push(read)[sources.len() as int] == read);
    assert(tools_of(all, reads.push(read), all.len()) == tools_of(
        all,
        reads.push(read),
        (sources.len() + 1) as nat,
    ));
    if let Ok(tools) = tools_of(sources, reads, sources.len()) {
        if tools.len() == 0 {
            assert(tools + more =~= more);
        }
    }
}

} // verus!
