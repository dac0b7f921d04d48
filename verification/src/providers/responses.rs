//! The Responses API.
use vstd::prelude::*;
use vstd::string::*;

use crate::constraints;
use crate::conversation;
use crate::conversation::{Message, MessageView};
use crate::json;
use crate::json::{Entries, Json, JsonView, Object};
use crate::output;
use crate::output::{ContinuationView, Piece, ProviderContinuation, WriterView};
use crate::providers;
use crate::providers::{CallParams, ParamsView, Session, SessionView};
use crate::sink;
use crate::sink::Sink;
use crate::stats;
use crate::text;
use crate::tools;

verus! {

broadcast use json::group_lookup;

/// The items that a message adds to the input: itself, or, for a continuation of OpenAI, the
/// reasoning items that it holds; or the complaint about it.
pub open spec fn input_items(value: JsonView) -> Result<Seq<JsonView>, Seq<char>> {
    if !conversation::is_continuation(value) {
        Ok(seq![value])
    } else {
        let provider = match value.get_str("provider"@) {
            Some(provider) => provider,
            None => "openai"@,
        };
        let items = match value.get("reasoning_items"@) {
            Some(items) => Some(items),
            None => value.get("items"@),
        };
        if provider != "openai"@ {
            Err(
                "provider_continuation for provider '"@ + provider + "' cannot be sent to OpenAI"@,
            )
        } else {
            match items {
                Some(JsonView::Array(items)) => Ok(items),
                _ => Err("provider_continuation requires a reasoning_items array"@),
            }
        }
    }
}

/// The items that messages add to the input, or the first complaint.
pub open spec fn message_items(messages: Seq<MessageView>) -> Result<Seq<JsonView>, Seq<char>>
    decreases messages.len(),
{
    if messages.len() == 0 {
        Ok(Seq::empty())
    } else {
        match message_items(messages.drop_last()) {
            Ok(before) => match input_items(messages.last().api_value()) {
                Ok(items) => Ok(before + items),
                Err(message) => Err(message),
            },
            Err(message) => Err(message),
        }
    }
}

/// The input of a request, or the first complaint.
pub open spec fn input_of(system: Option<Seq<char>>, messages: Seq<MessageView>) -> Result<
    Seq<JsonView>,
    Seq<char>,
> {
    match message_items(messages) {
        Ok(items) => Ok(conversation::system_messages(system) + items),
        Err(message) => Err(message),
    }
}

/// Adds the items of a message to the input.
pub fn append_input_item(out: &mut Vec<Json>, item: Json) -> (result: Result<(), String>)
    ensures
        match input_items(item@) {
            Ok(items) => result is Ok && json::views(final(out)@) == json::views(old(out)@) + items,
            Err(message) => {
                &&& result matches Err(found) && found@ == message
                &&& final(out)@ == old(out)@
            },
        },
{
    let ghost before = json::views(out@);
    if !conversation::is_provider_continuation_value(&item) {
        let ghost value = item@;
        out.push(item);
        assert(json::views(out@) =~= before + seq![value]);
        return Ok(());
    }
    let provider = match item.get_str("provider") {
        Some(provider) => provider,
        None => "openai",
    };
    if !text::same(provider, "openai") {
        return Err(
            text::concat3(
                "provider_continuation for provider '",
                provider,
                "' cannot be sent to OpenAI",
            ),
        );
    }
    let items = match item.get("reasoning_items") {
        Some(items) => Some(items),
        None => item.get("items"),
    };
    let items = match items {
        Some(items) => items.as_array(),
        None => None,
    };
    match items {
        Some(items) => {
            let mut copies = json::copy_all(items.as_slice());
            let ghost prior = out@;
            let ghost added = copies@;
            out.append(&mut copies);
            proof {
                json::lemma_views_add(prior, added);
                assert(out@ =~= prior + added);
            }
            Ok(())
        },
        None => Err("provider_continuation requires a reasoning_items array".to_owned()),
    }
}

proof fn lemma_first_complaint(messages: Seq<MessageView>, n: int)
    requires
        0 <= n <= messages.len(),
        message_items(messages.take(n)) is Err,
    ensures
        message_items(messages) == message_items(messages.take(n)),
    decreases messages.len(),
{
    if n < messages.len() {
        assert(messages.drop_last().take(n) =~= messages.take(n));
        lemma_first_complaint(messages.drop_last(), n);
    } else {
        assert(messages.take(n) =~= messages);
    }
}

/// What a function that builds an input returns.
pub open spec fn items_result(result: Result<Vec<Json>, String>) -> Result<
    Seq<JsonView>,
    Seq<char>,
> {
    match result {
        Ok(items) => Ok(json::views(items@)),
        Err(message) => Err(message@),
    }
}

/// Builds the input of a request.
pub fn build_input(system: &Option<String>, messages: &[Message]) -> (result: Result<
    Vec<Json>,
    String,
>)
    ensures
        items_result(result) == input_of(
            text::opt(*system),
            conversation::message_views(messages@),
        ),
{
    let ghost all = conversation::message_views(messages@);
    let ghost head = conversation::system_messages(text::opt(*system));
    let mut out = conversation::system_part(system);
    let mut i: usize = 0;
    assert(all.take(0) =~= Seq::empty());
    assert(head + Seq::empty() =~= head);
    while i < messages.len()
        invariant
            i <= messages@.len(),
            all == conversation::message_views(messages@),
            head == conversation::system_messages(text::opt(*system)),
            message_items(all.take(i as int)) matches Ok(items) && json::views(out@) == head
                + items,
        decreases messages@.len() - i,
    {
        assert(all.take(i + 1).drop_last() =~= all.take(i as int));
        let value = messages[i].to_api_value();
        let ghost before = message_items(all.take(i as int))->Ok_0;
        let ghost sent = value@;
        match append_input_item(&mut out, value) {
            Ok(_) => {
                let ghost items = input_items(sent)->Ok_0;
                assert(head + before + items =~= head + (before + items));
            },
            Err(message) => {
                proof {
                    lemma_first_complaint(all, i + 1);
                }
                return Err(message);
            },
        }
        i += 1;
    }
    assert(all.take(i as int) =~= all);
    Ok(out)
}

/// The demand for reasoning: a summary, and the level where one is asked for.
pub open spec fn reasoning_demand(effort: Option<JsonView>) -> JsonView {
    JsonView::Object(
        json::with_entry(seq![("summary"@, JsonView::Text("auto"@))], "effort"@, effort),
    )
}

/// The members of a request.
pub open spec fn body_entries(
    params: ParamsView,
    input: Seq<JsonView>,
    effort: Option<JsonView>,
) -> Entries {
    let base: Entries = seq![
        ("model"@, JsonView::Text(params.model)),
        ("input"@, JsonView::Array(input)),
        ("stream"@, JsonView::Bool(true)),
        ("store"@, JsonView::Bool(false)),
        ("include"@, JsonView::Array(seq![JsonView::Text("reasoning.encrypted_content"@)])),
        ("max_output_tokens"@, JsonView::Unsigned(params.max_tokens as u64)),
        ("reasoning"@, reasoning_demand(effort)),
    ];
    let tool_defs = match params.tools {
        Some(defs) => Some(
            JsonView::Array(defs.map_values(|tool: JsonView| tools::responses_tool(tool))),
        ),
        None => None,
    };
    let format = match params.schema {
        Some(schema) => Some(constraints::responses_format(schema)),
        None => None,
    };
    let tempered = json::with_entry(base, "temperature"@, params.temperature);
    let tooled = json::with_entry(tempered, "tools"@, tool_defs);
    json::with_entry(tooled, "text"@, format)
}

/// The request, or the complaint about the messages or the level of reasoning.
pub open spec fn body(params: ParamsView) -> Result<JsonView, Seq<char>> {
    match input_of(params.system, params.messages) {
        Ok(input) => match providers::effort(params.reasoning) {
            Ok(effort) => Ok(JsonView::Object(body_entries(params, input, effort))),
            Err(message) => Err(message),
        },
        Err(message) => Err(message),
    }
}

proof fn lemma_body_names()
    ensures
        "model"@.len() == 5,
        "input"@.len() == 5,
        "store"@.len() == 5,
        "tools"@.len() == 5,
        "model"@ != "input"@,
        "model"@ != "store"@,
        "model"@ != "tools"@,
        "input"@ != "store"@,
        "input"@ != "tools"@,
        "store"@ != "tools"@,
        "stream"@.len() == 6,
        "include"@.len() == 7,
        "max_output_tokens"@.len() == 17,
        "reasoning"@.len() == 9,
        "temperature"@.len() == 11,
        "text"@.len() == 4,
        "summary"@ != "effort"@,
{
    reveal_strlit("model");
    reveal_strlit("input");
    reveal_strlit("store");
    reveal_strlit("tools");
    reveal_strlit("stream");
    reveal_strlit("include");
    reveal_strlit("max_output_tokens");
    reveal_strlit("reasoning");
    reveal_strlit("temperature");
    reveal_strlit("text");
    reveal_strlit("summary");
    reveal_strlit("effort");
    assert("model"@[0] == 'm' && "input"@[0] == 'i' && "store"@[0] == 's' && "tools"@[0] == 't');
    assert("summary"@[0] != "effort"@[0]);
}

/// Builds the request. The reply is streamed whether or not the output is.
pub fn request_body(params: &CallParams<'_>) -> (result: Result<Json, String>)
    ensures
        constraints::json_result(result) == body(params@),
{
    proof {
        lemma_body_names();
    }
    let input = match build_input(params.system, params.messages) {
        Ok(input) => input,
        Err(message) => return Err(message),
    };
    let effort = match providers::effort_of(params.reasoning) {
        Ok(effort) => effort,
        Err(message) => return Err(message),
    };
    let ghost items = json::views(input@);
    let ghost level = json::opt_json(effort);
    let mut reasoning = Object::new().add("summary", Json::text("auto"));
    if let Some(effort) = effort {
        reasoning = reasoning.add("effort", effort);
    }
    assert(reasoning@ =~= reasoning_demand(level)->Object_0);
    let included = vec![Json::text("reasoning.encrypted_content")];
    assert(json::views(included@) =~= seq![JsonView::Text("reasoning.encrypted_content"@)]);
    let mut object = Object::new().add("model", Json::text(params.model));
    object = object.add("input", Json::array(input));
    object = object.add("stream", Json::Bool(true));
    object = object.add("store", Json::Bool(false));
    object = object.add("include", Json::array(included));
    object = object.add("max_output_tokens", Json::Unsigned(params.max_tokens as u64));
    object = object.add("reasoning", Json::Object(reasoning));
    if let Some(temperature) = params.temperature {
        object = object.add("temperature", temperature.clone());
    }
    if let Some(defs) = params.tools {
        object = object.add("tools", Json::array(tools::for_responses(defs.as_slice())));
    }
    if let Some(schema) = params.schema {
        object = object.add("text", constraints::text_format_for_responses(schema));
    }
    assert(object@ =~= body_entries(params@, items, level));
    Ok(Json::Object(object))
}

/// Whether the kind of an event is that of a piece of reasoning.
pub open spec fn is_reasoning_delta(kind: Seq<char>) -> bool {
    kind == "response.reasoning_summary_text.delta"@ || kind == "response.reasoning_text.delta"@
}

/// Whether the kind of an event is that of reasoning as a whole.
pub open spec fn is_reasoning_text_done(kind: Seq<char>) -> bool {
    kind == "response.reasoning_summary_text.done"@ || kind == "response.reasoning_text.done"@
}

/// The reasoning that an event of a kind carries.
pub open spec fn event_reasoning(kind: Seq<char>, event: JsonView) -> Option<Seq<char>> {
    if is_reasoning_delta(kind) {
        event.get_str("delta"@)
    } else if is_reasoning_text_done(kind) {
        match event.get_str("text"@) {
            Some(text) => Some(text),
            None => event.get_str("delta"@),
        }
    } else if kind == "response.reasoning_summary_part.done"@ {
        match event.get("part"@) {
            Some(part) => part.get_str("text"@),
            None => None,
        }
    } else {
        None
    }
}

/// The reasoning that an event of a kind carries.
pub fn reasoning_event_text<'a>(event_type: &str, chunk: &'a Json) -> (text: Option<&'a str>)
    ensures
        json::opt_text(text) == event_reasoning(event_type@, chunk@),
{
    if is_delta(event_type) {
        chunk.get_str("delta")
    } else if is_text_done(event_type) {
        match chunk.get_str("text") {
            Some(text) => Some(text),
            None => chunk.get_str("delta"),
        }
    } else if text::same(event_type, "response.reasoning_summary_part.done") {
        match chunk.get("part") {
            Some(part) => part.get_str("text"),
            None => None,
        }
    } else {
        None
    }
}

fn is_delta(kind: &str) -> (result: bool)
    ensures
        result == is_reasoning_delta(kind@),
{
    text::same(kind, "response.reasoning_summary_text.delta") || text::same(
        kind,
        "response.reasoning_text.delta",
    )
}

fn is_text_done(kind: &str) -> (result: bool)
    ensures
        result == is_reasoning_text_done(kind@),
{
    text::same(kind, "response.reasoning_summary_text.done") || text::same(
        kind,
        "response.reasoning_text.done",
    )
}

/// Whether an item of the output is a tool call.
pub open spec fn is_tool_call(item: JsonView) -> bool {
    item.get_str("type"@) == Some("function_call"@) || item.get_str("type"@) == Some(
        "custom_tool_call"@,
    )
}

/// Whether an item of the output carries encrypted reasoning.
pub open spec fn is_encrypted(item: JsonView) -> bool {
    &&& item.get_str("type"@) == Some("reasoning"@) || item.get_str("type"@) == Some("compaction"@)
    &&& item.get_str("encrypted_content"@) matches Some(content) && content.len() > 0
}

fn has_type(item: &Json, kind: &str) -> (result: bool)
    ensures
        result == (item@.get_str("type"@) == Some(kind@)),
{
    match item.get_str("type") {
        Some(found) => text::same(found, kind),
        None => false,
    }
}

fn is_encrypted_continuation_item(item: &Json) -> (result: bool)
    ensures
        result == is_encrypted(item@),
{
    (has_type(item, "reasoning") || has_type(item, "compaction")) && match item.get_str(
        "encrypted_content",
    ) {
        Some(content) => !text::is_empty(content),
        None => false,
    }
}

/// The tool calls among the items of the output, in order.
pub fn extract_tool_calls(output: &[Json]) -> (calls: Vec<Json>)
    ensures
        json::views(calls@) == json::views(output@).filter(|item: JsonView| is_tool_call(item)),
{
    let ghost all = json::views(output@);
    let ghost keep = |item: JsonView| is_tool_call(item);
    let mut calls: Vec<Json> = Vec::new();
    let mut i: usize = 0;
    assert(json::views(calls@) =~= all.take(0).filter(keep)) by {
        reveal(Seq::filter);
    }
    while i < output.len()
        invariant
            i <= output@.len(),
            all == json::views(output@),
            keep == (|item: JsonView| is_tool_call(item)),
            json::views(calls@) == all.take(i as int).filter(keep),
        decreases output@.len() - i,
    {
        proof {
            reveal(Seq::filter);
            assert(all.take(i + 1).drop_last() =~= all.take(i as int));
        }
        if has_type(&output[i], "function_call") || has_type(&output[i], "custom_tool_call") {
            let ghost prior = calls@;
            calls.push(output[i].clone());
            proof {
                json::lemma_views_push(prior, calls@.last());
                assert(calls@ =~= prior.push(calls@.last()));
            }
        }
        i += 1;
    }
    assert(all.take(i as int) =~= all);
    calls
}

/// The text of reasoning, however deep it stands: texts as they are, arrays item by item, and
/// of an object its text, else its summary and its content.
pub open spec fn reasoning_in(value: JsonView) -> Seq<char>
    decreases value, 1nat, 0nat,
{
    match value {
        JsonView::Array(items) => reasoning_in_items(value, items.len()),
        JsonView::Object(_) => {
            proof {
                json::lemma_member_below(value, "summary"@);
                json::lemma_member_below(value, "content"@);
            }
            match value.get_str("text"@) {
                Some(text) => text,
                None => {
                    let summary = match value.get("summary"@) {
                        Some(summary) => reasoning_in(summary),
                        None => Seq::empty(),
                    };
                    let content = match value.get("content"@) {
                        Some(content) => reasoning_in(content),
                        None => Seq::empty(),
                    };
                    summary + content
                },
            }
        },
        JsonView::Text(text) => text,
        _ => Seq::empty(),
    }
}

/// The text of reasoning in the first `n` items of an array.
pub open spec fn reasoning_in_items(array: JsonView, n: nat) -> Seq<char>
    decreases array, 0nat, n,
{
    match array {
        JsonView::Array(items) => if n == 0 || n > items.len() {
            Seq::empty()
        } else {
            proof {
                json::lemma_item_below(array, n - 1);
            }
            reasoning_in_items(array, (n - 1) as nat) + reasoning_in(items[n - 1])
        },
        _ => Seq::empty(),
    }
}

/// The text of reasoning in a value, where there is one.
pub open spec fn reasoning_in_member(value: Option<JsonView>) -> Seq<char> {
    match value {
        Some(value) => reasoning_in(value),
        None => Seq::empty(),
    }
}

fn append_reasoning_text(value: &Json, out: &mut String)
    ensures
        final(out)@ == old(out)@ + reasoning_in(value@),
    decreases value@,
{
    let ghost before = out@;
    if let Some(items) = value.as_array() {
        let ghost array = value@;
        let mut i: usize = 0;
        assert(out@ =~= before + reasoning_in_items(array, 0));
        while i < items.len()
            invariant
                i <= items@.len(),
                array == JsonView::Array(json::views(items@)),
                array == value@,
                out@ == before + reasoning_in_items(array, i as nat),
            decreases items@.len() - i,
        {
            proof {
                json::lemma_item_below(array, i as int);
            }
            append_reasoning_text(&items[i], out);
            assert(out@ =~= before + reasoning_in_items(array, (i + 1) as nat));
            i += 1;
        }
    } else if value.is_object() {
        if let Some(text) = value.get_str("text") {
            out.append(text);
        } else {
            proof {
                json::lemma_member_below(value@, "summary"@);
                json::lemma_member_below(value@, "content"@);
            }
            if let Some(summary) = value.get("summary") {
                append_reasoning_text(summary, out);
            }
            if let Some(content) = value.get("content") {
                append_reasoning_text(content, out);
            }
            assert(out@ =~= before + reasoning_in(value@));
        }
    } else if let Some(text) = value.as_str() {
        out.append(text);
    } else {
        assert(out@ =~= before + Seq::empty());
    }
}

/// The text of the reasoning items among the items of the output.
pub open spec fn summary_text(items: Seq<JsonView>) -> Seq<char>
    decreases items.len(),
{
    if items.len() == 0 {
        Seq::empty()
    } else {
        let before = summary_text(items.drop_last());
        let item = items.last();
        if item.get_str("type"@) == Some("reasoning"@) {
            before + reasoning_in_member(item.get("summary"@)) + reasoning_in_member(
                item.get("content"@),
            )
        } else {
            before
        }
    }
}

/// The text of the reasoning items, where there is any.
pub open spec fn summary_of(items: Seq<JsonView>) -> Option<Seq<char>> {
    if summary_text(items).len() == 0 {
        None
    } else {
        Some(summary_text(items))
    }
}

/// The text of the reasoning items among the items of the output, where there is any.
pub fn extract_reasoning_summary(output: &[Json]) -> (result: Option<String>)
    ensures
        text::opt(result) == summary_of(json::views(output@)),
{
    let ghost all = json::views(output@);
    let mut text = String::new();
    let mut i: usize = 0;
    assert(text@ =~= summary_text(all.take(0)));
    while i < output.len()
        invariant
            i <= output@.len(),
            all == json::views(output@),
            text@ == summary_text(all.take(i as int)),
        decreases output@.len() - i,
    {
        assert(all.take(i + 1).drop_last() =~= all.take(i as int));
        if has_type(&output[i], "reasoning") {
            let ghost before = text@;
            if let Some(summary) = output[i].get("summary") {
                append_reasoning_text(summary, &mut text);
            }
            if let Some(content) = output[i].get("content") {
                append_reasoning_text(content, &mut text);
            }
            assert(text@ =~= before + reasoning_in_member(all[i as int].get("summary"@))
                + reasoning_in_member(all[i as int].get("content"@)));
        }
        i += 1;
    }
    assert(all.take(i as int) =~= all);
    if text::is_empty(text.as_str()) {
        None
    } else {
        Some(text)
    }
}

/// The continuation that a response carries: its items with encrypted reasoning, where there
/// are any.
pub open spec fn continuation_in(response: JsonView, items: Seq<JsonView>) -> Option<
    ContinuationView,
> {
    let kept = items.filter(|item: JsonView| is_encrypted(item));
    if kept.len() == 0 {
        None
    } else {
        Some(
            ContinuationView {
                provider: "openai"@,
                response_id: response.get_str("id"@),
                reasoning_items: kept,
            },
        )
    }
}

/// The continuation that a response carries.
pub fn extract_provider_continuation(response: &Json, output: &[Json]) -> (result: Option<
    ProviderContinuation,
>)
    ensures
        output::opt_continuation(result) == continuation_in(response@, json::views(output@)),
{
    let ghost all = json::views(output@);
    let ghost keep = |item: JsonView| is_encrypted(item);
    let mut kept: Vec<Json> = Vec::new();
    let mut i: usize = 0;
    assert(json::views(kept@) =~= all.take(0).filter(keep)) by {
        reveal(Seq::filter);
    }
    while i < output.len()
        invariant
            i <= output@.len(),
            all == json::views(output@),
            keep == (|item: JsonView| is_encrypted(item)),
            json::views(kept@) == all.take(i as int).filter(keep),
        decreases output@.len() - i,
    {
        proof {
            reveal(Seq::filter);
            assert(all.take(i + 1).drop_last() =~= all.take(i as int));
        }
        if is_encrypted_continuation_item(&output[i]) {
            let ghost prior = kept@;
            kept.push(output[i].clone());
            proof {
                json::lemma_views_push(prior, kept@.last());
                assert(kept@ =~= prior.push(kept@.last()));
            }
        }
        i += 1;
    }
    assert(all.take(i as int) =~= all);
    assert(kept@.len() == json::views(kept@).len());
    if kept.len() == 0 {
        return None;
    }
    let response_id = match response.get_str("id") {
        Some(id) => Some(id.to_owned()),
        None => None,
    };
    Some(
        ProviderContinuation {
            provider: "openai".to_owned(),
            response_id,
            reasoning_items: kept,
        },
    )
}

/// The kind of an event; empty where it has none.
pub open spec fn event_kind(event: JsonView) -> Seq<char> {
    match event.get_str("type"@) {
        Some(kind) => kind,
        None => Seq::empty(),
    }
}

/// What an event does.
pub enum EventView {
    /// A piece of reasoning, or reasoning as a whole that came in no pieces before.
    Reasoning(Seq<char>),
    /// A piece of the answer.
    Content(Seq<char>),
    /// The response begins, or is complete.
    Response { response: JsonView, complete: bool },
    /// A tool call is complete.
    ToolCall(JsonView),
    Nothing,
}

/// What an event does to a call. `reasoned` is whether there was reasoning before.
pub open spec fn read_event(event: JsonView, reasoned: bool) -> EventView {
    let kind = event_kind(event);
    if is_reasoning_delta(kind) {
        match event_reasoning(kind, event) {
            Some(text) => EventView::Reasoning(text),
            None => EventView::Nothing,
        }
    } else if is_reasoning_text_done(kind) || kind == "response.reasoning_summary_part.done"@ {
        match event_reasoning(kind, event) {
            Some(text) => if reasoned {
                EventView::Nothing
            } else {
                EventView::Reasoning(text)
            },
            None => EventView::Nothing,
        }
    } else if kind == "response.output_text.delta"@ {
        match event.get_str("delta"@) {
            Some(text) => EventView::Content(text),
            None => EventView::Nothing,
        }
    } else if kind == "response.created"@ || kind == "response.completed"@ {
        match event.get("response"@) {
            Some(response) => EventView::Response {
                response,
                complete: kind == "response.completed"@,
            },
            None => EventView::Nothing,
        }
    } else if kind == "response.function_call_arguments.done"@ {
        match event.get("item"@) {
            Some(item) => EventView::ToolCall(item),
            None => EventView::Nothing,
        }
    } else {
        EventView::Nothing
    }
}

/// The usage that a response reports; null is none.
pub open spec fn reported_usage(response: JsonView) -> Option<JsonView> {
    match response.get("usage"@) {
        Some(JsonView::Null) => None,
        usage => usage,
    }
}

/// Whether the total of the usage that an event reports is a number of 64 bits.
pub open spec fn countable(event: JsonView) -> bool {
    read_event(event, true) matches EventView::Response { response, .. } ==> (reported_usage(
        response,
    ) matches Some(usage) ==> stats::total_fits(usage))
}

/// A call after what a response says of model and usage.
pub open spec fn noted(session: SessionView, response: JsonView) -> SessionView {
    session.with_model(response.get_str("model"@)).with_usage(
        match reported_usage(response) {
            Some(usage) => Some(stats::normalized_usage(usage)),
            None => None,
        },
    )
}

/// A call after the tool calls of a complete response.
pub open spec fn with_calls(session: SessionView, items: Seq<JsonView>) -> SessionView {
    let complete = items.filter(|item: JsonView| is_tool_call(item));
    let calls = if complete.len() > 0 {
        complete
    } else {
        session.tool_calls
    };
    SessionView {
        tool_calls: calls,
        first_token: session.first_token || calls.len() > 0,
        ..session
    }
}

/// The reasoning of a complete response, where none came before.
pub open spec fn late_reasoning(session: SessionView, items: Seq<JsonView>) -> Option<Seq<char>> {
    if session.writer.prospect.reasoning is None {
        summary_of(items)
    } else {
        None
    }
}

/// A call after the items of a complete response.
pub open spec fn completed(
    session: SessionView,
    response: JsonView,
    items: Seq<JsonView>,
) -> SessionView {
    let called = with_calls(session, items);
    let reasoned = match late_reasoning(session, items) {
        Some(text) => called.after_reasoning(text),
        None => called,
    };
    match continuation_in(response, items) {
        Some(continuation) => SessionView {
            writer: reasoned.writer.with_continuation(continuation),
            ..reasoned
        },
        None => reasoned,
    }
}

/// A call after an event.
pub open spec fn after_event(session: SessionView, event: JsonView) -> SessionView {
    match read_event(event, session.writer.prospect.reasoning is Some) {
        EventView::Reasoning(text) => session.after_reasoning(text),
        EventView::Content(text) => session.after_content(text),
        EventView::Response { response, complete } => {
            let start = noted(session, response);
            match response.get_array("output"@) {
                Some(items) => if complete {
                    completed(start, response, items)
                } else {
                    start
                },
                None => start,
            }
        },
        EventView::ToolCall(item) => SessionView {
            tool_calls: session.tool_calls.push(item),
            first_token: true,
            ..session
        },
        EventView::Nothing => session,
    }
}

/// What is written when an event arrives.
pub open spec fn event_output(session: SessionView, event: JsonView) -> Seq<Seq<char>> {
    match read_event(event, session.writer.prospect.reasoning is Some) {
        EventView::Reasoning(text) => session.writer.reasoning_chunks(text),
        EventView::Content(text) => session.writer.content_chunks(text),
        EventView::Response { response, complete } => match response.get_array("output"@) {
            Some(items) => match late_reasoning(session, items) {
                Some(text) => if complete {
                    session.writer.reasoning_chunks(text)
                } else {
                    Seq::empty()
                },
                None => Seq::empty(),
            },
            None => Seq::empty(),
        },
        _ => Seq::empty(),
    }
}

fn kind_of(event: &Json) -> (kind: &str)
    ensures
        kind@ == event_kind(event@),
{
    match event.get_str("type") {
        Some(kind) => kind,
        None => {
            proof {
                reveal_strlit("");
                assert(""@ =~= Seq::empty());
            }
            ""
        },
    }
}

/// Whether the total of the usage that an event reports is a number of 64 bits.
pub fn is_countable(event: &Json) -> (result: bool)
    ensures
        result == countable(event@),
{
    let kind = kind_of(event);
    if is_delta(kind) || is_text_done(kind) || text::same(
        kind,
        "response.reasoning_summary_part.done",
    ) || text::same(kind, "response.output_text.delta") {
        return true;
    }
    if !text::same(kind, "response.created") && !text::same(kind, "response.completed") {
        return true;
    }
    match event.get("response") {
        Some(response) => match response.get("usage") {
            Some(usage) => usage.is_null() || stats::total_is_countable(usage),
            None => true,
        },
        None => true,
    }
}

impl Session {
    fn take_response(&mut self, sink: &mut Sink, response: &Json, complete: bool)
        requires
            reported_usage(response@) matches Some(usage) ==> stats::total_fits(usage),
        ensures
            final(self)@ == ({
                let start = noted(old(self)@, response@);
                match response@.get_array("output"@) {
                    Some(items) => if complete {
                        completed(start, response@, items)
                    } else {
                        start
                    },
                    None => start,
                }
            }),
            final(sink)@ == old(sink)@.wrote(
                match response@.get_array("output"@) {
                    Some(items) => match late_reasoning(old(self)@, items) {
                        Some(text) => if complete {
                            old(self)@.writer.reasoning_chunks(text)
                        } else {
                            Seq::empty()
                        },
                        None => Seq::empty(),
                    },
                    None => Seq::empty(),
                },
            ),
    {
        proof {
            sink::lemma_wrote_nothing(sink@);
        }
        self.note_model(response.get_str("model"));
        if let Some(usage) = response.get("usage") {
            if !usage.is_null() {
                let normalized = stats::normalize_responses_usage(usage);
                self.note_usage(Some(&normalized));
            }
        }
        if !complete {
            return;
        }
        let items = match response.get_array("output") {
            Some(items) => items,
            None => return,
        };
        let calls = extract_tool_calls(items.as_slice());
        assert(calls@.len() == json::views(calls@).len());
        if calls.len() > 0 {
            self.set_tool_calls(calls);
        }
        if self.has_tool_calls() {
            self.set_first_token(true);
        }
        if self.prospect().reasoning.is_none() {
            if let Some(text) = extract_reasoning_summary(items.as_slice()) {
                self.push_reasoning(sink, text.as_str());
            }
        }
        if let Some(continuation) = extract_provider_continuation(response, items.as_slice()) {
            self.set_continuation(continuation);
        }
    }

    /// Takes an event of a streamed reply of the Responses API.
    pub fn take_response_event(&mut self, sink: &mut Sink, event: &Json)
        requires
            countable(event@),
        ensures
            final(self)@ == after_event(old(self)@, event@),
            final(sink)@ == old(sink)@.wrote(event_output(old(self)@, event@)),
    {
        proof {
            sink::lemma_wrote_nothing(sink@);
        }
        let kind = kind_of(event);
        if is_delta(kind) {
            if let Some(text) = reasoning_event_text(kind, event) {
                self.push_reasoning(sink, text);
            }
        } else if is_text_done(kind) || text::same(kind, "response.reasoning_summary_part.done") {
            if self.prospect().reasoning.is_none() {
                if let Some(text) = reasoning_event_text(kind, event) {
                    self.push_reasoning(sink, text);
                }
            }
        } else if text::same(kind, "response.output_text.delta") {
            if let Some(text) = event.get_str("delta") {
                self.push_content(sink, text);
            }
        } else if text::same(kind, "response.created") || text::same(kind, "response.completed") {
            if let Some(response) = event.get("response") {
                let complete = text::same(kind, "response.completed");
                self.take_response(sink, response, complete);
            }
        } else if text::same(kind, "response.function_call_arguments.done") {
            if let Some(item) = event.get("item") {
                self.set_first_token(true);
                self.push_tool_call(item.clone());
            }
        }
    }
}

/// What is kept as the output of a call is what was written for it.
pub proof fn law_event_output_is_kept(session: SessionView, event: JsonView)
    ensures
        after_event(session, event).full_output == session.full_output + text::joined(
            event_output(session, event),
        ),
{
    let before = session.full_output;
    assert(before + text::joined(Seq::empty()) =~= before);
}

/// A call after events in order.
pub open spec fn after_events(session: SessionView, events: Seq<JsonView>) -> SessionView
    decreases events.len(),
{
    if events.len() == 0 {
        session
    } else {
        after_event(after_events(session, events.drop_last()), events.last())
    }
}

/// What is written while events arrive in order.
pub open spec fn events_output(session: SessionView, events: Seq<JsonView>) -> Seq<Seq<char>>
    decreases events.len(),
{
    if events.len() == 0 {
        Seq::empty()
    } else {
        events_output(session, events.drop_last()) + event_output(
            after_events(session, events.drop_last()),
            events.last(),
        )
    }
}

/// The piece that an event brings, where it brings one.
pub open spec fn event_piece(session: SessionView, event: JsonView) -> Option<Piece> {
    match read_event(event, session.writer.prospect.reasoning is Some) {
        EventView::Reasoning(text) => Some(Piece::Reasoning(text)),
        EventView::Content(text) => Some(Piece::Content(text)),
        EventView::Response { response, complete } => match response.get_array("output"@) {
            Some(items) => match late_reasoning(session, items) {
                Some(text) => if complete {
                    Some(Piece::Reasoning(text))
                } else {
                    None
                },
                None => None,
            },
            None => None,
        },
        _ => None,
    }
}

/// The pieces that events bring in order.
pub open spec fn event_pieces(session: SessionView, events: Seq<JsonView>) -> Seq<Piece>
    decreases events.len(),
{
    if events.len() == 0 {
        Seq::empty()
    } else {
        let before = event_pieces(session, events.drop_last());
        match event_piece(after_events(session, events.drop_last()), events.last()) {
            Some(piece) => before.push(piece),
            None => before,
        }
    }
}

/// The continuation that an event sets, where it sets one.
pub open spec fn event_continuation(event: JsonView) -> Option<ContinuationView> {
    match read_event(event, true) {
        EventView::Response { response, complete } => match response.get_array("output"@) {
            Some(items) => if complete {
                continuation_in(response, items)
            } else {
                None
            },
            None => None,
        },
        _ => None,
    }
}

/// A continuation, or an earlier one where there is none.
pub open spec fn newer(
    continuation: Option<ContinuationView>,
    before: Option<ContinuationView>,
) -> Option<ContinuationView> {
    match continuation {
        Some(continuation) => Some(continuation),
        None => before,
    }
}

/// The continuation of the last complete response among events that has one.
pub open spec fn last_continuation(events: Seq<JsonView>) -> Option<ContinuationView>
    decreases events.len(),
{
    if events.len() == 0 {
        None
    } else {
        newer(event_continuation(events.last()), last_continuation(events.drop_last()))
    }
}

/// Whether there was reasoning before matters to an event only where it brings reasoning.
proof fn lemma_same_response(event: JsonView, reasoned: bool)
    ensures
        read_event(event, reasoned) is Response || read_event(event, true) is Response
            ==> read_event(event, reasoned) == read_event(event, true),
{
}

/// A complete response is one piece more where it brings late reasoning, and its continuation
/// takes the place of an earlier one.
proof fn lemma_came_by_completed(
    session: SessionView,
    start: WriterView,
    pieces: Seq<Piece>,
    before: Option<ContinuationView>,
    response: JsonView,
    items: Seq<JsonView>,
)
    requires
        providers::came_by(session, start, pieces, before),
    ensures
        providers::came_by(
            completed(session, response, items),
            start,
            match late_reasoning(session, items) {
                Some(text) => pieces.push(Piece::Reasoning(text)),
                None => pieces,
            },
            newer(continuation_in(response, items), before),
        ),
{
    let called = with_calls(session, items);
    assert(providers::came_by(called, start, pieces, before));
    match late_reasoning(session, items) {
        Some(text) => providers::lemma_came_by_reasoning(called, start, pieces, before, text),
        None => {},
    }
}

/// An event is one piece more where it brings one, and its continuation takes the place of an
/// earlier one.
proof fn lemma_came_by_event(
    session: SessionView,
    start: WriterView,
    pieces: Seq<Piece>,
    before: Option<ContinuationView>,
    event: JsonView,
)
    requires
        providers::came_by(session, start, pieces, before),
    ensures
        providers::came_by(
            after_event(session, event),
            start,
            match event_piece(session, event) {
                Some(piece) => pieces.push(piece),
                None => pieces,
            },
            newer(event_continuation(event), before),
        ),
{
    let reasoned = session.writer.prospect.reasoning is Some;
    lemma_same_response(event, reasoned);
    match read_event(event, reasoned) {
        EventView::Reasoning(text) => {
            providers::lemma_came_by_reasoning(session, start, pieces, before, text);
        },
        EventView::Content(text) => {
            providers::lemma_came_by_content(session, start, pieces, before, text);
        },
        EventView::Response { response, complete } => {
            let informed = noted(session, response);
            assert(providers::came_by(informed, start, pieces, before));
            if let Some(items) = response.get_array("output"@) {
                if complete {
                    lemma_came_by_completed(informed, start, pieces, before, response, items);
                }
            }
        },
        _ => {},
    }
}

proof fn lemma_came_by_events(start: WriterView, events: Seq<JsonView>)
    ensures
        providers::came_by(
            after_events(SessionView::start(start), events),
            start,
            event_pieces(SessionView::start(start), events),
            last_continuation(events),
        ),
        after_events(SessionView::start(start), events).full_output == text::joined(
            events_output(SessionView::start(start), events),
        ),
    decreases events.len(),
{
    let begin = SessionView::start(start);
    if events.len() > 0 {
        let before = events.drop_last();
        let event = events.last();
        lemma_came_by_events(start, before);
        let session = after_events(begin, before);
        law_event_output_is_kept(session, event);
        text::lemma_joined_add(events_output(begin, before), event_output(session, event));
        lemma_came_by_event(
            session,
            start,
            event_pieces(begin, before),
            last_continuation(before),
            event,
        );
    }
}

/// What is shown of an answer, whatever events it arrives in, is what a replay of it shows.
pub proof fn law_stream_replays(
    simple: bool,
    stream: bool,
    emit_reasoning: bool,
    events: Seq<JsonView>,
)
    requires
        ({
            let start = WriterView::start(simple, stream, emit_reasoning, true);
            let begin = SessionView::start(start);
            let calls = after_events(begin, events).tool_calls;
            providers::can_replay(start, event_pieces(begin, events), calls)
        }),
    ensures
        ({
            let start = WriterView::start(simple, stream, emit_reasoning, true);
            let begin = SessionView::start(start);
            let arrived = after_events(begin, events);
            let end = arrived.after_finish();
            &&& providers::replays(end)
            &&& text::joined(
                events_output(begin, events) + arrived.complete_writer().finish_chunks(),
            ) == end.full_output
        }),
{
    let start = WriterView::start(simple, stream, emit_reasoning, true);
    let begin = SessionView::start(start);
    let arrived = after_events(begin, events);
    lemma_came_by_events(start, events);
    providers::lemma_ended_call_replays(
        arrived,
        start,
        event_pieces(begin, events),
        last_continuation(events),
    );
    text::lemma_joined_add(
        events_output(begin, events),
        arrived.complete_writer().finish_chunks(),
    );
}

/// The answer to a request does not depend on the way it is shown.
pub proof fn law_answer_is_mode_free(one: SessionView, other: SessionView, event: JsonView)
    requires
        providers::same_answer(one, other),
    ensures
        providers::same_answer(after_event(one, event), after_event(other, event)),
{
}

/// A continuation of OpenAI reaches the input as the reasoning items it holds, in either of the
/// shapes it is handed out in: as the object of the answer and as the event of a stream.
pub proof fn law_continuation_expands(continuation: ContinuationView)
    requires
        continuation.provider == "openai"@,
    ensures
        input_items(continuation.json()) == Ok::<Seq<JsonView>, Seq<char>>(
            continuation.reasoning_items,
        ),
        input_items(continuation.stream_event()) == Ok::<Seq<JsonView>, Seq<char>>(
            continuation.reasoning_items,
        ),
        input_items(conversation::continuation_message(continuation).api_value()) == Ok::<
            Seq<JsonView>,
            Seq<char>,
        >(continuation.reasoning_items),
{
    broadcast use json::group_lookup;

    conversation::law_continuation_recognised(continuation);
    output::law_continuation_round_trip(continuation);
    reveal_strlit("type");
    reveal_strlit("provider");
    reveal_strlit("response_id");
    reveal_strlit("reasoning_items");
    assert("type"@.len() == 4 && "provider"@.len() == 8);
    assert("response_id"@.len() == 11 && "reasoning_items"@.len() == 15);
}

/// A continuation that another provider handed out is never sent to OpenAI.
pub proof fn law_foreign_continuation_refused(continuation: ContinuationView)
    requires
        continuation.provider != "openai"@,
    ensures
        input_items(continuation.json()) is Err,
        input_items(continuation.stream_event()) is Err,
{
    conversation::law_continuation_recognised(continuation);
    output::law_continuation_round_trip(continuation);
}

/// What a turn of the assistant leaves in a conversation is sent back on the next turn: the
/// answer as a message, and the continuation as the reasoning items it holds.
pub proof fn law_next_turn_carries_the_last(
    before: Seq<MessageView>,
    content: Seq<char>,
    continuation: ContinuationView,
)
    requires
        continuation.provider == "openai"@,
        message_items(before) is Ok,
    ensures
        message_items(before + conversation::assistant_turn(content, Some(continuation), None))
            == Ok::<Seq<JsonView>, Seq<char>>(
            message_items(before)->Ok_0.push(
                MessageView::plain("assistant"@, content).api_value(),
            ) + continuation.reasoning_items,
        ),
{
    let answer = MessageView::plain("assistant"@, content);
    let kept = conversation::continuation_message(continuation);
    let turn = conversation::assistant_turn(content, Some(continuation), None);
    assert(conversation::answer_message(content, None) == answer);
    assert(before + turn =~= before.push(answer).push(kept));
    assert(before.push(answer).push(kept).drop_last() =~= before.push(answer));
    assert(before.push(answer).drop_last() =~= before);
    lemma_answer_is_no_continuation(content);
    law_continuation_expands(continuation);
    let items = message_items(before)->Ok_0;
    assert(items + seq![answer.api_value()] =~= items.push(answer.api_value()));
    assert(message_items(before.push(answer)) == Ok::<Seq<JsonView>, Seq<char>>(
        items.push(answer.api_value()),
    ));
}

proof fn lemma_answer_is_no_continuation(content: Seq<char>)
    ensures
        !conversation::is_continuation(MessageView::plain("assistant"@, content).api_value()),
{
    broadcast use json::group_lookup;

    reveal_strlit("type");
    reveal_strlit("role");
    reveal_strlit("content");
    reveal_strlit("provider");
    assert("type"@.len() == 4 && "role"@.len() == 4 && "content"@.len() == 7);
    assert("provider"@.len() == 8);
    assert("type"@[0] != "role"@[0]);
}

proof fn lemma_kinds_differ()
    ensures
        "response.output_text.delta"@.len() == 26,
        "response.reasoning_summary_text.delta"@.len() == 37,
        "response.reasoning_text.delta"@.len() == 29,
        "response.reasoning_summary_text.done"@.len() == 36,
        "response.reasoning_text.done"@.len() == 28,
        "response.reasoning_summary_part.done"@.len() == 36,
        "response.created"@.len() == 16,
        "response.completed"@.len() == 18,
        "response.function_call_arguments.done"@.len() == 37,
        "response.reasoning_summary_text.done"@ != "response.reasoning_summary_part.done"@,
        "response.reasoning_summary_text.delta"@ != "response.function_call_arguments.done"@,
{
    reveal_strlit("response.output_text.delta");
    reveal_strlit("response.reasoning_summary_text.delta");
    reveal_strlit("response.reasoning_text.delta");
    reveal_strlit("response.reasoning_summary_text.done");
    reveal_strlit("response.reasoning_text.done");
    reveal_strlit("response.reasoning_summary_part.done");
    reveal_strlit("response.created");
    reveal_strlit("response.completed");
    reveal_strlit("response.function_call_arguments.done");
    assert("response.reasoning_summary_text.done"@[27]
        != "response.reasoning_summary_part.done"@[27]);
    assert("response.reasoning_summary_text.delta"@[9]
        != "response.function_call_arguments.done"@[9]);
}

/// A piece of the answer is added to the answer as it is, and changes nothing else of it. It is
/// told as an event of its own, unless it is empty.
pub proof fn law_content_delta_is_added(session: SessionView, event: JsonView, delta: Seq<char>)
    requires
        event.get_str("type"@) == Some("response.output_text.delta"@),
        event.get_str("delta"@) == Some(delta),
    ensures
        ({
            let before = session.writer;
            let after = after_event(session, event);
            &&& after.writer.prospect.content == before.prospect.content + delta
            &&& after.writer.prospect.reasoning == before.prospect.reasoning
            &&& after.writer.prospect.provider_continuation
                == before.prospect.provider_continuation
            &&& after.writer.events == (if delta.len() > 0 {
                before.events.push(
                    JsonView::Object(
                        seq![
                            ("type"@, JsonView::Text("content_delta"@)),
                            ("delta"@, JsonView::Text(delta)),
                        ],
                    ),
                )
            } else {
                before.events
            })
            &&& after.tool_calls == session.tool_calls
            &&& after.usage == session.usage
            &&& after.model_used == session.model_used
        }),
{
    lemma_kinds_differ();
    assert(session.writer.prospect.content + delta =~= session.writer.prospect.content + delta);
    if delta.len() == 0 {
        assert(session.writer.prospect.content + delta =~= session.writer.prospect.content);
    }
}

/// A piece of reasoning is added to the reasoning as it is, under either of its kinds.
pub proof fn law_reasoning_delta_is_added(session: SessionView, event: JsonView, delta: Seq<char>)
    requires
        event.get_str("type"@) == Some("response.reasoning_summary_text.delta"@)
            || event.get_str("type"@) == Some("response.reasoning_text.delta"@),
        event.get_str("delta"@) == Some(delta),
        delta.len() > 0,
    ensures
        ({
            let before = session.writer.prospect;
            let after = after_event(session, event);
            &&& after.writer.prospect.reasoning == Some(
                match before.reasoning {
                    Some(reasoning) => reasoning + delta,
                    None => delta,
                },
            )
            &&& after.writer.prospect.content == before.content
            &&& after.writer.prospect.provider_continuation == before.provider_continuation
            &&& after.writer.events == session.writer.events.push(
                JsonView::Object(
                    seq![
                        ("type"@, JsonView::Text("reasoning_delta"@)),
                        ("delta"@, JsonView::Text(delta)),
                    ],
                ),
            )
            &&& after.tool_calls == session.tool_calls
            &&& after.usage == session.usage
            &&& after.model_used == session.model_used
        }),
{
    lemma_kinds_differ();
    assert(Seq::<char>::empty() + delta =~= delta);
}

/// The text of an event that brings reasoning as a whole.
pub open spec fn whole_reasoning(event: JsonView) -> Option<Seq<char>> {
    if event.get_str("type"@) == Some("response.reasoning_summary_part.done"@) {
        match event.get("part"@) {
            Some(part) => part.get_str("text"@),
            None => None,
        }
    } else {
        match event.get_str("text"@) {
            Some(text) => Some(text),
            None => event.get_str("delta"@),
        }
    }
}

/// Reasoning as a whole is taken where none came before, and else changes nothing.
pub proof fn law_whole_reasoning_fills_the_gap(session: SessionView, event: JsonView)
    requires
        event.get_str("type"@) == Some("response.reasoning_summary_text.done"@)
            || event.get_str("type"@) == Some("response.reasoning_text.done"@)
            || event.get_str("type"@) == Some("response.reasoning_summary_part.done"@),
    ensures
        session.writer.prospect.reasoning is Some ==> after_event(session, event) == session,
        session.writer.prospect.reasoning is None ==> ({
            let after = after_event(session, event);
            &&& after.writer.prospect.content == session.writer.prospect.content
            &&& after.tool_calls == session.tool_calls
            &&& after.writer.prospect.reasoning == (match whole_reasoning(event) {
                Some(text) => if text.len() > 0 {
                    Some(text)
                } else {
                    None
                },
                None => None,
            })
        }),
{
    lemma_kinds_differ();
    if let Some(text) = whole_reasoning(event) {
        assert(Seq::<char>::empty() + text =~= text);
    }
}

/// A finished tool call is added behind the calls there are.
pub proof fn law_finished_call_is_added(session: SessionView, event: JsonView, item: JsonView)
    requires
        event.get_str("type"@) == Some("response.function_call_arguments.done"@),
        event.get("item"@) == Some(item),
    ensures
        after_event(session, event).tool_calls == session.tool_calls.push(item),
        after_event(session, event).writer == session.writer,
        after_event(session, event).usage == session.usage,
        after_event(session, event).model_used == session.model_used,
{
    lemma_kinds_differ();
}

/// What the beginning and the end of a response say of model and usage: the model counts the
/// first time it is named, the usage the last time it is reported.
pub proof fn law_response_notes(session: SessionView, event: JsonView, response: JsonView)
    requires
        event.get_str("type"@) == Some("response.created"@) || event.get_str("type"@) == Some(
            "response.completed"@,
        ),
        event.get("response"@) == Some(response),
    ensures
        after_event(session, event).model_used == (match session.model_used {
            Some(model) => Some(model),
            None => response.get_str("model"@),
        }),
        after_event(session, event).usage == (match response.get("usage"@) {
            None => session.usage,
            Some(usage) => if usage is Null {
                session.usage
            } else {
                Some(stats::normalized_usage(usage))
            },
        }),
        after_event(session, event).writer.prospect.content == session.writer.prospect.content,
        event.get_str("type"@) == Some("response.created"@) ==> after_event(session, event).writer
            == session.writer && after_event(session, event).tool_calls == session.tool_calls,
{
    lemma_kinds_differ();
}

/// What a complete response says as a whole: its tool calls take the place of those there are,
/// where it has any; its encrypted items are the continuation, where it has any; its reasoning
/// counts where none came before.
pub proof fn law_complete_response(
    session: SessionView,
    event: JsonView,
    response: JsonView,
    items: Seq<JsonView>,
)
    requires
        event.get_str("type"@) == Some("response.completed"@),
        event.get("response"@) == Some(response),
        response.get("output"@) == Some(JsonView::Array(items)),
    ensures
        ({
            let after = after_event(session, event);
            let before = session.writer.prospect;
            let calls = items.filter(
                |item: JsonView|
                    item.get_str("type"@) == Some("function_call"@) || item.get_str("type"@)
                        == Some("custom_tool_call"@),
            );
            let kept = items.filter(
                |item: JsonView|
                    (item.get_str("type"@) == Some("reasoning"@) || item.get_str("type"@) == Some(
                        "compaction"@,
                    )) && (item.get_str("encrypted_content"@) matches Some(content)
                        && content.len() > 0),
            );
            &&& after.tool_calls == (if calls.len() > 0 {
                calls
            } else {
                session.tool_calls
            })
            &&& after.writer.prospect.provider_continuation == (if kept.len() > 0 {
                Some(
                    ContinuationView {
                        provider: "openai"@,
                        response_id: response.get_str("id"@),
                        reasoning_items: kept,
                    },
                )
            } else {
                before.provider_continuation
            })
            &&& after.writer.prospect.reasoning == (match before.reasoning {
                Some(reasoning) => Some(reasoning),
                None => if summary_text(items).len() > 0 {
                    Some(summary_text(items))
                } else {
                    None
                },
            })
            &&& after.writer.prospect.content == before.content
        }),
{
    lemma_kinds_differ();
    let calls = |item: JsonView|
        item.get_str("type"@) == Some("function_call"@) || item.get_str("type"@) == Some(
            "custom_tool_call"@,
        );
    let kept = |item: JsonView|
        (item.get_str("type"@) == Some("reasoning"@) || item.get_str("type"@) == Some(
            "compaction"@,
        )) && (item.get_str("encrypted_content"@) matches Some(content) && content.len() > 0);
    assert(calls =~= (|item: JsonView| is_tool_call(item)));
    assert(kept =~= (|item: JsonView| is_encrypted(item)));
    assert(Seq::<char>::empty() + summary_text(items) =~= summary_text(items));
}

/// An event of any other kind changes nothing.
pub proof fn law_other_events_change_nothing(session: SessionView, event: JsonView)
    requires
        event.get_str("type"@) matches Some(kind) ==> {
            &&& kind != "response.output_text.delta"@
            &&& kind != "response.reasoning_summary_text.delta"@
            &&& kind != "response.reasoning_text.delta"@
            &&& kind != "response.reasoning_summary_text.done"@
            &&& kind != "response.reasoning_text.done"@
            &&& kind != "response.reasoning_summary_part.done"@
            &&& kind != "response.created"@
            &&& kind != "response.completed"@
            &&& kind != "response.function_call_arguments.done"@
        },
    ensures
        after_event(session, event) == session,
{
    lemma_kinds_differ();
}

/// The texts that events of a kind have under a name, one after the other.
pub open spec fn said(events: Seq<JsonView>, kind: Seq<char>, name: Seq<char>) -> Seq<char>
    decreases events.len(),
{
    if events.len() == 0 {
        Seq::empty()
    } else {
        let before = said(events.drop_last(), kind, name);
        match (events.last().get_str("type"@), events.last().get_str(name)) {
            (Some(found), Some(text)) => if found == kind {
                before + text
            } else {
                before
            },
            _ => before,
        }
    }
}

/// The texts that are not empty among those that events of a kind have under a name.
pub open spec fn parts_said(events: Seq<JsonView>, kind: Seq<char>, name: Seq<char>) -> Seq<
    Seq<char>,
>
    decreases events.len(),
{
    if events.len() == 0 {
        Seq::empty()
    } else {
        let before = parts_said(events.drop_last(), kind, name);
        match (events.last().get_str("type"@), events.last().get_str(name)) {
            (Some(found), Some(text)) => if found == kind && text.len() > 0 {
                before.push(text)
            } else {
                before
            },
            _ => before,
        }
    }
}

proof fn lemma_other_events_leave_the_content(session: SessionView, event: JsonView)
    requires
        event.get_str("type"@) != Some("response.output_text.delta"@) || event.get_str("delta"@)
            is None,
    ensures
        after_event(session, event).writer.prospect.content == session.writer.prospect.content,
{
    lemma_kinds_differ();
}

/// The answer is what the pieces of text say, all of them and in order.
pub proof fn law_content_is_what_the_deltas_say(session: SessionView, events: Seq<JsonView>)
    ensures
        after_events(session, events).writer.prospect.content == session.writer.prospect.content
            + said(events, "response.output_text.delta"@, "delta"@),
    decreases events.len(),
{
    let start = session.writer.prospect.content;
    let kind = "response.output_text.delta"@;
    if events.len() == 0 {
        assert(start + said(events, kind, "delta"@) =~= start);
    } else {
        let rest = events.drop_last();
        let event = events.last();
        law_content_is_what_the_deltas_say(session, rest);
        let before = after_events(session, rest);
        match event.get_str("delta"@) {
            Some(delta) => {
                if event.get_str("type"@) == Some(kind) {
                    law_content_delta_is_added(before, event, delta);
                    assert(start + said(rest, kind, "delta"@) + delta =~= start + said(
                        events,
                        kind,
                        "delta"@,
                    ));
                } else {
                    lemma_other_events_leave_the_content(before, event);
                }
            },
            None => lemma_other_events_leave_the_content(before, event),
        }
    }
}

proof fn lemma_told_part(events: Seq<JsonView>, kind: Seq<char>, delta: Seq<char>)
    requires
        delta.len() > 0,
    ensures
        ({
            let event = JsonView::Object(
                seq![("type"@, JsonView::Text(kind)), ("delta"@, JsonView::Text(delta))],
            );
            forall|other: Seq<char>| #[trigger]
                parts_said(events.push(event), other, "delta"@) == (if other == kind {
                    parts_said(events, other, "delta"@).push(delta)
                } else {
                    parts_said(events, other, "delta"@)
                })
        }),
{
    broadcast use json::group_lookup;

    reveal_strlit("type");
    reveal_strlit("delta");
    let none: Entries = Seq::empty();
    let entries: Entries = seq![("type"@, JsonView::Text(kind)), ("delta"@, JsonView::Text(delta))];
    assert(entries =~= none.push(("type"@, JsonView::Text(kind))).push(
        ("delta"@, JsonView::Text(delta)),
    ));
    let event = JsonView::Object(entries);
    assert("type"@.len() != "delta"@.len());
    assert(event.get_str("type"@) == Some(kind));
    assert(event.get_str("delta"@) == Some(delta));
    assert(events.push(event).drop_last() =~= events);
}

proof fn lemma_other_events_tell_no_content(session: SessionView, event: JsonView)
    requires
        event.get_str("type"@) != Some("response.output_text.delta"@) || event.get_str("delta"@)
            is None,
    ensures
        parts_said(after_event(session, event).writer.events, "content_delta"@, "delta"@)
            == parts_said(session.writer.events, "content_delta"@, "delta"@),
{
    lemma_kinds_differ();
    reveal_strlit("content_delta");
    reveal_strlit("reasoning_delta");
    assert("content_delta"@.len() != "reasoning_delta"@.len());
    if let Some(Piece::Reasoning(text)) = event_piece(session, event) {
        if text.len() > 0 {
            lemma_told_part(session.writer.events, "reasoning_delta"@, text);
        }
    }
}

/// The pieces of text are told one by one, as they came.
pub proof fn law_content_events_keep_the_boundaries(session: SessionView, events: Seq<JsonView>)
    ensures
        parts_said(after_events(session, events).writer.events, "content_delta"@, "delta"@)
            == parts_said(session.writer.events, "content_delta"@, "delta"@) + parts_said(
            events,
            "response.output_text.delta"@,
            "delta"@,
        ),
    decreases events.len(),
{
    let start = parts_said(session.writer.events, "content_delta"@, "delta"@);
    let kind = "response.output_text.delta"@;
    if events.len() == 0 {
        assert(start + parts_said(events, kind, "delta"@) =~= start);
    } else {
        let rest = events.drop_last();
        let event = events.last();
        law_content_events_keep_the_boundaries(session, rest);
        let before = after_events(session, rest);
        match event.get_str("delta"@) {
            Some(delta) => {
                if event.get_str("type"@) == Some(kind) {
                    law_content_delta_is_added(before, event, delta);
                    if delta.len() > 0 {
                        lemma_told_part(before.writer.events, "content_delta"@, delta);
                        assert(start + parts_said(rest, kind, "delta"@).push(delta) =~= (start
                            + parts_said(rest, kind, "delta"@)).push(delta));
                    }
                } else {
                    lemma_other_events_tell_no_content(before, event);
                }
            },
            None => lemma_other_events_tell_no_content(before, event),
        }
    }
}

/// The text of reasoning is a text itself, that of the items of an array in order, and of an
/// object its text, else its summary and its content in this order. Nothing else is reasoning.
pub proof fn law_reasoning_is_found(
    text: Seq<char>,
    items: Seq<JsonView>,
    item: JsonView,
    object: Entries,
)
    ensures
        reasoning_in(JsonView::Text(text)) == text,
        reasoning_in(JsonView::Array(Seq::empty())) == Seq::<char>::empty(),
        reasoning_in(JsonView::Array(items.push(item))) == reasoning_in(JsonView::Array(items))
            + reasoning_in(item),
        reasoning_in(JsonView::Object(object)) == (match json::lookup(object, "text"@) {
            Some(JsonView::Text(text)) => text,
            _ => reasoning_in_member(json::lookup(object, "summary"@)) + reasoning_in_member(
                json::lookup(object, "content"@),
            ),
        }),
        reasoning_in(JsonView::Null) == Seq::<char>::empty(),
        reasoning_in_member(None) == Seq::<char>::empty(),
        reasoning_in_member(Some(item)) == reasoning_in(item),
{
    lemma_reasoning_in_prefix(items, item, items.len());
    let none: Seq<JsonView> = Seq::empty();
    assert(reasoning_in_items(JsonView::Array(none), 0) =~= Seq::<char>::empty());
    let all = items.push(item);
    assert(all[items.len() as int] == item);
    assert(reasoning_in_items(JsonView::Array(all), all.len()) == reasoning_in_items(
        JsonView::Array(all),
        items.len(),
    ) + reasoning_in(all[items.len() as int]));
}

proof fn lemma_reasoning_in_prefix(items: Seq<JsonView>, item: JsonView, n: nat)
    requires
        n <= items.len(),
    ensures
        reasoning_in_items(JsonView::Array(items.push(item)), n) == reasoning_in_items(
            JsonView::Array(items),
            n,
        ),
    decreases n,
{
    if n > 0 {
        lemma_reasoning_in_prefix(items, item, (n - 1) as nat);
        assert(items.push(item)[n - 1] == items[n - 1]);
    }
}

/// The reasoning of a complete response is that of its reasoning items, in order: of each its
/// summary and then its content.
pub proof fn law_summary_is_that_of_the_reasoning_items(items: Seq<JsonView>, item: JsonView)
    ensures
        summary_text(Seq::empty()) == Seq::<char>::empty(),
        summary_text(items.push(item)) == (if item.get_str("type"@) == Some("reasoning"@) {
            summary_text(items) + reasoning_in_member(item.get("summary"@)) + reasoning_in_member(
                item.get("content"@),
            )
        } else {
            summary_text(items)
        }),
{
    assert(items.push(item).drop_last() =~= items);
}

/// The members of a request, each by what decides about it and by nothing else. There are no
/// other members.
pub proof fn law_request_members(params: ParamsView, request: JsonView, key: Seq<char>)
    requires
        body(params) == Ok::<JsonView, Seq<char>>(request),
    ensures
        request.get("model"@) == Some(JsonView::Text(params.model)),
        request.get("stream"@) == Some(JsonView::Bool(true)),
        request.get("store"@) == Some(JsonView::Bool(false)),
        request.get("include"@) == Some(
            JsonView::Array(seq![JsonView::Text("reasoning.encrypted_content"@)]),
        ),
        request.get("max_output_tokens"@) == Some(JsonView::Unsigned(params.max_tokens as u64)),
        input_of(params.system, params.messages) matches Ok(items) && request.get("input"@) == Some(
            JsonView::Array(items),
        ),
        request.get("reasoning"@) matches Some(demand) && demand.get("summary"@) == Some(
            JsonView::Text("auto"@),
        ) && demand.get("effort"@) == (match params.reasoning {
            Some(level) => Some(JsonView::Text(level)),
            None => None,
        }),
        request.get("temperature"@) == params.temperature,
        match params.tools {
            Some(defs) => request.get("tools"@) matches Some(JsonView::Array(sent)) && sent.len()
                == defs.len() && (forall|i: int|
                0 <= i < defs.len() ==> #[trigger] sent[i] == tools::responses_tool(defs[i])),
            None => request.get("tools"@) is None,
        },
        match params.schema {
            Some(schema) => {
                &&& request.get("text"@) matches Some(text)
                &&& text.get("format"@) matches Some(format)
                &&& format.get("type"@) == Some(JsonView::Text("json_schema"@))
                &&& format.get("name"@) == Some(JsonView::Text("mii_text_constrained_response"@))
                &&& format.get("schema"@) == Some(schema)
            },
            None => request.get("text"@) is None,
        },
        key != "model"@ && key != "stream"@ && key != "store"@ && key != "include"@ && key
            != "max_output_tokens"@ && key != "input"@ && key != "reasoning"@ && key
            != "temperature"@ && key != "tools"@ && key != "text"@ ==> request.get(key) is None,
{
    broadcast use json::group_lookup;

    lemma_body_names();
    let items = input_of(params.system, params.messages)->Ok_0;
    let effort = providers::effort(params.reasoning)->Ok_0;
    let none: Entries = Seq::empty();
    let base = none.push(("model"@, JsonView::Text(params.model))).push(
        ("input"@, JsonView::Array(items)),
    ).push(("stream"@, JsonView::Bool(true))).push(("store"@, JsonView::Bool(false))).push(
        ("include"@, JsonView::Array(seq![JsonView::Text("reasoning.encrypted_content"@)])),
    ).push(("max_output_tokens"@, JsonView::Unsigned(params.max_tokens as u64))).push(
        ("reasoning"@, reasoning_demand(effort)),
    );
    let literal: Entries = seq![
        ("model"@, JsonView::Text(params.model)),
        ("input"@, JsonView::Array(items)),
        ("stream"@, JsonView::Bool(true)),
        ("store"@, JsonView::Bool(false)),
        ("include"@, JsonView::Array(seq![JsonView::Text("reasoning.encrypted_content"@)])),
        ("max_output_tokens"@, JsonView::Unsigned(params.max_tokens as u64)),
        ("reasoning"@, reasoning_demand(effort)),
    ];
    assert(literal =~= base);
    let summary: Entries = seq![("summary"@, JsonView::Text("auto"@))];
    assert(summary =~= none.push(("summary"@, JsonView::Text("auto"@))));
    if let Some(schema) = params.schema {
        constraints::law_formats_carry_the_schema(schema);
    }
}

/// A request is built for every level of reasoning there is, and where none is asked for, if
/// its messages can be sent; and for no other level.
pub proof fn law_request_is_built(params: ParamsView)
    ensures
        body(params) is Ok <==> input_of(params.system, params.messages) is Ok && (match params.reasoning {
            Some(level) => level == "none"@ || level == "low"@ || level == "medium"@ || level
                == "high"@ || level == "xhigh"@,
            None => true,
        }),
{
}

/// The input of a request: the system prompt first, where there is one, then the messages in
/// order. A message that is no continuation is sent as it is.
pub proof fn law_input_in_order(
    system: Option<Seq<char>>,
    messages: Seq<MessageView>,
    message: MessageView,
)
    requires
        input_of(system, messages) is Ok,
    ensures
        input_of(None, Seq::empty()) == Ok::<Seq<JsonView>, Seq<char>>(Seq::empty()),
        system matches Some(prompt) ==> ({
            let items = input_of(system, messages)->Ok_0;
            &&& items.len() > 0
            &&& items[0].get("role"@) == Some(JsonView::Text("system"@))
            &&& items[0].get("content"@) == Some(JsonView::Text(prompt))
            &&& input_of(None, messages) == Ok::<Seq<JsonView>, Seq<char>>(items.skip(1))
        }),
        message.api_value().get_str("type"@) != Some("provider_continuation"@) && (
        message.api_value().get_str("provider"@) is None || message.api_value().get_array(
            "reasoning_items"@,
        ) is None) ==> input_of(
            system,
            messages.push(message),
        ) == Ok::<Seq<JsonView>, Seq<char>>(
            input_of(system, messages)->Ok_0.push(message.api_value()),
        ),
{
    broadcast use json::group_lookup;

    conversation::law_system_prompt_comes_first(system);
    let none: Seq<JsonView> = Seq::empty();
    assert(none + none =~= none);
    let items = message_items(messages)->Ok_0;
    assert(none + items =~= items);
    assert(messages.push(message).drop_last() =~= messages);
    let head = conversation::system_messages(system);
    if let Some(prompt) = system {
        assert((head + items).skip(1) =~= items);
    }
    let value = message.api_value();
    assert(head + (items + seq![value]) =~= (head + items).push(value));
}

/// What an event lets be written is what its piece lets be written, as it is; an event without a
/// piece lets nothing be written. The first sign of an answer is the first piece of content that
/// is not empty, or a tool call.
pub proof fn law_what_an_event_writes(session: SessionView, event: JsonView)
    ensures
        ({
            let written = event_output(session, event);
            let after = after_event(session, event);
            let kind = event.get_str("type"@);
            &&& kind == Some("response.output_text.delta"@) ==> (match event.get_str("delta"@) {
                Some(delta) => written == session.writer.content_chunks(delta)
                    && after.first_token == (session.first_token || delta.len() > 0),
                None => written.len() == 0 && after == session,
            })
            &&& kind == Some("response.reasoning_summary_text.delta"@) || kind == Some(
                "response.reasoning_text.delta"@,
            ) ==> (match event.get_str("delta"@) {
                Some(delta) => written == session.writer.reasoning_chunks(delta),
                None => true,
            })
            &&& kind == Some("response.function_call_arguments.done"@) ==> written.len() == 0 && (
            event.get("item"@) is Some ==> after.first_token)
            &&& kind == Some("response.created"@) ==> written.len() == 0 && after.first_token
                == session.first_token
            &&& kind is None ==> written.len() == 0 && after == session
            &&& session.first_token ==> after.first_token
            &&& after.full_output == session.full_output + text::joined(written)
        }),
{
    lemma_kinds_differ();
    law_event_output_is_kept(session, event);
}

/// What a message with a continuation adds to the input: the items that it holds, under either
/// name, if it is one of OpenAI; else it is refused.
pub proof fn law_continuation_in_the_input(value: JsonView)
    requires
        value.get_str("type"@) == Some("provider_continuation"@) || value.get_str("provider"@)
            is Some && value.get_array("reasoning_items"@) is Some,
    ensures
        ({
            let found = match value.get("reasoning_items"@) {
                Some(held) => Some(held),
                None => value.get("items"@),
            };
            match value.get_str("provider"@) {
                Some(provider) => if provider == "openai"@ {
                    match found {
                        Some(JsonView::Array(items)) => input_items(value) == Ok::<
                            Seq<JsonView>,
                            Seq<char>,
                        >(items),
                        _ => input_items(value) == Err::<Seq<JsonView>, Seq<char>>(
                            "provider_continuation requires a reasoning_items array"@,
                        ),
                    }
                } else {
                    input_items(value) == Err::<Seq<JsonView>, Seq<char>>(
                        "provider_continuation for provider '"@ + provider
                            + "' cannot be sent to OpenAI"@,
                    )
                },
                None => match found {
                    Some(JsonView::Array(items)) => input_items(value) == Ok::<
                        Seq<JsonView>,
                        Seq<char>,
                    >(items),
                    _ => input_items(value) is Err,
                },
            }
        }),
{
}

/// The input of a further message comes behind that of the messages before it. Where a message
/// is refused, the first complaint is told.
pub proof fn law_input_message_by_message(
    system: Option<Seq<char>>,
    messages: Seq<MessageView>,
    message: MessageView,
)
    ensures
        input_of(system, messages.push(message)) == (match input_of(system, messages) {
            Ok(before) => match input_items(message.api_value()) {
                Ok(items) => Ok::<Seq<JsonView>, Seq<char>>(before + items),
                Err(complaint) => Err::<Seq<JsonView>, Seq<char>>(complaint),
            },
            Err(complaint) => Err::<Seq<JsonView>, Seq<char>>(complaint),
        }),
        ({
            let value = message.api_value();
            value.get_str("type"@) != Some("provider_continuation"@) && (value.get_str("provider"@)
                is None || value.get_array("reasoning_items"@) is None) ==> input_items(value)
                == Ok::<Seq<JsonView>, Seq<char>>(seq![value])
        }),
{
    assert(messages.push(message).drop_last() =~= messages);
    if message_items(messages) is Ok && input_items(message.api_value()) is Ok {
        let head = conversation::system_messages(system);
        let before = message_items(messages)->Ok_0;
        let items = input_items(message.api_value())->Ok_0;
        assert(head + (before + items) =~= head + before + items);
    }
}

/// The answer of a call is what the pieces of text said, from the first event to the last.
pub proof fn law_answer_of_a_call(
    simple: bool,
    stream: bool,
    emit_reasoning: bool,
    emit_done: bool,
    events: Seq<JsonView>,
)
    ensures
        ({
            let start = WriterView::start(simple, stream, emit_reasoning, emit_done);
            let outcome = after_events(SessionView::start(start), events).after_finish().outcome();
            let said = said(events, "response.output_text.delta"@, "delta"@);
            &&& outcome.assistant_buf == said
            &&& outcome.prospect.content == said
        }),
{
    let start = WriterView::start(simple, stream, emit_reasoning, emit_done);
    let session = SessionView::start(start);
    let text = said(events, "response.output_text.delta"@, "delta"@);
    law_content_is_what_the_deltas_say(session, events);
    assert(Seq::<char>::empty() + text =~= text);
}

} // verus!
