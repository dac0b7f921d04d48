//! The Chat Completions API.
use vstd::prelude::*;
use vstd::string::*;

use crate::constraints;
use crate::conversation;
use crate::json;
use crate::json::{Entries, Json, JsonView, Object};
use crate::output::{Piece, WriterView};
use crate::providers;
use crate::providers::{CallParams, ParamsView, Session, SessionView};
use crate::sink;
use crate::sink::Sink;
use crate::text;
use crate::tools;

verus! {

broadcast use json::group_lookup;

/// The members of a request, with the level of reasoning as it is sent.
pub open spec fn body_entries(params: ParamsView, effort: Option<JsonView>) -> Entries {
    let base: Entries = seq![
        ("model"@, JsonView::Text(params.model)),
        (
            "messages"@,
            JsonView::Array(
                conversation::system_messages(params.system) + conversation::chat_items(
                    params.messages,
                ),
            ),
        ),
        ("stream"@, JsonView::Bool(params.stream)),
    ];
    let tool_defs = match params.tools {
        Some(defs) => Some(
            JsonView::Array(defs.map_values(|tool: JsonView| tools::chat_tool(tool))),
        ),
        None => None,
    };
    let format = match params.schema {
        Some(schema) => Some(constraints::chat_format(schema)),
        None => None,
    };
    let reasoned = json::with_entry(base, "reasoning_effort"@, effort);
    let tempered = json::with_entry(reasoned, "temperature"@, params.temperature);
    let tooled = json::with_entry(tempered, "tools"@, tool_defs);
    let formatted = json::with_entry(tooled, "response_format"@, format);
    let limited = formatted.push(
        ("max_completion_tokens"@, JsonView::Unsigned(params.max_tokens as u64)),
    );
    if params.stream && params.stats {
        limited.push(
            (
                "stream_options"@,
                JsonView::Object(seq![("include_usage"@, JsonView::Bool(true))]),
            ),
        )
    } else {
        limited
    }
}

/// The request, or the complaint about the level of reasoning.
pub open spec fn body(params: ParamsView) -> Result<JsonView, Seq<char>> {
    match providers::effort(params.reasoning) {
        Ok(effort) => Ok(JsonView::Object(body_entries(params, effort))),
        Err(message) => Err(message),
    }
}

proof fn lemma_body_names()
    ensures
        "model"@.len() == 5,
        "messages"@.len() == 8,
        "stream"@.len() == 6,
        "reasoning_effort"@.len() == 16,
        "temperature"@.len() == 11,
        "tools"@.len() == 5,
        "model"@ != "tools"@,
        "response_format"@.len() == 15,
        "max_completion_tokens"@.len() == 21,
        "stream_options"@.len() == 14,
{
    reveal_strlit("model");
    reveal_strlit("messages");
    reveal_strlit("stream");
    reveal_strlit("reasoning_effort");
    reveal_strlit("temperature");
    reveal_strlit("tools");
    reveal_strlit("response_format");
    reveal_strlit("max_completion_tokens");
    reveal_strlit("stream_options");
    assert("model"@[0] != "tools"@[0]);
}

/// Builds the request.
pub fn request_body(params: &CallParams<'_>) -> (result: Result<Json, String>)
    ensures
        constraints::json_result(result) == body(params@),
{
    proof {
        lemma_body_names();
    }
    let effort = match providers::effort_of(params.reasoning) {
        Ok(effort) => effort,
        Err(message) => return Err(message),
    };
    let ghost level = json::opt_json(effort);
    let messages = conversation::build_chat_messages(params.system, params.messages);
    let mut object = Object::new().add("model", Json::text(params.model));
    object = object.add("messages", Json::array(messages));
    object = object.add("stream", Json::Bool(params.stream));
    if let Some(effort) = effort {
        object = object.add("reasoning_effort", effort);
    }
    if let Some(temperature) = params.temperature {
        object = object.add("temperature", temperature.clone());
    }
    if let Some(defs) = params.tools {
        object = object.add("tools", Json::array(tools::for_chat(defs.as_slice())));
    }
    if let Some(schema) = params.schema {
        object = object.add("response_format", constraints::response_format_for_chat(schema));
    }
    object = object.add("max_completion_tokens", Json::Unsigned(params.max_tokens as u64));
    if params.stream && params.stats {
        let options = Object::new().add("include_usage", Json::Bool(true));
        assert(options@ =~= seq![("include_usage"@, JsonView::Bool(true))]);
        object = object.add("stream_options", Json::Object(options));
    }
    assert(object@ =~= body_entries(params@, level));
    Ok(Json::Object(object))
}

/// The first choice of a reply.
pub open spec fn first_choice(reply: JsonView) -> Option<JsonView> {
    match reply.get_array("choices"@) {
        Some(choices) => if choices.len() > 0 {
            Some(choices[0])
        } else {
            None
        },
        None => None,
    }
}

/// A part of the first choice of a reply.
pub open spec fn choice_part(reply: JsonView, part: Seq<char>) -> Option<JsonView> {
    match first_choice(reply) {
        Some(choice) => choice.get(part),
        None => None,
    }
}

/// The reasoning that a part carries, under either of its names.
pub open spec fn reasoning_of(part: JsonView) -> Option<Seq<char>> {
    match part.get_str("reasoning_content"@) {
        Some(text) => Some(text),
        None => part.get_str("reasoning"@),
    }
}

fn choice<'a>(reply: &'a Json, part: &str) -> (result: Option<&'a Json>)
    ensures
        json::opt_view(result) == choice_part(reply@, part@),
{
    match reply.get_array("choices") {
        Some(choices) => if choices.len() > 0 {
            assert(json::views(choices@)[0] == choices@[0]@);
            choices[0].get(part)
        } else {
            None
        },
        None => None,
    }
}

fn reasoning_text(part: &Json) -> (result: Option<&str>)
    ensures
        json::opt_text(result) == reasoning_of(part@),
{
    match part.get_str("reasoning_content") {
        Some(text) => Some(text),
        None => part.get_str("reasoning"),
    }
}

/// A call after what a chunk says of model and usage.
pub open spec fn noted(session: SessionView, chunk: JsonView) -> SessionView {
    session.with_model(chunk.get_str("model"@)).with_usage(chunk.get("usage"@))
}

/// A call after a piece of reasoning, where there is one.
pub open spec fn reasoned(session: SessionView, text: Option<Seq<char>>) -> SessionView {
    match text {
        Some(text) => session.after_reasoning(text),
        None => session,
    }
}

/// A call after pieces of tool calls, where there are any.
pub open spec fn called(session: SessionView, delta: JsonView) -> SessionView {
    SessionView {
        tool_calls: calls_after(session.tool_calls, delta),
        first_token: session.first_token || delta.get_array("tool_calls"@) is Some,
        ..session
    }
}

/// A text, or the empty one where there is none.
pub open spec fn text_or_empty(text: Option<Seq<char>>) -> Seq<char> {
    match text {
        Some(text) => text,
        None => Seq::empty(),
    }
}

/// A streamed call after a chunk.
pub open spec fn after_chunk(session: SessionView, chunk: JsonView) -> SessionView {
    let start = noted(session, chunk);
    match choice_part(chunk, "delta"@) {
        Some(delta) => called(reasoned(start, reasoning_of(delta)), delta).after_content(
            text_or_empty(delta.get_str("content"@)),
        ),
        None => start,
    }
}

/// What is written for a part of a reply: its reasoning, then its content.
pub open spec fn part_output(session: SessionView, part: JsonView) -> Seq<Seq<char>> {
    let reasoning = match reasoning_of(part) {
        Some(text) => session.writer.reasoning_chunks(text),
        None => Seq::empty(),
    };
    reasoning + reasoned(session, reasoning_of(part)).writer.content_chunks(
        text_or_empty(part.get_str("content"@)),
    )
}

/// What is written when a chunk arrives.
pub open spec fn chunk_output(session: SessionView, chunk: JsonView) -> Seq<Seq<char>> {
    match choice_part(chunk, "delta"@) {
        Some(delta) => part_output(session, delta),
        None => Seq::empty(),
    }
}

impl Session {
    /// Takes a chunk of a streamed reply of the Chat Completions API.
    pub fn take_chat_chunk(&mut self, sink: &mut Sink, chunk: &Json)
        ensures
            final(self)@ == after_chunk(old(self)@, chunk@),
            final(sink)@ == old(sink)@.wrote(chunk_output(old(self)@, chunk@)),
    {
        let ghost target = sink@;
        let ghost begin = self@;
        proof {
            sink::lemma_wrote_nothing(target);
        }
        self.note_model(chunk.get_str("model"));
        self.note_usage(chunk.get("usage"));
        let delta = match choice(chunk, "delta") {
            Some(delta) => delta,
            None => return,
        };
        let ghost reasoning = match reasoning_of(delta@) {
            Some(text) => begin.writer.reasoning_chunks(text),
            None => Seq::empty(),
        };
        if let Some(text) = reasoning_text(delta) {
            self.push_reasoning(sink, text);
        }
        assert(sink@ == target.wrote(reasoning));
        if delta.get_array("tool_calls").is_some() {
            self.set_first_token(true);
        }
        self.merge_tool_calls(delta);
        let content = match delta.get_str("content") {
            Some(content) => content,
            None => {
                proof {
                    reveal_strlit("");
                    assert(""@ =~= Seq::empty());
                }
                ""
            },
        };
        let ghost more = self@.writer.content_chunks(content@);
        self.push_content(sink, content);
        proof {
            sink::lemma_wrote_twice(target, reasoning, more);
        }
    }
}

/// A call after a reply that came in one piece. No first sign of an answer is told apart in it.
pub open spec fn after_reply(session: SessionView, reply: JsonView) -> SessionView {
    SessionView { first_token: session.first_token, ..told_by_reply(session, reply) }
}

/// A call after what a reply in one piece tells.
pub open spec fn told_by_reply(session: SessionView, reply: JsonView) -> SessionView {
    let start = noted(session, reply);
    let message = choice_part(reply, "message"@);
    let calls = match message {
        Some(message) => match message.get_array("tool_calls"@) {
            Some(calls) => calls,
            None => start.tool_calls,
        },
        None => start.tool_calls,
    };
    let with_calls = SessionView { tool_calls: calls, ..start };
    match message {
        Some(message) => reasoned(with_calls, reasoning_of(message)).after_content(
            text_or_empty(message.get_str("content"@)),
        ),
        None => with_calls,
    }
}

/// What is written when the reply comes in one piece, before the end.
pub open spec fn reply_output(session: SessionView, reply: JsonView) -> Seq<Seq<char>> {
    match choice_part(reply, "message"@) {
        Some(message) => part_output(session, message),
        None => Seq::empty(),
    }
}

impl Session {
    /// Takes a reply of the Chat Completions API that came in one piece.
    pub fn take_chat_reply(&mut self, sink: &mut Sink, reply: &Json)
        ensures
            final(self)@ == after_reply(old(self)@, reply@),
            final(sink)@ == old(sink)@.wrote(reply_output(old(self)@, reply@)),
    {
        let ghost target = sink@;
        let ghost begin = self@;
        proof {
            sink::lemma_wrote_nothing(target);
        }
        let before = self.has_first_token();
        self.note_model(reply.get_str("model"));
        self.note_usage(reply.get("usage"));
        let message = match choice(reply, "message") {
            Some(message) => message,
            None => return,
        };
        if let Some(calls) = message.get_array("tool_calls") {
            self.set_tool_calls(json::copy_all(calls.as_slice()));
        }
        let ghost reasoning = match reasoning_of(message@) {
            Some(text) => begin.writer.reasoning_chunks(text),
            None => Seq::empty(),
        };
        if let Some(text) = reasoning_text(message) {
            self.push_reasoning(sink, text);
        }
        assert(sink@ == target.wrote(reasoning));
        if let Some(content) = message.get_str("content") {
            let ghost more = self@.writer.content_chunks(content@);
            self.push_content(sink, content);
            proof {
                sink::lemma_wrote_twice(target, reasoning, more);
            }
        } else {
            proof {
                let more = self@.writer.content_chunks(Seq::empty());
                assert(reasoning + more =~= reasoning);
                assert(self@.full_output + text::joined(more) =~= self@.full_output);
            }
        }
        self.set_first_token(before);
    }
}

/// Whether the text under a key arrives piece by piece.
pub open spec fn arrives_in_pieces(key: Seq<char>) -> bool {
    key == "arguments"@ || key == "input"@
}

/// A member of a tool call after a piece of it arrived.
pub open spec fn merged_member(
    existing: Option<JsonView>,
    key: Seq<char>,
    value: JsonView,
) -> JsonView
    decreases value, 2nat, 0nat,
{
    match (existing, value) {
        (Some(JsonView::Text(held)), JsonView::Text(part)) => if arrives_in_pieces(key) {
            JsonView::Text(held + part)
        } else {
            value
        },
        (Some(JsonView::Object(held)), JsonView::Object(_)) => merged(
            JsonView::Object(held),
            value,
        ),
        _ => value,
    }
}

/// A tool call after a piece of it arrived: objects are merged, texts that arrive in pieces
/// grow, anything else is replaced. The position of the call and null values say nothing.
pub open spec fn merged(target: JsonView, delta: JsonView) -> JsonView
    decreases delta, 1nat, 0nat,
{
    match (target, delta) {
        (JsonView::Object(held), JsonView::Object(part)) => JsonView::Object(
            merged_entries(held, delta, part.len()),
        ),
        _ => delta,
    }
}

/// The members of a tool call after the first `n` members of a piece arrived.
pub open spec fn merged_entries(held: Entries, delta: JsonView, n: nat) -> Entries
    decreases delta, 0nat, n,
{
    match delta {
        JsonView::Object(part) => if n == 0 || n > part.len() {
            held
        } else {
            let before = merged_entries(held, delta, (n - 1) as nat);
            let (key, value) = part[n - 1];
            if key == "index"@ || value is Null {
                before
            } else {
                proof {
                    json::lemma_entry_below(delta, n - 1);
                }
                json::insert(
                    before,
                    key,
                    merged_member(json::lookup(before, key), key, part[n - 1].1),
                )
            }
        },
        _ => held,
    }
}

fn merge_member(existing: Option<&Json>, key: &str, value: &Json) -> (result: Json)
    ensures
        result@ == merged_member(json::opt_view(existing), key@, value@),
    decreases value@, 2nat, 0nat,
{
    if let Some(held) = existing {
        if let Some(held) = held.as_str() {
            if let Some(part) = value.as_str() {
                if text::same(key, "arguments") || text::same(key, "input") {
                    return Json::Text(text::concat(held, part));
                }
            }
        }
        if held.is_object() && value.is_object() {
            return merge(held, value);
        }
    }
    value.clone()
}

fn merge(target: &Json, delta: &Json) -> (result: Json)
    ensures
        result@ == merged(target@, delta@),
    decreases delta@, 1nat, 0nat,
{
    let part = match delta.as_object() {
        Some(part) => part,
        None => return delta.clone(),
    };
    let held = match target.as_object() {
        Some(held) => held,
        None => return delta.clone(),
    };
    let mut result = held.clone();
    let mut i: usize = 0;
    while i < part.len()
        invariant
            i <= part@.len(),
            delta@ == JsonView::Object(part@),
            result@ == merged_entries(held@, delta@, i as nat),
        decreases part@.len() - i,
    {
        proof {
            json::lemma_entry_below(delta@, i as int);
        }
        let (key, value) = part.entry(i);
        if !text::same(key.as_str(), "index") && !value.is_null() {
            let member = merge_member(result.get(key.as_str()), key.as_str(), value);
            result = result.insert(key.as_str(), member);
        }
        i += 1;
    }
    Json::Object(result)
}

/// Adds a piece to a tool call.
pub fn merge_delta_value(target: &mut Json, delta: &Json)
    ensures
        final(target)@ == merged(old(target)@, delta@),
{
    let result = merge(target, delta);
    *target = result;
}

/// The calls with empty ones up to a position.
pub open spec fn padded(calls: Seq<JsonView>, at: nat) -> Seq<JsonView> {
    if calls.len() <= at {
        calls + Seq::new((at + 1 - calls.len()) as nat, |i: int| JsonView::Object(Seq::empty()))
    } else {
        calls
    }
}

/// The position of the call that a piece belongs to: the one it names, else the next.
pub open spec fn call_position(item: JsonView, len: nat) -> nat {
    match item.get_u64("index"@) {
        Some(index) => (index as usize) as nat,
        None => len,
    }
}

/// The calls after the first `n` pieces arrived.
pub open spec fn merged_calls(calls: Seq<JsonView>, items: Seq<JsonView>, n: nat) -> Seq<JsonView>
    decreases n,
{
    if n == 0 {
        calls
    } else {
        let before = merged_calls(calls, items, (n - 1) as nat);
        let item = items[n - 1];
        let at = call_position(item, before.len());
        let all = padded(before, at);
        all.update(at as int, merged(all[at as int], item))
    }
}

/// The calls after a delta arrived.
pub open spec fn calls_after(calls: Seq<JsonView>, delta: JsonView) -> Seq<JsonView> {
    match delta.get_array("tool_calls"@) {
        Some(items) => merged_calls(calls, items, items.len()),
        None => calls,
    }
}

fn merge_item(calls: &mut Vec<Json>, item: &Json)
    ensures
        ({
            let before = json::views(old(calls)@);
            let at = call_position(item@, before.len());
            let all = padded(before, at);
            json::views(final(calls)@) == all.update(at as int, merged(all[at as int], item@))
        }),
{
    let ghost before = json::views(calls@);
    let at: usize = match item.get_u64("index") {
        Some(index) => index as usize,
        None => calls.len(),
    };
    let ghost start = calls@.len();
    while calls.len() <= at
        invariant
            calls@.len() >= start,
            start <= at ==> calls@.len() <= at + 1,
            start > at ==> calls@.len() == start,
            before.len() == start,
            json::views(calls@) == before + Seq::new(
                (calls@.len() - start) as nat,
                |i: int| JsonView::Object(Seq::empty()),
            ),
        decreases at + 1 - calls@.len(),
    {
        let ghost prior = calls@;
        calls.push(Json::Object(Object::new()));
        proof {
            json::lemma_views_push(prior, calls@.last());
            assert(calls@ =~= prior.push(calls@.last()));
        }
        assert(json::views(calls@) =~= before + Seq::new(
            (calls@.len() - start) as nat,
            |i: int| JsonView::Object(Seq::empty()),
        ));
    }
    assert(json::views(calls@) =~= padded(before, at as nat));
    let ghost all = json::views(calls@);
    let merged_call = merge(&calls[at], item);
    calls.set(at, merged_call);
    assert(json::views(calls@) =~= all.update(at as int, merged_call@));
}

/// Adds the pieces of tool calls that a delta carries.
pub fn merge_tool_call_deltas(tool_calls: &mut Vec<Json>, delta: &Json)
    ensures
        json::views(final(tool_calls)@) == calls_after(json::views(old(tool_calls)@), delta@),
{
    let items = match delta.get_array("tool_calls") {
        Some(items) => items,
        None => return,
    };
    let ghost before = json::views(tool_calls@);
    let ghost all = json::views(items@);
    let mut i: usize = 0;
    while i < items.len()
        invariant
            i <= items@.len(),
            all == json::views(items@),
            json::views(tool_calls@) == merged_calls(before, all, i as nat),
        decreases items@.len() - i,
    {
        merge_item(tool_calls, &items[i]);
        i += 1;
    }
}

proof fn lemma_part_output_is_kept(session: SessionView, part: JsonView)
    ensures
        reasoned(session, reasoning_of(part)).after_content(
            text_or_empty(part.get_str("content"@)),
        ).full_output == session.full_output + text::joined(part_output(session, part)),
{
    broadcast use text::lemma_joined_add;

    let before = session.full_output;
    let reasoning = match reasoning_of(part) {
        Some(text) => session.writer.reasoning_chunks(text),
        None => Seq::empty(),
    };
    let content = reasoned(session, reasoning_of(part)).writer.content_chunks(
        text_or_empty(part.get_str("content"@)),
    );
    assert(before + text::joined(Seq::empty()) =~= before);
    assert(before + (text::joined(reasoning) + text::joined(content)) =~= before + text::joined(
        reasoning,
    ) + text::joined(content));
}

/// What is kept as the output of a call is what was written for it.
pub proof fn law_chunk_output_is_kept(session: SessionView, chunk: JsonView)
    ensures
        after_chunk(session, chunk).full_output == session.full_output + text::joined(
            chunk_output(session, chunk),
        ),
        after_reply(session, chunk).full_output == session.full_output + text::joined(
            reply_output(session, chunk),
        ),
{
    assert(session.full_output + text::joined(Seq::empty()) =~= session.full_output);
    if let Some(delta) = choice_part(chunk, "delta"@) {
        lemma_part_output_is_kept(session, delta);
    }
    if let Some(message) = choice_part(chunk, "message"@) {
        lemma_part_output_is_kept(session, message);
    }
}

/// A streamed call after chunks in order.
pub open spec fn after_chunks(session: SessionView, chunks: Seq<JsonView>) -> SessionView
    decreases chunks.len(),
{
    if chunks.len() == 0 {
        session
    } else {
        after_chunk(after_chunks(session, chunks.drop_last()), chunks.last())
    }
}

/// What is written while chunks arrive in order.
pub open spec fn chunks_output(session: SessionView, chunks: Seq<JsonView>) -> Seq<Seq<char>>
    decreases chunks.len(),
{
    if chunks.len() == 0 {
        Seq::empty()
    } else {
        chunks_output(session, chunks.drop_last()) + chunk_output(
            after_chunks(session, chunks.drop_last()),
            chunks.last(),
        )
    }
}

/// The pieces that a part of a reply brings: its reasoning, then its content.
pub open spec fn part_pieces(part: Option<JsonView>) -> Seq<Piece> {
    match part {
        Some(part) => {
            let content = Piece::Content(text_or_empty(part.get_str("content"@)));
            match reasoning_of(part) {
                Some(text) => Seq::empty().push(Piece::Reasoning(text)).push(content),
                None => Seq::empty().push(content),
            }
        },
        None => Seq::empty(),
    }
}

/// The pieces that chunks bring in order.
pub open spec fn chunk_pieces(chunks: Seq<JsonView>) -> Seq<Piece>
    decreases chunks.len(),
{
    if chunks.len() == 0 {
        Seq::empty()
    } else {
        chunk_pieces(chunks.drop_last()) + part_pieces(choice_part(chunks.last(), "delta"@))
    }
}

proof fn lemma_came_by_part(
    session: SessionView,
    start: WriterView,
    pieces: Seq<Piece>,
    part: JsonView,
)
    requires
        providers::came_by(session, start, pieces, None),
    ensures
        providers::came_by(
            reasoned(session, reasoning_of(part)).after_content(
                text_or_empty(part.get_str("content"@)),
            ),
            start,
            pieces + part_pieces(Some(part)),
            None,
        ),
{
    let content = text_or_empty(part.get_str("content"@));
    match reasoning_of(part) {
        Some(text) => {
            let more = pieces.push(Piece::Reasoning(text));
            providers::lemma_came_by_reasoning(session, start, pieces, None, text);
            providers::lemma_came_by_content(
                session.after_reasoning(text),
                start,
                more,
                None,
                content,
            );
            assert(pieces + part_pieces(Some(part)) =~= more.push(Piece::Content(content)));
        },
        None => {
            providers::lemma_came_by_content(session, start, pieces, None, content);
            assert(pieces + part_pieces(Some(part)) =~= pieces.push(Piece::Content(content)));
        },
    }
}

proof fn lemma_came_by_chunks(start: WriterView, chunks: Seq<JsonView>)
    ensures
        providers::came_by(
            after_chunks(SessionView::start(start), chunks),
            start,
            chunk_pieces(chunks),
            None,
        ),
        after_chunks(SessionView::start(start), chunks).full_output == text::joined(
            chunks_output(SessionView::start(start), chunks),
        ),
    decreases chunks.len(),
{
    let begin = SessionView::start(start);
    if chunks.len() > 0 {
        let before = chunks.drop_last();
        let chunk = chunks.last();
        lemma_came_by_chunks(start, before);
        let session = after_chunks(begin, before);
        let pieces = chunk_pieces(before);
        law_chunk_output_is_kept(session, chunk);
        text::lemma_joined_add(chunks_output(begin, before), chunk_output(session, chunk));
        match choice_part(chunk, "delta"@) {
            Some(delta) => {
                lemma_came_by_part(noted(session, chunk), start, pieces, delta);
                let whole = reasoned(noted(session, chunk), reasoning_of(delta)).after_content(
                    text_or_empty(delta.get_str("content"@)),
                );
                assert(whole.writer == after_chunk(session, chunk).writer);
                assert(whole.full_output == after_chunk(session, chunk).full_output);
            },
            None => {
                assert(chunk_pieces(chunks) =~= pieces);
            },
        }
    }
}

/// What is shown of a streamed answer, whatever chunks it arrives in, is what a replay of it
/// shows.
pub proof fn law_stream_replays(
    simple: bool,
    stream: bool,
    emit_reasoning: bool,
    chunks: Seq<JsonView>,
)
    requires
        ({
            let start = WriterView::start(simple, stream, emit_reasoning, true);
            let calls = after_chunks(SessionView::start(start), chunks).tool_calls;
            providers::can_replay(start, chunk_pieces(chunks), calls)
        }),
    ensures
        ({
            let start = WriterView::start(simple, stream, emit_reasoning, true);
            let begin = SessionView::start(start);
            let arrived = after_chunks(begin, chunks);
            let end = arrived.after_finish();
            &&& providers::replays(end)
            &&& text::joined(
                chunks_output(begin, chunks) + arrived.complete_writer().finish_chunks(),
            ) == end.full_output
        }),
{
    let start = WriterView::start(simple, stream, emit_reasoning, true);
    let begin = SessionView::start(start);
    let arrived = after_chunks(begin, chunks);
    lemma_came_by_chunks(start, chunks);
    providers::lemma_ended_call_replays(arrived, start, chunk_pieces(chunks), None);
    text::lemma_joined_add(
        chunks_output(begin, chunks),
        arrived.complete_writer().finish_chunks(),
    );
}

/// What is shown of an answer that came in one piece is what a replay of it shows.
pub proof fn law_reply_replays(simple: bool, emit_reasoning: bool, reply: JsonView)
    ensures
        ({
            let start = WriterView::start(simple, false, emit_reasoning, true);
            providers::replays(after_reply(SessionView::start(start), reply).after_finish())
        }),
{
    let start = WriterView::start(simple, false, emit_reasoning, true);
    let begin = SessionView::start(start);
    let end = after_reply(begin, reply);
    let none: Seq<Piece> = Seq::empty();
    match choice_part(reply, "message"@) {
        Some(message) => {
            let calls = match message.get_array("tool_calls"@) {
                Some(calls) => calls,
                None => begin.tool_calls,
            };
            let called = SessionView { tool_calls: calls, ..noted(begin, reply) };
            lemma_came_by_part(called, start, none, message);
            providers::lemma_ended_call_replays(
                end,
                start,
                none + part_pieces(Some(message)),
                None,
            );
        },
        None => providers::lemma_ended_call_replays(end, start, none, None),
    }
}

/// The answer to a request does not depend on the way it is shown.
pub proof fn law_answer_is_mode_free(one: SessionView, other: SessionView, chunk: JsonView)
    requires
        providers::same_answer(one, other),
    ensures
        providers::same_answer(after_chunk(one, chunk), after_chunk(other, chunk)),
        providers::same_answer(after_reply(one, chunk), after_reply(other, chunk)),
{
}

proof fn lemma_merged_entries(held: Entries, delta: JsonView, n: nat, key: Seq<char>)
    requires
        delta is Object,
        json::distinct_keys(delta->Object_0),
        n <= delta->Object_0.len(),
    ensures
        json::lookup(merged_entries(held, delta, n), key) == (match json::lookup(
            delta->Object_0.take(n as int),
            key,
        ) {
            None => json::lookup(held, key),
            Some(value) => if key == "index"@ || value is Null {
                json::lookup(held, key)
            } else {
                Some(merged_member(json::lookup(held, key), key, value))
            },
        }),
    decreases n,
{
    broadcast use json::group_lookup;

    let part = delta->Object_0;
    if n == 0 {
        assert(part.take(0) =~= Entries::empty());
    } else {
        lemma_merged_entries(held, delta, (n - 1) as nat, key);
        assert(part.take(n as int).drop_last() =~= part.take(n - 1));
        assert(part.take(n as int).last() == part[n - 1]);
        if part[n - 1].0 == key {
            json::lemma_lookup_absent(part.take(n - 1), key);
            assert forall|i: int| 0 <= i < n - 1 implies (#[trigger] part.take(n - 1)[i]).0
                != key by {
                assert(part[i].0 != part[n - 1].0);
            }
        }
    }
}

/// What a piece does to each member of a tool call. A member that the piece does not speak of,
/// or of which it says null, stays as it was; the position of the call is never stored.
pub proof fn law_merge_by_member(held: Entries, part: Entries, key: Seq<char>)
    requires
        json::distinct_keys(part),
    ensures
        merged(JsonView::Object(held), JsonView::Object(part)).get(key) == (match json::lookup(
            part,
            key,
        ) {
            None => json::lookup(held, key),
            Some(value) => if key == "index"@ || value is Null {
                json::lookup(held, key)
            } else {
                Some(merged_member(json::lookup(held, key), key, value))
            },
        }),
{
    assert(part.take(part.len() as int) =~= part);
    lemma_merged_entries(held, JsonView::Object(part), part.len(), key);
}

/// The pieces of the arguments of a call come together in the order in which they arrive.
pub proof fn law_arguments_come_together(
    held: Entries,
    part: Entries,
    key: Seq<char>,
    before: Seq<char>,
    piece: Seq<char>,
)
    requires
        json::distinct_keys(part),
        arrives_in_pieces(key),
        json::lookup(held, key) == Some(JsonView::Text(before)),
        json::lookup(part, key) == Some(JsonView::Text(piece)),
    ensures
        merged(JsonView::Object(held), JsonView::Object(part)).get(key) == Some(
            JsonView::Text(before + piece),
        ),
{
    reveal_strlit("index");
    reveal_strlit("input");
    reveal_strlit("arguments");
    assert("index"@[2] != "input"@[2]);
    assert("index"@.len() != "arguments"@.len());
    law_merge_by_member(held, part, key);
}

/// A piece belongs to one call: it adds empty calls up to its position where they are missing,
/// and leaves every other call as it was.
pub proof fn law_piece_touches_one_call(calls: Seq<JsonView>, item: JsonView, other: nat)
    requires
        other != call_position(item, calls.len()),
        other < merged_calls(calls, seq![item], 1).len(),
    ensures
        merged_calls(calls, seq![item], 1)[other as int] == (if other < calls.len() {
            calls[other as int]
        } else {
            JsonView::Object(Seq::empty())
        }),
{
    reveal_with_fuel(merged_calls, 2);
}

/// The members of a request, each by what decides about it and by nothing else. There are no
/// other members.
pub proof fn law_request_members(params: ParamsView, request: JsonView, key: Seq<char>)
    requires
        body(params) == Ok::<JsonView, Seq<char>>(request),
    ensures
        request.get("model"@) == Some(JsonView::Text(params.model)),
        request.get("messages"@) == Some(
            JsonView::Array(
                conversation::system_messages(params.system) + conversation::chat_items(
                    params.messages,
                ),
            ),
        ),
        request.get("stream"@) == Some(JsonView::Bool(params.stream)),
        request.get("temperature"@) == params.temperature,
        request.get("reasoning_effort"@) == (match params.reasoning {
            Some(level) => Some(JsonView::Text(level)),
            None => None,
        }),
        request.get("max_completion_tokens"@) == Some(JsonView::Unsigned(params.max_tokens as u64)),
        match params.tools {
            Some(defs) => request.get("tools"@) matches Some(JsonView::Array(sent)) && sent.len()
                == defs.len() && (forall|i: int|
                0 <= i < defs.len() ==> #[trigger] sent[i] == tools::chat_tool(defs[i])),
            None => request.get("tools"@) is None,
        },
        match params.schema {
            Some(schema) => {
                &&& request.get("response_format"@) matches Some(format)
                &&& format.get("type"@) == Some(JsonView::Text("json_schema"@))
                &&& format.get("json_schema"@) matches Some(held)
                &&& held.get("name"@) == Some(JsonView::Text("mii_text_constrained_response"@))
                &&& held.get("schema"@) == Some(schema)
            },
            None => request.get("response_format"@) is None,
        },
        if params.stream && params.stats {
            request.get("stream_options"@) matches Some(options) && options.get("include_usage"@)
                == Some(JsonView::Bool(true))
        } else {
            request.get("stream_options"@) is None
        },
        key != "model"@ && key != "messages"@ && key != "stream"@ && key != "temperature"@ && key
            != "reasoning_effort"@ && key != "max_completion_tokens"@ && key != "tools"@ && key
            != "response_format"@ && key != "stream_options"@ ==> request.get(key) is None,
{
    broadcast use json::group_lookup;

    lemma_body_names();
    let none: Entries = Seq::empty();
    let model = ("model"@, JsonView::Text(params.model));
    let messages = (
        "messages"@,
        JsonView::Array(
            conversation::system_messages(params.system) + conversation::chat_items(
                params.messages,
            ),
        ),
    );
    let stream = ("stream"@, JsonView::Bool(params.stream));
    let base: Entries = seq![model, messages, stream];
    assert(base =~= none.push(model).push(messages).push(stream));
    let usage: Entries = seq![("include_usage"@, JsonView::Bool(true))];
    assert(usage =~= none.push(("include_usage"@, JsonView::Bool(true))));
    if let Some(schema) = params.schema {
        constraints::law_formats_carry_the_schema(schema);
    }
}

/// A request is built for every level of reasoning there is, and where none is asked for; and
/// for no other level.
pub proof fn law_request_is_built(params: ParamsView)
    ensures
        body(params) is Ok <==> (match params.reasoning {
            Some(level) => level == "none"@ || level == "low"@ || level == "medium"@ || level
                == "high"@ || level == "xhigh"@,
            None => true,
        }),
{
}

/// The part of that name in the first choice of a reply.
pub open spec fn part_of(reply: JsonView, name: Seq<char>) -> Option<JsonView> {
    match reply.get("choices"@) {
        Some(JsonView::Array(choices)) => if choices.len() > 0 {
            choices[0].get(name)
        } else {
            None
        },
        _ => None,
    }
}

/// The content of a part: its text, where there is one.
pub open spec fn content_in(part: Option<JsonView>) -> Seq<char> {
    match part {
        Some(part) => match part.get_str("content"@) {
            Some(text) => text,
            None => Seq::empty(),
        },
        None => Seq::empty(),
    }
}

/// The reasoning of a part: a text under the one name, else under the other.
pub open spec fn reasoning_in(part: Option<JsonView>) -> Seq<char> {
    match part {
        Some(part) => match (part.get_str("reasoning_content"@), part.get_str("reasoning"@)) {
            (Some(text), _) => text,
            (None, Some(text)) => text,
            (None, None) => Seq::empty(),
        },
        None => Seq::empty(),
    }
}

/// Reasoning after more of it.
pub open spec fn grown(reasoning: Option<Seq<char>>, more: Seq<char>) -> Option<Seq<char>> {
    if more.len() == 0 {
        reasoning
    } else {
        match reasoning {
            Some(before) => Some(before + more),
            None => Some(more),
        }
    }
}

/// What a chunk adds to the answer: the content and the reasoning of the delta in its first
/// choice, as they are. The model counts the first time it is named, the usage the last time
/// it is reported.
pub proof fn law_chunk_is_added(session: SessionView, chunk: JsonView)
    ensures
        ({
            let before = session.writer.prospect;
            let after = after_chunk(session, chunk);
            let delta = part_of(chunk, "delta"@);
            &&& after.writer.prospect.content == before.content + content_in(delta)
            &&& after.writer.prospect.reasoning == grown(before.reasoning, reasoning_in(delta))
            &&& after.writer.prospect.provider_continuation == before.provider_continuation
            &&& after.model_used == (match session.model_used {
                Some(model) => Some(model),
                None => chunk.get_str("model"@),
            })
            &&& after.usage == (match chunk.get("usage"@) {
                None => session.usage,
                Some(usage) => if usage is Null {
                    session.usage
                } else {
                    Some(usage)
                },
            })
        }),
{
    let before = session.writer.prospect;
    let delta = part_of(chunk, "delta"@);
    let content = content_in(delta);
    let reasoning = reasoning_in(delta);
    if content.len() == 0 {
        assert(before.content + content =~= before.content);
    }
    assert(Seq::<char>::empty() + reasoning =~= reasoning);
}

/// What a reply in one piece adds to the answer: the content, the reasoning and the tool calls
/// of the message in its first choice, as they are.
pub proof fn law_reply_is_added(session: SessionView, reply: JsonView)
    ensures
        ({
            let before = session.writer.prospect;
            let after = after_reply(session, reply);
            let message = part_of(reply, "message"@);
            &&& after.writer.prospect.content == before.content + content_in(message)
            &&& after.writer.prospect.reasoning == grown(before.reasoning, reasoning_in(message))
            &&& after.tool_calls == (match message {
                Some(message) => match message.get("tool_calls"@) {
                    Some(JsonView::Array(calls)) => calls,
                    _ => session.tool_calls,
                },
                None => session.tool_calls,
            })
            &&& after.model_used == (match session.model_used {
                Some(model) => Some(model),
                None => reply.get_str("model"@),
            })
            &&& after.usage == (match reply.get("usage"@) {
                None => session.usage,
                Some(usage) => if usage is Null {
                    session.usage
                } else {
                    Some(usage)
                },
            })
        }),
{
    let before = session.writer.prospect;
    let message = part_of(reply, "message"@);
    let content = content_in(message);
    let reasoning = reasoning_in(message);
    if content.len() == 0 {
        assert(before.content + content =~= before.content);
    }
    assert(Seq::<char>::empty() + reasoning =~= reasoning);
}

/// The contents of the deltas of chunks, one after the other.
pub open spec fn contents_said(chunks: Seq<JsonView>) -> Seq<char>
    decreases chunks.len(),
{
    if chunks.len() == 0 {
        Seq::empty()
    } else {
        contents_said(chunks.drop_last()) + content_in(part_of(chunks.last(), "delta"@))
    }
}

/// The reasoning in the deltas of chunks, one after the other.
pub open spec fn reasoning_said(chunks: Seq<JsonView>) -> Seq<char>
    decreases chunks.len(),
{
    if chunks.len() == 0 {
        Seq::empty()
    } else {
        reasoning_said(chunks.drop_last()) + reasoning_in(part_of(chunks.last(), "delta"@))
    }
}

/// A streamed answer is what its deltas say, all of them and in order.
pub proof fn law_answer_is_what_the_deltas_say(session: SessionView, chunks: Seq<JsonView>)
    ensures
        ({
            let before = session.writer.prospect;
            let after = after_chunks(session, chunks).writer.prospect;
            &&& after.content == before.content + contents_said(chunks)
            &&& after.reasoning == grown(before.reasoning, reasoning_said(chunks))
        }),
    decreases chunks.len(),
{
    let before = session.writer.prospect;
    if chunks.len() == 0 {
        assert(before.content + contents_said(chunks) =~= before.content);
    } else {
        let rest = chunks.drop_last();
        law_answer_is_what_the_deltas_say(session, rest);
        law_chunk_is_added(after_chunks(session, rest), chunks.last());
        let content = content_in(part_of(chunks.last(), "delta"@));
        let reasoning = reasoning_in(part_of(chunks.last(), "delta"@));
        assert(before.content + contents_said(rest) + content =~= before.content + contents_said(
            chunks,
        ));
        let held = match before.reasoning {
            Some(text) => text,
            None => Seq::empty(),
        };
        assert(held + reasoning_said(rest) + reasoning =~= held + reasoning_said(chunks));
        assert(Seq::<char>::empty() + reasoning_said(rest) =~= reasoning_said(rest));
        assert(Seq::<char>::empty() + reasoning_said(chunks) =~= reasoning_said(chunks));
        if reasoning_said(rest).len() == 0 {
            assert(reasoning_said(chunks) =~= reasoning);
        }
        if reasoning.len() == 0 {
            assert(reasoning_said(chunks) =~= reasoning_said(rest));
        }
    }
}

/// What a piece of a tool call does to each member of the call: the arguments and the input
/// grow, objects are merged in turn, any other member is replaced. What the piece does not
/// speak of stays, as does that of which it says null; the position of the call is not kept.
pub proof fn law_piece_by_member(held: Entries, part: Entries, key: Seq<char>, value: JsonView)
    requires
        json::distinct_keys(part),
    ensures
        ({
            let before = json::lookup(held, key);
            let after = merged(JsonView::Object(held), JsonView::Object(part)).get(key);
            &&& json::lookup(part, key) is None ==> after == before
            &&& json::lookup(part, key) == Some(value) && (key == "index"@ || value is Null)
                ==> after == before
            &&& json::lookup(part, key) == Some(value) && key != "index"@ && value !is Null ==> {
                match (before, value) {
                    (Some(JsonView::Text(text)), JsonView::Text(more)) => after == Some(
                        if key == "arguments"@ || key == "input"@ {
                            JsonView::Text(text + more)
                        } else {
                            value
                        },
                    ),
                    (Some(JsonView::Object(_)), JsonView::Object(_)) => after == Some(
                        merged(before->0, value),
                    ),
                    _ => after == Some(value),
                }
            }
        }),
{
    law_merge_by_member(held, part, key);
}

/// The call that a piece belongs to is the one at the position that it names, else a new one
/// behind the others; the piece is merged into what is there.
pub proof fn law_piece_finds_its_call(calls: Seq<JsonView>, item: JsonView)
    ensures
        ({
            let after = merged_calls(calls, seq![item], 1);
            let at = match item.get("index"@) {
                Some(JsonView::Unsigned(index)) => (index as usize) as int,
                _ => calls.len() as int,
            };
            let before = if at < calls.len() {
                calls[at]
            } else {
                JsonView::Object(Seq::empty())
            };
            &&& after.len() == (if at < calls.len() {
                calls.len() as int
            } else {
                at + 1
            })
            &&& after[at] == merged(before, item)
            &&& forall|other: int|
                0 <= other < calls.len() && other != at ==> #[trigger] after[other] == calls[other]
        }),
{
    reveal_with_fuel(merged_calls, 2);
}

/// The pieces in the delta of a chunk go to the calls one after the other.
pub proof fn law_pieces_in_order(calls: Seq<JsonView>, items: Seq<JsonView>, item: JsonView)
    ensures
        merged_calls(calls, Seq::empty(), 0) == calls,
        merged_calls(calls, items.push(item), items.len() + 1) == merged_calls(
            merged_calls(calls, items, items.len()),
            seq![item],
            1,
        ),
{
    lemma_merged_calls_prefix(calls, items, item, items.len());
    reveal_with_fuel(merged_calls, 2);
    assert(items.push(item)[items.len() as int] == item);
}

proof fn lemma_merged_calls_prefix(
    calls: Seq<JsonView>,
    items: Seq<JsonView>,
    item: JsonView,
    n: nat,
)
    requires
        n <= items.len(),
    ensures
        merged_calls(calls, items.push(item), n) == merged_calls(calls, items, n),
    decreases n,
{
    if n > 0 {
        lemma_merged_calls_prefix(calls, items, item, (n - 1) as nat);
        assert(items.push(item)[n - 1] == items[n - 1]);
    }
}

/// A chunk without pieces of tool calls leaves the calls; one with pieces merges all of them.
pub proof fn law_chunk_merges_its_pieces(session: SessionView, chunk: JsonView)
    ensures
        after_chunk(session, chunk).tool_calls == (match part_of(chunk, "delta"@) {
            Some(delta) => match delta.get("tool_calls"@) {
                Some(JsonView::Array(items)) => merged_calls(
                    session.tool_calls,
                    items,
                    items.len(),
                ),
                _ => session.tool_calls,
            },
            None => session.tool_calls,
        }),
{
}

/// A chunk is told piece by piece: its reasoning, then its content, each as an event of its own
/// unless it is empty. What is written is what these pieces let be written.
pub proof fn law_chunk_is_told(session: SessionView, chunk: JsonView)
    ensures
        ({
            let delta = part_of(chunk, "delta"@);
            let reasoning = reasoning_in(delta);
            let content = content_in(delta);
            let begun = if reasoning.len() > 0 {
                session.writer.events.push(
                    JsonView::Object(
                        seq![
                            ("type"@, JsonView::Text("reasoning_delta"@)),
                            ("delta"@, JsonView::Text(reasoning)),
                        ],
                    ),
                )
            } else {
                session.writer.events
            };
            let after = after_chunk(session, chunk);
            &&& after.writer.events == (if content.len() > 0 {
                begun.push(
                    JsonView::Object(
                        seq![
                            ("type"@, JsonView::Text("content_delta"@)),
                            ("delta"@, JsonView::Text(content)),
                        ],
                    ),
                )
            } else {
                begun
            })
            &&& chunk_output(session, chunk) == session.writer.reasoning_chunks(reasoning)
                + session.writer.after_reasoning(reasoning).content_chunks(content)
            &&& after.full_output == session.full_output + text::joined(
                chunk_output(session, chunk),
            )
            &&& content.len() > 0 ==> after.first_token
            &&& session.first_token ==> after.first_token
        }),
{
    law_chunk_output_is_kept(session, chunk);
    let delta = part_of(chunk, "delta"@);
    if delta is None {
        let none: Seq<Seq<char>> = Seq::empty();
        assert(none + none =~= none);
    }
}

/// The answer of a streamed call is what the deltas said, from the first chunk to the last.
pub proof fn law_answer_of_a_call(
    simple: bool,
    stream: bool,
    emit_reasoning: bool,
    emit_done: bool,
    chunks: Seq<JsonView>,
)
    ensures
        ({
            let start = WriterView::start(simple, stream, emit_reasoning, emit_done);
            let outcome = after_chunks(SessionView::start(start), chunks).after_finish().outcome();
            &&& outcome.assistant_buf == contents_said(chunks)
            &&& outcome.prospect.content == contents_said(chunks)
            &&& outcome.prospect.reasoning == (if reasoning_said(chunks).len() > 0 {
                Some(reasoning_said(chunks))
            } else {
                None
            })
        }),
{
    let start = WriterView::start(simple, stream, emit_reasoning, emit_done);
    law_answer_is_what_the_deltas_say(SessionView::start(start), chunks);
    assert(Seq::<char>::empty() + contents_said(chunks) =~= contents_said(chunks));
}

} // verus!
