//! Answers in the shape of a schema, in two passes: a free answer that the schema's outline
//! guides, then the same answer as JSON that the schema constrains.
use vstd::prelude::*;
use vstd::string::*;

use crate::bridge;
use crate::conversation;
use crate::conversation::{Message, MessageView};
use crate::json;
use crate::json::{Entries, Json, JsonView, Object};
use crate::output::{Prospect, ProspectView};
use crate::text;

verus! {

broadcast use json::group_lookup;

/// A schema, or what is wrong with it.
pub open spec fn checked_schema(schema: JsonView) -> Result<JsonView, Seq<char>> {
    if schema is Object {
        Ok(schema)
    } else {
        Err("--schema must be a JSON schema object"@)
    }
}

/// The schema that an argument gives: as JSON text, or as the path of a file that holds it.
/// `read` is what that file holds, or why it was not read.
pub open spec fn schema_of(
    raw: Seq<char>,
    read: Result<Seq<char>, Seq<char>>,
) -> Result<JsonView, Seq<char>> {
    match bridge::parsed(raw) {
        Ok(schema) => checked_schema(schema),
        Err(_) => match read {
            Ok(contents) => match bridge::parsed(contents) {
                Ok(schema) => checked_schema(schema),
                Err(message) => Err("failed to parse --schema "@ + raw + ": "@ + message),
            },
            Err(message) => Err(
                "failed to parse --schema as JSON or read "@ + raw + ": "@ + message,
            ),
        },
    }
}

/// What a function that reads a schema returns.
pub open spec fn json_result(result: Result<Json, String>) -> Result<JsonView, Seq<char>> {
    match result {
        Ok(value) => Ok(value@),
        Err(message) => Err(message@),
    }
}

fn validate_schema(schema: Json) -> (result: Result<Json, String>)
    ensures
        json_result(result) == checked_schema(schema@),
{
    if schema.is_object() {
        Ok(schema)
    } else {
        Err("--schema must be a JSON schema object".to_owned())
    }
}

/// Whether an argument gives a schema as JSON text, so that no file is read.
pub fn is_inline_schema(raw: &str) -> (result: bool)
    ensures
        result == (bridge::parsed(raw@) is Ok),
{
    Json::parse(raw).is_ok()
}

/// Reads the schema that an argument gives. `read` is looked at only where the argument is no
/// JSON text; it is what the file of that path holds, or why it was not read.
pub fn resolve_schema(raw: &str, read: Result<&str, &str>) -> (result: Result<Json, String>)
    ensures
        json_result(result) == schema_of(
            raw@,
            match read {
                Ok(contents) => Ok(contents@),
                Err(message) => Err(message@),
            },
        ),
{
    if let Ok(schema) = Json::parse(raw) {
        return validate_schema(schema);
    }
    match read {
        Ok(contents) => match Json::parse(contents) {
            Ok(schema) => validate_schema(schema),
            Err(message) => Err(text::concat4("failed to parse --schema ", raw, ": ", message.as_str())),
        },
        Err(message) => Err(
            text::concat4("failed to parse --schema as JSON or read ", raw, ": ", message),
        ),
    }
}

/// What a schema says of itself: its description, else its title.
pub open spec fn description(schema: JsonView) -> Option<Seq<char>> {
    match schema.get_str("description"@) {
        Some(text) => Some(text),
        None => schema.get_str("title"@),
    }
}

/// The line that stands for a schema itself.
pub open spec fn schema_line(schema: JsonView, name: Option<Seq<char>>, indent: Seq<char>) -> Seq<
    char,
> {
    match (name, description(schema), schema.get_str("type"@)) {
        (None, Some(description), _) => indent + description + ":"@,
        (None, None, Some(kind)) => indent + kind + ":"@,
        (None, None, None) => indent + "response:"@,
        (Some(name), Some(description), _) => indent + "- "@ + name + ": "@ + description,
        (Some(name), None, Some(kind)) => indent + "- "@ + name + ": "@ + kind,
        (Some(name), None, None) => indent + "- "@ + name,
    }
}

/// The outline of a schema: its own line, and below it those of its properties and of its
/// items, further in than the line of a schema that has a name.
pub open spec fn schema_lines(schema: JsonView, name: Option<Seq<char>>, indent: Seq<char>) -> Seq<
    Seq<char>,
>
    decreases schema, 0nat,
{
    proof {
        json::lemma_member_below(schema, "properties"@);
        json::lemma_member_below(schema, "items"@);
    }
    let deeper = if name is Some {
        indent + "  "@
    } else {
        indent
    };
    let properties = match schema.get("properties"@) {
        Some(properties) => match properties {
            JsonView::Object(entries) => property_lines(properties, entries.len(), deeper),
            _ => Seq::empty(),
        },
        None => Seq::empty(),
    };
    let items = match schema.get("items"@) {
        Some(items) => schema_lines(items, Some("items[]"@), deeper),
        None => Seq::empty(),
    };
    seq![schema_line(schema, name, indent)] + properties + items
}

/// The outlines of the first `n` properties.
pub open spec fn property_lines(properties: JsonView, n: nat, indent: Seq<char>) -> Seq<Seq<char>>
    decreases properties, n,
{
    match properties {
        JsonView::Object(entries) => if n == 0 || n > entries.len() {
            Seq::empty()
        } else {
            proof {
                json::lemma_entry_below(properties, n - 1);
            }
            property_lines(properties, (n - 1) as nat, indent) + schema_lines(
                entries[n - 1].1,
                Some(entries[n - 1].0),
                indent,
            )
        },
        _ => Seq::empty(),
    }
}

/// The guidance that a schema gives to the free answer.
pub open spec fn guidance(schema: JsonView) -> Seq<char> {
    text::joined_lines(
        seq!["Please answer the above question with the following structure:"@] + schema_lines(
            schema,
            None,
            Seq::empty(),
        ),
    )
}

fn own_line(schema: &Json, name: Option<&str>, indent: &str) -> (line: String)
    ensures
        line@ == schema_line(schema@, json::opt_text(name), indent@),
{
    let described = match schema.get_str("description") {
        Some(text) => Some(text),
        None => schema.get_str("title"),
    };
    let kind = schema.get_str("type");
    let mut line = indent.to_owned();
    match name {
        None => {
            match described {
                Some(description) => {
                    line.append(description);
                    line.append(":");
                },
                None => match kind {
                    Some(kind) => {
                        line.append(kind);
                        line.append(":");
                    },
                    None => {
                        line.append("response:");
                    },
                },
            }
        },
        Some(name) => {
            line.append("- ");
            line.append(name);
            match described {
                Some(description) => {
                    line.append(": ");
                    line.append(description);
                },
                None => match kind {
                    Some(kind) => {
                        line.append(": ");
                        line.append(kind);
                    },
                    None => {},
                },
            }
        },
    }
    line
}

fn append_schema_lines(schema: &Json, name: Option<&str>, indent: &str, lines: &mut Vec<String>)
    ensures
        text::texts(final(lines)@) == text::texts(old(lines)@) + schema_lines(
            schema@,
            json::opt_text(name),
            indent@,
        ),
    decreases schema@,
{
    broadcast use text::lemma_texts_push;

    let ghost start = text::texts(lines@);
    let ghost own = schema_line(schema@, json::opt_text(name), indent@);
    proof {
        json::lemma_member_below(schema@, "properties"@);
        json::lemma_member_below(schema@, "items"@);
    }
    lines.push(own_line(schema, name, indent));
    let mut deeper = indent.to_owned();
    if name.is_some() {
        deeper.append("  ");
    }
    let ghost mut told = start.push(own);
    if let Some(properties) = schema.get("properties") {
        if let Some(object) = properties.as_object() {
            let ghost tree = properties@;
            let mut i: usize = 0;
            assert(told + property_lines(tree, 0, deeper@) =~= told);
            while i < object.len()
                invariant
                    i <= object@.len(),
                    tree == JsonView::Object(object@),
                    decreases_to!(schema@ => tree),
                    text::texts(lines@) == told + property_lines(tree, i as nat, deeper@),
                decreases object@.len() - i,
            {
                proof {
                    json::lemma_entry_below(tree, i as int);
                }
                let (key, member) = object.entry(i);
                append_schema_lines(member, Some(key.as_str()), deeper.as_str(), lines);
                assert(told + property_lines(tree, i as nat, deeper@) + schema_lines(
                    member@,
                    Some(key@),
                    deeper@,
                ) =~= told + property_lines(tree, (i + 1) as nat, deeper@));
                i += 1;
            }
            proof {
                told = told + property_lines(tree, i as nat, deeper@);
            }
        }
    }
    if let Some(items) = schema.get("items") {
        append_schema_lines(items, Some("items[]"), deeper.as_str(), lines);
    }
    assert(text::texts(lines@) =~= start + schema_lines(
        schema@,
        json::opt_text(name),
        indent@,
    ));
}

/// The guidance that a schema gives to the free answer.
pub fn schema_guidance(schema: &Json) -> (result: String)
    ensures
        result@ == guidance(schema@),
{
    let mut lines: Vec<String> = Vec::new();
    lines.push("Please answer the above question with the following structure:".to_owned());
    assert(text::texts(lines@) =~= seq![
        "Please answer the above question with the following structure:"@,
    ]);
    proof {
        reveal_strlit("");
        assert(""@ =~= Seq::empty());
    }
    append_schema_lines(schema, None, "", &mut lines);
    text::join_lines(&lines)
}

/// The position of the last message of the user.
pub open spec fn last_user(messages: Seq<MessageView>) -> Option<int>
    decreases messages.len(),
{
    if messages.len() == 0 {
        None
    } else if messages.last().role == "user"@ {
        Some(messages.len() - 1)
    } else {
        last_user(messages.drop_last())
    }
}

/// The question of the user under the guidance of a schema.
pub open spec fn guided_question(question: Seq<char>, schema: JsonView) -> JsonView {
    JsonView::Text("Question: "@ + text::trimmed(question) + "\n"@ + guidance(schema))
}

/// The messages of the first pass: the last question is put under the schema's guidance. Where
/// there is none that is text, the guidance is a message of its own.
pub open spec fn first_pass(messages: Seq<MessageView>, schema: JsonView) -> Seq<MessageView> {
    let alone = messages.push(MessageView::plain("user"@, guidance(schema)));
    match last_user(messages) {
        Some(at) => match messages[at].content {
            Some(JsonView::Text(question)) => messages.update(
                at,
                MessageView {
                    content: Some(guided_question(question, schema)),
                    ..messages[at]
                },
            ),
            _ => alone,
        },
        None => alone,
    }
}

fn find_last_user(messages: &[Message]) -> (at: Option<usize>)
    ensures
        match at {
            Some(at) => at < messages@.len() && last_user(
                conversation::message_views(messages@),
            ) == Some(at as int),
            None => last_user(conversation::message_views(messages@)) is None,
        },
{
    let ghost all = conversation::message_views(messages@);
    let mut i: usize = messages.len();
    assert(all.take(i as int) =~= all);
    while i > 0
        invariant
            i <= messages@.len(),
            all == conversation::message_views(messages@),
            last_user(all) == last_user(all.take(i as int)),
        decreases i,
    {
        assert(all.take(i as int).drop_last() =~= all.take(i - 1));
        i -= 1;
        if text::same(messages[i].role.as_str(), "user") {
            return Some(i);
        }
    }
    None
}

/// The messages of the first pass.
pub fn apply_first_pass_prompt(messages: &[Message], schema: &Json) -> (out: Vec<Message>)
    ensures
        conversation::message_views(out@) == first_pass(
            conversation::message_views(messages@),
            schema@,
        ),
{
    let ghost all = conversation::message_views(messages@);
    let guidance = schema_guidance(schema);
    let mut out = conversation::copy_all(messages);
    assert(out@.len() == messages@.len()) by {
        assert(conversation::message_views(out@).len() == all.len());
    }
    if let Some(at) = find_last_user(messages) {
        if let Some(content) = &messages[at].content {
            if let Some(question) = content.as_str() {
                let mut prompt = "Question: ".to_owned();
                prompt.append(text::trim(question));
                prompt.append("\n");
                prompt.append(guidance.as_str());
                let guided = Message {
                    role: messages[at].role.clone(),
                    content: Some(Json::Text(prompt)),
                    extra: messages[at].extra.clone(),
                };
                let ghost before = conversation::message_views(out@);
                out.set(at, guided);
                assert(conversation::message_views(out@) =~= before.update(at as int, guided@));
                return out;
            }
        }
    }
    let ghost before = conversation::message_views(out@);
    out.push(Message::user(guidance));
    assert(conversation::message_views(out@) =~= before.push(out@.last()@));
    out
}

/// What the first pass hands to the second: the answer, or the tool calls in its place.
pub open spec fn draft(first: ProspectView) -> Seq<char> {
    if text::trimmed(first.content).len() > 0 {
        first.content
    } else if first.tool_calls.len() == 0 {
        Seq::empty()
    } else {
        bridge::pretty(JsonView::Array(first.tool_calls))
    }
}

fn draft_text(first: &Prospect) -> (result: String)
    ensures
        result@ == draft(first@),
{
    if !text::is_empty(text::trim(first.content.as_str())) {
        return first.content.clone();
    }
    if first.tool_calls.len() == 0 {
        let none = String::new();
        assert(none@ =~= Seq::empty());
        return none;
    }
    Json::array_of(first.tool_calls.as_slice()).to_pretty()
}

/// The demand of the second pass.
pub open spec fn conversion_demand() -> Seq<char> {
    "Convert the assistant answer into JSON that validates against the provided schema. Return only the JSON value."@
}

/// The messages of the second pass: those of the first, its answer, and the demand to convert it.
pub open spec fn second_pass(messages: Seq<MessageView>, first: ProspectView) -> Seq<MessageView> {
    messages.push(MessageView::plain("assistant"@, draft(first))).push(
        MessageView::plain("user"@, conversion_demand()),
    )
}

/// The messages of the second pass.
pub fn second_pass_messages(first_pass_messages: &[Message], first: &Prospect) -> (out: Vec<Message>)
    ensures
        conversation::message_views(out@) == second_pass(
            conversation::message_views(first_pass_messages@),
            first@,
        ),
{
    let ghost all = conversation::message_views(first_pass_messages@);
    let mut out = conversation::copy_all(first_pass_messages);
    assert(out@.len() == all.len()) by {
        assert(conversation::message_views(out@).len() == all.len());
    }
    let ghost before = out@;
    out.push(Message::assistant(draft_text(first)));
    out.push(
        Message::user(
            "Convert the assistant answer into JSON that validates against the provided schema. Return only the JSON value.".to_owned(),
        ),
    );
    proof {
        let views = conversation::message_views(out@);
        assert forall|i: int| 0 <= i < all.len() implies #[trigger] views[i] == all[i] by {
            assert(conversation::message_views(before)[i] == all[i]);
        }
        assert(views =~= second_pass(all, first@));
    }
    out
}

/// The JSON that the second pass returned, or what is wrong with it.
pub open spec fn constrained_of(content: Seq<char>) -> Result<JsonView, Seq<char>> {
    let trimmed = text::trimmed(content);
    if trimmed.len() == 0 {
        Err("schema-constrained pass returned empty content"@)
    } else {
        match bridge::parsed(trimmed) {
            Ok(value) => Ok(value),
            Err(message) => Err("schema-constrained pass returned invalid JSON: "@ + message),
        }
    }
}

/// Reads the JSON that the second pass returned.
pub fn parse_constrained_response(content: &str) -> (result: Result<Json, String>)
    ensures
        json_result(result) == constrained_of(content@),
{
    let trimmed = text::trim(content);
    if text::is_empty(trimmed) {
        return Err("schema-constrained pass returned empty content".to_owned());
    }
    match Json::parse(trimmed) {
        Ok(value) => Ok(value),
        Err(message) => Err(
            text::concat(
                "schema-constrained pass returned invalid JSON: ",
                message.as_str(),
            ),
        ),
    }
}

/// The demand for a schema in a Chat Completions request.
pub open spec fn chat_format(schema: JsonView) -> JsonView {
    JsonView::Object(
        seq![
            ("type"@, JsonView::Text("json_schema"@)),
            (
                "json_schema"@,
                JsonView::Object(
                    seq![
                        ("name"@, JsonView::Text("mii_text_constrained_response"@)),
                        ("schema"@, schema),
                    ],
                ),
            ),
        ],
    )
}

/// The demand for a schema in a Responses request.
pub open spec fn responses_format(schema: JsonView) -> JsonView {
    JsonView::Object(
        seq![
            (
                "format"@,
                JsonView::Object(
                    seq![
                        ("type"@, JsonView::Text("json_schema"@)),
                        ("name"@, JsonView::Text("mii_text_constrained_response"@)),
                        ("schema"@, schema),
                    ],
                ),
            ),
        ],
    )
}

proof fn lemma_format_names()
    ensures
        "type"@ != "name"@,
        "type"@.len() == 4,
        "name"@.len() == 4,
        "schema"@.len() == 6,
        "json_schema"@.len() == 11,
{
    reveal_strlit("type");
    reveal_strlit("name");
    reveal_strlit("schema");
    reveal_strlit("json_schema");
    assert("type"@[0] != "name"@[0]);
}

/// The demand for a schema in a Chat Completions request.
pub fn response_format_for_chat(schema: &Json) -> (format: Json)
    ensures
        format@ == chat_format(schema@),
{
    proof {
        lemma_format_names();
    }
    let named = Object::new().add("name", Json::text("mii_text_constrained_response"));
    let named = named.add("schema", schema.clone());
    let format = Object::new().add("type", Json::text("json_schema"));
    let format = format.add("json_schema", Json::Object(named));
    assert(named@ =~= chat_format(schema@)->Object_0[1].1->Object_0);
    assert(format@ =~= chat_format(schema@)->Object_0);
    Json::Object(format)
}

/// The demand for a schema in a Responses request.
pub fn text_format_for_responses(schema: &Json) -> (format: Json)
    ensures
        format@ == responses_format(schema@),
{
    proof {
        lemma_format_names();
    }
    let inner = Object::new().add("type", Json::text("json_schema"));
    let inner = inner.add("name", Json::text("mii_text_constrained_response"));
    let inner = inner.add("schema", schema.clone());
    let format = Object::new().add("format", Json::Object(inner));
    assert(inner@ =~= responses_format(schema@)->Object_0[0].1->Object_0);
    assert(format@ =~= responses_format(schema@)->Object_0);
    Json::Object(format)
}

proof fn lemma_last_user(messages: Seq<MessageView>)
    ensures
        match last_user(messages) {
            Some(at) => {
                &&& 0 <= at < messages.len()
                &&& messages[at].role == "user"@
                &&& forall|i: int|
                    at < i < messages.len() ==> (#[trigger] messages[i]).role != "user"@
            },
            None => forall|i: int|
                0 <= i < messages.len() ==> (#[trigger] messages[i]).role != "user"@,
        },
    decreases messages.len(),
{
    if messages.len() > 0 && messages.last().role != "user"@ {
        lemma_last_user(messages.drop_last());
        assert forall|i: int|
            (match last_user(messages) {
                Some(at) => at < i,
                None => 0 <= i,
            }) && i < messages.len() implies (#[trigger] messages[i]).role != "user"@ by {
            if i < messages.len() - 1 {
                assert(messages.drop_last()[i] == messages[i]);
            }
        }
    }
}

/// Putting a conversation under a schema's guidance touches one message at most, the last of
/// the user, and of that one the content alone; every other message is what it was.
pub proof fn law_first_pass_keeps_the_rest(
    messages: Seq<MessageView>,
    schema: JsonView,
    at: int,
)
    requires
        0 <= at < messages.len(),
    ensures
        first_pass(messages, schema).len() >= messages.len(),
        last_user(messages) != Some(at) ==> first_pass(messages, schema)[at] == messages[at],
        first_pass(messages, schema)[at].role == messages[at].role,
        first_pass(messages, schema)[at].extra == messages[at].extra,
{
    lemma_last_user(messages);
}

/// The schema reaches either provider as it is, under the name of the answer it constrains.
pub proof fn law_formats_carry_the_schema(schema: JsonView)
    ensures
        chat_format(schema).get("type"@) == Some(JsonView::Text("json_schema"@)),
        chat_format(schema).get("json_schema"@) matches Some(held) && held.get("schema"@) == Some(
            schema,
        ) && held.get("name"@) == Some(JsonView::Text("mii_text_constrained_response"@)),
        responses_format(schema).get("format"@) matches Some(held) && held.get("type"@) == Some(
            JsonView::Text("json_schema"@),
        ) && held.get("schema"@) == Some(schema) && held.get("name"@) == Some(
            JsonView::Text("mii_text_constrained_response"@),
        ),
{
    lemma_format_names();
    reveal_strlit("format");
    let none: Entries = Seq::empty();
    let name = ("name"@, JsonView::Text("mii_text_constrained_response"@));
    let kind = ("type"@, JsonView::Text("json_schema"@));
    let held = ("schema"@, schema);
    let inner: Entries = seq![name, held];
    assert(inner =~= none.push(name).push(held));
    let outer: Entries = seq![kind, ("json_schema"@, JsonView::Object(inner))];
    assert(outer =~= none.push(kind).push(("json_schema"@, JsonView::Object(inner))));
    let flat: Entries = seq![kind, name, held];
    assert(flat =~= none.push(kind).push(name).push(held));
    let format: Entries = seq![("format"@, JsonView::Object(flat))];
    assert(format =~= none.push(("format"@, JsonView::Object(flat))));
}

/// How many lines the first `n` members of an object take, each outlined under its key.
pub open spec fn lines_taken(entries: Entries, n: nat, indent: Seq<char>) -> nat
    decreases n,
{
    if n == 0 {
        0
    } else {
        lines_taken(entries, (n - 1) as nat, indent) + schema_lines(
            entries[n - 1].1,
            Some(entries[n - 1].0),
            indent,
        ).len()
    }
}

proof fn lemma_member_block(entries: Entries, at: int, n: nat, indent: Seq<char>)
    requires
        0 <= at <= n <= entries.len(),
    ensures
        ({
            let lines = property_lines(JsonView::Object(entries), n, indent);
            let start = lines_taken(entries, at as nat, indent) as int;
            &&& lines.len() == lines_taken(entries, n, indent)
            &&& start <= lines.len()
            &&& at < n ==> {
                let outline = schema_lines(entries[at].1, Some(entries[at].0), indent);
                &&& start + outline.len() <= lines.len()
                &&& lines.subrange(start, start + outline.len()) == outline
            }
        }),
    decreases n,
{
    let object = JsonView::Object(entries);
    let lines = property_lines(object, n, indent);
    if n > 0 {
        let fewer = property_lines(object, (n - 1) as nat, indent);
        let last = schema_lines(entries[n - 1].1, Some(entries[n - 1].0), indent);
        let start = lines_taken(entries, at as nat, indent) as int;
        lemma_member_block(entries, n - 1, (n - 1) as nat, indent);
        if at < n {
            lemma_member_block(entries, at, (n - 1) as nat, indent);
            let outline = schema_lines(entries[at].1, Some(entries[at].0), indent);
            assert(lines.subrange(start, start + outline.len()) =~= outline) by {
                if at < n - 1 {
                    assert(lines.subrange(start, start + outline.len()) =~= fewer.subrange(
                        start,
                        start + outline.len(),
                    ));
                }
            }
        }
    }
}

/// The outline of a schema, whatever its name and its description are: first a line of its
/// own, then for each of its properties in order the whole outline of that property under its
/// key, last that of its items. What is below a schema with a name stands further in.
pub proof fn law_outline_is_complete(
    schema: JsonView,
    name: Option<Seq<char>>,
    indent: Seq<char>,
    properties: Entries,
    at: int,
)
    requires
        schema.get("properties"@) == Some(JsonView::Object(properties)),
        0 <= at < properties.len(),
    ensures
        ({
            let outline = schema_lines(schema, name, indent);
            let deeper = match name {
                Some(_) => indent + "  "@,
                None => indent,
            };
            let (key, member) = properties[at];
            let below = schema_lines(member, Some(key), deeper);
            let start = 1 + lines_taken(properties, at as nat, deeper) as int;
            let after = match schema.get("items"@) {
                Some(items) => schema_lines(items, Some("items[]"@), deeper),
                None => Seq::empty(),
            };
            let end = 1 + lines_taken(properties, properties.len(), deeper);
            &&& outline.len() == end + after.len()
            &&& start + below.len() <= end
            &&& outline.subrange(start, start + below.len()) == below
            &&& outline.subrange(end as int, outline.len() as int) == after
            &&& outline[start] == below[0]
            &&& forall|line: Seq<char>| below.contains(line) ==> #[trigger] outline.contains(line)
            &&& forall|line: Seq<char>| after.contains(line) ==> #[trigger] outline.contains(line)
        }),
{
    let outline = schema_lines(schema, name, indent);
    let deeper = match name {
        Some(_) => indent + "  "@,
        None => indent,
    };
    let (key, member) = properties[at];
    let below = schema_lines(member, Some(key), deeper);
    let start = 1 + lines_taken(properties, at as nat, deeper) as int;
    let after = match schema.get("items"@) {
        Some(items) => schema_lines(items, Some("items[]"@), deeper),
        None => Seq::empty(),
    };
    let lines = property_lines(JsonView::Object(properties), properties.len(), deeper);
    lemma_member_block(properties, at, properties.len(), deeper);
    let own = seq![schema_line(schema, name, indent)];
    assert(outline == own + lines + after);
    let end = own.len() + lines.len();
    assert(outline.subrange(start, start + below.len()) =~= below) by {
        assert(outline.subrange(start, start + below.len()) =~= lines.subrange(
            start - 1,
            start - 1 + below.len() as int,
        ));
    }
    assert(outline.subrange(end as int, outline.len() as int) =~= after);
    assert(below.len() > 0);
    assert(outline.subrange(start, start + below.len())[0] == outline[start]);
    assert forall|line: Seq<char>| below.contains(line) implies #[trigger] outline.contains(
        line,
    ) by {
        let i = choose|i: int| 0 <= i < below.len() && below[i] == line;
        assert(outline.subrange(start, start + below.len())[i] == outline[start + i]);
    }
    assert forall|line: Seq<char>| after.contains(line) implies #[trigger] outline.contains(
        line,
    ) by {
        let i = choose|i: int| 0 <= i < after.len() && after[i] == line;
        assert(outline.subrange(end as int, outline.len() as int)[i] == outline[end + i]);
    }
}

/// The outline of a schema without properties: a line of its own, and that of its items.
pub proof fn law_outline_without_properties(
    schema: JsonView,
    name: Option<Seq<char>>,
    indent: Seq<char>,
)
    requires
        !(schema.get("properties"@) matches Some(JsonView::Object(_))),
    ensures
        ({
            let outline = schema_lines(schema, name, indent);
            let deeper = match name {
                Some(_) => indent + "  "@,
                None => indent,
            };
            match schema.get("items"@) {
                Some(items) => outline.skip(1) == schema_lines(items, Some("items[]"@), deeper),
                None => outline.len() == 1,
            }
        }),
{
    let outline = schema_lines(schema, name, indent);
    if let Some(items) = schema.get("items"@) {
        let deeper = match name {
            Some(_) => indent + "  "@,
            None => indent,
        };
        assert(outline.skip(1) =~= schema_lines(items, Some("items[]"@), deeper));
    }
}

/// The line of a schema's own: its name, and the first there is of its description, its title
/// and its type.
pub proof fn law_own_line(schema: JsonView, name: Option<Seq<char>>, indent: Seq<char>)
    ensures
        schema_lines(schema, name, indent).len() > 0,
        ({
            let told = match schema.get_str("description"@) {
                Some(text) => Some(text),
                None => match schema.get_str("title"@) {
                    Some(text) => Some(text),
                    None => schema.get_str("type"@),
                },
            };
            schema_lines(schema, name, indent)[0] == (match (name, told) {
                (Some(name), Some(told)) => indent + "- "@ + name + ": "@ + told,
                (Some(name), None) => indent + "- "@ + name,
                (None, Some(told)) => indent + told + ":"@,
                (None, None) => indent + "response:"@,
            })
        }),
{
}

/// The guidance is the demand and, line by line, the outline of the schema.
pub proof fn law_guidance_is_the_outline(schema: JsonView)
    ensures
        guidance(schema) == "Please answer the above question with the following structure:"@
            + "\n"@ + text::joined_lines(schema_lines(schema, None, Seq::empty())),
{
    let outline = schema_lines(schema, None, Seq::empty());
    text::law_first_line(
        "Please answer the above question with the following structure:"@,
        outline,
    );
}

/// The last question of the user is put under the guidance; its message stays what it is
/// otherwise, and all other messages stay.
pub proof fn law_last_question_is_guided(
    messages: Seq<MessageView>,
    schema: JsonView,
    at: int,
    question: Seq<char>,
)
    requires
        0 <= at < messages.len(),
        messages[at].role == "user"@,
        forall|i: int| at < i < messages.len() ==> (#[trigger] messages[i]).role != "user"@,
        messages[at].content == Some(JsonView::Text(question)),
    ensures
        ({
            let asked = first_pass(messages, schema);
            &&& asked.len() == messages.len()
            &&& asked[at].role == "user"@
            &&& asked[at].extra == messages[at].extra
            &&& asked[at].content == Some(
                JsonView::Text(
                    "Question: "@ + text::trimmed(question) + "\n"@ + guidance(schema),
                ),
            )
            &&& forall|i: int|
                0 <= i < messages.len() && i != at ==> #[trigger] asked[i] == messages[i]
        }),
{
    lemma_last_user_at(messages, at);
}

proof fn lemma_last_user_at(messages: Seq<MessageView>, at: int)
    requires
        0 <= at < messages.len(),
        messages[at].role == "user"@,
        forall|i: int| at < i < messages.len() ==> (#[trigger] messages[i]).role != "user"@,
    ensures
        last_user(messages) == Some(at),
    decreases messages.len(),
{
    if at < messages.len() - 1 {
        assert(messages.last().role != "user"@);
        lemma_last_user_at(messages.drop_last(), at);
    }
}

proof fn lemma_no_last_user(messages: Seq<MessageView>)
    requires
        forall|i: int| 0 <= i < messages.len() ==> (#[trigger] messages[i]).role != "user"@,
    ensures
        last_user(messages) is None,
    decreases messages.len(),
{
    if messages.len() > 0 {
        assert(messages.last().role != "user"@);
        lemma_no_last_user(messages.drop_last());
    }
}

/// Where there is no question of the user, or the last is no text, the guidance is asked as a
/// question of its own behind all messages.
pub proof fn law_guidance_alone(messages: Seq<MessageView>, schema: JsonView, at: int)
    requires
        forall|i: int| at < i < messages.len() ==> (#[trigger] messages[i]).role != "user"@,
        at == -1 || 0 <= at < messages.len() && messages[at].role == "user"@ && !(
        messages[at].content matches Some(JsonView::Text(_))),
    ensures
        ({
            let asked = first_pass(messages, schema);
            &&& asked.len() == messages.len() + 1
            &&& asked.drop_last() == messages
            &&& asked.last().role == "user"@
            &&& asked.last().content == Some(JsonView::Text(guidance(schema)))
            &&& asked.last().extra.len() == 0
        }),
{
    if at >= 0 {
        lemma_last_user_at(messages, at);
    } else {
        lemma_no_last_user(messages);
    }
    assert(first_pass(messages, schema).drop_last() =~= messages);
}

/// The second pass adds the answer of the first, and the demand to convert it.
pub proof fn law_second_pass_converts_the_answer(
    messages: Seq<MessageView>,
    first: ProspectView,
)
    ensures
        ({
            let asked = second_pass(messages, first);
            let answer = asked[messages.len() as int];
            &&& asked.len() == messages.len() + 2
            &&& asked.take(messages.len() as int) == messages
            &&& answer.role == "assistant"@
            &&& answer.extra.len() == 0
            &&& text::trimmed(first.content).len() > 0 ==> answer.content == Some(
                JsonView::Text(first.content),
            )
            &&& text::trimmed(first.content).len() == 0 && first.tool_calls.len() > 0
                ==> answer.content == Some(
                JsonView::Text(bridge::pretty(JsonView::Array(first.tool_calls))),
            )
            &&& asked.last().role == "user"@
            &&& asked.last().extra.len() == 0
            &&& asked.last().content == Some(
                JsonView::Text(
                    "Convert the assistant answer into JSON that validates against the provided schema. Return only the JSON value."@,
                ),
            )
        }),
{
    assert(second_pass(messages, first).take(messages.len() as int) =~= messages);
}

/// The answer of the second pass is the value that its text says, white space around it aside.
pub proof fn law_constrained_answer(content: Seq<char>)
    ensures
        match bridge::parsed(text::trimmed(content)) {
            Ok(value) => text::trimmed(content).len() > 0 ==> constrained_of(content) == Ok::<
                JsonView,
                Seq<char>,
            >(value),
            Err(message) => text::trimmed(content).len() > 0 ==> constrained_of(content) == Err::<
                JsonView,
                Seq<char>,
            >("schema-constrained pass returned invalid JSON: "@ + message),
        },
        text::trimmed(content).len() == 0 ==> constrained_of(content) == Err::<JsonView, Seq<char>>(
            "schema-constrained pass returned empty content"@,
        ),
{
}

/// A schema is an object, given as text or in a file. The text comes first.
pub proof fn law_schema_is_an_object(
    raw: Seq<char>,
    contents: Seq<char>,
    read: Result<Seq<char>, Seq<char>>,
)
    ensures
        schema_of(raw, read) matches Ok(schema) ==> schema is Object,
        bridge::parsed(raw) matches Ok(schema) ==> (schema_of(raw, read) == (if schema is Object {
            Ok::<JsonView, Seq<char>>(schema)
        } else {
            Err::<JsonView, Seq<char>>("--schema must be a JSON schema object"@)
        })),
        bridge::parsed(raw) is Err ==> (bridge::parsed(contents) matches Ok(schema) ==> schema_of(
            raw,
            Ok(contents),
        ) == (if schema is Object {
            Ok::<JsonView, Seq<char>>(schema)
        } else {
            Err::<JsonView, Seq<char>>("--schema must be a JSON schema object"@)
        })),
        bridge::parsed(raw) is Err ==> (read matches Err(message) ==> schema_of(raw, read) == Err::<
            JsonView,
            Seq<char>,
        >("failed to parse --schema as JSON or read "@ + raw + ": "@ + message)),
{
}

} // verus!
