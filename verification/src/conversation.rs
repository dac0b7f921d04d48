//! Messages and conversations: reading them, keeping them in a file, and handing them to a
//! provider.
use vstd::prelude::*;
use vstd::string::*;

use crate::bridge;
use crate::json;
use crate::json::{Entries, Json, JsonView, Object};
use crate::output;
use crate::output::{ContinuationView, ProviderContinuation};
use crate::text;

verus! {

broadcast use json::group_lookup;

/// A message of a conversation. What it holds besides its role and content is kept.
#[derive(Debug, PartialEq)]
pub struct Message {
    /// Empty where the message has no role.
    pub role: String,
    pub content: Option<Json>,
    pub extra: Object,
}

pub struct MessageView {
    pub role: Seq<char>,
    pub content: Option<JsonView>,
    pub extra: Entries,
}

impl View for Message {
    type V = MessageView;

    open spec fn view(&self) -> MessageView {
        MessageView {
            role: self.role@,
            content: json::opt_json(self.content),
            extra: self.extra@,
        }
    }
}

/// What each of the messages says.
pub open spec fn message_views(messages: Seq<Message>) -> Seq<MessageView> {
    Seq::new(messages.len(), |i: int| messages[i]@)
}

impl MessageView {
    /// A message with a role and a text, and nothing else.
    pub open spec fn plain(role: Seq<char>, content: Seq<char>) -> MessageView {
        MessageView { role, content: Some(JsonView::Text(content)), extra: Seq::empty() }
    }

    /// The message as it is sent. A constrained answer that is kept with it is not sent.
    pub open spec fn api_value(self) -> JsonView {
        let sent = json::without(self.extra, "constrained"@);
        let named = if self.role.len() > 0 {
            json::insert(sent, "role"@, JsonView::Text(self.role))
        } else {
            sent
        };
        JsonView::Object(
            match self.content {
                Some(content) => json::insert(named, "content"@, content),
                None => named,
            },
        )
    }

    /// The members that come before the others when the message is kept.
    pub open spec fn head(self) -> Entries {
        let none: Entries = Seq::empty();
        let named = if self.role.len() > 0 {
            none.push(("role"@, JsonView::Text(self.role)))
        } else {
            none
        };
        match self.content {
            Some(content) => named.push(("content"@, content)),
            None => named,
        }
    }

    /// The message as it is kept.
    pub open spec fn json(self) -> JsonView {
        JsonView::Object(json::extend(self.head(), self.extra))
    }

    /// A message that is kept without loss: its content is not null, and role and content do
    /// not stand among the rest.
    pub open spec fn valid(self) -> bool {
        &&& self.content != Some(JsonView::Null)
        &&& json::distinct_keys(self.extra)
        &&& json::lookup(self.extra, "role"@) is None
        &&& json::lookup(self.extra, "content"@) is None
    }
}

/// The message that an object says.
pub open spec fn message_of(value: JsonView) -> Option<MessageView> {
    match value {
        JsonView::Object(entries) => {
            let content = match json::lookup(entries, "content"@) {
                Some(JsonView::Null) => None,
                held => held,
            };
            let extra = json::without(json::without(entries, "role"@), "content"@);
            match json::lookup(entries, "role"@) {
                None => Some(MessageView { role: Seq::empty(), content, extra }),
                Some(JsonView::Text(role)) => Some(MessageView { role, content, extra }),
                Some(_) => None,
            }
        },
        _ => None,
    }
}

/// The messages that an array says, or what is wrong with it.
pub open spec fn messages_of(value: JsonView) -> Result<Seq<MessageView>, Seq<char>> {
    match value {
        JsonView::Array(items) => if forall|i: int|
            0 <= i < items.len() ==> message_of(#[trigger] items[i]) is Some {
            Ok(Seq::new(items.len(), |i: int| message_of(items[i])->0))
        } else {
            Err("each message must be an object, with a text as its role"@)
        },
        _ => Err("expected an array of messages"@),
    }
}

/// The messages that a JSON text says. `label` stands before what is wrong with it.
pub open spec fn parsed_messages(raw: Seq<char>, label: Seq<char>) -> Result<
    Seq<MessageView>,
    Seq<char>,
> {
    match bridge::parsed(raw) {
        Ok(value) => match messages_of(value) {
            Ok(messages) => Ok(messages),
            Err(message) => Err(label + message),
        },
        Err(message) => Err(label + message),
    }
}

/// What a function that reads messages returns.
pub open spec fn messages_result(result: Result<Vec<Message>, String>) -> Result<
    Seq<MessageView>,
    Seq<char>,
> {
    match result {
        Ok(messages) => Ok(message_views(messages@)),
        Err(message) => Err(message@),
    }
}

impl Clone for Message {
    fn clone(&self) -> (copy: Message)
        ensures
            copy@ == self@,
    {
        Message {
            role: self.role.clone(),
            content: json::copy_opt(&self.content),
            extra: self.extra.clone(),
        }
    }
}

/// Copies of the messages.
pub fn copy_all(messages: &[Message]) -> (copies: Vec<Message>)
    ensures
        message_views(copies@) == message_views(messages@),
{
    let mut copies: Vec<Message> = Vec::new();
    let mut i: usize = 0;
    while i < messages.len()
        invariant
            i <= messages@.len(),
            copies@.len() == i,
            forall|j: int| 0 <= j < i ==> (#[trigger] copies@[j])@ == messages@[j]@,
        decreases messages@.len() - i,
    {
        copies.push(messages[i].clone());
        i += 1;
    }
    assert(message_views(copies@) =~= message_views(messages@));
    copies
}

impl Message {
    fn plain(role: &str, content: String) -> (message: Message)
        ensures
            message@ == MessageView::plain(role@, content@),
    {
        let message = Message {
            role: role.to_owned(),
            content: Some(Json::Text(content)),
            extra: Object::new(),
        };
        message
    }

    pub fn user(content: String) -> (message: Message)
        ensures
            message@ == MessageView::plain("user"@, content@),
    {
        Message::plain("user", content)
    }

    pub fn assistant(content: String) -> (message: Message)
        ensures
            message@ == MessageView::plain("assistant"@, content@),
    {
        Message::plain("assistant", content)
    }

    /// The message as it is sent.
    pub fn to_api_value(&self) -> (value: Json)
        ensures
            value@ == self@.api_value(),
    {
        let mut object = self.extra.clone().remove("constrained");
        if !text::is_empty(self.role.as_str()) {
            object = object.insert("role", Json::Text(self.role.clone()));
        }
        if let Some(content) = &self.content {
            object = object.insert("content", content.clone());
        }
        Json::Object(object)
    }

    /// The message as it is kept.
    pub fn to_json(&self) -> (value: Json)
        ensures
            value@ == self@.json(),
    {
        proof {
            reveal_strlit("role");
            reveal_strlit("content");
            assert("role"@.len() != "content"@.len());
        }
        let mut object = Object::new();
        if !text::is_empty(self.role.as_str()) {
            object = object.add("role", Json::Text(self.role.clone()));
        }
        if let Some(content) = &self.content {
            object = object.add("content", content.clone());
        }
        assert(object@ =~= self@.head());
        Json::Object(object.extend(&self.extra))
    }

    /// The message that an object says.
    pub fn from_json(value: &Json) -> (result: Option<Message>)
        ensures
            match result {
                Some(message) => message_of(value@) == Some(message@),
                None => message_of(value@) is None,
            },
    {
        let object = match value.as_object() {
            Some(object) => object,
            None => return None,
        };
        let role = match object.get("role") {
            None => {
                let none = String::new();
                assert(none@ =~= Seq::empty());
                none
            },
            Some(role) => match role.as_str() {
                Some(role) => role.to_owned(),
                None => return None,
            },
        };
        let content = match object.get("content") {
            None => None,
            Some(content) => if content.is_null() {
                None
            } else {
                Some(content.clone())
            },
        };
        let extra = object.clone().remove("role").remove("content");
        Some(Message { role, content, extra })
    }
}

fn read_messages(value: &Json) -> (result: Result<Vec<Message>, String>)
    ensures
        messages_result(result) == messages_of(value@),
{
    let items = match value.as_array() {
        Some(items) => items,
        None => return Err("expected an array of messages".to_owned()),
    };
    let ghost all = json::views(items@);
    let mut messages: Vec<Message> = Vec::new();
    let mut i: usize = 0;
    while i < items.len()
        invariant
            i <= items@.len(),
            all == json::views(items@),
            messages@.len() == i,
            value@ == JsonView::Array(all),
            forall|j: int|
                0 <= j < i ==> message_of(#[trigger] all[j]) == Some(messages@[j]@),
        decreases items@.len() - i,
    {
        match Message::from_json(&items[i]) {
            Some(message) => messages.push(message),
            None => {
                assert(message_of(all[i as int]) is None);
                return Err(
                    "each message must be an object, with a text as its role".to_owned(),
                );
            },
        }
        i += 1;
    }
    proof {
        assert forall|j: int| 0 <= j < all.len() implies message_of(#[trigger] all[j]) is Some by {
            assert(message_of(all[j]) == Some(messages@[j]@));
        }
        assert(message_views(messages@) =~= Seq::new(all.len(), |j: int| message_of(all[j])->0));
    }
    Ok(messages)
}

fn parse_messages(raw: &str, label: &str) -> (result: Result<Vec<Message>, String>)
    ensures
        messages_result(result) == parsed_messages(raw@, label@),
{
    match Json::parse(raw) {
        Ok(value) => match read_messages(&value) {
            Ok(messages) => Ok(messages),
            Err(message) => Err(text::concat(label, message.as_str())),
        },
        Err(message) => Err(text::concat(label, message.as_str())),
    }
}

/// The messages of the user: those given as an argument, else those of the standard input. In
/// quick mode the whole text is one message.
pub open spec fn input_messages(raw: Seq<char>, quick: bool) -> Result<
    Seq<MessageView>,
    Seq<char>,
> {
    let trimmed = text::trimmed(raw);
    if quick {
        if trimmed.len() == 0 {
            Err("quick mode requires non-empty input"@)
        } else {
            Ok(seq![MessageView::plain("user"@, trimmed)])
        }
    } else if trimmed.len() == 0 {
        Err("no input messages provided"@)
    } else {
        parsed_messages(trimmed, "failed to parse messages json: "@)
    }
}

/// Reads the messages of the user. The standard input is looked at only where no argument
/// gives the messages, and has to be there in that case.
pub fn load_input_messages(messages_arg: &Option<String>, quick: bool, stdin: Option<&str>) -> (result:
    Result<Vec<Message>, String>)
    requires
        messages_arg is Some || stdin is Some,
    ensures
        messages_result(result) == input_messages(
            match *messages_arg {
                Some(raw) => raw@,
                None => stdin->0@,
            },
            quick,
        ),
{
    let raw: &str = match messages_arg {
        Some(raw) => raw.as_str(),
        None => stdin.unwrap(),
    };
    let trimmed = text::trim(raw);
    if quick {
        if text::is_empty(trimmed) {
            return Err("quick mode requires non-empty input".to_owned());
        }
        let messages = vec![Message::user(trimmed.to_owned())];
        assert(message_views(messages@) =~= seq![MessageView::plain("user"@, trimmed@)]);
        return Ok(messages);
    }
    if text::is_empty(trimmed) {
        return Err("no input messages provided".to_owned());
    }
    parse_messages(trimmed, "failed to parse messages json: ")
}

/// The conversation that a file keeps.
pub open spec fn stateful_messages(raw: Seq<char>) -> Result<Seq<MessageView>, Seq<char>> {
    let trimmed = text::trimmed(raw);
    if trimmed.len() == 0 {
        Ok(Seq::empty())
    } else {
        parsed_messages(trimmed, "failed to parse stateful file json: "@)
    }
}

/// Reads the conversation that a file keeps. A file that is missing keeps none.
pub fn load_stateful(contents: Option<&str>) -> (result: Result<Vec<Message>, String>)
    ensures
        match contents {
            Some(raw) => messages_result(result) == stateful_messages(raw@),
            None => result matches Ok(messages) && messages@.len() == 0,
        },
{
    let raw = match contents {
        Some(raw) => raw,
        None => return Ok(Vec::new()),
    };
    let trimmed = text::trim(raw);
    if text::is_empty(trimmed) {
        let none: Vec<Message> = Vec::new();
        assert(message_views(none@) =~= Seq::empty());
        return Ok(none);
    }
    parse_messages(trimmed, "failed to parse stateful file json: ")
}

/// The array that keeps a conversation.
pub open spec fn kept_messages(messages: Seq<MessageView>) -> JsonView {
    JsonView::Array(messages.map_values(|message: MessageView| message.json()))
}

/// The array that keeps a conversation.
pub fn keep(messages: &[Message]) -> (array: Json)
    ensures
        array@ == kept_messages(message_views(messages@)),
{
    let ghost views = message_views(messages@);
    let mut items: Vec<Json> = Vec::new();
    let mut i: usize = 0;
    while i < messages.len()
        invariant
            i <= messages@.len(),
            items@.len() == i,
            forall|j: int| 0 <= j < i ==> (#[trigger] items@[j])@ == messages@[j]@.json(),
        decreases messages@.len() - i,
    {
        items.push(messages[i].to_json());
        i += 1;
    }
    assert(json::views(items@) =~= views.map_values(|message: MessageView| message.json()));
    Json::array(items)
}

/// The text of a file that keeps a conversation. Reading it gives the conversation back.
pub fn save_stateful(messages: &[Message]) -> (text: String)
    ensures
        text@ == bridge::pretty(kept_messages(message_views(messages@))),
        bridge::round_trips(kept_messages(message_views(messages@))) && (forall|i: int|
            0 <= i < messages@.len() ==> (#[trigger] messages@[i])@.valid())
            ==> stateful_messages(text@) == Ok::<Seq<MessageView>, Seq<char>>(
            message_views(messages@),
        ),
{
    let ghost views = message_views(messages@);
    let text = keep(messages).to_pretty();
    proof {
        text::lemma_trimmed(text@);
        if forall|i: int| 0 <= i < messages@.len() ==> (#[trigger] messages@[i])@.valid() {
            assert forall|i: int| 0 <= i < views.len() implies (#[trigger] views[i]).valid() by {
                assert(messages@[i]@.valid());
            }
            law_kept_messages_read_back(views);
        }
    }
    text
}

/// A message survives being kept.
pub proof fn law_message_round_trip(message: MessageView)
    requires
        message.valid(),
    ensures
        message_of(message.json()) == Some(message),
{
    broadcast use json::group_lookup;

    reveal_strlit("role");
    reveal_strlit("content");
    assert("role"@.len() != "content"@.len());
    let head = message.head();
    let extra = message.extra;
    json::lemma_lookup_absent(extra, "role"@);
    json::lemma_lookup_absent(extra, "content"@);
    json::lemma_extend_disjoint(head, extra);
    let all = head + extra;
    json::lemma_without_add(head, extra, "role"@);
    json::lemma_without_absent(extra, "role"@);
    json::lemma_without_add(json::without(head, "role"@), extra, "content"@);
    json::lemma_without_absent(extra, "content"@);
    lemma_lookup_head(head, extra, "role"@);
    lemma_lookup_head(head, extra, "content"@);
    let rest = json::without(json::without(head, "role"@), "content"@);
    json::lemma_lookup_absent(rest, "role"@);
    json::lemma_lookup_absent(rest, "content"@);
    lemma_head_dropped(message);
    assert(rest + extra =~= extra);
    assert(message.role.len() == 0 ==> message.role =~= Seq::empty());
}

proof fn lemma_lookup_head(head: Entries, extra: Entries, key: Seq<char>)
    requires
        json::lookup(extra, key) is None,
    ensures
        json::lookup(head + extra, key) == json::lookup(head, key),
    decreases extra.len(),
{
    if extra.len() == 0 {
        assert(head + extra =~= head);
    } else {
        assert((head + extra).drop_last() =~= head + extra.drop_last());
        lemma_lookup_head(head, extra.drop_last(), key);
    }
}

proof fn lemma_head_dropped(message: MessageView)
    ensures
        json::without(json::without(message.head(), "role"@), "content"@) =~= Entries::empty(),
{
    reveal_strlit("role");
    reveal_strlit("content");
    assert("role"@.len() != "content"@.len());
    reveal_with_fuel(json::without, 3);
    let none: Entries = Seq::empty();
    let role = ("role"@, JsonView::Text(message.role));
    match message.content {
        Some(content) => {
            let entry = ("content"@, content);
            assert(none.push(role).push(entry).drop_last() =~= none.push(role));
            assert(none.push(role).drop_last() =~= none);
            assert(none.push(entry).drop_last() =~= none);
        },
        None => {
            assert(none.push(role).drop_last() =~= none);
        },
    }
}

/// The array that keeps a conversation says the conversation.
pub proof fn law_kept_messages_read_back(messages: Seq<MessageView>)
    requires
        forall|i: int| 0 <= i < messages.len() ==> (#[trigger] messages[i]).valid(),
    ensures
        messages_of(kept_messages(messages)) == Ok::<Seq<MessageView>, Seq<char>>(messages),
{
    let items = messages.map_values(|message: MessageView| message.json());
    assert forall|i: int| 0 <= i < items.len() implies message_of(#[trigger] items[i]) == Some(
        messages[i],
    ) by {
        law_message_round_trip(messages[i]);
    }
    assert(Seq::new(items.len(), |i: int| message_of(items[i])->0) =~= messages);
}

/// Whether a value carries a continuation of a provider: it is marked as one, or it names a
/// provider and holds reasoning items.
pub open spec fn is_continuation(value: JsonView) -> bool {
    ||| value.get_str("type"@) == Some("provider_continuation"@)
    ||| value.get_str("provider"@) is Some && value.get_array("reasoning_items"@) is Some
}

pub fn is_provider_continuation_value(value: &Json) -> (result: bool)
    ensures
        result == is_continuation(value@),
{
    let marked = match value.get_str("type") {
        Some(kind) => text::same(kind, "provider_continuation"),
        None => false,
    };
    marked || (value.get_str("provider").is_some() && value.get_array("reasoning_items").is_some())
}

/// The system prompt as a message, where there is one.
pub open spec fn system_messages(system: Option<Seq<char>>) -> Seq<JsonView> {
    match system {
        Some(prompt) => seq![
            JsonView::Object(
                seq![
                    ("role"@, JsonView::Text("system"@)),
                    ("content"@, JsonView::Text(prompt)),
                ],
            ),
        ],
        None => Seq::empty(),
    }
}

/// The system prompt as a message, where there is one.
pub fn system_part(system: &Option<String>) -> (messages: Vec<Json>)
    ensures
        json::views(messages@) == system_messages(text::opt(*system)),
{
    proof {
        reveal_strlit("role");
        reveal_strlit("content");
        assert("role"@.len() != "content"@.len());
    }
    let mut messages: Vec<Json> = Vec::new();
    if let Some(prompt) = system {
        let object = Object::new().add("role", Json::text("system"));
        let object = object.add("content", Json::Text(prompt.clone()));
        assert(object@ =~= system_messages(Some(prompt@))[0]->Object_0);
        messages.push(Json::Object(object));
    }
    assert(json::views(messages@) =~= system_messages(text::opt(*system)));
    messages
}

/// The messages as the Chat Completions API takes them. Continuations of a provider are
/// nothing to it and are left out.
pub open spec fn chat_items(messages: Seq<MessageView>) -> Seq<JsonView>
    decreases messages.len(),
{
    if messages.len() == 0 {
        Seq::empty()
    } else {
        let before = chat_items(messages.drop_last());
        let value = messages.last().api_value();
        if is_continuation(value) {
            before
        } else {
            before.push(value)
        }
    }
}

/// Builds the message array of the Chat Completions API.
pub fn build_chat_messages(system: &Option<String>, messages: &[Message]) -> (out: Vec<Json>)
    ensures
        json::views(out@) == system_messages(text::opt(*system)) + chat_items(
            message_views(messages@),
        ),
{
    broadcast use json::lemma_views_push;

    let ghost all = message_views(messages@);
    let ghost head = system_messages(text::opt(*system));
    let mut out = system_part(system);
    let mut i: usize = 0;
    assert(all.take(0) =~= Seq::empty());
    assert(head + Seq::empty() =~= head);
    while i < messages.len()
        invariant
            i <= messages@.len(),
            all == message_views(messages@),
            json::views(out@) == head + chat_items(all.take(i as int)),
        decreases messages@.len() - i,
    {
        assert(all.take(i + 1).drop_last() =~= all.take(i as int));
        let value = messages[i].to_api_value();
        if !is_provider_continuation_value(&value) {
            let ghost before = chat_items(all.take(i as int));
            out.push(value);
            assert((head + before).push(value@) =~= head + before.push(value@));
        }
        i += 1;
    }
    assert(all.take(i as int) =~= all);
    out
}

/// The answer as a message. A constrained answer stands beside the content.
pub open spec fn answer_message(content: Seq<char>, constrained: Option<JsonView>) -> MessageView {
    MessageView {
        extra: match constrained {
            Some(value) => seq![("constrained"@, value)],
            None => Seq::empty(),
        },
        ..MessageView::plain("assistant"@, content)
    }
}

/// The continuation as a message of its own.
pub open spec fn continuation_message(continuation: ContinuationView) -> MessageView {
    MessageView { role: Seq::empty(), content: None, extra: continuation.entries() }
}

/// The messages that a turn of the assistant adds to a conversation.
pub open spec fn assistant_turn(
    content: Seq<char>,
    continuation: Option<ContinuationView>,
    constrained: Option<JsonView>,
) -> Seq<MessageView> {
    let answer = answer_message(content, constrained);
    match continuation {
        Some(continuation) => seq![answer, continuation_message(continuation)],
        None => seq![answer],
    }
}

/// Adds the answer to a conversation, and after it the continuation that came with it.
pub fn push_assistant_turn(
    conversation: &mut Vec<Message>,
    content: String,
    continuation: &Option<ProviderContinuation>,
    constrained: &Option<Json>,
)
    ensures
        message_views(final(conversation)@) == message_views(old(conversation)@) + assistant_turn(
            content@,
            output::opt_continuation(*continuation),
            json::opt_json(*constrained),
        ),
{
    let ghost before = conversation@;
    let mut answer = Message::assistant(content);
    if let Some(value) = constrained {
        let extra = Object::new().add("constrained", value.clone());
        assert(extra@ =~= seq![("constrained"@, value@)]);
        answer = Message { role: answer.role, content: answer.content, extra };
    }
    assert(answer@ == answer_message(content@, json::opt_json(*constrained)));
    conversation.push(answer);
    if let Some(held) = continuation {
        conversation.push(held.to_message());
    }
    assert(message_views(conversation@) =~= message_views(before) + assistant_turn(
        content@,
        output::opt_continuation(*continuation),
        json::opt_json(*constrained),
    ));
}

impl ProviderContinuation {
    /// The continuation as a message of its own.
    pub fn to_message(&self) -> (message: Message)
        ensures
            message@ == continuation_message(self@),
    {
        let role = String::new();
        assert(role@ =~= Seq::empty());
        Message { role, content: None, extra: self.object() }
    }
}

/// The messages of a turn are kept without loss.
pub proof fn law_assistant_turn_valid(
    content: Seq<char>,
    continuation: Option<ContinuationView>,
    constrained: Option<JsonView>,
)
    ensures
        forall|i: int|
            0 <= i < assistant_turn(content, continuation, constrained).len() ==> (
            #[trigger] assistant_turn(content, continuation, constrained)[i]).valid(),
{
    broadcast use json::group_lookup;

    reveal_strlit("role");
    reveal_strlit("content");
    reveal_strlit("constrained");
    reveal_strlit("provider");
    reveal_strlit("response_id");
    reveal_strlit("reasoning_items");
    assert("role"@.len() == 4 && "content"@.len() == 7 && "constrained"@.len() == 11);
    assert("provider"@.len() == 8 && "response_id"@.len() == 11 && "reasoning_items"@.len() == 15);
    let none: Entries = Seq::empty();
    if let Some(value) = constrained {
        assert(seq![("constrained"@, value)] =~= none.push(("constrained"@, value)));
    }
    if let Some(held) = continuation {
        json::lemma_lookup_absent(held.entries(), "role"@);
        json::lemma_lookup_absent(held.entries(), "content"@);
    }
}

/// A constrained answer that is kept with a message never reaches the provider.
pub proof fn law_constrained_never_sent(message: MessageView)
    ensures
        message.api_value().get("constrained"@) is None,
        message.api_value() == (MessageView {
            extra: json::without(message.extra, "constrained"@),
            ..message
        }).api_value(),
{
    broadcast use json::group_lookup;

    reveal_strlit("role");
    reveal_strlit("content");
    reveal_strlit("constrained");
    assert("role"@.len() == 4 && "content"@.len() == 7 && "constrained"@.len() == 11);
    json::lemma_without_absent(json::without(message.extra, "constrained"@), "constrained"@);
}

/// A continuation is recognised in either shape: as the message that keeps it and as the
/// event of a stream.
pub proof fn law_continuation_recognised(continuation: ContinuationView)
    ensures
        is_continuation(continuation_message(continuation).api_value()),
        is_continuation(continuation.stream_event()),
        continuation_message(continuation).api_value() == continuation.json(),
{
    broadcast use json::group_lookup;

    reveal_strlit("type");
    reveal_strlit("constrained");
    reveal_strlit("provider");
    reveal_strlit("response_id");
    reveal_strlit("reasoning_items");
    assert("type"@.len() == 4 && "constrained"@.len() == 11 && "provider"@.len() == 8);
    assert("response_id"@.len() == 11 && "reasoning_items"@.len() == 15);
    assert("response_id"@[0] != "constrained"@[0]);
    let none: Entries = Seq::empty();
    let head = none.push(("provider"@, JsonView::Text(continuation.provider)));
    let items = ("reasoning_items"@, JsonView::Array(continuation.reasoning_items));
    let entries = match continuation.response_id {
        Some(id) => head.push(("response_id"@, JsonView::Text(id))).push(items),
        None => head.push(items),
    };
    assert(continuation.entries() =~= entries);
    json::lemma_without_absent(entries, "constrained"@);
}

/// Chat Completions requests are the same with and without the continuations of a provider.
pub proof fn law_chat_ignores_continuations(
    before: Seq<MessageView>,
    continuation: ContinuationView,
    after: Seq<MessageView>,
)
    ensures
        chat_items(before.push(continuation_message(continuation)) + after) == chat_items(
            before + after,
        ),
    decreases after.len(),
{
    let message = continuation_message(continuation);
    if after.len() == 0 {
        law_continuation_recognised(continuation);
        assert(before.push(message) + after =~= before.push(message));
        assert(before.push(message).drop_last() =~= before);
        assert(before + after =~= before);
    } else {
        law_chat_ignores_continuations(before, continuation, after.drop_last());
        assert((before.push(message) + after).drop_last() =~= before.push(message)
            + after.drop_last());
        assert((before + after).drop_last() =~= before + after.drop_last());
        assert((before.push(message) + after).last() == after.last());
        assert((before + after).last() == after.last());
    }
}

/// The system prompt is one message of the system; without a prompt there is none.
pub proof fn law_system_prompt_comes_first(system: Option<Seq<char>>)
    ensures
        match system {
            Some(prompt) => {
                &&& system_messages(system).len() == 1
                &&& system_messages(system)[0].get("role"@) == Some(JsonView::Text("system"@))
                &&& system_messages(system)[0].get("content"@) == Some(JsonView::Text(prompt))
            },
            None => system_messages(system).len() == 0,
        },
{
    broadcast use json::group_lookup;

    reveal_strlit("role");
    reveal_strlit("content");
    if let Some(prompt) = system {
        assert("role"@.len() != "content"@.len());
        let none: Entries = Seq::empty();
        let role = ("role"@, JsonView::Text("system"@));
        let content = ("content"@, JsonView::Text(prompt));
        let entries: Entries = seq![role, content];
        assert(entries =~= none.push(role).push(content));
    }
}

/// A message is sent with its role, its content and all of the rest, but for the constrained
/// answer that may be kept with it.
pub proof fn law_message_is_sent_whole(message: MessageView, key: Seq<char>)
    ensures
        message.content matches Some(content) ==> message.api_value().get("content"@) == Some(
            content,
        ),
        message.role.len() > 0 ==> message.api_value().get("role"@) == Some(
            JsonView::Text(message.role),
        ),
        key != "role"@ && key != "content"@ && key != "constrained"@ ==> message.api_value().get(
            key,
        ) == json::lookup(message.extra, key),
        message.api_value().get("constrained"@) is None,
        message.valid() && message.role.len() == 0 ==> message.api_value().get("role"@) is None,
        message.valid() && message.content is None ==> message.api_value().get("content"@) is None,
{
    broadcast use json::group_lookup;

    reveal_strlit("role");
    reveal_strlit("content");
    reveal_strlit("constrained");
    assert("role"@.len() == 4 && "content"@.len() == 7 && "constrained"@.len() == 11);
}

/// A message is kept with its role, its content and all of the rest.
pub proof fn law_message_is_kept_whole(message: MessageView, key: Seq<char>)
    requires
        message.valid(),
    ensures
        message.json().get("content"@) == message.content,
        message.json().get("role"@) == (if message.role.len() > 0 {
            Some(JsonView::Text(message.role))
        } else {
            None
        }),
        key != "role"@ && key != "content"@ ==> message.json().get(key) == json::lookup(
            message.extra,
            key,
        ),
{
    broadcast use json::group_lookup;

    reveal_strlit("role");
    reveal_strlit("content");
    assert("role"@.len() == 4 && "content"@.len() == 7);
    json::law_lookup_extend(message.head(), message.extra, "content"@);
    json::law_lookup_extend(message.head(), message.extra, "role"@);
    json::law_lookup_extend(message.head(), message.extra, key);
}

/// What an object says as a message: its role, its content and the rest. Null is no content.
pub proof fn law_object_read_as_message(entries: Entries, key: Seq<char>)
    ensures
        message_of(JsonView::Object(entries)) is Some <==> (match json::lookup(entries, "role"@) {
            None => true,
            Some(role) => role is Text,
        }),
        message_of(JsonView::Object(entries)) matches Some(message) ==> {
            &&& message.role == (match json::lookup(entries, "role"@) {
                Some(JsonView::Text(role)) => role,
                _ => Seq::empty(),
            })
            &&& message.content == (match json::lookup(entries, "content"@) {
                Some(content) => if content is Null {
                    None
                } else {
                    Some(content)
                },
                None => None,
            })
            &&& json::lookup(message.extra, key) == (if key == "role"@ || key == "content"@ {
                None
            } else {
                json::lookup(entries, key)
            })
        },
{
    broadcast use json::group_lookup;

}

/// The messages of a Chat Completions request: all that are no continuation, in order.
pub proof fn law_chat_messages_in_order(messages: Seq<MessageView>, message: MessageView)
    ensures
        chat_items(Seq::empty()).len() == 0,
        chat_items(messages.push(message)) == ({
            let value = message.api_value();
            if value.get_str("type"@) == Some("provider_continuation"@) || value.get_str(
                "provider"@,
            ) is Some && value.get_array("reasoning_items"@) is Some {
                chat_items(messages)
            } else {
                chat_items(messages).push(value)
            }
        }),
{
    assert(messages.push(message).drop_last() =~= messages);
}

/// A question that is asked quickly is one message of the user, the text without the white
/// space around it.
pub proof fn law_quick_question(raw: Seq<char>)
    ensures
        text::trimmed(raw).len() > 0 ==> (input_messages(raw, true) matches Ok(messages) && {
            &&& messages.len() == 1
            &&& messages[0].role == "user"@
            &&& messages[0].content == Some(JsonView::Text(text::trimmed(raw)))
            &&& messages[0].extra.len() == 0
        }),
        text::trimmed(raw).len() == 0 ==> input_messages(raw, true) == Err::<
            Seq<MessageView>,
            Seq<char>,
        >("quick mode requires non-empty input"@),
        text::trimmed(raw).len() == 0 ==> input_messages(raw, false) == Err::<
            Seq<MessageView>,
            Seq<char>,
        >("no input messages provided"@),
{
}

/// Messages that are given as an array are taken one by one, in order, each with its role, its
/// content and the rest; so are those of a conversation that was kept.
pub proof fn law_given_messages(
    raw: Seq<char>,
    items: Seq<JsonView>,
    at: int,
    entries: Entries,
    key: Seq<char>,
)
    requires
        text::trimmed(raw).len() > 0,
        bridge::parsed(text::trimmed(raw)) == Ok::<JsonView, Seq<char>>(JsonView::Array(items)),
        forall|i: int|
            0 <= i < items.len() ==> (#[trigger] items[i]) is Object && (match items[i].get(
                "role"@,
            ) {
                None => true,
                Some(role) => role is Text,
            }),
        0 <= at < items.len(),
        items[at] == JsonView::Object(entries),
    ensures
        input_messages(raw, false) matches Ok(messages) && {
            &&& messages.len() == items.len()
            &&& messages[at].role == (match json::lookup(entries, "role"@) {
                Some(JsonView::Text(role)) => role,
                _ => Seq::empty(),
            })
            &&& messages[at].content == (match json::lookup(entries, "content"@) {
                Some(content) => if content is Null {
                    None
                } else {
                    Some(content)
                },
                None => None,
            })
            &&& key != "role"@ && key != "content"@ ==> json::lookup(messages[at].extra, key)
                == json::lookup(entries, key)
        },
        stateful_messages(raw) == input_messages(raw, false),
{
    assert forall|i: int| 0 <= i < items.len() implies message_of(#[trigger] items[i]) is Some by {
        law_object_read_as_message(items[i]->Object_0, key);
    }
    law_object_read_as_message(entries, key);
}

/// A conversation that was not kept yet is empty.
pub proof fn law_new_conversation(raw: Seq<char>)
    requires
        text::trimmed(raw).len() == 0,
    ensures
        stateful_messages(raw) matches Ok(messages) && messages.len() == 0,
{
}

/// A conversation is kept message by message, in order.
pub proof fn law_kept_one_by_one(messages: Seq<MessageView>)
    ensures
        kept_messages(messages) matches JsonView::Array(items) && items.len() == messages.len()
            && (forall|i: int|
            0 <= i < messages.len() ==> #[trigger] items[i] == messages[i].json()),
{
}

/// What is kept of an answer: its text as a message of the assistant, with the constrained value
/// where there is one, and behind it the continuation where there is one.
pub proof fn law_what_is_kept_of_an_answer(
    content: Seq<char>,
    continuation: Option<ContinuationView>,
    constrained: Option<JsonView>,
)
    ensures
        ({
            let turn = assistant_turn(content, continuation, constrained);
            &&& turn.len() == (if continuation is Some {
                2int
            } else {
                1int
            })
            &&& turn[0].role == "assistant"@
            &&& turn[0].content == Some(JsonView::Text(content))
            &&& turn[0].json().get("role"@) == Some(JsonView::Text("assistant"@))
            &&& turn[0].json().get("content"@) == Some(JsonView::Text(content))
            &&& turn[0].json().get("constrained"@) == constrained
            &&& continuation matches Some(held) ==> {
                &&& turn[1].json().get("provider"@) == Some(JsonView::Text(held.provider))
                &&& turn[1].json().get("response_id"@) == (match held.response_id {
                    Some(id) => Some(JsonView::Text(id)),
                    None => None,
                })
                &&& turn[1].json().get("reasoning_items"@) == Some(
                    JsonView::Array(held.reasoning_items),
                )
            }
        }),
{
    broadcast use json::group_lookup;

    reveal_strlit("role");
    reveal_strlit("content");
    reveal_strlit("constrained");
    reveal_strlit("provider");
    reveal_strlit("response_id");
    reveal_strlit("reasoning_items");
    reveal_strlit("assistant");
    assert("role"@.len() == 4 && "content"@.len() == 7 && "constrained"@.len() == 11);
    assert("provider"@.len() == 8 && "response_id"@.len() == 11 && "reasoning_items"@.len() == 15);
    assert("assistant"@.len() == 9);
    law_assistant_turn_valid(content, continuation, constrained);
    let turn = assistant_turn(content, continuation, constrained);
    assert(turn[0].valid());
    law_message_is_kept_whole(turn[0], "constrained"@);
    let none: Entries = Seq::empty();
    if let Some(value) = constrained {
        assert(turn[0].extra =~= none.push(("constrained"@, value)));
    }
    if let Some(held) = continuation {
        assert(turn[1].valid());
        law_message_is_kept_whole(turn[1], "provider"@);
        law_message_is_kept_whole(turn[1], "response_id"@);
        law_message_is_kept_whole(turn[1], "reasoning_items"@);
        let head: Entries = seq![("provider"@, JsonView::Text(held.provider))];
        assert(head =~= none.push(("provider"@, JsonView::Text(held.provider))));
    }
}

} // verus!
