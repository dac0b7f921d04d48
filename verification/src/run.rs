//! The decisions of a run, shared by the process that talks to the provider itself and by the
//! server: what is needed before a request, what a hit in the cache shows, how a schema splits
//! a request in two, and what is kept.
use vstd::prelude::*;
use vstd::string::*;

use crate::args::{Args, ArgsView, DEFAULT_MAX_TOKENS};
use crate::bridge;
use crate::cache;
use crate::cache::{CachedEntry, EntryView, KeyParts, KeyPartsView, Row, RowView, StoreEntry};
use crate::constraints;
use crate::conversation;
use crate::conversation::{Message, MessageView};
use crate::json;
use crate::json::{Json, JsonView};
use crate::output;
use crate::output::{
    ContinuationView, Piece, Prospect, ProspectView, ProviderContinuation, WriterView,
};
use crate::providers;
use crate::providers::{CallOutcome, CallParams, OutcomeView, ParamsView, SessionView};
use crate::text;
use crate::tools;

verus! {

/// What a run came to.
#[derive(Debug, PartialEq)]
pub struct RunOutcome {
    pub exit_code: u8,
    /// The answer, without reasoning.
    pub assistant_buf: String,
    pub provider_continuation: Option<ProviderContinuation>,
    /// The answer in the shape that a schema demands.
    pub constrained: Option<Json>,
}

/// The model of a run: the one asked for, else the one of the environment.
pub fn model(asked: &Option<String>, environment: Option<String>) -> (result: Result<
    String,
    (u8, String),
>)
    ensures
        match result {
            Ok(model) => match *asked {
                Some(name) => model@ == name@,
                None => environment matches Some(name) && model@ == name@,
            },
            Err((code, message)) => {
                &&& *asked is None && environment is None
                &&& code == 1
                &&& message@ == "missing model (--model or OPENAI_MODEL_NAME)"@
            },
        },
{
    match asked {
        Some(name) => Ok(name.clone()),
        None => match environment {
            Some(name) => Ok(name),
            None => Err(
                providers::own_error("missing model (--model or OPENAI_MODEL_NAME)".to_owned()),
            ),
        },
    }
}

/// A text that is more than white space.
pub open spec fn filled(value: Seq<char>) -> Option<Seq<char>> {
    if text::trimmed(value).len() == 0 {
        None
    } else {
        Some(value)
    }
}

/// Takes a text that is nothing but white space for none.
pub fn non_empty(value: String) -> (result: Option<String>)
    ensures
        text::opt(result) == filled(value@),
{
    if text::is_empty(text::trim(value.as_str())) {
        None
    } else {
        Some(value)
    }
}

/// The key for a provider: the one asked for, else the one of the environment. Only OpenAI
/// needs one; another provider is given a placeholder.
pub open spec fn api_key(
    explicit_key: Option<Seq<char>>,
    env_key: Option<Seq<char>>,
    base_url: Option<Seq<char>>,
) -> Result<Seq<char>, Seq<char>> {
    match (explicit_key, env_key) {
        (Some(key), _) => Ok(key),
        (None, Some(key)) => Ok(key),
        (None, None) => if providers::names_openai(base_url) {
            Err("missing API key (--key or OPENAI_API_KEY)"@)
        } else {
            Ok("mii-text-local"@)
        },
    }
}

pub fn api_key_for_base_url(
    explicit_key: Option<&str>,
    env_key: Option<&str>,
    base_url: Option<&str>,
) -> (result: Result<String, String>)
    ensures
        match result {
            Ok(key) => api_key(
                json::opt_text(explicit_key),
                json::opt_text(env_key),
                json::opt_text(base_url),
            ) == Ok::<Seq<char>, Seq<char>>(key@),
            Err(message) => api_key(
                json::opt_text(explicit_key),
                json::opt_text(env_key),
                json::opt_text(base_url),
            ) == Err::<Seq<char>, Seq<char>>(message@),
        },
{
    if let Some(key) = explicit_key {
        return Ok(key.to_owned());
    }
    if let Some(key) = env_key {
        return Ok(key.to_owned());
    }
    if !providers::is_openai(base_url) {
        return Ok("mii-text-local".to_owned());
    }
    Err("missing API key (--key or OPENAI_API_KEY)".to_owned())
}

/// What a run finds outside: the environment, files and the standard input, or why they could
/// not be read. Of what the arguments do not ask for nothing is looked at.
pub struct Surroundings {
    /// The file that keeps the conversation; nothing where there is no such file.
    pub stateful: Result<Option<String>, String>,
    pub stdin: Result<String, String>,
    /// A file for each source of tools.
    pub tool_files: Vec<Result<String, String>>,
    pub schema_file: Result<String, String>,
}

/// What a request is about.
pub struct Gathered {
    pub conversation: Vec<Message>,
    pub tools: Option<Vec<Json>>,
    pub schema: Option<Json>,
}

pub struct GatheredView {
    pub conversation: Seq<MessageView>,
    pub tools: Option<Seq<JsonView>>,
    pub schema: Option<JsonView>,
}

impl View for Gathered {
    type V = GatheredView;

    open spec fn view(&self) -> GatheredView {
        GatheredView {
            conversation: conversation::message_views(self.conversation@),
            tools: json::opt_views(self.tools),
            schema: json::opt_json(self.schema),
        }
    }
}

/// The history of a conversation, or why there is none.
pub open spec fn history(args: ArgsView, found: Surroundings) -> Result<
    Seq<MessageView>,
    Seq<char>,
> {
    match args.client.stateful {
        None => Ok(Seq::empty()),
        Some(_) => match found.stateful {
            Ok(Some(raw)) => conversation::stateful_messages(raw@),
            Ok(None) => Ok(Seq::empty()),
            Err(message) => Err("failed to read stateful file: "@ + message@),
        },
    }
}

/// What is new in a conversation, or why there is nothing.
pub open spec fn new_messages(args: ArgsView, found: Surroundings) -> Result<
    Seq<MessageView>,
    Seq<char>,
> {
    match args.client.messages {
        Some(raw) => conversation::input_messages(raw, args.client.quick),
        None => match found.stdin {
            Ok(raw) => conversation::input_messages(raw@, args.client.quick),
            Err(message) => Err("failed to read stdin: "@ + message@),
        },
    }
}

/// The schema of a request, where one is asked for, or what is wrong with it.
pub open spec fn wanted_schema(args: ArgsView, found: Surroundings) -> Result<
    Option<JsonView>,
    Seq<char>,
> {
    match args.client.schema {
        Some(raw) => match constraints::schema_of(raw, tools::read_view(found.schema_file)) {
            Ok(schema) => Ok(Some(schema)),
            Err(message) => Err(message),
        },
        None => Ok(None),
    }
}

/// What a request is about, or the first complaint: about the history, what is new, the tools,
/// or the schema, in this order.
pub open spec fn gathered(args: ArgsView, found: Surroundings) -> Result<GatheredView, Seq<char>> {
    match history(args, found) {
        Err(message) => Err(message),
        Ok(history) => match new_messages(args, found) {
            Err(message) => Err(message),
            Ok(messages) => match tools::resolved(
                args.client.tools,
                tools::read_views(found.tool_files@),
            ) {
                Err(message) => Err(message),
                Ok(tools) => match wanted_schema(args, found) {
                    Err(message) => Err(message),
                    Ok(schema) => Ok(
                        GatheredView { conversation: history + messages, tools, schema },
                    ),
                },
            },
        },
    }
}

fn load_history(args: &Args, found: &Surroundings) -> (result: Result<Vec<Message>, String>)
    ensures
        conversation::messages_result(result) == history(args@, *found),
{
    if args.stateful.is_none() {
        let none: Vec<Message> = Vec::new();
        assert(conversation::message_views(none@) =~= Seq::empty());
        return Ok(none);
    }
    match &found.stateful {
        Ok(Some(raw)) => conversation::load_stateful(Some(raw.as_str())),
        Ok(None) => {
            let none: Vec<Message> = Vec::new();
            assert(conversation::message_views(none@) =~= Seq::empty());
            Ok(none)
        },
        Err(message) => Err(text::concat("failed to read stateful file: ", message.as_str())),
    }
}

fn load_new(args: &Args, found: &Surroundings) -> (result: Result<Vec<Message>, String>)
    ensures
        conversation::messages_result(result) == new_messages(args@, *found),
{
    if args.messages.is_some() {
        return conversation::load_input_messages(&args.messages, args.quick, None);
    }
    match &found.stdin {
        Ok(raw) => conversation::load_input_messages(
            &args.messages,
            args.quick,
            Some(raw.as_str()),
        ),
        Err(message) => Err(text::concat("failed to read stdin: ", message.as_str())),
    }
}

fn load_schema(args: &Args, found: &Surroundings) -> (result: Result<Option<Json>, String>)
    ensures
        match result {
            Ok(schema) => wanted_schema(args@, *found) == Ok::<Option<JsonView>, Seq<char>>(
                json::opt_json(schema),
            ),
            Err(message) => wanted_schema(args@, *found) == Err::<Option<JsonView>, Seq<char>>(
                message@,
            ),
        },
{
    let raw = match &args.schema {
        Some(raw) => raw,
        None => return Ok(None),
    };
    let read = match &found.schema_file {
        Ok(contents) => Ok(contents.as_str()),
        Err(message) => Err(message.as_str()),
    };
    match constraints::resolve_schema(raw.as_str(), read) {
        Ok(schema) => Ok(Some(schema)),
        Err(message) => Err(message),
    }
}

/// Puts together what a request is about.
pub fn gather(args: &Args, found: &Surroundings) -> (result: Result<Gathered, String>)
    requires
        found.tool_files@.len() == args.tools@.len(),
    ensures
        match result {
            Ok(request) => gathered(args@, *found) == Ok::<GatheredView, Seq<char>>(request@),
            Err(message) => gathered(args@, *found) == Err::<GatheredView, Seq<char>>(message@),
        },
{
    let mut conversation = match load_history(args, found) {
        Ok(history) => history,
        Err(message) => return Err(message),
    };
    let mut messages = match load_new(args, found) {
        Ok(messages) => messages,
        Err(message) => return Err(message),
    };
    let ghost before = conversation@;
    let ghost added = messages@;
    conversation.append(&mut messages);
    assert(conversation::message_views(conversation@) =~= conversation::message_views(before)
        + conversation::message_views(added));
    let tools = match tools::resolve(args.tools.as_slice(), found.tool_files.as_slice()) {
        Ok(tools) => tools,
        Err(message) => return Err(message),
    };
    let schema = match load_schema(args, found) {
        Ok(schema) => schema,
        Err(message) => return Err(message),
    };
    Ok(Gathered { conversation, tools, schema })
}

/// The limit on the tokens of an answer.
pub open spec fn token_limit(args: ArgsView) -> u32 {
    match args.client.max_tokens {
        Some(limit) => limit,
        None => DEFAULT_MAX_TOKENS,
    }
}

/// The limit on the tokens of an answer.
pub fn max_tokens(args: &Args) -> (limit: u32)
    ensures
        limit == token_limit(args@),
{
    match args.max_tokens {
        Some(limit) => limit,
        None => DEFAULT_MAX_TOKENS,
    }
}

/// What decides about the answer to a request.
pub open spec fn key_parts(args: ArgsView, model: Seq<char>, request: GatheredView) -> KeyPartsView {
    KeyPartsView {
        model,
        system: args.client.system,
        messages: request.conversation,
        reasoning: args.client.reasoning,
        temperature: args.client.temperature,
        max_tokens: token_limit(args),
        tools: request.tools,
        completions: args.client.completions,
        schema: request.schema,
    }
}

/// The cache key of a request.
pub fn cache_key(args: &Args, model: &str, request: &Gathered) -> (key: String)
    ensures
        key@ == key_parts(args@, model@, request@).key(),
{
    cache::key(
        KeyParts {
            model,
            system: &args.system,
            messages: request.conversation.as_slice(),
            reasoning: &args.reasoning,
            temperature: &args.temperature,
            max_tokens: max_tokens(args),
            tools: &request.tools,
            completions: args.completions,
            schema: &request.schema,
        },
    )
}

/// A request as it goes to the provider.
pub open spec fn wanted_call(args: ArgsView, model: Seq<char>, request: GatheredView) -> ParamsView {
    ParamsView {
        model,
        system: args.client.system,
        messages: request.conversation,
        stream: args.client.stream,
        reasoning: args.client.reasoning,
        temperature: args.client.temperature,
        max_tokens: token_limit(args),
        reasoning_summary: args.client.reasoning_summary,
        stats: args.client.stats,
        tools: request.tools,
        completions: args.client.completions,
        simple: args.client.simple,
        schema: request.schema,
        emit_done: true,
    }
}

/// A request as it goes to the provider.
pub fn call_params<'a>(args: &'a Args, model: &'a str, request: &'a Gathered) -> (params: CallParams<
    'a,
>)
    ensures
        params@ == wanted_call(args@, model@, request@),
{
    CallParams {
        model,
        system: &args.system,
        messages: request.conversation.as_slice(),
        stream: args.stream,
        reasoning: &args.reasoning,
        temperature: &args.temperature,
        max_tokens: max_tokens(args),
        reasoning_summary: args.reasoning_summary,
        stats: args.stats,
        tools: &request.tools,
        completions: args.completions,
        simple: args.simple,
        schema: &request.schema,
        emit_done: true,
    }
}

/// The key of a request does not depend on how the answer is shown or kept, nor on secrets, so
/// one answer serves every way of showing it.
pub proof fn law_key_ignores_rendering(
    one: ArgsView,
    other: ArgsView,
    model: Seq<char>,
    request: GatheredView,
)
    requires
        one.client.system == other.client.system,
        one.client.reasoning == other.client.reasoning,
        one.client.temperature == other.client.temperature,
        one.client.max_tokens == other.client.max_tokens,
        one.client.completions == other.client.completions,
    ensures
        key_parts(one, model, request).key() == key_parts(other, model, request).key(),
{
}

pub struct RunOutcomeView {
    pub exit_code: u8,
    pub assistant_buf: Seq<char>,
    pub provider_continuation: Option<ContinuationView>,
    pub constrained: Option<JsonView>,
}

impl View for RunOutcome {
    type V = RunOutcomeView;

    open spec fn view(&self) -> RunOutcomeView {
        RunOutcomeView {
            exit_code: self.exit_code,
            assistant_buf: self.assistant_buf@,
            provider_continuation: output::opt_continuation(self.provider_continuation),
            constrained: json::opt_json(self.constrained),
        }
    }
}

/// What an answer comes to for the run.
pub open spec fn finished(prospect: ProspectView) -> RunOutcomeView {
    RunOutcomeView {
        exit_code: 0,
        assistant_buf: prospect.content,
        provider_continuation: prospect.provider_continuation,
        constrained: prospect.constrained,
    }
}

fn finish(prospect: &Prospect) -> (outcome: RunOutcome)
    ensures
        outcome@ == finished(prospect@),
{
    RunOutcome {
        exit_code: 0,
        assistant_buf: prospect.content.clone(),
        provider_continuation: output::copy_continuation(&prospect.provider_continuation),
        constrained: json::copy_opt(&prospect.constrained),
    }
}

/// What a hit in the cache shows, and what it comes to for the run: the answer in the way asked
/// for, or, where the hit holds no answer but only old output, that output as it is.
pub open spec fn replayed(
    hit: EntryView,
    simple: bool,
    stream: bool,
    emit_reasoning: bool,
) -> (Seq<char>, RunOutcomeView) {
    match hit.prospect {
        Some(prospect) => (
            output::cached_text(prospect, hit.events, simple, stream, emit_reasoning),
            finished(prospect),
        ),
        None => (
            hit.content,
            RunOutcomeView {
                exit_code: 0,
                assistant_buf: match hit.assistant {
                    Some(assistant) => assistant,
                    None => hit.content,
                },
                provider_continuation: None,
                constrained: None,
            },
        ),
    }
}

/// Replays a hit in the cache.
pub fn replay_cached(
    hit: &CachedEntry,
    simple: bool,
    stream: bool,
    emit_reasoning: bool,
) -> (result: (String, RunOutcome))
    ensures
        (result.0@, result.1@) == replayed(hit@, simple, stream, emit_reasoning),
{
    match &hit.prospect {
        Some(prospect) => {
            let events = match &hit.events {
                Some(events) => Some(events.as_slice()),
                None => None,
            };
            let rendered = match output::render_cached(
                prospect,
                events,
                simple,
                stream,
                emit_reasoning,
            ) {
                Ok(rendered) => rendered,
                Err(message) => message,
            };
            (rendered, finish(prospect))
        },
        None => {
            let assistant_buf = match &hit.assistant {
                Some(assistant) => assistant.clone(),
                None => hit.content.clone(),
            };
            let outcome = RunOutcome {
                exit_code: 0,
                assistant_buf,
                provider_continuation: None,
                constrained: None,
            };
            (hit.content.clone(), outcome)
        },
    }
}

/// The answer of the first pass with that of the second.
pub open spec fn with_constrained(first: ProspectView, value: JsonView) -> ProspectView {
    ProspectView { constrained: Some(value), ..first }
}

/// Both passes together: what is left to show, and the answer of the first pass with that of
/// the second.
pub open spec fn combined(
    first: OutcomeView,
    value: JsonView,
    simple: bool,
    stream: bool,
    emit_reasoning: bool,
) -> (Seq<char>, OutcomeView) {
    let prospect = with_constrained(first.prospect, value);
    let shown = output::finale(prospect, simple, stream, emit_reasoning);
    let full_output = if stream && !simple {
        first.full_output + shown
    } else {
        shown
    };
    (shown, OutcomeView { prospect, full_output, ..first })
}

/// Puts both passes together: what is left to show, and the answer.
pub fn combine_passes(
    first: CallOutcome,
    value: Json,
    simple: bool,
    stream: bool,
    emit_reasoning: bool,
) -> (result: (String, CallOutcome))
    ensures
        (result.0@, result.1@) == combined(first@, value@, simple, stream, emit_reasoning),
{
    let mut prospect = first.prospect;
    prospect.constrained = Some(value);
    let shown = output::render_finale(&prospect, simple, stream, emit_reasoning);
    let full_output = if stream && !simple {
        text::concat(first.full_output.as_str(), shown.as_str())
    } else {
        shown.clone()
    };
    let outcome = CallOutcome {
        assistant_buf: first.assistant_buf,
        full_output,
        prospect,
        events: first.events,
        usage: first.usage,
        model_used: first.model_used,
    };
    (shown, outcome)
}

/// What is done with an answer.
#[derive(Debug, PartialEq)]
pub enum Action {
    Show(String),
    Flush,
    Store(Row),
    Report { model: Option<String>, usage: Option<Json>, cached: bool },
    Save { path: String, contents: String },
}

pub enum ActionView {
    /// The text goes to the output.
    Show(Seq<char>),
    /// The output is complete.
    Flush,
    /// The row goes to the cache.
    Store(RowView),
    /// The stats go to the diagnostics.
    Report { model: Option<Seq<char>>, usage: Option<JsonView>, cached: bool },
    /// The conversation goes to the file that keeps it.
    Save { path: Seq<char>, contents: Seq<char> },
}

impl View for Action {
    type V = ActionView;

    open spec fn view(&self) -> ActionView {
        match self {
            Action::Show(text) => ActionView::Show(text@),
            Action::Flush => ActionView::Flush,
            Action::Store(row) => ActionView::Store(row@),
            Action::Report { model, usage, cached } => ActionView::Report {
                model: text::opt(*model),
                usage: json::opt_json(*usage),
                cached: *cached,
            },
            Action::Save { path, contents } => ActionView::Save {
                path: path@,
                contents: contents@,
            },
        }
    }
}

/// What each of the actions says.
pub open spec fn action_views(actions: Seq<Action>) -> Seq<ActionView> {
    Seq::new(actions.len(), |i: int| actions[i]@)
}

/// The actions with one more, where there is one.
pub open spec fn and_then(actions: Seq<ActionView>, more: Option<ActionView>) -> Seq<ActionView> {
    match more {
        Some(action) => actions.push(action),
        None => actions,
    }
}

/// The report that was asked for.
pub open spec fn wanted_report(
    args: ArgsView,
    model: Option<Seq<char>>,
    usage: Option<JsonView>,
    cached: bool,
) -> Option<ActionView> {
    if args.client.stats {
        Some(ActionView::Report { model, usage, cached })
    } else {
        None
    }
}

/// The conversation with the answer, where it is kept.
pub open spec fn wanted_save(
    args: ArgsView,
    messages: Seq<MessageView>,
    outcome: RunOutcomeView,
) -> Option<ActionView> {
    match args.client.stateful {
        Some(path) => Some(
            ActionView::Save {
                path,
                contents: bridge::pretty(
                    conversation::kept_messages(with_turn(messages, outcome)),
                ),
            },
        ),
        None => None,
    }
}

/// A conversation with the answer of a run.
pub open spec fn with_turn(messages: Seq<MessageView>, outcome: RunOutcomeView) -> Seq<
    MessageView,
> {
    messages + conversation::assistant_turn(
        outcome.assistant_buf,
        outcome.provider_continuation,
        outcome.constrained,
    )
}

/// An action that saves a conversation saves it so that the next run begins with it.
pub open spec fn save_reads_back(action: ActionView, messages: Seq<MessageView>) -> bool {
    action is Save && bridge::round_trips(conversation::kept_messages(messages)) && (forall|i: int|
        0 <= i < messages.len() ==> (#[trigger] messages[i]).valid())
        ==> conversation::stateful_messages(action->contents) == Ok::<
        Seq<MessageView>,
        Seq<char>,
    >(messages)
}

/// An action that stores an answer stores it so that a hit in the cache finds it again.
pub open spec fn store_reads_back(action: ActionView, answer: OutcomeView) -> bool {
    action is Store ==> {
        let entry = cache::entry_of(action->Store_0);
        &&& bridge::round_trips(answer.prospect.json()) && answer.prospect.constrained != Some(
            JsonView::Null,
        ) ==> entry.prospect == Some(answer.prospect)
        &&& bridge::round_trips(JsonView::Array(answer.events)) ==> entry.events == Some(
            answer.events,
        )
        &&& (answer.usage matches Some(usage) ==> bridge::round_trips(usage)) ==> entry.usage
            == answer.usage
        &&& entry.model == answer.model_used
    }
}

/// What is done with a hit in the cache.
pub open spec fn replay_actions(
    args: ArgsView,
    messages: Seq<MessageView>,
    hit: EntryView,
) -> (Seq<ActionView>, RunOutcomeView) {
    let (shown, outcome) = replayed(
        hit,
        args.client.simple,
        args.client.stream,
        shows_reasoning(args),
    );
    let told = seq![ActionView::Show(shown), ActionView::Flush];
    let reported = and_then(told, wanted_report(args, hit.model, hit.usage, true));
    (and_then(reported, wanted_save(args, messages, outcome)), outcome)
}

/// What is done with an answer of the provider. `shown` is what is left to show of it.
pub open spec fn answer_actions(
    args: ArgsView,
    key: Seq<char>,
    messages: Seq<MessageView>,
    shown: Option<Seq<char>>,
    answer: OutcomeView,
) -> (Seq<ActionView>, RunOutcomeView) {
    let outcome = finished(answer.prospect);
    let told = match shown {
        Some(text) => seq![ActionView::Show(text), ActionView::Flush],
        None => seq![ActionView::Flush],
    };
    let row = cache::row_of(
        key,
        answer.full_output,
        answer.assistant_buf,
        answer.prospect,
        answer.events,
        answer.usage,
        answer.model_used,
    );
    let stored = if args.client.cache is Some {
        told.push(ActionView::Store(row))
    } else {
        told
    };
    let reported = and_then(
        stored,
        wanted_report(args, answer.model_used, answer.usage, false),
    );
    (and_then(reported, wanted_save(args, messages, outcome)), outcome)
}

/// Whether reasoning is shown.
pub open spec fn shows_reasoning(args: ArgsView) -> bool {
    args.client.reasoning_summary || (!args.client.stream && !args.client.simple)
}

/// What a run waits for.
pub enum Stage {
    Fresh,
    LookingUp,
    First,
    Second(CallOutcome),
    Over,
}

pub enum StageView {
    /// It has not begun.
    Fresh,
    /// What the cache holds.
    LookingUp,
    /// The answer, or that of the first of two passes.
    First,
    /// The answer of the second pass, with that of the first at hand.
    Second(OutcomeView),
    /// Nothing.
    Over,
}

impl View for Stage {
    type V = StageView;

    open spec fn view(&self) -> StageView {
        match self {
            Stage::Fresh => StageView::Fresh,
            Stage::LookingUp => StageView::LookingUp,
            Stage::First => StageView::First,
            Stage::Second(first) => StageView::Second(first@),
            Stage::Over => StageView::Over,
        }
    }
}

/// What happens to a run.
pub enum RunEvent {
    /// It begins.
    Begin,
    /// The cache was looked up.
    Found(Option<Row>),
    /// The provider answered.
    Answered(CallOutcome),
}

pub enum RunEventView {
    Begin,
    Found(Option<RowView>),
    Answered(OutcomeView),
}

impl View for RunEvent {
    type V = RunEventView;

    open spec fn view(&self) -> RunEventView {
        match self {
            RunEvent::Begin => RunEventView::Begin,
            RunEvent::Found(Some(row)) => RunEventView::Found(Some(row@)),
            RunEvent::Found(None) => RunEventView::Found(None),
            RunEvent::Answered(outcome) => RunEventView::Answered(outcome@),
        }
    }
}

/// What a run asks for next.
pub enum Step {
    LookUp { key: String },
    Call { messages: Vec<Message>, second: bool, shown: bool },
    Finish { actions: Vec<Action>, outcome: RunOutcome },
}

pub enum StepView {
    /// What the cache holds under a key.
    LookUp { key: Seq<char> },
    /// An answer of the provider, and whether it is shown as it arrives.
    Call { messages: Seq<MessageView>, second: bool, shown: bool },
    /// The actions in order; then the run is over.
    Finish { actions: Seq<ActionView>, outcome: RunOutcomeView },
}

impl View for Step {
    type V = StepView;

    open spec fn view(&self) -> StepView {
        match self {
            Step::LookUp { key } => StepView::LookUp { key: key@ },
            Step::Call { messages, second, shown } => StepView::Call {
                messages: conversation::message_views(messages@),
                second: *second,
                shown: *shown,
            },
            Step::Finish { actions, outcome } => StepView::Finish {
                actions: action_views(actions@),
                outcome: outcome@,
            },
        }
    }
}

/// The actions that end a run save the conversation and store the answer so that both read
/// back as they were.
pub open spec fn all_read_back(
    step: StepView,
    messages: Seq<MessageView>,
    answer: Option<OutcomeView>,
) -> bool {
    step matches StepView::Finish { actions, outcome } ==> (forall|i: int|
        0 <= i < actions.len() ==> save_reads_back(
            #[trigger] actions[i],
            with_turn(messages, outcome),
        ) && (answer matches Some(answer) ==> store_reads_back(actions[i], answer)))
}

/// A run: a request on its way to an answer.
pub struct Run {
    args: Args,
    model: String,
    request: Gathered,
    stage: Stage,
    no_schema: Option<Json>,
    no_tools: Option<Vec<Json>>,
}

pub struct RunView {
    pub args: ArgsView,
    pub model: Seq<char>,
    pub request: GatheredView,
    pub stage: StageView,
}

impl View for Run {
    type V = RunView;

    closed spec fn view(&self) -> RunView {
        RunView {
            args: self.args@,
            model: self.model@,
            request: self.request@,
            stage: self.stage@,
        }
    }
}

impl RunView {
    /// Whether an event is one that the run waits for.
    pub open spec fn waits_for(self, event: RunEventView) -> bool {
        match (self.stage, event) {
            (StageView::Fresh, RunEventView::Begin) => true,
            (StageView::LookingUp, RunEventView::Found(_)) => true,
            (StageView::First, RunEventView::Answered(_)) => true,
            (StageView::Second(_), RunEventView::Answered(_)) => true,
            _ => false,
        }
    }

    pub open spec fn key(self) -> Seq<char> {
        key_parts(self.args, self.model, self.request).key()
    }

    /// The messages of the first call: under a schema the question is guided by it.
    pub open spec fn first_messages(self) -> Seq<MessageView> {
        match self.request.schema {
            Some(schema) => constraints::first_pass(self.request.conversation, schema),
            None => self.request.conversation,
        }
    }

    /// The first call. Under a schema it is shown as it arrives only where the output is JSON
    /// lines, since what is shown at the end waits for the second.
    pub open spec fn first_call(self) -> StepView {
        StepView::Call {
            messages: self.first_messages(),
            second: false,
            shown: self.request.schema is None || (self.args.client.stream
                && !self.args.client.simple),
        }
    }

    /// The end of a run with an answer of the provider.
    pub open spec fn end(self, shown: Option<Seq<char>>, answer: OutcomeView) -> StepView {
        let (actions, outcome) = answer_actions(
            self.args,
            self.key(),
            self.request.conversation,
            shown,
            answer,
        );
        StepView::Finish { actions, outcome }
    }

    /// What the run waits for and asks for after an event, or the complaint about the answer of
    /// the second pass.
    pub open spec fn next(self, event: RunEventView) -> Result<(StageView, StepView), Seq<char>> {
        match (self.stage, event) {
            (StageView::Fresh, RunEventView::Begin) => if self.args.client.cache is Some {
                Ok((StageView::LookingUp, StepView::LookUp { key: self.key() }))
            } else {
                Ok((StageView::First, self.first_call()))
            },
            (StageView::LookingUp, RunEventView::Found(Some(row))) => {
                let (actions, outcome) = replay_actions(
                    self.args,
                    self.request.conversation,
                    cache::entry_of(row),
                );
                Ok((StageView::Over, StepView::Finish { actions, outcome }))
            },
            (StageView::First, RunEventView::Answered(answer)) => if self.request.schema is Some {
                Ok(
                    (
                        StageView::Second(answer),
                        StepView::Call {
                            messages: constraints::second_pass(
                                self.first_messages(),
                                answer.prospect,
                            ),
                            second: true,
                            shown: false,
                        },
                    ),
                )
            } else {
                Ok((StageView::Over, self.end(None, answer)))
            },
            (
                StageView::Second(first),
                RunEventView::Answered(answer),
            ) => match constraints::constrained_of(answer.assistant_buf) {
                Ok(value) => {
                    let (shown, whole) = combined(
                        first,
                        value,
                        self.args.client.simple,
                        self.args.client.stream,
                        shows_reasoning(self.args),
                    );
                    Ok((StageView::Over, self.end(Some(shown), whole)))
                },
                Err(message) => Err(message),
            },
            _ => Ok((StageView::First, self.first_call())),
        }
    }

    /// The answer with which an event of the provider ends the run.
    pub open spec fn answer(self, event: RunEventView) -> Option<OutcomeView> {
        match (self.stage, event) {
            (StageView::First, RunEventView::Answered(answer)) => if self.request.schema is None {
                Some(answer)
            } else {
                None
            },
            (
                StageView::Second(first),
                RunEventView::Answered(answer),
            ) => match constraints::constrained_of(answer.assistant_buf) {
                Ok(value) => Some(
                    combined(
                        first,
                        value,
                        self.args.client.simple,
                        self.args.client.stream,
                        shows_reasoning(self.args),
                    ).1,
                ),
                Err(_) => None,
            },
            _ => None,
        }
    }

    /// A call as it goes to the provider. Under a schema the first pass is free of it, and a
    /// stream does not end with it; the second pass is under it, without tools and unseen.
    pub open spec fn call(self, messages: Seq<MessageView>, second: bool) -> ParamsView {
        let plain = ParamsView {
            messages,
            ..wanted_call(self.args, self.model, self.request)
        };
        if second {
            ParamsView {
                stream: false,
                reasoning_summary: false,
                stats: false,
                tools: None,
                simple: false,
                ..plain
            }
        } else {
            ParamsView { schema: None, emit_done: self.request.schema is None, ..plain }
        }
    }
}

fn push_report(actions: &mut Vec<Action>, args: &Args, model: &Option<String>, usage: &Option<Json>, cached: bool)
    ensures
        action_views(final(actions)@) == and_then(
            action_views(old(actions)@),
            wanted_report(args@, text::opt(*model), json::opt_json(*usage), cached),
        ),
{
    let ghost before = actions@;
    if args.stats {
        actions.push(
            Action::Report { model: text::copy_opt(model), usage: json::copy_opt(usage), cached },
        );
        assert(action_views(actions@) =~= action_views(before).push(actions@.last()@));
    }
}

fn push_save(actions: &mut Vec<Action>, args: &Args, messages: &[Message], outcome: &RunOutcome)
    ensures
        action_views(final(actions)@) == and_then(
            action_views(old(actions)@),
            wanted_save(args@, conversation::message_views(messages@), outcome@),
        ),
        args@.client.stateful is Some ==> save_reads_back(
            action_views(final(actions)@).last(),
            with_turn(conversation::message_views(messages@), outcome@),
        ),
{
    let ghost before = actions@;
    if let Some(path) = &args.stateful {
        let mut kept = conversation::copy_all(messages);
        conversation::push_assistant_turn(
            &mut kept,
            outcome.assistant_buf.clone(),
            &outcome.provider_continuation,
            &outcome.constrained,
        );
        let contents = conversation::save_stateful(kept.as_slice());
        actions.push(Action::Save { path: path.clone(), contents });
        assert(action_views(actions@) =~= action_views(before).push(actions@.last()@));
        proof {
            let whole = conversation::message_views(kept@);
            if forall|i: int| 0 <= i < whole.len() ==> (#[trigger] whole[i]).valid() {
                assert forall|i: int| 0 <= i < kept@.len() implies (#[trigger] kept@[i])@.valid() by {
                    assert(whole[i].valid());
                }
            }
        }
    }
}

fn finish_replay(args: &Args, messages: &[Message], hit: &CachedEntry) -> (result: (
    Vec<Action>,
    RunOutcome,
))
    ensures
        (action_views(result.0@), result.1@) == replay_actions(
            args@,
            conversation::message_views(messages@),
            hit@,
        ),
        forall|i: int|
            0 <= i < result.0@.len() ==> save_reads_back(
                #[trigger] action_views(result.0@)[i],
                with_turn(conversation::message_views(messages@), result.1@),
            ),
{
    let emit_reasoning = providers::should_include_reasoning(
        args.reasoning_summary,
        args.stream,
        args.simple,
    );
    let (shown, outcome) = replay_cached(hit, args.simple, args.stream, emit_reasoning);
    let mut actions = vec![Action::Show(shown), Action::Flush];
    assert(action_views(actions@) =~= seq![ActionView::Show(shown@), ActionView::Flush]);
    push_report(&mut actions, args, &hit.model, &hit.usage, true);
    push_save(&mut actions, args, messages, &outcome);
    (actions, outcome)
}

fn finish_answer(
    args: &Args,
    key: &str,
    messages: &[Message],
    shown: Option<String>,
    answer: &CallOutcome,
) -> (result: (Vec<Action>, RunOutcome))
    ensures
        (action_views(result.0@), result.1@) == answer_actions(
            args@,
            key@,
            conversation::message_views(messages@),
            text::opt(shown),
            answer@,
        ),
        forall|i: int|
            0 <= i < result.0@.len() ==> save_reads_back(
                #[trigger] action_views(result.0@)[i],
                with_turn(conversation::message_views(messages@), result.1@),
            ) && store_reads_back(action_views(result.0@)[i], answer@),
{
    let outcome = finish(&answer.prospect);
    let ghost told = match text::opt(shown) {
        Some(text) => seq![ActionView::Show(text), ActionView::Flush],
        None => seq![ActionView::Flush],
    };
    let mut actions: Vec<Action> = Vec::new();
    if let Some(text) = shown {
        actions.push(Action::Show(text));
    }
    actions.push(Action::Flush);
    assert(action_views(actions@) =~= told);
    if args.cache.is_some() {
        let ghost before = actions@;
        actions.push(
            Action::Store(
                cache::store(
                    StoreEntry {
                        key,
                        content: answer.full_output.as_str(),
                        assistant: answer.assistant_buf.as_str(),
                        prospect: &answer.prospect,
                        events: answer.events.as_slice(),
                        usage: &answer.usage,
                        model: &answer.model_used,
                    },
                ),
            ),
        );
        assert(action_views(actions@) =~= action_views(before).push(actions@.last()@));
    }
    push_report(&mut actions, args, &answer.model_used, &answer.usage, false);
    push_save(&mut actions, args, messages, &outcome);
    (actions, outcome)
}

impl Run {
    /// A run that has not begun.
    pub fn new(args: Args, model: String, request: Gathered) -> (run: Run)
        ensures
            run@ == (RunView {
                args: args@,
                model: model@,
                request: request@,
                stage: StageView::Fresh,
            }),
    {
        Run { args, model, request, stage: Stage::Fresh, no_schema: None, no_tools: None }
    }

    #[verifier::type_invariant]
    spec fn nothing_held(self) -> bool {
        self.no_schema is None && self.no_tools is None
    }

    fn first_messages(&self) -> (messages: Vec<Message>)
        ensures
            conversation::message_views(messages@) == self@.first_messages(),
    {
        match &self.request.schema {
            Some(schema) => constraints::apply_first_pass_prompt(
                self.request.conversation.as_slice(),
                schema,
            ),
            None => conversation::copy_all(self.request.conversation.as_slice()),
        }
    }

    fn first_call(&self) -> (step: Step)
        ensures
            step@ == self@.first_call(),
    {
        Step::Call {
            messages: self.first_messages(),
            second: false,
            shown: self.request.schema.is_none() || (self.args.stream && !self.args.simple),
        }
    }

    fn end(&self, shown: Option<String>, answer: &CallOutcome) -> (step: Step)
        ensures
            step@ == self@.end(text::opt(shown), answer@),
            all_read_back(step@, self@.request.conversation, Some(answer@)),
    {
        let key = cache_key(&self.args, self.model.as_str(), &self.request);
        let (actions, outcome) = finish_answer(
            &self.args,
            key.as_str(),
            self.request.conversation.as_slice(),
            shown,
            answer,
        );
        Step::Finish { actions, outcome }
    }

    /// Takes the event that the run waits for, and says what it asks for next. The answer of a
    /// second pass that is no JSON ends the run with a complaint. What is saved and stored at
    /// the end reads back as it was.
    pub fn advance(self, event: RunEvent) -> (result: Result<(Run, Step), (u8, String)>)
        requires
            self@.waits_for(event@),
        ensures
            match self@.next(event@) {
                Ok((stage, step)) => result matches Ok((run, found)) && found@ == step && run@ == (
                RunView { stage, ..self@ }),
                Err(message) => result matches Err((code, found)) && code == 2 && found@ == message,
            },
            result matches Ok((_, found)) ==> all_read_back(
                found@,
                self@.request.conversation,
                self@.answer(event@),
            ),
    {
        let (stage, step) = match event {
            RunEvent::Begin => if self.args.cache.is_some() {
                let key = cache_key(&self.args, self.model.as_str(), &self.request);
                (Stage::LookingUp, Step::LookUp { key })
            } else {
                (Stage::First, self.first_call())
            },
            RunEvent::Found(row) => match cache::lookup(row) {
                Some(hit) => {
                    let (actions, outcome) = finish_replay(
                        &self.args,
                        self.request.conversation.as_slice(),
                        &hit,
                    );
                    (Stage::Over, Step::Finish { actions, outcome })
                },
                None => (Stage::First, self.first_call()),
            },
            RunEvent::Answered(answer) => match &self.stage {
                Stage::Second(first) => match constraints::parse_constrained_response(
                    answer.assistant_buf.as_str(),
                ) {
                    Ok(value) => {
                        let emit_reasoning = providers::should_include_reasoning(
                            self.args.reasoning_summary,
                            self.args.stream,
                            self.args.simple,
                        );
                        let (shown, whole) = combine_passes(
                            first.clone(),
                            value,
                            self.args.simple,
                            self.args.stream,
                            emit_reasoning,
                        );
                        (Stage::Over, self.end(Some(shown), &whole))
                    },
                    Err(message) => return Err((2, message)),
                },
                _ => if self.request.schema.is_some() {
                    let guided = self.first_messages();
                    let messages = constraints::second_pass_messages(
                        guided.as_slice(),
                        &answer.prospect,
                    );
                    (Stage::Second(answer), Step::Call { messages, second: true, shown: false })
                } else {
                    (Stage::Over, self.end(None, &answer))
                },
            },
        };
        let run = Run {
            args: self.args,
            model: self.model,
            request: self.request,
            stage,
            no_schema: None,
            no_tools: None,
        };
        Ok((run, step))
    }

    /// A call as it goes to the provider.
    pub fn call<'a>(&'a self, messages: &'a [Message], second: bool) -> (params: CallParams<'a>)
        ensures
            params@ == self@.call(conversation::message_views(messages@), second),
    {
        proof {
            use_type_invariant(self);
        }
        let plain = call_params(&self.args, self.model.as_str(), &self.request);
        if second {
            CallParams {
                messages,
                stream: false,
                reasoning_summary: false,
                stats: false,
                tools: &self.no_tools,
                simple: false,
                ..plain
            }
        } else {
            CallParams {
                messages,
                schema: &self.no_schema,
                emit_done: self.request.schema.is_none(),
                ..plain
            }
        }
    }
}

/// A hit in the cache is answered without the provider, and nothing is stored for it.
pub proof fn law_hit_needs_no_provider(run: RunView, row: RowView)
    requires
        run.waits_for(RunEventView::Found(Some(row))),
    ensures
        run.next(RunEventView::Found(Some(row))) matches Ok((stage, step)) && stage is Over && (
        step matches StepView::Finish { actions, .. } && (forall|i: int|
            0 <= i < actions.len() ==> (#[trigger] actions[i]) !is Store)),
{
}

/// A hit in the cache shows what the call behind it showed, and comes to the same for the run.
pub proof fn law_hit_shows_what_was_shown(
    args: ArgsView,
    messages: Seq<MessageView>,
    call: SessionView,
    hit: EntryView,
)
    requires
        providers::replays(call),
        call.writer.simple == args.client.simple,
        call.writer.stream == args.client.stream,
        call.writer.emit_reasoning == shows_reasoning(args),
        hit.prospect == Some(call.writer.prospect),
        hit.events == Some(call.writer.events),
    ensures
        replay_actions(args, messages, hit).0[0] == ActionView::Show(call.full_output),
        replay_actions(args, messages, hit).1 == finished(call.outcome().prospect),
{
}

/// Reasoning is shown but not kept: answers that differ in nothing else leave the same
/// conversation behind.
pub proof fn law_reasoning_is_not_kept(
    args: ArgsView,
    messages: Seq<MessageView>,
    one: ProspectView,
    other: ProspectView,
)
    requires
        one.content == other.content,
        one.provider_continuation == other.provider_continuation,
        one.constrained == other.constrained,
    ensures
        wanted_save(args, messages, finished(one)) == wanted_save(args, messages, finished(other)),
{
}

/// Under a schema the model answers freely first. Only the second call is under the schema; it
/// has the first answer before it, and no tools.
pub proof fn law_schema_binds_the_second_call(run: RunView, answer: OutcomeView)
    requires
        run.stage is First,
        run.request.schema is Some,
    ensures
        run.call(run.first_messages(), false).schema is None,
        run.next(RunEventView::Answered(answer)) matches Ok((_, step)) && (
        step matches StepView::Call { messages, second, shown } && second && !shown
            && run.first_messages().is_prefix_of(messages) && messages.len()
            > run.first_messages().len() && run.call(messages, true).schema == run.request.schema
            && run.call(messages, true).tools is None),
{
    let messages = constraints::second_pass(run.first_messages(), answer.prospect);
    assert(run.first_messages() =~= messages.subrange(0, run.first_messages().len() as int));
}

/// Under a schema plain output is the constrained answer and nothing else.
pub proof fn law_plain_output_is_the_constrained_answer(
    one: ProspectView,
    other: ProspectView,
    stream: bool,
    emit_reasoning: bool,
)
    requires
        one.constrained is Some,
        one.constrained == other.constrained,
    ensures
        output::finale(one, true, stream, emit_reasoning) == output::finale(other, true, stream, emit_reasoning),
        output::finale(one, true, stream, emit_reasoning) == bridge::pretty(one.constrained->0) + "\n"@,
{
}

/// An answer is stored only where there is a cache, and then under the key of its request and
/// in full.
pub proof fn law_answer_is_stored_under_its_key(
    run: RunView,
    shown: Option<Seq<char>>,
    answer: OutcomeView,
    at: int,
)
    requires
        run.end(shown, answer) matches StepView::Finish { actions, .. } && 0 <= at < actions.len()
            && actions[at] is Store,
    ensures
        run.end(shown, answer)->Finish_actions[at]->Store_0.key == run.key(),
        run.end(shown, answer)->Finish_actions[at]->Store_0.prospect == Some(
            bridge::compact(answer.prospect.json()),
        ),
        run.args.client.cache is Some,
{
}

/// An answer in two passes is replayed as it was shown, in every way of showing it.
pub proof fn law_two_passes_replay(
    simple: bool,
    stream: bool,
    emit_reasoning: bool,
    pieces: Seq<Piece>,
    calls: Seq<JsonView>,
    continuation: Option<ContinuationView>,
    value: JsonView,
)
    ensures
        ({
            let start = WriterView::start(simple, stream, emit_reasoning, false);
            let told = start.after_pieces(pieces).with_rest(calls, continuation);
            let kept = told.after_finish();
            let full = with_constrained(kept.prospect, value);
            let shown_before = if stream && !simple {
                text::joined(start.piece_chunks(pieces) + told.finish_chunks())
            } else {
                Seq::empty()
            };
            shown_before + output::finale(full, simple, stream, emit_reasoning) == output::cached_text(
                full,
                Some(kept.events),
                simple,
                stream,
                emit_reasoning,
            )
        }),
{
    let start = WriterView::start(simple, stream, emit_reasoning, false);
    let told = start.after_pieces(pieces).with_rest(calls, continuation);
    let kept = told.after_finish();
    let full = with_constrained(kept.prospect, value);
    let last = output::finale(full, simple, stream, emit_reasoning);
    if stream && !simple {
        output::lemma_stream_without_end(emit_reasoning, pieces, calls, continuation);
    } else {
        assert(Seq::<char>::empty() + last =~= last);
    }
}

/// What a request is made of: the conversation that was kept, behind it the messages that are
/// given now, and the tools and the schema that are named.
pub proof fn law_request_is_gathered(args: ArgsView, found: Surroundings, request: GatheredView)
    requires
        gathered(args, found) == Ok::<GatheredView, Seq<char>>(request),
    ensures
        ({
            let given = match args.client.messages {
                Some(raw) => conversation::input_messages(raw, args.client.quick),
                None => conversation::input_messages(found.stdin->Ok_0@, args.client.quick),
            };
            let kept = match (args.client.stateful, found.stateful) {
                (Some(_), Ok(Some(raw))) => conversation::stateful_messages(raw@),
                _ => Ok(Seq::empty()),
            };
            &&& given is Ok
            &&& kept is Ok
            &&& args.client.messages is None ==> found.stdin is Ok
            &&& request.conversation == kept->Ok_0 + given->Ok_0
            &&& tools::resolved(args.client.tools, tools::read_views(found.tool_files@)) == Ok::<
                Option<Seq<JsonView>>,
                Seq<char>,
            >(request.tools)
            &&& request.schema is Some <==> args.client.schema is Some
            &&& args.client.schema matches Some(raw) ==> constraints::schema_of(
                raw,
                tools::read_view(found.schema_file),
            ) == Ok::<JsonView, Seq<char>>(request.schema->0)
        }),
{
}

/// The key that is used: the one that is given, else that of the environment. Without either
/// OpenAI cannot be asked, and any other provider is asked with a word in its place.
pub proof fn law_key_that_is_used(
    explicit_key: Option<Seq<char>>,
    env_key: Option<Seq<char>>,
    url: Seq<char>,
)
    ensures
        explicit_key matches Some(key) ==> api_key(explicit_key, env_key, Some(url)) == Ok::<
            Seq<char>,
            Seq<char>,
        >(key),
        explicit_key is None ==> (env_key matches Some(key) ==> api_key(
            explicit_key,
            env_key,
            Some(url),
        ) == Ok::<Seq<char>, Seq<char>>(key)),
        api_key(None, None, None) == Err::<Seq<char>, Seq<char>>(
            "missing API key (--key or OPENAI_API_KEY)"@,
        ),
        text::occurs("api.openai.com"@, url) ==> api_key(None, None, Some(url)) is Err,
        !text::occurs("api.openai.com"@, url) ==> api_key(None, None, Some(url)) == Ok::<
            Seq<char>,
            Seq<char>,
        >("mii-text-local"@),
{
}

/// What the provider is asked for is what the arguments say, each by itself. The first of two
/// calls leaves the schema out, the second leaves out what only matters for showing, and the
/// tools.
pub proof fn law_call_is_what_was_asked(run: RunView, messages: Seq<MessageView>, second: bool)
    ensures
        ({
            let call = run.call(messages, second);
            let client = run.args.client;
            &&& call.model == run.model
            &&& call.messages == messages
            &&& call.system == client.system
            &&& call.reasoning == client.reasoning
            &&& call.temperature == client.temperature
            &&& call.completions == client.completions
            &&& call.max_tokens == (match client.max_tokens {
                Some(limit) => limit,
                None => 128_000,
            })
            &&& second ==> call.schema == run.request.schema && call.tools is None && !call.stream
                && !call.simple && !call.reasoning_summary && !call.stats
            &&& !second ==> {
                &&& call.schema is None
                &&& call.tools == run.request.tools
                &&& call.stream == client.stream
                &&& call.simple == client.simple
                &&& call.reasoning_summary == client.reasoning_summary
                &&& call.stats == client.stats
                &&& call.emit_done == (run.request.schema is None)
            }
        }),
{
}

/// The steps of a run: a lookup where there is a cache, else a call at once. A lookup without a
/// result leads to the same call.
pub proof fn law_first_steps(run: RunView)
    ensures
        run.stage is Fresh && run.args.client.cache is Some ==> run.next(RunEventView::Begin) == Ok::<
            (StageView, StepView),
            Seq<char>,
        >((StageView::LookingUp, StepView::LookUp { key: run.key() })),
        run.stage is Fresh && run.args.client.cache is None ==> (run.next(RunEventView::Begin)
            matches Ok((StageView::First, StepView::Call { messages, second, shown })) && !second
            && (run.request.schema is None ==> messages == run.request.conversation && shown)),
        run.stage is LookingUp ==> (run.next(RunEventView::Found(None)) matches Ok(
            (StageView::First, StepView::Call { messages, second, shown }),
        ) && !second && (run.request.schema is None ==> messages == run.request.conversation
            && shown)),
        run.request.schema matches Some(schema) ==> (run.first_call() matches StepView::Call {
            messages,
            shown,
            ..
        } && messages == constraints::first_pass(run.request.conversation, schema) && shown == (
        run.args.client.stream && !run.args.client.simple)),
{
}

/// What is done with an answer, in this order: it is shown as far as it was not yet, stored
/// where there is a cache, reported on where stats are wanted, and kept where the conversation
/// is. Nothing else is done.
pub proof fn law_what_is_done_with_an_answer(
    args: ArgsView,
    key: Seq<char>,
    messages: Seq<MessageView>,
    shown: Option<Seq<char>>,
    answer: OutcomeView,
)
    ensures
        ({
            let (actions, outcome) = answer_actions(args, key, messages, shown, answer);
            let a: int = if shown is Some {
                1
            } else {
                0
            };
            let b: int = if args.client.cache is Some {
                1
            } else {
                0
            };
            let c: int = if args.client.stats {
                1
            } else {
                0
            };
            let d: int = if args.client.stateful is Some {
                1
            } else {
                0
            };
            &&& actions.len() == a + 1 + b + c + d
            &&& shown matches Some(text) ==> actions[0] == ActionView::Show(text)
            &&& actions[a] == ActionView::Flush
            &&& b == 1 ==> (actions[a + 1] matches ActionView::Store(row) && {
                &&& row.key == key
                &&& row.content == answer.full_output
                &&& row.assistant == Some(answer.assistant_buf)
                &&& row.prospect == Some(bridge::compact(answer.prospect.json()))
                &&& row.events == Some(bridge::compact(JsonView::Array(answer.events)))
                &&& row.usage is Some <==> answer.usage is Some
                &&& row.model == answer.model_used
            })
            &&& c == 1 ==> actions[a + 1 + b] == (ActionView::Report {
                model: answer.model_used,
                usage: answer.usage,
                cached: false,
            })
            &&& args.client.stateful matches Some(path) ==> actions[a + 1 + b + c] == (
            ActionView::Save {
                path,
                contents: bridge::pretty(
                    conversation::kept_messages(
                        messages + conversation::assistant_turn(
                            answer.prospect.content,
                            answer.prospect.provider_continuation,
                            answer.prospect.constrained,
                        ),
                    ),
                ),
            })
            &&& outcome.exit_code == 0
            &&& outcome.assistant_buf == answer.prospect.content
            &&& outcome.provider_continuation == answer.prospect.provider_continuation
            &&& outcome.constrained == answer.prospect.constrained
        }),
{
}

/// What is done with an answer that was found in the cache, in this order: it is shown,
/// reported on as cached where stats are wanted, and kept where the conversation is.
pub proof fn law_what_is_done_with_a_hit(
    args: ArgsView,
    messages: Seq<MessageView>,
    hit: EntryView,
)
    ensures
        ({
            let (actions, outcome) = replay_actions(args, messages, hit);
            let c: int = if args.client.stats {
                1
            } else {
                0
            };
            let d: int = if args.client.stateful is Some {
                1
            } else {
                0
            };
            let content = match (hit.prospect, hit.assistant) {
                (Some(prospect), _) => prospect.content,
                (None, Some(assistant)) => assistant,
                (None, None) => hit.content,
            };
            let continuation = match hit.prospect {
                Some(prospect) => prospect.provider_continuation,
                None => None,
            };
            let constrained = match hit.prospect {
                Some(prospect) => prospect.constrained,
                None => None,
            };
            &&& actions.len() == 2 + c + d
            &&& actions[0] == ActionView::Show(
                match hit.prospect {
                    Some(prospect) => output::cached_text(
                        prospect,
                        hit.events,
                        args.client.simple,
                        args.client.stream,
                        args.client.reasoning_summary || !args.client.stream
                            && !args.client.simple,
                    ),
                    None => hit.content,
                },
            )
            &&& actions[1] == ActionView::Flush
            &&& c == 1 ==> actions[2] == (ActionView::Report {
                model: hit.model,
                usage: hit.usage,
                cached: true,
            })
            &&& args.client.stateful matches Some(path) ==> actions[2 + c] == (ActionView::Save {
                path,
                contents: bridge::pretty(
                    conversation::kept_messages(
                        messages + conversation::assistant_turn(
                            content,
                            continuation,
                            constrained,
                        ),
                    ),
                ),
            })
            &&& outcome.exit_code == 0
            &&& outcome.assistant_buf == content
            &&& outcome.provider_continuation == continuation
            &&& outcome.constrained == constrained
        }),
{
}

/// The answer of two passes is that of the first with the value of the second. What is shown at
/// its end is the value by itself as plain text, else the whole answer.
pub proof fn law_two_passes_make_one_answer(
    first: OutcomeView,
    value: JsonView,
    simple: bool,
    stream: bool,
    emit_reasoning: bool,
)
    ensures
        ({
            let (shown, whole) = combined(first, value, simple, stream, emit_reasoning);
            &&& whole.prospect.constrained == Some(value)
            &&& whole.prospect.content == first.prospect.content
            &&& whole.prospect.reasoning == first.prospect.reasoning
            &&& whole.prospect.tool_calls == first.prospect.tool_calls
            &&& whole.prospect.provider_continuation == first.prospect.provider_continuation
            &&& whole.assistant_buf == first.assistant_buf
            &&& whole.events == first.events
            &&& whole.usage == first.usage
            &&& whole.model_used == first.model_used
            &&& simple ==> shown == bridge::pretty(value) + "\n"@
            &&& !simple && !stream ==> shown == bridge::pretty(
                whole.prospect.visible(emit_reasoning).json(),
            ) + "\n"@
            &&& !simple && stream ==> shown == bridge::compact(
                whole.prospect.visible(emit_reasoning).done_event(),
            ) + "\n"@
            &&& whole.full_output == (if stream && !simple {
                first.full_output + shown
            } else {
                shown
            })
        }),
{
}

/// A text counts as it is unless there is nothing in it but white space.
pub proof fn law_filled_text(value: Seq<char>)
    ensures
        (forall|i: int| 0 <= i < value.len() ==> text::white_space(#[trigger] value[i]))
            <==> filled(value) is None,
        filled(value) matches Some(text) ==> text == value,
{
    text::law_trimmed_is_the_middle(value);
    let (start, end) = choose|start: int, end: int|
        {
            &&& 0 <= start <= end <= value.len()
            &&& text::trimmed(value) == #[trigger] value.subrange(start, end)
            &&& forall|i: int| 0 <= i < start ==> text::white_space(#[trigger] value[i])
            &&& forall|i: int| end <= i < value.len() ==> text::white_space(#[trigger] value[i])
            &&& start < end ==> !text::white_space(value[start]) && !text::white_space(
                value[end - 1],
            )
        };
    if start == end {
        assert forall|i: int| 0 <= i < value.len() implies text::white_space(
            #[trigger] value[i],
        ) by {
            if i < start {
            } else {
                assert(end <= i);
            }
        }
    }
}

/// Why a request cannot be made, in the order in which it is looked at: the conversation that
/// was kept, the messages, the tools, the schema.
pub proof fn law_why_a_request_fails(args: ArgsView, found: Surroundings)
    ensures
        args.client.stateful is Some && found.stateful is Err ==> gathered(args, found) == Err::<
            GatheredView,
            Seq<char>,
        >("failed to read stateful file: "@ + found.stateful->Err_0@),
        args.client.stateful is None && args.client.messages is None && found.stdin is Err
            ==> gathered(args, found) == Err::<GatheredView, Seq<char>>(
            "failed to read stdin: "@ + found.stdin->Err_0@,
        ),
        args.client.stateful is None && args.client.messages is Some && (
        conversation::input_messages(args.client.messages->0, args.client.quick) matches Err(
            message,
        )) ==> gathered(args, found) is Err,
        args.client.stateful is None && args.client.messages is Some
            && conversation::input_messages(args.client.messages->0, args.client.quick) is Ok
            && args.client.tools.len() == 0 && args.client.schema is None ==> gathered(args, found)
            is Ok,
        tools::resolved(args.client.tools, tools::read_views(found.tool_files@)) is Err
            ==> gathered(args, found) is Err,
        args.client.schema matches Some(raw) ==> (constraints::schema_of(
            raw,
            tools::read_view(found.schema_file),
        ) is Err ==> gathered(args, found) is Err),
{
    if args.client.tools.len() == 0 {
        assert(args.client.tools =~= Seq::empty());
    }
}

/// What the key of a run is made of: all that is asked for, each by itself.
pub proof fn law_key_is_of_what_was_asked(args: ArgsView, model: Seq<char>, request: GatheredView)
    ensures
        ({
            let parts = key_parts(args, model, request);
            &&& parts.model == model
            &&& parts.system == args.client.system
            &&& parts.messages == request.conversation
            &&& parts.reasoning == args.client.reasoning
            &&& parts.temperature == args.client.temperature
            &&& parts.max_tokens == (match args.client.max_tokens {
                Some(limit) => limit,
                None => 128_000,
            })
            &&& parts.tools == request.tools
            &&& parts.completions == args.client.completions
            &&& parts.schema == request.schema
        }),
{
}

/// Reasoning is shown where it is asked for, and in an answer that is shown as one object.
pub proof fn law_where_reasoning_is_shown(args: ArgsView)
    ensures
        args.client.reasoning_summary ==> shows_reasoning(args),
        !args.client.reasoning_summary ==> shows_reasoning(args) == (!args.client.stream
            && !args.client.simple),
{
}

} // verus!
