//! Command line arguments, the part of them that a client sends to a server, and how a
//! server puts that part over its own.
use vstd::prelude::*;
use vstd::string::*;

use crate::json;
use crate::json::{Json, JsonView};
use crate::text;
use crate::tools;
use crate::tools::{ToolSource, ToolSourceView};

verus! {

pub const DEFAULT_MAX_TOKENS: u32 = 128_000;

/// The arguments that a client may send to a server. Secrets and the choice of the mode are
/// not among them.
#[derive(Debug, PartialEq)]
pub struct ClientArgs {
    pub model: Option<String>,
    /// Written as it arrives.
    pub stream: bool,
    /// The path of the file to write to.
    pub out: Option<String>,
    pub system: Option<String>,
    /// The messages as JSON text.
    pub messages: Option<String>,
    /// The input is one message.
    pub quick: bool,
    /// The path of the file that keeps the conversation.
    pub stateful: Option<String>,
    pub reasoning: Option<String>,
    pub stats: bool,
    /// The path of the cache database.
    pub cache: Option<String>,
    pub temperature: Option<Json>,
    pub max_tokens: Option<u32>,
    /// Asks for a summary of the reasoning.
    pub reasoning_summary: bool,
    pub tools: Vec<ToolSource>,
    /// Asks for the Chat Completions API.
    pub completions: bool,
    /// Plain text in place of JSON.
    pub simple: bool,
    /// A schema for the answer: JSON text or the path of a file.
    pub schema: Option<String>,
}

pub struct ClientView {
    pub model: Option<Seq<char>>,
    pub stream: bool,
    pub out: Option<Seq<char>>,
    pub system: Option<Seq<char>>,
    pub messages: Option<Seq<char>>,
    pub quick: bool,
    pub stateful: Option<Seq<char>>,
    pub reasoning: Option<Seq<char>>,
    pub stats: bool,
    pub cache: Option<Seq<char>>,
    pub temperature: Option<JsonView>,
    pub max_tokens: Option<u32>,
    pub reasoning_summary: bool,
    pub tools: Seq<ToolSourceView>,
    pub completions: bool,
    pub simple: bool,
    pub schema: Option<Seq<char>>,
}

/// The arguments of a process.
#[derive(Debug, PartialEq)]
pub struct Args {
    pub key: Option<String>,
    pub url: Option<String>,
    pub model: Option<String>,
    pub stream: bool,
    pub out: Option<String>,
    pub system: Option<String>,
    pub messages: Option<String>,
    pub quick: bool,
    pub stateful: Option<String>,
    pub reasoning: Option<String>,
    pub stats: bool,
    pub cache: Option<String>,
    pub temperature: Option<Json>,
    pub max_tokens: Option<u32>,
    pub reasoning_summary: bool,
    pub tools: Vec<ToolSource>,
    pub completions: bool,
    pub simple: bool,
    pub schema: Option<String>,
    pub serve: bool,
    pub ipc: bool,
    pub ipc_path: Option<String>,
    pub status: bool,
    pub quiet: bool,
}

/// What arguments say: those that may travel are apart from those that may not.
pub struct ArgsView {
    pub key: Option<Seq<char>>,
    pub url: Option<Seq<char>>,
    pub client: ClientView,
    pub serve: bool,
    pub ipc: bool,
    pub ipc_path: Option<Seq<char>>,
    pub status: bool,
    pub quiet: bool,
}

impl View for ClientArgs {
    type V = ClientView;

    open spec fn view(&self) -> ClientView {
        ClientView {
            model: text::opt(self.model),
            stream: self.stream,
            out: text::opt(self.out),
            system: text::opt(self.system),
            messages: text::opt(self.messages),
            quick: self.quick,
            stateful: text::opt(self.stateful),
            reasoning: text::opt(self.reasoning),
            stats: self.stats,
            cache: text::opt(self.cache),
            temperature: json::opt_json(self.temperature),
            max_tokens: self.max_tokens,
            reasoning_summary: self.reasoning_summary,
            tools: tools::source_views(self.tools@),
            completions: self.completions,
            simple: self.simple,
            schema: text::opt(self.schema),
        }
    }
}

impl View for Args {
    type V = ArgsView;

    open spec fn view(&self) -> ArgsView {
        ArgsView {
            key: text::opt(self.key),
            url: text::opt(self.url),
            client: ClientView {
                model: text::opt(self.model),
                stream: self.stream,
                out: text::opt(self.out),
                system: text::opt(self.system),
                messages: text::opt(self.messages),
                quick: self.quick,
                stateful: text::opt(self.stateful),
                reasoning: text::opt(self.reasoning),
                stats: self.stats,
                cache: text::opt(self.cache),
                temperature: json::opt_json(self.temperature),
                max_tokens: self.max_tokens,
                reasoning_summary: self.reasoning_summary,
                tools: tools::source_views(self.tools@),
                completions: self.completions,
                simple: self.simple,
                schema: text::opt(self.schema),
            },
            serve: self.serve,
            ipc: self.ipc,
            ipc_path: text::opt(self.ipc_path),
            status: self.status,
            quiet: self.quiet,
        }
    }
}

impl ClientView {
    /// Nothing is asked for.
    pub open spec fn none() -> ClientView {
        ClientView {
            model: None,
            stream: false,
            out: None,
            system: None,
            messages: None,
            quick: false,
            stateful: None,
            reasoning: None,
            stats: false,
            cache: None,
            temperature: None,
            max_tokens: None,
            reasoning_summary: false,
            tools: Seq::empty(),
            completions: false,
            simple: false,
            schema: None,
        }
    }
}

impl ArgsView {
    /// Nothing is asked for.
    pub open spec fn none() -> ArgsView {
        ArgsView {
            key: None,
            url: None,
            client: ClientView::none(),
            serve: false,
            ipc: false,
            ipc_path: None,
            status: false,
            quiet: false,
        }
    }
}

/// Copies of the tool sources.
pub fn copy_sources(sources: &[ToolSource]) -> (copies: Vec<ToolSource>)
    ensures
        tools::source_views(copies@) == tools::source_views(sources@),
{
    let mut copies: Vec<ToolSource> = Vec::new();
    let mut i: usize = 0;
    while i < sources.len()
        invariant
            i <= sources@.len(),
            copies@.len() == i,
            forall|j: int| 0 <= j < i ==> (#[trigger] copies@[j])@ == sources@[j]@,
        decreases sources@.len() - i,
    {
        copies.push(sources[i].clone());
        i += 1;
    }
    assert(tools::source_views(copies@) =~= tools::source_views(sources@));
    copies
}

impl Default for ClientArgs {
    fn default() -> (args: ClientArgs)
        ensures
            args@ == ClientView::none(),
    {
        let args = ClientArgs {
            model: None,
            stream: false,
            out: None,
            system: None,
            messages: None,
            quick: false,
            stateful: None,
            reasoning: None,
            stats: false,
            cache: None,
            temperature: None,
            max_tokens: None,
            reasoning_summary: false,
            tools: Vec::new(),
            completions: false,
            simple: false,
            schema: None,
        };
        assert(args@.tools =~= Seq::empty());
        args
    }
}

impl Default for Args {
    fn default() -> (args: Args)
        ensures
            args@ == ArgsView::none(),
    {
        let args = Args {
            key: None,
            url: None,
            model: None,
            stream: false,
            out: None,
            system: None,
            messages: None,
            quick: false,
            stateful: None,
            reasoning: None,
            stats: false,
            cache: None,
            temperature: None,
            max_tokens: None,
            reasoning_summary: false,
            tools: Vec::new(),
            completions: false,
            simple: false,
            schema: None,
            serve: false,
            ipc: false,
            ipc_path: None,
            status: false,
            quiet: false,
        };
        assert(args@.client.tools =~= Seq::empty());
        args
    }
}

impl Clone for ClientArgs {
    fn clone(&self) -> (copy: ClientArgs)
        ensures
            copy@ == self@,
    {
        ClientArgs {
            model: text::copy_opt(&self.model),
            stream: self.stream,
            out: text::copy_opt(&self.out),
            system: text::copy_opt(&self.system),
            messages: text::copy_opt(&self.messages),
            quick: self.quick,
            stateful: text::copy_opt(&self.stateful),
            reasoning: text::copy_opt(&self.reasoning),
            stats: self.stats,
            cache: text::copy_opt(&self.cache),
            temperature: json::copy_opt(&self.temperature),
            max_tokens: self.max_tokens,
            reasoning_summary: self.reasoning_summary,
            tools: copy_sources(self.tools.as_slice()),
            completions: self.completions,
            simple: self.simple,
            schema: text::copy_opt(&self.schema),
        }
    }
}

impl Clone for Args {
    fn clone(&self) -> (copy: Args)
        ensures
            copy@ == self@,
    {
        Args {
            key: text::copy_opt(&self.key),
            url: text::copy_opt(&self.url),
            model: text::copy_opt(&self.model),
            stream: self.stream,
            out: text::copy_opt(&self.out),
            system: text::copy_opt(&self.system),
            messages: text::copy_opt(&self.messages),
            quick: self.quick,
            stateful: text::copy_opt(&self.stateful),
            reasoning: text::copy_opt(&self.reasoning),
            stats: self.stats,
            cache: text::copy_opt(&self.cache),
            temperature: json::copy_opt(&self.temperature),
            max_tokens: self.max_tokens,
            reasoning_summary: self.reasoning_summary,
            tools: copy_sources(self.tools.as_slice()),
            completions: self.completions,
            simple: self.simple,
            schema: text::copy_opt(&self.schema),
            serve: self.serve,
            ipc: self.ipc,
            ipc_path: text::copy_opt(&self.ipc_path),
            status: self.status,
            quiet: self.quiet,
        }
    }
}

/// The client's value, where it has one, over the server's.
pub open spec fn over<T>(client: Option<T>, server: Option<T>) -> Option<T> {
    match client {
        Some(value) => Some(value),
        None => server,
    }
}

/// The client's arguments over the server's: a value of the client's wins, a switch can be
/// turned on but not off, and tools of the client's replace those of the server.
pub open spec fn merged(server: ClientView, client: ClientView) -> ClientView {
    ClientView {
        model: over(client.model, server.model),
        stream: server.stream || client.stream,
        out: over(client.out, server.out),
        system: over(client.system, server.system),
        messages: over(client.messages, server.messages),
        quick: server.quick || client.quick,
        stateful: over(client.stateful, server.stateful),
        reasoning: over(client.reasoning, server.reasoning),
        stats: server.stats || client.stats,
        cache: over(client.cache, server.cache),
        temperature: over(client.temperature, server.temperature),
        max_tokens: over(client.max_tokens, server.max_tokens),
        reasoning_summary: server.reasoning_summary || client.reasoning_summary,
        tools: if client.tools.len() > 0 {
            client.tools
        } else {
            server.tools
        },
        completions: server.completions || client.completions,
        simple: server.simple || client.simple,
        schema: over(client.schema, server.schema),
    }
}

fn prefer(client: Option<String>, server: Option<String>) -> (result: Option<String>)
    ensures
        text::opt(result) == over(text::opt(client), text::opt(server)),
{
    match client {
        Some(value) => Some(value),
        None => server,
    }
}

fn prefer_json(client: Option<Json>, server: Option<Json>) -> (result: Option<Json>)
    ensures
        json::opt_json(result) == over(json::opt_json(client), json::opt_json(server)),
{
    match client {
        Some(value) => Some(value),
        None => server,
    }
}

fn prefer_number(client: Option<u32>, server: Option<u32>) -> (result: Option<u32>)
    ensures
        result == over(client, server),
{
    match client {
        Some(value) => Some(value),
        None => server,
    }
}

impl Args {
    /// The part that may travel to a server.
    pub fn to_client(&self) -> (client: ClientArgs)
        ensures
            client@ == self@.client,
    {
        ClientArgs {
            model: text::copy_opt(&self.model),
            stream: self.stream,
            out: text::copy_opt(&self.out),
            system: text::copy_opt(&self.system),
            messages: text::copy_opt(&self.messages),
            quick: self.quick,
            stateful: text::copy_opt(&self.stateful),
            reasoning: text::copy_opt(&self.reasoning),
            stats: self.stats,
            cache: text::copy_opt(&self.cache),
            temperature: json::copy_opt(&self.temperature),
            max_tokens: self.max_tokens,
            reasoning_summary: self.reasoning_summary,
            tools: copy_sources(self.tools.as_slice()),
            completions: self.completions,
            simple: self.simple,
            schema: text::copy_opt(&self.schema),
        }
    }

    /// Puts the arguments of a client over these.
    pub fn merge_client(&mut self, client: ClientArgs)
        ensures
            final(self)@ == (ArgsView {
                client: merged(old(self)@.client, client@),
                ..old(self)@
            }),
    {
        self.model = prefer(client.model, self.model.take());
        self.stream = self.stream || client.stream;
        self.out = prefer(client.out, self.out.take());
        self.system = prefer(client.system, self.system.take());
        self.messages = prefer(client.messages, self.messages.take());
        self.quick = self.quick || client.quick;
        self.stateful = prefer(client.stateful, self.stateful.take());
        self.reasoning = prefer(client.reasoning, self.reasoning.take());
        self.stats = self.stats || client.stats;
        self.cache = prefer(client.cache, self.cache.take());
        self.temperature = prefer_json(client.temperature, self.temperature.take());
        self.max_tokens = prefer_number(client.max_tokens, self.max_tokens);
        self.reasoning_summary = self.reasoning_summary || client.reasoning_summary;
        if client.tools.len() > 0 {
            self.tools = client.tools;
        }
        self.completions = self.completions || client.completions;
        self.simple = self.simple || client.simple;
        self.schema = prefer(client.schema, self.schema.take());
    }
}

/// The arguments after a switch; nothing where the flag is no switch.
pub open spec fn switched(args: ArgsView, flag: Seq<char>) -> Option<ArgsView> {
    let client = args.client;
    if flag == "--stream"@ {
        Some(ArgsView { client: ClientView { stream: true, ..client }, ..args })
    } else if flag == "--quick"@ {
        Some(ArgsView { client: ClientView { quick: true, ..client }, ..args })
    } else if flag == "--stats"@ {
        Some(ArgsView { client: ClientView { stats: true, ..client }, ..args })
    } else if flag == "--reasoning-summary"@ {
        Some(ArgsView { client: ClientView { reasoning_summary: true, ..client }, ..args })
    } else if flag == "--completions"@ {
        Some(ArgsView { client: ClientView { completions: true, ..client }, ..args })
    } else if flag == "--simple"@ {
        Some(ArgsView { client: ClientView { simple: true, ..client }, ..args })
    } else if flag == "--quiet"@ {
        Some(ArgsView { quiet: true, ..args })
    } else if flag == "--status"@ {
        Some(ArgsView { status: true, ..args })
    } else if flag == "--serve"@ {
        Some(ArgsView { serve: true, ..args })
    } else {
        None
    }
}

/// Whether a flag takes a value.
pub open spec fn takes_value(flag: Seq<char>) -> bool {
    ||| flag == "--key"@
    ||| flag == "--url"@
    ||| flag == "--model"@
    ||| flag == "--out"@
    ||| flag == "--system"@
    ||| flag == "--messages"@
    ||| flag == "--stateful"@
    ||| flag == "--reasoning"@
    ||| flag == "--cache"@
    ||| flag == "--schema"@
    ||| flag == "--temperature"@
    ||| flag == "--max-tokens"@
    ||| flag == "--tool"@
    ||| flag == "--tools"@
}

/// The arguments after a flag whose value is taken as it is; nothing for another flag.
pub open spec fn with_text(args: ArgsView, flag: Seq<char>, value: Seq<char>) -> Option<ArgsView> {
    let client = args.client;
    if flag == "--key"@ {
        Some(ArgsView { key: Some(value), ..args })
    } else if flag == "--url"@ {
        Some(ArgsView { url: Some(value), ..args })
    } else if flag == "--model"@ {
        Some(ArgsView { client: ClientView { model: Some(value), ..client }, ..args })
    } else if flag == "--out"@ {
        Some(ArgsView { client: ClientView { out: Some(value), ..client }, ..args })
    } else if flag == "--system"@ {
        Some(ArgsView { client: ClientView { system: Some(value), ..client }, ..args })
    } else if flag == "--messages"@ {
        Some(ArgsView { client: ClientView { messages: Some(value), ..client }, ..args })
    } else if flag == "--stateful"@ {
        Some(ArgsView { client: ClientView { stateful: Some(value), ..client }, ..args })
    } else if flag == "--reasoning"@ {
        Some(ArgsView { client: ClientView { reasoning: Some(value), ..client }, ..args })
    } else if flag == "--cache"@ {
        Some(ArgsView { client: ClientView { cache: Some(value), ..client }, ..args })
    } else if flag == "--schema"@ {
        Some(ArgsView { client: ClientView { schema: Some(value), ..client }, ..args })
    } else {
        None
    }
}

/// The arguments after a flag and its value, or what is wrong with the value. `temperature` is
/// the value as a number, where it is one.
pub open spec fn with_value(
    args: ArgsView,
    flag: Seq<char>,
    value: Seq<char>,
    temperature: Option<JsonView>,
) -> Result<ArgsView, Seq<char>> {
    let client = args.client;
    if with_text(args, flag, value) is Some {
        Ok(with_text(args, flag, value)->0)
    } else if flag == "--temperature"@ {
        match temperature {
            Some(_) => Ok(ArgsView { client: ClientView { temperature, ..client }, ..args }),
            None => Err(
                "invalid --temperature value '"@ + value + "': expected float"@,
            ),
        }
    } else if flag == "--max-tokens"@ {
        match text::u32_of(value) {
            Some(count) => Ok(
                ArgsView { client: ClientView { max_tokens: Some(count), ..client }, ..args },
            ),
            None => Err(
                "invalid --max-tokens value '"@ + value + "': expected positive integer"@,
            ),
        }
    } else if flag == "--tool"@ {
        Ok(
            ArgsView {
                client: ClientView {
                    tools: client.tools.push(ToolSourceView::Inline(value)),
                    ..client
                },
                ..args
            },
        )
    } else {
        Ok(
            ArgsView {
                client: ClientView {
                    tools: client.tools.push(ToolSourceView::File(value)),
                    ..client
                },
                ..args
            },
        )
    }
}

/// What the command line asks for.
pub enum ParseView {
    Args(ArgsView),
    Help,
}

/// What the command line asks for.
#[derive(Debug, PartialEq)]
pub enum ParseOutcome {
    Args(Args),
    /// The usage is to be shown, and nothing else done.
    Help,
}

impl View for ParseOutcome {
    type V = ParseView;

    open spec fn view(&self) -> ParseView {
        match self {
            ParseOutcome::Args(args) => ParseView::Args(args@),
            ParseOutcome::Help => ParseView::Help,
        }
    }
}

/// Whether a token is the path that may follow `--ipc`.
pub open spec fn is_ipc_path(token: Seq<char>) -> bool {
    !(token.len() > 0 && token[0] == '-')
}

/// What the tokens from position `at` on make of the arguments. `temperatures` holds for each
/// token the number it says, where it says one.
pub open spec fn parsed_from(
    tokens: Seq<Seq<char>>,
    temperatures: Seq<Option<JsonView>>,
    at: nat,
    args: ArgsView,
) -> Result<ParseView, Seq<char>>
    decreases tokens.len() - at,
{
    if at >= tokens.len() {
        Ok(ParseView::Args(args))
    } else {
        let flag = tokens[at as int];
        if switched(args, flag) is Some {
            parsed_from(tokens, temperatures, at + 1, switched(args, flag)->0)
        } else if takes_value(flag) {
            if at + 1 >= tokens.len() {
                Err("missing value for "@ + flag)
            } else {
                match with_value(args, flag, tokens[at as int + 1], temperatures[at as int + 1]) {
                    Ok(next) => parsed_from(tokens, temperatures, at + 2, next),
                    Err(message) => Err(message),
                }
            }
        } else if flag == "--ipc"@ {
            if at + 1 < tokens.len() && is_ipc_path(tokens[at as int + 1]) {
                parsed_from(
                    tokens,
                    temperatures,
                    at + 2,
                    ArgsView { ipc: true, ipc_path: Some(tokens[at as int + 1]), ..args },
                )
            } else {
                parsed_from(tokens, temperatures, at + 1, ArgsView { ipc: true, ..args })
            }
        } else if flag == "-h"@ || flag == "--help"@ {
            Ok(ParseView::Help)
        } else {
            Err("unknown argument: "@ + flag)
        }
    }
}

/// What each of the numbers says, where there is one.
pub open spec fn number_views(numbers: Seq<Option<Json>>) -> Seq<Option<JsonView>> {
    Seq::new(numbers.len(), |i: int| json::opt_json(numbers[i]))
}

/// What the parser returns.
pub open spec fn parse_result(result: Result<ParseOutcome, String>) -> Result<
    ParseView,
    Seq<char>,
> {
    match result {
        Ok(outcome) => Ok(outcome@),
        Err(message) => Err(message@),
    }
}

fn is_valued(flag: &str) -> (result: bool)
    ensures
        result == takes_value(flag@),
{
    text::same(flag, "--key")
        || text::same(flag, "--url")
        || text::same(flag, "--model")
        || text::same(flag, "--out")
        || text::same(flag, "--system")
        || text::same(flag, "--messages")
        || text::same(flag, "--stateful")
        || text::same(flag, "--reasoning")
        || text::same(flag, "--cache")
        || text::same(flag, "--schema")
        || text::same(flag, "--temperature")
        || text::same(flag, "--max-tokens")
        || text::same(flag, "--tool")
        || text::same(flag, "--tools")
}

impl Args {
    fn set_switch(&mut self, flag: &str) -> (known: bool)
        ensures
            match switched(old(self)@, flag@) {
                Some(args) => known && final(self)@ == args,
                None => !known && final(self)@ == old(self)@,
            },
    {
        if text::same(flag, "--stream") {
            self.stream = true;
        } else if text::same(flag, "--quick") {
            self.quick = true;
        } else if text::same(flag, "--stats") {
            self.stats = true;
        } else if text::same(flag, "--reasoning-summary") {
            self.reasoning_summary = true;
        } else if text::same(flag, "--completions") {
            self.completions = true;
        } else if text::same(flag, "--simple") {
            self.simple = true;
        } else if text::same(flag, "--quiet") {
            self.quiet = true;
        } else if text::same(flag, "--status") {
            self.status = true;
        } else if text::same(flag, "--serve") {
            self.serve = true;
        } else {
            return false;
        }
        true
    }

    fn push_tool(&mut self, source: ToolSource)
        ensures
            final(self)@ == (ArgsView {
                client: ClientView {
                    tools: old(self)@.client.tools.push(source@),
                    ..old(self)@.client
                },
                ..old(self)@
            }),
    {
        let ghost before = self.tools@;
        self.tools.push(source);
        assert(tools::source_views(self.tools@) =~= tools::source_views(before).push(source@));
    }

    fn set_text(&mut self, flag: &str, value: &String) -> (known: bool)
        ensures
            match with_text(old(self)@, flag@, value@) {
                Some(args) => known && final(self)@ == args,
                None => !known && final(self)@ == old(self)@,
            },
    {
        if text::same(flag, "--key") {
            self.key = Some(value.clone());
        } else if text::same(flag, "--url") {
            self.url = Some(value.clone());
        } else if text::same(flag, "--model") {
            self.model = Some(value.clone());
        } else if text::same(flag, "--out") {
            self.out = Some(value.clone());
        } else if text::same(flag, "--system") {
            self.system = Some(value.clone());
        } else if text::same(flag, "--messages") {
            self.messages = Some(value.clone());
        } else if text::same(flag, "--stateful") {
            self.stateful = Some(value.clone());
        } else if text::same(flag, "--reasoning") {
            self.reasoning = Some(value.clone());
        } else if text::same(flag, "--cache") {
            self.cache = Some(value.clone());
        } else if text::same(flag, "--schema") {
            self.schema = Some(value.clone());
        } else {
            return false;
        }
        true
    }

    fn set_value(&mut self, flag: &str, value: &String, temperature: &Option<Json>) -> (result:
        Result<(), String>)
        requires
            takes_value(flag@),
        ensures
            match with_value(old(self)@, flag@, value@, json::opt_json(*temperature)) {
                Ok(args) => result is Ok && final(self)@ == args,
                Err(message) => {
                    &&& result matches Err(found) && found@ == message
                    &&& final(self)@ == old(self)@
                },
            },
    {
        if self.set_text(flag, value) {
            return Ok(());
        }
        if text::same(flag, "--temperature") {
            if temperature.is_none() {
                return Err(
                    text::concat3("invalid --temperature value '", value.as_str(), "': expected float"),
                );
            }
            self.temperature = json::copy_opt(temperature);
        } else if text::same(flag, "--max-tokens") {
            match text::parse_u32(value.as_str()) {
                Some(count) => {
                    self.max_tokens = Some(count);
                },
                None => {
                    return Err(
                        text::concat3(
                            "invalid --max-tokens value '",
                            value.as_str(),
                            "': expected positive integer",
                        ),
                    );
                },
            }
        } else if text::same(flag, "--tool") {
            self.push_tool(ToolSource::Inline(value.clone()));
        } else {
            self.push_tool(ToolSource::File(value.clone()));
        }
        Ok(())
    }
}

/// Reads the tokens of a command line. `temperatures` holds for each token the number it says,
/// where it says one.
pub fn parse_from(tokens: &[String], temperatures: &[Option<Json>]) -> (result: Result<
    ParseOutcome,
    String,
>)
    requires
        temperatures@.len() == tokens@.len(),
    ensures
        parse_result(result) == parsed_from(
            text::texts(tokens@),
            number_views(temperatures@),
            0,
            ArgsView::none(),
        ),
{
    let ghost all = text::texts(tokens@);
    let ghost numbers = number_views(temperatures@);
    let mut args = Args::default();
    let mut i: usize = 0;
    while i < tokens.len()
        invariant
            i <= tokens@.len(),
            temperatures@.len() == tokens@.len(),
            all == text::texts(tokens@),
            numbers == number_views(temperatures@),
            parsed_from(all, numbers, 0, ArgsView::none()) == parsed_from(
                all,
                numbers,
                i as nat,
                args@,
            ),
        decreases tokens@.len() - i,
    {
        let flag: &str = tokens[i].as_str();
        assert(flag@ == all[i as int]);
        if args.set_switch(flag) {
            i += 1;
        } else if is_valued(flag) {
            if i == tokens.len() - 1 {
                return Err(text::concat("missing value for ", flag));
            }
            assert(all[i + 1] == tokens@[i + 1]@);
            assert(numbers[i + 1] == json::opt_json(temperatures@[i + 1]));
            match args.set_value(flag, &tokens[i + 1], &temperatures[i + 1]) {
                Ok(_) => {
                    i += 2;
                },
                Err(message) => {
                    return Err(message);
                },
            }
        } else if text::same(flag, "--ipc") {
            args.ipc = true;
            i += 1;
            if i < tokens.len() && !text::starts_with(tokens[i].as_str(), '-') {
                assert(all[i as int] == tokens@[i as int]@);
                args.ipc_path = Some(tokens[i].clone());
                i += 1;
            }
        } else if text::same(flag, "-h") || text::same(flag, "--help") {
            return Ok(ParseOutcome::Help);
        } else {
            return Err(text::concat("unknown argument: ", flag));
        }
    }
    Ok(ParseOutcome::Args(args))
}

/// The usage text.
pub fn usage() -> (text: &'static str)
    ensures
        text@ == "usage: mii-text [--key <s>] [--url <s>] [--model <s>] [--stream] [--out <path>]\n[--system <s>] [--messages <json>] [--quick] [--stateful <path>]\n[--reasoning <none|low|medium|high|xhigh>] [--stats] [--cache <path>]\n[--temperature <float>] [--max-tokens <int>] [--reasoning-summary]\n[--tool <json>] [--tools <path>] [--completions] [--simple]\n[--schema <path|json>]\n[--serve] [--ipc [<path>]] [--status] [--quiet]"@,
{
    "usage: mii-text [--key <s>] [--url <s>] [--model <s>] [--stream] [--out <path>]\n[--system <s>] [--messages <json>] [--quick] [--stateful <path>]\n[--reasoning <none|low|medium|high|xhigh>] [--stats] [--cache <path>]\n[--temperature <float>] [--max-tokens <int>] [--reasoning-summary]\n[--tool <json>] [--tools <path>] [--completions] [--simple]\n[--schema <path|json>]\n[--serve] [--ipc [<path>]] [--status] [--quiet]"
}

/// Whether a word is a level of reasoning.
pub open spec fn is_reasoning_level(level: Seq<char>) -> bool {
    ||| level == "none"@
    ||| level == "low"@
    ||| level == "medium"@
    ||| level == "high"@
    ||| level == "xhigh"@
}

/// The complaint about a word that is no level of reasoning.
pub open spec fn reasoning_complaint(level: Seq<char>) -> Seq<char> {
    "invalid --reasoning value '"@ + level + "': expected none|low|medium|high|xhigh"@
}

/// Accepts the levels of reasoning, as they are.
pub fn map_reasoning(level: &str) -> (result: Result<&'static str, String>)
    ensures
        match result {
            Ok(mapped) => is_reasoning_level(level@) && mapped@ == level@,
            Err(message) => !is_reasoning_level(level@) && message@ == reasoning_complaint(level@),
        },
{
    if text::same(level, "none") {
        Ok("none")
    } else if text::same(level, "low") {
        Ok("low")
    } else if text::same(level, "medium") {
        Ok("medium")
    } else if text::same(level, "high") {
        Ok("high")
    } else if text::same(level, "xhigh") {
        Ok("xhigh")
    } else {
        Err(
            text::concat3(
                "invalid --reasoning value '",
                level,
                "': expected none|low|medium|high|xhigh",
            ),
        )
    }
}

/// The path of the socket: in the runtime directory, where there is one, else in `/tmp`.
pub open spec fn socket_path(runtime_dir: Option<Seq<char>>) -> Seq<char> {
    match runtime_dir {
        Some(dir) => if dir.len() == 0 {
            "/tmp/mii-text.sock"@
        } else if dir.last() == '/' {
            dir + "mii-text.sock"@
        } else {
            dir + "/"@ + "mii-text.sock"@
        },
        None => "/tmp/mii-text.sock"@,
    }
}

/// The path of the socket that server and clients use unless they are told another.
pub fn default_ipc_socket_from(runtime_dir: Option<&str>) -> (path: String)
    ensures
        path@ == socket_path(json::opt_text(runtime_dir)),
{
    match runtime_dir {
        Some(dir) => if text::is_empty(dir) {
            "/tmp/mii-text.sock".to_owned()
        } else if text::ends_with(dir, '/') {
            text::concat(dir, "mii-text.sock")
        } else {
            text::concat3(dir, "/", "mii-text.sock")
        },
        None => "/tmp/mii-text.sock".to_owned(),
    }
}

/// What a process is to do.
#[derive(Clone, Copy, Debug, PartialEq, Eq)]
pub enum Mode {
    Serve,
    AskStatus,
    AskServer,
    Local,
}

impl ArgsView {
    /// What a process with these arguments does: serving comes before asking a server, and
    /// without either it does the work itself.
    pub open spec fn mode(self) -> Mode {
        if self.serve {
            Mode::Serve
        } else if self.ipc && self.status {
            Mode::AskStatus
        } else if self.ipc {
            Mode::AskServer
        } else {
            Mode::Local
        }
    }
}

impl Args {
    /// What a process with these arguments does.
    pub fn mode(&self) -> (mode: Mode)
        ensures
            mode == self@.mode(),
    {
        if self.serve {
            Mode::Serve
        } else if self.ipc {
            if self.status {
                Mode::AskStatus
            } else {
                Mode::AskServer
            }
        } else {
            Mode::Local
        }
    }

    /// The path of the socket: the one asked for, else the default one.
    pub fn socket(&self, runtime_dir: Option<&str>) -> (path: String)
        ensures
            path@ == (match self@.ipc_path {
                Some(path) => path,
                None => socket_path(json::opt_text(runtime_dir)),
            }),
    {
        match &self.ipc_path {
            Some(path) => path.clone(),
            None => default_ipc_socket_from(runtime_dir),
        }
    }
}

/// Putting nothing over the server's arguments leaves them, nothing below the client's shows
/// through, and putting the same arguments over twice is putting them over once.
pub proof fn law_merge_defaults(server: ClientView, client: ClientView)
    ensures
        merged(server, ClientView::none()) == server,
        merged(ClientView::none(), client) == client,
        merged(merged(server, client), client) == merged(server, client),
{
    assert(client.tools.len() == 0 ==> client.tools =~= Seq::empty());
}

/// Arguments put over one another in turn can be put together first.
pub proof fn law_merge_associative(server: ClientView, first: ClientView, second: ClientView)
    ensures
        merged(merged(server, first), second) == merged(server, merged(first, second)),
{
}

proof fn lemma_flags_differ()
    ensures
        "-h"@.len() == 2,
        "--key"@.len() == 5 && "--key"@[2] == 'k',
        "--url"@.len() == 5 && "--url"@[2] == 'u',
        "--out"@.len() == 5 && "--out"@[2] == 'o',
        "--ipc"@.len() == 5 && "--ipc"@[2] == 'i',
        "--tool"@.len() == 6 && "--tool"@[2] == 't',
        "--help"@.len() == 6 && "--help"@[2] == 'h',
        "--model"@.len() == 7 && "--model"@[2] == 'm',
        "--tools"@.len() == 7 && "--tools"@[2] == 't',
        "--cache"@.len() == 7 && "--cache"@[2] == 'c',
        "--quick"@.len() == 7 && "--quick"@[2] == 'q' && "--quick"@[5] == 'c',
        "--quiet"@.len() == 7 && "--quiet"@[2] == 'q' && "--quiet"@[5] == 'e',
        "--stats"@.len() == 7 && "--stats"@[2] == 's' && "--stats"@[3] == 't',
        "--serve"@.len() == 7 && "--serve"@[2] == 's' && "--serve"@[3] == 'e',
        "--system"@.len() == 8 && "--system"@[3] == 'y',
        "--simple"@.len() == 8 && "--simple"@[3] == 'i',
        "--schema"@.len() == 8 && "--schema"@[3] == 'c',
        "--stream"@.len() == 8 && "--stream"@[3] == 't' && "--stream"@[4] == 'r',
        "--status"@.len() == 8 && "--status"@[3] == 't' && "--status"@[4] == 'a',
        "--messages"@.len() == 10 && "--messages"@[2] == 'm',
        "--stateful"@.len() == 10 && "--stateful"@[2] == 's',
        "--reasoning"@.len() == 11,
        "--max-tokens"@.len() == 12,
        "--temperature"@.len() == 13 && "--temperature"@[2] == 't',
        "--completions"@.len() == 13 && "--completions"@[2] == 'c',
        "--reasoning-summary"@.len() == 19,
{
    reveal_strlit("-h");
    reveal_strlit("--key");
    reveal_strlit("--url");
    reveal_strlit("--out");
    reveal_strlit("--ipc");
    reveal_strlit("--tool");
    reveal_strlit("--help");
    reveal_strlit("--model");
    reveal_strlit("--tools");
    reveal_strlit("--cache");
    reveal_strlit("--quick");
    reveal_strlit("--quiet");
    reveal_strlit("--stats");
    reveal_strlit("--serve");
    reveal_strlit("--system");
    reveal_strlit("--simple");
    reveal_strlit("--schema");
    reveal_strlit("--stream");
    reveal_strlit("--status");
    reveal_strlit("--messages");
    reveal_strlit("--stateful");
    reveal_strlit("--reasoning");
    reveal_strlit("--max-tokens");
    reveal_strlit("--temperature");
    reveal_strlit("--completions");
    reveal_strlit("--reasoning-summary");
}

/// Where nothing is given, nothing is set.
pub proof fn law_no_flags_set_nothing(temperatures: Seq<Option<JsonView>>)
    ensures
        parsed_from(Seq::empty(), temperatures, 0, ArgsView::none()) matches Ok(
            ParseView::Args(args),
        ) && {
            &&& args.key is None
            &&& args.url is None
            &&& args.client.model is None
            &&& args.client.out is None
            &&& args.client.system is None
            &&& args.client.messages is None
            &&& args.client.stateful is None
            &&& args.client.reasoning is None
            &&& args.client.cache is None
            &&& args.client.schema is None
            &&& args.client.temperature is None
            &&& args.client.max_tokens is None
            &&& args.client.tools.len() == 0
            &&& !args.client.stream
            &&& !args.client.quick
            &&& !args.client.stats
            &&& !args.client.reasoning_summary
            &&& !args.client.completions
            &&& !args.client.simple
            &&& !args.quiet
            &&& !args.status
            &&& !args.serve
            &&& !args.ipc
            &&& args.ipc_path is None
        },
{
}

/// How many tokens a flag takes: itself and its value, where it has one.
pub open spec fn flag_width(tokens: Seq<Seq<char>>, at: nat) -> nat {
    let flag = tokens[at as int];
    if flag == "--key"@ || flag == "--url"@ || flag == "--model"@ || flag == "--out"@ || flag
        == "--system"@ || flag == "--messages"@ || flag == "--stateful"@ || flag == "--reasoning"@
        || flag == "--cache"@ || flag == "--schema"@ || flag == "--temperature"@ || flag
        == "--max-tokens"@ || flag == "--tool"@ || flag == "--tools"@ {
        2
    } else if flag == "--ipc"@ && at + 1 < tokens.len() && !(tokens[at as int + 1].len() > 0
        && tokens[at as int + 1][0] == '-') {
        2
    } else {
        1
    }
}

/// Whether a token stands among the flags, from position `at` on.
pub open spec fn given(tokens: Seq<Seq<char>>, at: nat, flag: Seq<char>) -> bool
    decreases tokens.len() + 1 - at,
{
    at < tokens.len() && (tokens[at as int] == flag || given(
        tokens,
        at + flag_width(tokens, at),
        flag,
    ))
}

/// The position of the last value that a flag is given, from position `at` on.
pub open spec fn last_place(tokens: Seq<Seq<char>>, at: nat, flag: Seq<char>) -> Option<int>
    decreases tokens.len() + 1 - at,
{
    if at >= tokens.len() {
        None
    } else {
        match last_place(tokens, at + flag_width(tokens, at), flag) {
            Some(place) => Some(place),
            None => if tokens[at as int] == flag && flag_width(tokens, at) == 2 {
                Some(at as int + 1)
            } else {
                None
            },
        }
    }
}

/// The last value that a flag is given from position `at` on, else what there was before.
pub open spec fn last_value(
    tokens: Seq<Seq<char>>,
    at: nat,
    flag: Seq<char>,
    before: Option<Seq<char>>,
) -> Option<Seq<char>> {
    match last_place(tokens, at, flag) {
        Some(place) => Some(tokens[place]),
        None => before,
    }
}

/// The sources of tools that the flags from position `at` on name.
pub open spec fn named_sources(tokens: Seq<Seq<char>>, at: nat) -> Seq<ToolSourceView>
    decreases tokens.len() + 1 - at,
{
    if at >= tokens.len() {
        Seq::empty()
    } else {
        let rest = named_sources(tokens, at + flag_width(tokens, at));
        if tokens[at as int] == "--tool"@ && at + 1 < tokens.len() {
            seq![ToolSourceView::Inline(tokens[at as int + 1])] + rest
        } else if tokens[at as int] == "--tools"@ && at + 1 < tokens.len() {
            seq![ToolSourceView::File(tokens[at as int + 1])] + rest
        } else {
            rest
        }
    }
}

/// The sources of tools are those that the flags name, one for each flag and in their order,
/// behind those there were.
pub proof fn law_every_tool_source_is_kept(
    tokens: Seq<Seq<char>>,
    temperatures: Seq<Option<JsonView>>,
    at: nat,
    args: ArgsView,
    parsed: ArgsView,
)
    requires
        parsed_from(tokens, temperatures, at, args) == Ok::<ParseView, Seq<char>>(
            ParseView::Args(parsed),
        ),
    ensures
        parsed.client.tools == args.client.tools + named_sources(tokens, at),
    decreases tokens.len() - at,
{
    lemma_flags_differ();
    let sources = args.client.tools;
    if at >= tokens.len() {
        assert(sources + named_sources(tokens, at) =~= sources);
    } else {
        let flag = tokens[at as int];
        let next = next_args(tokens, temperatures, at, args);
        lemma_one_flag(tokens, temperatures, at, args);
        law_every_tool_source_is_kept(
            tokens,
            temperatures,
            at + flag_width(tokens, at),
            next,
            parsed,
        );
        assert(sources + named_sources(tokens, at) =~= next.client.tools + named_sources(
            tokens,
            at + flag_width(tokens, at),
        ));
    }
}

spec fn next_args(
    tokens: Seq<Seq<char>>,
    temperatures: Seq<Option<JsonView>>,
    at: nat,
    args: ArgsView,
) -> ArgsView {
    let flag = tokens[at as int];
    if switched(args, flag) is Some {
        switched(args, flag)->0
    } else if takes_value(flag) {
        with_value(args, flag, tokens[at as int + 1], temperatures[at as int + 1])->Ok_0
    } else if flag_width(tokens, at) == 2 {
        ArgsView { ipc: true, ipc_path: Some(tokens[at as int + 1]), ..args }
    } else {
        ArgsView { ipc: true, ..args }
    }
}

proof fn lemma_one_flag(
    tokens: Seq<Seq<char>>,
    temperatures: Seq<Option<JsonView>>,
    at: nat,
    args: ArgsView,
)
    requires
        at < tokens.len(),
        parsed_from(tokens, temperatures, at, args) matches Ok(ParseView::Args(_)),
    ensures
        at + flag_width(tokens, at) <= tokens.len(),
        parsed_from(tokens, temperatures, at, args) == parsed_from(
            tokens,
            temperatures,
            at + flag_width(tokens, at),
            next_args(tokens, temperatures, at, args),
        ),
{
    lemma_flags_differ();
}

/// Of a flag whose value is a text the last value counts, and only that of this very flag.
pub proof fn law_last_text_counts(
    tokens: Seq<Seq<char>>,
    temperatures: Seq<Option<JsonView>>,
    at: nat,
    args: ArgsView,
    parsed: ArgsView,
)
    requires
        parsed_from(tokens, temperatures, at, args) == Ok::<ParseView, Seq<char>>(
            ParseView::Args(parsed),
        ),
    ensures
        parsed.key == last_value(tokens, at, "--key"@, args.key),
        parsed.url == last_value(tokens, at, "--url"@, args.url),
        parsed.client.model == last_value(tokens, at, "--model"@, args.client.model),
        parsed.client.out == last_value(tokens, at, "--out"@, args.client.out),
        parsed.client.system == last_value(tokens, at, "--system"@, args.client.system),
        parsed.client.messages == last_value(tokens, at, "--messages"@, args.client.messages),
        parsed.client.stateful == last_value(tokens, at, "--stateful"@, args.client.stateful),
        parsed.client.reasoning == last_value(tokens, at, "--reasoning"@, args.client.reasoning),
        parsed.client.cache == last_value(tokens, at, "--cache"@, args.client.cache),
        parsed.client.schema == last_value(tokens, at, "--schema"@, args.client.schema),
        parsed.ipc_path == last_value(tokens, at, "--ipc"@, args.ipc_path),
    decreases tokens.len() - at,
{
    lemma_flags_differ();
    if at < tokens.len() {
        lemma_one_flag(tokens, temperatures, at, args);
        law_last_text_counts(
            tokens,
            temperatures,
            at + flag_width(tokens, at),
            next_args(tokens, temperatures, at, args),
            parsed,
        );
    }
}

/// Of a flag whose value is a number the last value counts.
pub proof fn law_last_number_counts(
    tokens: Seq<Seq<char>>,
    temperatures: Seq<Option<JsonView>>,
    at: nat,
    args: ArgsView,
    parsed: ArgsView,
)
    requires
        parsed_from(tokens, temperatures, at, args) == Ok::<ParseView, Seq<char>>(
            ParseView::Args(parsed),
        ),
    ensures
        match last_place(tokens, at, "--temperature"@) {
            Some(place) => parsed.client.temperature is Some && parsed.client.temperature
                == temperatures[place],
            None => parsed.client.temperature == args.client.temperature,
        },
        match last_place(tokens, at, "--max-tokens"@) {
            Some(place) => parsed.client.max_tokens is Some && parsed.client.max_tokens
                == text::u32_of(tokens[place]),
            None => parsed.client.max_tokens == args.client.max_tokens,
        },
    decreases tokens.len() - at,
{
    lemma_flags_differ();
    if at < tokens.len() {
        lemma_one_flag(tokens, temperatures, at, args);
        law_last_number_counts(
            tokens,
            temperatures,
            at + flag_width(tokens, at),
            next_args(tokens, temperatures, at, args),
            parsed,
        );
    }
}

/// A switch is on where it is given or was on before, and only there.
pub proof fn law_switches_are_those_given(
    tokens: Seq<Seq<char>>,
    temperatures: Seq<Option<JsonView>>,
    at: nat,
    args: ArgsView,
    parsed: ArgsView,
)
    requires
        parsed_from(tokens, temperatures, at, args) == Ok::<ParseView, Seq<char>>(
            ParseView::Args(parsed),
        ),
    ensures
        parsed.client.stream == (args.client.stream || given(tokens, at, "--stream"@)),
        parsed.client.quick == (args.client.quick || given(tokens, at, "--quick"@)),
        parsed.client.stats == (args.client.stats || given(tokens, at, "--stats"@)),
        parsed.client.reasoning_summary == (args.client.reasoning_summary || given(
            tokens,
            at,
            "--reasoning-summary"@,
        )),
        parsed.client.completions == (args.client.completions || given(
            tokens,
            at,
            "--completions"@,
        )),
        parsed.client.simple == (args.client.simple || given(tokens, at, "--simple"@)),
        parsed.quiet == (args.quiet || given(tokens, at, "--quiet"@)),
        parsed.status == (args.status || given(tokens, at, "--status"@)),
        parsed.serve == (args.serve || given(tokens, at, "--serve"@)),
        parsed.ipc == (args.ipc || given(tokens, at, "--ipc"@)),
        !given(tokens, at, "-h"@),
        !given(tokens, at, "--help"@),
    decreases tokens.len() - at,
{
    lemma_flags_differ();
    if at < tokens.len() {
        lemma_one_flag(tokens, temperatures, at, args);
        law_switches_are_those_given(
            tokens,
            temperatures,
            at + flag_width(tokens, at),
            next_args(tokens, temperatures, at, args),
            parsed,
        );
    }
}

/// A command line that names nothing but tools is accepted, and each of its pairs of a flag and
/// a value is a source.
pub proof fn law_pairs_are_sources(
    tokens: Seq<Seq<char>>,
    temperatures: Seq<Option<JsonView>>,
    at: nat,
    args: ArgsView,
    n: nat,
)
    requires
        tokens.len() == at + 2 * n,
        forall|i: int|
            0 <= i < n ==> #[trigger] tokens[at + 2 * i] == "--tool"@ || tokens[at + 2 * i]
                == "--tools"@,
    ensures
        parsed_from(tokens, temperatures, at, args) matches Ok(ParseView::Args(parsed)) && {
            let before = args.client.tools.len();
            &&& parsed.client.tools.len() == before + n
            &&& forall|i: int|
                0 <= i < before ==> #[trigger] parsed.client.tools[i] == args.client.tools[i]
            &&& forall|i: int|
                0 <= i < n ==> parsed.client.tools[before + i] == (if #[trigger] tokens[at + 2 * i]
                    == "--tool"@ {
                    ToolSourceView::Inline(tokens[at + 2 * i + 1])
                } else {
                    ToolSourceView::File(tokens[at + 2 * i + 1])
                })
        },
    decreases n,
{
    lemma_flags_differ();
    if n > 0 {
        assert(tokens[at as int + 2 * 0] == tokens[at as int]);
        let next = next_args(tokens, temperatures, at, args);
        let rest = (n - 1) as nat;
        assert forall|i: int| 0 <= i < rest implies #[trigger] tokens[at + 2 + 2 * i] == "--tool"@
            || tokens[at + 2 + 2 * i] == "--tools"@ by {
            assert(tokens[at + 2 * (i + 1)] == tokens[at + 2 + 2 * i]);
        }
        law_pairs_are_sources(tokens, temperatures, at + 2, next, rest);
        let parsed = parsed_from(tokens, temperatures, at, args)->Ok_0->Args_0;
        let before = args.client.tools.len();
        assert forall|i: int| 0 <= i < n implies parsed.client.tools[before + i] == (
        if #[trigger] tokens[at + 2 * i] == "--tool"@ {
            ToolSourceView::Inline(tokens[at + 2 * i + 1])
        } else {
            ToolSourceView::File(tokens[at + 2 * i + 1])
        }) by {
            if i > 0 {
                assert(tokens[at + 2 + 2 * (i - 1)] == tokens[at + 2 * i]);
                assert(parsed.client.tools[before + 1 + (i - 1)] == parsed.client.tools[before
                    + i]);
            } else {
                assert(next.client.tools[before as int] == parsed.client.tools[before as int]);
            }
        }
        assert forall|i: int| 0 <= i < before implies #[trigger] parsed.client.tools[i]
            == args.client.tools[i] by {
            assert(parsed.client.tools[i] == next.client.tools[i]);
        }
    }
}

/// What follows an accepted command line and begins with a flag counts as it would behind the
/// arguments that the command line gives.
pub proof fn law_further_flags_follow(
    tokens: Seq<Seq<char>>,
    temperatures: Seq<Option<JsonView>>,
    at: nat,
    args: ArgsView,
    parsed: ArgsView,
    further: Seq<Seq<char>>,
)
    requires
        at <= tokens.len(),
        parsed_from(tokens, temperatures, at, args) == Ok::<ParseView, Seq<char>>(
            ParseView::Args(parsed),
        ),
        further.len() > 0 ==> further[0].len() > 0 && further[0][0] == '-',
    ensures
        parsed_from(tokens + further, temperatures, at, args) == parsed_from(
            tokens + further,
            temperatures,
            tokens.len(),
            parsed,
        ),
    decreases tokens.len() - at,
{
    lemma_flags_differ();
    let all = tokens + further;
    if at < tokens.len() {
        lemma_one_flag(tokens, temperatures, at, args);
        assert(all[at as int] == tokens[at as int]);
        if at + 1 < tokens.len() {
            assert(all[at as int + 1] == tokens[at as int + 1]);
        } else if further.len() > 0 {
            assert(all[at as int + 1] == further[0]);
        }
        law_further_flags_follow(
            tokens,
            temperatures,
            at + flag_width(tokens, at),
            next_args(tokens, temperatures, at, args),
            parsed,
            further,
        );
    }
}

/// A further source of tools comes behind those there are, and changes nothing else.
pub proof fn law_further_tool_is_added(
    tokens: Seq<Seq<char>>,
    temperatures: Seq<Option<JsonView>>,
    args: ArgsView,
    parsed: ArgsView,
    value: Seq<char>,
)
    requires
        parsed_from(tokens, temperatures, 0, args) == Ok::<ParseView, Seq<char>>(
            ParseView::Args(parsed),
        ),
    ensures
        parsed_from(tokens + seq!["--tool"@, value], temperatures, 0, args) == Ok::<
            ParseView,
            Seq<char>,
        >(
            ParseView::Args(
                ArgsView {
                    client: ClientView {
                        tools: parsed.client.tools.push(ToolSourceView::Inline(value)),
                        ..parsed.client
                    },
                    ..parsed
                },
            ),
        ),
        parsed_from(tokens + seq!["--tools"@, value], temperatures, 0, args) == Ok::<
            ParseView,
            Seq<char>,
        >(
            ParseView::Args(
                ArgsView {
                    client: ClientView {
                        tools: parsed.client.tools.push(ToolSourceView::File(value)),
                        ..parsed.client
                    },
                    ..parsed
                },
            ),
        ),
{
    lemma_flags_differ();
    reveal_strlit("--tool");
    reveal_strlit("--tools");
    let tool = seq!["--tool"@, value];
    let file = seq!["--tools"@, value];
    law_further_flags_follow(tokens, temperatures, 0, args, parsed, tool);
    law_further_flags_follow(tokens, temperatures, 0, args, parsed, file);
    let at = tokens.len() as int;
    reveal_with_fuel(parsed_from, 3);
    assert((tokens + tool)[at] == "--tool"@);
    assert((tokens + tool)[at + 1] == value);
    assert((tokens + file)[at] == "--tools"@);
    assert((tokens + file)[at + 1] == value);
}

/// What is refused at a flag: a value that is missing or is no number where one is wanted, and
/// a token that is no flag. A demand for help ends the parse.
pub proof fn law_refused_flags(
    tokens: Seq<Seq<char>>,
    temperatures: Seq<Option<JsonView>>,
    at: nat,
    args: ArgsView,
)
    requires
        at < tokens.len(),
    ensures
        ({
            let flag = tokens[at as int];
            let result = parsed_from(tokens, temperatures, at, args);
            let alone = at + 1 == tokens.len();
            let value = tokens[at as int + 1];
            &&& flag_width(tokens, at) == 2 && alone ==> result == Err::<ParseView, Seq<char>>(
                "missing value for "@ + flag,
            )
            &&& flag == "--temperature"@ && !alone && temperatures[at as int + 1] is None ==> result
                == Err::<ParseView, Seq<char>>(
                "invalid --temperature value '"@ + value + "': expected float"@,
            )
            &&& flag == "--max-tokens"@ && !alone && text::u32_of(value) is None ==> result == Err::<
                ParseView,
                Seq<char>,
            >("invalid --max-tokens value '"@ + value + "': expected positive integer"@)
            &&& flag == "-h"@ || flag == "--help"@ ==> result == Ok::<ParseView, Seq<char>>(
                ParseView::Help,
            )
            &&& flag != "-h"@ && flag != "--help"@ && flag != "--ipc"@ && flag != "--stream"@ && flag
                != "--quick"@ && flag != "--stats"@ && flag != "--reasoning-summary"@ && flag
                != "--completions"@ && flag != "--simple"@ && flag != "--quiet"@ && flag
                != "--status"@ && flag != "--serve"@ && flag_width(tokens, at) == 1 ==> result
                == Err::<ParseView, Seq<char>>("unknown argument: "@ + flag)
        }),
{
    lemma_flags_differ();
}

/// A flag that is not refused is taken: the parse goes on behind it and its value.
pub proof fn law_taken_flags(
    tokens: Seq<Seq<char>>,
    temperatures: Seq<Option<JsonView>>,
    at: nat,
    args: ArgsView,
)
    requires
        at + 1 < tokens.len(),
        flag_width(tokens, at) == 2,
        tokens[at as int] == "--temperature"@ ==> temperatures[at as int + 1] is Some,
        tokens[at as int] == "--max-tokens"@ ==> text::u32_of(tokens[at as int + 1]) is Some,
    ensures
        exists|next: ArgsView|
            parsed_from(tokens, temperatures, at, args) == #[trigger] parsed_from(
                tokens,
                temperatures,
                at + 2,
                next,
            ),
{
    lemma_flags_differ();
    let next = next_args(tokens, temperatures, at, args);
    assert(parsed_from(tokens, temperatures, at, args) == parsed_from(
        tokens,
        temperatures,
        at + 2,
        next,
    ));
}

/// A value that the client gives counts, else that of the server; a switch is on where either
/// turned it on; the tools are those of the client, if it names any.
pub proof fn law_client_comes_first(server: ClientView, client: ClientView)
    ensures
        ({
            let run = merged(server, client);
            &&& run.model == if client.model is Some { client.model } else { server.model }
            &&& run.out == if client.out is Some { client.out } else { server.out }
            &&& run.system == if client.system is Some { client.system } else { server.system }
            &&& run.messages == if client.messages is Some {
                client.messages
            } else {
                server.messages
            }
            &&& run.stateful == if client.stateful is Some {
                client.stateful
            } else {
                server.stateful
            }
            &&& run.reasoning == if client.reasoning is Some {
                client.reasoning
            } else {
                server.reasoning
            }
            &&& run.cache == if client.cache is Some { client.cache } else { server.cache }
            &&& run.temperature == if client.temperature is Some {
                client.temperature
            } else {
                server.temperature
            }
            &&& run.max_tokens == if client.max_tokens is Some {
                client.max_tokens
            } else {
                server.max_tokens
            }
            &&& run.schema == if client.schema is Some { client.schema } else { server.schema }
            &&& run.tools == if client.tools.len() > 0 { client.tools } else { server.tools }
            &&& run.stream == (server.stream || client.stream)
            &&& run.quick == (server.quick || client.quick)
            &&& run.stats == (server.stats || client.stats)
            &&& run.reasoning_summary == (server.reasoning_summary || client.reasoning_summary)
            &&& run.completions == (server.completions || client.completions)
            &&& run.simple == (server.simple || client.simple)
        }),
{
}

/// A process that is to serve serves, whatever else it is told; one that is to ask a server asks
/// for its status or for an answer; any other does the work itself.
pub proof fn law_what_a_process_does(args: ArgsView)
    ensures
        args.mode() is Serve <==> args.serve,
        args.mode() is AskStatus <==> !args.serve && args.ipc && args.status,
        args.mode() is AskServer <==> !args.serve && args.ipc && !args.status,
        args.mode() is Local <==> !args.serve && !args.ipc,
{
}

/// The socket lies directly in the runtime directory, else in `/tmp`.
pub proof fn law_where_the_socket_is(dir: Seq<char>)
    ensures
        socket_path(None) == "/tmp/mii-text.sock"@,
        dir.len() == 0 ==> socket_path(Some(dir)) == "/tmp/mii-text.sock"@,
        dir.len() > 0 && dir.last() != '/' ==> socket_path(Some(dir)) == dir + "/mii-text.sock"@,
        dir.len() > 0 && dir.last() != '/' ==> socket_path(Some(dir.push('/'))) == socket_path(
            Some(dir),
        ),
{
    reveal_strlit("/");
    reveal_strlit("mii-text.sock");
    reveal_strlit("/mii-text.sock");
    assert("/mii-text.sock"@ =~= "/"@ + "mii-text.sock"@);
    assert(dir + "/"@ + "mii-text.sock"@ =~= dir + ("/"@ + "mii-text.sock"@));
    assert(dir + "/"@ =~= dir.push('/'));
}

} // verus!
