//! Token counts and timing of a request, as a report.
use vstd::prelude::*;
use vstd::string::*;

use crate::json;
use crate::json::{Entries, Json, JsonView, Object};
use crate::text;

verus! {

broadcast use json::group_lookup;

/// The count under the first of two names that is there.
pub open spec fn count_under(usage: JsonView, name: Seq<char>, other: Seq<char>) -> Option<u64> {
    match usage.get(name) {
        Some(value) => value.as_u64(),
        None => usage.get_u64(other),
    }
}

pub open spec fn prompt_count(usage: JsonView) -> Option<u64> {
    count_under(usage, "input_tokens"@, "prompt_tokens"@)
}

pub open spec fn completion_count(usage: JsonView) -> Option<u64> {
    count_under(usage, "output_tokens"@, "completion_tokens"@)
}

/// The count of reasoning tokens in the details under a name.
pub open spec fn reasoning_under(usage: JsonView, name: Seq<char>) -> Option<u64> {
    match usage.get(name) {
        Some(details) => details.get_u64("reasoning_tokens"@),
        None => None,
    }
}

pub open spec fn reasoning_count(usage: JsonView) -> Option<u64> {
    match reasoning_under(usage, "output_tokens_details"@) {
        Some(count) => Some(count),
        None => reasoning_under(usage, "completion_tokens_details"@),
    }
}

/// The total as reported, else the sum of the two counts.
pub open spec fn total_count(usage: JsonView) -> Option<int> {
    match usage.get_u64("total_tokens"@) {
        Some(total) => Some(total as int),
        None => match (prompt_count(usage), completion_count(usage)) {
            (Some(prompt), Some(completion)) => Some(prompt + completion),
            _ => None,
        },
    }
}

/// Whether the total is a number of 64 bits.
pub open spec fn total_fits(usage: JsonView) -> bool {
    total_count(usage) matches Some(total) ==> total <= u64::MAX
}

/// An entry with a count, where there is one.
pub open spec fn count_entry(entries: Entries, key: Seq<char>, count: Option<u64>) -> Entries {
    match count {
        Some(count) => entries.push((key, JsonView::Unsigned(count))),
        None => entries,
    }
}

/// The report of the Responses API in the shape of the Chat Completions API.
pub open spec fn normalized_usage(usage: JsonView) -> JsonView {
    let prompt = count_entry(Seq::empty(), "prompt_tokens"@, prompt_count(usage));
    let completion = count_entry(prompt, "completion_tokens"@, completion_count(usage));
    let total = match total_count(usage) {
        Some(total) => completion.push(("total_tokens"@, JsonView::Unsigned(total as u64))),
        None => completion,
    };
    JsonView::Object(
        match reasoning_count(usage) {
            Some(count) => total.push(
                (
                    "completion_tokens_details"@,
                    JsonView::Object(seq![("reasoning_tokens"@, JsonView::Unsigned(count))]),
                ),
            ),
            None => total,
        },
    )
}

fn count(usage: &Json, name: &str, other: &str) -> (result: Option<u64>)
    ensures
        result == count_under(usage@, name@, other@),
{
    match usage.get(name) {
        Some(value) => value.as_u64(),
        None => usage.get_u64(other),
    }
}

fn reasoning_tokens(usage: &Json, name: &str) -> (result: Option<u64>)
    ensures
        result == reasoning_under(usage@, name@),
{
    match usage.get(name) {
        Some(details) => details.get_u64("reasoning_tokens"),
        None => None,
    }
}

/// Whether the total of a report is a number of 64 bits.
pub fn total_is_countable(usage: &Json) -> (result: bool)
    ensures
        result == total_fits(usage@),
{
    if usage.get_u64("total_tokens").is_some() {
        return true;
    }
    let prompt = count(usage, "input_tokens", "prompt_tokens");
    let completion = count(usage, "output_tokens", "completion_tokens");
    match (prompt, completion) {
        (Some(prompt), Some(completion)) => prompt <= u64::MAX - completion,
        _ => true,
    }
}

proof fn lemma_count_names()
    ensures
        "prompt_tokens"@.len() == 13,
        "completion_tokens"@.len() == 17,
        "total_tokens"@.len() == 12,
        "completion_tokens_details"@.len() == 25,
{
    reveal_strlit("prompt_tokens");
    reveal_strlit("completion_tokens");
    reveal_strlit("total_tokens");
    reveal_strlit("completion_tokens_details");
}

/// Brings the report of the Responses API into the shape of the Chat Completions API.
pub fn normalize_responses_usage(usage: &Json) -> (result: Json)
    requires
        total_fits(usage@),
    ensures
        result@ == normalized_usage(usage@),
{
    proof {
        lemma_count_names();
    }
    let prompt = count(usage, "input_tokens", "prompt_tokens");
    let completion = count(usage, "output_tokens", "completion_tokens");
    let total = match usage.get_u64("total_tokens") {
        Some(total) => Some(total),
        None => match (prompt, completion) {
            (Some(prompt), Some(completion)) => Some(prompt + completion),
            _ => None,
        },
    };
    let reasoning = match reasoning_tokens(usage, "output_tokens_details") {
        Some(count) => Some(count),
        None => reasoning_tokens(usage, "completion_tokens_details"),
    };
    let mut out = Object::new();
    if let Some(count) = prompt {
        out = out.add("prompt_tokens", Json::Unsigned(count));
    }
    if let Some(count) = completion {
        out = out.add("completion_tokens", Json::Unsigned(count));
    }
    if let Some(count) = total {
        out = out.add("total_tokens", Json::Unsigned(count));
    }
    if let Some(count) = reasoning {
        let details = Object::new().add("reasoning_tokens", Json::Unsigned(count));
        assert(details@ =~= seq![("reasoning_tokens"@, JsonView::Unsigned(count))]);
        out = out.add("completion_tokens_details", Json::Object(details));
    }
    assert(out@ =~= normalized_usage(usage@)->Object_0);
    Json::Object(out)
}

/// The time that a request took, as it is printed.
#[derive(Debug, PartialEq, Eq)]
pub struct Timing {
    /// The seconds from start to end.
    pub latency: String,
    /// Whether any time passed between start and end.
    pub measurable: bool,
    /// The seconds from start to the first sign of an answer, where there was one.
    pub first_token: Option<String>,
    /// Completion tokens per second; not looked at unless time passed and tokens were counted.
    pub rate: String,
}

/// A line that names a value.
pub open spec fn named_line(name: Seq<char>, value: Seq<char>) -> Seq<char> {
    name + value + "\n"@
}

/// A line with a count, where there is one.
pub open spec fn count_line(name: Seq<char>, count: Option<u64>) -> Seq<char> {
    match count {
        Some(count) => named_line(name, text::decimal(count as nat)),
        None => Seq::empty(),
    }
}

/// The counts of a report, a line each.
pub open spec fn usage_lines(usage: JsonView) -> Seq<char> {
    count_line("prompt tokens: "@, usage.get_u64("prompt_tokens"@)) + count_line(
        "completion tokens: "@,
        usage.get_u64("completion_tokens"@),
    ) + count_line(
        "  reasoning tokens: "@,
        reasoning_under(usage, "completion_tokens_details"@),
    ) + count_line("total tokens: "@, usage.get_u64("total_tokens"@))
}

/// The title of a report and the line of the model, where it is known.
pub open spec fn report_head(title: Seq<char>, model: Option<Seq<char>>) -> Seq<char> {
    title + match model {
        Some(model) => named_line("model: "@, model),
        None => Seq::empty(),
    }
}

pub open spec fn latency_line(latency: Seq<char>) -> Seq<char> {
    "latency: "@ + latency + "s\n"@
}

/// The report on a request.
pub open spec fn stats_text(
    model: Option<Seq<char>>,
    usage: Option<JsonView>,
    timing: Timing,
) -> Seq<char> {
    let head = report_head("\n--- stats ---\n"@, model) + latency_line(timing.latency@);
    let first = match timing.first_token {
        Some(seconds) => "time to first token: "@ + seconds@ + "s\n"@,
        None => Seq::empty(),
    };
    let counts = match usage {
        Some(usage) => usage_lines(usage) + if usage.get_u64("completion_tokens"@) is Some
            && timing.measurable {
            "throughput: "@ + timing.rate@ + " tok/s\n"@
        } else {
            Seq::empty()
        },
        None => "usage: <not reported by server>\n"@,
    };
    head + first + counts
}

/// The report on an answer that came from the cache.
pub open spec fn cached_stats_text(
    model: Option<Seq<char>>,
    usage: Option<JsonView>,
    latency: Seq<char>,
) -> Seq<char> {
    report_head("\n--- stats (cached) ---\n"@, model) + latency_line(latency) + match usage {
        Some(usage) => usage_lines(usage),
        None => Seq::empty(),
    }
}

/// The count of completion tokens of a report.
pub fn completion_tokens(usage: &Option<Json>) -> (count: Option<u64>)
    ensures
        count == match *usage {
            Some(usage) => usage@.get_u64("completion_tokens"@),
            None => None,
        },
{
    match usage {
        Some(usage) => usage.get_u64("completion_tokens"),
        None => None,
    }
}

fn push_count(out: &mut String, name: &str, count: Option<u64>)
    ensures
        final(out)@ == old(out)@ + count_line(name@, count),
{
    let ghost before = out@;
    if let Some(count) = count {
        let digits = text::decimal_text(count);
        out.append(name);
        out.append(digits.as_str());
        out.append("\n");
    }
    assert(out@ =~= before + count_line(name@, count));
}

fn push_usage(out: &mut String, usage: &Json)
    ensures
        final(out)@ == old(out)@ + usage_lines(usage@),
{
    let ghost before = out@;
    push_count(out, "prompt tokens: ", usage.get_u64("prompt_tokens"));
    push_count(out, "completion tokens: ", usage.get_u64("completion_tokens"));
    push_count(
        out,
        "  reasoning tokens: ",
        reasoning_tokens(usage, "completion_tokens_details"),
    );
    push_count(out, "total tokens: ", usage.get_u64("total_tokens"));
    assert(out@ =~= before + usage_lines(usage@));
}

fn start_report(title: &str, model: &Option<String>, latency: &str) -> (out: String)
    ensures
        out@ == report_head(title@, text::opt(*model)) + latency_line(latency@),
{
    let mut out = title.to_owned();
    if let Some(model) = model {
        out.append("model: ");
        out.append(model.as_str());
        out.append("\n");
    }
    assert(out@ =~= report_head(title@, text::opt(*model)));
    let ghost head = out@;
    out.append("latency: ");
    out.append(latency);
    out.append("s\n");
    assert(out@ =~= head + latency_line(latency@));
    out
}

/// The report on a request.
pub fn format_stats(model: &Option<String>, usage: &Option<Json>, timing: &Timing) -> (report: String)
    ensures
        report@ == stats_text(text::opt(*model), json::opt_json(*usage), *timing),
{
    let mut out = start_report("\n--- stats ---\n", model, timing.latency.as_str());
    if let Some(seconds) = &timing.first_token {
        out.append("time to first token: ");
        out.append(seconds.as_str());
        out.append("s\n");
    }
    match usage {
        Some(usage) => {
            push_usage(&mut out, usage);
            if usage.get_u64("completion_tokens").is_some() && timing.measurable {
                out.append("throughput: ");
                out.append(timing.rate.as_str());
                out.append(" tok/s\n");
            }
        },
        None => {
            out.append("usage: <not reported by server>\n");
        },
    }
    assert(out@ =~= stats_text(text::opt(*model), json::opt_json(*usage), *timing));
    out
}

/// The report on an answer that came from the cache.
pub fn format_cached_stats(model: &Option<String>, usage: &Option<Json>, latency: &str) -> (report:
    String)
    ensures
        report@ == cached_stats_text(text::opt(*model), json::opt_json(*usage), latency@),
{
    let mut out = start_report("\n--- stats (cached) ---\n", model, latency);
    if let Some(usage) = usage {
        push_usage(&mut out, usage);
    }
    assert(out@ =~= cached_stats_text(text::opt(*model), json::opt_json(*usage), latency@));
    out
}

/// A report is read the same whichever of the two shapes it came in: normalising it a second
/// time changes nothing.
pub proof fn law_normalized_usage_stable(usage: JsonView)
    requires
        total_fits(usage),
    ensures
        normalized_usage(normalized_usage(usage)) == normalized_usage(usage),
{
    broadcast use json::group_lookup;

    lemma_count_names();
    reveal_strlit("prompt_tokens");
    reveal_strlit("total_tokens");
    reveal_strlit("input_tokens");
    reveal_strlit("output_tokens");
    reveal_strlit("output_tokens_details");
    reveal_strlit("reasoning_tokens");
    assert("input_tokens"@.len() == 12 && "output_tokens"@.len() == 13);
    assert("input_tokens"@[0] != "total_tokens"@[0]);
    assert("output_tokens"@[0] != "prompt_tokens"@[0]);
    assert("output_tokens_details"@.len() == 21);
    let once = normalized_usage(usage);
    let none: Entries = Seq::empty();
    if let Some(count) = reasoning_count(usage) {
        let entry = ("reasoning_tokens"@, JsonView::Unsigned(count));
        assert(seq![entry] =~= none.push(entry));
    }
    assert(prompt_count(once) == prompt_count(usage));
    assert(completion_count(once) == completion_count(usage));
    assert(total_count(once) == total_count(usage));
    assert(reasoning_count(once) == reasoning_count(usage));
}

/// The counts of a report, each under the name that the report has it under: the newer name,
/// else the older one. The total is the one reported, else the sum of the two counts.
pub proof fn law_counts_of_a_report(usage: JsonView, key: Seq<char>)
    requires
        total_fits(usage),
    ensures
        ({
            let told = normalized_usage(usage);
            let prompt = match usage.get("input_tokens"@) {
                Some(value) => value.as_u64(),
                None => usage.get_u64("prompt_tokens"@),
            };
            let completion = match usage.get("output_tokens"@) {
                Some(value) => value.as_u64(),
                None => usage.get_u64("completion_tokens"@),
            };
            &&& told.get("prompt_tokens"@) == (match prompt {
                Some(count) => Some(JsonView::Unsigned(count)),
                None => None,
            })
            &&& told.get("completion_tokens"@) == (match completion {
                Some(count) => Some(JsonView::Unsigned(count)),
                None => None,
            })
            &&& match usage.get_u64("total_tokens"@) {
                Some(total) => told.get("total_tokens"@) == Some(JsonView::Unsigned(total)),
                None => match (prompt, completion) {
                    (Some(one), Some(other)) => told.get_u64("total_tokens"@) matches Some(total)
                        && total == one + other,
                    _ => told.get("total_tokens"@) is None,
                },
            }
            &&& match usage.get("output_tokens_details"@) {
                Some(details) => details.get_u64("reasoning_tokens"@) matches Some(count) ==> (
                told.get("completion_tokens_details"@) matches Some(held) && held.get_u64(
                    "reasoning_tokens"@,
                ) == Some(count)),
                None => match usage.get("completion_tokens_details"@) {
                    Some(details) => match details.get_u64("reasoning_tokens"@) {
                        Some(count) => told.get("completion_tokens_details"@) matches Some(held)
                            && held.get_u64("reasoning_tokens"@) == Some(count),
                        None => told.get("completion_tokens_details"@) is None,
                    },
                    None => told.get("completion_tokens_details"@) is None,
                },
            }
            &&& key != "prompt_tokens"@ && key != "completion_tokens"@ && key != "total_tokens"@
                && key != "completion_tokens_details"@ ==> told.get(key) is None
        }),
{
    broadcast use json::group_lookup;

    lemma_count_names();
    let none: Entries = Seq::empty();
    if let Some(count) = reasoning_count(usage) {
        let entry = ("reasoning_tokens"@, JsonView::Unsigned(count));
        assert(seq![entry] =~= none.push(entry));
    }
}

/// The report on a call, line by line. A line of which nothing is known is left out; where the
/// provider reported no usage, the report says so.
pub proof fn law_report_lines(
    usage: JsonView,
    details: JsonView,
    timing: Timing,
    model_name: Seq<char>,
    prompt: u64,
    completion: u64,
    reasoning: u64,
    total: u64,
)
    requires
        usage.get_u64("prompt_tokens"@) == Some(prompt),
        usage.get_u64("completion_tokens"@) == Some(completion),
        usage.get("completion_tokens_details"@) == Some(details),
        details.get_u64("reasoning_tokens"@) == Some(reasoning),
        usage.get_u64("total_tokens"@) == Some(total),
    ensures
        ({
            let counts = "prompt tokens: "@ + text::decimal(prompt as nat) + "\n"@ + (
            "completion tokens: "@ + text::decimal(completion as nat) + "\n"@) + (
            "  reasoning tokens: "@ + text::decimal(reasoning as nat) + "\n"@) + ("total tokens: "@
                + text::decimal(total as nat) + "\n"@);
            let latency = "latency: "@ + timing.latency@ + "s\n"@;
            let first = match timing.first_token {
                Some(seconds) => "time to first token: "@ + seconds@ + "s\n"@,
                None => Seq::empty(),
            };
            let rate = if timing.measurable {
                "throughput: "@ + timing.rate@ + " tok/s\n"@
            } else {
                Seq::empty()
            };
            let named = "model: "@ + model_name + "\n"@;
            &&& usage_lines(usage) == counts
            &&& stats_text(Some(model_name), Some(usage), timing) == "\n--- stats ---\n"@ + named
                + latency + first + (counts + rate)
            &&& stats_text(Some(model_name), None, timing) == "\n--- stats ---\n"@ + named + latency
                + first + "usage: <not reported by server>\n"@
            &&& stats_text(None, None, timing) == "\n--- stats ---\n"@ + latency + first
                + "usage: <not reported by server>\n"@
            &&& cached_stats_text(Some(model_name), Some(usage), timing.latency@)
                == "\n--- stats (cached) ---\n"@ + named + latency + counts
            &&& cached_stats_text(Some(model_name), None, timing.latency@)
                == "\n--- stats (cached) ---\n"@ + named + latency
        }),
{
    assert("\n--- stats ---\n"@ + Seq::<char>::empty() =~= "\n--- stats ---\n"@);
    let named = "model: "@ + model_name + "\n"@;
    let latency = "latency: "@ + timing.latency@ + "s\n"@;
    let head = "\n--- stats (cached) ---\n"@ + named + latency;
    assert(head + Seq::<char>::empty() =~= head);
}

/// A count that is not reported has no line, and takes no other line with it.
pub proof fn law_count_without_a_line(usage: JsonView)
    ensures
        usage_lines(usage) == (match usage.get_u64("prompt_tokens"@) {
            Some(count) => "prompt tokens: "@ + text::decimal(count as nat) + "\n"@,
            None => Seq::empty(),
        }) + (match usage.get_u64("completion_tokens"@) {
            Some(count) => "completion tokens: "@ + text::decimal(count as nat) + "\n"@,
            None => Seq::empty(),
        }) + (match usage.get("completion_tokens_details"@) {
            Some(details) => match details.get_u64("reasoning_tokens"@) {
                Some(count) => "  reasoning tokens: "@ + text::decimal(count as nat) + "\n"@,
                None => Seq::empty(),
            },
            None => Seq::empty(),
        }) + (match usage.get_u64("total_tokens"@) {
            Some(count) => "total tokens: "@ + text::decimal(count as nat) + "\n"@,
            None => Seq::empty(),
        }),
{
}

} // verus!
