use std::time::Duration;

use mii_text::json::Json;
use mii_text::stats::{
    completion_tokens, format_cached_stats, format_stats, normalize_responses_usage,
    total_is_countable, Timing,
};

fn json(text: &str) -> Json {
    Json::parse(text).unwrap()
}

fn seconds(duration: Duration) -> String {
    format!("{:.3}", duration.as_secs_f64())
}

fn timing(usage: &Option<Json>, total: Duration, first_token: Option<Duration>) -> Timing {
    let rate = completion_tokens(usage)
        .map(|count| format!("{:.1}", count as f64 / total.as_secs_f64()))
        .unwrap_or_default();
    Timing {
        latency: seconds(total),
        measurable: !total.is_zero(),
        first_token: first_token.map(seconds),
        rate,
    }
}

#[test]
fn normalizes_responses_usage_and_derives_total_tokens() {
    let usage = normalize_responses_usage(&json(
        r#"{
            "input_tokens": 3,
            "output_tokens": 7,
            "output_tokens_details": { "reasoning_tokens": 2 }
        }"#,
    ))
    .to_value();

    assert_eq!(usage["prompt_tokens"], 3);
    assert_eq!(usage["completion_tokens"], 7);
    assert_eq!(usage["total_tokens"], 10);
    assert_eq!(usage["completion_tokens_details"]["reasoning_tokens"], 2);
}

#[test]
fn normalizes_chat_shaped_usage_without_losing_existing_total() {
    let usage = normalize_responses_usage(&json(
        r#"{
            "prompt_tokens": 3,
            "completion_tokens": 7,
            "total_tokens": 99,
            "completion_tokens_details": { "reasoning_tokens": 4 }
        }"#,
    ))
    .to_value();

    assert_eq!(usage["prompt_tokens"], 3);
    assert_eq!(usage["completion_tokens"], 7);
    assert_eq!(usage["total_tokens"], 99);
    assert_eq!(usage["completion_tokens_details"]["reasoning_tokens"], 4);
}

#[test]
fn format_stats_includes_usage_latency_first_token_and_throughput() {
    let usage = Some(json(
        r#"{
            "prompt_tokens": 4,
            "completion_tokens": 8,
            "total_tokens": 12,
            "completion_tokens_details": { "reasoning_tokens": 3 }
        }"#,
    ));
    let text = format_stats(
        &Some("model-a".to_string()),
        &usage,
        &timing(
            &usage,
            Duration::from_secs(2),
            Some(Duration::from_millis(250)),
        ),
    );

    assert!(text.contains("--- stats ---"));
    assert!(text.contains("model: model-a"));
    assert!(text.contains("latency: 2.000s"));
    assert!(text.contains("time to first token: 0.250s"));
    assert!(text.contains("prompt tokens: 4"));
    assert!(text.contains("completion tokens: 8"));
    assert!(text.contains("reasoning tokens: 3"));
    assert!(text.contains("total tokens: 12"));
    assert!(text.contains("throughput: 4.0 tok/s"));
    assert_eq!(
        text,
        "\n--- stats ---\nmodel: model-a\nlatency: 2.000s\ntime to first token: 0.250s\n\
         prompt tokens: 4\ncompletion tokens: 8\n  reasoning tokens: 3\ntotal tokens: 12\n\
         throughput: 4.0 tok/s\n"
    );
}

#[test]
fn format_stats_reports_missing_usage_and_cached_stats_do_not_claim_live_run() {
    let missing = format_stats(&None, &None, &timing(&None, Duration::ZERO, None));
    assert!(missing.contains("usage: <not reported by server>"));
    assert!(!missing.contains("throughput:"));

    let usage = Some(json(r#"{ "completion_tokens": 8 }"#));
    let zero_latency = format_stats(&None, &usage, &timing(&usage, Duration::ZERO, None));
    assert!(!zero_latency.contains("throughput:"));

    let cached = format_cached_stats(
        &Some("model-b".to_string()),
        &Some(json(r#"{ "total_tokens": 5 }"#)),
        &seconds(Duration::from_millis(12)),
    );
    assert!(cached.contains("--- stats (cached) ---"));
    assert!(cached.contains("model: model-b"));
    assert!(cached.contains("total tokens: 5"));
    assert_eq!(
        cached,
        "\n--- stats (cached) ---\nmodel: model-b\nlatency: 0.012s\ntotal tokens: 5\n"
    );
}

#[test]
fn counts_that_are_no_numbers_are_left_out() {
    let usage = normalize_responses_usage(&json(
        r#"{"input_tokens":"3","prompt_tokens":4,"output_tokens":-1}"#,
    ));
    assert_eq!(usage.to_compact(), "{}");
    assert_eq!(normalize_responses_usage(&json("null")).to_compact(), "{}");
}

#[test]
fn normalizing_usage_twice_changes_nothing() {
    let once = normalize_responses_usage(&json(
        r#"{"input_tokens":1,"output_tokens":2,"output_tokens_details":{"reasoning_tokens":1}}"#,
    ));
    assert_eq!(normalize_responses_usage(&once), once);
}

#[test]
fn totals_are_checked_before_they_are_added() {
    let usage = |prompt: u64, completion: u64| {
        json(&format!(
            r#"{{"input_tokens":{prompt},"output_tokens":{completion}}}"#
        ))
    };
    assert!(total_is_countable(&usage(u64::MAX, 0)));
    assert!(!total_is_countable(&usage(u64::MAX, 1)));
    assert!(total_is_countable(&json("{}")));
}
