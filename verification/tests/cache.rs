use mii_text::cache::{
    add_column_statement, key, lookup, missing_columns, store, KeyParts, Row, StoreEntry,
};
use mii_text::conversation::Message;
use mii_text::json::Json;
use mii_text::output::Prospect;
use rusqlite::Connection;

fn json(text: &str) -> Json {
    Json::parse(text).unwrap()
}

fn key_for(tools: Option<Vec<Json>>, completions: bool) -> String {
    let system = Some("system".to_string());
    let reasoning = Some("low".to_string());
    let messages = vec![Message::user("hello".to_string())];
    key(KeyParts {
        model: "model-a",
        system: &system,
        messages: &messages,
        reasoning: &reasoning,
        temperature: &Some(json("0.5")),
        max_tokens: 123,
        tools: &tools,
        completions,
        schema: &None,
    })
}

#[test]
fn cache_key_changes_for_tools_and_provider_but_not_output_modes() {
    let base = key_for(None, false);

    assert_ne!(base, key_for(Some(vec![json(r#"{ "name": "echo" }"#)]), false));
    assert_ne!(base, key_for(None, true));
    assert_eq!(base, key_for(None, false));
    assert_eq!(base.len(), 64);
    assert!(base.chars().all(|c| c.is_ascii_hexdigit()));
}

#[test]
fn cache_key_is_the_hash_of_the_canonical_document() {
    let document = concat_parts(&[
        r#"{"v":10,"model":"model-a","system":"system","#,
        r#""messages":[{"role":"user","content":"hello"}],"reasoning":"low","#,
        r#""temperature":0.5,"max_tokens":123,"tools":null,"completions":false}"#,
    ]);
    let digest = <sha2::Sha256 as sha2::Digest>::digest(document.as_bytes());
    let hex: String = digest.iter().map(|byte| format!("{byte:02x}")).collect();
    assert_eq!(key_for(None, false), hex);
}

fn concat_parts(parts: &[&str]) -> String {
    parts.concat()
}

fn key_with(system: Option<&str>, temperature: Option<&str>, schema: Option<&str>) -> String {
    key(KeyParts {
        model: "m",
        system: &system.map(|s| s.to_string()),
        messages: &[],
        reasoning: &None,
        temperature: &temperature.map(json),
        max_tokens: 1,
        tools: &None,
        completions: false,
        schema: &schema.map(json),
    })
}

#[test]
fn cache_key_knows_every_part() {
    let keys = [
        key_with(None, None, None),
        key_with(Some(""), None, None),
        key_with(Some("s"), None, None),
        key_with(None, Some("0.25"), None),
        key_with(None, Some("0.5"), None),
        key_with(None, Some("1.0"), None),
        key_with(Some("s"), Some("0.5"), None),
        key_with(None, Some("1"), None),
        key_with(None, None, Some("{}")),
    ];
    for (i, one) in keys.iter().enumerate() {
        for other in &keys[i + 1..] {
            assert_ne!(one, other);
        }
    }
}

const CREATE: &str = "CREATE TABLE responses (
    key TEXT PRIMARY KEY,
    content TEXT NOT NULL,
    assistant TEXT,
    prospect TEXT,
    events TEXT,
    usage TEXT,
    model TEXT,
    created_at INTEGER NOT NULL
);";

fn write(conn: &Connection, row: &Row) {
    conn.execute(
        "INSERT OR REPLACE INTO responses (key, content, assistant, prospect, events, usage, model, created_at) VALUES (?1, ?2, ?3, ?4, ?5, ?6, ?7, ?8)",
        (
            &row.key,
            &row.content,
            &row.assistant,
            &row.prospect,
            &row.events,
            &row.usage,
            &row.model,
            1,
        ),
    )
    .unwrap();
}

fn read(conn: &Connection, key: &str) -> Option<Row> {
    let mut statement = conn
        .prepare(
            "SELECT key, content, assistant, prospect, events, usage, model FROM responses WHERE key = ?1",
        )
        .unwrap();
    let mut rows = statement.query([key]).unwrap();
    rows.next().unwrap().map(|row| Row {
        key: row.get(0).unwrap(),
        content: row.get(1).unwrap(),
        assistant: row.get(2).unwrap(),
        prospect: row.get(3).unwrap(),
        events: row.get(4).unwrap(),
        usage: row.get(5).unwrap(),
        model: row.get(6).unwrap(),
    })
}

#[test]
fn store_and_lookup_preserve_prospect_assistant_usage_and_model() {
    let conn = Connection::open_in_memory().unwrap();
    conn.execute_batch(CREATE).unwrap();
    let usage = Some(json(r#"{ "prompt_tokens": 3, "completion_tokens": 5 }"#));
    let model = Some("model-a".to_string());
    let prospect = Prospect {
        reasoning: Some("because".to_string()),
        content: "rendered".to_string(),
        tool_calls: vec![json(r#"{ "call_id": "call_1" }"#)],
        provider_continuation: None,
        constrained: None,
    };
    let events = vec![json(r#"{ "type": "content_delta", "delta": "rendered" }"#)];

    write(
        &conn,
        &store(StoreEntry {
            key: "key-a",
            content: "{\"content\":\"rendered\"}\n",
            assistant: "rendered",
            prospect: &prospect,
            events: &events,
            usage: &usage,
            model: &model,
        }),
    );

    let hit = lookup(read(&conn, "key-a")).unwrap();
    assert_eq!(hit.content, "{\"content\":\"rendered\"}\n");
    assert_eq!(hit.assistant.as_deref(), Some("rendered"));
    let cached_prospect = hit.prospect.unwrap();
    assert_eq!(cached_prospect.reasoning.as_deref(), Some("because"));
    assert_eq!(cached_prospect.content, "rendered");
    assert_eq!(
        cached_prospect.tool_calls[0].get_str("call_id"),
        Some("call_1")
    );
    assert_eq!(hit.events.unwrap(), events);
    assert_eq!(hit.usage, usage);
    assert_eq!(hit.model, model);
    assert!(lookup(read(&conn, "missing")).is_none());
}

#[test]
fn missing_columns_are_added_without_losing_rows() {
    let conn = Connection::open_in_memory().unwrap();
    conn.execute_batch(
        "CREATE TABLE responses (
            key TEXT PRIMARY KEY,
            content TEXT NOT NULL,
            usage TEXT,
            model TEXT,
            created_at INTEGER NOT NULL
        );
        INSERT INTO responses (key, content, usage, model, created_at)
        VALUES ('old-key', 'old rendered', '{\"total_tokens\":8}', 'old-model', 1);",
    )
    .unwrap();
    let columns = |conn: &Connection| -> Vec<String> {
        let mut statement = conn.prepare("PRAGMA table_info(responses)").unwrap();
        let mut rows = statement.query([]).unwrap();
        let mut names = Vec::new();
        while let Some(row) = rows.next().unwrap() {
            names.push(row.get(1).unwrap());
        }
        names
    };
    let missing = missing_columns(&columns(&conn));
    assert_eq!(missing, vec!["assistant", "prospect", "events"]);
    for column in &missing {
        conn.execute(&add_column_statement(column), []).unwrap();
    }
    assert!(missing_columns(&columns(&conn)).is_empty());

    let hit = lookup(read(&conn, "old-key")).unwrap();
    assert_eq!(hit.content, "old rendered");
    assert_eq!(hit.assistant, None);
    assert!(hit.prospect.is_none());
    assert!(hit.events.is_none());
    assert_eq!(hit.usage, Some(json(r#"{ "total_tokens": 8 }"#)));
    assert_eq!(hit.model.as_deref(), Some("old-model"));
}

#[test]
fn columns_that_cannot_be_read_count_as_empty() {
    let hit = lookup(Some(Row {
        key: "k".to_string(),
        content: "c".to_string(),
        assistant: None,
        prospect: Some("{\"content\":1}".to_string()),
        events: Some("{}".to_string()),
        usage: Some("not json".to_string()),
        model: None,
    }))
    .unwrap();
    assert!(hit.prospect.is_none());
    assert!(hit.events.is_none());
    assert!(hit.usage.is_none());
    assert_eq!(
        missing_columns(&["events".to_string(), "key".to_string()]),
        vec!["assistant", "prospect"]
    );
    assert_eq!(
        add_column_statement("events"),
        "ALTER TABLE responses ADD COLUMN events TEXT"
    );
}
