use serde_json::Value;
use statusline::config::live_dir;
use statusline::git::GitCache;
use statusline::status::StatusLine;
use statusline::wire::read_line;

fn object(members: Vec<(&str, Value)>) -> Value {
    let mut map = serde_json::Map::new();
    for (key, value) in members {
        map.insert(key.to_string(), value);
    }
    Value::Object(map)
}

fn usage_event(type_: &str, in_tok: u64, out_tok: u64, cached: u64) -> Value {
    object(vec![
        ("v", Value::from(1)),
        ("type", Value::from(type_)),
        ("content", Value::from("")),
        (
            "usage",
            object(vec![
                ("input_tokens", Value::from(in_tok)),
                ("output_tokens", Value::from(out_tok)),
                ("cached_tokens", Value::from(cached)),
            ]),
        ),
    ])
}

fn event_op(id: u64, ev: Value) -> Value {
    object(vec![
        ("v", Value::from(1)),
        ("op", Value::from("event")),
        ("id", Value::from(id)),
        ("event", ev),
    ])
}

fn tick_op(seq: u64, session: Option<&str>) -> Value {
    let mut members = vec![
        ("v", Value::from(1)),
        ("op", Value::from("tick")),
        ("seq", Value::from(seq)),
        ("width", Value::from(200)),
        ("model", Value::from("m")),
        ("loop_running", Value::from(false)),
        ("thinking", Value::from(0)),
        ("statuses", object(vec![])),
        ("cwd", Value::from("/tmp")),
    ];
    if let Some(s) = session {
        members.push(("session", Value::from(s)));
    }
    object(members)
}

const CONFIG: &str = "[model.m]\ncontext_tokens = 10000\n";

fn run_protocol(lines: &[Value], label: &str) -> Vec<Value> {
    let path = format!("/tmp/statusline-test-{label}");
    let git = GitCache::new(0);
    let mut status = StatusLine::new(live_dir(Some(&path)));
    let mut replies = Vec::new();
    for line in lines {
        let op = read_line(&line.to_string());
        assert!(status.op_fits(&op));
        if let Some(reply) = status.respond(&op, &git.branch, git.dirty, Some(CONFIG)) {
            replies.push(serde_json::from_str::<Value>(&reply).expect("the reply is json"));
        }
    }
    replies
}

fn row_text(reply: &Value) -> String {
    let mut out = String::new();
    for line in reply["lines"].as_array().expect("lines is an array") {
        for span in line.as_array().expect("a line holds spans") {
            out.push_str(span[0].as_str().expect("a span carries text"));
        }
    }
    out
}

#[test]
fn startup_replay_builds_the_totals() {
    let lines = vec![
        event_op(0, usage_event("assistant_message", 1000, 500, 0)),
        event_op(1, usage_event("assistant_message", 2000, 500, 0)),
        tick_op(1, Some("A")),
    ];
    let replies = run_protocol(&lines, "startup");
    assert_eq!(replies.len(), 1);
    let row = row_text(&replies[0]);
    assert!(row.contains("in:3k out:1k sum:4k"), "row: {row}");
    assert!(row.contains("ctx:"), "row: {row}");
    assert!(row.contains("(2k/10k)"), "row: {row}");
}

#[test]
fn session_switch_replaces_the_totals() {
    let lines = vec![
        event_op(0, usage_event("assistant_message", 1000, 500, 0)),
        event_op(1, usage_event("assistant_message", 2000, 500, 0)),
        tick_op(1, Some("A")),
        event_op(2, usage_event("assistant_message", 1000, 1000, 0)),
        tick_op(2, Some("A")),
        event_op(3, usage_event("assistant_message", 500, 50, 0)),
        tick_op(3, Some("B")),
        event_op(4, usage_event("assistant_message", 1000, 500, 0)),
        event_op(5, usage_event("assistant_message", 2000, 500, 0)),
        event_op(6, usage_event("assistant_message", 1000, 1000, 0)),
        tick_op(4, Some("A")),
        tick_op(5, Some("A")),
    ];
    let replies = run_protocol(&lines, "switch");
    assert_eq!(replies.len(), 5);
    let rows: Vec<String> = replies.iter().map(row_text).collect();
    assert!(
        rows[0].contains("in:3k out:1k sum:4k"),
        "A startup: {}",
        rows[0]
    );
    assert!(
        rows[1].contains("in:4k out:2k sum:6k"),
        "A live: {}",
        rows[1]
    );
    assert!(
        rows[2].contains("in:500 out:50 sum:550"),
        "B switch: {}",
        rows[2]
    );
    assert!(
        rows[3].contains("in:4k out:2k sum:6k"),
        "A switchback: {}",
        rows[3]
    );
    assert!(
        rows[4].contains("in:4k out:2k sum:6k"),
        "A stable: {}",
        rows[4]
    );
    assert!(rows[2].contains("(500/10k)"), "B ctx: {}", rows[2]);
    assert!(rows[3].contains("(1k/10k)"), "A ctx: {}", rows[3]);
}

#[test]
fn empty_session_resets_the_state() {
    let lines = vec![
        event_op(0, usage_event("assistant_message", 9000, 900, 0)),
        tick_op(1, Some("A")),
        tick_op(2, Some("C")),
    ];
    let replies = run_protocol(&lines, "empty");
    assert_eq!(replies.len(), 2);
    let row = row_text(&replies[1]);
    assert!(row.contains("in:0 out:0 sum:0"), "row: {row}");
    assert!(!row.contains("ctx"), "stale ctx leaked: {row}");
}

#[test]
fn no_session_ticks_fall_back_to_additive() {
    let lines = vec![
        event_op(0, usage_event("assistant_message", 1000, 500, 0)),
        tick_op(1, None),
        event_op(1, usage_event("assistant_message", 1000, 500, 0)),
        tick_op(2, None),
    ];
    let replies = run_protocol(&lines, "nosession");
    assert_eq!(replies.len(), 2);
    let row = row_text(&replies[1]);
    assert!(row.contains("in:2k out:1k sum:3k"), "row: {row}");
}

#[test]
fn compaction_usage_joins_the_totals() {
    let lines = vec![
        event_op(0, usage_event("assistant_message", 2000, 500, 0)),
        event_op(1, usage_event("compaction_summary", 1000, 500, 0)),
        tick_op(1, Some("A")),
    ];
    let replies = run_protocol(&lines, "compaction");
    assert_eq!(replies.len(), 1);
    let row = row_text(&replies[0]);
    assert!(row.contains("in:3k out:1k sum:4k"), "row: {row}");
    assert!(row.contains("(2k/10k)"), "row: {row}");
}
