use serde_json::Value;
use statusline::rows::{span, Span};
use statusline::usage::{Kind, Usage, UsageEvent};
use statusline::wire::{decode, read_line, reply_text, Op};

fn is_ignored(op: Op) -> bool {
    match op {
        Op::Ignored => true,
        _ => false,
    }
}

fn event(line: &str) -> UsageEvent {
    match read_line(line) {
        Op::Event(event) => event,
        other => panic!("{:?}", other),
    }
}

#[test]
fn malformed_lines_and_other_operations_are_ignored() {
    assert!(is_ignored(read_line("")));
    assert!(is_ignored(read_line("{")));
    assert!(is_ignored(read_line("not json")));
    assert!(is_ignored(read_line("{\"op\":\"tick\"} x")));
    assert!(is_ignored(read_line("[\"tick\"]")));
    assert!(is_ignored(read_line("\"tick\"")));
    assert!(is_ignored(read_line("{\"op\":1}")));
    assert!(is_ignored(read_line("{\"op\":\"quit\"}")));
    assert!(is_ignored(read_line("{\"v\":1}")));
    assert!(is_ignored(decode(&Value::Null)));
}

#[test]
fn events_of_both_kinds_are_read() {
    assert_eq!(
        event("{\"op\":\"event\",\"event\":{\"type\":\"assistant_message\",\"usage\":{\"input_tokens\":10,\"output_tokens\":20,\"cached_tokens\":3}}}"),
        UsageEvent { kind: Kind::Assistant, usage: Usage { input: 10, output: 20, cached: 3 } }
    );
    assert_eq!(
        event("{\"op\":\"event\",\"event\":{\"type\":\"compaction_summary\",\"usage\":{\"input_tokens\":18446744073709551615}}}"),
        UsageEvent { kind: Kind::Compaction, usage: Usage { input: u64::MAX, output: 0, cached: 0 } }
    );
}

#[test]
fn counts_that_are_no_natural_numbers_are_zero() {
    assert_eq!(
        event("{\"op\":\"event\",\"event\":{\"type\":\"assistant_message\",\"usage\":{\"input_tokens\":-1,\"output_tokens\":2.5,\"cached_tokens\":\"3\"}}}"),
        UsageEvent { kind: Kind::Assistant, usage: Usage { input: 0, output: 0, cached: 0 } }
    );
    assert_eq!(
        event("{\"op\":\"event\",\"event\":{\"type\":\"assistant_message\",\"usage\":{}}}").usage,
        Usage { input: 0, output: 0, cached: 0 }
    );
}

#[test]
fn events_without_usage_are_ignored() {
    for line in [
        "{\"op\":\"event\"}",
        "{\"op\":\"event\",\"event\":null}",
        "{\"op\":\"event\",\"event\":{\"usage\":{\"input_tokens\":1}}}",
        "{\"op\":\"event\",\"event\":{\"type\":\"user_message\",\"usage\":{\"input_tokens\":1}}}",
        "{\"op\":\"event\",\"event\":{\"type\":\"assistant_message\"}}",
        "{\"op\":\"event\",\"event\":{\"type\":\"assistant_message\",\"usage\":[1]}}",
        "{\"op\":\"event\",\"event\":{\"type\":\"assistant_message\",\"usage\":7}}",
    ] {
        assert!(is_ignored(read_line(line)), "{}", line);
    }
}

#[test]
fn tick_defaults() {
    for line in [
        "{\"op\":\"tick\"}",
        "{\"op\":\"tick\",\"width\":\"9\",\"model\":\"\",\"session\":null}",
    ] {
        match read_line(line) {
            Op::Tick(tick) => {
                assert_eq!((tick.width, tick.model.as_str(), tick.session), (80, "no-model", None));
            }
            other => panic!("{:?}", other),
        }
    }
}

#[test]
fn tick_members() {
    let op = read_line(
        "{\"op\":\"tick\",\"width\":120,\"model\":\"gpt \\u00e9\",\"session\":\"A\",\"statuses\":{\"width\":3},\"loop_running\":true}",
    );
    match op {
        Op::Tick(tick) => {
            assert_eq!(tick.width, 120);
            assert_eq!(tick.model, "gpt \u{e9}");
            assert_eq!(tick.session.as_deref(), Some("A"));
        }
        other => panic!("{:?}", other),
    }
}

#[test]
fn span_on_the_wire() {
    let spans = vec![span("a\"b", "01", "02", true), span("x", "", "", false)];
    assert_eq!(
        reply_text(&vec![spans]),
        "{\"lines\":[[[\"a\\\"b\",{\"bg\":\"#02\",\"bold\":true,\"fg\":\"#01\"}],[\"x\",{}]]],\"op\":\"status\",\"v\":1}"
    );
}

#[test]
fn reply_on_the_wire() {
    let lines: Vec<Vec<Span>> = vec![
        vec![span("a\nb", "01", "", false), span("c", "", "02", true)],
        vec![],
    ];
    let text = reply_text(&lines);
    assert_eq!(
        text,
        "{\"lines\":[[[\"a\\nb\",{\"fg\":\"#01\"}],[\"c\",{\"bg\":\"#02\",\"bold\":true}]],[]],\"op\":\"status\",\"v\":1}"
    );
    assert!(!text.contains('\n'));
    let read: Value = serde_json::from_str(&text).unwrap();
    assert_eq!(read["v"], Value::from(1));
    assert_eq!(read["lines"][0][0][0], Value::from("a\nb"));
    assert_eq!(reply_text(&vec![]), "{\"lines\":[],\"op\":\"status\",\"v\":1}");
}
