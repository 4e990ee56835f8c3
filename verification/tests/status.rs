use statusline::rows::Span;
use statusline::status::{stats_text, StatusLine};
use statusline::usage::{Counters, Kind, Usage, UsageEvent};
use statusline::wire::{Op, Tick};

fn usage(kind: Kind, input: u64, output: u64, cached: u64) -> UsageEvent {
    UsageEvent {
        kind,
        usage: Usage { input, output, cached },
    }
}

fn tick(width: usize, model: &str, session: Option<&str>) -> Tick {
    Tick {
        width,
        model: model.to_string(),
        session: session.map(|s| s.to_string()),
    }
}

fn bodies(line: &[Span]) -> Vec<String> {
    line.iter()
        .filter(|s| s.bold)
        .map(|s| s.text.trim().to_string())
        .collect()
}

fn width_of(line: &[Span]) -> usize {
    line.iter().map(|s| s.text.chars().count()).sum()
}

#[test]
fn stats_sections() {
    assert_eq!(stats_text(0, 0, 0, 0, None), "in:0 out:0 sum:0");
    assert_eq!(
        stats_text(3000, 1500, 0, 2000, Some(10_000)),
        "in:3k out:1.5k sum:4.5k ctx:20.0% (2k/10k)"
    );
    assert_eq!(
        stats_text(3000, 1500, 1_200_000, 0, Some(10_000)),
        "in:3k out:1.5k sum:4.5k R:1.2M"
    );
}

#[test]
fn wide_row_is_one_line() {
    let mut status = StatusLine::new("/home/me".to_string());
    let lines = status.tick(&tick(100, "m", None), "main", 2, None);
    assert_eq!(lines.len(), 1);
    assert_eq!(
        bodies(&lines[0]),
        vec!["/home/me", "git:main *2", "m", "in:0 out:0 sum:0"]
    );
    let colors: Vec<_> = lines[0]
        .iter()
        .filter(|s| s.bold)
        .map(|s| (s.fg.clone().unwrap(), s.bg.clone().unwrap()))
        .collect();
    assert_eq!(colors[0], ("#cad3f5".to_string(), "#24273a".to_string()));
    assert_eq!(colors[1], ("#cad3f5".to_string(), "#363a4f".to_string()));
    assert_eq!(colors[2], ("#1e2030".to_string(), "#c6a0f6".to_string()));
    assert_eq!(colors[3], ("#cad3f5".to_string(), "#494d64".to_string()));
}

#[test]
fn narrow_row_is_two_lines() {
    let mut status = StatusLine::new("/home/me".to_string());
    let lines = status.tick(&tick(99, "m", None), "main", 0, None);
    assert_eq!(lines.len(), 2);
    assert_eq!(bodies(&lines[0]), vec!["/home/me", "git:main", "m"]);
    assert_eq!(bodies(&lines[1]), vec!["in:0 out:0 sum:0"]);
}

#[test]
fn model_drops_before_git_and_the_rest_never() {
    let mut status = StatusLine::new("/home/me".to_string());
    // The directory takes 12 columns, git 12 and the model 5.
    let at = |status: &mut StatusLine, width: usize| {
        let lines = status.tick(&tick(width, "m", None), "main", 0, None);
        (bodies(&lines[0]).len(), bodies(&lines[1]).len(), width_of(&lines[0]))
    };
    assert_eq!(at(&mut status, 29), (3, 1, 29));
    assert_eq!(at(&mut status, 28), (2, 1, 24));
    assert_eq!(at(&mut status, 24), (2, 1, 24));
    assert_eq!(at(&mut status, 23), (1, 1, 12));
    assert_eq!(at(&mut status, 0), (1, 1, 12));
}

#[test]
fn wide_row_leaves_room_for_the_stats() {
    let long = "m".repeat(200);
    let mut status = StatusLine::new("/home/me".to_string());
    let lines = status.tick(&tick(150, &long, None), "main", 0, None);
    assert_eq!(
        bodies(&lines[0]),
        vec!["/home/me", "git:main", "in:0 out:0 sum:0"]
    );
    // The directory, git and the stats take 44 columns: 56 are left for the model.
    let fits = status.tick(&tick(100, &"m".repeat(52), None), "main", 0, None);
    assert_eq!(bodies(&fits[0]).len(), 4);
    assert_eq!(width_of(&fits[0]), 100);
    let drops = status.tick(&tick(100, &"m".repeat(53), None), "main", 0, None);
    assert_eq!(bodies(&drops[0]).len(), 3);
}

#[test]
fn window_is_looked_up_on_a_switch_of_the_model() {
    let raw = "[model.a]\ncontext_tokens = 1000\n[model.b]\ncontext_tokens = 2000\n";
    let mut status = StatusLine::new(".".to_string());
    status.event(&usage(Kind::Assistant, 500, 1, 0));
    let first = tick(200, "a", Some("S"));
    assert!(status.wants_config(&first));
    let lines = status.tick(&first, "", 0, Some(raw));
    assert!(bodies(&lines[0])[3].ends_with("ctx:50.0% (500/1k)"));
    assert!(!status.wants_config(&first));
    let lines = status.tick(&first, "", 0, None);
    assert!(bodies(&lines[0])[3].ends_with("ctx:50.0% (500/1k)"));
    let other = tick(200, "b", Some("S"));
    assert!(status.wants_config(&other));
    let lines = status.tick(&other, "", 0, Some(raw));
    assert!(bodies(&lines[0])[3].ends_with("ctx:25.0% (500/2k)"));
    let lines = status.tick(&first, "", 0, None);
    assert_eq!(bodies(&lines[0])[3], "in:500 out:1 sum:501");
}

#[test]
fn only_ticks_are_answered() {
    let mut status = StatusLine::new(".".to_string());
    let event = Op::Event(usage(Kind::Assistant, 1, 2, 3));
    assert!(status.op_fits(&event));
    assert_eq!(status.respond(&event, "", 0, None), None);
    assert_eq!(status.counters.pending, Usage { input: 1, output: 2, cached: 3 });
    assert_eq!(status.respond(&Op::Ignored, "", 0, None), None);
    assert_eq!(status.counters.totals, Usage { input: 0, output: 0, cached: 0 });
    let reply = status.respond(&Op::Tick(tick(80, "m", None)), "", 0, None).unwrap();
    assert!(reply.contains("in:1 out:2 sum:3 R:3"));
    assert_eq!(status.counters.totals, Usage { input: 1, output: 2, cached: 3 });
}

#[test]
fn repeated_tick_shows_the_same() {
    let mut status = StatusLine::new("/x".to_string());
    status.event(&usage(Kind::Assistant, 10, 20, 30));
    let t = tick(120, "m", Some("A"));
    let first = status.reply(&t, "b", 1, Some("[model.m]\ncontext_tokens=100"));
    let second = status.reply(&t, "b", 1, None);
    assert_eq!(first, second);
}

#[test]
fn counts_that_do_not_fit_are_told() {
    let mut status = StatusLine::new(".".to_string());
    let big = usage(Kind::Assistant, u64::MAX, 0, 0);
    let one = usage(Kind::Compaction, 1, 1, 0);
    assert!(status.event_fits(&big));
    status.event(&big);
    assert!(!status.event_fits(&one));
    assert!(status.tick_fits(&None));
    let out = usage(Kind::Compaction, 0, 1, 0);
    assert!(status.event_fits(&out));
    status.event(&out);
    assert!(!status.tick_fits(&None));
    assert!(!status.op_fits(&Op::Tick(tick(80, "m", None))));
    assert!(!status.op_fits(&Op::Event(one)));
    assert!(status.op_fits(&Op::Ignored));
}

#[test]
fn replay_restores_a_session() {
    let a = Some("A".to_string());
    let b = Some("B".to_string());
    let history = [
        usage(Kind::Assistant, 100, 10, 1),
        usage(Kind::Compaction, 200, 20, 2),
        usage(Kind::Assistant, 300, 30, 3),
    ];
    let mut live = Counters::new();
    for event in &history {
        live.event(event);
        live.tick(&a);
    }
    let shown = (live.totals, live.last_in);
    assert_eq!(shown, (Usage { input: 600, output: 60, cached: 6 }, 300));
    live.tick(&b);
    assert_eq!((live.totals, live.last_in), (Usage { input: 0, output: 0, cached: 0 }, 0));
    for event in &history {
        live.event(event);
    }
    live.tick(&a);
    assert_eq!((live.totals, live.last_in), shown);
    live.tick(&None);
    assert_eq!((live.totals, live.last_in), shown);
    live.event(&usage(Kind::Compaction, 1, 1, 1));
    live.tick(&a);
    assert_eq!((live.totals, live.last_in), (Usage { input: 601, output: 61, cached: 7 }, 300));
}
