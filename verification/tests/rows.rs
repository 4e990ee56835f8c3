use statusline::rows::{fit, row_cols, row_spans, short_dir, span, Seg, Span};

fn seg(text: &str, fg: &'static str, bg: &'static str) -> Seg {
    Seg {
        text: text.to_string(),
        fg,
        bg,
    }
}

fn three() -> Vec<Seg> {
    vec![
        seg("dir", "aa", "01"),
        seg("git:x", "bb", "02"),
        seg("model", "cc", "03"),
    ]
}

fn texts(segs: &[Seg]) -> Vec<String> {
    segs.iter().map(|s| s.text.clone()).collect()
}

fn shown(s: &Span) -> (String, Option<String>, Option<String>, bool) {
    (s.text.clone(), s.fg.clone(), s.bg.clone(), s.bold)
}

fn want(text: &str, fg: &str, bg: &str, bold: bool) -> (String, Option<String>, Option<String>, bool) {
    let color = |c: &str| if c.is_empty() { None } else { Some(format!("#{c}")) };
    (text.to_string(), color(fg), color(bg), bold)
}

#[test]
fn span_leaves_out_empty_colors() {
    assert_eq!(shown(&span("x", "24273a", "", false)), want("x", "24273a", "", false));
    assert_eq!(span("x", "24273a", "", false).fg.as_deref(), Some("#24273a"));
    assert_eq!(shown(&span("", "", "ff", true)), want("", "", "ff", true));
}

#[test]
fn row_is_caps_bodies_arrows_and_an_end_cap() {
    let spans = row_spans(&three());
    let got: Vec<_> = spans.iter().map(shown).collect();
    assert_eq!(
        got,
        vec![
            want("\u{E0B6}", "01", "01", false),
            want(" dir ", "aa", "01", true),
            want("\u{E0B4}", "01", "02", false),
            want("\u{E0B6}", "02", "02", false),
            want(" git:x ", "bb", "02", true),
            want("\u{E0B4}", "02", "03", false),
            want("\u{E0B6}", "03", "03", false),
            want(" model ", "cc", "03", true),
            want("\u{E0B4}", "03", "", false),
        ]
    );
}

#[test]
fn row_of_nothing_is_an_end_cap() {
    let spans = row_spans(&[]);
    let got: Vec<_> = spans.iter().map(shown).collect();
    assert_eq!(got, vec![want("\u{E0B4}", "", "", false)]);
}

#[test]
fn no_arrow_from_a_pill_without_background() {
    let spans = row_spans(&[seg("a", "", ""), seg("b", "", "02")]);
    let got: Vec<String> = spans.iter().map(|s| s.text.clone()).collect();
    assert_eq!(got, vec!["\u{E0B6}", " a ", "\u{E0B6}", " b ", "\u{E0B4}"]);
}

#[test]
fn columns_are_what_is_drawn() {
    let segs = three();
    let drawn: usize = row_spans(&segs).iter().map(|s| s.text.chars().count()).sum();
    assert_eq!(row_cols(&segs), drawn);
    assert_eq!(row_cols(&segs), 7 + 9 + 9);
    assert_eq!(row_cols(&[]), 0);
    assert_eq!(row_cols(&[seg("h\u{e9}h\u{e9}", "", "")]), 8);
}

#[test]
fn fit_drops_from_the_end() {
    let segs = three();
    assert_eq!(texts(&fit(&segs, 25)), vec!["dir", "git:x", "model"]);
    assert_eq!(texts(&fit(&segs, 24)), vec!["dir", "git:x"]);
    assert_eq!(texts(&fit(&segs, 16)), vec!["dir", "git:x"]);
    assert_eq!(texts(&fit(&segs, 15)), vec!["dir"]);
    assert_eq!(texts(&fit(&segs, 0)), vec!["dir"]);
    assert_eq!(texts(&fit(&[], 0)), Vec::<String>::new());
}

#[test]
fn fit_keeps_the_colors() {
    let kept = fit(&three(), 16);
    assert_eq!((kept[1].fg, kept[1].bg), ("bb", "02"));
}

#[test]
fn short_dir_keeps_the_end() {
    assert_eq!(short_dir(""), "");
    assert_eq!(short_dir("/home/me/a"), "/home/me/a");
    assert_eq!(short_dir("0123456789abcdef"), "0123456789abcdef");
    assert_eq!(short_dir("x0123456789abcdef"), "...0123456789abcdef");
    assert_eq!(short_dir("/home/me/projects/statusline"), "...jects/statusline");
    assert_eq!(
        short_dir("\u{e4}\u{e4}0123456789abcde\u{df}"),
        "...0123456789abcde\u{df}"
    );
    assert_eq!(short_dir("...0123456789abcdef"), "...0123456789abcdef");
}
