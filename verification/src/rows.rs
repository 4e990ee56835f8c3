//! Pill rows: the segments of a row, the styled spans that draw them, and how a
//! row is fitted to a width.
use vstd::prelude::*;

#[allow(unused_imports)]
use crate::text::opt_view;

verus! {

/// The left hard divider of a Nerd Font: it caps a pill.
pub const SEP_L: &'static str = "\u{E0B6}";

/// The right hard divider: it joins two pills and closes a row.
pub const SEP_R: &'static str = "\u{E0B4}";

/// One segment of a row: the text of the pill and its colors, in hex digits.
#[derive(Debug)]
pub struct Seg {
    pub text: String,
    pub fg: &'static str,
    pub bg: &'static str,
}

/// What a segment holds.
pub struct SegView {
    pub text: Seq<char>,
    pub fg: Seq<char>,
    pub bg: Seq<char>,
}

impl View for Seg {
    type V = SegView;

    open spec fn view(&self) -> SegView {
        SegView { text: self.text@, fg: self.fg@, bg: self.bg@ }
    }
}

impl Clone for Seg {
    /// A segment with the same text and colors.
    fn clone(&self) -> (seg: Seg)
        ensures
            seg@ == self@,
    {
        Seg { text: self.text.clone(), fg: self.fg, bg: self.bg }
    }
}

/// What the segments of a row hold.
pub open spec fn views(segs: Seq<Seg>) -> Seq<SegView> {
    segs.map_values(|seg: Seg| seg@)
}

/// One styled span of the wire. A missing color is the terminal's own.
#[derive(Debug)]
pub struct Span {
    pub text: String,
    pub fg: Option<String>,
    pub bg: Option<String>,
    pub bold: bool,
}

/// What a span holds.
pub struct SpanView {
    pub text: Seq<char>,
    pub fg: Option<Seq<char>>,
    pub bg: Option<Seq<char>>,
    pub bold: bool,
}

impl View for Span {
    type V = SpanView;

    open spec fn view(&self) -> SpanView {
        SpanView {
            text: self.text@,
            fg: opt_view(self.fg),
            bg: opt_view(self.bg),
            bold: self.bold,
        }
    }
}

/// What the spans of a row hold.
pub open spec fn span_views(spans: Seq<Span>) -> Seq<SpanView> {
    spans.map_values(|span: Span| span@)
}

/// A color on the wire: `#` and the hex digits, or nothing for no digits.
pub open spec fn wire_color(digits: Seq<char>) -> Option<Seq<char>> {
    if digits.len() == 0 {
        None
    } else {
        Some("#"@ + digits)
    }
}

/// The span with this text and these colors.
pub open spec fn styled(text: Seq<char>, fg: Seq<char>, bg: Seq<char>, bold: bool) -> SpanView {
    SpanView { text, fg: wire_color(fg), bg: wire_color(bg), bold }
}

fn color(digits: &str) -> (color: Option<String>)
    ensures
        opt_view(color) == wire_color(digits@),
{
    if digits.is_empty() {
        None
    } else {
        Some("#".to_owned().concat(digits))
    }
}

/// One wire span. An empty color is the terminal's own.
pub fn span(text: &str, fg: &str, bg: &str, bold: bool) -> (span: Span)
    ensures
        span@ == styled(text@, fg@, bg@, bold),
{
    Span { text: text.to_owned(), fg: color(fg), bg: color(bg), bold }
}

/// The background of the last segment; empty for no segment.
pub open spec fn last_bg(segs: Seq<SegView>) -> Seq<char> {
    if segs.len() == 0 {
        Seq::empty()
    } else {
        segs.last().bg
    }
}

/// The spans of a row but for its end cap: for each segment an arrow from the
/// background before it, where there is one, its cap and its body.
pub open spec fn pills(segs: Seq<SegView>) -> Seq<SpanView>
    decreases segs.len(),
{
    if segs.len() == 0 {
        Seq::empty()
    } else {
        let before = last_bg(segs.drop_last());
        let seg = segs.last();
        let arrow = if before.len() == 0 {
            Seq::empty()
        } else {
            seq![styled(SEP_R@, before, seg.bg, false)]
        };
        pills(segs.drop_last()) + arrow + seq![
            styled(SEP_L@, seg.bg, seg.bg, false),
            styled(" "@ + seg.text + " "@, seg.fg, seg.bg, true),
        ]
    }
}

/// The spans of a row: its pills and the end cap.
pub open spec fn row(segs: Seq<SegView>) -> Seq<SpanView> {
    pills(segs).push(styled(SEP_R@, last_bg(segs), Seq::empty(), false))
}

/// The spans of one pill row, in display order: cap, body, arrow, cap, body, ...,
/// end cap.
pub fn row_spans(segs: &[Seg]) -> (spans: Vec<Span>)
    ensures
        span_views(spans@) == row(views(segs@)),
{
    let mut spans: Vec<Span> = Vec::new();
    let mut before: &'static str = "";
    proof {
        reveal_strlit("");
        assert(span_views(spans@) =~= pills(views(segs@).take(0)));
    }
    let mut i: usize = 0;
    while i < segs.len()
        invariant
            i <= segs.len(),
            before@ == last_bg(views(segs@).take(i as int)),
            span_views(spans@) == pills(views(segs@).take(i as int)),
        decreases segs.len() - i,
    {
        let seg = &segs[i];
        let ghost done = views(segs@).take(i as int);
        let ghost next = views(segs@).take(i + 1);
        let ghost drawn = spans@;
        if !before.is_empty() {
            spans.push(span(SEP_R, before, seg.bg, false));
        }
        spans.push(span(SEP_L, seg.bg, seg.bg, false));
        let body = " ".to_owned().concat(seg.text.as_str()).concat(" ");
        spans.push(span(body.as_str(), seg.fg, seg.bg, true));
        before = seg.bg;
        proof {
            assert(next.drop_last() =~= done);
            assert(next.last() == seg@);
            assert(span_views(spans@) =~= pills(next));
        }
        i = i + 1;
    }
    spans.push(span(SEP_R, before, "", false));
    proof {
        reveal_strlit("");
        assert(views(segs@).take(segs.len() as int) =~= views(segs@));
        assert(""@ =~= Seq::<char>::empty());
        assert(span_views(spans@) =~= row(views(segs@)));
    }
    spans
}

/// The columns of a row: each segment takes a cap, a space, its text, a space,
/// and an arrow or the end cap.
pub open spec fn cols(segs: Seq<SegView>) -> nat
    decreases segs.len(),
{
    if segs.len() == 0 {
        0
    } else {
        cols(segs.drop_last()) + segs.last().text.len() + 4
    }
}

/// The column count of one row.
pub fn row_cols(segs: &[Seg]) -> (count: usize)
    requires
        cols(views(segs@)) <= usize::MAX,
    ensures
        count == cols(views(segs@)),
{
    let mut count: usize = 0;
    let mut i: usize = 0;
    while i < segs.len()
        invariant
            i <= segs.len(),
            count == cols(views(segs@).take(i as int)),
            cols(views(segs@)) <= usize::MAX,
        decreases segs.len() - i,
    {
        let ghost next = views(segs@).take(i + 1);
        proof {
            assert(next.drop_last() =~= views(segs@).take(i as int));
            lemma_cols_of_prefix(views(segs@), i + 1);
        }
        count = count + (segs[i].text.as_str().unicode_len() + 4);
        i = i + 1;
    }
    proof {
        assert(views(segs@).take(segs.len() as int) =~= views(segs@));
    }
    count
}

/// Part of a row is no wider than the row.
pub proof fn lemma_cols_of_prefix(segs: Seq<SegView>, n: int)
    requires
        0 <= n <= segs.len(),
    ensures
        cols(segs.take(n)) <= cols(segs),
    decreases segs.len() - n,
{
    if n < segs.len() {
        lemma_cols_of_prefix(segs, n + 1);
        assert(segs.take(n + 1).drop_last() =~= segs.take(n));
    } else {
        assert(segs.take(n) =~= segs);
    }
}

/// What is left of a row when its last segments are dropped until it fits `w`
/// columns. The first segment always stays.
pub open spec fn fitted(segs: Seq<SegView>, w: nat) -> Seq<SegView>
    decreases segs.len(),
{
    if cols(segs) <= w || segs.len() <= 1 {
        segs
    } else {
        fitted(segs.drop_last(), w)
    }
}

/// Whether a row is at most `w` columns wide.
fn fits(segs: &Vec<Seg>, w: usize) -> (answer: bool)
    ensures
        answer == (cols(views(segs@)) <= w),
{
    let mut room: usize = w;
    let mut i: usize = 0;
    while i < segs.len()
        invariant
            i <= segs.len(),
            room == w - cols(views(segs@).take(i as int)),
        decreases segs.len() - i,
    {
        let ghost next = views(segs@).take(i + 1);
        proof {
            assert(next.drop_last() =~= views(segs@).take(i as int));
            lemma_cols_of_prefix(views(segs@), i + 1);
        }
        let len: usize = segs[i].text.as_str().unicode_len();
        if room < 4 || room - 4 < len {
            return false;
        }
        room = room - 4 - len;
        i = i + 1;
    }
    proof {
        assert(views(segs@).take(segs.len() as int) =~= views(segs@));
    }
    true
}

/// Fits a row to `w` columns: drops the last segments, which have the lowest
/// priority, until it fits. The first segment never drops.
pub fn fit(segs: &[Seg], w: usize) -> (kept: Vec<Seg>)
    ensures
        views(kept@) == fitted(views(segs@), w as nat),
{
    let mut kept: Vec<Seg> = Vec::new();
    let mut i: usize = 0;
    while i < segs.len()
        invariant
            i <= segs.len(),
            views(kept@) == views(segs@).take(i as int),
        decreases segs.len() - i,
    {
        let ghost done = views(kept@);
        let seg = segs[i].clone();
        assert(seg@ == segs@[i as int]@);
        kept.push(seg);
        i = i + 1;
        proof {
            assert(views(kept@) =~= done.push(seg@));
            assert(views(kept@) =~= views(segs@).take(i as int));
        }
    }
    proof {
        assert(views(segs@).take(segs.len() as int) =~= views(segs@));
    }
    while kept.len() > 1 && !fits(&kept, w)
        invariant
            fitted(views(kept@), w as nat) == fitted(views(segs@), w as nat),
        decreases kept.len(),
    {
        let ghost wide = views(kept@);
        kept.pop();
        proof {
            assert(views(kept@) =~= wide.drop_last());
        }
    }
    kept
}

/// A directory as the row shows it: its last 16 characters, after an ellipsis
/// where there are more.
pub open spec fn short(dir: Seq<char>) -> Seq<char> {
    if dir.len() > 16 {
        "..."@ + dir.skip(dir.len() - 16)
    } else {
        dir
    }
}

/// Truncates the directory to its last 16 characters with a leading ellipsis.
pub fn short_dir(dir: &str) -> (text: String)
    ensures
        text@ == short(dir@),
{
    let len: usize = dir.unicode_len();
    if len > 16 {
        let tail = dir.substring_char(len - 16, len);
        proof {
            assert(tail@ =~= dir@.skip(len - 16));
        }
        "...".to_owned().concat(tail)
    } else {
        dir.to_owned()
    }
}

/// The columns that spans draw, at one column for each character.
pub open spec fn drawn(spans: Seq<SpanView>) -> nat
    decreases spans.len(),
{
    if spans.len() == 0 {
        0
    } else {
        drawn(spans.drop_last()) + spans.last().text.len()
    }
}

proof fn lemma_drawn_push(spans: Seq<SpanView>, span: SpanView)
    ensures
        drawn(spans.push(span)) == drawn(spans) + span.text.len(),
{
    assert(spans.push(span).drop_last() =~= spans);
}

proof fn lemma_drawn_pills(segs: Seq<SegView>)
    requires
        forall|i: int| 0 <= i < segs.len() ==> (#[trigger] segs[i]).bg.len() > 0,
    ensures
        segs.len() > 0 ==> drawn(pills(segs)) + 1 == cols(segs),
        segs.len() == 0 ==> drawn(pills(segs)) == 0,
    decreases segs.len(),
{
    if segs.len() > 0 {
        let rest = segs.drop_last();
        let seg = segs.last();
        lemma_drawn_pills(rest);
        reveal_strlit(" ");
        reveal_strlit("\u{E0B6}");
        reveal_strlit("\u{E0B4}");
        let cap = styled(SEP_L@, seg.bg, seg.bg, false);
        let body = styled(" "@ + seg.text + " "@, seg.fg, seg.bg, true);
        let joined = if rest.len() > 0 {
            pills(rest).push(styled(SEP_R@, rest.last().bg, seg.bg, false))
        } else {
            pills(rest)
        };
        if rest.len() > 0 {
            assert(rest.last() == segs[rest.len() - 1]);
            lemma_drawn_push(pills(rest), styled(SEP_R@, rest.last().bg, seg.bg, false));
        }
        assert(rest.len() == 0 ==> cols(rest) == 0);
        assert(SEP_L@.len() == 1 && SEP_R@.len() == 1);
        lemma_drawn_push(joined, cap);
        lemma_drawn_push(joined.push(cap), body);
        assert(pills(segs) =~= joined.push(cap).push(body));
    }
}

/// The column count of a row is what its spans draw. (A row of no segment draws an
/// end cap that the count leaves out, and a pill without a background gets no
/// arrow.)
pub proof fn law_columns_are_what_is_drawn(segs: Seq<SegView>)
    requires
        segs.len() > 0,
        forall|i: int| 0 <= i < segs.len() ==> (#[trigger] segs[i]).bg.len() > 0,
    ensures
        drawn(row(segs)) == cols(segs),
{
    reveal_strlit("\u{E0B4}");
    lemma_drawn_pills(segs);
    lemma_drawn_push(pills(segs), styled(SEP_R@, last_bg(segs), Seq::empty(), false));
}

/// A fitted row is a prefix of the row; it keeps the first segment; it fits, unless
/// that segment alone is too wide; and no longer prefix fits.
pub proof fn law_fit_keeps_the_longest_prefix(segs: Seq<SegView>, w: nat)
    ensures
        fitted(segs, w).len() <= segs.len(),
        fitted(segs, w) == segs.take(fitted(segs, w).len() as int),
        segs.len() > 0 ==> fitted(segs, w).len() > 0,
        cols(fitted(segs, w)) <= w || fitted(segs, w).len() <= 1,
        forall|n: int|
            fitted(segs, w).len() < n <= segs.len() ==> cols(#[trigger] segs.take(n)) > w,
    decreases segs.len(),
{
    if cols(segs) <= w || segs.len() <= 1 {
        assert(segs.take(segs.len() as int) =~= segs);
    } else {
        let rest = segs.drop_last();
        law_fit_keeps_the_longest_prefix(rest, w);
        let kept = fitted(rest, w).len() as int;
        assert(rest.take(kept) =~= segs.take(kept));
        assert forall|n: int| kept < n <= segs.len() implies cols(#[trigger] segs.take(n)) > w by {
            if n < segs.len() {
                assert(segs.take(n) =~= rest.take(n));
            } else {
                assert(segs.take(n) =~= segs);
            }
        }
    }
}

/// A shortened directory is at most 19 characters long, keeps the end of the
/// directory, and is not shortened again.
pub proof fn law_short_dir_keeps_the_end(dir: Seq<char>)
    ensures
        short(dir).len() <= 19,
        dir.len() > 16 ==> short(dir).skip(3) == dir.skip(dir.len() - 16),
        dir.len() <= 16 ==> short(dir) == dir,
        short(short(dir)) == short(dir),
{
    reveal_strlit("...");
    if dir.len() > 16 {
        assert(short(dir).skip(3) =~= dir.skip(dir.len() - 16));
        assert(short(short(dir)) =~= short(dir));
    }
}

/// A color on the wire is a `#` and all the digits; no digits are no color. So no two
/// colors are the same on the wire.
pub proof fn law_a_color_keeps_its_digits(digits: Seq<char>, other: Seq<char>)
    ensures
        wire_color(digits) is None <==> digits.len() == 0,
        digits.len() > 0 ==> wire_color(digits)->0.len() == digits.len() + 1,
        digits.len() > 0 ==> wire_color(digits)->0[0] == '#',
        digits.len() > 0 ==> wire_color(digits)->0.skip(1) == digits,
        wire_color(digits) == wire_color(other) ==> digits == other,
{
    reveal_strlit("#");
    if digits.len() > 0 {
        assert(wire_color(digits)->0.skip(1) =~= digits);
    } else {
        assert(digits =~= Seq::empty());
    }
    if other.len() > 0 {
        assert(wire_color(other)->0.skip(1) =~= other);
    } else {
        assert(other =~= Seq::empty());
    }
}

/// A styled span has the text and the weight it was asked for, the first color in
/// front and the second one behind.
pub proof fn law_a_styled_span_is_as_asked_for(
    text: Seq<char>,
    fg: Seq<char>,
    bg: Seq<char>,
    bold: bool,
)
    ensures
        styled(text, fg, bg, bold).text == text,
        styled(text, fg, bg, bold).bold == bold,
        fg.len() > 0 ==> styled(text, fg, bg, bold).fg == Some("#"@ + fg),
        fg.len() == 0 ==> styled(text, fg, bg, bold).fg is None,
        bg.len() > 0 ==> styled(text, fg, bg, bold).bg == Some("#"@ + bg),
        bg.len() == 0 ==> styled(text, fg, bg, bold).bg is None,
{
}

/// What a segment and a span hold is what stands in their fields.
pub proof fn law_segments_hold_their_fields(segs: Seq<Seg>, spans: Seq<Span>, i: int)
    ensures
        views(segs).len() == segs.len(),
        0 <= i < segs.len() ==> views(segs)[i].text == segs[i].text@,
        0 <= i < segs.len() ==> views(segs)[i].fg == segs[i].fg@,
        0 <= i < segs.len() ==> views(segs)[i].bg == segs[i].bg@,
        span_views(spans).len() == spans.len(),
        0 <= i < spans.len() ==> span_views(spans)[i].text == spans[i].text@,
        0 <= i < spans.len() ==> span_views(spans)[i].bold == spans[i].bold,
        0 <= i < spans.len() ==> span_views(spans)[i].fg == opt_view(spans[i].fg),
        0 <= i < spans.len() ==> span_views(spans)[i].bg == opt_view(spans[i].bg),
{
}

/// A row without segments is an end cap alone. One segment more puts its cap, its
/// body and the end cap behind the row; the old end cap turns into the arrow
/// between the two backgrounds, and where the last segment had no background there
/// is no arrow.
pub proof fn law_a_row_grows_at_its_end(segs: Seq<SegView>, seg: SegView)
    ensures
        row(Seq::empty()).len() == 1,
        row(Seq::empty())[0].text == "\u{E0B4}"@,
        row(Seq::empty())[0].fg is None && row(Seq::empty())[0].bg is None,
        !row(Seq::empty())[0].bold,
        row(segs.push(seg)) == row(segs).drop_last() + (if segs.len() > 0 && segs.last().bg.len()
            > 0 {
            seq![styled("\u{E0B4}"@, segs.last().bg, seg.bg, false)]
        } else {
            Seq::empty()
        }) + seq![
            styled("\u{E0B6}"@, seg.bg, seg.bg, false),
            styled(" "@ + seg.text + " "@, seg.fg, seg.bg, true),
            styled("\u{E0B4}"@, seg.bg, Seq::empty(), false),
        ],
{
    let more = segs.push(seg);
    assert(more.drop_last() =~= segs);
    assert(row(segs).drop_last() =~= pills(segs));
    assert(row(more) =~= row(segs).drop_last() + (if segs.len() > 0 && segs.last().bg.len() > 0 {
        seq![styled("\u{E0B4}"@, segs.last().bg, seg.bg, false)]
    } else {
        Seq::empty()
    }) + seq![
        styled("\u{E0B6}"@, seg.bg, seg.bg, false),
        styled(" "@ + seg.text + " "@, seg.fg, seg.bg, true),
        styled("\u{E0B4}"@, seg.bg, Seq::empty(), false),
    ]);
}

/// Every segment with colors is drawn in three spans, and they stand in the order of
/// the segments: a cap in its background color; its text between two spaces, bold,
/// in its own colors; and a divider in its background color, on the background of
/// the next segment, or on none behind the last.
pub proof fn law_each_segment_is_drawn_in_order(segs: Seq<SegView>, i: int)
    requires
        forall|k: int|
            0 <= k < segs.len() ==> (#[trigger] segs[k]).bg.len() > 0 && segs[k].fg.len() > 0,
        0 <= i < segs.len(),
    ensures
        row(segs).len() == 3 * segs.len(),
        row(segs)[3 * i].text == seq!['\u{E0B6}'],
        row(segs)[3 * i].fg == Some("#"@ + segs[i].bg),
        row(segs)[3 * i].bg == Some("#"@ + segs[i].bg),
        !row(segs)[3 * i].bold,
        row(segs)[3 * i + 1].text == seq![' '] + segs[i].text + seq![' '],
        row(segs)[3 * i + 1].fg == Some("#"@ + segs[i].fg),
        row(segs)[3 * i + 1].bg == Some("#"@ + segs[i].bg),
        row(segs)[3 * i + 1].bold,
        row(segs)[3 * i + 2].text == seq!['\u{E0B4}'],
        row(segs)[3 * i + 2].fg == Some("#"@ + segs[i].bg),
        row(segs)[3 * i + 2].bg == if i + 1 < segs.len() {
            Some("#"@ + segs[i + 1].bg)
        } else {
            None
        },
        !row(segs)[3 * i + 2].bold,
    decreases segs.len(),
{
    let rest = segs.drop_last();
    let seg = segs.last();
    reveal_strlit(" ");
    reveal_strlit("\u{E0B6}");
    reveal_strlit("\u{E0B4}");
    assert(" "@ =~= seq![' ']);
    assert("\u{E0B6}"@ =~= seq!['\u{E0B6}']);
    assert("\u{E0B4}"@ =~= seq!['\u{E0B4}']);
    law_a_row_grows_at_its_end(rest, seg);
    assert(rest.push(seg) =~= segs);
    assert(segs[segs.len() - 1] == seg);
    if rest.len() > 0 {
        let k = if i < rest.len() {
            i
        } else {
            0
        };
        assert forall|k: int| 0 <= k < rest.len() implies (#[trigger] rest[k]).bg.len() > 0
            && rest[k].fg.len() > 0 by {
            assert(rest[k] == segs[k]);
        }
        law_each_segment_is_drawn_in_order(rest, k);
        assert(rest.last() == segs[rest.len() - 1]);
    } else {
        assert(rest =~= Seq::empty());
    }
}

/// A row is as wide as its segments together, and a segment takes its text and four
/// columns.
pub proof fn law_columns_add_up(segs: Seq<SegView>, seg: SegView)
    ensures
        cols(Seq::empty()) == 0,
        cols(seq![seg]) == seg.text.len() + 4,
        cols(segs.push(seg)) == cols(segs) + seg.text.len() + 4,
{
    reveal_with_fuel(cols, 2);
    assert(segs.push(seg).drop_last() =~= segs);
    assert(seq![seg].drop_last() =~= Seq::empty());
}

/// Spans draw one column for each of their characters.
pub proof fn law_spans_draw_their_characters(spans: Seq<SpanView>, span: SpanView)
    ensures
        drawn(Seq::empty()) == 0,
        drawn(spans.push(span)) == drawn(spans) + span.text.len(),
{
    lemma_drawn_push(spans, span);
}

/// More room never drops more segments, and where the row fits, none.
pub proof fn law_more_room_keeps_more(segs: Seq<SegView>, w: nat, more: nat)
    requires
        w <= more,
    ensures
        fitted(segs, w).len() <= fitted(segs, more).len(),
        cols(segs) <= w ==> fitted(segs, w) == segs,
{
    law_fit_keeps_the_longest_prefix(segs, w);
    law_fit_keeps_the_longest_prefix(segs, more);
    if fitted(segs, w).len() > fitted(segs, more).len() {
        let n = fitted(segs, w).len() as int;
        assert(cols(segs.take(n)) > more);
    }
}

/// A directory of more than 16 characters is shown as three dots and its last 16
/// characters, one by one; any other as it is.
pub proof fn law_short_dir_character_by_character(dir: Seq<char>, i: int)
    requires
        0 <= i < 16,
    ensures
        dir.len() > 16 ==> short(dir).len() == 19,
        dir.len() > 16 ==> short(dir).take(3) == seq!['.', '.', '.'],
        dir.len() > 16 ==> short(dir)[3 + i] == dir[dir.len() - 16 + i],
        dir.len() <= 16 ==> short(dir) == dir,
{
    reveal_strlit("...");
    if dir.len() > 16 {
        assert(short(dir).take(3) =~= seq!['.', '.', '.']);
    }
}

} // verus!
