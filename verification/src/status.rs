//! The status line: what it remembers between lines of the host, and the rows it
//! draws on a tick.
use vstd::prelude::*;

#[allow(unused_imports)]
use crate::config::{law_no_section_no_window, opens_model, window_of};
use crate::config::ctx_window_of;
#[allow(unused_imports)]
use crate::git::git_pill;
use crate::git::git_text;
#[allow(unused_imports)]
use crate::json::{parsed, printed, Json, JsonNumber, Members};
use crate::numbers::{ctx_text, fmt_num};
#[allow(unused_imports)]
use crate::numbers::{ctx_section, law_shortened_is_short, per_mille, shortened};
use crate::rows::{fit, row_cols, row_spans, short_dir, Seg, Span};
#[allow(unused_imports)]
use crate::rows::{
    cols, drawn, fitted, law_columns_are_what_is_drawn, law_fit_keeps_the_longest_prefix, row,
    short, span_views, views, SegView, SpanView,
};
use crate::text::same_text;
#[allow(unused_imports)]
use crate::text::{decimal, lemma_decimal_len, lines, opt_view, ten_to};
use crate::usage::{Counters, UsageEvent};
#[allow(unused_imports)]
use crate::usage::{
    law_another_session_starts_over, law_the_same_session_grows, spent, CountersView, Tally,
};
use crate::wire::{reply_text, Op, Tick};
#[allow(unused_imports)]
use crate::wire::{
    law_the_width_is_the_one_in_the_message, line_views, op_of_line, reply_json, OpView, TickView,
};

verus! {

/// From this width on, the row is on one line.
pub const WIDE: usize = 100;

/// The backgrounds of the pills: base, surface0, mauve and surface1 of Catppuccin
/// Macchiato.
pub const DIR_BG: &'static str = "24273a";

pub const GIT_BG: &'static str = "363a4f";

pub const MODEL_BG: &'static str = "c6a0f6";

pub const STATS_BG: &'static str = "494d64";

/// The text on dark backgrounds.
pub const TXT: &'static str = "cad3f5";

/// The text on light backgrounds.
pub const TXT_DARK: &'static str = "1e2030";

/// The stats pill: the totals, the cached total where there is any, and the
/// context section where there is one.
pub open spec fn stats_pill(totals: Tally, last_in: u64, window: Option<u64>) -> Seq<char> {
    let sums = "in:"@ + shortened(totals.input) + " out:"@ + shortened(totals.output) + " sum:"@
        + shortened(totals.input + totals.output);
    let cached = if totals.cached > 0 {
        " R:"@ + shortened(totals.cached)
    } else {
        Seq::empty()
    };
    let ctx = match ctx_section(last_in, window) {
        Some(section) => " "@ + section,
        None => Seq::empty(),
    };
    sums + cached + ctx
}

/// The stats pill is no longer than 250 characters.
pub proof fn law_stats_pill_is_short(
    input: u64,
    output: u64,
    cached: u64,
    last_in: u64,
    window: Option<u64>,
)
    requires
        input + output <= u64::MAX,
    ensures
        stats_pill(
            Tally { input: input as nat, output: output as nat, cached: cached as nat },
            last_in,
            window,
        ).len() <= 250,
{
    law_shortened_is_short(input);
    law_shortened_is_short(output);
    law_shortened_is_short((input + output) as u64);
    law_shortened_is_short(cached);
    law_shortened_is_short(last_in);
    reveal_strlit("in:");
    reveal_strlit(" out:");
    reveal_strlit(" sum:");
    reveal_strlit(" R:");
    reveal_strlit(" ");
    reveal_strlit("ctx:");
    reveal_strlit(".");
    reveal_strlit("% (");
    reveal_strlit("/");
    reveal_strlit(")");
    reveal_with_fuel(ten_to, 21);
    if let Some(w) = window {
        law_shortened_is_short(w);
        if w != 0 {
            let fullness = per_mille(last_in, w);
            assert(fullness <= u64::MAX) by {
                let product: nat = if last_in * 1000 <= u64::MAX {
                    (last_in * 1000) as nat
                } else {
                    u64::MAX as nat
                };
                assert(product / (w as nat) <= product) by (nonlinear_arith)
                    requires
                        w > 0,
                ;
            }
            lemma_decimal_len(fullness / 10, 20);
            lemma_decimal_len(fullness % 10, 1);
        }
    }
}

/// The text of the stats pill.
pub fn stats_text(
    input: u64,
    output: u64,
    cached: u64,
    last_in: u64,
    window: Option<u64>,
) -> (text: String)
    requires
        input + output <= u64::MAX,
    ensures
        text@ == stats_pill(
            Tally { input: input as nat, output: output as nat, cached: cached as nat },
            last_in,
            window,
        ),
{
    let mut text = "in:".to_owned();
    text.append(fmt_num(input).as_str());
    text.append(" out:");
    text.append(fmt_num(output).as_str());
    text.append(" sum:");
    text.append(fmt_num(input + output).as_str());
    let ghost sums = text@;
    if cached > 0 {
        text.append(" R:");
        text.append(fmt_num(cached).as_str());
    }
    let ghost with_cached = text@;
    if let Some(section) = ctx_text(last_in, window) {
        text.append(" ");
        text.append(section.as_str());
    }
    proof {
        assert(with_cached =~= sums + if cached > 0 {
            " R:"@ + shortened(cached as nat)
        } else {
            Seq::empty()
        });
        assert(text@ =~= with_cached + match ctx_section(last_in, window) {
            Some(section) => " "@ + section,
            None => Seq::empty(),
        });
    }
    text
}

/// The columns that are left beside the stats pill.
pub open spec fn room_beside(stats: SegView, width: nat) -> nat {
    let taken = cols(seq![stats]);
    if width >= taken {
        (width - taken) as nat
    } else {
        0
    }
}

/// The rows of segments for a width: on a wide terminal one row with the stats pill
/// at its end, else a row of its own for the stats pill. Of the other pills, the
/// model drops first where there is no room, then git; the directory stays.
pub open spec fn layout(
    dir: SegView,
    git: SegView,
    model: SegView,
    stats: SegView,
    width: nat,
) -> Seq<Seq<SegView>> {
    let left = seq![dir, git, model];
    if width >= WIDE {
        seq![fitted(left, room_beside(stats, width)).push(stats)]
    } else {
        seq![fitted(left, width), seq![stats]]
    }
}

/// The spans of the rows for a width.
pub fn layout_spans(
    dir: Seg,
    git: Seg,
    model: Seg,
    stats: Seg,
    width: usize,
) -> (lines: Vec<Vec<Span>>)
    requires
        stats@.text.len() + 4 <= usize::MAX,
    ensures
        line_views(lines@) == layout(dir@, git@, model@, stats@, width as nat).map_values(
            |segs: Seq<SegView>| row(segs),
        ),
{
    let ghost (d, g, m, s) = (dir@, git@, model@, stats@);
    let ghost rows = layout(d, g, m, s, width as nat).map_values(|segs: Seq<SegView>| row(segs));
    let mut left: Vec<Seg> = Vec::new();
    left.push(dir);
    left.push(git);
    left.push(model);
    let mut right: Vec<Seg> = Vec::new();
    right.push(stats.clone());
    proof {
        assert(views(left@) =~= seq![d, g, m]);
        assert(views(right@) =~= seq![s]);
        reveal_with_fuel(cols, 2);
        assert(cols(seq![s]) == s.text.len() + 4);
    }
    let mut lines: Vec<Vec<Span>> = Vec::new();
    if width >= WIDE {
        let taken: usize = row_cols(right.as_slice());
        let room: usize = if width >= taken {
            width - taken
        } else {
            0
        };
        let mut segs = fit(left.as_slice(), room);
        let ghost kept = views(segs@);
        segs.push(stats);
        proof {
            assert(views(segs@) =~= kept.push(s));
        }
        lines.push(row_spans(segs.as_slice()));
        proof {
            assert(line_views(lines@) =~= rows);
        }
    } else {
        let segs = fit(left.as_slice(), width);
        lines.push(row_spans(segs.as_slice()));
        lines.push(row_spans(right.as_slice()));
        proof {
            assert(line_views(lines@) =~= rows);
        }
    }
    lines
}

/// The status line of one host.
#[derive(Debug)]
pub struct StatusLine {
    pub dir: String,
    pub counters: Counters,
    /// The model that `ctx_window` was looked up for.
    pub ctx_model: String,
    pub ctx_window: Option<u64>,
}

/// What a status line holds.
#[verifier::ext_equal]
pub struct StatusView {
    pub dir: Seq<char>,
    pub counters: CountersView,
    pub ctx_model: Seq<char>,
    pub ctx_window: Option<u64>,
}

impl View for StatusLine {
    type V = StatusView;

    open spec fn view(&self) -> StatusView {
        StatusView {
            dir: self.dir@,
            counters: self.counters@,
            ctx_model: self.ctx_model@,
            ctx_window: self.ctx_window,
        }
    }
}

/// What an optional configuration holds.
pub open spec fn config_view(config: Option<&str>) -> Option<Seq<char>> {
    match config {
        Some(text) => Some(text@),
        None => None,
    }
}

impl StatusView {
    /// The window of a model: the one looked up before where the model is the same,
    /// else what the configuration gives, if it can be read.
    pub open spec fn window(self, model: Seq<char>, config: Option<Seq<char>>) -> Option<u64> {
        if model == self.ctx_model {
            self.ctx_window
        } else {
            match config {
                Some(raw) => window_of(raw, model),
                None => None,
            }
        }
    }

    /// The status line after an event.
    pub open spec fn event(self, event: UsageEvent) -> StatusView {
        StatusView { counters: self.counters.event(event), ..self }
    }

    /// The status line after a tick.
    pub open spec fn tick(self, tick: TickView, config: Option<Seq<char>>) -> StatusView {
        StatusView {
            dir: self.dir,
            counters: self.counters.tick(tick.session),
            ctx_model: tick.model,
            ctx_window: self.window(tick.model, config),
        }
    }

    /// The status line after an operation.
    pub open spec fn after(self, op: OpView, config: Option<Seq<char>>) -> StatusView {
        match op {
            OpView::Event(event) => self.event(event),
            OpView::Tick(tick) => self.tick(tick, config),
            OpView::Ignored => self,
        }
    }

    /// The lines that answer an operation: only a tick has an answer.
    pub open spec fn answer(
        self,
        op: OpView,
        branch: Seq<char>,
        dirty: u64,
        config: Option<Seq<char>>,
    ) -> Option<Seq<Seq<SpanView>>> {
        match op {
            OpView::Tick(tick) => Some(self.lines(tick, branch, dirty, config)),
            _ => None,
        }
    }

    /// Whether the counters fit 64 bits with an operation.
    pub open spec fn op_fits(self, op: OpView) -> bool {
        match op {
            OpView::Event(event) => self.event(event).counters.pending.fits(),
            OpView::Tick(tick) => self.fits(tick.session),
            OpView::Ignored => true,
        }
    }

    /// Whether the counters that a tick shows fit 64 bits, their sum included.
    pub open spec fn fits(self, session: Option<Seq<char>>) -> bool {
        let totals = self.counters.tick(session).totals;
        totals.fits() && totals.input + totals.output <= u64::MAX
    }

    /// The rows of segments that a tick shows.
    pub open spec fn rows(
        self,
        tick: TickView,
        branch: Seq<char>,
        dirty: u64,
        config: Option<Seq<char>>,
    ) -> Seq<Seq<SegView>> {
        let shown = self.tick(tick, config);
        layout(
            SegView { text: short(shown.dir), fg: TXT@, bg: DIR_BG@ },
            SegView { text: git_pill(branch, dirty), fg: TXT@, bg: GIT_BG@ },
            SegView { text: tick.model, fg: TXT_DARK@, bg: MODEL_BG@ },
            SegView {
                text: stats_pill(
                    shown.counters.totals,
                    shown.counters.last_in,
                    shown.ctx_window,
                ),
                fg: TXT@,
                bg: STATS_BG@,
            },
            tick.width as nat,
        )
    }

    /// The lines of spans that a tick shows.
    pub open spec fn lines(
        self,
        tick: TickView,
        branch: Seq<char>,
        dirty: u64,
        config: Option<Seq<char>>,
    ) -> Seq<Seq<SpanView>> {
        self.rows(tick, branch, dirty, config).map_values(|segs: Seq<SegView>| row(segs))
    }
}

impl StatusLine {
    /// A status line for a directory, before any line of the host.
    pub fn new(dir: String) -> (status: StatusLine)
        ensures
            status@ == (StatusView {
                dir: dir@,
                counters: CountersView::fresh(),
                ctx_model: ""@,
                ctx_window: None,
            }),
    {
        StatusLine { dir, counters: Counters::new(), ctx_model: "".to_owned(), ctx_window: None }
    }

    /// Whether the pending counts stay within 64 bits with this event.
    pub fn event_fits(&self, event: &UsageEvent) -> (answer: bool)
        ensures
            answer == self@.event(*event).counters.pending.fits(),
    {
        self.counters.event_fits(event)
    }

    /// Takes in an event.
    pub fn event(&mut self, event: &UsageEvent)
        requires
            old(self)@.event(*event).counters.pending.fits(),
        ensures
            final(self)@ == old(self)@.event(*event),
    {
        self.counters.event(event);
    }

    /// Whether a tick will look into the configuration: only on a switch of the
    /// model.
    pub fn wants_config(&self, tick: &Tick) -> (answer: bool)
        ensures
            answer == (tick@.model != self@.ctx_model),
    {
        !same_text(tick.model.as_str(), self.ctx_model.as_str())
    }

    /// Whether the counters that a tick with this session shows fit 64 bits.
    pub fn tick_fits(&self, session: &Option<String>) -> (answer: bool)
        ensures
            answer == self@.fits(opt_view(*session)),
    {
        self.counters.tick_fits(session) && self.counters.shown_sum_fits(session)
    }

    /// The lines of spans for a tick. The git state and the text of the
    /// configuration are the ones at hand; the configuration is looked into only
    /// where the model is another one than before.
    pub fn tick(
        &mut self,
        tick: &Tick,
        branch: &str,
        dirty: u64,
        config: Option<&str>,
    ) -> (lines: Vec<Vec<Span>>)
        requires
            old(self)@.fits(tick@.session),
        ensures
            final(self)@ == old(self)@.tick(tick@, config_view(config)),
            line_views(lines@) == old(self)@.lines(tick@, branch@, dirty, config_view(config)),
    {
        self.counters.tick(&tick.session);
        if !same_text(tick.model.as_str(), self.ctx_model.as_str()) {
            self.ctx_window = match config {
                Some(raw) => ctx_window_of(raw, tick.model.as_str()),
                None => None,
            };
            self.ctx_model = tick.model.clone();
        }
        let totals = self.counters.totals;
        let stats = stats_text(
            totals.input,
            totals.output,
            totals.cached,
            self.counters.last_in,
            self.ctx_window,
        );
        proof {
            law_stats_pill_is_short(
                totals.input,
                totals.output,
                totals.cached,
                self.counters.last_in,
                self.ctx_window,
            );
        }
        layout_spans(
            Seg { text: short_dir(self.dir.as_str()), fg: TXT, bg: DIR_BG },
            Seg { text: git_text(branch, dirty), fg: TXT, bg: GIT_BG },
            Seg { text: tick.model.clone(), fg: TXT_DARK, bg: MODEL_BG },
            Seg { text: stats, fg: TXT, bg: STATS_BG },
            tick.width,
        )
    }

    /// The reply line to a tick, without its line feed.
    pub fn reply(
        &mut self,
        tick: &Tick,
        branch: &str,
        dirty: u64,
        config: Option<&str>,
    ) -> (text: String)
        requires
            old(self)@.fits(tick@.session),
        ensures
            final(self)@ == old(self)@.tick(tick@, config_view(config)),
            text@ == printed(
                reply_json(old(self)@.lines(tick@, branch@, dirty, config_view(config))),
            ),
            parsed(text@) == Some(
                reply_json(old(self)@.lines(tick@, branch@, dirty, config_view(config))),
            ),
            !text@.contains('\n'),
    {
        let lines = self.tick(tick, branch, dirty, config);
        reply_text(&lines)
    }

    /// Whether the counters stay within 64 bits with an operation.
    pub fn op_fits(&self, op: &Op) -> (answer: bool)
        ensures
            answer == self@.op_fits(op@),
    {
        match op {
            Op::Event(event) => self.event_fits(event),
            Op::Tick(tick) => self.tick_fits(&tick.session),
            Op::Ignored => true,
        }
    }

    /// Takes in an operation. A tick is answered by a reply line; an event is counted
    /// and not answered; anything else changes nothing and is not answered.
    pub fn respond(
        &mut self,
        op: &Op,
        branch: &str,
        dirty: u64,
        config: Option<&str>,
    ) -> (reply: Option<String>)
        requires
            old(self)@.op_fits(op@),
        ensures
            final(self)@ == old(self)@.after(op@, config_view(config)),
            match (reply, old(self)@.answer(op@, branch@, dirty, config_view(config))) {
                (Some(text), Some(lines)) => {
                    &&& text@ == printed(reply_json(lines))
                    &&& parsed(text@) == Some(reply_json(lines))
                    &&& !text@.contains('\n')
                },
                (None, None) => true,
                _ => false,
            },
    {
        match op {
            Op::Event(event) => {
                self.event(event);
                None
            },
            Op::Tick(tick) => Some(self.reply(tick, branch, dirty, config)),
            Op::Ignored => None,
        }
    }
}

proof fn lemma_cols_push(segs: Seq<SegView>, seg: SegView)
    ensures
        cols(segs.push(seg)) == cols(segs) + cols(seq![seg]),
{
    reveal_with_fuel(cols, 2);
    assert(segs.push(seg).drop_last() =~= segs);
    assert(seq![seg].drop_last() =~= Seq::empty());
}

/// There is one row on a wide terminal, else two. The first row starts with the
/// directory and the last one ends with the stats; no width drops either. Between
/// them the git pill is dropped only where the model pill is.
pub proof fn law_directory_and_stats_never_drop(
    dir: SegView,
    git: SegView,
    model: SegView,
    stats: SegView,
    width: nat,
)
    ensures
        ({
            let rows = layout(dir, git, model, stats, width);
            let left = if width >= WIDE {
                rows[0].drop_last()
            } else {
                rows[0]
            };
            &&& rows.len() == if width >= WIDE {
                1nat
            } else {
                2
            }
            &&& left == seq![dir] || left == seq![dir, git] || left == seq![dir, git, model]
            &&& rows.last().last() == stats
            &&& width < WIDE ==> rows[1] == seq![stats]
        }),
{
    let all = seq![dir, git, model];
    let room = if width >= WIDE {
        room_beside(stats, width)
    } else {
        width
    };
    let kept = fitted(all, room);
    law_fit_keeps_the_longest_prefix(all, room);
    assert(kept.push(stats).drop_last() =~= kept);
    assert(all.take(1) =~= seq![dir]);
    assert(all.take(2) =~= seq![dir, git]);
    assert(all.take(3) =~= all);
    assert(kept == all.take(1) || kept == all.take(2) || kept == all.take(3));
}

/// A pill is dropped only for want of room. On a narrow terminal the first row fits
/// the width, unless the directory alone is wider. On a wide one the row fits the
/// width, unless only the directory and the stats are left. One pill more would not
/// fit.
pub proof fn law_rows_fit_the_width(
    dir: SegView,
    git: SegView,
    model: SegView,
    stats: SegView,
    width: nat,
)
    ensures
        ({
            let first = layout(dir, git, model, stats, width)[0];
            if width >= WIDE {
                cols(first) <= width || first == seq![dir, stats]
            } else {
                cols(first) <= width || first == seq![dir]
            }
        }),
        ({
            let first = layout(dir, git, model, stats, width)[0];
            let all = seq![dir, git, model];
            forall|n: int| 1 <= n <= 3 ==> if width >= WIDE {
                first.len() - 1 < n ==> cols(#[trigger] all.take(n)) + cols(seq![stats]) > width
            } else {
                first.len() < n ==> cols(#[trigger] all.take(n)) > width
            }
        }),
{
    let all = seq![dir, git, model];
    let room = if width >= WIDE {
        room_beside(stats, width)
    } else {
        width
    };
    let kept = fitted(all, room);
    law_fit_keeps_the_longest_prefix(all, room);
    lemma_cols_push(kept, stats);
    assert(all.take(1) =~= seq![dir]);
    reveal_with_fuel(cols, 2);
    if kept.len() == 1 {
        assert(kept.push(stats) =~= seq![dir, stats]);
    } else {
        assert(cols(kept) > 0);
    }
}

/// What the lines of a tick draw is the column count of their rows.
pub proof fn law_drawn_lines_have_the_columns_of_their_rows(
    status: StatusView,
    tick: TickView,
    branch: Seq<char>,
    dirty: u64,
    config: Option<Seq<char>>,
)
    ensures
        ({
            let rows = status.rows(tick, branch, dirty, config);
            let lines = status.lines(tick, branch, dirty, config);
            &&& lines.len() == rows.len()
            &&& forall|i: int| 0 <= i < lines.len() ==> drawn(#[trigger] lines[i]) == cols(rows[i])
        }),
{
    reveal_strlit("24273a");
    reveal_strlit("363a4f");
    reveal_strlit("c6a0f6");
    reveal_strlit("494d64");
    let rows = status.rows(tick, branch, dirty, config);
    let lines = status.lines(tick, branch, dirty, config);
    let shown = status.tick(tick, config);
    let dir = SegView { text: short(shown.dir), fg: TXT@, bg: DIR_BG@ };
    let git = SegView { text: git_pill(branch, dirty), fg: TXT@, bg: GIT_BG@ };
    let model = SegView { text: tick.model, fg: TXT_DARK@, bg: MODEL_BG@ };
    let stats = SegView {
        text: stats_pill(shown.counters.totals, shown.counters.last_in, shown.ctx_window),
        fg: TXT@,
        bg: STATS_BG@,
    };
    let width = tick.width as nat;
    law_directory_and_stats_never_drop(dir, git, model, stats, width);
    let left = if width >= WIDE {
        rows[0].drop_last()
    } else {
        rows[0]
    };
    assert forall|i: int| 0 <= i < lines.len() implies drawn(#[trigger] lines[i]) == cols(
        rows[i],
    ) by {
        let segs = rows[i];
        assert forall|j: int| 0 <= j < segs.len() implies (#[trigger] segs[j]).bg.len() > 0 by {
            if i == 0 && j < left.len() {
                assert(segs[j] == left[j]);
                assert(left[j] == dir || left[j] == git || left[j] == model);
            } else {
                assert(segs[j] == stats);
            }
        }
        law_columns_are_what_is_drawn(segs);
    }
}

/// A tick that repeats the last one, with no event between them, shows the same
/// and changes nothing, whatever the configuration says by then.
pub proof fn law_a_repeated_tick_shows_the_same(
    status: StatusView,
    tick: TickView,
    branch: Seq<char>,
    dirty: u64,
    config: Option<Seq<char>>,
    later: Option<Seq<char>>,
)
    ensures
        ({
            let after = status.tick(tick, config);
            &&& after.tick(tick, later) == after
            &&& after.lines(tick, branch, dirty, later) == status.lines(tick, branch, dirty, config)
        }),
{
    let after = status.tick(tick, config);
    crate::usage::law_an_idle_tick_changes_nothing(after.counters, tick.session);
    assert(after.tick(tick, later) =~= after);
}

/// A line that is no JSON changes nothing and gets no reply.
pub proof fn law_a_malformed_line_is_passed_over(
    status: StatusView,
    line: Seq<char>,
    branch: Seq<char>,
    dirty: u64,
    config: Option<Seq<char>>,
)
    requires
        parsed(line) is None,
    ensures
        status.op_fits(op_of_line(line)),
        status.after(op_of_line(line), config) == status,
        status.answer(op_of_line(line), branch, dirty, config) is None,
{
}

/// Events do not show before the tick that commits them, and do not touch anything
/// but the counters.
pub proof fn law_events_leave_the_rest(status: StatusView, event: UsageEvent)
    ensures
        status.event(event).dir == status.dir,
        status.event(event).ctx_model == status.ctx_model,
        status.event(event).ctx_window == status.ctx_window,
        status.event(event).counters.totals == status.counters.totals,
        status.event(event).counters.last_in == status.counters.last_in,
{
}

/// The stats pill has the input, the output and their sum in this order; then the
/// cached total, where there is any, from the first token on; then, behind a space,
/// the context section, where there is one. The context section does not touch what
/// stands before it.
pub proof fn law_stats_pill_has_its_parts_in_order(
    totals: Tally,
    last_in: u64,
    window: Option<u64>,
)
    ensures
        totals.cached == 0 ==> stats_pill(totals, last_in, None) == "in:"@ + shortened(totals.input)
            + " out:"@ + shortened(totals.output) + " sum:"@ + shortened(
            totals.input + totals.output,
        ),
        totals.cached >= 1 ==> stats_pill(totals, last_in, None) == stats_pill(
            Tally { cached: 0, ..totals },
            last_in,
            None,
        ) + " R:"@ + shortened(totals.cached),
        last_in == 0 || window is None || window == Some(0u64) ==> stats_pill(
            totals,
            last_in,
            window,
        ) == stats_pill(totals, 0, None),
        last_in > 0 && window is Some && window->0 > 0 ==> stats_pill(totals, last_in, window)
            == stats_pill(totals, 0, None) + " "@ + ctx_section(last_in, window)->0,
{
    let none = Seq::<char>::empty();
    let sums = "in:"@ + shortened(totals.input) + " out:"@ + shortened(totals.output) + " sum:"@
        + shortened(totals.input + totals.output);
    let cached = " R:"@ + shortened(totals.cached);
    assert(sums + none + none =~= sums);
    assert(sums + cached + none =~= sums + " R:"@ + shortened(totals.cached));
    if last_in > 0 && window is Some && window->0 > 0 {
        let section = ctx_section(last_in, window)->0;
        assert(sums + none + (" "@ + section) =~= sums + none + none + " "@ + section);
        assert(sums + cached + (" "@ + section) =~= sums + cached + none + " "@ + section);
    }
}

/// Which pills stay follows from the lengths of their texts and the width alone. Each
/// pill takes four columns more than its text. From 100 columns on the stats share
/// the row, else they have one of their own. The model drops where not all fit, git
/// where it does not fit beside the directory either.
pub proof fn law_pills_drop_for_want_of_room(
    dir: SegView,
    git: SegView,
    model: SegView,
    stats: SegView,
    width: nat,
)
    ensures
        ({
            let rows = layout(dir, git, model, stats, width);
            let room: int = if width >= 100 {
                width - (stats.text.len() + 4)
            } else {
                width as int
            };
            let left = if dir.text.len() + git.text.len() + model.text.len() + 12 <= room {
                seq![dir, git, model]
            } else if dir.text.len() + git.text.len() + 8 <= room {
                seq![dir, git]
            } else {
                seq![dir]
            };
            &&& width >= 100 ==> rows == seq![left.push(stats)]
            &&& width < 100 ==> rows == seq![left, seq![stats]]
        }),
{
    let all = seq![dir, git, model];
    let room = if width >= WIDE {
        room_beside(stats, width)
    } else {
        width
    };
    let kept = fitted(all, room);
    law_fit_keeps_the_longest_prefix(all, room);
    reveal_with_fuel(cols, 4);
    assert(all.take(1) =~= seq![dir]);
    assert(all.take(2) =~= seq![dir, git]);
    assert(all.take(3) =~= all);
    assert(all.drop_last() =~= seq![dir, git]);
    assert(seq![dir, git].drop_last() =~= seq![dir]);
    assert(seq![dir].drop_last() =~= Seq::empty());
    assert(seq![stats].drop_last() =~= Seq::empty());
    assert(cols(seq![stats]) == stats.text.len() + 4);
    assert(cols(all.take(1)) == dir.text.len() + 4);
    assert(cols(all.take(2)) == dir.text.len() + git.text.len() + 8);
    assert(cols(all.take(3)) == dir.text.len() + git.text.len() + model.text.len() + 12);
    assert(kept == all.take(1) || kept == all.take(2) || kept == all.take(3));
}

/// What a tick shows: the end of the directory, the branch with its changed files,
/// the model of the tick as it is, and the counters and the window after the tick,
/// each in its own colors, laid out for the width of the tick.
pub proof fn law_a_tick_shows_what_it_is_given(
    status: StatusView,
    tick: TickView,
    branch: Seq<char>,
    dirty: u64,
    config: Option<Seq<char>>,
)
    ensures
        ({
            let counters = status.counters.tick(tick.session);
            let window = status.tick(tick, config).ctx_window;
            status.rows(tick, branch, dirty, config) == layout(
                SegView { text: short(status.dir), fg: "cad3f5"@, bg: "24273a"@ },
                SegView { text: git_pill(branch, dirty), fg: "cad3f5"@, bg: "363a4f"@ },
                SegView { text: tick.model, fg: "1e2030"@, bg: "c6a0f6"@ },
                SegView {
                    text: stats_pill(counters.totals, counters.last_in, window),
                    fg: "cad3f5"@,
                    bg: "494d64"@,
                },
                tick.width as nat,
            )
        }),
        status.lines(tick, branch, dirty, config).len() == status.rows(
            tick,
            branch,
            dirty,
            config,
        ).len(),
        forall|i: int|
            0 <= i < status.rows(tick, branch, dirty, config).len() ==> (#[trigger] status.lines(
                tick,
                branch,
                dirty,
                config,
            )[i]) == row(status.rows(tick, branch, dirty, config)[i]),
{
}

/// A message that asks for a tick at some width is answered at that width. There is
/// one line from 100 columns on, else there are two. The first line draws no more
/// columns than the message says, unless nothing but the directory is left on it,
/// and the stats from 100 columns on.
pub proof fn law_the_reply_fits_the_width_in_the_message(
    status: StatusView,
    line: Seq<char>,
    message: Members,
    width: u64,
    branch: Seq<char>,
    dirty: u64,
    config: Option<Seq<char>>,
)
    requires
        parsed(line) == Some(Json::Object(message)),
        message.contains_key("op"@),
        message["op"@] == Json::Text("tick"@),
        message.contains_key("width"@),
        message["width"@] == Json::Number(JsonNumber::Natural(width)),
        width <= usize::MAX,
    ensures
        op_of_line(line) is Tick,
        status.answer(op_of_line(line), branch, dirty, config) is Some,
        ({
            let reply = status.answer(op_of_line(line), branch, dirty, config)->0;
            let rows = status.rows(op_of_line(line)->Tick_0, branch, dirty, config);
            &&& width >= 100 ==> reply.len() == 1 && rows.len() == 1
            &&& width < 100 ==> reply.len() == 2 && rows.len() == 2
            &&& reply[0] == row(rows[0])
            &&& drawn(reply[0]) == cols(rows[0])
            &&& drawn(reply[0]) <= width || rows[0].len() == if width >= 100 {
                2nat
            } else {
                1
            }
        }),
{
    law_the_width_is_the_one_in_the_message(message, width);
    let tick = op_of_line(line)->Tick_0;
    let rows = status.rows(tick, branch, dirty, config);
    let shown = status.tick(tick, config);
    let dir = SegView { text: short(shown.dir), fg: TXT@, bg: DIR_BG@ };
    let git = SegView { text: git_pill(branch, dirty), fg: TXT@, bg: GIT_BG@ };
    let model = SegView { text: tick.model, fg: TXT_DARK@, bg: MODEL_BG@ };
    let stats = SegView {
        text: stats_pill(shown.counters.totals, shown.counters.last_in, shown.ctx_window),
        fg: TXT@,
        bg: STATS_BG@,
    };
    law_rows_fit_the_width(dir, git, model, stats, width as nat);
    law_directory_and_stats_never_drop(dir, git, model, stats, width as nat);
    law_drawn_lines_have_the_columns_of_their_rows(status, tick, branch, dirty, config);
    assert(status.lines(tick, branch, dirty, config)[0] == row(rows[0]));
    assert(drawn(status.lines(tick, branch, dirty, config)[0]) == cols(rows[0]));
}

/// On a tick with another model than before, the window depends on the model and the
/// configuration alone, and not on the model or the window before. There is none
/// where the configuration cannot be read, or where no section of it opens the
/// model.
pub proof fn law_the_window_follows_the_model(
    one: StatusView,
    other: StatusView,
    tick: TickView,
    config: Option<Seq<char>>,
)
    requires
        tick.model != one.ctx_model,
        tick.model != other.ctx_model,
    ensures
        one.tick(tick, config).ctx_window == other.tick(tick, config).ctx_window,
        config is None ==> one.tick(tick, config).ctx_window is None,
        config is Some ==> one.tick(tick, config).ctx_window == window_of(config->0, tick.model),
        config is Some && (forall|i: int|
            0 <= i < lines(config->0).len() ==> !opens_model(
                #[trigger] lines(config->0)[i],
                tick.model,
            )) ==> one.tick(tick, config).ctx_window is None,
{
    if config is Some && (forall|i: int|
        0 <= i < lines(config->0).len() ==> !opens_model(
            #[trigger] lines(config->0)[i],
            tick.model,
        )) {
        law_no_section_no_window(config->0, tick.model);
    }
}

/// Of two ticks in a row with different models, the second one shows the window that
/// its own configuration gives its own model, and none where there is none: nothing
/// of the first one's window is left. With the same model the window stays, whatever
/// the configuration says by then.
pub proof fn law_a_switch_of_the_model_drops_the_window(
    status: StatusView,
    first: TickView,
    config: Option<Seq<char>>,
    second: TickView,
    later: Option<Seq<char>>,
)
    ensures
        ({
            let before = status.tick(first, config);
            let after = before.tick(second, later);
            &&& before.ctx_model == first.model
            &&& after.ctx_model == second.model
            &&& second.model != first.model && later is None ==> after.ctx_window is None
            &&& second.model != first.model && later is Some ==> after.ctx_window == window_of(
                later->0,
                second.model,
            )
            &&& second.model == first.model ==> after.ctx_window == before.ctx_window
        }),
{
}

/// A tick never changes the directory, and it counts for the session it names.
pub proof fn law_a_tick_counts_for_its_session(
    status: StatusView,
    tick: TickView,
    config: Option<Seq<char>>,
)
    ensures
        status.tick(tick, config).dir == status.dir,
        status.tick(tick, config).counters == status.counters.tick(tick.session),
{
}

/// After a tick with one session, events, and a tick with another session, the stats
/// are those of the events alone; where the second tick has the same session, or
/// none, they are those of the first tick and the events.
pub proof fn law_the_stats_are_those_of_the_session(
    status: StatusView,
    first: TickView,
    second: TickView,
    events: Seq<UsageEvent>,
    one: Seq<char>,
    other: Seq<char>,
    config: Option<Seq<char>>,
)
    requires
        first.session == Some(one),
        one != other,
    ensures
        ({
            let before = status.tick(first, config);
            let sent = StatusView { counters: before.counters.events(events), ..before };
            let totals = sent.tick(second, config).counters.totals;
            &&& second.session == Some(other) ==> totals == spent(events)
            &&& second.session == Some(one) || second.session is None ==> totals
                == before.counters.totals.plus(spent(events))
        }),
{
    let before = status.tick(first, config);
    law_another_session_starts_over(status.counters, one, other, events);
    law_the_same_session_grows(status.counters, one, events);
    assert(second.session is None || second.session == Some(one) ==> before.counters.events(
        events,
    ).tick(second.session).totals =~= before.counters.totals.plus(spent(events)));
}

/// An event is counted and not answered, a tick is answered, and anything else
/// changes nothing and is not answered.
pub proof fn law_only_ticks_are_answered(
    status: StatusView,
    event: UsageEvent,
    tick: TickView,
    branch: Seq<char>,
    dirty: u64,
    config: Option<Seq<char>>,
)
    ensures
        status.answer(OpView::Event(event), branch, dirty, config) is None,
        status.answer(OpView::Ignored, branch, dirty, config) is None,
        status.answer(OpView::Tick(tick), branch, dirty, config) == Some(
            status.lines(tick, branch, dirty, config),
        ),
        status.after(OpView::Event(event), config).counters == status.counters.event(event),
        status.after(OpView::Event(event), config).dir == status.dir,
        status.after(OpView::Event(event), config).ctx_model == status.ctx_model,
        status.after(OpView::Event(event), config).ctx_window == status.ctx_window,
        status.after(OpView::Tick(tick), config) == status.tick(tick, config),
        status.after(OpView::Ignored, config) == status,
{
}

/// An event fits where each pending count and the event's are a number of 64 bits
/// together; a tick fits where each total does, and the input and the output
/// together. Anything else fits.
pub proof fn law_what_fits_is_64_bits(status: StatusView, event: UsageEvent, tick: TickView)
    ensures
        status.op_fits(OpView::Event(event)) <==> {
            &&& status.counters.pending.input + event.usage.input <= 0xffff_ffff_ffff_ffff
            &&& status.counters.pending.output + event.usage.output <= 0xffff_ffff_ffff_ffff
            &&& status.counters.pending.cached + event.usage.cached <= 0xffff_ffff_ffff_ffff
        },
        status.op_fits(OpView::Tick(tick)) <==> {
            let totals = status.counters.tick(tick.session).totals;
            &&& totals.input + totals.output <= 0xffff_ffff_ffff_ffff
            &&& totals.cached <= 0xffff_ffff_ffff_ffff
        },
        status.op_fits(OpView::Ignored),
{
}

/// What a status line and an optional configuration hold is what stands in them.
pub proof fn law_a_status_line_holds_its_fields(status: StatusLine, text: &str)
    ensures
        status@.dir == status.dir@,
        status@.counters == status.counters@,
        status@.ctx_model == status.ctx_model@,
        status@.ctx_window == status.ctx_window,
        config_view(Some(text)) == Some(text@),
        config_view(None) is None,
{
}

} // verus!
