//! Token usage of the active session.
//!
//! Usage events gather in a pending batch, and each tick commits the batch to the
//! counters. When the session of the tick is another one, the host has just sent
//! the whole history of that session: the batch replaces the totals. When it is
//! the same one, or the tick names none, the batch is growth and adds to them.
use vstd::prelude::*;

#[allow(unused_imports)]
use crate::text::opt_view;

verus! {

/// Token counts.
#[derive(Clone, Copy, Debug, PartialEq, Eq, Structural)]
pub struct Usage {
    pub input: u64,
    pub output: u64,
    pub cached: u64,
}

/// What an event with usage reports on.
#[derive(Clone, Copy, Debug, PartialEq, Eq, Structural)]
pub enum Kind {
    /// A message of the assistant: its input is the fullness of the context.
    Assistant,
    /// A summary call of a compaction: it costs tokens and says nothing of the
    /// context.
    Compaction,
}

/// The usage that one event reports.
#[derive(Clone, Copy, Debug, PartialEq, Eq, Structural)]
pub struct UsageEvent {
    pub kind: Kind,
    pub usage: Usage,
}

/// Token counts without a bound.
#[verifier::ext_equal]
pub struct Tally {
    pub input: nat,
    pub output: nat,
    pub cached: nat,
}

impl Tally {
    pub open spec fn zero() -> Tally {
        Tally { input: 0, output: 0, cached: 0 }
    }

    pub open spec fn plus(self, other: Tally) -> Tally {
        Tally {
            input: self.input + other.input,
            output: self.output + other.output,
            cached: self.cached + other.cached,
        }
    }

    /// Whether each count fits 64 bits.
    pub open spec fn fits(self) -> bool {
        self.input <= u64::MAX && self.output <= u64::MAX && self.cached <= u64::MAX
    }
}

impl View for Usage {
    type V = Tally;

    open spec fn view(&self) -> Tally {
        Tally { input: self.input as nat, output: self.output as nat, cached: self.cached as nat }
    }
}

/// The counters of the active session, and the batch that the next tick commits.
#[derive(Debug)]
pub struct Counters {
    pub totals: Usage,
    pub last_in: u64,
    pub session: Option<String>,
    pub pending: Usage,
    pub pending_last: Option<u64>,
}

/// What the counters hold.
#[verifier::ext_equal]
pub struct CountersView {
    /// The usage of the session.
    pub totals: Tally,
    /// The input of the last message of the assistant; 0 where there was none.
    pub last_in: u64,
    /// The session that the last tick with a session named.
    pub session: Option<Seq<char>>,
    /// The usage since the last tick.
    pub pending: Tally,
    /// The input of the last message of the assistant since the last tick.
    pub pending_last: Option<u64>,
}

impl View for Counters {
    type V = CountersView;

    open spec fn view(&self) -> CountersView {
        CountersView {
            totals: self.totals@,
            last_in: self.last_in,
            session: opt_view(self.session),
            pending: self.pending@,
            pending_last: self.pending_last,
        }
    }
}

impl CountersView {
    /// The counters before any event and any tick.
    pub open spec fn fresh() -> CountersView {
        CountersView {
            totals: Tally::zero(),
            last_in: 0,
            session: None,
            pending: Tally::zero(),
            pending_last: None,
        }
    }

    /// The counters after an event.
    pub open spec fn event(self, event: UsageEvent) -> CountersView {
        CountersView {
            pending: self.pending.plus(event.usage@),
            pending_last: match event.kind {
                Kind::Assistant => Some(event.usage.input),
                Kind::Compaction => self.pending_last,
            },
            ..self
        }
    }

    /// Whether a tick with this session commits another session's history.
    pub open spec fn switches(self, session: Option<Seq<char>>) -> bool {
        session is Some && session != self.session
    }

    /// The counters after a tick.
    pub open spec fn tick(self, session: Option<Seq<char>>) -> CountersView {
        let (totals, last_in) = if self.switches(session) {
            (self.pending, 0)
        } else {
            (self.totals.plus(self.pending), self.last_in)
        };
        CountersView {
            totals,
            last_in: match self.pending_last {
                Some(input) => input,
                None => last_in,
            },
            session: if session is Some {
                session
            } else {
                self.session
            },
            pending: Tally::zero(),
            pending_last: None,
        }
    }

    /// The counters after some events.
    pub open spec fn events(self, events: Seq<UsageEvent>) -> CountersView
        decreases events.len(),
    {
        if events.len() == 0 {
            self
        } else {
            self.events(events.drop_last()).event(events.last())
        }
    }

    /// The counters after batches of events, each followed by a tick with this
    /// session.
    pub open spec fn ticks(
        self,
        batches: Seq<Seq<UsageEvent>>,
        session: Option<Seq<char>>,
    ) -> CountersView
        decreases batches.len(),
    {
        if batches.len() == 0 {
            self
        } else {
            self.ticks(batches.drop_last(), session).events(batches.last()).tick(session)
        }
    }

    /// Whether nothing came since the last tick.
    pub open spec fn idle(self) -> bool {
        self.pending == Tally::zero() && self.pending_last is None
    }
}

/// All events of some batches, in order.
pub open spec fn history(batches: Seq<Seq<UsageEvent>>) -> Seq<UsageEvent>
    decreases batches.len(),
{
    if batches.len() == 0 {
        Seq::empty()
    } else {
        history(batches.drop_last()) + batches.last()
    }
}

fn sum(a: u64, b: u64) -> (s: Option<u64>)
    ensures
        match s {
            Some(s) => s == a + b,
            None => a + b > u64::MAX,
        },
{
    a.checked_add(b)
}

fn plus_fits(a: &Usage, b: &Usage) -> (answer: bool)
    ensures
        answer == a@.plus(b@).fits(),
{
    sum(a.input, b.input).is_some() && sum(a.output, b.output).is_some() && sum(
        a.cached,
        b.cached,
    ).is_some()
}

fn plus(a: &Usage, b: &Usage) -> (s: Usage)
    requires
        a@.plus(b@).fits(),
    ensures
        s@ == a@.plus(b@),
{
    Usage { input: a.input + b.input, output: a.output + b.output, cached: a.cached + b.cached }
}

impl Counters {
    /// The counters at the start.
    pub fn new() -> (counters: Counters)
        ensures
            counters@ == CountersView::fresh(),
    {
        let none = Usage { input: 0, output: 0, cached: 0 };
        Counters { totals: none, last_in: 0, session: None, pending: none, pending_last: None }
    }

    /// Whether the pending counts stay within 64 bits with this event.
    pub fn event_fits(&self, event: &UsageEvent) -> (answer: bool)
        ensures
            answer == self@.event(*event).pending.fits(),
    {
        plus_fits(&self.pending, &event.usage)
    }

    /// Takes in an event.
    pub fn event(&mut self, event: &UsageEvent)
        requires
            old(self)@.event(*event).pending.fits(),
        ensures
            final(self)@ == old(self)@.event(*event),
    {
        self.pending = plus(&self.pending, &event.usage);
        match event.kind {
            Kind::Assistant => {
                self.pending_last = Some(event.usage.input);
            },
            Kind::Compaction => {},
        }
    }

    /// Whether a tick with this session commits another session's history.
    fn is_switch(&self, session: &Option<String>) -> (answer: bool)
        ensures
            answer == self@.switches(opt_view(*session)),
    {
        match (session, &self.session) {
            (Some(named), Some(active)) => !(*named == *active),
            (Some(_), None) => true,
            (None, _) => false,
        }
    }

    /// Whether the totals stay within 64 bits with a tick of this session.
    pub fn tick_fits(&self, session: &Option<String>) -> (answer: bool)
        ensures
            answer == self@.tick(opt_view(*session)).totals.fits(),
    {
        self.is_switch(session) || plus_fits(&self.totals, &self.pending)
    }

    /// Whether the input and the output that a tick of this session shows have a sum
    /// within 64 bits.
    pub fn shown_sum_fits(&self, session: &Option<String>) -> (answer: bool)
        requires
            self@.tick(opt_view(*session)).totals.fits(),
        ensures
            answer == (self@.tick(opt_view(*session)).totals.input + self@.tick(
                opt_view(*session),
            ).totals.output <= u64::MAX),
    {
        let totals = if self.is_switch(session) {
            self.pending
        } else {
            plus(&self.totals, &self.pending)
        };
        sum(totals.input, totals.output).is_some()
    }

    /// Commits the pending batch.
    pub fn tick(&mut self, session: &Option<String>)
        requires
            old(self)@.tick(opt_view(*session)).totals.fits(),
        ensures
            final(self)@ == old(self)@.tick(opt_view(*session)),
    {
        if self.is_switch(session) {
            self.totals = self.pending;
            self.last_in = 0;
        } else {
            self.totals = plus(&self.totals, &self.pending);
        }
        if let Some(input) = self.pending_last {
            self.last_in = input;
        }
        if let Some(named) = session {
            self.session = Some(named.clone());
        }
        self.pending = Usage { input: 0, output: 0, cached: 0 };
        self.pending_last = None;
    }
}

/// The usage that some events report together.
pub open spec fn spent(events: Seq<UsageEvent>) -> Tally
    decreases events.len(),
{
    if events.len() == 0 {
        Tally::zero()
    } else {
        spent(events.drop_last()).plus(events.last().usage@)
    }
}

/// The input of the last message of the assistant among some events, or `before`
/// where there is none.
pub open spec fn last_input(events: Seq<UsageEvent>, before: Option<u64>) -> Option<u64>
    decreases events.len(),
{
    if events.len() == 0 {
        before
    } else {
        match events.last().kind {
            Kind::Assistant => Some(events.last().usage.input),
            Kind::Compaction => last_input(events.drop_last(), before),
        }
    }
}

/// Events add their usage to the pending batch and leave the counters alone.
pub proof fn law_events_only_gather(counters: CountersView, events: Seq<UsageEvent>)
    ensures
        counters.events(events) == (CountersView {
            pending: counters.pending.plus(spent(events)),
            pending_last: last_input(events, counters.pending_last),
            ..counters
        }),
    decreases events.len(),
{
    if events.len() > 0 {
        law_events_only_gather(counters, events.drop_last());
    }
    assert(counters.events(events) =~= (CountersView {
        pending: counters.pending.plus(spent(events)),
        pending_last: last_input(events, counters.pending_last),
        ..counters
    }));
}

proof fn lemma_spent_of_both(first: Seq<UsageEvent>, second: Seq<UsageEvent>, before: Option<u64>)
    ensures
        spent(first + second) == spent(first).plus(spent(second)),
        last_input(first + second, before) == last_input(second, last_input(first, before)),
    decreases second.len(),
{
    if second.len() == 0 {
        assert(first + second =~= first);
    } else {
        assert((first + second).drop_last() =~= first + second.drop_last());
        lemma_spent_of_both(first, second.drop_last(), before);
    }
    assert(spent(first + second) =~= spent(first).plus(spent(second)));
}

proof fn lemma_last_input_before(events: Seq<UsageEvent>, before: Option<u64>)
    ensures
        last_input(events, before) == (match last_input(events, None) {
            Some(input) => Some(input),
            None => before,
        }),
    decreases events.len(),
{
    if events.len() > 0 {
        lemma_last_input_before(events.drop_last(), before);
    }
}

/// Ticks of the active session, and ticks without a session, only add: after any
/// batches of events the totals have grown by all their usage, and the context
/// metric is the last input among them.
pub proof fn law_ticks_of_one_session_add(
    counters: CountersView,
    batches: Seq<Seq<UsageEvent>>,
    session: Option<Seq<char>>,
)
    requires
        counters.idle(),
        !counters.switches(session),
    ensures
        counters.ticks(batches, session).idle(),
        counters.ticks(batches, session).session == counters.session,
        counters.ticks(batches, session).totals == counters.totals.plus(spent(history(batches))),
        Some(counters.ticks(batches, session).last_in) == last_input(
            history(batches),
            Some(counters.last_in),
        ),
    decreases batches.len(),
{
    if batches.len() > 0 {
        let before = counters.ticks(batches.drop_last(), session);
        law_ticks_of_one_session_add(counters, batches.drop_last(), session);
        law_events_only_gather(before, batches.last());
        lemma_spent_of_both(
            history(batches.drop_last()),
            batches.last(),
            Some(counters.last_in),
        );
        lemma_last_input_before(batches.last(), Some(before.last_in));
    }
    assert(counters.ticks(batches, session).totals =~= counters.totals.plus(
        spent(history(batches)),
    ));
}

/// A tick with another session shows what the host sent since the last tick, and
/// nothing of what was counted before.
pub proof fn law_a_switch_forgets(first: CountersView, second: CountersView, session: Seq<char>)
    requires
        first.pending == second.pending,
        first.pending_last == second.pending_last,
        first.switches(Some(session)),
        second.switches(Some(session)),
    ensures
        first.tick(Some(session)) == second.tick(Some(session)),
        first.tick(Some(session)).totals == first.pending,
        first.tick(Some(session)).session == Some(session),
{
}

/// Live growth and replay agree: a session that grew over many ticks, and the same
/// session when its whole history is sent at once, on a restart or on a switch
/// back to it, show the same counters.
pub proof fn law_replay_restores_the_session(
    live: CountersView,
    later: CountersView,
    batches: Seq<Seq<UsageEvent>>,
    session: Seq<char>,
)
    requires
        batches.len() > 0,
        live.idle(),
        live.switches(Some(session)),
        later.idle(),
        later.switches(Some(session)),
    ensures
        later.events(history(batches)).tick(Some(session)) == live.ticks(batches, Some(session)),
    decreases batches.len(),
{
    let named = Some(session);
    let all = history(batches);
    let init = batches.drop_last();
    law_events_only_gather(later, all);
    let replayed = later.events(all).tick(named);
    if init.len() == 0 {
        assert(all =~= batches.last());
        assert(live.ticks(init, named) == live);
        law_events_only_gather(live, batches.last());
    } else {
        law_replay_restores_the_session(live, later, init, session);
        law_events_only_gather(later, history(init));
        let before = live.ticks(init, named);
        law_events_only_gather(before, batches.last());
        lemma_spent_of_both(history(init), batches.last(), None);
        lemma_last_input_before(batches.last(), last_input(history(init), None));
        lemma_last_input_before(batches.last(), None);
    }
    assert(replayed =~= live.ticks(batches, named));
}

/// A tick with nothing pending that names no other session changes nothing.
pub proof fn law_an_idle_tick_changes_nothing(
    counters: CountersView,
    session: Option<Seq<char>>,
)
    requires
        counters.idle(),
        !counters.switches(session),
    ensures
        counters.tick(session) == counters,
{
    assert(counters.tick(session) =~= counters);
}

/// A session without history shows no usage and no context metric.
pub proof fn law_an_empty_session_shows_nothing(counters: CountersView, session: Seq<char>)
    requires
        counters.idle(),
        counters.switches(Some(session)),
    ensures
        counters.tick(Some(session)).totals == Tally::zero(),
        counters.tick(Some(session)).last_in == 0,
        forall|window: Option<u64>|
            (#[trigger] crate::numbers::ctx_section(
                counters.tick(Some(session)).last_in,
                window,
            )) is None,
{
}

/// The usage of a compaction joins the totals and leaves the context metric where
/// it was.
pub proof fn law_compaction_leaves_the_context(
    counters: CountersView,
    usage: Usage,
    session: Option<Seq<char>>,
)
    ensures
        ({
            let event = UsageEvent { kind: Kind::Compaction, usage };
            let with = counters.event(event).tick(session);
            let without = counters.tick(session);
            &&& with.totals == without.totals.plus(usage@)
            &&& with.last_in == without.last_in
            &&& with.session == without.session
        }),
{
    let event = UsageEvent { kind: Kind::Compaction, usage };
    assert(counters.event(event).tick(session).totals =~= counters.tick(session).totals.plus(
        usage@,
    ));
}

/// The counters start at nothing: no usage, no session, nothing pending.
pub proof fn law_counters_start_at_nothing(counters: Counters)
    requires
        counters@ == CountersView::fresh(),
    ensures
        counters.totals.input == 0 && counters.totals.output == 0 && counters.totals.cached == 0,
        counters.last_in == 0,
        counters.session is None,
        counters.pending.input == 0 && counters.pending.output == 0,
        counters.pending.cached == 0,
        counters.pending_last is None,
{
    assert(counters@.totals == counters.totals@);
    assert(counters@.pending == counters.pending@);
    assert(counters@.session == opt_view(counters.session));
}

/// What counters hold is what stands in their fields.
pub proof fn law_counters_hold_their_fields(counters: Counters)
    ensures
        counters@.totals.input == counters.totals.input,
        counters@.totals.output == counters.totals.output,
        counters@.totals.cached == counters.totals.cached,
        counters@.last_in == counters.last_in,
        counters@.pending.input == counters.pending.input,
        counters@.pending.output == counters.pending.output,
        counters@.pending.cached == counters.pending.cached,
        counters@.pending_last == counters.pending_last,
        match counters.session {
            Some(session) => counters@.session == Some(session@),
            None => counters@.session is None,
        },
{
}

/// Counts fit where each of them is a number of 64 bits, and sums go count by count.
pub proof fn law_tallies_go_count_by_count(one: Tally, other: Tally)
    ensures
        one.plus(other).input == one.input + other.input,
        one.plus(other).output == one.output + other.output,
        one.plus(other).cached == one.cached + other.cached,
        Tally::zero().input == 0 && Tally::zero().output == 0 && Tally::zero().cached == 0,
        one.fits() <==> one.input <= 0xffff_ffff_ffff_ffff && one.output <= 0xffff_ffff_ffff_ffff
            && one.cached <= 0xffff_ffff_ffff_ffff,
{
}

/// An event adds its three counts to the pending ones, each to the count of the
/// same name. The input of a message of the assistant becomes the last one; a
/// compaction leaves the last one. Nothing else changes.
pub proof fn law_an_event_adds_its_counts(counters: CountersView, event: UsageEvent)
    ensures
        ({
            let after = counters.event(event);
            &&& after.pending.input == counters.pending.input + event.usage.input
            &&& after.pending.output == counters.pending.output + event.usage.output
            &&& after.pending.cached == counters.pending.cached + event.usage.cached
            &&& event.kind is Assistant ==> after.pending_last == Some(event.usage.input)
            &&& event.kind is Compaction ==> after.pending_last == counters.pending_last
            &&& after.totals == counters.totals
            &&& after.last_in == counters.last_in
            &&& after.session == counters.session
        }),
{
}

/// The usage of some events and one more is theirs and its own, count by count; no
/// event, no usage. The last input is that of the last message of the assistant.
pub proof fn law_usage_adds_up(events: Seq<UsageEvent>, event: UsageEvent, before: Option<u64>)
    ensures
        spent(Seq::empty()) == (Tally { input: 0, output: 0, cached: 0 }),
        spent(events.push(event)).input == spent(events).input + event.usage.input,
        spent(events.push(event)).output == spent(events).output + event.usage.output,
        spent(events.push(event)).cached == spent(events).cached + event.usage.cached,
        last_input(Seq::empty(), before) == before,
        event.kind is Assistant ==> last_input(events.push(event), before) == Some(
            event.usage.input,
        ),
        event.kind is Compaction ==> last_input(events.push(event), before) == last_input(
            events,
            before,
        ),
{
    assert(events.push(event).drop_last() =~= events);
    assert(events.push(event).last() == event);
}

/// The order in which events come does not matter to the usage.
pub proof fn law_usage_has_no_order(first: Seq<UsageEvent>, second: Seq<UsageEvent>)
    ensures
        spent(first + second) == spent(second + first),
{
    lemma_spent_of_both(first, second, None);
    lemma_spent_of_both(second, first, None);
    assert(spent(first + second) =~= spent(second + first));
}

/// After a tick that names one session, a tick that names another one shows exactly
/// the usage of the events between the two, and holds the other session's name.
/// The context metric is the last input among those events, 0 where there is none.
pub proof fn law_another_session_starts_over(
    counters: CountersView,
    one: Seq<char>,
    other: Seq<char>,
    events: Seq<UsageEvent>,
)
    requires
        one != other,
    ensures
        ({
            let first = counters.tick(Some(one));
            let second = first.events(events).tick(Some(other));
            &&& first.session == Some(one)
            &&& second.session == Some(other)
            &&& second.totals == spent(events)
            &&& second.last_in == (match last_input(events, None) {
                Some(input) => input,
                None => 0,
            })
        }),
{
    let first = counters.tick(Some(one));
    law_events_only_gather(first, events);
    assert(first.events(events).tick(Some(other)).totals =~= spent(events));
}

/// After a tick that names a session, a tick that names the same one, or none, adds
/// the usage of the events between the two, and the session stays. The context
/// metric is the last input among those events; it stays where there is none.
pub proof fn law_the_same_session_grows(
    counters: CountersView,
    name: Seq<char>,
    events: Seq<UsageEvent>,
)
    ensures
        ({
            let first = counters.tick(Some(name));
            let named = first.events(events).tick(Some(name));
            let unnamed = first.events(events).tick(None);
            &&& named.session == Some(name)
            &&& named.totals.input == first.totals.input + spent(events).input
            &&& named.totals.output == first.totals.output + spent(events).output
            &&& named.totals.cached == first.totals.cached + spent(events).cached
            &&& named.last_in == (match last_input(events, None) {
                Some(input) => input,
                None => first.last_in,
            })
            &&& unnamed == named
        }),
{
    let first = counters.tick(Some(name));
    law_events_only_gather(first, events);
    assert(first.events(events).tick(None) =~= first.events(events).tick(Some(name)));
}

/// A tick without a session adds what is pending and leaves the session as it is, so
/// that a later tick is held against the last session that was named, and not
/// against the tick between.
pub proof fn law_a_tick_without_a_session_keeps_it(
    counters: CountersView,
    one: Seq<char>,
    other: Seq<char>,
    between: Seq<UsageEvent>,
    events: Seq<UsageEvent>,
)
    requires
        one != other,
    ensures
        counters.tick(None).session == counters.session,
        counters.tick(None).totals.input == counters.totals.input + counters.pending.input,
        counters.tick(None).totals.output == counters.totals.output + counters.pending.output,
        counters.tick(None).totals.cached == counters.totals.cached + counters.pending.cached,
        ({
            let first = counters.tick(Some(one));
            let unnamed = first.events(between).tick(None);
            &&& unnamed.events(events).tick(Some(one)).totals == first.totals.plus(
                spent(between),
            ).plus(spent(events))
            &&& unnamed.events(events).tick(Some(other)).totals == spent(events)
            &&& unnamed.events(events).tick(Some(other)).session == Some(other)
        }),
{
    let first = counters.tick(Some(one));
    law_events_only_gather(first, between);
    let unnamed = first.events(between).tick(None);
    law_events_only_gather(unnamed, events);
    assert(unnamed.events(events).tick(Some(one)).totals =~= first.totals.plus(
        spent(between),
    ).plus(spent(events)));
    assert(unnamed.events(events).tick(Some(other)).totals =~= spent(events));
}

/// A tick that names the session that is held adds what is pending to the totals; one
/// that names any other, or the first one to be named, shows what is pending alone.
pub proof fn law_a_tick_is_held_against_the_session(counters: CountersView, name: Seq<char>)
    ensures
        counters.tick(Some(name)).session == Some(name),
        counters.session == Some(name) ==> {
            let after = counters.tick(Some(name));
            &&& after.totals.input == counters.totals.input + counters.pending.input
            &&& after.totals.output == counters.totals.output + counters.pending.output
            &&& after.totals.cached == counters.totals.cached + counters.pending.cached
            &&& counters.pending_last is None ==> after.last_in == counters.last_in
        },
        counters.session != Some(name) ==> {
            let after = counters.tick(Some(name));
            &&& after.totals == counters.pending
            &&& counters.pending_last is None ==> after.last_in == 0
        },
        counters.pending_last is Some ==> counters.tick(Some(name)).last_in
            == counters.pending_last->0 && counters.tick(None).last_in == counters.pending_last->0,
        counters.pending_last is None ==> counters.tick(None).last_in == counters.last_in,
{
}

/// The first tick, whatever it names, shows the usage of all events before it.
pub proof fn law_the_first_tick_shows_all_events(
    events: Seq<UsageEvent>,
    session: Option<Seq<char>>,
)
    ensures
        ({
            let shown = CountersView::fresh().events(events).tick(session);
            &&& shown.totals == spent(events)
            &&& shown.session == session
            &&& shown.last_in == (match last_input(events, None) {
                Some(input) => input,
                None => 0,
            })
        }),
{
    law_events_only_gather(CountersView::fresh(), events);
    assert(CountersView::fresh().events(events).tick(session).totals =~= spent(events));
}

/// A tick commits all that is pending: nothing is pending after it, and a second
/// tick with the same session changes nothing.
pub proof fn law_a_tick_commits_all(counters: CountersView, session: Option<Seq<char>>)
    ensures
        counters.tick(session).pending == (Tally { input: 0, output: 0, cached: 0 }),
        counters.tick(session).pending_last is None,
        counters.tick(session).tick(session) == counters.tick(session),
{
    assert(counters.tick(session).tick(session) =~= counters.tick(session));
}

} // verus!
