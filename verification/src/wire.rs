//! The lines of the protocol: what the host sends, and the reply to a tick.
use serde_json::Value;
use vstd::prelude::*;

use crate::json::{
    array_value, bool_value, member, natural_at, natural_value, object_value, parse, print, text_at,
    text_value,
};
#[allow(unused_imports)]
use crate::json::{json_of, members_of, parsed, printed, Json, JsonNumber, Members};
use crate::rows::Span;
#[allow(unused_imports)]
use crate::rows::{span_views, SpanView};
#[allow(unused_imports)]
use crate::text::opt_view;
use crate::text::same_text;
use crate::usage::{Kind, Usage, UsageEvent};

verus! {

/// What a tick says that the row depends on.
#[derive(Debug)]
pub struct Tick {
    pub width: usize,
    pub model: String,
    pub session: Option<String>,
}

/// What a line of the host asks for.
#[derive(Debug)]
pub enum Op {
    /// Usage to count.
    Event(UsageEvent),
    /// A row to draw.
    Tick(Tick),
    /// Nothing: no JSON, another operation, or an event without usage to count.
    Ignored,
}

/// What a tick holds.
pub struct TickView {
    pub width: usize,
    pub model: Seq<char>,
    pub session: Option<Seq<char>>,
}

/// What an operation holds.
pub enum OpView {
    Event(UsageEvent),
    Tick(TickView),
    Ignored,
}

impl View for Tick {
    type V = TickView;

    open spec fn view(&self) -> TickView {
        TickView { width: self.width, model: self.model@, session: opt_view(self.session) }
    }
}

impl View for Op {
    type V = OpView;

    open spec fn view(&self) -> OpView {
        match self {
            Op::Event(event) => OpView::Event(*event),
            Op::Tick(tick) => OpView::Tick(tick@),
            Op::Ignored => OpView::Ignored,
        }
    }
}

/// The kind of the events whose usage counts, by their type.
pub open spec fn kind_of(ty: Option<Seq<char>>) -> Option<Kind> {
    if ty == Some("assistant_message"@) {
        Some(Kind::Assistant)
    } else if ty == Some("compaction_summary"@) {
        Some(Kind::Compaction)
    } else {
        None
    }
}

/// A number that may be missing: 0 where it is.
pub open spec fn or_zero(number: Option<u64>) -> u64 {
    match number {
        Some(number) => number,
        None => 0,
    }
}

/// The usage that an event reports, where it is of a kind that counts and has a
/// usage object. A count that is missing, or no natural number, is 0.
pub open spec fn usage_of(event: Json) -> Option<UsageEvent> {
    match (kind_of(event.text_at("type"@)), event.member("usage"@)) {
        (Some(kind), Some(usage)) if usage is Object => Some(
            UsageEvent {
                kind,
                usage: Usage {
                    input: or_zero(usage.natural_at("input_tokens"@)),
                    output: or_zero(usage.natural_at("output_tokens"@)),
                    cached: or_zero(usage.natural_at("cached_tokens"@)),
                },
            },
        ),
        _ => None,
    }
}

/// What a tick says: the width, 80 where there is none; the model, `no-model`
/// where there is none or it is empty; the session, if it names one.
pub open spec fn tick_of(payload: Json) -> TickView {
    TickView {
        width: match payload.natural_at("width"@) {
            Some(width) => width as usize,
            None => 80,
        },
        model: match payload.text_at("model"@) {
            Some(model) if model.len() > 0 => model,
            _ => "no-model"@,
        },
        session: payload.text_at("session"@),
    }
}

/// What a message asks for.
pub open spec fn op_of(message: Json) -> OpView {
    let op = message.text_at("op"@);
    if op == Some("event"@) {
        match message.member("event"@) {
            Some(event) => match usage_of(event) {
                Some(event) => OpView::Event(event),
                None => OpView::Ignored,
            },
            None => OpView::Ignored,
        }
    } else if op == Some("tick"@) {
        OpView::Tick(tick_of(message))
    } else {
        OpView::Ignored
    }
}

/// What a line asks for: nothing where it is no JSON.
pub open spec fn op_of_line(line: Seq<char>) -> OpView {
    match parsed(line) {
        Some(message) => op_of(message),
        None => OpView::Ignored,
    }
}

fn count_at(usage: &Value, key: &str) -> (count: u64)
    ensures
        count == or_zero(json_of(*usage).natural_at(key@)),
{
    match natural_at(usage, key) {
        Some(count) => count,
        None => 0,
    }
}

/// The usage that an event reports.
pub(crate) fn decode_event(event: &Value) -> (usage: Option<UsageEvent>)
    ensures
        usage == usage_of(json_of(*event)),
{
    let kind = match text_at(event, "type") {
        Some(ty) => if same_text(ty, "assistant_message") {
            Kind::Assistant
        } else if same_text(ty, "compaction_summary") {
            Kind::Compaction
        } else {
            return None;
        },
        None => return None,
    };
    match member(event, "usage") {
        Some(usage) => if usage.is_object() {
            Some(
                UsageEvent {
                    kind,
                    usage: Usage {
                        input: count_at(usage, "input_tokens"),
                        output: count_at(usage, "output_tokens"),
                        cached: count_at(usage, "cached_tokens"),
                    },
                },
            )
        } else {
            None
        },
        None => None,
    }
}

/// What a tick says.
pub(crate) fn decode_tick(payload: &Value) -> (tick: Tick)
    ensures
        tick@ == tick_of(json_of(*payload)),
{
    let width: usize = match natural_at(payload, "width") {
        Some(width) => width as usize,
        None => 80,
    };
    let model = match text_at(payload, "model") {
        Some(model) => if model.is_empty() {
            "no-model".to_owned()
        } else {
            model.to_owned()
        },
        None => "no-model".to_owned(),
    };
    let session = match text_at(payload, "session") {
        Some(session) => Some(session.to_owned()),
        None => None,
    };
    Tick { width, model, session }
}

/// What a message asks for.
pub fn decode(message: &Value) -> (op: Op)
    ensures
        op@ == op_of(json_of(*message)),
{
    match text_at(message, "op") {
        Some(op) => if same_text(op, "event") {
            match member(message, "event") {
                Some(event) => match decode_event(event) {
                    Some(event) => Op::Event(event),
                    None => Op::Ignored,
                },
                None => Op::Ignored,
            }
        } else if same_text(op, "tick") {
            Op::Tick(decode_tick(message))
        } else {
            Op::Ignored
        },
        None => Op::Ignored,
    }
}

/// What a line of the host asks for. A line that is no JSON asks for nothing.
pub fn read_line(line: &str) -> (op: Op)
    ensures
        op@ == op_of_line(line@),
{
    match parse(line) {
        Ok(message) => decode(&message),
        Err(_) => Op::Ignored,
    }
}

/// The style object of a span: its colors, where it has them, and `bold` where it
/// is bold.
pub open spec fn style_members(span: SpanView) -> Members {
    let none = Members::empty();
    let fg = match span.fg {
        Some(color) => none.insert("fg"@, Json::Text(color)),
        None => none,
    };
    let bg = match span.bg {
        Some(color) => fg.insert("bg"@, Json::Text(color)),
        None => fg,
    };
    if span.bold {
        bg.insert("bold"@, Json::Bool(true))
    } else {
        bg
    }
}

/// A span on the wire: its text and its style.
pub open spec fn span_json(span: SpanView) -> Json {
    Json::Array(seq![Json::Text(span.text), Json::Object(style_members(span))])
}

/// A line on the wire: its spans, left to right.
pub open spec fn line_json(spans: Seq<SpanView>) -> Json {
    Json::Array(spans.map_values(|span: SpanView| span_json(span)))
}

/// The reply to a tick on the wire.
pub open spec fn reply_json(lines: Seq<Seq<SpanView>>) -> Json {
    Json::Object(
        Members::empty().insert("v"@, Json::Number(JsonNumber::Natural(1))).insert(
            "op"@,
            Json::Text("status"@),
        ).insert(
            "lines"@,
            Json::Array(lines.map_values(|spans: Seq<SpanView>| line_json(spans))),
        ),
    )
}

/// What the lines of a reply hold.
pub open spec fn line_views(lines: Seq<Vec<Span>>) -> Seq<Seq<SpanView>> {
    lines.map_values(|spans: Vec<Span>| span_views(spans@))
}

/// A span as a JSON value.
pub(crate) fn span_value(span: &Span) -> (value: Value)
    ensures
        json_of(value) == span_json(span@),
{
    let mut style: serde_json::Map<String, Value> = serde_json::Map::new();
    if let Some(fg) = &span.fg {
        style.insert("fg".to_owned(), text_value(fg.as_str()));
    }
    if let Some(bg) = &span.bg {
        style.insert("bg".to_owned(), text_value(bg.as_str()));
    }
    if span.bold {
        style.insert("bold".to_owned(), bool_value(true));
    }
    let mut pair: Vec<Value> = Vec::new();
    pair.push(text_value(span.text.as_str()));
    pair.push(object_value(style));
    proof {
        assert(pair@.map_values(|item: Value| json_of(item)) =~= seq![
            Json::Text(span@.text),
            Json::Object(style_members(span@)),
        ]);
    }
    array_value(pair)
}

/// A line as a JSON value.
pub(crate) fn line_value(spans: &Vec<Span>) -> (value: Value)
    ensures
        json_of(value) == line_json(span_views(spans@)),
{
    let mut items: Vec<Value> = Vec::new();
    let mut i: usize = 0;
    while i < spans.len()
        invariant
            i <= spans.len(),
            items.len() == i,
            forall|j: int| 0 <= j < i ==> json_of(#[trigger] items@[j]) == span_json(spans@[j]@),
        decreases spans.len() - i,
    {
        items.push(span_value(&spans[i]));
        i = i + 1;
    }
    proof {
        assert(items@.map_values(|item: Value| json_of(item)) =~= span_views(spans@).map_values(
            |span: SpanView| span_json(span),
        ));
    }
    array_value(items)
}

/// The reply to a tick as a JSON value.
pub(crate) fn reply_value(lines: &Vec<Vec<Span>>) -> (value: Value)
    ensures
        json_of(value) == reply_json(line_views(lines@)),
{
    let mut items: Vec<Value> = Vec::new();
    let mut i: usize = 0;
    while i < lines.len()
        invariant
            i <= lines.len(),
            items.len() == i,
            forall|j: int|
                0 <= j < i ==> json_of(#[trigger] items@[j]) == line_json(span_views(lines@[j]@)),
        decreases lines.len() - i,
    {
        items.push(line_value(&lines[i]));
        i = i + 1;
    }
    proof {
        assert(items@.map_values(|item: Value| json_of(item)) =~= line_views(lines@).map_values(
            |spans: Seq<SpanView>| line_json(spans),
        ));
    }
    let mut reply: serde_json::Map<String, Value> = serde_json::Map::new();
    reply.insert("v".to_owned(), natural_value(1));
    reply.insert("op".to_owned(), text_value("status"));
    reply.insert("lines".to_owned(), array_value(items));
    object_value(reply)
}

proof fn lemma_span_is_shallow(span: SpanView, depth: nat)
    requires
        depth >= 2,
    ensures
        span_json(span).shallow(depth),
{
    let below = (depth - 1) as nat;
    let style = style_members(span);
    assert(Json::Text(span.text).shallow(below));
    assert forall|key: Seq<char>| style.contains_key(key) implies (#[trigger] style[key]).shallow(
        (below - 1) as nat,
    ) by {
        assert(style[key] is Text || style[key] is Bool);
    }
    assert(Json::Object(style).shallow(below));
}

proof fn lemma_line_is_shallow(spans: Seq<SpanView>, depth: nat)
    requires
        depth >= 3,
    ensures
        line_json(spans).shallow(depth),
{
    let items = spans.map_values(|span: SpanView| span_json(span));
    assert forall|i: int| 0 <= i < items.len() implies (#[trigger] items[i]).shallow(
        (depth - 1) as nat,
    ) by {
        lemma_span_is_shallow(spans[i], (depth - 1) as nat);
    }
}

proof fn lemma_reply_is_shallow(lines: Seq<Seq<SpanView>>, depth: nat)
    requires
        depth >= 5,
    ensures
        reply_json(lines).shallow(depth),
{
    let items = lines.map_values(|spans: Seq<SpanView>| line_json(spans));
    let below = (depth - 1) as nat;
    assert forall|i: int| 0 <= i < items.len() implies (#[trigger] items[i]).shallow(
        (below - 1) as nat,
    ) by {
        lemma_line_is_shallow(lines[i], (below - 1) as nat);
    }
    assert(Json::Array(items).shallow(below));
    assert(Json::Text("status"@).shallow(below));
    assert(Json::Number(JsonNumber::Natural(1)).shallow(below));
}

/// The reply line to a tick, without its line feed. It is one line, and reading it
/// gives the reply back.
pub fn reply_text(lines: &Vec<Vec<Span>>) -> (text: String)
    ensures
        text@ == printed(reply_json(line_views(lines@))),
        parsed(text@) == Some(reply_json(line_views(lines@))),
        !text@.contains('\n'),
{
    let value = reply_value(lines);
    proof {
        lemma_reply_is_shallow(line_views(lines@), crate::json::READER_DEPTH as nat);
    }
    print(&value)
}

/// An event of any other type than the two that count asks for nothing.
pub proof fn law_other_events_do_not_count(message: Json, event: Json)
    requires
        message.text_at("op"@) == Some("event"@),
        message.member("event"@) == Some(event),
        event.text_at("type"@) != Some("assistant_message"@),
        event.text_at("type"@) != Some("compaction_summary"@),
    ensures
        op_of(message) is Ignored,
{
}

/// A tick is read for its width, its model and its session, and for nothing else:
/// other members, such as the statuses of other extensions, do not matter.
pub proof fn law_other_members_of_a_tick_do_not_matter(one: Members, other: Members)
    requires
        Json::Object(one).text_at("op"@) == Some("tick"@),
        Json::Object(one).member("op"@) == Json::Object(other).member("op"@),
        Json::Object(one).member("width"@) == Json::Object(other).member("width"@),
        Json::Object(one).member("model"@) == Json::Object(other).member("model"@),
        Json::Object(one).member("session"@) == Json::Object(other).member("session"@),
    ensures
        op_of(Json::Object(one)) == op_of(Json::Object(other)),
        op_of(Json::Object(one)) is Tick,
{
    reveal_strlit("event");
    reveal_strlit("tick");
    assert("event"@.len() != "tick"@.len());
}

/// The width of a tick is the number in the message, whatever it is: 0, one column,
/// or more than any terminal has. Without a natural number there it is 80.
pub proof fn law_the_width_is_the_one_in_the_message(message: Members, width: u64)
    requires
        message.contains_key("op"@),
        message["op"@] == Json::Text("tick"@),
        width <= usize::MAX,
    ensures
        op_of(Json::Object(message)) is Tick,
        message.contains_key("width"@) && message["width"@] == Json::Number(
            JsonNumber::Natural(width),
        ) ==> op_of(Json::Object(message))->Tick_0.width == width,
        !message.contains_key("width"@) ==> op_of(Json::Object(message))->Tick_0.width == 80,
        message.contains_key("width"@) && !(message["width"@] matches Json::Number(
            JsonNumber::Natural(_),
        )) ==> op_of(Json::Object(message))->Tick_0.width == 80,
{
    reveal_strlit("event");
    reveal_strlit("tick");
    assert("event"@.len() != "tick"@.len());
}

/// The model and the session of a tick are the texts in the message, every character
/// of them. The model is `no-model` where there is no text or an empty one; an
/// empty session is a session, and a value that is no text is none.
pub proof fn law_the_names_are_the_ones_in_the_message(message: Members, name: Seq<char>)
    requires
        message.contains_key("op"@),
        message["op"@] == Json::Text("tick"@),
    ensures
        op_of(Json::Object(message)) is Tick,
        message.contains_key("model"@) && message["model"@] == Json::Text(name) && name.len() > 0
            ==> op_of(Json::Object(message))->Tick_0.model == name,
        message.contains_key("model"@) && message["model"@] == Json::Text(Seq::empty()) ==> op_of(
            Json::Object(message),
        )->Tick_0.model == "no-model"@,
        !message.contains_key("model"@) || !(message["model"@] is Text) ==> op_of(
            Json::Object(message),
        )->Tick_0.model == "no-model"@,
        message.contains_key("session"@) && message["session"@] == Json::Text(name) ==> op_of(
            Json::Object(message),
        )->Tick_0.session == Some(name),
        !message.contains_key("session"@) || !(message["session"@] is Text) ==> op_of(
            Json::Object(message),
        )->Tick_0.session is None,
{
    reveal_strlit("event");
    reveal_strlit("tick");
    assert("event"@.len() != "tick"@.len());
}

/// An event of the assistant and one of a compaction are read alike, but for their
/// kind: each count is the natural number under its own key, and 0 where there is
/// none.
pub proof fn law_the_counts_are_the_ones_in_the_event(
    message: Members,
    event: Members,
    usage: Members,
    count: u64,
)
    requires
        message.contains_key("op"@),
        message["op"@] == Json::Text("event"@),
        message.contains_key("event"@),
        message["event"@] == Json::Object(event),
        event.contains_key("type"@),
        event["type"@] == Json::Text("assistant_message"@) || event["type"@] == Json::Text(
            "compaction_summary"@,
        ),
        event.contains_key("usage"@),
        event["usage"@] == Json::Object(usage),
    ensures
        op_of(Json::Object(message)) is Event,
        ({
            let read = op_of(Json::Object(message))->Event_0;
            &&& event["type"@] == Json::Text("assistant_message"@) <==> read.kind is Assistant
            &&& event["type"@] == Json::Text("compaction_summary"@) <==> read.kind is Compaction
            &&& usage.contains_key("input_tokens"@) && usage["input_tokens"@] == Json::Number(
                JsonNumber::Natural(count),
            ) ==> read.usage.input == count
            &&& usage.contains_key("output_tokens"@) && usage["output_tokens"@] == Json::Number(
                JsonNumber::Natural(count),
            ) ==> read.usage.output == count
            &&& usage.contains_key("cached_tokens"@) && usage["cached_tokens"@] == Json::Number(
                JsonNumber::Natural(count),
            ) ==> read.usage.cached == count
            &&& !usage.contains_key("input_tokens"@) || !(usage["input_tokens"@] matches Json::Number(
                JsonNumber::Natural(_),
            )) ==> read.usage.input == 0
            &&& !usage.contains_key("output_tokens"@) || !(
            usage["output_tokens"@] matches Json::Number(JsonNumber::Natural(_)))
                ==> read.usage.output == 0
            &&& !usage.contains_key("cached_tokens"@) || !(
            usage["cached_tokens"@] matches Json::Number(JsonNumber::Natural(_)))
                ==> read.usage.cached == 0
        }),
{
    reveal_strlit("assistant_message");
    reveal_strlit("compaction_summary");
    assert("assistant_message"@.len() != "compaction_summary"@.len());
}

/// Only two operations ask for anything, and an event only with a usage object: a
/// value that is no object, a message without an operation or with another one,
/// and an event without usage ask for nothing.
pub proof fn law_everything_else_asks_for_nothing(message: Json, members: Members, event: Json)
    ensures
        !(message is Object) ==> op_of(message) is Ignored,
        !members.contains_key("op"@) ==> op_of(Json::Object(members)) is Ignored,
        members.contains_key("op"@) && members["op"@] != Json::Text("event"@) && members["op"@]
            != Json::Text("tick"@) ==> op_of(Json::Object(members)) is Ignored,
        members.contains_key("op"@) && members["op"@] == Json::Text("event"@)
            && !members.contains_key("event"@) ==> op_of(Json::Object(members)) is Ignored,
        members.contains_key("op"@) && members["op"@] == Json::Text("event"@)
            && members.contains_key("event"@) && !(members["event"@] is Object) ==> op_of(
            Json::Object(members),
        ) is Ignored,
        members.contains_key("op"@) && members["op"@] == Json::Text("event"@)
            && members.contains_key("event"@) && members["event"@] == event && event is Object && (
        !event->Object_0.contains_key("usage"@) || !(event->Object_0["usage"@] is Object))
            ==> op_of(Json::Object(members)) is Ignored,
{
}

/// A line asks for what the JSON in it asks for, and for nothing where there is none.
pub proof fn law_a_line_asks_for_what_its_json_asks_for(line: Seq<char>, message: Json)
    ensures
        parsed(line) == Some(message) ==> op_of_line(line) == op_of(message),
        parsed(line) is None ==> op_of_line(line) is Ignored,
{
}

/// What an operation holds is what stands in its fields.
pub proof fn law_operations_hold_their_fields(tick: Tick, event: UsageEvent)
    ensures
        Op::Event(event)@ == OpView::Event(event),
        Op::Ignored@ is Ignored,
        Op::Tick(tick)@ is Tick,
        Op::Tick(tick)@->Tick_0.width == tick.width,
        Op::Tick(tick)@->Tick_0.model == tick.model@,
        match tick.session {
            Some(session) => Op::Tick(tick)@->Tick_0.session == Some(session@),
            None => Op::Tick(tick)@->Tick_0.session is None,
        },
        tick@ == Op::Tick(tick)@->Tick_0,
{
}

/// The style of a span has a color exactly where the span has it, and that color;
/// it has `bold` exactly where the span is bold, and then it is true. It has
/// nothing else.
pub proof fn law_a_style_has_what_the_span_has(span: SpanView, key: Seq<char>)
    ensures
        ({
            let style = style_members(span);
            &&& style.contains_key("fg"@) <==> span.fg is Some
            &&& span.fg is Some ==> style["fg"@] == Json::Text(span.fg->0)
            &&& style.contains_key("bg"@) <==> span.bg is Some
            &&& span.bg is Some ==> style["bg"@] == Json::Text(span.bg->0)
            &&& style.contains_key("bold"@) <==> span.bold
            &&& span.bold ==> style["bold"@] == Json::Bool(true)
            &&& style.contains_key(key) ==> key == "fg"@ || key == "bg"@ || key == "bold"@
        }),
{
    reveal_strlit("fg");
    reveal_strlit("bg");
    reveal_strlit("bold");
    assert("fg"@[0] != "bg"@[0]);
    assert("fg"@.len() != "bold"@.len());
    assert("bg"@.len() != "bold"@.len());
}

/// The reply is an object of three members: version 1, the operation `status`, and
/// the lines in order, each with its spans in order, each of them a pair of its text
/// and its style.
pub proof fn law_a_reply_has_all_spans_in_order(
    lines: Seq<Seq<SpanView>>,
    key: Seq<char>,
    i: int,
    j: int,
)
    requires
        0 <= i < lines.len(),
        0 <= j < lines[i].len(),
    ensures
        reply_json(lines) is Object,
        ({
            let reply = reply_json(lines)->Object_0;
            let rows = reply["lines"@]->Array_0;
            let spans = rows[i]->Array_0;
            &&& reply.contains_key("v"@) && reply["v"@] == Json::Number(JsonNumber::Natural(1))
            &&& reply.contains_key("op"@) && reply["op"@] == Json::Text("status"@)
            &&& reply.contains_key("lines"@) && reply["lines"@] is Array
            &&& reply.contains_key(key) ==> key == "v"@ || key == "op"@ || key == "lines"@
            &&& rows.len() == lines.len()
            &&& rows[i] is Array
            &&& spans.len() == lines[i].len()
            &&& spans[j] is Array
            &&& spans[j]->Array_0.len() == 2
            &&& spans[j]->Array_0[0] == Json::Text(lines[i][j].text)
            &&& spans[j]->Array_0[1] == Json::Object(style_members(lines[i][j]))
        }),
{
    reveal_strlit("v");
    reveal_strlit("op");
    reveal_strlit("lines");
    assert("v"@.len() != "op"@.len());
    assert("v"@.len() != "lines"@.len());
    assert("op"@.len() != "lines"@.len());
}

/// Two spans that are the same on the wire are the same.
pub proof fn law_spans_can_be_told_apart(one: SpanView, other: SpanView)
    requires
        span_json(one) == span_json(other),
    ensures
        one == other,
{
    law_a_style_has_what_the_span_has(one, Seq::empty());
    law_a_style_has_what_the_span_has(other, Seq::empty());
    let first = span_json(one)->Array_0;
    let second = span_json(other)->Array_0;
    assert(first[0] == second[0]);
    assert(first[1] == second[1]);
    assert(one.fg is Some ==> Json::Text(one.fg->0) == Json::Text(other.fg->0));
    assert(one.bg is Some ==> Json::Text(one.bg->0) == Json::Text(other.bg->0));
}

proof fn lemma_lines_can_be_told_apart(one: Seq<SpanView>, other: Seq<SpanView>)
    requires
        line_json(one) == line_json(other),
    ensures
        one == other,
{
    let first = line_json(one)->Array_0;
    let second = line_json(other)->Array_0;
    assert(first.len() == one.len() && second.len() == other.len());
    assert forall|j: int| 0 <= j < one.len() implies one[j] == other[j] by {
        assert(first[j] == span_json(one[j]));
        assert(second[j] == span_json(other[j]));
        law_spans_can_be_told_apart(one[j], other[j]);
    }
    assert(one =~= other);
}

/// Replies of different lines are different: the host sees all that is drawn.
pub proof fn law_replies_can_be_told_apart(one: Seq<Seq<SpanView>>, other: Seq<Seq<SpanView>>)
    requires
        reply_json(one) == reply_json(other),
    ensures
        one == other,
{
    let first = reply_json(one)->Object_0["lines"@];
    let second = reply_json(other)->Object_0["lines"@];
    assert(first == second);
    assert(first->Array_0.len() == one.len() && second->Array_0.len() == other.len());
    assert forall|i: int| 0 <= i < one.len() implies one[i] == other[i] by {
        assert(first->Array_0[i] == line_json(one[i]));
        assert(second->Array_0[i] == line_json(other[i]));
        lemma_lines_can_be_told_apart(one[i], other[i]);
    }
    assert(one =~= other);
}

/// The lines of a reply hold the spans that are in them, in order, and a span holds
/// what stands in its fields.
pub proof fn law_lines_hold_their_spans(lines: Seq<Vec<Span>>, i: int, j: int)
    requires
        0 <= i < lines.len(),
        0 <= j < lines[i].len(),
    ensures
        line_views(lines).len() == lines.len(),
        line_views(lines)[i].len() == lines[i].len(),
        line_views(lines)[i][j].text == lines[i][j].text@,
        line_views(lines)[i][j].bold == lines[i][j].bold,
        match lines[i][j].fg {
            Some(color) => line_views(lines)[i][j].fg == Some(color@),
            None => line_views(lines)[i][j].fg is None,
        },
        match lines[i][j].bg {
            Some(color) => line_views(lines)[i][j].bg == Some(color@),
            None => line_views(lines)[i][j].bg is None,
        },
{
}

} // verus!
