//! What the row takes from the configuration: the directory that it lies in, and
//! the context window of a model.
use vstd::prelude::*;

use crate::text::{
    chars_of, equals_at, find_at, is_white, natural_at, starts_at, trim_at, trim_front_at, Class,
};
#[allow(unused_imports)]
use crate::text::{
    decimal, first_of, law_a_number_has_a_digit, law_decimal_reads_back,
    law_first_of_is_the_first, law_lines_end_at_line_feeds, law_lines_of_two_texts,
    law_trim_back_leaves_the_rest, law_trim_front_leaves_the_rest, law_trim_leaves_the_inner_text,
    lemma_trim_back_behind, lemma_trim_holds_no_more, lines, natural, opt_view, part, starts, trim,
    trim_back, trim_front, white,
};

verus! {

/// A path whose parts are separated by `/` on every system: nothing else in it
/// separates parts, and it starts with no drive, which a colon in the second place
/// would mark, and no server.
pub open spec fn portable(path: Seq<char>) -> bool {
    &&& !path.contains('\\')
    &&& path.len() < 2 || path[1] != ':'
    &&& !starts(path, "//"@)
}

/// How much of a path stands before its parts: the root, or a lone dot that the
/// path starts with.
pub open spec fn head(path: Seq<char>) -> int {
    if path.len() > 0 && (path[0] == '/' || (path[0] == '.' && (path.len() == 1 || path[1]
        == '/'))) {
        1
    } else {
        0
    }
}

/// Where the last part behind the head starts: behind the last separator, or at
/// the head where there is none.
pub open spec fn last_part(path: Seq<char>, head: int) -> int
    decreases path.len(),
{
    if path.len() <= head || path.len() == 0 {
        head
    } else if path.last() == '/' {
        path.len() as int
    } else {
        last_part(path.drop_last(), head)
    }
}

/// A path without its last part and the separator before it.
pub open spec fn without_last(path: Seq<char>, head: int) -> Seq<char> {
    let start = last_part(path, head);
    path.take(
        if start > head {
            start - 1
        } else {
            head
        },
    )
}

/// The last part starts within the path, behind a separator or at the head.
pub proof fn lemma_last_part(path: Seq<char>, head: int)
    requires
        0 <= head <= path.len(),
    ensures
        head <= last_part(path, head) <= path.len(),
        last_part(path, head) > head ==> path[last_part(path, head) - 1] == '/',
    decreases path.len(),
{
    if path.len() > head && path.last() != '/' {
        lemma_last_part(path.drop_last(), head);
    }
}

/// A path without the separators and lone dots at its end.
pub open spec fn settled(path: Seq<char>, head: int) -> Seq<char>
    decreases path.len(),
    when 0 <= head
{
    let part = path.skip(last_part(path, head));
    if path.len() > head && (part.len() == 0 || part == "."@) {
        proof {
            lemma_last_part(path, head);
        }
        settled(without_last(path, head), head)
    } else {
        path
    }
}

/// The parent of a portable path: the path without separators and lone dots at its
/// end, without its last part, and again without them. The parent of a lone dot is
/// empty; an empty path and the root have none.
pub open spec fn parent_of(path: Seq<char>) -> Option<Seq<char>> {
    let head = head(path);
    let whole = settled(path, head);
    if whole.len() > head {
        Some(settled(without_last(whole, head), head))
    } else if path.len() > 0 && path[0] == '.' {
        Some(Seq::empty())
    } else {
        None
    }
}

/// `std::path::Path::parent`: the path without its final component, where trailing
/// separators and lone dots are no components. What else separates the parts of a
/// path, and how a drive or a server is written, is up to the system: of a path
/// that is not portable it is only said that a parent is a leading part of it, and
/// shorter.
#[verifier::external_body]
pub(crate) fn parent(path: &str) -> (dir: Option<String>)
    ensures
        portable(path@) ==> opt_view(dir) == parent_of(path@),
        dir matches Some(dir) ==> dir@.len() < path@.len() && starts(path@, dir@),
{
    std::path::Path::new(path).parent().map(|dir| dir.to_string_lossy().into_owned())
}

/// The directory to show for the parent of the configuration's path: the current
/// directory where there is none.
pub open spec fn shown_dir(parent: Option<Seq<char>>) -> Seq<char> {
    match parent {
        Some(parent) => parent,
        None => "."@,
    }
}

/// The directory to show for the parent of the configuration's path.
pub fn dir_of_parent(parent: Option<String>) -> (dir: String)
    ensures
        dir@ == shown_dir(opt_view(parent)),
{
    match parent {
        Some(parent) => parent,
        None => ".".to_owned(),
    }
}

/// The live directory: the one that the configuration lies in, where the host
/// works. It is the current directory where no configuration is set. How a path
/// that is not portable is taken apart is up to the system.
pub fn live_dir(config: Option<&str>) -> (dir: String)
    ensures
        config is None ==> dir@ == "."@,
        config matches Some(path) ==> portable(path@) ==> dir@ == shown_dir(parent_of(path@)),
        config matches Some(path) ==> dir@ == "."@ || (dir@.len() < path@.len() && starts(
            path@,
            dir@,
        )),
{
    match config {
        Some(path) => dir_of_parent(parent(path)),
        None => dir_of_parent(None),
    }
}

proof fn lemma_last_part_is_name(base: Seq<char>, name: Seq<char>, head: int)
    requires
        !name.contains('/'),
        0 <= head <= base.len(),
        head == base.len() || base.last() == '/',
    ensures
        last_part(base + name, head) == base.len(),
    decreases name.len(),
{
    if name.len() == 0 {
        assert(base + name =~= base);
    } else {
        assert(name.contains(name.last()));
        assert((base + name).drop_last() =~= base + name.drop_last());
        assert forall|c: char| name.drop_last().contains(c) implies name.contains(c) by {
            let i = choose|i: int| 0 <= i < name.drop_last().len() && name.drop_last()[i] == c;
            assert(name[i] == c);
        }
        lemma_last_part_is_name(base, name.drop_last(), head);
    }
}

/// The parent of a name in a directory is the directory, that of a name in the root
/// is the root, and that of a name alone is empty. A directory is written here
/// without a separator or a lone dot at its end.
pub proof fn law_parent_is_the_directory(base: Seq<char>, name: Seq<char>)
    requires
        name.len() > 0,
        !name.contains('/'),
        name != "."@,
        base.len() > 0,
        base.last() != '/',
        base.len() < 2 || base[base.len() - 2] != '/' || base.last() != '.',
    ensures
        parent_of(base + "/"@ + name) == Some(base),
        parent_of("/"@ + name) == Some("/"@),
        parent_of(name) == Some(Seq::<char>::empty()),
{
    reveal_strlit("/");
    reveal_strlit(".");
    let path = base + "/"@ + name;
    let before = head(path);
    assert(path[0] == base[0]);
    assert(path[1] == (base + "/"@)[1]);
    lemma_last_part_is_name(base + "/"@, name, before);
    assert(path.skip(base.len() as int + 1) =~= name);
    assert(settled(path, before) == path);
    assert(without_last(path, before) =~= base);
    let start = last_part(base, before);
    lemma_last_part(base, before);
    if base.len() > before && base.skip(start) == "."@ {
        assert(start == base.len() - 1);
        assert(base.skip(start)[0] == base.last());
    }
    assert(settled(base, before) == base);

    let rooted = "/"@ + name;
    lemma_last_part_is_name("/"@, name, 1);
    assert(rooted.skip(1) =~= name);
    assert(without_last(rooted, 1) =~= "/"@);

    assert(name.contains(name[0]));
    if name.len() > 1 {
        assert(name.contains(name[1]));
    } else if name[0] == '.' {
        assert(name =~= "."@);
    }
    let none = Seq::<char>::empty();
    lemma_last_part_is_name(none, name, 0);
    assert(none + name =~= name);
    assert(name.skip(0) =~= name);
    assert(without_last(name, 0) =~= none);
}

/// What is known of a model's window after some lines of the configuration.
pub struct Scan {
    /// Whether the lines that follow belong to a section of the model.
    pub in_section: bool,
    /// The window that the last section of the model gives, if it gives one.
    pub window: Option<u64>,
}

/// The model that the header of a model section names: what stands before the
/// first `]`, without quotes around it.
pub open spec fn section_model(header: Seq<char>) -> Seq<char> {
    let rest = header.skip("[model."@.len() as int);
    trim(rest.take(first_of(rest, ']')), Class::Only('"'))
}

/// The number that a `context_tokens` line gives: what stands behind the key and
/// the equals signs, without white space and quotes around it.
pub open spec fn key_value(line: Seq<char>) -> Option<u64> {
    let rest = trim_front(line.skip("context_tokens"@.len() as int), Class::White);
    let raw = trim(trim_front(rest, Class::Only('=')), Class::White);
    natural(trim(trim(raw, Class::Only('"')), Class::White))
}

/// Whether a trimmed line has the `context_tokens` key, and not a longer one that
/// begins with it.
pub open spec fn is_key(line: Seq<char>) -> bool {
    starts(line, "context_tokens"@) && (line.len() == 14 || white(line[14]) || line[14] == '=')
}

/// One line of the configuration. A section of another kind or of another model
/// ends the model's section; what the model's section gave still stands.
pub open spec fn scan_line(scan: Scan, line: Seq<char>, model: Seq<char>) -> Scan {
    let line = trim(line, Class::White);
    if starts(line, "[model."@) {
        if section_model(line) == model {
            Scan { in_section: true, window: None }
        } else {
            Scan { in_section: false, window: scan.window }
        }
    } else if starts(line, "["@) {
        Scan { in_section: false, window: scan.window }
    } else if scan.in_section && is_key(line) {
        Scan { in_section: true, window: key_value(line) }
    } else {
        scan
    }
}

/// Lines of the configuration, one after the other.
pub open spec fn scan_lines(scan: Scan, lines: Seq<Seq<char>>, model: Seq<char>) -> Scan
    decreases lines.len(),
{
    if lines.len() == 0 {
        scan
    } else {
        scan_lines(scan_line(scan, lines[0], model), lines.drop_first(), model)
    }
}

/// The scan before the first line.
pub open spec fn scan_start() -> Scan {
    Scan { in_section: false, window: None }
}

/// The context window that a configuration gives a model.
pub open spec fn window_of(raw: Seq<char>, model: Seq<char>) -> Option<u64> {
    scan_lines(scan_start(), lines(raw), model).window
}

fn is_key_at(chars: &Vec<char>, lo: usize, hi: usize) -> (answer: bool)
    requires
        lo <= hi <= chars.len(),
    ensures
        answer == is_key(part(chars@, lo as int, hi as int)),
{
    proof {
        reveal_strlit("context_tokens");
    }
    starts_at(chars, lo, hi, "context_tokens") && (hi - lo == 14 || is_white(chars[lo + 14])
        || chars[lo + 14] == '=')
}

fn key_value_at(chars: &Vec<char>, lo: usize, hi: usize) -> (number: Option<u64>)
    requires
        lo <= hi <= chars.len(),
        starts(part(chars@, lo as int, hi as int), "context_tokens"@),
    ensures
        number == key_value(part(chars@, lo as int, hi as int)),
{
    proof {
        reveal_strlit("context_tokens");
        assert(part(chars@, lo as int, hi as int).skip(14) =~= part(chars@, lo + 14, hi as int));
    }
    let rest: usize = trim_front_at(chars, lo + 14, hi, Class::White);
    let unset: usize = trim_front_at(chars, rest, hi, Class::Only('='));
    let (start, end): (usize, usize) = trim_at(chars, unset, hi, Class::White);
    let (start, end): (usize, usize) = trim_at(chars, start, end, Class::Only('"'));
    let (start, end): (usize, usize) = trim_at(chars, start, end, Class::White);
    natural_at(chars, start, end)
}

fn names_model(chars: &Vec<char>, lo: usize, hi: usize, model: &str) -> (answer: bool)
    requires
        lo <= hi <= chars.len(),
        starts(part(chars@, lo as int, hi as int), "[model."@),
    ensures
        answer == (section_model(part(chars@, lo as int, hi as int)) == model@),
{
    let ghost rest = part(chars@, lo + 7, hi as int);
    proof {
        reveal_strlit("[model.");
        assert(part(chars@, lo as int, hi as int).skip(7) =~= rest);
    }
    let close: usize = find_at(chars, lo + 7, hi, ']');
    proof {
        assert(rest.take(close - (lo + 7)) =~= part(chars@, lo + 7, close as int));
    }
    let (start, end): (usize, usize) = trim_at(chars, lo + 7, close, Class::Only('"'));
    equals_at(chars, start, end, model)
}

fn scan_line_at(scan: Scan, chars: &Vec<char>, lo: usize, hi: usize, model: &str) -> (next: Scan)
    requires
        lo <= hi <= chars.len(),
    ensures
        next == scan_line(scan, part(chars@, lo as int, hi as int), model@),
{
    let (start, end): (usize, usize) = trim_at(chars, lo, hi, Class::White);
    if starts_at(chars, start, end, "[model.") {
        if names_model(chars, start, end, model) {
            Scan { in_section: true, window: None }
        } else {
            Scan { in_section: false, window: scan.window }
        }
    } else if starts_at(chars, start, end, "[") {
        Scan { in_section: false, window: scan.window }
    } else if scan.in_section && is_key_at(chars, start, end) {
        Scan { in_section: true, window: key_value_at(chars, start, end) }
    } else {
        scan
    }
}

/// The context window of a model from the text of the configuration: the plain
/// `context_tokens` key of a `[model."<name>"]` section. `None` when the model or
/// the value is unknown.
pub fn ctx_window_of(raw: &str, model: &str) -> (window: Option<u64>)
    ensures
        window == window_of(raw@, model@),
{
    let chars = chars_of(raw);
    let mut scan = Scan { in_section: false, window: None };
    let mut lo: usize = 0;
    proof {
        assert(raw@.skip(0) =~= raw@);
    }
    loop
        invariant
            lo <= chars.len(),
            chars@ == raw@,
            scan_lines(scan_start(), lines(raw@), model@) == scan_lines(
                scan,
                lines(raw@.skip(lo as int)),
                model@,
            ),
        decreases chars.len() - lo,
    {
        let ghost rest = raw@.skip(lo as int);
        let hi: usize = find_at(&chars, lo, chars.len(), '\n');
        proof {
            assert(part(chars@, lo as int, chars@.len() as int) =~= rest);
            assert(rest.take(hi - lo) =~= part(chars@, lo as int, hi as int));
        }
        scan = scan_line_at(scan, &chars, lo, hi, model);
        if hi == chars.len() {
            proof {
                reveal_with_fuel(scan_lines, 2);
                assert(rest.take(hi - lo) =~= rest);
            }
            return scan.window;
        }
        proof {
            assert(rest.skip(hi - lo + 1) =~= raw@.skip(hi + 1));
            assert(lines(rest).drop_first() =~= lines(raw@.skip(hi + 1)));
        }
        lo = hi + 1;
    }
}

/// Whether a line is the header of a section of the model.
pub open spec fn opens_model(line: Seq<char>, model: Seq<char>) -> bool {
    let line = trim(line, Class::White);
    starts(line, "[model."@) && section_model(line) == model
}

/// Whether a line is the header of some section.
pub open spec fn is_header(line: Seq<char>) -> bool {
    starts(trim(line, Class::White), "["@)
}

/// Whether a line has the `context_tokens` key.
pub open spec fn has_key(line: Seq<char>) -> bool {
    is_key(trim(line, Class::White))
}

proof fn lemma_lines_of_both(
    scan: Scan,
    first: Seq<Seq<char>>,
    second: Seq<Seq<char>>,
    model: Seq<char>,
)
    ensures
        scan_lines(scan, first + second, model) == scan_lines(
            scan_lines(scan, first, model),
            second,
            model,
        ),
    decreases first.len(),
{
    if first.len() == 0 {
        assert(first + second =~= second);
    } else {
        assert((first + second).drop_first() =~= first.drop_first() + second);
        lemma_lines_of_both(scan_line(scan, first[0], model), first.drop_first(), second, model);
    }
}

proof fn lemma_model_header_is_header(line: Seq<char>)
    ensures
        starts(line, "[model."@) ==> starts(line, "["@),
        starts(line, "["@) ==> !starts(line, "context_tokens"@),
{
    reveal_strlit("[model.");
    reveal_strlit("[");
    reveal_strlit("context_tokens");
    if starts(line, "[model."@) {
        assert(line[0] == line.take(7)[0]);
        assert(line.take(1) =~= "["@);
    }
    if starts(line, "["@) && starts(line, "context_tokens"@) {
        assert(line.take(1)[0] == line[0]);
        assert(line.take(14)[0] == line[0]);
    }
}

proof fn lemma_lines_outside(scan: Scan, lines: Seq<Seq<char>>, model: Seq<char>)
    requires
        !scan.in_section,
        forall|i: int| 0 <= i < lines.len() ==> !opens_model(#[trigger] lines[i], model),
    ensures
        scan_lines(scan, lines, model) == scan,
    decreases lines.len(),
{
    if lines.len() > 0 {
        assert(!opens_model(lines[0], model));
        lemma_lines_outside(scan_line(scan, lines[0], model), lines.drop_first(), model);
    }
}

proof fn lemma_lines_inside(scan: Scan, lines: Seq<Seq<char>>, model: Seq<char>)
    requires
        scan.in_section,
        forall|i: int| 0 <= i < lines.len() ==> !is_header(#[trigger] lines[i]),
    ensures
        scan_lines(scan, lines, model).in_section,
    decreases lines.len(),
{
    if lines.len() > 0 {
        assert(!is_header(lines[0]));
        lemma_model_header_is_header(trim(lines[0], Class::White));
        lemma_lines_inside(scan_line(scan, lines[0], model), lines.drop_first(), model);
    }
}

proof fn lemma_lines_after(scan: Scan, lines: Seq<Seq<char>>, model: Seq<char>)
    requires
        scan.in_section,
        forall|i: int| 0 <= i < lines.len() ==> !opens_model(#[trigger] lines[i], model),
        forall|i: int|
            0 <= i < lines.len() && has_key(#[trigger] lines[i]) ==> exists|j: int|
                0 <= j < i && is_header(#[trigger] lines[j]),
    ensures
        scan_lines(scan, lines, model).window == scan.window,
    decreases lines.len(),
{
    if lines.len() > 0 {
        let next = scan_line(scan, lines[0], model);
        let rest = lines.drop_first();
        assert(!opens_model(lines[0], model));
        assert(!has_key(lines[0]));
        lemma_model_header_is_header(trim(lines[0], Class::White));
        if is_header(lines[0]) {
            lemma_lines_outside(next, rest, model);
        } else {
            assert forall|i: int| 0 <= i < rest.len() && has_key(#[trigger] rest[i]) implies exists|
                j: int,
            |
                0 <= j < i && is_header(#[trigger] rest[j]) by {
                assert(has_key(lines[i + 1]));
                let j = choose|j: int| 0 <= j < i + 1 && is_header(#[trigger] lines[j]);
                assert(is_header(rest[j - 1]));
            }
            lemma_lines_after(next, rest, model);
        }
    }
}

/// The window of a model is the value of the last `context_tokens` key of the last
/// section of the model, whatever sections of other models and other tables stand
/// around it.
pub proof fn law_section_gives_the_window(
    raw: Seq<char>,
    model: Seq<char>,
    before: Seq<Seq<char>>,
    header: Seq<char>,
    between: Seq<Seq<char>>,
    key: Seq<char>,
    after: Seq<Seq<char>>,
)
    requires
        lines(raw) == before + seq![header] + between + seq![key] + after,
        opens_model(header, model),
        forall|i: int| 0 <= i < between.len() ==> !is_header(#[trigger] between[i]),
        has_key(key),
        forall|i: int| 0 <= i < after.len() ==> !opens_model(#[trigger] after[i], model),
        forall|i: int|
            0 <= i < after.len() && has_key(#[trigger] after[i]) ==> exists|j: int|
                0 <= j < i && is_header(#[trigger] after[j]),
    ensures
        window_of(raw, model) == key_value(trim(key, Class::White)),
{
    let start = scan_start();
    let opened = scan_lines(start, before + seq![header], model);
    let read = scan_lines(start, before + seq![header] + between + seq![key], model);
    reveal_with_fuel(scan_lines, 2);
    lemma_lines_of_both(start, before, seq![header], model);
    lemma_lines_of_both(start, before + seq![header], between, model);
    lemma_lines_inside(opened, between, model);
    lemma_lines_of_both(start, before + seq![header] + between, seq![key], model);
    lemma_model_header_is_header(trim(key, Class::White));
    lemma_lines_of_both(start, before + seq![header] + between + seq![key], after, model);
    lemma_lines_after(read, after, model);
}

/// A model without a section has no window.
pub proof fn law_no_section_no_window(raw: Seq<char>, model: Seq<char>)
    requires
        forall|i: int| 0 <= i < lines(raw).len() ==> !opens_model(#[trigger] lines(raw)[i], model),
    ensures
        window_of(raw, model) is None,
{
    lemma_lines_outside(scan_start(), lines(raw), model);
}

/// Whether a text is made of the characters of a kind.
pub open spec fn only(s: Seq<char>, class: Class) -> bool {
    forall|i: int| 0 <= i < s.len() ==> class.has(#[trigger] s[i])
}

proof fn lemma_only_of_both(one: Seq<char>, other: Seq<char>, class: Class)
    requires
        only(one, class),
        only(other, class),
    ensures
        only(one + other, class),
{
    let both = one + other;
    assert forall|i: int| 0 <= i < both.len() implies class.has(#[trigger] both[i]) by {
        if i < one.len() {
            assert(both[i] == one[i]);
        } else {
            assert(both[i] == other[i - one.len()]);
        }
    }
}

/// A line that starts, behind white space, with a text that starts and ends with
/// other characters, is trimmed to that text and what is left behind it.
proof fn lemma_trimmed_line(front: Seq<char>, start: Seq<char>, rest: Seq<char>)
    requires
        only(front, Class::White),
        start.len() > 0,
        !white(start[0]),
        !white(start.last()),
    ensures
        trim(front + start + rest, Class::White) == start + trim_back(rest, Class::White),
{
    assert(front + start + rest =~= front + (start + rest));
    assert((start + rest)[0] == start[0]);
    law_trim_front_leaves_the_rest(front, start + rest, Class::White);
    lemma_trim_back_behind(start, rest, Class::White);
}

proof fn lemma_section_model_is(
    before: Seq<char>,
    model: Seq<char>,
    behind: Seq<char>,
    close: Seq<char>,
)
    requires
        only(before, Class::Only('"')),
        only(behind, Class::Only('"')),
        !model.contains(']'),
        model.len() == 0 || (model[0] != '"' && model.last() != '"'),
        close.len() == 0 || close[0] == ']',
    ensures
        starts("[model."@ + before + model + behind + close, "[model."@),
        section_model("[model."@ + before + model + behind + close) == model,
{
    reveal_strlit("[model.");
    let header = "[model."@ + before + model + behind + close;
    let name = before + model + behind;
    let rest = header.skip(7);
    assert(rest =~= name + close);
    assert(header.take(7) =~= "[model."@);
    law_first_of_is_the_first(rest, ']');
    let place = first_of(rest, ']');
    assert forall|i: int| 0 <= i < name.len() implies rest[i] != ']' by {
        if i < before.len() {
            assert(rest[i] == before[i]);
            assert(Class::Only('"').has(before[i]));
        } else if i < before.len() + model.len() {
            assert(rest[i] == model[i - before.len()]);
            assert(model.contains(model[i - before.len()]));
        } else {
            assert(rest[i] == behind[i - before.len() - model.len()]);
            assert(Class::Only('"').has(behind[i - before.len() - model.len()]));
        }
    }
    if place < name.len() {
        assert(rest[place] == ']');
    } else if place > name.len() {
        assert(rest[name.len() as int] == close[0]);
    }
    assert(rest.take(place) =~= name);
    law_trim_leaves_the_inner_text(before, model, behind, Class::Only('"'));
}

/// A `[model.<name>]` line opens the section of exactly the model it names, with or
/// without quotes around the name, with or without white space before the line,
/// whatever stands behind the bracket.
pub proof fn law_a_header_opens_the_model_it_names(
    front: Seq<char>,
    before: Seq<char>,
    model: Seq<char>,
    behind: Seq<char>,
    rest: Seq<char>,
    other: Seq<char>,
)
    requires
        only(front, Class::White),
        only(before, Class::Only('"')),
        only(behind, Class::Only('"')),
        !model.contains(']'),
        model.len() == 0 || (model[0] != '"' && model.last() != '"'),
    ensures
        ({
            let line = front + ("[model."@ + before + model + behind + "]"@) + rest;
            &&& is_header(line)
            &&& opens_model(line, other) <==> other == model
        }),
{
    reveal_strlit("[model.");
    reveal_strlit("]");
    reveal_strlit("[");
    let header = "[model."@ + before + model + behind + "]"@;
    lemma_trimmed_line(front, header, rest);
    let left = trim_back(rest, Class::White);
    let close = "]"@ + left;
    assert(header + left =~= "[model."@ + before + model + behind + close);
    lemma_section_model_is(before, model, behind, close);
    lemma_model_header_is_header(header + left);
}

/// A `[model.<name>` line without its bracket opens the section of the model it
/// names too.
pub proof fn law_an_open_header_opens_the_model_it_names(
    front: Seq<char>,
    before: Seq<char>,
    model: Seq<char>,
    behind: Seq<char>,
    back: Seq<char>,
    other: Seq<char>,
)
    requires
        only(front, Class::White),
        only(before, Class::Only('"')),
        only(behind, Class::Only('"')),
        only(back, Class::White),
        !model.contains(']'),
        model.len() == 0 || (model[0] != '"' && model.last() != '"' && !white(model.last())),
    ensures
        ({
            let line = front + ("[model."@ + before + model + behind) + back;
            &&& is_header(line)
            &&& opens_model(line, other) <==> other == model
        }),
{
    reveal_strlit("[model.");
    reveal_strlit("[");
    let header = "[model."@ + before + model + behind;
    let none = Seq::<char>::empty();
    if behind.len() > 0 {
        assert(header.last() == behind.last());
        assert(Class::Only('"').has(behind[behind.len() - 1]));
    } else if model.len() > 0 {
        assert(header.last() == model.last());
    } else if before.len() > 0 {
        assert(header.last() == before.last());
        assert(Class::Only('"').has(before[before.len() - 1]));
    } else {
        assert(header =~= "[model."@);
    }
    lemma_trimmed_line(front, header, back);
    assert(none + back =~= back);
    law_trim_back_leaves_the_rest(none, back, Class::White);
    assert(header + none =~= header);
    lemma_section_model_is(before, model, behind, none);
    lemma_model_header_is_header(header);
}

/// A line is the header of a section exactly where its first character that is not
/// white space is a bracket, and of a model section only where `[model.` stands
/// there. A line of white space is no header and has no key.
pub proof fn law_a_header_starts_with_a_bracket(
    front: Seq<char>,
    text: Seq<char>,
    model: Seq<char>,
)
    requires
        only(front, Class::White),
        text.len() > 0,
        !white(text[0]),
    ensures
        is_header(front + text) <==> text[0] == '[',
        opens_model(front + text, model) ==> text.len() >= 7 && text.take(7) == "[model."@,
        has_key(front + text) ==> text.len() >= 14 && text.take(14) == "context_tokens"@,
        !is_header(front),
        !opens_model(front, model),
        !has_key(front),
{
    reveal_strlit("[model.");
    reveal_strlit("[");
    reveal_strlit("context_tokens");
    let first = text.take(1);
    let rest = text.skip(1);
    assert(front + text =~= front + first + rest);
    lemma_trimmed_line(front, first, rest);
    lemma_trim_back_behind(first, rest, Class::White);
    let kept = trim_back(rest, Class::White);
    let line = first + kept;
    assert(kept =~= rest.take(kept.len() as int));
    assert forall|i: int| 0 <= i < line.len() implies line[i] == text[i] by {
        if i > 0 {
            assert(line[i] == kept[i - 1]);
            assert(kept[i - 1] == rest[i - 1]);
        }
    }
    if text[0] == '[' {
        assert(line.take(1) =~= "["@);
    } else if starts(line, "["@) {
        assert(line.take(1)[0] == '[');
    }
    if starts(line, "[model."@) {
        assert(text.take(7) =~= line.take(7));
    }
    if starts(line, "context_tokens"@) {
        assert(text.take(14) =~= line.take(14));
    }
    let none = Seq::<char>::empty();
    assert(front + none + none =~= front);
    law_trim_leaves_the_inner_text(front, none, none, Class::White);
}

/// A line that starts with `context_tokens`, behind white space or not, has the key
/// exactly where the name ends there: at the end of the line, at white space or at
/// an equals sign. A longer name is another key.
pub proof fn law_the_key_is_the_whole_name(front: Seq<char>, rest: Seq<char>)
    requires
        only(front, Class::White),
    ensures
        has_key(front + "context_tokens"@ + rest) <==> rest.len() == 0 || white(rest[0]) || rest[0]
            == '=',
{
    reveal_strlit("context_tokens");
    let name = "context_tokens"@;
    lemma_trimmed_line(front, name, rest);
    lemma_trim_back_behind(name, rest, Class::White);
    let kept = trim_back(rest, Class::White);
    let line = name + kept;
    assert(kept == rest.take(kept.len() as int));
    assert(line.take(14) =~= name);
    if kept.len() > 0 {
        assert(line[14] == kept[0]);
        assert(kept[0] == rest[0]);
    }
}

proof fn lemma_value_behind_equals(
    w1: Seq<char>,
    equals: Seq<char>,
    gap: Seq<char>,
    inner: Seq<char>,
)
    requires
        only(w1, Class::White),
        only(equals, Class::Only('=')),
        only(gap, Class::White),
        inner.len() > 0,
        !white(inner[0]) && !white(inner.last()),
        inner[0] != '=' || (equals.len() > 0 && gap.len() > 0),
    ensures
        trim(
            trim_front(
                trim_front(w1 + equals + gap + inner, Class::White),
                Class::Only('='),
            ),
            Class::White,
        ) == inner,
{
    let none = Seq::<char>::empty();
    let left = w1 + equals + gap + inner;
    if equals.len() > 0 {
        assert(left =~= w1 + (equals + (gap + inner)));
        assert(Class::Only('=').has(equals[0]));
        assert((equals + (gap + inner))[0] == equals[0]);
        law_trim_front_leaves_the_rest(w1, equals + (gap + inner), Class::White);
        if gap.len() > 0 {
            assert((gap + inner)[0] == gap[0]);
            assert(Class::White.has(gap[0]));
        } else {
            assert((gap + inner)[0] == inner[0]);
        }
        law_trim_front_leaves_the_rest(equals, gap + inner, Class::Only('='));
        assert(gap + inner + none =~= gap + inner);
        law_trim_leaves_the_inner_text(gap, inner, none, Class::White);
    } else {
        lemma_only_of_both(w1, gap, Class::White);
        assert(left =~= w1 + gap + inner);
        law_trim_front_leaves_the_rest(w1 + gap, inner, Class::White);
        assert(none + inner =~= inner);
        law_trim_front_leaves_the_rest(none, inner, Class::Only('='));
        assert(none + inner + none =~= inner);
        law_trim_leaves_the_inner_text(none, inner, none, Class::White);
    }
}

proof fn lemma_value_within_quotes(
    q1: Seq<char>,
    wa: Seq<char>,
    written: Seq<char>,
    wb: Seq<char>,
    q2: Seq<char>,
)
    requires
        only(q1, Class::Only('"')),
        only(wa, Class::White),
        only(wb, Class::White),
        only(q2, Class::Only('"')),
        written.len() > 0,
        !white(written[0]) && !white(written.last()),
        written[0] != '"' || wa.len() > 0,
        written.last() != '"' || wb.len() > 0,
    ensures
        trim(trim(q1 + (wa + written + wb) + q2, Class::Only('"')), Class::White) == written,
{
    let value = wa + written + wb;
    if wa.len() > 0 {
        assert(value[0] == wa[0]);
        assert(Class::White.has(wa[0]));
    } else {
        assert(value[0] == written[0]);
    }
    if wb.len() > 0 {
        assert(value.last() == wb.last());
        assert(Class::White.has(wb[wb.len() - 1]));
    } else {
        assert(value.last() == written.last());
    }
    law_trim_leaves_the_inner_text(q1, value, q2, Class::Only('"'));
    law_trim_leaves_the_inner_text(wa, written, wb, Class::White);
}

/// The value of a `context_tokens` line is the number behind the equals signs, with
/// or without quotes around it, and with or without white space around any of them.
#[verifier::rlimit(40)]
pub proof fn law_the_key_gives_its_number(
    front: Seq<char>,
    w1: Seq<char>,
    equals: Seq<char>,
    w2: Seq<char>,
    q1: Seq<char>,
    w3: Seq<char>,
    written: Seq<char>,
    w4: Seq<char>,
    q2: Seq<char>,
    w5: Seq<char>,
)
    requires
        only(front, Class::White),
        only(w1, Class::White),
        only(equals, Class::Only('=')),
        only(w2, Class::White),
        only(q1, Class::Only('"')),
        only(w3, Class::White),
        only(w4, Class::White),
        only(q2, Class::Only('"')),
        only(w5, Class::White),
        written.len() > 0,
        !white(written[0]) && !white(written.last()),
        written[0] != '=' || (equals.len() > 0 && w2.len() + q1.len() + w3.len() > 0),
        written[0] != '"' || (q1.len() > 0 && w3.len() > 0),
        written.last() != '"' || (q2.len() > 0 && w4.len() > 0),
    ensures
        key_value(
            trim(
                front + "context_tokens"@ + (w1 + equals + w2 + q1 + w3 + written + w4 + q2 + w5),
                Class::White,
            ),
        ) == natural(written),
{
    reveal_strlit("context_tokens");
    let name = "context_tokens"@;
    let none = Seq::<char>::empty();
    let all = w1 + equals + w2 + q1 + w3 + written + w4 + q2 + w5;
    lemma_trimmed_line(front, name, all);
    // The white space at the end goes first.
    let end = if q2.len() > 0 {
        w4 + q2
    } else {
        none
    };
    let gone = if q2.len() > 0 {
        w5
    } else {
        w4 + w5
    };
    let tail = written + end;
    let body = q1 + w3 + tail;
    lemma_only_of_both(w4, w5, Class::White);
    let left = w1 + equals + w2 + body;
    assert(all =~= left + gone);
    if q2.len() > 0 {
        assert(left.last() == q2.last());
        assert(Class::Only('"').has(q2[q2.len() - 1]));
        assert(tail.last() == q2.last());
    } else {
        assert(left.last() == written.last());
        assert(tail.last() == written.last());
    }
    law_trim_back_leaves_the_rest(left, gone, Class::White);
    assert((name + left).skip(14) =~= left);
    // Then what stands before the value, up to its quotes.
    let inner = if q1.len() > 0 {
        body
    } else {
        tail
    };
    let space = if q1.len() > 0 {
        none
    } else {
        w3
    };
    assert(body =~= space + inner);
    assert(tail[0] == written[0]);
    if q1.len() > 0 {
        assert(inner[0] == q1[0]);
        assert(Class::Only('"').has(q1[0]));
    }
    assert(inner.last() == tail.last());
    lemma_only_of_both(w2, space, Class::White);
    assert(left =~= w1 + equals + (w2 + space) + inner);
    lemma_value_behind_equals(w1, equals, w2 + space, inner);
    // Then the quotes and the white space within them.
    let wa = if q1.len() > 0 {
        w3
    } else {
        none
    };
    let wb = if q2.len() > 0 {
        w4
    } else {
        none
    };
    assert(inner =~= q1 + (wa + written + wb) + q2);
    lemma_value_within_quotes(q1, wa, written, wb, q2);
}

/// A `context_tokens` line without a digit behind the name gives no number.
pub proof fn law_the_key_without_a_digit_gives_nothing(front: Seq<char>, rest: Seq<char>)
    requires
        only(front, Class::White),
        forall|i: int|
            0 <= i < rest.len() ==> !('0' as u32 <= (#[trigger] rest[i]) as u32 <= '9' as u32),
    ensures
        key_value(trim(front + "context_tokens"@ + rest, Class::White)) is None,
{
    reveal_strlit("context_tokens");
    let name = "context_tokens"@;
    lemma_trimmed_line(front, name, rest);
    let kept = trim_back(rest, Class::White);
    assert((name + kept).skip(14) =~= kept);
    let a = trim_front(kept, Class::White);
    let b = trim_front(a, Class::Only('='));
    let c = trim(b, Class::White);
    let d = trim(c, Class::Only('"'));
    let e = trim(d, Class::White);
    lemma_trim_holds_no_more(rest, Class::White);
    lemma_trim_holds_no_more(kept, Class::White);
    lemma_trim_holds_no_more(a, Class::Only('='));
    lemma_trim_holds_no_more(b, Class::White);
    lemma_trim_holds_no_more(trim_front(b, Class::White), Class::White);
    lemma_trim_holds_no_more(c, Class::Only('"'));
    lemma_trim_holds_no_more(trim_front(c, Class::Only('"')), Class::Only('"'));
    lemma_trim_holds_no_more(d, Class::White);
    lemma_trim_holds_no_more(trim_front(d, Class::White), Class::White);
    assert forall|i: int| 0 <= i < e.len() implies !('0' as u32 <= (#[trigger] e[i]) as u32
        <= '9' as u32) by {
        assert(e.contains(e[i]));
        assert(rest.contains(e[i]));
        let j = choose|j: int| 0 <= j < rest.len() && rest[j] == e[i];
        assert(rest[j] == e[i]);
    }
    law_a_number_has_a_digit(e);
}

/// A section of the model without a `context_tokens` key gives no window, whatever
/// an earlier section of the model gave.
pub proof fn law_section_without_key_gives_no_window(
    raw: Seq<char>,
    model: Seq<char>,
    before: Seq<Seq<char>>,
    header: Seq<char>,
    after: Seq<Seq<char>>,
)
    requires
        lines(raw) == before + seq![header] + after,
        opens_model(header, model),
        forall|i: int| 0 <= i < after.len() ==> !opens_model(#[trigger] after[i], model),
        forall|i: int|
            0 <= i < after.len() && has_key(#[trigger] after[i]) ==> exists|j: int|
                0 <= j < i && is_header(#[trigger] after[j]),
    ensures
        window_of(raw, model) is None,
{
    let start = scan_start();
    let opened = scan_lines(start, before + seq![header], model);
    reveal_with_fuel(scan_lines, 2);
    lemma_lines_of_both(start, before, seq![header], model);
    lemma_lines_of_both(start, before + seq![header], after, model);
    lemma_lines_after(opened, after, model);
}

/// A section that is written down is read: the window of a model is the number under
/// its name, whatever stands before that section, and the section says nothing of
/// any other model.
#[verifier::rlimit(40)]
pub proof fn law_a_written_window_is_read(
    before: Seq<char>,
    model: Seq<char>,
    window: u64,
    other: Seq<char>,
)
    requires
        !model.contains(']'),
        !model.contains('"'),
        !model.contains('\n'),
        other != model,
    ensures
        ({
            let raw = before + seq!['\n'] + ("[model.\""@ + model + "\"]"@) + seq!['\n'] + (
            "context_tokens = "@ + decimal(window as nat));
            &&& window_of(raw, model) == Some(window)
            &&& window_of(raw, other) == window_of(before, other)
        }),
{
    reveal_strlit("[model.\"");
    reveal_strlit("\"]");
    reveal_strlit("context_tokens = ");
    reveal_strlit("[model.");
    reveal_strlit("]");
    reveal_strlit("context_tokens");
    let header = "[model.\""@ + model + "\"]"@;
    let number = decimal(window as nat);
    let key = "context_tokens = "@ + number;
    let raw = before + seq!['\n'] + header + seq!['\n'] + key;
    let none = Seq::<char>::empty();
    let no_lines = Seq::<Seq<char>>::empty();
    law_decimal_reads_back(window);
    // The lines.
    assert(!header.contains('\n')) by {
        assert forall|i: int| 0 <= i < header.len() implies header[i] != '\n' by {
            if 8 <= i < 8 + model.len() {
                assert(header[i] == model[i - 8]);
                assert(model.contains(model[i - 8]));
            }
        }
    }
    assert(!key.contains('\n')) by {
        assert forall|i: int| 0 <= i < key.len() implies key[i] != '\n' by {
            if i >= 17 {
                assert(key[i] == number[i - 17]);
            }
        }
    }
    assert(raw =~= before + seq!['\n'] + (header + seq!['\n'] + key));
    law_lines_of_two_texts(before, header + seq!['\n'] + key);
    law_lines_end_at_line_feeds(header, key);
    law_lines_end_at_line_feeds(key, none);
    assert(lines(raw) =~= lines(before) + seq![header] + no_lines + seq![key] + no_lines);
    // The header.
    let quote = seq!['"'];
    assert(header =~= none + ("[model."@ + quote + model + quote + "]"@) + none);
    if model.len() > 0 {
        assert(model.contains(model[0]));
        assert(model.contains(model.last()));
    }
    law_a_header_opens_the_model_it_names(none, quote, model, quote, none, model);
    law_a_header_opens_the_model_it_names(none, quote, model, quote, none, other);
    // The key.
    let space = seq![' '];
    let equals = seq!['='];
    let rest = space + equals + space + none + none + number + none + none + none;
    assert(key =~= none + "context_tokens"@ + rest);
    law_the_key_is_the_whole_name(none, rest);
    assert('0' as u32 <= number[0] as u32 <= '9' as u32);
    assert('0' as u32 <= number[number.len() - 1] as u32 <= '9' as u32);
    law_the_key_gives_its_number(none, space, equals, space, none, none, number, none, none, none);
    law_section_gives_the_window(raw, model, lines(before), header, no_lines, key, no_lines);
    // Another model.
    let start = scan_start();
    let earlier = scan_lines(start, lines(before), other);
    let added = seq![header] + no_lines + seq![key] + no_lines;
    assert(lines(raw) =~= lines(before) + added);
    lemma_lines_of_both(start, lines(before), added, other);
    lemma_model_header_is_header(trim(header, Class::White));
    let closed = scan_line(earlier, header, other);
    assert(added.drop_first() =~= seq![key]);
    assert(added[0] == header);
    assert(!opens_model(key, other)) by {
        lemma_model_header_is_header(trim(key, Class::White));
    }
    lemma_lines_outside(closed, seq![key], other);
}

/// A missing parent is shown as the current directory; any other, an empty one too,
/// is shown as it is.
pub proof fn law_a_parent_is_shown_as_it_is(dir: Seq<char>)
    ensures
        shown_dir(Some(dir)) == dir,
        shown_dir(None) == seq!['.'],
{
    reveal_strlit(".");
    assert("."@ =~= seq!['.']);
}

} // verus!
