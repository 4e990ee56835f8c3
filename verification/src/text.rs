//! Text at the level of characters.
use vstd::prelude::*;

verus! {

/// What an optional text holds.
pub open spec fn opt_view(text: Option<String>) -> Option<Seq<char>> {
    match text {
        Some(text) => Some(text@),
        None => None,
    }
}

/// The character of a decimal digit.
pub open spec fn digit(d: nat) -> char
    recommends
        d < 10,
{
    (48 + d) as char
}

/// A number written in decimal, without leading zeros.
pub open spec fn decimal(n: nat) -> Seq<char>
    decreases n,
{
    if n < 10 {
        seq![digit(n)]
    } else {
        decimal(n / 10).push(digit(n % 10))
    }
}

/// Ten to the power of `k`.
pub open spec fn ten_to(k: nat) -> nat
    decreases k,
{
    if k == 0 {
        1
    } else {
        10 * ten_to((k - 1) as nat)
    }
}

/// A number under ten to the power of `k` has at most `k` digits.
pub proof fn lemma_decimal_len(n: nat, k: nat)
    requires
        k >= 1,
        n < ten_to(k),
    ensures
        decimal(n).len() <= k,
    decreases k,
{
    if n >= 10 {
        if k == 1 {
            assert(ten_to(0) == 1);
        } else {
            lemma_decimal_len(n / 10, (k - 1) as nat);
        }
    }
}

/// The text of one decimal digit.
pub fn digit_text(d: u64) -> (text: &'static str)
    requires
        d < 10,
    ensures
        text@ == seq![digit(d as nat)],
{
    proof {
        reveal_strlit("0");
        reveal_strlit("1");
        reveal_strlit("2");
        reveal_strlit("3");
        reveal_strlit("4");
        reveal_strlit("5");
        reveal_strlit("6");
        reveal_strlit("7");
        reveal_strlit("8");
        reveal_strlit("9");
    }
    match d {
        0 => "0",
        1 => "1",
        2 => "2",
        3 => "3",
        4 => "4",
        5 => "5",
        6 => "6",
        7 => "7",
        8 => "8",
        _ => "9",
    }
}

/// A number written in decimal.
pub fn decimal_text(n: u64) -> (text: String)
    ensures
        text@ == decimal(n as nat),
    decreases n,
{
    if n < 10 {
        digit_text(n).to_owned()
    } else {
        let mut text = decimal_text(n / 10);
        text.append(digit_text(n % 10));
        text
    }
}

/// Whether a character has the Unicode property `White_Space`.
pub open spec fn white(c: char) -> bool {
    ||| 0x9 <= c as u32 <= 0xD
    ||| c as u32 == 0x20
    ||| c as u32 == 0x85
    ||| c as u32 == 0xA0
    ||| c as u32 == 0x1680
    ||| 0x2000 <= c as u32 <= 0x200A
    ||| c as u32 == 0x2028
    ||| c as u32 == 0x2029
    ||| c as u32 == 0x202F
    ||| c as u32 == 0x205F
    ||| c as u32 == 0x3000
}

/// Whether a character is white space.
pub fn is_white(c: char) -> (answer: bool)
    ensures
        answer == white(c),
{
    let code: u32 = c as u32;
    (0x9 <= code && code <= 0xD) || code == 0x20 || code == 0x85 || code == 0xA0 || code == 0x1680
        || (0x2000 <= code && code <= 0x200A) || code == 0x2028 || code == 0x2029 || code == 0x202F
        || code == 0x205F || code == 0x3000
}

/// A kind of character that can be trimmed.
#[derive(Clone, Copy)]
pub enum Class {
    White,
    Only(char),
}

impl Class {
    /// Whether the character is of this kind.
    pub open spec fn has(self, c: char) -> bool {
        match self {
            Class::White => white(c),
            Class::Only(only) => c == only,
        }
    }

    /// Whether the character is of this kind.
    pub fn includes(self, c: char) -> (answer: bool)
        ensures
            answer == self.has(c),
    {
        match self {
            Class::White => is_white(c),
            Class::Only(only) => c == only,
        }
    }
}

/// The text without the characters of a kind at its start.
pub open spec fn trim_front(s: Seq<char>, class: Class) -> Seq<char>
    decreases s.len(),
{
    if s.len() > 0 && class.has(s[0]) {
        trim_front(s.drop_first(), class)
    } else {
        s
    }
}

/// The text without the characters of a kind at its end.
pub open spec fn trim_back(s: Seq<char>, class: Class) -> Seq<char>
    decreases s.len(),
{
    if s.len() > 0 && class.has(s.last()) {
        trim_back(s.drop_last(), class)
    } else {
        s
    }
}

/// The text without the characters of a kind at either end.
pub open spec fn trim(s: Seq<char>, class: Class) -> Seq<char> {
    trim_back(trim_front(s, class), class)
}

/// The place of the first `c` in a text; the length of the text where there is
/// none.
pub open spec fn first_of(s: Seq<char>, c: char) -> int
    decreases s.len(),
{
    if s.len() == 0 || s[0] == c {
        0
    } else {
        1 + first_of(s.drop_first(), c)
    }
}

/// The lines of a text: what lies between its line feeds.
pub open spec fn lines(s: Seq<char>) -> Seq<Seq<char>>
    decreases s.len(),
{
    let end = first_of(s, '\n');
    if end >= s.len() {
        seq![s]
    } else {
        proof {
            lemma_first_of_bounds(s, '\n');
        }
        seq![s.take(end)] + lines(s.skip(end + 1))
    }
}

/// Whether a text starts with `prefix`.
pub open spec fn starts(s: Seq<char>, prefix: Seq<char>) -> bool {
    prefix.len() <= s.len() && s.take(prefix.len() as int) == prefix
}

/// The number that decimal digits write.
pub open spec fn digits_value(digits: Seq<char>) -> nat
    decreases digits.len(),
{
    if digits.len() == 0 {
        0
    } else {
        10 * digits_value(digits.drop_last()) + (digits.last() as u32 - 48) as nat
    }
}

/// Whether a character is a decimal digit.
pub open spec fn is_digit(c: char) -> bool {
    48 <= c as u32 <= 57
}

/// A text without the plus sign that it may start with.
pub open spec fn unsigned(s: Seq<char>) -> Seq<char> {
    if s.len() > 0 && s[0] == '+' {
        s.drop_first()
    } else {
        s
    }
}

/// Whether a text is made of decimal digits that write a number up to `u64::MAX`.
pub open spec fn in_range(digits: Seq<char>) -> bool {
    &&& digits.len() > 0
    &&& forall|i: int| 0 <= i < digits.len() ==> is_digit(#[trigger] digits[i])
    &&& digits_value(digits) <= u64::MAX
}

/// The number that a text writes: decimal digits, which a plus sign may precede,
/// of a number up to `u64::MAX`.
pub open spec fn natural(s: Seq<char>) -> Option<u64> {
    if in_range(unsigned(s)) {
        Some(digits_value(unsigned(s)) as u64)
    } else {
        None
    }
}

/// The characters of a text.
pub fn chars_of(text: &str) -> (chars: Vec<char>)
    ensures
        chars@ == text@,
{
    let mut chars: Vec<char> = Vec::new();
    for c in iter: text.chars()
        invariant
            chars@ == text@.take(iter.index() as int),
            iter.seq() == text@,
    {
        chars.push(c);
        proof {
            assert(chars@ =~= text@.take(iter.index() + 1));
        }
    }
    proof {
        assert(text@.take(text@.len() as int) =~= text@);
    }
    chars
}

/// A stretch of a list of characters.
pub open spec fn part(chars: Seq<char>, lo: int, hi: int) -> Seq<char> {
    chars.subrange(lo, hi)
}

/// The start of a stretch without the characters of a kind at its start.
pub fn trim_front_at(chars: &Vec<char>, lo: usize, hi: usize, class: Class) -> (start: usize)
    requires
        lo <= hi <= chars.len(),
    ensures
        lo <= start <= hi,
        part(chars@, start as int, hi as int) == trim_front(
            part(chars@, lo as int, hi as int),
            class,
        ),
{
    let mut start: usize = lo;
    while start < hi && class.includes(chars[start])
        invariant
            lo <= start <= hi <= chars.len(),
            trim_front(part(chars@, start as int, hi as int), class) == trim_front(
                part(chars@, lo as int, hi as int),
                class,
            ),
        decreases hi - start,
    {
        proof {
            assert(part(chars@, start as int, hi as int).drop_first() =~= part(
                chars@,
                start + 1,
                hi as int,
            ));
        }
        start = start + 1;
    }
    start
}

/// The end of a stretch without the characters of a kind at its end.
pub fn trim_back_at(chars: &Vec<char>, lo: usize, hi: usize, class: Class) -> (end: usize)
    requires
        lo <= hi <= chars.len(),
    ensures
        lo <= end <= hi,
        part(chars@, lo as int, end as int) == trim_back(part(chars@, lo as int, hi as int), class),
{
    let mut end: usize = hi;
    while lo < end && class.includes(chars[end - 1])
        invariant
            lo <= end <= hi <= chars.len(),
            trim_back(part(chars@, lo as int, end as int), class) == trim_back(
                part(chars@, lo as int, hi as int),
                class,
            ),
        decreases end - lo,
    {
        proof {
            assert(part(chars@, lo as int, end as int).drop_last() =~= part(
                chars@,
                lo as int,
                end - 1,
            ));
        }
        end = end - 1;
    }
    end
}

/// The bounds of a stretch without the characters of a kind at either end.
pub fn trim_at(chars: &Vec<char>, lo: usize, hi: usize, class: Class) -> (bounds: (usize, usize))
    requires
        lo <= hi <= chars.len(),
    ensures
        lo <= bounds.0 <= bounds.1 <= hi,
        part(chars@, bounds.0 as int, bounds.1 as int) == trim(
            part(chars@, lo as int, hi as int),
            class,
        ),
{
    let start: usize = trim_front_at(chars, lo, hi, class);
    let end: usize = trim_back_at(chars, start, hi, class);
    (start, end)
}

/// The place found lies in the text.
pub proof fn lemma_first_of_bounds(s: Seq<char>, c: char)
    ensures
        0 <= first_of(s, c) <= s.len(),
    decreases s.len(),
{
    if s.len() > 0 && s[0] != c {
        lemma_first_of_bounds(s.drop_first(), c);
    }
}

/// The place of the first `c` in a stretch; its end where there is none.
pub fn find_at(chars: &Vec<char>, lo: usize, hi: usize, c: char) -> (place: usize)
    requires
        lo <= hi <= chars.len(),
    ensures
        lo <= place <= hi,
        place - lo == first_of(part(chars@, lo as int, hi as int), c),
{
    let mut place: usize = lo;
    while place < hi && chars[place] != c
        invariant
            lo <= place <= hi <= chars.len(),
            first_of(part(chars@, lo as int, hi as int), c) == place - lo + first_of(
                part(chars@, place as int, hi as int),
                c,
            ),
        decreases hi - place,
    {
        proof {
            assert(part(chars@, place as int, hi as int).drop_first() =~= part(
                chars@,
                place + 1,
                hi as int,
            ));
        }
        place = place + 1;
    }
    place
}

/// Whether a stretch starts with `prefix`.
pub fn starts_at(chars: &Vec<char>, lo: usize, hi: usize, prefix: &str) -> (answer: bool)
    requires
        lo <= hi <= chars.len(),
    ensures
        answer == starts(part(chars@, lo as int, hi as int), prefix@),
{
    let wanted = chars_of(prefix);
    let ghost stretch = part(chars@, lo as int, hi as int);
    if wanted.len() > hi - lo {
        return false;
    }
    let mut i: usize = 0;
    while i < wanted.len()
        invariant
            lo <= hi <= chars.len(),
            i <= wanted.len() <= hi - lo,
            wanted@ == prefix@,
            stretch == part(chars@, lo as int, hi as int),
            forall|j: int| 0 <= j < i ==> stretch[j] == wanted@[j],
        decreases wanted.len() - i,
    {
        if chars[lo + i] != wanted[i] {
            proof {
                assert(stretch.take(wanted.len() as int)[i as int] != wanted@[i as int]);
            }
            return false;
        }
        i = i + 1;
    }
    proof {
        assert(stretch.take(wanted.len() as int) =~= wanted@);
    }
    true
}

/// Whether a stretch is exactly `text`.
pub fn equals_at(chars: &Vec<char>, lo: usize, hi: usize, text: &str) -> (answer: bool)
    requires
        lo <= hi <= chars.len(),
    ensures
        answer == (part(chars@, lo as int, hi as int) == text@),
{
    let same = text.unicode_len() == hi - lo && starts_at(chars, lo, hi, text);
    proof {
        let stretch = part(chars@, lo as int, hi as int);
        assert(stretch.take(stretch.len() as int) =~= stretch);
    }
    same
}

/// Whether two texts are the same.
pub fn same_text(a: &str, b: &str) -> (answer: bool)
    ensures
        answer == (a@ == b@),
{
    a.to_owned() == b.to_owned()
}

/// A text without the white space at either end.
pub fn trimmed(text: &str) -> (inner: String)
    ensures
        inner@ == trim(text@, Class::White),
{
    let chars = chars_of(text);
    let (start, end): (usize, usize) = trim_at(&chars, 0, chars.len(), Class::White);
    proof {
        assert(part(chars@, 0, chars@.len() as int) =~= text@);
    }
    text.substring_char(start, end).to_owned()
}

/// How many of some lines hold more than white space.
pub open spec fn nonblank(lines: Seq<Seq<char>>) -> nat
    decreases lines.len(),
{
    if lines.len() == 0 {
        0
    } else {
        nonblank(lines.drop_first()) + if trim(lines[0], Class::White).len() > 0 {
            1nat
        } else {
            0
        }
    }
}

/// How many lines of a text hold more than white space.
pub fn count_nonblank(text: &str) -> (count: usize)
    ensures
        count == nonblank(lines(text@)),
{
    let chars = chars_of(text);
    let mut count: usize = 0;
    let mut lo: usize = 0;
    proof {
        assert(text@.skip(0) =~= text@);
    }
    loop
        invariant
            lo <= chars.len(),
            count <= lo,
            chars@ == text@,
            nonblank(lines(text@)) == count + nonblank(lines(text@.skip(lo as int))),
        decreases chars.len() - lo,
    {
        let ghost rest = text@.skip(lo as int);
        let hi: usize = find_at(&chars, lo, chars.len(), '\n');
        proof {
            assert(part(chars@, lo as int, chars@.len() as int) =~= rest);
            assert(rest.take(hi - lo) =~= part(chars@, lo as int, hi as int));
        }
        let (start, end): (usize, usize) = trim_at(&chars, lo, hi, Class::White);
        if start < end {
            count = count + 1;
        }
        if hi == chars.len() {
            proof {
                reveal_with_fuel(nonblank, 2);
                assert(rest.take(hi - lo) =~= rest);
            }
            return count;
        }
        proof {
            assert(rest.skip(hi - lo + 1) =~= text@.skip(hi + 1));
            assert(lines(rest).drop_first() =~= lines(text@.skip(hi + 1)));
        }
        lo = hi + 1;
    }
}

proof fn lemma_value_of_prefix(digits: Seq<char>, n: int)
    requires
        0 <= n <= digits.len(),
    ensures
        digits_value(digits.take(n)) <= digits_value(digits),
    decreases digits.len() - n,
{
    if n < digits.len() {
        lemma_value_of_prefix(digits, n + 1);
        assert(digits.take(n + 1).drop_last() =~= digits.take(n));
    } else {
        assert(digits.take(n) =~= digits);
    }
}

/// The number that a stretch writes.
pub fn natural_at(chars: &Vec<char>, lo: usize, hi: usize) -> (number: Option<u64>)
    requires
        lo <= hi <= chars.len(),
    ensures
        number == natural(part(chars@, lo as int, hi as int)),
{
    let ghost stretch = part(chars@, lo as int, hi as int);
    let start: usize = if lo < hi && chars[lo] == '+' {
        lo + 1
    } else {
        lo
    };
    let ghost digits = part(chars@, start as int, hi as int);
    proof {
        assert(digits =~= unsigned(stretch));
        assert(digits.take(0) =~= Seq::<char>::empty());
    }
    if start == hi {
        return None;
    }
    let mut number: u64 = 0;
    let mut i: usize = start;
    while i < hi
        invariant
            lo <= start <= i <= hi <= chars.len(),
            start < hi,
            digits == part(chars@, start as int, hi as int),
            digits == unsigned(part(chars@, lo as int, hi as int)),
            forall|j: int| 0 <= j < i - start ==> is_digit(#[trigger] digits[j]),
            number == digits_value(digits.take(i - start)),
        decreases hi - i,
    {
        let ghost next = digits.take(i + 1 - start);
        proof {
            assert(next.drop_last() =~= digits.take(i - start));
            assert(next.last() == chars@[i as int]);
            lemma_value_of_prefix(digits, i + 1 - start);
        }
        let code: u32 = chars[i] as u32;
        if code < 48 || code > 57 {
            proof {
                assert(!is_digit(digits[i - start]));
            }
            return None;
        }
        let digit: u64 = (code - 48) as u64;
        if number > (u64::MAX - digit) / 10 {
            return None;
        }
        number = 10 * number + digit;
        i = i + 1;
    }
    proof {
        assert(digits.take(hi - start) =~= digits);
    }
    Some(number)
}

/// Decimal writing goes digit by digit: the digits are `0` to `9` in order, and one
/// digit more behind a number is ten times the number and that digit.
pub proof fn law_decimal_goes_by_tens(n: nat, d: nat)
    requires
        d < 10,
    ensures
        decimal(d).len() == 1,
        decimal(d)[0] as u32 == '0' as u32 + d,
        n > 0 ==> decimal(10 * n + d) == decimal(n) + decimal(d),
{
    if n > 0 {
        assert((10 * n + d) / 10 == n);
        assert((10 * n + d) % 10 == d);
        assert(decimal(10 * n + d) =~= decimal(n) + decimal(d));
    }
}

proof fn lemma_decimal_is_digits(n: nat)
    ensures
        decimal(n).len() > 0,
        forall|i: int| 0 <= i < decimal(n).len() ==> is_digit(#[trigger] decimal(n)[i]),
        digits_value(decimal(n)) == n,
    decreases n,
{
    if n < 10 {
        assert(decimal(n).drop_last() =~= Seq::empty());
        assert(digits_value(decimal(n).drop_last()) == 0);
    } else {
        lemma_decimal_is_digits(n / 10);
        assert(decimal(n).drop_last() =~= decimal(n / 10));
    }
}

/// A number is read back from its decimal writing, which is made of digits.
pub proof fn law_decimal_reads_back(n: u64)
    ensures
        natural(decimal(n as nat)) == Some(n),
        decimal(n as nat).len() > 0,
        forall|i: int|
            0 <= i < decimal(n as nat).len() ==> '0' as u32 <= (#[trigger] decimal(
                n as nat,
            )[i]) as u32 <= '9' as u32,
{
    lemma_decimal_is_digits(n as nat);
    assert(is_digit(decimal(n as nat)[0]));
    assert forall|i: int| 0 <= i < decimal(n as nat).len() implies '0' as u32 <= (
    #[trigger] decimal(n as nat)[i]) as u32 <= '9' as u32 by {
        assert(is_digit(decimal(n as nat)[i]));
    }
}

/// A number is read digit by digit: each digit more makes it ten times as large and
/// adds the digit, until it no longer fits 64 bits; anything else behind it makes it
/// no number. One plus sign may stand in front.
pub proof fn law_natural_is_read_digit_by_digit(s: Seq<char>, c: char)
    ensures
        natural(Seq::empty()) is None,
        natural(seq!['+']) is None,
        !('0' <= c <= '9') ==> natural(s.push(c)) is None,
        '0' <= c <= '9' && (s.len() == 0 || s == seq!['+']) ==> natural(s.push(c)) == Some(
            (c as u32 - '0' as u32) as u64,
        ),
        '0' <= c <= '9' ==> match natural(s) {
            Some(v) => natural(s.push(c)) == if 10 * v + (c as u32 - '0' as u32) <= u64::MAX {
                Some((10 * v + (c as u32 - '0' as u32)) as u64)
            } else {
                None
            },
            None => s.len() == 0 || s == seq!['+'] || natural(s.push(c)) is None,
        },
{
    let t = s.push(c);
    let plus = seq!['+'];
    assert(unsigned(plus) =~= Seq::empty());
    assert(t.last() == c);
    if s.len() > 0 {
        assert(t[0] == s[0]);
        assert(unsigned(t) =~= unsigned(s).push(c));
    } else {
        assert(s =~= Seq::empty());
        if c == '+' {
            assert(t =~= plus);
        } else {
            assert(unsigned(t) =~= unsigned(s).push(c));
        }
    }
    if !(s.len() == 0 && c == '+') {
        let digits = unsigned(s);
        let more = unsigned(t);
        assert(more.drop_last() =~= digits);
        assert(more.last() == c);
        assert(more[digits.len() as int] == c);
        assert(forall|i: int| 0 <= i < digits.len() ==> more[i] == digits[i]);
        if is_digit(c) {
            if forall|i: int| 0 <= i < digits.len() ==> is_digit(#[trigger] digits[i]) {
                assert(forall|i: int| 0 <= i < more.len() ==> is_digit(#[trigger] more[i]));
            } else {
                let i = choose|i: int| 0 <= i < digits.len() && !is_digit(#[trigger] digits[i]);
                assert(!is_digit(more[i]));
            }
        } else {
            assert(!is_digit(more[digits.len() as int]));
        }
        if digits.len() == 0 {
            assert(digits_value(digits) == 0);
            if s.len() > 0 {
                assert(s =~= plus);
            }
        }
    }
}

/// The place found holds the character, and none stands before it.
pub proof fn law_first_of_is_the_first(s: Seq<char>, c: char)
    ensures
        0 <= first_of(s, c) <= s.len(),
        first_of(s, c) < s.len() ==> s[first_of(s, c)] == c,
        forall|i: int| 0 <= i < first_of(s, c) ==> s[i] != c,
    decreases s.len(),
{
    if s.len() > 0 && s[0] != c {
        let rest = s.drop_first();
        law_first_of_is_the_first(rest, c);
        assert forall|i: int| 0 <= i < first_of(s, c) implies s[i] != c by {
            if i > 0 {
                assert(rest[i - 1] == s[i]);
            }
        }
    }
}

/// A text without a line feed is one line, and a line feed ends a line.
pub proof fn law_lines_end_at_line_feeds(line: Seq<char>, rest: Seq<char>)
    requires
        !line.contains('\n'),
    ensures
        lines(line) == seq![line],
        lines(line + seq!['\n'] + rest) == seq![line] + lines(rest),
{
    let whole = line + seq!['\n'] + rest;
    law_first_of_is_the_first(line, '\n');
    law_first_of_is_the_first(whole, '\n');
    let end = first_of(whole, '\n');
    if end < line.len() {
        assert(whole[end] == line[end]);
    }
    assert(whole[line.len() as int] == '\n');
    if first_of(line, '\n') < line.len() {
        assert(line.contains(line[first_of(line, '\n')]));
    }
    assert(whole.take(line.len() as int) =~= line);
    assert(whole.skip(line.len() as int + 1) =~= rest);
}

/// The lines of two texts with a line feed between them are the lines of the one and
/// the lines of the other.
pub proof fn law_lines_of_two_texts(first: Seq<char>, second: Seq<char>)
    ensures
        lines(first + seq!['\n'] + second) == lines(first) + lines(second),
    decreases first.len(),
{
    let end = first_of(first, '\n');
    law_first_of_is_the_first(first, '\n');
    if end >= first.len() {
        assert forall|i: int| 0 <= i < first.len() implies first[i] != '\n' by {}
        law_lines_end_at_line_feeds(first, second);
    } else {
        let line = first.take(end);
        let rest = first.skip(end + 1);
        assert(!line.contains('\n'));
        assert(first =~= line + seq!['\n'] + rest);
        law_lines_end_at_line_feeds(line, rest);
        law_lines_end_at_line_feeds(line, rest + seq!['\n'] + second);
        law_lines_of_two_texts(rest, second);
        assert(first + seq!['\n'] + second =~= line + seq!['\n'] + (rest + seq!['\n']
            + second));
        assert(seq![line] + (lines(rest) + lines(second)) =~= seq![line] + lines(rest) + lines(
            second,
        ));
    }
}

/// Trimming takes away all characters of the kind at the start, and nothing else.
pub proof fn law_trim_front_leaves_the_rest(front: Seq<char>, rest: Seq<char>, class: Class)
    requires
        forall|i: int| 0 <= i < front.len() ==> class.has(#[trigger] front[i]),
        rest.len() == 0 || !class.has(rest[0]),
    ensures
        trim_front(front + rest, class) == rest,
    decreases front.len(),
{
    if front.len() == 0 {
        assert(front + rest =~= rest);
    } else {
        assert((front + rest)[0] == front[0]);
        assert((front + rest).drop_first() =~= front.drop_first() + rest);
        law_trim_front_leaves_the_rest(front.drop_first(), rest, class);
    }
}

/// Trimming takes away all characters of the kind at the end, and nothing else.
pub proof fn law_trim_back_leaves_the_rest(rest: Seq<char>, back: Seq<char>, class: Class)
    requires
        forall|i: int| 0 <= i < back.len() ==> class.has(#[trigger] back[i]),
        rest.len() == 0 || !class.has(rest.last()),
    ensures
        trim_back(rest + back, class) == rest,
    decreases back.len(),
{
    if back.len() == 0 {
        assert(rest + back =~= rest);
    } else {
        assert((rest + back).last() == back.last());
        assert((rest + back).drop_last() =~= rest + back.drop_last());
        law_trim_back_leaves_the_rest(rest, back.drop_last(), class);
    }
}

/// Trimming takes away all characters of the kind at either end, and nothing else.
pub proof fn law_trim_leaves_the_inner_text(
    front: Seq<char>,
    inner: Seq<char>,
    back: Seq<char>,
    class: Class,
)
    requires
        forall|i: int| 0 <= i < front.len() ==> class.has(#[trigger] front[i]),
        forall|i: int| 0 <= i < back.len() ==> class.has(#[trigger] back[i]),
        inner.len() == 0 || (!class.has(inner[0]) && !class.has(inner.last())),
    ensures
        trim(front + inner + back, class) == inner,
{
    if inner.len() == 0 {
        let all = front + back;
        assert(front + inner + back =~= all + inner);
        law_trim_front_leaves_the_rest(all, inner, class);
        assert(trim_back(inner, class) == inner);
    } else {
        assert(front + inner + back =~= front + (inner + back));
        assert((inner + back)[0] == inner[0]);
        law_trim_front_leaves_the_rest(front, inner + back, class);
        law_trim_back_leaves_the_rest(inner, back, class);
    }
}

/// What is left of a text is a stretch of it, and what does not end in the kind is
/// left whole.
pub proof fn lemma_trim_back_behind(front: Seq<char>, back: Seq<char>, class: Class)
    requires
        front.len() > 0,
        !class.has(front.last()),
    ensures
        trim_back(front + back, class) == front + trim_back(back, class),
        trim_back(back, class).len() <= back.len(),
        trim_back(back, class) == back.take(trim_back(back, class).len() as int),
        back.len() > 0 && !class.has(back[0]) ==> trim_back(back, class).len() > 0,
    decreases back.len(),
{
    if back.len() == 0 {
        assert(front + back =~= front);
        assert(back.take(0) =~= back);
        assert(front + trim_back(back, class) =~= front);
    } else if class.has(back.last()) {
        let less = back.drop_last();
        assert((front + back).drop_last() =~= front + less);
        assert((front + back).last() == back.last());
        lemma_trim_back_behind(front, less, class);
        assert(back.take(trim_back(less, class).len() as int) =~= less.take(
            trim_back(less, class).len() as int,
        ));
        if !class.has(back[0]) {
            assert(back.len() > 1);
            assert(less[0] == back[0]);
        }
    } else {
        assert((front + back).last() == back.last());
        assert(back.take(back.len() as int) =~= back);
    }
}

/// Every character of a trimmed text is a character of the text.
pub proof fn lemma_trim_holds_no_more(s: Seq<char>, class: Class)
    ensures
        forall|c: char| trim_front(s, class).contains(c) ==> s.contains(c),
        forall|c: char| trim_back(s, class).contains(c) ==> s.contains(c),
    decreases s.len(),
{
    if s.len() > 0 {
        if class.has(s[0]) {
            lemma_trim_holds_no_more(s.drop_first(), class);
            assert forall|c: char| s.drop_first().contains(c) implies s.contains(c) by {
                let i = choose|i: int| 0 <= i < s.drop_first().len() && s.drop_first()[i] == c;
                assert(s[i + 1] == c);
            }
        }
        if class.has(s.last()) {
            lemma_trim_holds_no_more(s.drop_last(), class);
            assert forall|c: char| s.drop_last().contains(c) implies s.contains(c) by {
                let i = choose|i: int| 0 <= i < s.drop_last().len() && s.drop_last()[i] == c;
                assert(s[i] == c);
            }
        }
    }
}

/// A text without a digit is no number.
pub proof fn law_a_number_has_a_digit(s: Seq<char>)
    requires
        forall|i: int| 0 <= i < s.len() ==> !('0' as u32 <= (#[trigger] s[i]) as u32 <= '9' as u32),
    ensures
        natural(s) is None,
{
    let digits = unsigned(s);
    if digits.len() > 0 {
        assert(digits[0] == s[s.len() - digits.len()]);
        assert(!is_digit(digits[0]));
    }
}

/// A kind of one character has that character only; white space is the other kind.
pub proof fn law_class_has(c: char, only: char)
    ensures
        Class::Only(only).has(c) <==> c == only,
        Class::White.has(c) <==> white(c),
        white(' ') && white('\t') && white('\n') && white('\r'),
        '!' <= c <= '~' ==> !white(c),
{
}

/// A text starts with exactly the texts that something can be put behind to make it.
pub proof fn law_starts_is_a_prefix(s: Seq<char>, prefix: Seq<char>, rest: Seq<char>)
    ensures
        starts(prefix + rest, prefix),
        starts(s, prefix) ==> s == prefix + s.skip(prefix.len() as int),
{
    assert((prefix + rest).take(prefix.len() as int) =~= prefix);
    if starts(s, prefix) {
        assert(s =~= s.take(prefix.len() as int) + s.skip(prefix.len() as int));
    }
}

proof fn lemma_trim_front_of_white(s: Seq<char>, class: Class)
    ensures
        trim_front(s, class).len() > 0 <==> exists|i: int|
            0 <= i < s.len() && !class.has(#[trigger] s[i]),
        trim_front(s, class).len() > 0 ==> !class.has(trim_front(s, class)[0]),
    decreases s.len(),
{
    if s.len() > 0 && class.has(s[0]) {
        let rest = s.drop_first();
        lemma_trim_front_of_white(rest, class);
        if exists|i: int| 0 <= i < s.len() && !class.has(#[trigger] s[i]) {
            let i = choose|i: int| 0 <= i < s.len() && !class.has(#[trigger] s[i]);
            assert(rest[i - 1] == s[i]);
        }
        if exists|i: int| 0 <= i < rest.len() && !class.has(#[trigger] rest[i]) {
            let i = choose|i: int| 0 <= i < rest.len() && !class.has(#[trigger] rest[i]);
            assert(!class.has(s[i + 1]));
        }
    }
}

proof fn lemma_trim_back_keeps_some(s: Seq<char>, class: Class)
    requires
        s.len() > 0,
        !class.has(s[0]),
    ensures
        trim_back(s, class).len() > 0,
    decreases s.len(),
{
    if class.has(s.last()) {
        lemma_trim_back_keeps_some(s.drop_last(), class);
    }
}

/// Of some lines each counts once that holds a character that is not white space.
pub proof fn law_nonblank_counts_lines(line: Seq<char>, rest: Seq<Seq<char>>)
    ensures
        nonblank(Seq::empty()) == 0,
        (exists|i: int| 0 <= i < line.len() && !white(#[trigger] line[i])) ==> nonblank(
            seq![line] + rest,
        ) == nonblank(rest) + 1,
        (forall|i: int| 0 <= i < line.len() ==> white(#[trigger] line[i])) ==> nonblank(
            seq![line] + rest,
        ) == nonblank(rest),
{
    let all = seq![line] + rest;
    assert(all[0] == line);
    assert(all.drop_first() =~= rest);
    lemma_trim_front_of_white(line, Class::White);
    let front = trim_front(line, Class::White);
    if exists|i: int| 0 <= i < line.len() && !white(#[trigger] line[i]) {
        let i = choose|i: int| 0 <= i < line.len() && !white(#[trigger] line[i]);
        assert(!Class::White.has(line[i]));
        lemma_trim_back_keeps_some(front, Class::White);
    } else {
        assert(front.len() == 0);
        assert(trim_back(front, Class::White).len() == 0);
    }
}

/// An optional text holds the text that is there.
pub proof fn law_opt_view(text: String)
    ensures
        opt_view(Some(text)) == Some(text@),
        opt_view(None) is None,
{
}

/// A stretch holds the characters from its start up to its end.
pub proof fn law_part(chars: Seq<char>, lo: int, hi: int, i: int)
    requires
        0 <= lo <= hi <= chars.len(),
        0 <= i < hi - lo,
    ensures
        part(chars, lo, hi).len() == hi - lo,
        part(chars, lo, hi)[i] == chars[lo + i],
{
}

} // verus!
