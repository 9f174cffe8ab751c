//! From a block of text to events.
//!
//! A body of text carries one event per line, as a label, a comma, and a
//! timestamp in decimal. Lines are taken apart here, those that are not of
//! that form are passed over, and each of the others is handed to the log
//! model's own reader.

use crate::event::{event_views, Event, EventView};
use vstd::prelude::*;
use vstd::utf8::{decode_utf8, valid_utf8};

verus! {

/// `line` without the carriage return at its end, if it has one.
pub open spec fn strip_cr(line: Seq<char>) -> Seq<char> {
    if line.len() > 0 && line.last() == '\r' {
        line.drop_last()
    } else {
        line
    }
}

/// The state of reading `text` front to back: the lines that a line feed
/// has closed, each without its line ending, and the characters that follow
/// the last line feed.
pub open spec fn scan(text: Seq<char>) -> (Seq<Seq<char>>, Seq<char>)
    decreases text.len(),
{
    if text.len() == 0 {
        (Seq::empty(), Seq::empty())
    } else {
        let (closed, open) = scan(text.drop_last());
        if text.last() == '\n' {
            (closed.push(strip_cr(open)), Seq::empty())
        } else {
            (closed, open.push(text.last()))
        }
    }
}

/// The lines of `text`. A line ends at a line feed or at a carriage return
/// followed by one, neither of which belongs to it; what follows the last
/// line feed is a line too, unless it is empty.
pub open spec fn lines(text: Seq<char>) -> Seq<Seq<char>> {
    let (closed, open) = scan(text);
    if open.len() > 0 {
        closed.push(open)
    } else {
        closed
    }
}

/// `text` holds no line feed.
pub open spec fn is_single_line(text: Seq<char>) -> bool {
    forall|i: int| 0 <= i < text.len() ==> #[trigger] text[i] != '\n'
}

/// Text without a line feed is all unfinished line.
pub proof fn lemma_scan_single_line(text: Seq<char>)
    requires
        is_single_line(text),
    ensures
        scan(text) == (Seq::<Seq<char>>::empty(), text),
    decreases text.len(),
{
    if text.len() > 0 {
        lemma_scan_single_line(text.drop_last());
        assert(text.drop_last().push(text.last()) =~= text);
    }
}

/// Reading on after a line feed starts afresh: the lines closed in what
/// follows come behind those closed before.
pub proof fn lemma_scan_after_line_feed(head: Seq<char>, tail: Seq<char>)
    requires
        head.len() == 0 || head.last() == '\n',
    ensures
        scan(head + tail) == (scan(head).0 + scan(tail).0, scan(tail).1),
    decreases tail.len(),
{
    if tail.len() == 0 {
        assert(head + tail =~= head);
        assert(scan(head).0 + scan(tail).0 =~= scan(head).0);
    } else {
        assert((head + tail).drop_last() =~= head + tail.drop_last());
        lemma_scan_after_line_feed(head, tail.drop_last());
        let (closed, open) = scan(tail.drop_last());
        assert((scan(head).0 + closed).push(strip_cr(open)) =~= scan(head).0 + closed.push(
            strip_cr(open),
        ));
    }
}

/// The lines of a text, one at a time. A text without a line feed is one
/// line, or none if it is empty; and a text that starts with a line `first`
/// and its line feed has `first`, less a carriage return at its end, as its
/// first line, followed by the lines of the `rest`.
pub proof fn lemma_lines_unfold(first: Seq<char>, rest: Seq<char>)
    requires
        is_single_line(first),
    ensures
        lines(first) == if first.len() > 0 {
            seq![first]
        } else {
            Seq::<Seq<char>>::empty()
        },
        lines(first.push('\n') + rest) == seq![strip_cr(first)] + lines(rest),
{
    lemma_scan_single_line(first);
    assert(lines(first) =~= if first.len() > 0 {
        seq![first]
    } else {
        Seq::<Seq<char>>::empty()
    });
    let head = first.push('\n');
    assert(head.drop_last() =~= first);
    assert(scan(head).0 =~= seq![strip_cr(first)]);
    lemma_scan_after_line_feed(head, rest);
    let (closed, open) = scan(rest);
    assert((seq![strip_cr(first)] + closed).push(open) =~= seq![strip_cr(first)] + closed.push(
        open,
    ));
}

/// The characters of a piece of text.
pub fn chars_of(text: &str) -> (chars: Vec<char>)
    ensures
        chars@ == text@,
{
    let mut chars: Vec<char> = Vec::new();
    for c in it: text.chars()
        invariant
            chars@ == text@.take(it.index() as int),
            it.seq() == text@,
    {
        chars.push(c);
    }
    chars
}

/// `String::push`, trusted to append the character it is given and to
/// leave the rest of the string as it was.
pub assume_specification[ String::push ](text: &mut String, c: char)
    ensures
        final(text)@ == old(text)@.push(c),
;

/// The string made of the given characters.
pub fn string_of(chars: &Vec<char>) -> (text: String)
    ensures
        text@ == chars@,
{
    let mut text = String::new();
    let mut i: usize = 0;
    while i < chars.len()
        invariant
            i <= chars.len(),
            text@ == chars@.take(i as int),
        decreases chars.len() - i,
    {
        text.push(chars[i]);
        i = i + 1;
        assert(chars@.take(i as int) =~= chars@.take(i - 1).push(chars@[i - 1]));
    }
    assert(chars@.take(i as int) =~= chars@);
    text
}

/// The lines held by a vector of lines.
pub open spec fn line_views(held: Seq<Vec<char>>) -> Seq<Seq<char>> {
    Seq::new(held.len(), |i: int| held[i]@)
}

/// Takes `text` apart into its lines.
pub fn split_lines(text: &Vec<char>) -> (result: Vec<Vec<char>>)
    ensures
        line_views(result@) == lines(text@),
{
    let mut closed: Vec<Vec<char>> = Vec::new();
    let mut open: Vec<char> = Vec::new();
    let mut i: usize = 0;
    assert(text@.take(0) =~= Seq::empty());
    assert(line_views(closed@) =~= Seq::empty());
    while i < text.len()
        invariant
            i <= text.len(),
            (line_views(closed@), open@) == scan(text@.take(i as int)),
        decreases text.len() - i,
    {
        let ghost before = line_views(closed@);
        let ghost unfinished = open@;
        let c: char = text[i];
        assert(text@.take(i + 1).drop_last() =~= text@.take(i as int));
        if c == '\n' {
            let n: usize = open.len();
            if n > 0 && open[n - 1] == '\r' {
                open.pop();
            }
            assert(open@ =~= strip_cr(unfinished));
            let ghost line = open@;
            closed.push(open);
            open = Vec::new();
            assert(line_views(closed@) =~= before.push(line));
        } else {
            open.push(c);
        }
        i = i + 1;
    }
    assert(text@.take(i as int) =~= text@);
    if open.len() > 0 {
        let ghost before = line_views(closed@);
        let ghost line = open@;
        closed.push(open);
        assert(line_views(closed@) =~= before.push(line));
    }
    closed
}

/// Index of the first `c` in `s` at or after `from`; the length of `s`
/// where there is none.
pub open spec fn find(s: Seq<char>, c: char, from: int) -> int
    decreases s.len() - from,
{
    if from < 0 || from >= s.len() {
        s.len() as int
    } else if s[from] == c {
        from
    } else {
        find(s, c, from + 1)
    }
}

/// What stands before the first comma of `line`: the label.
pub open spec fn first_field(line: Seq<char>) -> Seq<char> {
    line.subrange(0, find(line, ',', 0))
}

/// What stands between the first comma of `line` and the second, or the end
/// of the line where there is no second: the timestamp.
pub open spec fn second_field(line: Seq<char>) -> Seq<char> {
    let start = find(line, ',', 0) + 1;
    line.subrange(start, find(line, ',', start))
}

/// `c` is one of the ten decimal digits.
pub open spec fn is_digit(c: char) -> bool {
    '0' <= c && c <= '9'
}

/// Every character of `s` is a decimal digit.
pub open spec fn all_digits(s: Seq<char>) -> bool {
    forall|i: int| 0 <= i < s.len() ==> is_digit(#[trigger] s[i])
}

/// The number that the digits `s` write in decimal.
pub open spec fn digits_value(s: Seq<char>) -> int
    decreases s.len(),
{
    if s.len() == 0 {
        0
    } else {
        10 * digits_value(s.drop_last()) + (s.last() as u32 - '0' as u32)
    }
}

/// Number of characters that the sign of `s` takes: one for a leading plus
/// or minus, else none.
pub open spec fn sign_len(s: Seq<char>) -> int {
    if s.len() > 0 && (s[0] == '+' || s[0] == '-') {
        1
    } else {
        0
    }
}

/// The number that `s` writes: its digits' value, negated after a minus.
pub open spec fn decimal_value(s: Seq<char>) -> int {
    let digits = s.skip(sign_len(s));
    if s.len() > 0 && s[0] == '-' {
        -digits_value(digits)
    } else {
        digits_value(digits)
    }
}

/// `s` writes a 64-bit signed number: an optional sign, then one digit or
/// more and nothing else, of a value that fits.
pub open spec fn is_decimal(s: Seq<char>) -> bool {
    let digits = s.skip(sign_len(s));
    &&& digits.len() > 0
    &&& all_digits(digits)
    &&& i64::MIN <= decimal_value(s) <= i64::MAX
}

/// `line` is a record: it has a comma, and its second field writes a 64-bit
/// signed number.
pub open spec fn is_record(line: Seq<char>) -> bool {
    &&& find(line, ',', 0) < line.len()
    &&& is_decimal(second_field(line))
}

/// The event that the record `line` stands for.
pub open spec fn record_of(line: Seq<char>) -> EventView {
    EventView { timestamp: decimal_value(second_field(line)), label: first_field(line) }
}

/// The events of the records among `text_lines`, in the order of the lines;
/// lines that are no records are passed over.
pub open spec fn records(text_lines: Seq<Seq<char>>) -> Seq<EventView>
    decreases text_lines.len(),
{
    if text_lines.len() == 0 {
        Seq::empty()
    } else if is_record(text_lines.last()) {
        records(text_lines.drop_last()).push(record_of(text_lines.last()))
    } else {
        records(text_lines.drop_last())
    }
}

/// Digits appended to digits never lower the value written.
pub proof fn lemma_digits_grow(s: Seq<char>, i: int)
    requires
        all_digits(s),
        0 <= i <= s.len(),
    ensures
        0 <= digits_value(s.take(i)) <= digits_value(s),
    decreases s.len(),
{
    if s.len() == 0 {
        assert(s.take(i) =~= s);
    } else if i == s.len() {
        assert(s.take(i) =~= s);
        lemma_digits_grow(s.drop_last(), 0);
        assert(is_digit(s[s.len() - 1]));
    } else {
        assert(s.take(i) =~= s.drop_last().take(i));
        lemma_digits_grow(s.drop_last(), i);
        assert(is_digit(s[s.len() - 1]));
    }
}

/// Finds the first `c` in `line` at or after `from`.
pub fn find_from(line: &Vec<char>, c: char, from: usize) -> (at: usize)
    requires
        from <= line@.len(),
    ensures
        at == find(line@, c, from as int),
        from <= at <= line@.len(),
        at < line@.len() ==> line@[at as int] == c,
{
    let mut at: usize = from;
    while at < line.len() && line[at] != c
        invariant
            from <= at <= line@.len(),
            find(line@, c, from as int) == find(line@, c, at as int),
        decreases line@.len() - at,
    {
        at = at + 1;
    }
    at
}

/// Largest magnitude that a 64-bit signed number has: that of the least.
pub const MAGNITUDE_LIMIT: u128 = 0x8000_0000_0000_0000;

/// Reads the characters of `line` from `start` up to `end` as a 64-bit
/// signed number in decimal; none where they do not write one.
pub fn read_decimal(line: &Vec<char>, start: usize, end: usize) -> (value: Option<i64>)
    requires
        start <= end <= line@.len(),
    ensures
        value is Some <==> is_decimal(line@.subrange(start as int, end as int)),
        value matches Some(v) ==> v == decimal_value(line@.subrange(start as int, end as int)),
{
    let ghost field = line@.subrange(start as int, end as int);
    if start >= end {
        return None;
    }
    let first: char = line[start];
    let negative: bool = first == '-';
    let digits_start: usize = if first == '-' || first == '+' {
        start + 1
    } else {
        start
    };
    let ghost digits = field.skip(sign_len(field));
    assert(digits =~= line@.subrange(digits_start as int, end as int));
    if digits_start >= end {
        return None;
    }
    let mut acc: u128 = 0;
    let mut i: usize = digits_start;
    assert(digits.take(0) =~= Seq::empty());
    while i < end
        invariant
            start <= digits_start <= i <= end <= line@.len(),
            field == line@.subrange(start as int, end as int),
            digits == field.skip(sign_len(field)),
            digits == line@.subrange(digits_start as int, end as int),
            all_digits(digits.take(i - digits_start)),
            acc == digits_value(digits.take(i - digits_start)),
            acc <= MAGNITUDE_LIMIT,
        decreases end - i,
    {
        let c: char = line[i];
        let ghost read = digits.take(i - digits_start);
        let ghost more = digits.take(i + 1 - digits_start);
        assert(more.drop_last() =~= read);
        assert(more.last() == c);
        if !(c >= '0' && c <= '9') {
            assert(!is_digit(digits[i - digits_start]));
            return None;
        }
        assert(all_digits(more)) by {
            assert forall|j: int| 0 <= j < more.len() implies is_digit(#[trigger] more[j]) by {
                if j < read.len() {
                    assert(more[j] == read[j]);
                }
            }
        }
        acc = acc * 10 + (c as u32 - '0' as u32) as u128;
        if acc > MAGNITUDE_LIMIT {
            proof {
                if all_digits(digits) {
                    lemma_digits_grow(digits, i + 1 - digits_start);
                }
            }
            return None;
        }
        i = i + 1;
    }
    assert(digits.take(i - digits_start) =~= digits);
    if negative {
        if acc == MAGNITUDE_LIMIT {
            Some(i64::MIN)
        } else {
            Some(-(acc as i64))
        }
    } else if acc < MAGNITUDE_LIMIT {
        Some(acc as i64)
    } else {
        None
    }
}

/// Reads the timestamp of `line`; none where the line is no record.
pub fn read_timestamp(line: &Vec<char>) -> (value: Option<i64>)
    ensures
        value is Some <==> is_record(line@),
        value matches Some(v) ==> v == record_of(line@).timestamp,
{
    let comma: usize = find_from(line, ',', 0);
    if comma >= line.len() {
        return None;
    }
    let start: usize = comma + 1;
    let end: usize = find_from(line, ',', start);
    read_decimal(line, start, end)
}

/// Reads one record, by `mosaic_model::log::Log::from_http_body`, and hands
/// its two fields on as an [`Event`].
///
/// Trusted: the reader splits the line at its commas, keeps the first piece
/// as the label, and parses the second as a 64-bit signed number in decimal,
/// which is what [`record_of`] says. It panics where there is no second piece
/// or the second piece does not parse; `requires` leaves those lines out.
#[verifier::external_body]
fn log_from_http_body(line: String) -> (event: Event)
    requires
        is_record(line@),
    ensures
        event@ == record_of(line@),
{
    let log = mosaic_model::log::Log::from_http_body(line);
    Event { timestamp: log.timestamp, label: log.label }
}

/// The error of `String::from_utf8`, carried through unopened.
#[verifier::external_type_specification]
#[verifier::external_body]
pub struct ExFromUtf8Error(std::string::FromUtf8Error);

/// `String::from_utf8`, trusted to succeed exactly on valid UTF-8 and then
/// to give the text that the bytes encode.
pub assume_specification[ String::from_utf8 ](vec: Vec<u8>) -> (text: Result<
    String,
    std::string::FromUtf8Error,
>)
    ensures
        text is Ok <==> valid_utf8(vec@),
        text matches Ok(t) ==> t@ == decode_utf8(vec@),
;

/// The text that a body of bytes carries: the bytes decoded as UTF-8, and
/// no text at all where they are not valid UTF-8.
pub open spec fn spec_body_text(bytes: Seq<u8>) -> Seq<char> {
    if valid_utf8(bytes) {
        decode_utf8(bytes)
    } else {
        Seq::empty()
    }
}

/// The text that a body of bytes carries.
pub fn body_text(bytes: Vec<u8>) -> (text: String)
    ensures
        text@ == spec_body_text(bytes@),
{
    match String::from_utf8(bytes) {
        Ok(text) => text,
        Err(_) => String::new(),
    }
}

/// There is at most one event to a line.
pub proof fn lemma_records_len(text_lines: Seq<Seq<char>>)
    ensures
        records(text_lines).len() <= text_lines.len(),
    decreases text_lines.len(),
{
    if text_lines.len() > 0 {
        lemma_records_len(text_lines.drop_last());
    }
}

/// Reads the events of a body of text: one for each line that is a record,
/// in the order of the lines. Beside the events stands the number of lines
/// that were passed over because they are no records.
pub fn read_events(body: &str) -> (result: (Vec<Event>, usize))
    ensures
        event_views(result.0@) == records(lines(body@)),
        result.1 == lines(body@).len() - records(lines(body@)).len(),
{
    let text: Vec<char> = chars_of(body);
    let text_lines: Vec<Vec<char>> = split_lines(&text);
    let mut events: Vec<Event> = Vec::new();
    let mut skipped: usize = 0;
    let mut i: usize = 0;
    let ghost all = line_views(text_lines@);
    assert(all.take(0) =~= Seq::empty());
    assert(event_views(events@) =~= Seq::empty());
    while i < text_lines.len()
        invariant
            i <= text_lines.len(),
            all == line_views(text_lines@),
            event_views(events@) == records(all.take(i as int)),
            skipped == i - records(all.take(i as int)).len(),
        decreases text_lines.len() - i,
    {
        let ghost before = event_views(events@);
        assert(all.take(i + 1).drop_last() =~= all.take(i as int));
        assert(all.take(i + 1).last() == text_lines@[i as int]@);
        proof {
            lemma_records_len(all.take(i as int));
        }
        match read_timestamp(&text_lines[i]) {
            Some(_) => {
                let event: Event = log_from_http_body(string_of(&text_lines[i]));
                events.push(event);
                assert(event_views(events@) =~= before.push(event@));
            },
            None => {
                skipped = skipped + 1;
            },
        }
        i = i + 1;
    }
    assert(all.take(i as int) =~= all);
    (events, skipped)
}

} // verus!
