//! The layout of the two sample quote files, line by line.
//!
//! A line is text of comma-separated fields; the first field of a header
//! or quote line is itself a row of words separated by single spaces.
//! This module says which bytes of a line hold which item, reads the
//! whole numbers among them and knows the calendar table that the files'
//! dates are counted with. Reading the files, and reading the prices as
//! numbers, is left to the caller.

use vstd::prelude::*;
use vstd::slice::slice_subrange;
use crate::ieee::{le, less_eq};

verus! {

/// The field separator.
pub const COMMA: u8 = 44;

/// The word separator inside the first field.
pub const SPACE: u8 = 32;

/// Number of fields of a quote line of the AAPL file.
pub const AAPL_FIELDS: usize = 15;

/// Number of fields of a quote line of the SPY file.
pub const SPY_FIELDS: usize = 22;

/// A range of bytes of a line: from `start` up to, not including, `end`.
#[derive(PartialEq, Eq, Debug, Copy, Clone, Structural)]
pub struct Span {
    pub start: usize,
    pub end: usize,
}

/// The parts that the separator `sep` cuts the bytes from `from` up to
/// `to` into, left to right: a separator ends the part it follows and
/// opens a new one, which may be empty; any other byte lengthens the last
/// part.
pub open spec fn split_of(text: Seq<u8>, sep: u8, from: int, to: int) -> Seq<Span>
    decreases to - from,
{
    if to <= from {
        seq![Span { start: from as usize, end: from as usize }]
    } else {
        let before = split_of(text, sep, from, to - 1);
        if text[to - 1] == sep {
            before.push(Span { start: to as usize, end: to as usize })
        } else {
            before.update(
                before.len() - 1,
                Span { start: before.last().start, end: to as usize },
            )
        }
    }
}

/// What the parts of a split are: there is at least one; the first starts
/// at `from` and the last ends at `to`; no part holds a separator; and
/// between each part and the next lies exactly one separator.
pub proof fn lemma_split_of(text: Seq<u8>, sep: u8, from: int, to: int)
    requires
        0 <= from <= to <= text.len(),
        to <= usize::MAX,
    ensures
        split_of(text, sep, from, to).len() >= 1,
        split_of(text, sep, from, to)[0].start == from,
        split_of(text, sep, from, to).last().end == to,
        forall|i: int|
            0 <= i < split_of(text, sep, from, to).len() ==> from <= (#[trigger] split_of(
                text,
                sep,
                from,
                to,
            )[i]).start <= split_of(text, sep, from, to)[i].end <= to,
        forall|i: int, j: int|
            0 <= i < split_of(text, sep, from, to).len() && (#[trigger] split_of(
                text,
                sep,
                from,
                to,
            )[i]).start <= j < split_of(text, sep, from, to)[i].end ==> #[trigger] text[j] != sep,
        forall|i: int|
            0 <= i < split_of(text, sep, from, to).len() - 1 ==> text[(#[trigger] split_of(
                text,
                sep,
                from,
                to,
            )[i]).end as int] == sep && split_of(text, sep, from, to)[i + 1].start == split_of(
                text,
                sep,
                from,
                to,
            )[i].end + 1,
    decreases to - from,
{
    if to > from {
        lemma_split_of(text, sep, from, to - 1);
        let before = split_of(text, sep, from, to - 1);
        let parts = split_of(text, sep, from, to);
        if text[to - 1] == sep {
            assert forall|i: int| 0 <= i < parts.len() - 1 implies text[(#[trigger] parts[
                i
            ]).end as int] == sep && parts[i + 1].start == parts[i].end + 1 by {
                if i < before.len() - 1 {
                    assert(parts[i] == before[i]);
                    assert(parts[i + 1] == before[i + 1]);
                }
            }
            assert forall|i: int, j: int|
                0 <= i < parts.len() && (#[trigger] parts[i]).start <= j
                    < parts[i].end implies #[trigger] text[j] != sep by {
                assert(parts[i] == before[i]);
            }
        } else {
            assert forall|i: int| 0 <= i < parts.len() - 1 implies text[(#[trigger] parts[
                i
            ]).end as int] == sep && parts[i + 1].start == parts[i].end + 1 by {
                assert(parts[i] == before[i]);
                if i + 1 < before.len() - 1 {
                    assert(parts[i + 1] == before[i + 1]);
                }
            }
            assert forall|i: int, j: int|
                0 <= i < parts.len() && (#[trigger] parts[i]).start <= j
                    < parts[i].end implies #[trigger] text[j] != sep by {
                if i < before.len() - 1 {
                    assert(parts[i] == before[i]);
                } else if j < to - 1 {
                    assert(before[i].start <= j < before[i].end);
                }
            }
        }
    }
}

/// Cuts the bytes of `text` from `from` up to `to` at each separator.
fn split_range(text: &[u8], from: usize, to: usize, sep: u8) -> (parts: Vec<Span>)
    requires
        from <= to <= text@.len(),
    ensures
        parts@ == split_of(text@, sep, from as int, to as int),
{
    let mut parts: Vec<Span> = Vec::new();
    let mut start: usize = from;
    let mut i: usize = from;
    while i < to
        invariant
            from <= start <= i <= to <= text@.len(),
            split_of(text@, sep, from as int, i as int) == parts@.push(Span { start, end: i }),
        decreases to - i,
    {
        let ghost before = parts@.push(Span { start, end: i });
        if text[i] == sep {
            parts.push(Span { start, end: i });
            start = i + 1;
            assert(split_of(text@, sep, from as int, i + 1) =~= parts@.push(
                Span { start, end: (i + 1) as usize },
            ));
        } else {
            assert(split_of(text@, sep, from as int, i + 1) =~= parts@.push(
                Span { start, end: (i + 1) as usize },
            )) by {
                assert(before.last() == Span { start, end: i });
            }
        }
        i += 1;
    }
    parts.push(Span { start, end: to });
    parts
}

/// The fields of a line: its parts between commas.
pub fn fields(line: &[u8]) -> (parts: Vec<Span>)
    ensures
        parts@ == split_of(line@, COMMA, 0, line@.len() as int),
{
    split_range(line, 0, line.len(), COMMA)
}

/// What a line of a quote file holds, by its number, counted from 1.
#[derive(PartialEq, Eq, Debug, Copy, Clone, Structural)]
pub enum LineKind {
    /// Line 1: the instrument, and in the AAPL file its spot price.
    Title,
    /// Line 2: the date of the snapshot, and in the SPY file bid and ask
    /// of the instrument.
    Date,
    /// Line 3, the column headings; not read.
    Headings,
    /// Line 4 and every later line: one strike with its call and its put.
    Quote,
}

/// The kind of line number `number`.
pub fn line_kind(number: usize) -> (kind: LineKind)
    ensures
        kind == if number == 1 {
            LineKind::Title
        } else if number == 2 {
            LineKind::Date
        } else if number >= 4 {
            LineKind::Quote
        } else {
            LineKind::Headings
        },
{
    if number == 1 {
        LineKind::Title
    } else if number == 2 {
        LineKind::Date
    } else if number >= 4 {
        LineKind::Quote
    } else {
        LineKind::Headings
    }
}

/// Word `k` of the first field of `line`, where the field has that many
/// words.
pub open spec fn word_of(line: Seq<u8>, k: int) -> Option<Span> {
    let first = split_of(line, COMMA, 0, line.len() as int)[0];
    let words = split_of(line, SPACE, first.start as int, first.end as int);
    if 0 <= k < words.len() {
        Some(words[k])
    } else {
        None
    }
}

/// Field `k` of `line`, where the line has that many fields.
pub open spec fn field_of(line: Seq<u8>, k: int) -> Option<Span> {
    let parts = split_of(line, COMMA, 0, line.len() as int);
    if 0 <= k < parts.len() {
        Some(parts[k])
    } else {
        None
    }
}

/// Where the items of a date line lie. An item is missing where the line
/// is too short to hold it.
#[derive(PartialEq, Eq, Debug, Copy, Clone, Structural)]
pub struct DateLine {
    /// The whole first field, the time of the snapshot as text.
    pub time: Span,
    pub month: Option<Span>,
    pub day: Option<Span>,
    pub year: Option<Span>,
    /// Bid of the instrument (SPY file).
    pub bid: Option<Span>,
    /// Ask of the instrument (SPY file).
    pub ask: Option<Span>,
}

/// The layout of a date line: the first field reads month, day, year,
/// and the next two fields are bid and ask.
pub open spec fn date_line_of(line: Seq<u8>) -> DateLine {
    DateLine {
        time: split_of(line, COMMA, 0, line.len() as int)[0],
        month: word_of(line, 0),
        day: word_of(line, 1),
        year: word_of(line, 2),
        bid: field_of(line, 1),
        ask: field_of(line, 2),
    }
}

/// Where the items of a quote line lie. An item of the first field is
/// missing where the field has too few words.
#[derive(PartialEq, Eq, Debug, Copy, Clone, Structural)]
pub struct QuoteLine {
    pub name: Option<Span>,
    pub strike: Option<Span>,
    pub year: Option<Span>,
    pub month: Option<Span>,
    /// Day of the month of the expiry (SPY file).
    pub day: Option<Span>,
    pub call_bid: Span,
    pub call_ask: Span,
    pub put_bid: Span,
    pub put_ask: Span,
}

/// The layout of a quote line of the AAPL file, or nothing where the line
/// has not fifteen fields: the first field reads year, month, strike,
/// name; fields 3 and 4 are bid and ask of the call, fields 10 and 11
/// those of the put.
pub open spec fn appl_quote_of(line: Seq<u8>) -> Option<QuoteLine> {
    let parts = split_of(line, COMMA, 0, line.len() as int);
    if parts.len() != AAPL_FIELDS {
        None
    } else {
        Some(
            QuoteLine {
                name: word_of(line, 3),
                strike: word_of(line, 2),
                year: word_of(line, 0),
                month: word_of(line, 1),
                day: None,
                call_bid: parts[3],
                call_ask: parts[4],
                put_bid: parts[10],
                put_ask: parts[11],
            },
        )
    }
}

/// The layout of a quote line of the SPY file, or nothing where the line
/// has not twenty-two fields: the first field reads weekday, month, day,
/// year; field 1 is the name and field 11 the strike; fields 4 and 5 are
/// bid and ask of the call, fields 15 and 16 those of the put.
pub open spec fn spy_quote_of(line: Seq<u8>) -> Option<QuoteLine> {
    let parts = split_of(line, COMMA, 0, line.len() as int);
    if parts.len() != SPY_FIELDS {
        None
    } else {
        Some(
            QuoteLine {
                name: Some(parts[1]),
                strike: Some(parts[11]),
                year: word_of(line, 3),
                month: word_of(line, 1),
                day: word_of(line, 2),
                call_bid: parts[4],
                call_ask: parts[5],
                put_bid: parts[15],
                put_ask: parts[16],
            },
        )
    }
}

/// Entry `k` of `parts`, where there is one.
fn part(parts: &Vec<Span>, k: usize) -> (r: Option<Span>)
    ensures
        r == if k < parts@.len() { Some(parts@[k as int]) } else { None },
{
    if k < parts.len() {
        Some(parts[k])
    } else {
        None
    }
}

/// The words of the first field of a line whose fields are `parts`.
fn words(line: &[u8], parts: &Vec<Span>) -> (r: Vec<Span>)
    requires
        parts@ == split_of(line@, COMMA, 0, line@.len() as int),
    ensures
        r@ == split_of(line@, SPACE, parts@[0].start as int, parts@[0].end as int),
        parts@.len() >= 1,
{
    let len: usize = line.len();
    proof {
        lemma_split_of(line@, COMMA, 0, len as int);
    }
    let first: Span = parts[0];
    split_range(line, first.start, first.end, SPACE)
}

/// Lays out a date line.
pub fn date_line(line: &[u8]) -> (r: DateLine)
    ensures
        r == date_line_of(line@),
{
    let parts = fields(line);
    let words = words(line, &parts);
    DateLine {
        time: parts[0],
        month: part(&words, 0),
        day: part(&words, 1),
        year: part(&words, 2),
        bid: part(&parts, 1),
        ask: part(&parts, 2),
    }
}

/// Field 1 of a title line, the spot price in the AAPL file, where the
/// line has it.
pub fn title_spot(line: &[u8]) -> (r: Option<Span>)
    ensures
        r == field_of(line@, 1),
{
    let parts = fields(line);
    part(&parts, 1)
}

/// Field 0 of a title line, the instrument's name.
pub fn title_name(line: &[u8]) -> (r: Span)
    ensures
        Some(r) == field_of(line@, 0),
{
    let parts = fields(line);
    let len: usize = line.len();
    proof {
        lemma_split_of(line@, COMMA, 0, len as int);
    }
    parts[0]
}

/// Lays out a quote line of the AAPL file.
pub fn appl_quote(line: &[u8]) -> (r: Option<QuoteLine>)
    ensures
        r == appl_quote_of(line@),
{
    let parts = fields(line);
    if parts.len() != AAPL_FIELDS {
        return None;
    }
    let words = words(line, &parts);
    Some(
        QuoteLine {
            name: part(&words, 3),
            strike: part(&words, 2),
            year: part(&words, 0),
            month: part(&words, 1),
            day: None,
            call_bid: parts[3],
            call_ask: parts[4],
            put_bid: parts[10],
            put_ask: parts[11],
        },
    )
}

/// Lays out a quote line of the SPY file.
pub fn spy_quote(line: &[u8]) -> (r: Option<QuoteLine>)
    ensures
        r == spy_quote_of(line@),
{
    let parts = fields(line);
    if parts.len() != SPY_FIELDS {
        return None;
    }
    let words = words(line, &parts);
    Some(
        QuoteLine {
            name: Some(parts[1]),
            strike: Some(parts[11]),
            year: part(&words, 3),
            month: part(&words, 1),
            day: part(&words, 2),
            call_bid: parts[4],
            call_ask: parts[5],
            put_bid: parts[15],
            put_ask: parts[16],
        },
    )
}

/// A quote is left out where its strike does not exceed zero.
pub fn strike_is_skipped(strike: u32) -> (skip: bool)
    ensures
        skip == less_eq(strike, 0),
{
    le(strike, 0)
}

/// Days from the start of the year by which the files' dates are counted,
/// for a month's three-letter name; zero for any other text.
pub open spec fn month_days(month: Seq<u8>) -> nat {
    if month == seq![74u8, 97u8, 110u8] {
        31
    } else if month == seq![70u8, 101u8, 98u8] {
        57
    } else if month == seq![77u8, 97u8, 114u8] {
        90
    } else if month == seq![65u8, 112u8, 114u8] {
        120
    } else if month == seq![77u8, 97u8, 121u8] {
        151
    } else if month == seq![74u8, 117u8, 110u8] {
        181
    } else if month == seq![74u8, 117u8, 108u8] {
        212
    } else if month == seq![65u8, 117u8, 103u8] {
        243
    } else if month == seq![83u8, 101u8, 112u8] {
        273
    } else if month == seq![79u8, 99u8, 116u8] {
        304
    } else if month == seq![78u8, 111u8, 118u8] {
        334
    } else if month == seq![68u8, 101u8, 99u8] {
        365
    } else {
        0
    }
}

/// Tests whether `text` is the three bytes `a`, `b`, `c`.
fn is_name(text: &[u8], a: u8, b: u8, c: u8) -> (r: bool)
    ensures
        r == (text@ == seq![a, b, c]),
{
    if text.len() == 3 && text[0] == a && text[1] == b && text[2] == c {
        assert(text@ =~= seq![a, b, c]);
        true
    } else {
        assert(seq![a, b, c].len() == 3);
        assert(seq![a, b, c][0] == a && seq![a, b, c][1] == b && seq![a, b, c][2] == c);
        false
    }
}

/// The day count of a month's name: Jan, Feb, Mar, Apr, May, Jun, Jul,
/// Aug, Sep, Oct, Nov, Dec, in this spelling.
pub fn get_days_from_jan(month: &[u8]) -> (days: u32)
    ensures
        days == month_days(month@),
{
    if is_name(month, 74, 97, 110) {
        31
    } else if is_name(month, 70, 101, 98) {
        57
    } else if is_name(month, 77, 97, 114) {
        90
    } else if is_name(month, 65, 112, 114) {
        120
    } else if is_name(month, 77, 97, 121) {
        151
    } else if is_name(month, 74, 117, 110) {
        181
    } else if is_name(month, 74, 117, 108) {
        212
    } else if is_name(month, 65, 117, 103) {
        243
    } else if is_name(month, 83, 101, 112) {
        273
    } else if is_name(month, 79, 99, 116) {
        304
    } else if is_name(month, 78, 111, 118) {
        334
    } else if is_name(month, 68, 101, 99) {
        365
    } else {
        0
    }
}

/// The byte is a decimal digit.
pub open spec fn is_digit(b: u8) -> bool {
    48 <= b <= 57
}

/// The number that a row of digits writes.
pub open spec fn decimal(digits: Seq<u8>) -> nat
    decreases digits.len(),
{
    if digits.len() == 0 {
        0
    } else {
        decimal(digits.drop_last()) * 10 + if is_digit(digits.last()) {
            (digits.last() - 48) as nat
        } else {
            0
        }
    }
}

/// Length of the sign that `text` opens with: 1 for `+` or `-`, else 0.
pub open spec fn sign_len(text: Seq<u8>) -> int {
    if text.len() > 0 && (text[0] == 45 || text[0] == 43) {
        1
    } else {
        0
    }
}

/// The whole number that `text` writes, where it writes one that 32 bits
/// hold: an optional sign, `+` or `-`, then one digit or more and nothing
/// else.
pub open spec fn whole_number_of(text: Seq<u8>) -> Option<int> {
    let digits = text.subrange(sign_len(text), text.len() as int);
    if digits.len() == 0 || !(forall|i: int|
        0 <= i < digits.len() ==> is_digit(#[trigger] digits[i])) {
        None
    } else {
        let value = if sign_len(text) == 1 && text[0] == 45 {
            -(decimal(digits) as int)
        } else {
            decimal(digits) as int
        };
        if i32::MIN <= value <= i32::MAX {
            Some(value)
        } else {
            None
        }
    }
}

/// A row of digits writes no smaller a number than any of its beginnings.
proof fn lemma_decimal_grows(digits: Seq<u8>, k: int)
    requires
        0 <= k <= digits.len(),
    ensures
        decimal(digits.take(k)) <= decimal(digits),
    decreases digits.len() - k,
{
    if k == digits.len() {
        assert(digits.take(k) =~= digits);
    } else {
        lemma_decimal_grows(digits.drop_last(), k);
        assert(digits.drop_last().take(k) =~= digits.take(k));
    }
}

/// Reads a whole number, as the years of the files are written.
pub fn whole_number(text: &[u8]) -> (r: Option<i32>)
    ensures
        match r {
            Some(v) => whole_number_of(text@) == Some(v as int),
            None => whole_number_of(text@) is None,
        },
{
    let n: usize = text.len();
    let signed: bool = n > 0 && (text[0] == 45 || text[0] == 43);
    let negative: bool = signed && text[0] == 45;
    let first: usize = if signed { 1 } else { 0 };
    let ghost digits = text@.subrange(first as int, n as int);
    if first == n {
        return None;
    }
    let mut acc: i64 = 0;
    let mut i: usize = first;
    while i < n
        invariant
            first <= i <= n,
            n == text@.len(),
            first == sign_len(text@),
            digits == text@.subrange(first as int, n as int),
            acc == decimal(digits.take(i - first)),
            acc <= 2147483648,
            forall|j: int| 0 <= j < i - first ==> is_digit(#[trigger] digits[j]),
        decreases n - i,
    {
        let b: u8 = text[i];
        if b < 48 || b > 57 {
            assert(!is_digit(digits[i - first]));
            return None;
        }
        proof {
            assert(digits.take(i - first + 1).drop_last() =~= digits.take(i - first));
            assert(digits.take(i - first + 1).last() == b);
        }
        acc = acc * 10 + (b - 48) as i64;
        if acc > 2147483648 {
            proof {
                lemma_decimal_grows(digits, i - first + 1);
            }
            return None;
        }
        i += 1;
    }
    assert(digits.take(n - first) =~= digits);
    let value: i64 = if negative { -acc } else { acc };
    if value > 2147483647 {
        None
    } else {
        Some(value as i32)
    }
}

} // verus!
