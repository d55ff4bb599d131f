//! Progress events, and the lines of output that stand for them.
//!
//! The package manager reports its progress as lines of text. Three forms
//! of line are understood; `N` and `M` stand for decimal numbers, written
//! with one or more of the digits `0` to `9`:
//!
//! | line                          | event                                   |
//! |-------------------------------|-----------------------------------------|
//! | `N%`, or `N% ` and any text   | [`AptUpgradeEvent::Percent`], `N` ≤ 100 |
//! | `N/M `, then a package's name | [`AptUpgradeEvent::PackageCounts`], `N` ≤ `M` < 2³² |
//! | `Get:N `, then a description  | [`AptUpgradeEvent::Fetched`]            |
//!
//! The name and the description are the rest of the line and are not empty.
//! Every other line, and a line of one of these forms whose numbers are out
//! of range, stands for no event: the wording of the output changes between
//! versions of the package manager, and chatter is not an error.
use crate::text::{characters, text_between, texts};
use vstd::prelude::*;
use vstd::string::*;

verus! {

/// One step of progress of a running operation.
#[derive(Debug, Clone, PartialEq, Eq)]
pub enum AptUpgradeEvent {
    /// So much of the whole operation is done, in percent.
    Percent { percent: u8 },
    /// This file is being fetched: its origin and description, as reported.
    Fetched { file: String },
    /// The package `package` is being processed, as number `current` of `total`.
    PackageCounts { current: u32, total: u32, package: String },
    /// The package database is locked by another process. No line of output
    /// stands for this event: it is made for the caller while the lock is
    /// polled.
    WaitingOnLock,
}

/// What an [`AptUpgradeEvent`] holds, with its texts as sequences of characters.
pub enum EventView {
    Percent { percent: u8 },
    Fetched { file: Seq<char> },
    PackageCounts { current: u32, total: u32, package: Seq<char> },
    WaitingOnLock,
}

impl View for AptUpgradeEvent {
    type V = EventView;

    open spec fn view(&self) -> EventView {
        match *self {
            AptUpgradeEvent::Percent { percent } => EventView::Percent { percent },
            AptUpgradeEvent::Fetched { file } => EventView::Fetched { file: file@ },
            AptUpgradeEvent::PackageCounts { current, total, package } => EventView::PackageCounts {
                current,
                total,
                package: package@,
            },
            AptUpgradeEvent::WaitingOnLock => EventView::WaitingOnLock,
        }
    }
}

/// The largest percentage that a line may report.
pub const FULL_PERCENT: u8 = 100;

/// Whether `c` is one of the decimal digits `0` to `9`.
pub open spec fn is_digit(c: char) -> bool {
    '0' <= c <= '9'
}

/// The number that a decimal digit stands for.
pub open spec fn digit_value(c: char) -> nat {
    (c as u32 - 48) as nat
}

/// The number that a string of decimal digits stands for; zero for the
/// empty string.
pub open spec fn decimal_value(digits: Seq<char>) -> nat
    decreases digits.len(),
{
    if digits.len() == 0 {
        0
    } else {
        10 * decimal_value(digits.drop_last()) + digit_value(digits.last())
    }
}

/// Where the digits that begin at `from` end: the position of the first
/// character at or after `from` that is no digit, or the length of the text.
pub open spec fn digits_end(text: Seq<char>, from: int) -> int
    decreases text.len() - from,
{
    if 0 <= from < text.len() && is_digit(text[from]) {
        digits_end(text, from + 1)
    } else {
        from
    }
}

/// Whether a space stands at `at` and at least one character follows it.
pub open spec fn space_then_text(line: Seq<char>, at: int) -> bool {
    0 <= at && at + 1 < line.len() && line[at] == ' '
}

/// The event of a line that begins with the number `percent` and a percent
/// sign, after which `at` is the next position.
pub open spec fn decode_percent(line: Seq<char>, percent: nat, at: int) -> Option<EventView> {
    if percent <= FULL_PERCENT && (at == line.len() || line[at] == ' ') {
        Some(EventView::Percent { percent: percent as u8 })
    } else {
        None
    }
}

/// The event of a line that begins with the number `current` and a slash,
/// after which `at` is the next position.
pub open spec fn decode_counts(line: Seq<char>, current: nat, at: int) -> Option<EventView> {
    let end = digits_end(line, at);
    let total = decimal_value(line.subrange(at, end));
    if end > at && current <= total <= u32::MAX && space_then_text(line, end) {
        Some(
            EventView::PackageCounts {
                current: current as u32,
                total: total as u32,
                package: line.subrange(end + 1, line.len() as int),
            },
        )
    } else {
        None
    }
}

/// Whether `line` begins with `Get:`.
pub open spec fn begins_with_get(line: Seq<char>) -> bool {
    line.len() >= 4 && line[0] == 'G' && line[1] == 'e' && line[2] == 't' && line[3] == ':'
}

/// The event of a line that begins with `Get:`.
pub open spec fn decode_fetched(line: Seq<char>) -> Option<EventView> {
    let end = digits_end(line, 4);
    if end > 4 && space_then_text(line, end) {
        Some(EventView::Fetched { file: line.subrange(end + 1, line.len() as int) })
    } else {
        None
    }
}

/// The event that a line of output stands for, if any. The line comes
/// without its line feed.
pub open spec fn decode_line(line: Seq<char>) -> Option<EventView> {
    let end = digits_end(line, 0);
    if end > 0 {
        let number = decimal_value(line.subrange(0, end));
        if end < line.len() && line[end] == '%' {
            decode_percent(line, number, end + 1)
        } else if end < line.len() && line[end] == '/' {
            decode_counts(line, number, end + 1)
        } else {
            None
        }
    } else if begins_with_get(line) {
        decode_fetched(line)
    } else {
        None
    }
}

/// The events of a sequence of lines, in the order of the lines: each line
/// gives its own event or none, whatever stands before or after it.
pub open spec fn decode_all(lines: Seq<Seq<char>>) -> Seq<EventView>
    decreases lines.len(),
{
    if lines.len() == 0 {
        Seq::empty()
    } else {
        match decode_line(lines.last()) {
            Some(event) => decode_all(lines.drop_last()).push(event),
            None => decode_all(lines.drop_last()),
        }
    }
}

/// What each event of a vector of events holds.
pub open spec fn events_view(events: Seq<AptUpgradeEvent>) -> Seq<EventView> {
    events.map_values(|event: AptUpgradeEvent| event@)
}

/// What a decoded line holds: the event's view, or nothing.
pub open spec fn decoded_view(event: Option<AptUpgradeEvent>) -> Option<EventView> {
    match event {
        Some(found) => Some(found@),
        None => None,
    }
}

/// Decoding has no memory: whatever was decoded in between, two decodings
/// of the same line hold the same event, or both hold none.
pub proof fn lemma_decoding_repeats(
    line: Seq<char>,
    first: Option<AptUpgradeEvent>,
    second: Option<AptUpgradeEvent>,
)
    requires
        decoded_view(first) == decode_line(line),
        decoded_view(second) == decode_line(line),
    ensures
        decoded_view(first) == decoded_view(second),
        first is Some <==> second is Some,
{
}

/// The events of two runs of lines, one after the other, are the events of
/// the first run followed by those of the second: no line changes what
/// another line stands for.
pub proof fn lemma_decode_all_concat(first: Seq<Seq<char>>, second: Seq<Seq<char>>)
    ensures
        decode_all(first + second) == decode_all(first) + decode_all(second),
    decreases second.len(),
{
    if second.len() == 0 {
        assert(first + second =~= first);
        assert(decode_all(first) + decode_all(second) =~= decode_all(first));
    } else {
        lemma_decode_all_concat(first, second.drop_last());
        assert((first + second).drop_last() =~= first + second.drop_last());
        assert((first + second).last() == second.last());
        match decode_line(second.last()) {
            Some(event) => {
                assert(decode_all(first + second) =~= decode_all(first) + decode_all(second));
            },
            None => {},
        }
    }
}

/// A line that matches no form gives no event and stops nothing: the lines
/// before and after it give the events that they give without it.
pub proof fn lemma_unknown_line_is_skipped(
    before: Seq<Seq<char>>,
    line: Seq<char>,
    after: Seq<Seq<char>>,
)
    requires
        decode_line(line) is None,
    ensures
        decode_all(before.push(line) + after) == decode_all(before + after),
{
    lemma_decode_all_concat(before.push(line), after);
    lemma_decode_all_concat(before, after);
    assert(before.push(line).drop_last() =~= before);
}

/// A line that matches a form gives exactly its event, in its place among
/// the events of the lines around it.
pub proof fn lemma_known_line_is_kept(
    before: Seq<Seq<char>>,
    line: Seq<char>,
    after: Seq<Seq<char>>,
)
    requires
        decode_line(line) is Some,
    ensures
        decode_all(before.push(line) + after) == decode_all(before).push(decode_line(line)->0)
            + decode_all(after),
{
    lemma_decode_all_concat(before.push(line), after);
    assert(before.push(line).drop_last() =~= before);
}

/// Lines that all match a form give one event each, in their order.
pub proof fn lemma_known_lines_give_one_event_each(lines: Seq<Seq<char>>)
    requires
        forall|i: int| 0 <= i < lines.len() ==> decode_line(#[trigger] lines[i]) is Some,
    ensures
        decode_all(lines).len() == lines.len(),
        forall|i: int|
            0 <= i < lines.len() ==> Some(#[trigger] decode_all(lines)[i]) == decode_line(lines[i]),
    decreases lines.len(),
{
    if lines.len() > 0 {
        let before = lines.drop_last();
        assert forall|i: int| 0 <= i < before.len() implies decode_line(
            #[trigger] before[i],
        ) is Some by {
            assert(before[i] == lines[i]);
        }
        lemma_known_lines_give_one_event_each(before);
        assert(decode_line(lines[lines.len() - 1]) is Some);
        assert forall|i: int| 0 <= i < lines.len() implies Some(#[trigger] decode_all(lines)[i])
            == decode_line(lines[i]) by {
            if i < before.len() {
                assert(decode_all(lines)[i] == decode_all(before)[i]);
                assert(before[i] == lines[i]);
            }
        }
    }
}

/// Reads the decimal number that begins at `from`: where its digits end,
/// and its value unless that is too large for a `u32`.
fn read_number(text: &Vec<char>, from: usize) -> (number: (usize, Option<u32>))
    requires
        from <= text.len(),
    ensures
        number.0 == digits_end(text@, from as int),
        from <= number.0 <= text.len(),
        match number.1 {
            Some(value) => value == decimal_value(text@.subrange(from as int, number.0 as int)),
            None => decimal_value(text@.subrange(from as int, number.0 as int)) > u32::MAX,
        },
{
    let mut at: usize = from;
    let mut value: u64 = 0;
    let mut fits: bool = true;
    while at < text.len() && text[at] >= '0' && text[at] <= '9'
        invariant
            from <= at <= text.len(),
            digits_end(text@, from as int) == digits_end(text@, at as int),
            value <= u32::MAX,
            fits ==> value == decimal_value(text@.subrange(from as int, at as int)),
            !fits ==> decimal_value(text@.subrange(from as int, at as int)) > u32::MAX,
        decreases text.len() - at,
    {
        let digit: u64 = (text[at] as u32 - 48) as u64;
        proof {
            let longer = text@.subrange(from as int, at + 1);
            assert(longer.drop_last() =~= text@.subrange(from as int, at as int));
            assert(longer.last() == text@[at as int]);
        }
        if fits {
            let next: u64 = value * 10 + digit;
            if next > 0xffff_ffff {
                fits = false;
                value = 0;
            } else {
                value = next;
            }
        }
        at += 1;
    }
    if fits {
        (at, Some(value as u32))
    } else {
        (at, None)
    }
}

/// Whether a space stands at `at` and at least one character follows it.
fn has_space_then_text(chars: &Vec<char>, at: usize) -> (found: bool)
    ensures
        found == space_then_text(chars@, at as int),
{
    at < chars.len() && chars.len() - at > 1 && chars[at] == ' '
}

/// Classifies one complete line of output, given without its line feed:
/// the progress event that it stands for, or `None` for a line that matches
/// no known form or whose numbers are out of range. The answer depends on
/// the line alone: the same line always gives the same event, whatever was
/// decoded before.
pub fn decode(line: &str) -> (event: Option<AptUpgradeEvent>)
    ensures
        decoded_view(event) == decode_line(line@),
{
    let chars = characters(line);
    let (end, number) = read_number(&chars, 0);
    if end > 0 {
        if end < chars.len() && chars[end] == '%' {
            match number {
                Some(percent) => {
                    if percent <= FULL_PERCENT as u32 && (end + 1 == chars.len() || chars[end + 1] == ' ') {
                        Some(AptUpgradeEvent::Percent { percent: percent as u8 })
                    } else {
                        None
                    }
                },
                None => None,
            }
        } else if end < chars.len() && chars[end] == '/' {
            let (total_end, total_number) = read_number(&chars, end + 1);
            match (number, total_number) {
                (Some(current), Some(total)) => {
                    if total_end > end + 1 && current <= total && has_space_then_text(
                        &chars,
                        total_end,
                    ) {
                        let package = text_between(&chars, total_end + 1, chars.len());
                        Some(AptUpgradeEvent::PackageCounts { current, total, package })
                    } else {
                        None
                    }
                },
                _ => None,
            }
        } else {
            None
        }
    } else if chars.len() >= 4 && chars[0] == 'G' && chars[1] == 'e' && chars[2] == 't' && chars[3]
        == ':' {
        let (index_end, _) = read_number(&chars, 4);
        if index_end > 4 && has_space_then_text(&chars, index_end) {
            let file = text_between(&chars, index_end + 1, chars.len());
            Some(AptUpgradeEvent::Fetched { file })
        } else {
            None
        }
    } else {
        None
    }
}

/// The event to pass on for one poll of the lock: [`AptUpgradeEvent::WaitingOnLock`]
/// while the lock is held, nothing once it is free.
pub fn readiness_event(ready: bool) -> (event: Option<AptUpgradeEvent>)
    ensures
        event == if ready {
            None
        } else {
            Some(AptUpgradeEvent::WaitingOnLock)
        },
{
    if ready {
        None
    } else {
        Some(AptUpgradeEvent::WaitingOnLock)
    }
}

/// Decodes complete lines in order and keeps the events that they stand
/// for. A line that stands for none is passed over, and the lines after it
/// are decoded as if it had not been there.
pub fn decode_lines(lines: &Vec<String>) -> (events: Vec<AptUpgradeEvent>)
    ensures
        events_view(events@) == decode_all(texts(lines@)),
{
    let mut events: Vec<AptUpgradeEvent> = Vec::new();
    let mut i: usize = 0;
    assert(texts(lines@).take(0) =~= Seq::<Seq<char>>::empty());
    assert(events_view(events@) =~= Seq::<EventView>::empty());
    while i < lines.len()
        invariant
            i <= lines.len(),
            events_view(events@) == decode_all(texts(lines@).take(i as int)),
        decreases lines.len() - i,
    {
        proof {
            let longer = texts(lines@).take(i + 1);
            assert(longer.drop_last() =~= texts(lines@).take(i as int));
            assert(longer.last() == lines@[i as int]@);
        }
        let ghost kept = events@;
        match decode(lines[i].as_str()) {
            Some(event) => {
                events.push(event);
                assert(events_view(events@) =~= events_view(kept).push(event@));
            },
            None => {},
        }
        i += 1;
    }
    assert(texts(lines@).take(i as int) =~= texts(lines@));
    events
}

} // verus!
