//! Tasks that live in calendar files: how an entry is read, how a task is
//! marked as done, and how the spans of the time window are written.

use crate::text;
use chrono::{Datelike, NaiveDate, NaiveDateTime, Timelike};
use vstd::prelude::*;

verus! {

/// A calendar of the calendar tool.
#[derive(Clone, Debug)]
pub struct RcalCalendar {
    pub name: String,
    /// The written path of the directory of the calendar.
    pub path: String,
}

/// A span of time as the configuration of the calendar tool writes it.
#[derive(Clone, Copy, Debug, PartialEq, Eq, Structural)]
pub enum Span {
    Days(i64),
    Hours(i64),
    Minutes(i64),
    Zero,
}

/// A day of the calendar.
#[derive(Clone, Copy, Debug, PartialEq, Eq, Structural)]
pub struct Day {
    pub year: i32,
    pub month: u32,
    pub day: u32,
}

/// A moment: a day and a time of day.
#[derive(Clone, Copy, Debug, PartialEq, Eq, Structural)]
pub struct Moment {
    pub year: i32,
    pub month: u32,
    pub day: u32,
    pub hour: u32,
    pub minute: u32,
    pub second: u32,
}

/// A task of a calendar file.
#[derive(Clone, Debug)]
pub struct IcalTask {
    pub summary: String,
    pub start: Option<Moment>,
    pub completed: bool,
    pub file_path: String,
    pub calendar_name: String,
}

/// Why a task could not be toggled.
#[derive(Debug, PartialEq, Eq, Structural)]
pub enum ToggleError {
    /// The file holds neither an open task nor a task that is done.
    NotATask,
}

/// The moment that `chrono` reads from a text in a format; `None` where it
/// rejects the text.
pub uninterp spec fn moment_of(value: Seq<char>, format: Seq<char>) -> Option<Moment>;

/// The day that `chrono` reads from a text in a format; `None` where it
/// rejects the text.
pub uninterp spec fn day_of(value: Seq<char>, format: Seq<char>) -> Option<Day>;

/// Reads a moment with `chrono::NaiveDateTime::parse_from_str` and hands out
/// its fields. What is read depends on the text and the format alone;
/// nothing more is claimed of it.
#[verifier::external_body]
pub(crate) fn read_moment(value: &str, format: &str) -> (r: Option<Moment>)
    ensures
        r == moment_of(value@, format@),
{
    NaiveDateTime::parse_from_str(value, format).ok().map(
        |d| Moment {
            year: d.year(),
            month: d.month(),
            day: d.day(),
            hour: d.hour(),
            minute: d.minute(),
            second: d.second(),
        },
    )
}

/// Reads a day with `chrono::NaiveDate::parse_from_str` and hands out its
/// fields. What is read depends on the text and the format alone; nothing
/// more is claimed of it.
#[verifier::external_body]
pub(crate) fn read_day(value: &str, format: &str) -> (r: Option<Day>)
    ensures
        r == day_of(value@, format@),
{
    NaiveDate::parse_from_str(value, format).ok().map(
        |d| Day { year: d.year(), month: d.month(), day: d.day() },
    )
}

/// True for the ten digits.
pub open spec fn is_digit(c: char) -> bool {
    '0' <= c <= '9'
}

/// True if the text is made of digits only.
pub open spec fn all_digits(s: Seq<char>) -> bool {
    forall|i: int| 0 <= i < s.len() ==> is_digit(#[trigger] s[i])
}

/// The number that digits write in base ten.
pub open spec fn decimal(s: Seq<char>) -> int
    decreases s.len(),
{
    if s.len() == 0 {
        0
    } else {
        decimal(s.drop_last()) * 10 + (s.last() as int - '0' as int)
    }
}

/// The whole number that a text writes: digits, at least one, after a sign
/// `+` or `-` or none.
pub open spec fn integer_of(s: Seq<char>) -> Option<int> {
    if s.len() > 0 && (s[0] == '-' || s[0] == '+') {
        if s.len() > 1 && all_digits(s.skip(1)) {
            if s[0] == '-' {
                Some(-decimal(s.skip(1)))
            } else {
                Some(decimal(s.skip(1)))
            }
        } else {
            None
        }
    } else if s.len() > 0 && all_digits(s) {
        Some(decimal(s))
    } else {
        None
    }
}

/// The number that a text writes, if it fits in 64 bits.
pub open spec fn number_of(s: Seq<char>) -> Option<i64> {
    match integer_of(s) {
        Some(v) => if i64::MIN <= v <= i64::MAX {
            Some(v as i64)
        } else {
            None
        },
        None => None,
    }
}

/// The span that a text writes: a number and `d` for days, `h` for hours or
/// `m` for minutes; anything else is no time at all. Whitespace around the
/// text does not count.
pub open spec fn span_of(s: Seq<char>) -> Span {
    let t = text::trim(s);
    if t.len() > 0 && t.last() == 'd' && number_of(t.drop_last()) is Some {
        Span::Days(number_of(t.drop_last())->0)
    } else if t.len() > 0 && t.last() == 'h' && number_of(t.drop_last()) is Some {
        Span::Hours(number_of(t.drop_last())->0)
    } else if t.len() > 0 && t.last() == 'm' && number_of(t.drop_last()) is Some {
        Span::Minutes(number_of(t.drop_last())->0)
    } else {
        Span::Zero
    }
}

/// A line without the carriage return at its end, if it has one.
pub open spec fn strip_cr(line: Seq<char>) -> Seq<char> {
    if line.len() > 0 && line.last() == '\r' {
        line.drop_last()
    } else {
        line
    }
}

/// The lines of a text. A line ends with a line feed, or with a carriage
/// return and a line feed; the last line needs no end. What follows the last
/// line feed is a line unless it is empty.
pub open spec fn lines_of(s: Seq<char>) -> Seq<Seq<char>> {
    let pieces = text::split(s, '\n');
    let head = pieces.drop_last().map_values(|p: Seq<char>| strip_cr(p));
    if pieces.last().len() == 0 {
        head
    } else {
        head.push(pieces.last())
    }
}

/// What stands after the last `:` of a line; the line if it has none.
pub open spec fn after_last_colon(line: Seq<char>) -> Seq<char> {
    text::split(line, ':').last()
}

/// The start that a start line gives: what stands after its last `:`,
/// trimmed, is read as day and time if it is 15 bytes long and holds a `T`,
/// and as a day, whose start is taken, if it is made of 8 digits.
pub open spec fn start_of(line: Seq<char>) -> Option<Moment> {
    let value = text::trim(after_last_colon(line));
    if vstd::utf8::encode_utf8(value).len() == 15 && value.contains('T') {
        moment_of(value, "%Y%m%dT%H%M%S"@)
    } else if value.len() == 8 && all_digits(value) {
        match day_of(value, "%Y%m%d"@) {
            Some(d) => Some(
                Moment { year: d.year, month: d.month, day: d.day, hour: 0, minute: 0, second: 0 },
            ),
            None => None,
        }
    } else {
        None
    }
}

/// What is known of an entry after some of its lines.
pub struct EntryState {
    pub summary: Option<Seq<char>>,
    pub is_task: bool,
    pub completed: bool,
    pub start: Option<Moment>,
}

/// What is known of an entry after these lines. A summary line gives the
/// summary; the description `#TODO` makes the entry an open task, `#DONE` a
/// task that is done; a start line gives the start. Later lines win.
pub open spec fn entry_after(lines: Seq<Seq<char>>) -> EntryState
    decreases lines.len(),
{
    if lines.len() == 0 {
        EntryState { summary: None, is_task: false, completed: false, start: None }
    } else {
        let st = entry_after(lines.drop_last());
        let line = lines.last();
        if text::starts_with(line, "SUMMARY:"@) {
            EntryState { summary: Some(line.skip(8)), ..st }
        } else if line == "DESCRIPTION:#TODO"@ {
            EntryState { is_task: true, completed: false, ..st }
        } else if line == "DESCRIPTION:#DONE"@ {
            EntryState { is_task: true, completed: true, ..st }
        } else if text::starts_with(line, "DTSTART"@) {
            EntryState { start: start_of(line), ..st }
        } else {
            st
        }
    }
}

/// The text with `rep` in place of the first `pat`; `None` if `pat` does not
/// stand in it.
pub open spec fn replace_first(s: Seq<char>, pat: Seq<char>, rep: Seq<char>) -> Option<
    Seq<char>,
> {
    match text::find(s, pat) {
        Some(i) => Some(s.take(i) + rep + s.skip(i + pat.len())),
        None => None,
    }
}

/// The text of a calendar file with its task toggled: the first open task
/// is done; if there is none, the first task that is done is open again.
pub open spec fn toggled(s: Seq<char>) -> Option<Seq<char>> {
    match replace_first(s, "DESCRIPTION:#TODO"@, "DESCRIPTION:#DONE"@) {
        Some(t) => Some(t),
        None => replace_first(s, "DESCRIPTION:#DONE"@, "DESCRIPTION:#TODO"@),
    }
}

/// The number that the first digits write is at most the number that all
/// digits write.
proof fn lemma_decimal_bounds(s: Seq<char>, k: int)
    requires
        all_digits(s),
        0 <= k <= s.len(),
    ensures
        0 <= decimal(s.take(k)) <= decimal(s),
    decreases s.len() - k,
{
    lemma_decimal_nonneg(s.take(k));
    if k < s.len() {
        lemma_decimal_bounds(s, k + 1);
        assert(s.take(k + 1).drop_last() == s.take(k));
        assert(is_digit(s[k]));
        assert(s.take(k + 1).last() == s[k]);
    } else {
        assert(s.take(k) == s);
    }
}

/// Digits write a number that is not negative.
proof fn lemma_decimal_nonneg(s: Seq<char>)
    requires
        all_digits(s),
    ensures
        decimal(s) >= 0,
    decreases s.len(),
{
    if s.len() > 0 {
        assert(all_digits(s.drop_last())) by {
            assert forall|i: int| 0 <= i < s.drop_last().len() implies is_digit(
                #[trigger] s.drop_last()[i],
            ) by {
                assert(s.drop_last()[i] == s[i]);
            }
        }
        lemma_decimal_nonneg(s.drop_last());
        assert(is_digit(s[s.len() - 1]));
    }
}

/// The number that digits write, if it is at most `limit`.
fn parse_digits(chars: &Vec<char>, from: usize, limit: u64) -> (r: Option<u64>)
    requires
        from <= chars.len(),
        limit <= 9223372036854775808,
    ensures
        match r {
            Some(v) => from < chars.len() && all_digits(chars@.skip(from as int)) && v == decimal(
                chars@.skip(from as int),
            ) && v <= limit,
            None => !(from < chars.len() && all_digits(chars@.skip(from as int)) && decimal(
                chars@.skip(from as int),
            ) <= limit),
        },
{
    let ghost digits = chars@.skip(from as int);
    if from >= chars.len() {
        return None;
    }
    let mut acc: u64 = 0;
    let mut i: usize = from;
    assert(digits.take(0) == Seq::<char>::empty());
    while i < chars.len()
        invariant
            from <= i <= chars.len(),
            digits == chars@.skip(from as int),
            limit <= 9223372036854775808,
            all_digits(digits.take(i - from)),
            acc == decimal(digits.take(i - from)),
            acc <= limit,
        decreases chars.len() - i,
    {
        let c = chars[i];
        let ghost before = digits.take(i - from);
        let ghost now = digits.take(i - from + 1);
        proof {
            assert(now.drop_last() == before);
            assert(now.last() == c);
        }
        if !('0' <= c && c <= '9') {
            assert(digits[i - from] == c);
            return None;
        }
        let d: u64 = (c as u32 - '0' as u32) as u64;
        assert(all_digits(now)) by {
            assert forall|j: int| 0 <= j < now.len() implies is_digit(#[trigger] now[j]) by {
                if j < before.len() {
                    assert(now[j] == before[j]);
                }
            }
        }
        let next: u128 = acc as u128 * 10 + d as u128;
        if next > limit as u128 {
            proof {
                assert(decimal(now) == next);
                if all_digits(digits) {
                    lemma_decimal_bounds(digits, i - from + 1);
                }
            }
            return None;
        }
        acc = next as u64;
        i += 1;
    }
    assert(digits.take(digits.len() as int) == digits);
    Some(acc)
}

/// The number that a text writes, if it fits in 64 bits.
pub fn parse_number(chars: &Vec<char>) -> (r: Option<i64>)
    ensures
        r == number_of(chars@),
{
    if chars.len() == 0 {
        return None;
    }
    if chars[0] == '-' {
        match parse_digits(chars, 1, 9223372036854775808) {
            Some(v) => {
                if v == 9223372036854775808 {
                    Some(i64::MIN)
                } else {
                    Some(-(v as i64))
                }
            },
            None => {
                proof {
                    if chars@.len() > 1 && all_digits(chars@.skip(1)) {
                        lemma_decimal_nonneg(chars@.skip(1));
                    }
                }
                None
            },
        }
    } else if chars[0] == '+' {
        match parse_digits(chars, 1, 9223372036854775807) {
            Some(v) => Some(v as i64),
            None => {
                proof {
                    if chars@.len() > 1 && all_digits(chars@.skip(1)) {
                        lemma_decimal_nonneg(chars@.skip(1));
                    }
                }
                None
            },
        }
    } else {
        assert(chars@.skip(0) == chars@);
        match parse_digits(chars, 0, 9223372036854775807) {
            Some(v) => Some(v as i64),
            None => {
                proof {
                    if all_digits(chars@) {
                        lemma_decimal_nonneg(chars@);
                    }
                }
                None
            },
        }
    }
}

/// The span that a text writes.
pub fn parse_duration(s: &str) -> (r: Span)
    ensures
        r == span_of(s@),
{
    let t = text::trimmed(&text::chars_of(s));
    if t.len() == 0 {
        return Span::Zero;
    }
    let unit = t[t.len() - 1];
    let digits = text::slice(&t, 0, t.len() - 1);
    assert(digits@ == t@.drop_last());
    if unit == 'd' || unit == 'h' || unit == 'm' {
        match parse_number(&digits) {
            Some(n) => {
                if unit == 'd' {
                    Span::Days(n)
                } else if unit == 'h' {
                    Span::Hours(n)
                } else {
                    Span::Minutes(n)
                }
            },
            None => Span::Zero,
        }
    } else {
        Span::Zero
    }
}

/// The lines of a text.
pub fn lines(content: &Vec<char>) -> (r: Vec<Vec<char>>)
    ensures
        text::pieces(r@) == lines_of(content@),
{
    let pieces = text::split_on(content, '\n');
    proof {
        text::lemma_split_pieces(content@, '\n');
    }
    let ghost all = text::pieces(pieces@);
    let mut out: Vec<Vec<char>> = Vec::new();
    let mut i: usize = 0;
    assert(text::pieces(out@) =~= all.drop_last().take(0).map_values(|p: Seq<char>| strip_cr(p)));
    while i + 1 < pieces.len()
        invariant
            i + 1 <= pieces.len(),
            pieces@.len() >= 1,
            all == text::pieces(pieces@),
            text::pieces(out@) == all.drop_last().take(i as int).map_values(
                |p: Seq<char>| strip_cr(p),
            ),
        decreases pieces.len() - i,
    {
        let ghost before = text::pieces(out@);
        let piece = &pieces[i];
        let line = if piece.len() > 0 && piece[piece.len() - 1] == '\r' {
            text::slice(piece, 0, piece.len() - 1)
        } else {
            text::slice(piece, 0, piece.len())
        };
        proof {
            assert(piece@.subrange(0, piece@.len() as int) == piece@);
            assert(piece@.subrange(0, piece@.len() - 1) == piece@.drop_last());
            assert(line@ == strip_cr(piece@));
        }
        out.push(line);
        proof {
            assert(text::pieces(out@) == before.push(strip_cr(piece@)));
            assert(all.drop_last().take(i + 1).map_values(|p: Seq<char>| strip_cr(p))
                =~= before.push(strip_cr(piece@)));
        }
        i += 1;
    }
    assert(all.drop_last().take(i as int) == all.drop_last());
    let last = &pieces[pieces.len() - 1];
    if last.len() > 0 {
        let ghost before = text::pieces(out@);
        out.push(text::slice(last, 0, last.len()));
        assert(last@.subrange(0, last@.len() as int) == last@);
        assert(text::pieces(out@) == before.push(last@));
    }
    out
}

/// True if every character is a digit.
fn only_digits(chars: &Vec<char>) -> (r: bool)
    ensures
        r == all_digits(chars@),
{
    let mut i: usize = 0;
    while i < chars.len()
        invariant
            i <= chars.len(),
            forall|j: int| 0 <= j < i ==> is_digit(#[trigger] chars@[j]),
        decreases chars.len() - i,
    {
        if !('0' <= chars[i] && chars[i] <= '9') {
            return false;
        }
        i += 1;
    }
    true
}

/// The start that a start line gives.
pub fn parse_dtstart(line: &str) -> (r: Option<Moment>)
    ensures
        r == start_of(line@),
{
    let chars = text::chars_of(line);
    parse_dtstart_chars(&chars)
}

/// The start that the characters of a start line give.
pub fn parse_dtstart_chars(chars: &Vec<char>) -> (r: Option<Moment>)
    ensures
        r == start_of(chars@),
{
    let pieces = text::split_on(chars, ':');
    proof {
        text::lemma_split_pieces(chars@, ':');
    }
    let last = &pieces[pieces.len() - 1];
    assert(text::pieces(pieces@).last() == last@);
    let value = text::trimmed(last);
    let written = text::string_of(&value);
    let bytes = written.as_str().as_bytes();
    if bytes.len() == 15 && crate::commands::migrate::has_char(&value, 'T') {
        return read_moment(written.as_str(), "%Y%m%dT%H%M%S");
    }
    if value.len() == 8 && only_digits(&value) {
        return match read_day(written.as_str(), "%Y%m%d") {
            Some(d) => Some(
                Moment { year: d.year, month: d.month, day: d.day, hour: 0, minute: 0, second: 0 },
            ),
            None => None,
        };
    }
    None
}

/// Reads an entry of a calendar file. Gives the task that the entry is, or
/// `None` if it is no task. A task without summary is given a summary that
/// says so.
pub fn parse_ics_task(content: &str, file_path: &str, calendar_name: &str) -> (r: Option<
    IcalTask,
>)
    ensures
        ({
            let st = entry_after(lines_of(content@));
            if st.is_task {
                r matches Some(task) && task.summary@ == (match st.summary {
                    Some(s) => s,
                    None => "(sin título)"@,
                }) && task.start == st.start && task.completed == st.completed && task.file_path@
                    == file_path@ && task.calendar_name@ == calendar_name@
            } else {
                r is None
            }
        }),
{
    let chars = text::chars_of(content);
    let all = lines(&chars);
    let summary_mark = text::chars_of("SUMMARY:");
    let todo = text::chars_of("DESCRIPTION:#TODO");
    let done = text::chars_of("DESCRIPTION:#DONE");
    let start_mark = text::chars_of("DTSTART");
    proof {
        reveal_strlit("SUMMARY:");
    }
    let mut summary: Option<String> = None;
    let mut is_task = false;
    let mut completed = false;
    let mut start: Option<Moment> = None;
    let mut i: usize = 0;
    assert(text::pieces(all@).take(0) == Seq::<Seq<char>>::empty());
    while i < all.len()
        invariant
            i <= all.len(),
            summary_mark@ == "SUMMARY:"@,
            summary_mark@.len() == 8,
            todo@ == "DESCRIPTION:#TODO"@,
            done@ == "DESCRIPTION:#DONE"@,
            start_mark@ == "DTSTART"@,
            entry_after(text::pieces(all@).take(i as int)) == (EntryState {
                summary: match summary {
                    Some(s) => Some(s@),
                    None => None,
                },
                is_task,
                completed,
                start,
            }),
        decreases all.len() - i,
    {
        let ghost before = text::pieces(all@).take(i as int);
        let ghost now = text::pieces(all@).take(i + 1);
        proof {
            assert(now.drop_last() == before);
            assert(now.last() == all@[i as int]@);
        }
        let line = &all[i];
        if text::has_at(line, &summary_mark, 0) {
            summary = Some(text::string_of(&text::slice(line, 8, line.len())));
        } else if crate::paths::same_chars(line, &todo) {
            is_task = true;
            completed = false;
        } else if crate::paths::same_chars(line, &done) {
            is_task = true;
            completed = true;
        } else if text::has_at(line, &start_mark, 0) {
            start = parse_dtstart_chars(line);
        }
        i += 1;
    }
    assert(text::pieces(all@).take(all.len() as int) == text::pieces(all@));
    if !is_task {
        return None;
    }
    let summary = match summary {
        Some(s) => s,
        None => "(sin título)".to_owned(),
    };
    Some(
        IcalTask {
            summary,
            start,
            completed,
            file_path: file_path.to_owned(),
            calendar_name: calendar_name.to_owned(),
        },
    )
}

/// The text with `rep` in place of the first `pat`.
pub fn replaced_first(s: &Vec<char>, pat: &Vec<char>, rep: &Vec<char>) -> (r: Option<Vec<char>>)
    ensures
        match r {
            Some(t) => replace_first(s@, pat@, rep@) == Some(t@),
            None => replace_first(s@, pat@, rep@) is None,
        },
{
    match text::find_in(s, pat) {
        Some(i) => {
            let mut out = text::slice(s, 0, i);
            text::append(&mut out, rep);
            text::append(&mut out, &text::slice(s, i + pat.len(), s.len()));
            assert(out@ =~= s@.take(i as int) + rep@ + s@.skip(i + pat.len()));
            Some(out)
        },
        None => None,
    }
}

/// Toggles the task of a calendar file: an open task is done, a task that
/// is done is open again. Gives the new text of the file.
pub fn toggle_task(content: &str) -> (r: Result<String, ToggleError>)
    ensures
        match toggled(content@) {
            Some(t) => r matches Ok(s) && s@ == t,
            None => r matches Err(ToggleError::NotATask),
        },
{
    let chars = text::chars_of(content);
    let todo = text::chars_of("DESCRIPTION:#TODO");
    let done = text::chars_of("DESCRIPTION:#DONE");
    match replaced_first(&chars, &todo, &done) {
        Some(t) => Ok(text::string_of(&t)),
        None => match replaced_first(&chars, &done, &todo) {
            Some(t) => Ok(text::string_of(&t)),
            None => Err(ToggleError::NotATask),
        },
    }
}

} // verus!
