//! The list of open tasks: which lines of a note are tasks, how tasks are
//! marked, and how the selection moves through the list.

use crate::commands::rcal_tasks::{day_of, read_day};
use crate::text;
use crate::vault::scan::{is_fence_line, line_is_fence};
use vstd::prelude::*;

verus! {

/// Where a task comes from.
#[derive(Clone, Debug)]
pub enum TaskSource {
    /// A line of a note; lines are counted from 1.
    Markdown { path: String, line_number: usize },
    /// An entry of a calendar.
    Ical { file_path: String },
}

/// A task of the list.
#[derive(Clone, Debug)]
pub struct Task {
    pub title: String,
    pub source: TaskSource,
    pub meta_date: String,
    pub meta_label: String,
}

/// An open task in a note.
#[derive(Clone, Debug)]
pub struct TaskLine {
    pub title: String,
    /// The line of the task, counted from 1.
    pub line_number: usize,
}

/// What marks an open task at the start of a line.
pub open spec fn open_box() -> Seq<char> {
    "- [ ] "@
}

/// What marks a task that was handed over to the calendar.
pub open spec fn moved_box() -> Seq<char> {
    "- [M] "@
}

/// True if the task comes from a note.
pub open spec fn is_markdown(t: Task) -> bool {
    t.source is Markdown
}

/// The position of the first task that comes from a calendar, or the number
/// of tasks if there is none.
pub open spec fn first_ical(tasks: Seq<Task>) -> int
    decreases tasks.len(),
{
    if tasks.len() == 0 || !is_markdown(tasks[0]) {
        0
    } else {
        1 + first_ical(tasks.drop_first())
    }
}

/// True if one of the tasks comes from a note.
pub open spec fn has_markdown(tasks: Seq<Task>) -> bool {
    exists|i: int| 0 <= i < tasks.len() && is_markdown(#[trigger] tasks[i])
}

/// Where the separator stands in the list that is shown: before the first
/// task of a calendar, if there are tasks of notes and tasks of calendars.
pub open spec fn separator(tasks: Seq<Task>) -> Option<int> {
    if has_markdown(tasks) && first_ical(tasks) < tasks.len() {
        Some(first_ical(tasks))
    } else {
        None
    }
}

/// The task that stands at a place of the list that is shown; none at the
/// place of the separator.
pub open spec fn task_at(visible: int, sep: Option<int>) -> Option<int> {
    match sep {
        Some(s) => if visible == s {
            None
        } else if visible > s {
            Some(visible - 1)
        } else {
            Some(visible)
        },
        None => Some(visible),
    }
}

/// One step from `current` through a list of `max` places, round the ends.
pub open spec fn step(current: int, max: int, down: bool) -> int {
    if down {
        if current + 1 >= max {
            0
        } else {
            current + 1
        }
    } else if current == 0 {
        max - 1
    } else {
        current - 1
    }
}

/// Where the selection goes from `current`: one step, and one more if the
/// first leads to the separator.
pub open spec fn next_selection(current: int, max: int, sep: Option<int>, down: bool) -> int {
    let next = step(current, max, down);
    if sep == Some(next) {
        step(next, max, down)
    } else {
        next
    }
}

/// The open tasks of some lines from line `i` on. A line is an open task if
/// it begins with `- [ ] ` and stands outside fenced code blocks; what
/// follows the box, without trailing whitespace, is the title.
pub open spec fn tasks_from(lines: Seq<Seq<char>>, i: int, in_code: bool) -> Seq<
    (Seq<char>, int),
>
    decreases lines.len() - i,
{
    if i < 0 || i >= lines.len() {
        Seq::empty()
    } else if is_fence_line(lines[i]) {
        tasks_from(lines, i + 1, !in_code)
    } else if !in_code && text::starts_with(lines[i], open_box()) {
        seq![(text::trim_end(lines[i].skip(6)), i + 1)] + tasks_from(lines, i + 1, in_code)
    } else {
        tasks_from(lines, i + 1, in_code)
    }
}

/// The open tasks of a note: title and line.
pub open spec fn open_tasks(content: Seq<char>) -> Seq<(Seq<char>, int)> {
    tasks_from(text::split(content, '\n'), 0, false)
}

/// What a list of task lines stands for.
pub open spec fn task_line_views(lines: Seq<TaskLine>) -> Seq<(Seq<char>, int)> {
    lines.map_values(|t: TaskLine| (t.title@, t.line_number as int))
}

/// The lines with line `number` marked: if there is such a line and it
/// begins with the open box, `replacement` takes the place of the box.
pub open spec fn mark_line(lines: Seq<Seq<char>>, number: int, replacement: Seq<char>) -> Seq<
    Seq<char>,
> {
    if 1 <= number <= lines.len() && text::starts_with(lines[number - 1], open_box()) {
        lines.update(number - 1, replacement + lines[number - 1].skip(6))
    } else {
        lines
    }
}

/// The lines with each of the lines `numbers` marked, one after the other.
pub open spec fn mark_lines(
    lines: Seq<Seq<char>>,
    numbers: Seq<usize>,
    replacement: Seq<char>,
) -> Seq<Seq<char>>
    decreases numbers.len(),
{
    if numbers.len() == 0 {
        lines
    } else {
        mark_line(
            mark_lines(lines, numbers.drop_last(), replacement),
            numbers.last() as int,
            replacement,
        )
    }
}

/// How many of the lines `numbers` were marked.
pub open spec fn marked_count(
    lines: Seq<Seq<char>>,
    numbers: Seq<usize>,
    replacement: Seq<char>,
) -> int
    decreases numbers.len(),
{
    if numbers.len() == 0 {
        0
    } else {
        let before = mark_lines(lines, numbers.drop_last(), replacement);
        let n = numbers.last() as int;
        marked_count(lines, numbers.drop_last(), replacement) + (if 1 <= n <= before.len()
            && text::starts_with(before[n - 1], open_box()) {
            1int
        } else {
            0
        })
    }
}

/// The lines with the moved box of line `number` turned into an open box
/// again; `None` if the line is not there or has no moved box.
pub open spec fn rolled_back(lines: Seq<Seq<char>>, number: int) -> Option<Seq<Seq<char>>> {
    if 1 <= number <= lines.len() && text::starts_with(lines[number - 1], moved_box()) {
        Some(lines.update(number - 1, open_box() + lines[number - 1].skip(6)))
    } else {
        None
    }
}

/// A number below a hundred in two digits; any other number as it is
/// written.
pub open spec fn two_digits(n: nat) -> Seq<char> {
    if n < 10 {
        seq!['0'] + text::digits_of(n)
    } else {
        text::digits_of(n)
    }
}

/// The day that the name of a diary note gives, as day and month; `None`
/// where the name is not a day written as year, month and day.
pub open spec fn diary_date(stem: Seq<char>) -> Option<Seq<char>> {
    match day_of(stem, "%Y-%m-%d"@) {
        Some(d) => Some(two_digits(d.day as nat) + seq!['/'] + two_digits(d.month as nat)),
        None => None,
    }
}

/// A number in at least two digits.
pub fn padded(n: u32) -> (r: Vec<char>)
    ensures
        r@ == two_digits(n as nat),
{
    let digits = text::number_text(n as u64);
    if n < 10 {
        let mut out: Vec<char> = Vec::new();
        out.push('0');
        text::append(&mut out, &digits);
        out
    } else {
        digits
    }
}

/// The date that is shown with the tasks of a diary note: the day that the
/// name of the note gives, as day and month.
pub fn task_meta_date(stem: &str) -> (r: Option<String>)
    ensures
        match diary_date(stem@) {
            Some(d) => r matches Some(t) && t@ == d,
            None => r is None,
        },
{
    match read_day(stem, "%Y-%m-%d") {
        Some(d) => {
            let mut out = padded(d.day);
            out.push('/');
            text::append(&mut out, &padded(d.month));
            assert(out@ =~= two_digits(d.day as nat) + seq!['/'] + two_digits(d.month as nat));
            Some(text::string_of(&out))
        },
        None => None,
    }
}

/// True if the task comes from a note.
pub fn from_note(task: &Task) -> (r: bool)
    ensures
        r == is_markdown(*task),
{
    match task.source {
        TaskSource::Markdown { .. } => true,
        TaskSource::Ical { .. } => false,
    }
}

/// The first task that is no task of a note is the first calendar task.
proof fn lemma_first_ical(tasks: Seq<Task>, k: int)
    requires
        0 <= k <= tasks.len(),
        forall|j: int| 0 <= j < k ==> is_markdown(#[trigger] tasks[j]),
        k < tasks.len() ==> !is_markdown(tasks[k]),
    ensures
        first_ical(tasks) == k,
    decreases tasks.len(),
{
    if k > 0 {
        let t = tasks.drop_first();
        assert forall|j: int| 0 <= j < k - 1 implies is_markdown(#[trigger] t[j]) by {
            assert(t[j] == tasks[j + 1]);
        }
        assert(is_markdown(tasks[0]));
        lemma_first_ical(t, k - 1);
    }
}

/// Where the separator stands in the list that is shown.
pub fn find_separator_index(tasks: &Vec<Task>) -> (r: Option<usize>)
    ensures
        match r {
            Some(i) => separator(tasks@) == Some(i as int),
            None => separator(tasks@) is None,
        },
{
    let mut i: usize = 0;
    while i < tasks.len() && from_note(&tasks[i])
        invariant
            i <= tasks.len(),
            forall|j: int| 0 <= j < i ==> is_markdown(#[trigger] tasks@[j]),
        decreases tasks.len() - i,
    {
        i += 1;
    }
    proof {
        lemma_first_ical(tasks@, i as int);
    }
    if i == tasks.len() {
        return None;
    }
    let mut k: usize = 0;
    while k < tasks.len()
        invariant
            k <= tasks.len(),
            i < tasks.len(),
            first_ical(tasks@) == i,
            forall|j: int| 0 <= j < k ==> !is_markdown(#[trigger] tasks@[j]),
        decreases tasks.len() - k,
    {
        if from_note(&tasks[k]) {
            assert(is_markdown(tasks@[k as int]));
            return Some(i);
        }
        k += 1;
    }
    None
}

/// How many places the list that is shown has: the tasks, and the separator
/// if there is one.
pub fn visible_item_count(tasks: &Vec<Task>, separator_idx: Option<usize>) -> (r: usize)
    requires
        tasks@.len() < usize::MAX,
    ensures
        r == tasks@.len() + (if separator_idx is Some {
            1int
        } else {
            0
        }),
{
    if separator_idx.is_some() {
        tasks.len() + 1
    } else {
        tasks.len()
    }
}

/// The task that stands at a place of the list that is shown.
pub fn visible_to_task_idx(visible: usize, separator_idx: Option<usize>) -> (r: Option<usize>)
    ensures
        match r {
            Some(i) => task_at(
                visible as int,
                match separator_idx {
                    Some(s) => Some(s as int),
                    None => None,
                },
            ) == Some(i as int),
            None => task_at(
                visible as int,
                match separator_idx {
                    Some(s) => Some(s as int),
                    None => None,
                },
            ) is None,
        },
{
    match separator_idx {
        Some(sep) => {
            if visible == sep {
                None
            } else if visible > sep {
                Some(visible - 1)
            } else {
                Some(visible)
            }
        },
        None => Some(visible),
    }
}

/// Where the selection goes from `current` in a list of `max` places: one
/// place down or up, round the ends, and past the separator.
pub fn move_selection(current: Option<usize>, max: usize, separator_idx: Option<usize>, down: bool) -> (r:
    usize)
    requires
        max > 0,
    ensures
        r == next_selection(
            match current {
                Some(c) => c as int,
                None => 0,
            },
            max as int,
            match separator_idx {
                Some(s) => Some(s as int),
                None => None,
            },
            down,
        ),
{
    let current = match current {
        Some(c) => c,
        None => 0,
    };
    let next = one_step(current, max, down);
    match separator_idx {
        Some(sep) => {
            if next == sep {
                one_step(next, max, down)
            } else {
                next
            }
        },
        None => next,
    }
}

/// One step from `current` through a list of `max` places, round the ends.
pub fn one_step(current: usize, max: usize, down: bool) -> (r: usize)
    requires
        max > 0,
    ensures
        r == step(current as int, max as int, down),
{
    if down {
        if current >= max - 1 {
            0
        } else {
            current + 1
        }
    } else if current == 0 {
        max - 1
    } else {
        current - 1
    }
}

/// The open tasks of a note.
pub fn collect_md_tasks(content: &str) -> (r: Vec<TaskLine>)
    ensures
        task_line_views(r@) == open_tasks(content@),
{
    let chars = text::chars_of(content);
    let lines = text::split_on(&chars, '\n');
    let marker = text::chars_of("- [ ] ");
    proof {
        reveal_strlit("- [ ] ");
    }
    let ghost all = text::pieces(lines@);
    let mut tasks: Vec<TaskLine> = Vec::new();
    let mut in_code_block = false;
    let mut i: usize = 0;
    assert(task_line_views(tasks@) + open_tasks(content@) == open_tasks(content@));
    while i < lines.len()
        invariant
            i <= lines.len(),
            all == text::pieces(lines@),
            marker@ == open_box(),
            marker@.len() == 6,
            open_tasks(content@) == task_line_views(tasks@) + tasks_from(
                all,
                i as int,
                in_code_block,
            ),
        decreases lines.len() - i,
    {
        let ghost before = task_line_views(tasks@);
        assert(all[i as int] == lines@[i as int]@);
        if line_is_fence(&lines[i]) {
            in_code_block = !in_code_block;
        } else if !in_code_block && text::has_at(&lines[i], &marker, 0) {
            let rest = text::slice(&lines[i], 6, lines[i].len());
            let title = text::string_of(&text::trimmed_end(&rest));
            let task = TaskLine { title, line_number: i + 1 };
            tasks.push(task);
            proof {
                assert(task_line_views(tasks@) == before.push((title@, i + 1)));
                assert(before + (seq![(title@, i + 1)] + tasks_from(all, i + 1, false))
                    == before.push((title@, i + 1)) + tasks_from(all, i + 1, false));
            }
        }
        i += 1;
    }
    assert(task_line_views(tasks@) + Seq::<(Seq<char>, int)>::empty() == task_line_views(tasks@));
    tasks
}

/// Marks tasks of a note: in each of the lines `line_numbers` that begins
/// with the open box, `replacement` takes the place of the box. Gives the new
/// text and the number of lines that were marked; no text if none was.
pub fn mark_tasks_in_file(content: &str, line_numbers: &Vec<usize>, replacement: &str) -> (r: (
    Option<String>,
    usize,
))
    ensures
        ({
            let lines = text::split(content@, '\n');
            let count = marked_count(lines, line_numbers@, replacement@);
            &&& r.1 == count
            &&& count == 0 ==> r.0 is None
            &&& count > 0 ==> (r.0 matches Some(t) && t@ == text::join(
                mark_lines(lines, line_numbers@, replacement@),
                seq!['\n'],
            ))
        }),
{
    let chars = text::chars_of(content);
    let mut lines = text::split_on(&chars, '\n');
    let marker = text::chars_of("- [ ] ");
    let with = text::chars_of(replacement);
    proof {
        reveal_strlit("- [ ] ");
    }
    let ghost start = text::pieces(lines@);
    let mut updated: usize = 0;
    let mut k: usize = 0;
    assert(line_numbers@.take(0) == Seq::<usize>::empty());
    while k < line_numbers.len()
        invariant
            k <= line_numbers.len(),
            updated <= k,
            marker@ == open_box(),
            marker@.len() == 6,
            with@ == replacement@,
            text::pieces(lines@) == mark_lines(start, line_numbers@.take(k as int), replacement@),
            updated == marked_count(start, line_numbers@.take(k as int), replacement@),
        decreases line_numbers.len() - k,
    {
        let ghost seen = line_numbers@.take(k as int);
        let ghost now = line_numbers@.take(k + 1);
        let ghost before = text::pieces(lines@);
        proof {
            assert(now.drop_last() == seen);
            assert(now.last() == line_numbers@[k as int]);
        }
        let n = line_numbers[k];
        if n >= 1 && n <= lines.len() {
            assert(before[n - 1] == lines@[n - 1]@);
            if text::has_at(&lines[n - 1], &marker, 0) {
                let mut line = text::slice(&with, 0, with.len());
                let rest = text::slice(&lines[n - 1], 6, lines[n - 1].len());
                text::append(&mut line, &rest);
                assert(with@.subrange(0, with@.len() as int) == with@);
                let ghost line_view = line@;
                lines.set(n - 1, line);
                assert(text::pieces(lines@) =~= before.update(n - 1, line_view));
                updated += 1;
            }
        }
        k += 1;
    }
    assert(line_numbers@.take(line_numbers.len() as int) == line_numbers@);
    if updated > 0 {
        let newline: Vec<char> = vec!['\n'];
        assert(newline@ =~= seq!['\n']);
        let out = text::join_chars(&lines, &newline);
        (Some(text::string_of(&out)), updated)
    } else {
        (None, updated)
    }
}

/// Takes back the handing over of a task: the moved box of line
/// `line_number` becomes an open box again. Gives the new text, or `None`
/// if the line is not there or has no moved box.
pub fn rollback_migrate(content: &str, line_number: usize) -> (r: Option<String>)
    ensures
        match rolled_back(text::split(content@, '\n'), line_number as int) {
            Some(lines) => r matches Some(t) && t@ == text::join(lines, seq!['\n']),
            None => r is None,
        },
{
    let chars = text::chars_of(content);
    let mut lines = text::split_on(&chars, '\n');
    let marker = text::chars_of("- [M] ");
    let open = text::chars_of("- [ ] ");
    proof {
        reveal_strlit("- [M] ");
        reveal_strlit("- [ ] ");
    }
    let ghost before = text::pieces(lines@);
    if line_number >= 1 && line_number <= lines.len() {
        assert(before[line_number - 1] == lines@[line_number - 1]@);
        if text::has_at(&lines[line_number - 1], &marker, 0) {
            let mut line = open;
            let rest = text::slice(&lines[line_number - 1], 6, lines[line_number - 1].len());
            text::append(&mut line, &rest);
            let ghost line_view = line@;
            lines.set(line_number - 1, line);
            assert(text::pieces(lines@) =~= before.update(line_number - 1, line_view));
            let newline: Vec<char> = vec!['\n'];
            assert(newline@ =~= seq!['\n']);
            let out = text::join_chars(&lines, &newline);
            return Some(text::string_of(&out));
        }
    }
    None
}

} // verus!
