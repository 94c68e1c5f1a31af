use mad::commands::todo::{
    collect_md_tasks, padded, task_meta_date, find_separator_index, mark_tasks_in_file, move_selection, rollback_migrate,
    visible_item_count, visible_to_task_idx, Task, TaskSource,
};

fn md_task(title: &str) -> Task {
    Task {
        title: title.to_string(),
        source: TaskSource::Markdown { path: "n.md".to_string(), line_number: 1 },
        meta_date: "01/01".to_string(),
        meta_label: "n".to_string(),
    }
}

fn ical_task(title: &str) -> Task {
    Task {
        title: title.to_string(),
        source: TaskSource::Ical { file_path: "c.ics".to_string() },
        meta_date: "01/01 10:00".to_string(),
        meta_label: String::new(),
    }
}

#[test]
fn the_separator_stands_before_the_first_calendar_task() {
    let tasks = vec![md_task("a"), md_task("b"), ical_task("c"), ical_task("d")];
    assert_eq!(find_separator_index(&tasks), Some(2));
    assert_eq!(visible_item_count(&tasks, Some(2)), 5);
    assert_eq!(find_separator_index(&vec![md_task("a")]), None);
    assert_eq!(find_separator_index(&vec![ical_task("a")]), None);
    assert_eq!(find_separator_index(&vec![]), None);
    assert_eq!(visible_item_count(&vec![md_task("a")], None), 1);
    // a calendar task first: the separator stands at the top
    assert_eq!(find_separator_index(&vec![ical_task("c"), md_task("a")]), Some(0));
}

#[test]
fn places_map_to_tasks_past_the_separator() {
    assert_eq!(visible_to_task_idx(0, Some(2)), Some(0));
    assert_eq!(visible_to_task_idx(1, Some(2)), Some(1));
    assert_eq!(visible_to_task_idx(2, Some(2)), None);
    assert_eq!(visible_to_task_idx(3, Some(2)), Some(2));
    assert_eq!(visible_to_task_idx(4, None), Some(4));
}

#[test]
fn the_selection_skips_the_separator_and_wraps() {
    assert_eq!(move_selection(Some(1), 5, Some(2), true), 3);
    assert_eq!(move_selection(Some(3), 5, Some(2), false), 1);
    assert_eq!(move_selection(Some(4), 5, Some(2), true), 0);
    assert_eq!(move_selection(Some(0), 5, Some(2), false), 4);
    assert_eq!(move_selection(None, 3, None, true), 1);
    assert_eq!(move_selection(Some(0), 1, None, true), 0);
    // the separator at the top or at the bottom
    assert_eq!(move_selection(Some(2), 3, Some(0), true), 1);
    assert_eq!(move_selection(Some(0), 3, Some(2), false), 1);
}

#[test]
fn open_tasks_are_lines_that_begin_with_the_open_box() {
    let tasks = collect_md_tasks(
        "# Title\n- [ ] first  \n  - [ ] indented\n- [x] done\n```\n- [ ] in code\n```\n- [ ] last\n- [ ]",
    );
    assert_eq!(tasks.len(), 2);
    assert_eq!(tasks[0].title, "first");
    assert_eq!(tasks[0].line_number, 2);
    assert_eq!(tasks[1].title, "last");
    assert_eq!(tasks[1].line_number, 8);
    assert!(collect_md_tasks("").is_empty());
}

#[test]
fn marking_replaces_the_box_of_the_chosen_lines() {
    let content = "- [ ] a\n- [ ] b\ntext\n- [ ] c";
    let (text, count) = mark_tasks_in_file(content, &vec![1, 4, 3, 0, 9, 1], "- [x] ");
    assert_eq!(count, 2);
    assert_eq!(text.unwrap(), "- [x] a\n- [ ] b\ntext\n- [x] c");
    let (text, count) = mark_tasks_in_file(content, &vec![3], "- [x] ");
    assert_eq!(count, 0);
    assert!(text.is_none());
    let (text, count) = mark_tasks_in_file(content, &vec![2], "- [M] ");
    assert_eq!(count, 1);
    assert_eq!(text.unwrap(), "- [ ] a\n- [M] b\ntext\n- [ ] c");
}

#[test]
fn a_handing_over_can_be_taken_back() {
    assert_eq!(rollback_migrate("- [M] a\n- [ ] b", 1).unwrap(), "- [ ] a\n- [ ] b");
    assert!(rollback_migrate("- [M] a\n- [ ] b", 2).is_none());
    assert!(rollback_migrate("- [M] a", 0).is_none());
    assert!(rollback_migrate("- [M] a", 2).is_none());
}

#[test]
fn the_name_of_a_diary_note_gives_day_and_month() {
    assert_eq!(task_meta_date("2025-02-05").as_deref(), Some("05/02"));
    assert_eq!(task_meta_date("2025-12-31").as_deref(), Some("31/12"));
    assert!(task_meta_date("2025-02-30").is_none());
    assert!(task_meta_date("notes").is_none());
    let shown: String = padded(7).iter().collect();
    assert_eq!(shown, "07");
    let shown: String = padded(123).iter().collect();
    assert_eq!(shown, "123");
}
