use chrono::{Duration, NaiveDate, NaiveDateTime};
use mad::commands::rcal_tasks::{
    parse_dtstart, parse_duration, parse_ics_task, parse_number, toggle_task, Moment, Span,
    ToggleError,
};

fn as_datetime(m: Moment) -> NaiveDateTime {
    NaiveDate::from_ymd_opt(m.year, m.month, m.day)
        .unwrap()
        .and_hms_opt(m.hour, m.minute, m.second)
        .unwrap()
}

fn as_duration(s: Span) -> Duration {
    match s {
        Span::Days(n) => Duration::days(n),
        Span::Hours(n) => Duration::hours(n),
        Span::Minutes(n) => Duration::minutes(n),
        Span::Zero => Duration::zero(),
    }
}

#[test]
fn test_parse_dtstart_datetime() {
    let line = "DTSTART:20250215T143000";
    let result = parse_dtstart(line);
    assert!(result.is_some());
    let dt = as_datetime(result.unwrap());
    assert_eq!(dt.format("%Y-%m-%d %H:%M:%S").to_string(), "2025-02-15 14:30:00");
}

#[test]
fn test_parse_dtstart_date_only() {
    let line = "DTSTART;VALUE=DATE:20250215";
    let result = parse_dtstart(line);
    assert!(result.is_some());
    let dt = as_datetime(result.unwrap());
    assert_eq!(dt.format("%Y-%m-%d").to_string(), "2025-02-15");
}

#[test]
fn test_parse_dtstart_with_tzid() {
    let line = "DTSTART;TZID=America/Mexico_City:20250215T143000";
    let result = parse_dtstart(line);
    assert!(result.is_some());
}

#[test]
fn test_parse_ics_task_todo() {
    let ics = "BEGIN:VEVENT\nSUMMARY:Test task\nDESCRIPTION:#TODO\nDTSTART:20250215T100000\nEND:VEVENT";
    let result = parse_ics_task(ics, "/tmp/test.ics", "default");
    assert!(result.is_some());
    let task = result.unwrap();
    assert_eq!(task.summary, "Test task");
    assert!(!task.completed);
    assert!(task.start.is_some());
}

#[test]
fn test_parse_ics_task_done() {
    let ics = "BEGIN:VEVENT\nSUMMARY:Done task\nDESCRIPTION:#DONE\nEND:VEVENT";
    let result = parse_ics_task(ics, "/tmp/test.ics", "cal");
    assert!(result.is_some());
    let task = result.unwrap();
    assert!(task.completed);
}

#[test]
fn test_parse_ics_not_a_task() {
    let ics = "BEGIN:VEVENT\nSUMMARY:Regular event\nDESCRIPTION:Just an event\nEND:VEVENT";
    let result = parse_ics_task(ics, "/tmp/test.ics", "cal");
    assert!(result.is_none());
}

#[test]
fn test_parse_duration_days() {
    assert_eq!(as_duration(parse_duration("2d")), Duration::days(2));
    assert_eq!(as_duration(parse_duration("7d")), Duration::days(7));
}

#[test]
fn test_parse_duration_hours() {
    assert_eq!(as_duration(parse_duration("3h")), Duration::hours(3));
}

#[test]
fn test_parse_duration_minutes() {
    assert_eq!(as_duration(parse_duration("60m")), Duration::minutes(60));
    assert_eq!(as_duration(parse_duration("25m")), Duration::minutes(25));
}

#[test]
fn test_parse_duration_invalid() {
    assert_eq!(as_duration(parse_duration("abc")), Duration::zero());
    assert_eq!(as_duration(parse_duration("")), Duration::zero());
}

#[test]
fn spans_are_a_number_and_a_unit() {
    assert_eq!(parse_duration(" 2d\n"), Span::Days(2));
    assert_eq!(parse_duration("-3h"), Span::Hours(-3));
    assert_eq!(parse_duration("+15m"), Span::Minutes(15));
    assert_eq!(parse_duration("d"), Span::Zero);
    assert_eq!(parse_duration("2 d"), Span::Zero);
    assert_eq!(parse_duration("2D"), Span::Zero);
    assert_eq!(parse_duration("2.5h"), Span::Zero);
    assert_eq!(parse_duration("9223372036854775808d"), Span::Zero);
    assert_eq!(parse_duration("9223372036854775807m"), Span::Minutes(i64::MAX));
}

#[test]
fn numbers_are_read_as_std_reads_them() {
    let cases = [
        "0", "7", "007", "-0", "+0", "-", "+", "", "12a", "a12", " 1", "1 ", "--1", "+-1",
        "9223372036854775807", "9223372036854775808", "-9223372036854775808",
        "-9223372036854775809", "99999999999999999999999999", "-99999999999999999999999999",
        "١٢", "1_000",
    ];
    for c in cases {
        let chars: Vec<char> = c.chars().collect();
        assert_eq!(parse_number(&chars), c.parse::<i64>().ok(), "{:?}", c);
    }
}

#[test]
fn a_start_is_read_from_what_follows_the_last_colon() {
    let m = parse_dtstart("DTSTART;VALUE=DATE-TIME: 20231231T235959 ").unwrap();
    assert_eq!(
        m,
        Moment { year: 2023, month: 12, day: 31, hour: 23, minute: 59, second: 59 }
    );
    let m = parse_dtstart("20240229").unwrap();
    assert_eq!(m, Moment { year: 2024, month: 2, day: 29, hour: 0, minute: 0, second: 0 });
    assert!(parse_dtstart("DTSTART:20230229").is_none());
    assert!(parse_dtstart("DTSTART:20250215T250000").is_none());
    assert!(parse_dtstart("DTSTART:2025021").is_none());
    assert!(parse_dtstart("DTSTART:20250215 143000").is_none());
    assert!(parse_dtstart("DTSTART:").is_none());
}

#[test]
fn an_entry_is_read_line_by_line() {
    let task = parse_ics_task(
        "SUMMARY:first\r\nDESCRIPTION:#DONE\r\nSUMMARY:second\r\nDESCRIPTION:#TODO\r\nDTSTART:20250101\r\n",
        "f.ics",
        "work",
    )
    .unwrap();
    assert_eq!(task.summary, "second");
    assert!(!task.completed);
    assert_eq!(task.start.unwrap().day, 1);
    assert_eq!(task.file_path, "f.ics");
    assert_eq!(task.calendar_name, "work");
    let task = parse_ics_task("DESCRIPTION:#TODO", "f", "c").unwrap();
    assert_eq!(task.summary, "(sin título)");
    assert!(task.start.is_none());
    // the description must be the whole line
    assert!(parse_ics_task("DESCRIPTION:#TODO later", "f", "c").is_none());
    assert!(parse_ics_task(" DESCRIPTION:#TODO", "f", "c").is_none());
}

#[test]
fn toggling_switches_between_open_and_done() {
    assert_eq!(
        toggle_task("A\nDESCRIPTION:#TODO\nB\nDESCRIPTION:#TODO").unwrap(),
        "A\nDESCRIPTION:#DONE\nB\nDESCRIPTION:#TODO"
    );
    assert_eq!(toggle_task("DESCRIPTION:#DONE").unwrap(), "DESCRIPTION:#TODO");
    assert_eq!(
        toggle_task("DESCRIPTION:#DONE\nDESCRIPTION:#TODO").unwrap(),
        "DESCRIPTION:#DONE\nDESCRIPTION:#DONE"
    );
    assert_eq!(toggle_task("SUMMARY:x").unwrap_err(), ToggleError::NotATask);
}
