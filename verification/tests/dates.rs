use orgstand::calendar::Date;
use orgstand::dates::{
    display_date_on, find_timestamps, get_display_date, parse_any_date, parse_any_time,
    parse_existing_date, parse_existing_time, parse_org_timestamp, timestamp_with_date,
};
use orgstand::types::{DateInputType, TodoEntry};
use std::path::PathBuf;

fn entry(content: &str) -> TodoEntry {
    TodoEntry {
        keyword: "TODO".to_string(),
        title: "Task".to_string(),
        tags: vec![],
        file_path: PathBuf::from("test.org"),
        content: content.to_string(),
        level: 1,
    }
}

fn date(year: i32, month: u32, day: u32) -> Date {
    Date { year, month, day }
}

#[test]
fn test_parse_org_timestamp_date_only() {
    let (date, time) = parse_org_timestamp("2026-03-16 Mon").unwrap();
    assert_eq!(date.to_string(), "2026-03-16");
    assert!(time.is_none());
}

#[test]
fn test_parse_org_timestamp_with_time() {
    let (date, time) = parse_org_timestamp("2026-03-16 Mon 09:30").unwrap();
    assert_eq!(date.to_string(), "2026-03-16");
    assert_eq!(time, Some((9, 30)));
}

#[test]
fn test_parse_org_timestamp_invalid() {
    assert!(parse_org_timestamp("not-a-date").is_none());
}

#[test]
fn test_find_timestamps_no_keyword() {
    let content = "Some text <2026-03-16 Mon> and <2026-03-17 Tue>";
    let results: Vec<_> = find_timestamps(content, None);
    assert_eq!(results.len(), 2);
    assert!(results[0].contains("2026-03-16"));
    assert!(results[1].contains("2026-03-17"));
}

#[test]
fn test_find_timestamps_with_keyword() {
    let content = "SCHEDULED: <2026-03-16 Mon>\nDEADLINE: <2026-03-20 Fri>";
    let results: Vec<_> = find_timestamps(content, Some("SCHEDULED:"));
    assert_eq!(results.len(), 1);
    assert!(results[0].contains("2026-03-16"));
}

#[test]
fn test_parse_existing_date_scheduled() {
    let content = "* TODO Task\nSCHEDULED: <2026-03-16 Mon>\n";
    let date = parse_existing_date(content, &DateInputType::Scheduled).unwrap();
    assert_eq!(date.to_string(), "2026-03-16");
}

#[test]
fn test_parse_existing_date_deadline() {
    let content = "* TODO Task\nDEADLINE: <2026-04-01 Wed>\n";
    let date = parse_existing_date(content, &DateInputType::Deadline).unwrap();
    assert_eq!(date.to_string(), "2026-04-01");
}

#[test]
fn test_parse_any_date() {
    let content = "Some note with <2026-05-10 Sun> inline.";
    let date = parse_any_date(content).unwrap();
    assert_eq!(date.to_string(), "2026-05-10");
}

#[test]
fn test_parse_existing_time() {
    let content = "SCHEDULED: <2026-03-16 Mon 14:45>\n";
    let (h, m) = parse_existing_time(content, &DateInputType::Scheduled);
    assert_eq!(h, 14);
    assert_eq!(m, 45);
}

#[test]
fn test_parse_existing_time_missing() {
    let content = "SCHEDULED: <2026-03-16 Mon>\n";
    let (h, m) = parse_existing_time(content, &DateInputType::Scheduled);
    assert_eq!(h, 0);
    assert_eq!(m, 0);
}

#[test]
fn timestamp_fields_and_clock_edges() {
    let (d, t) = parse_org_timestamp("  2026-02-28   Sat   23:59  ").unwrap();
    assert_eq!(d, date(2026, 2, 28));
    assert_eq!(t, Some((23, 59)));
    assert_eq!(parse_org_timestamp("2026-02-30 Mon"), None);
    assert_eq!(parse_org_timestamp(""), None);
    assert_eq!(parse_org_timestamp("2026-03-16 Mon 9:30:00").unwrap().1, None);
    assert_eq!(parse_org_timestamp("2026-03-16 Mon +9:07").unwrap().1, Some((9, 7)));
    assert_eq!(parse_org_timestamp("2026-03-16 Mon -9:07").unwrap().1, None);
    assert_eq!(parse_org_timestamp("2026-03-16 Mon 99999999999:07").unwrap().1, None);
    assert_eq!(parse_org_timestamp("2026-03-16 09:30").unwrap().1, None);
}

#[test]
fn timestamps_follow_the_keyword_and_the_brackets() {
    let content = "x <a> DEADLINE: <b> <c\nno close <d\r\nDEADLINE:<e>\n";
    assert_eq!(find_timestamps(content, None), vec!["a", "b", "e"]);
    assert_eq!(find_timestamps(content, Some("DEADLINE:")), vec!["b", "e"]);
    assert_eq!(find_timestamps("<<x>y>", None), vec!["<x"]);
    assert!(find_timestamps("", None).is_empty());
}

#[test]
fn first_readable_date_is_taken() {
    let content = "SCHEDULED: <soon> <2026-07-01 Wed 08:15>\n<2026-01-01 Thu>";
    assert_eq!(
        parse_existing_date(content, &DateInputType::Scheduled),
        Some(date(2026, 7, 1))
    );
    assert_eq!(parse_any_date(content), Some(date(2026, 7, 1)));
    assert_eq!(parse_any_time(content), (8, 15));
    assert_eq!(parse_existing_date(content, &DateInputType::Deadline), None);
    assert_eq!(parse_existing_time(content, &DateInputType::Deadline), (0, 0));
}

#[test]
fn display_date_is_the_nearest_date() {
    let todo = entry("* TODO Task\nSCHEDULED: <2026-03-10 Tue> DEADLINE: <2026-03-20 Fri>\n");
    assert_eq!(display_date_on(&todo, &date(2026, 3, 19)), Some(date(2026, 3, 20)));
    assert_eq!(display_date_on(&todo, &date(2026, 3, 11)), Some(date(2026, 3, 10)));
    assert_eq!(display_date_on(&todo, &date(2026, 3, 15)), Some(date(2026, 3, 10)));
    assert_eq!(display_date_on(&entry("* TODO Task\n"), &date(2026, 3, 15)), None);
}

#[test]
fn display_date_from_the_clock() {
    let todo = entry("* TODO Task\n<2026-03-10 Tue>\n");
    assert_eq!(get_display_date(&todo), Some(date(2026, 3, 10)));
    assert_eq!(get_display_date(&entry("no dates")), None);
}

#[test]
fn timestamp_takes_the_given_date_and_the_third_word_clock() {
    let d = date(1999, 12, 31);
    assert_eq!(timestamp_with_date("2026-03-16 Mon 09:30", Some(d)), Some((d, Some((9, 30)))));
    assert_eq!(timestamp_with_date("anything", Some(d)), Some((d, None)));
    assert_eq!(timestamp_with_date("a b 7:5:1", Some(d)), Some((d, None)));
    assert_eq!(timestamp_with_date("2026-03-16 Mon 09:30", None), None);
    assert_eq!(timestamp_with_date("   ", Some(d)), None);
}

#[test]
fn timestamps_split_at_line_breaks() {
    let a = "<2026-03-16 Mon> x SCHEDULED: <2026-03-17 Tue>";
    let b = "SCHEDULED: <2026-03-18 Wed> <2026-03-19 Thu>";
    for kw in [None, Some("SCHEDULED:")] {
        let joined = format!("{}\n{}", a, b);
        let mut expected = find_timestamps(a, kw);
        expected.extend(find_timestamps(b, kw));
        assert_eq!(find_timestamps(&joined, kw), expected);
    }
    assert_eq!(find_timestamps("<a\nb>", None), Vec::<String>::new());
    assert_eq!(find_timestamps("a\n\n<b>", None), vec!["b".to_string()]);
}

#[test]
fn keyword_search_reads_after_the_first_keyword() {
    let content = "<a> SCHEDULED: <b> SCHEDULED: <c>\nno keyword <d>\nSCHEDULED:<e>";
    assert_eq!(find_timestamps(content, Some("SCHEDULED:")), vec!["b", "c", "e"]);
    assert_eq!(find_timestamps(content, Some("")), find_timestamps(content, None));
    assert_eq!(find_timestamps(content, None), vec!["a", "b", "c", "d", "e"]);
}
