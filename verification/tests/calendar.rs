use orgstand::browser::{current_week, day_heading, week_days};
use orgstand::calendar::Date;
use orgstand::dates::{display_date_on, parse_org_timestamp};
use orgstand::picker::DatePicker;
use orgstand::types::{DateInputType, TodoEntry};
use std::path::PathBuf;

fn date(year: i32, month: u32, day: u32) -> Date {
    Date { year, month, day }
}

fn entry(content: &str) -> TodoEntry {
    TodoEntry {
        keyword: "TODO".to_string(),
        title: "T".to_string(),
        tags: vec![],
        file_path: PathBuf::from("a.org"),
        content: content.to_string(),
        level: 1,
    }
}

#[test]
fn dates_exist_only_in_the_calendar() {
    assert!(date(2024, 2, 29).is_valid());
    assert!(!date(2023, 2, 29).is_valid());
    assert!(!date(2023, 13, 1).is_valid());
    assert!(!date(2023, 4, 31).is_valid());
    assert!(date(262142, 12, 31).is_valid());
    assert!(!date(262143, 1, 1).is_valid());
}

#[test]
fn picker_opens_on_the_first_of_the_month() {
    let p = DatePicker::open_on("SCHEDULED: <2024-02-29 Thu>", &DateInputType::Scheduled, &date(2000, 1, 1));
    assert_eq!(p.viewing_month, date(2024, 2, 1));
    let mut q = DatePicker::open_on("", &DateInputType::Scheduled, &date(2026, 3, 16));
    q.calendar_move_day(20);
    assert_eq!(q.selected_date, date(2026, 4, 5));
    q.calendar_move_day(-400);
    assert_eq!(q.selected_date, date(2025, 3, 1));
}

#[test]
fn weeks_run_monday_to_sunday_across_years() {
    let days = week_days(&date(2026, 12, 31));
    assert_eq!(days.len(), 7);
    assert_eq!(days[0], date(2026, 12, 28));
    assert_eq!(days[3], date(2026, 12, 31));
    assert_eq!(days[4], date(2027, 1, 1));
    assert_eq!(days[6], date(2027, 1, 3));
    let first = week_days(&date(1, 1, 1));
    assert_eq!(first[0], date(1, 1, 1));
}

#[test]
fn the_current_week_holds_today() {
    let (now, week) = current_week();
    assert!(now.is_valid());
    assert!(now.year >= 2024);
    let days = week.expect("the current week lies in the calendar");
    assert_eq!(days.len(), 7);
    assert!(days.contains(&now));
    assert_eq!(day_heading(&days[0]).split(',').next(), Some("Monday"));
}

#[test]
fn day_headings_and_iso_texts() {
    assert_eq!(day_heading(&date(2026, 3, 16)), "Monday, 16 Mar, 2026");
    assert_eq!(day_heading(&date(2027, 1, 3)), "Sunday, 03 Jan, 2027");
    assert_eq!(date(987, 6, 5).to_string(), "0987-06-05");
    assert_eq!(date(2026, 12, 31).to_string(), "2026-12-31");
}

#[test]
fn nearest_date_counts_days_between() {
    let e = entry("<2026-01-01 Thu>\nSCHEDULED: <2026-03-30 Mon>\nDEADLINE: <2026-03-01 Sun>\n");
    assert_eq!(display_date_on(&e, &date(2026, 3, 14)), Some(date(2026, 3, 1)));
    assert_eq!(display_date_on(&e, &date(2026, 3, 16)), Some(date(2026, 3, 30)));
    assert_eq!(display_date_on(&e, &date(2025, 6, 1)), Some(date(2026, 1, 1)));
}

#[test]
fn timestamps_read_the_iso_date() {
    assert_eq!(parse_org_timestamp("2024-02-29 Thu"), Some((date(2024, 2, 29), None)));
    assert_eq!(parse_org_timestamp("2023-02-29 Wed"), None);
    assert_eq!(parse_org_timestamp("0001-01-01 Mon 00:00"), Some((date(1, 1, 1), Some((0, 0)))));
}

#[test]
fn dates_with_weekdays() {
    assert_eq!(date(2026, 3, 16).weekday_text(), "2026-03-16 Mon");
    assert_eq!(date(2027, 1, 3).weekday_text(), "2027-01-03 Sun");
    assert_eq!(date(45, 7, 9).weekday_text(), "0045-07-09 Sun");
}
