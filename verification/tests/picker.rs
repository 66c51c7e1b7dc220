use orgstand::calendar::Date;
use orgstand::picker::{calendar_text_on, render_calendar, DatePicker};
use orgstand::types::DateInputType;

fn date(year: i32, month: u32, day: u32) -> Date {
    Date { year, month, day }
}

fn picker(d: Date) -> DatePicker {
    DatePicker {
        selected_date: d,
        viewing_month: date(d.year, d.month, 1),
        hour: 9,
        minute: 30,
        editing_time: false,
    }
}

#[test]
fn picker_starts_from_the_entry() {
    let content = "* TODO T\nDEADLINE: <2026-04-01 Wed 17:05>\n";
    let p = DatePicker::open_on(content, &DateInputType::Deadline, &date(2026, 1, 1));
    assert_eq!(p.selected_date, date(2026, 4, 1));
    assert_eq!(p.viewing_month, date(2026, 4, 1));
    assert_eq!((p.hour, p.minute), (17, 5));
    assert!(!p.editing_time);
    let q = DatePicker::open_on(content, &DateInputType::Scheduled, &date(2026, 1, 20));
    assert_eq!(q.selected_date, date(2026, 1, 20));
    assert_eq!(q.viewing_month, date(2026, 1, 1));
    assert_eq!((q.hour, q.minute), (0, 0));
    let r = DatePicker::open(content, &DateInputType::Deadline);
    assert_eq!(r.selected_date, date(2026, 4, 1));
}

#[test]
fn moving_days_follows_the_month() {
    let mut p = picker(date(2026, 1, 30));
    p.calendar_move_day(7);
    assert_eq!(p.selected_date, date(2026, 2, 6));
    assert_eq!(p.viewing_month, date(2026, 2, 1));
    p.calendar_move_day(-7);
    assert_eq!(p.selected_date, date(2026, 1, 30));
    assert_eq!(p.viewing_month, date(2026, 1, 1));
    p.calendar_move_day(-30);
    assert_eq!(p.selected_date, date(2025, 12, 31));
    assert_eq!(p.viewing_month, date(2025, 12, 1));
    p.toggle_time_edit();
    p.calendar_move_day(1);
    assert_eq!(p.selected_date, date(2025, 12, 31));
    let mut edge = picker(date(262142, 12, 31));
    edge.calendar_move_day(1);
    assert_eq!(edge.selected_date, date(262142, 12, 31));
}

#[test]
fn time_wraps_around() {
    let mut p = picker(date(2026, 3, 16));
    p.adjust_time(1, 0);
    assert_eq!((p.hour, p.minute), (9, 30));
    p.toggle_time_edit();
    assert!(p.editing_time);
    p.hour = 23;
    p.minute = 59;
    p.adjust_time(1, 1);
    assert_eq!((p.hour, p.minute), (0, 0));
    p.adjust_time(-1, -1);
    assert_eq!((p.hour, p.minute), (23, 59));
    p.toggle_time_edit();
    assert!(!p.editing_time);
}

#[test]
fn months_change_across_years() {
    let mut p = picker(date(2026, 12, 15));
    p.calendar_change_month(1);
    assert_eq!(p.viewing_month, date(2027, 1, 1));
    assert_eq!(p.selected_date, date(2027, 1, 1));
    p.calendar_change_month(-1);
    assert_eq!(p.viewing_month, date(2026, 12, 1));
    assert_eq!(p.selected_date, date(2026, 12, 1));
    let mut q = picker(date(2026, 3, 10));
    q.viewing_month = date(2026, 2, 1);
    q.calendar_change_month(1);
    assert_eq!(q.selected_date, date(2026, 3, 10));
    let mut r = picker(date(2026, 3, 10));
    r.calendar_change_month(-20);
    assert_eq!(r.viewing_month, date(2026, 3, 1));
    assert_eq!(r.selected_date, date(2026, 3, 10));
}

#[test]
fn timestamp_text_reads_back() {
    let mut p = picker(date(2026, 3, 16));
    p.hour = 9;
    p.minute = 5;
    let text = p.timestamp_text();
    assert_eq!(text, "2026-03-16 Mon 09:05");
    let (d, t) = orgstand::dates::parse_org_timestamp(&text).unwrap();
    assert_eq!(d, date(2026, 3, 16));
    assert_eq!(t, Some((9, 5)));
}

#[test]
fn month_calendar_lines() {
    let lines = calendar_text_on(&date(2026, 3, 1), &date(2026, 3, 16), &date(2026, 3, 20));
    let expected = vec![
        "March 2026",
        "",
        "Su  Mo  Tu  We  Th  Fr  Sa",
        "───────────────────────────",
        "  1   2   3   4   5   6   7 ",
        "  8   9  10  11  12  13  14 ",
        " 15 [16] 17  18  19  20* 21 ",
        " 22  23  24  25  26  27  28 ",
        " 29  30  31 ",
        "",
        "Selected: 2026-03-16 Mon",
    ];
    assert_eq!(lines, expected);
    let feb = calendar_text_on(&date(2024, 2, 1), &date(2024, 2, 29), &date(2000, 1, 1));
    assert_eq!(feb[4], "                  1   2   3 ");
    assert_eq!(feb[8], " 25  26  27  28 [29]");
    assert_eq!(feb.len(), 11);
    assert_eq!(render_calendar(&date(2024, 2, 1), &date(2024, 2, 29))[8], " 25  26  27  28 [29]");
}

#[test]
fn pickers_show_the_month_of_their_day() {
    assert!(picker(date(2024, 2, 29)).is_well_formed());
    let mut p = picker(date(2024, 2, 29));
    p.viewing_month = date(2024, 3, 1);
    assert!(!p.is_well_formed());
    assert!(!picker(date(2023, 2, 29)).is_well_formed());
    let mut q = picker(date(2026, 1, 31));
    q.calendar_change_month(1);
    assert!(q.is_well_formed());
    assert_eq!(q.selected_date, date(2026, 2, 1));
}
