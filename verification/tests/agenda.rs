use orgstand::agenda::{filter_todos, filter_todos_on, selected_todo_on, sort_key_of};
use orgstand::calendar::Date;
use orgstand::types::{TodoEntry, ViewFilter};
use std::path::PathBuf;

fn todo(keyword: &str, title: &str, content: &str) -> TodoEntry {
    TodoEntry {
        keyword: keyword.to_string(),
        title: title.to_string(),
        tags: vec![],
        file_path: PathBuf::from("a.org"),
        content: content.to_string(),
        level: 1,
    }
}

fn date(year: i32, month: u32, day: u32) -> Date {
    Date { year, month, day }
}

fn titles(v: &[TodoEntry]) -> Vec<String> {
    v.iter().map(|t| t.title.clone()).collect()
}

fn sample() -> Vec<TodoEntry> {
    vec![
        todo("TODO", "late", "* TODO late\nSCHEDULED: <2026-03-20 Fri>\n"),
        todo("DONE", "done", "* DONE done\nSCHEDULED: <2026-03-17 Tue>\n"),
        todo("", "note", "* note\n<2026-03-16 Mon>\n"),
        todo("NEXT", "undated", "* NEXT undated\n"),
        todo("TODO", "early", "* TODO early\nSCHEDULED: <2026-03-16 Mon>\n"),
        todo("TODO", "deadline", "* TODO deadline\nDEADLINE: <2026-03-22 Sun>\n"),
        todo("TODO", "next week", "* TODO next week\nSCHEDULED: <2026-03-23 Mon>\n"),
        todo("TODO", "also early", "* TODO also early\nSCHEDULED: <2026-03-16 Mon>\n"),
    ]
}

#[test]
fn all_view_lists_open_todos_by_date() {
    let r = filter_todos_on(&sample(), &ViewFilter::All, &date(2026, 3, 18));
    assert_eq!(
        titles(&r),
        vec!["undated", "early", "also early", "late", "deadline", "next week"]
    );
    assert_eq!(titles(&filter_todos(&sample(), &ViewFilter::All)), titles(&r));
}

#[test]
fn week_agenda_lists_this_weeks_entries() {
    let r = filter_todos_on(&sample(), &ViewFilter::Today, &date(2026, 3, 18));
    assert_eq!(
        titles(&r),
        vec!["note", "early", "also early", "done", "late", "deadline"]
    );
    let sunday = filter_todos_on(&sample(), &ViewFilter::Today, &date(2026, 3, 22));
    assert_eq!(titles(&sunday), titles(&r));
    let monday = filter_todos_on(&sample(), &ViewFilter::Today, &date(2026, 3, 23));
    assert_eq!(titles(&monday), vec!["next week"]);
}

#[test]
fn selection_picks_from_the_shown_list() {
    let s = sample();
    let t = selected_todo_on(&s, 1, &ViewFilter::All, &date(2026, 3, 18)).unwrap();
    assert_eq!(t.title, "early");
    assert!(selected_todo_on(&s, 6, &ViewFilter::All, &date(2026, 3, 18)).is_none());
}

#[test]
fn sort_key_prefers_scheduled_then_plain() {
    let t = todo("TODO", "x", "<2026-05-01 Fri>\nSCHEDULED: <2026-06-01 Mon>\nDEADLINE: <2026-01-01 Thu>");
    assert_eq!(sort_key_of(&t), Some(date(2026, 6, 1)));
    let u = todo("TODO", "x", "DEADLINE: <2026-01-01 Thu>");
    assert_eq!(sort_key_of(&u), Some(date(2026, 1, 1)));
    assert_eq!(sort_key_of(&todo("TODO", "x", "nothing")), None);
}
