use orgstand::browser::{
    agenda_entries_on, capture_title, distance_tag, distance_tag_on, editor_title, keyword_kind, select_down, select_up,
    tags_label, viewer_title, week_days, KeywordKind, TagList,
};
use orgstand::calendar::Date;
use orgstand::scanner::{is_org_extension, should_scan_dir};
use orgstand::types::{TodoEntry, ViewFilter};
use std::path::PathBuf;

fn date(year: i32, month: u32, day: u32) -> Date {
    Date { year, month, day }
}

fn todo(content: &str) -> TodoEntry {
    TodoEntry {
        keyword: "TODO".to_string(),
        title: "Write report".to_string(),
        tags: vec!["work".to_string()],
        file_path: PathBuf::from("a.org"),
        content: content.to_string(),
        level: 1,
    }
}

#[test]
fn selections_stop_at_the_ends() {
    assert_eq!(select_up(0), 0);
    assert_eq!(select_up(3), 2);
    assert_eq!(select_down(0, 3), 1);
    assert_eq!(select_down(2, 3), 2);
    assert_eq!(select_down(0, 0), 0);
    assert_eq!(ViewFilter::All.toggled(), ViewFilter::Today);
    assert_eq!(ViewFilter::Today.toggled().toggled(), ViewFilter::Today);
}

#[test]
fn tag_list_editing() {
    let mut tags = TagList::new(vec!["a".to_string(), "b".to_string()]);
    tags.select_down();
    assert_eq!(tags.selected, 1);
    tags.select_down();
    assert_eq!(tags.selected, 1);
    assert_eq!(tags.selected_tag(), Some("b".to_string()));
    tags.commit_edit("c".to_string());
    assert_eq!(tags.tags, vec!["a".to_string(), "c".to_string()]);
    tags.commit_edit(String::new());
    assert_eq!(tags.tags, vec!["a".to_string(), "c".to_string()]);
    tags.add_tag();
    assert_eq!(tags.selected, 2);
    assert_eq!(tags.tags.len(), 3);
    tags.remove_selected();
    assert_eq!(tags.tags, vec!["a".to_string(), "c".to_string()]);
    assert_eq!(tags.selected, 1);
    tags.select_up();
    tags.remove_selected();
    assert_eq!(tags.tags, vec!["c".to_string()]);
    assert_eq!(tags.selected, 0);
    assert_eq!(tags.clicked_index(2), Some(0));
    assert_eq!(tags.clicked_index(3), None);
    assert_eq!(tags.clicked_index(1), None);
}

#[test]
fn titles_and_labels() {
    let t = todo("");
    assert_eq!(editor_title(&t), "Editing: [TODO] Write report");
    assert_eq!(viewer_title(&t), "[TODO] Write report");
    assert_eq!(tags_label(&["a".to_string(), "b".to_string()]), " :a:b: ");
    assert_eq!(tags_label(&[]), "");
    assert_eq!(capture_title(&["  Call".to_string(), "Bob  ".to_string()]), "Call Bob");
    assert_eq!(capture_title(&[" ".to_string()]), "");
    assert_eq!(keyword_kind("TODO"), KeywordKind::Todo);
    assert_eq!(keyword_kind("DONE"), KeywordKind::Done);
    assert_eq!(keyword_kind("WAITING"), KeywordKind::Other);
}

#[test]
fn agenda_days_and_entries() {
    let days = week_days(&date(2026, 3, 18));
    assert_eq!(days[0], date(2026, 3, 16));
    assert_eq!(days[6], date(2026, 3, 22));
    let todos = vec![
        todo("<2026-03-16 Mon>"),
        todo("<2026-03-17 Tue>"),
        todo("SCHEDULED: <2026-03-16 Mon> <2026-03-25 Wed>"),
    ];
    assert_eq!(agenda_entries_on(&todos, &date(2026, 3, 16), &date(2026, 3, 18)), vec![0, 2]);
    assert_eq!(agenda_entries_on(&todos, &date(2026, 3, 17), &date(2026, 3, 18)), vec![1]);
}

#[test]
fn scan_decisions() {
    assert!(should_scan_dir(Some("notes"), 0));
    assert!(should_scan_dir(None, 5));
    assert!(!should_scan_dir(Some("notes"), 6));
    assert!(!should_scan_dir(Some(".hidden"), 1));
    assert!(!should_scan_dir(Some("node_modules"), 1));
    assert!(!should_scan_dir(Some("System"), 1));
    assert!(should_scan_dir(Some("Systems"), 1));
    assert!(is_org_extension(Some("org")));
    assert!(!is_org_extension(Some("ORG")));
    assert!(!is_org_extension(None));
}

#[test]
fn distance_tags() {
    assert_eq!(distance_tag(0), "[Today]");
    assert_eq!(distance_tag(1), "[Tmrw]");
    assert_eq!(distance_tag(-1), "[Yday]");
    assert_eq!(distance_tag(2), "[+2d]");
    assert_eq!(distance_tag(-6), "[-6d]");
    assert_eq!(distance_tag(7), "[+1W]");
    assert_eq!(distance_tag(-13), "[-1W]");
    assert_eq!(distance_tag(29), "[+4W]");
    assert_eq!(distance_tag(30), "[+1M]");
    assert_eq!(distance_tag(-95), "[-3M]");
    assert_eq!(distance_tag(4_294_967_295), "[+143165576M]");
    assert_eq!(distance_tag_on(&date(2026, 3, 18), &date(2026, 3, 16)), "[+2d]");
    assert_eq!(distance_tag_on(&date(2026, 3, 16), &date(2026, 3, 17)), "[Yday]");
    assert_eq!(distance_tag_on(&date(2027, 1, 1), &date(2026, 12, 1)), "[+1M]");
}
