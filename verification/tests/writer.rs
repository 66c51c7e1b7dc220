use orgstand::writer::{
    add_date_to_content, delete_entry_from_content, new_note_entry, next_keyword,
    quick_capture_entry, skip_entry_content, toggle_keyword_in_content, update_tags_in_content,
    update_todo_in_content, EditError,
};
use orgstand::types::{DateInputType, TodoEntry};
use std::path::PathBuf;

fn make_todo(title: &str, keyword: &str, level: usize, file_path: &PathBuf) -> TodoEntry {
    let content = if keyword.is_empty() {
        format!("{} {}\n", "*".repeat(level), title)
    } else {
        format!("{} {} {}\n", "*".repeat(level), keyword, title)
    };
    TodoEntry {
        keyword: keyword.to_string(),
        title: title.to_string(),
        tags: vec![],
        file_path: file_path.clone(),
        content,
        level,
    }
}

#[test]
fn test_skip_entry_content_stops_at_sibling() {
    let lines = vec!["body1", "body2", "* Next heading", "body3"];
    let end = skip_entry_content(&lines, 0, 1);
    assert_eq!(end, 2);
}

#[test]
fn test_skip_entry_content_skips_children() {
    let lines = vec!["** child", "body", "* next"];
    let end = skip_entry_content(&lines, 0, 1);
    assert_eq!(end, 2);
}

#[test]
fn test_toggle_keyword_in_file() {
    let file_path = PathBuf::from("test.org");
    let todo = make_todo("Fix bug", "TODO", 1, &file_path);
    let result = toggle_keyword_in_content("* TODO Fix bug\nbody\n", &todo, "DONE");
    assert!(result.contains("* DONE Fix bug"));
    assert!(!result.contains("* TODO Fix bug"));
}

#[test]
fn test_update_todo_in_file() {
    let file_path = PathBuf::from("test.org");
    let todo = make_todo("Fix bug", "TODO", 1, &file_path);
    let result = update_todo_in_content(
        "* TODO Fix bug\nold body\n* TODO Other\n",
        &todo,
        "* TODO Fix bug\nnew body\n",
    )
    .unwrap();
    assert!(result.contains("new body"));
    assert!(!result.contains("old body"));
    assert!(result.contains("* TODO Other"));
}

#[test]
fn test_delete_entry_from_file() {
    let file_path = PathBuf::from("test.org");
    let todo = make_todo("Remove me", "TODO", 1, &file_path);
    let result = delete_entry_from_content("* TODO Remove me\nbody\n* TODO Keep me\n", &todo);
    assert!(!result.contains("Remove me"));
    assert!(result.contains("Keep me"));
}

#[test]
fn test_add_date_to_file_scheduled() {
    let file_path = PathBuf::from("test.org");
    let todo = make_todo("Task", "TODO", 1, &file_path);
    let result =
        add_date_to_content("* TODO Task\nbody\n", &todo, "2026-03-16 Mon 09:00", &DateInputType::Scheduled);
    assert!(result.contains("SCHEDULED: <2026-03-16 Mon 09:00>"));
}

#[test]
fn test_update_tags_in_file() {
    let file_path = PathBuf::from("test.org");
    let todo = make_todo("Task", "TODO", 1, &file_path);
    let result =
        update_tags_in_content("* TODO Task\nbody\n", &todo, &["work".to_string(), "urgent".to_string()]);
    assert!(result.contains(":work:urgent:"));
}

#[test]
fn test_update_tags_in_file_empty_tags() {
    let file_path = PathBuf::from("test.org");
    let todo = make_todo("Task", "TODO", 1, &file_path);
    let result = update_tags_in_content(
        "* TODO Task                                              :old:\nbody\n",
        &todo,
        &[],
    );
    assert!(!result.contains(":old:"));
}

#[test]
fn skip_past_the_end_returns_start() {
    let lines = vec!["* a", "b"];
    assert_eq!(skip_entry_content(&lines, 5, 1), 5);
    assert_eq!(skip_entry_content(&lines, 1, 1), 2);
    assert_eq!(skip_entry_content(&lines, 0, 1), 0);
}

#[test]
fn exact_texts_of_edits() {
    let p = PathBuf::from("test.org");
    let todo = make_todo("Fix bug", "TODO", 1, &p);
    let content = "* TODO Fix bug\nold\n** child\n* TODO Other\nx\n";
    assert_eq!(
        update_todo_in_content(content, &todo, "* TODO Fix bug\nnew").unwrap(),
        "* TODO Fix bug\nnew\n* TODO Other\nx"
    );
    assert_eq!(delete_entry_from_content(content, &todo), "* TODO Other\nx");
    assert_eq!(
        update_todo_in_content("nothing here\n", &todo, "x"),
        Err(EditError::EntryNotFound)
    );
    assert_eq!(delete_entry_from_content("a\nb\n", &todo), "a\nb");
}

#[test]
fn dates_replace_the_line_of_their_kind() {
    let p = PathBuf::from("t.org");
    let todo = make_todo("Task", "TODO", 1, &p);
    let content = "* TODO Task\nSCHEDULED: <2026-01-01 Thu>\nbody";
    assert_eq!(
        add_date_to_content(content, &todo, "2026-02-02 Mon", &DateInputType::Scheduled),
        "* TODO Task\nSCHEDULED: <2026-02-02 Mon>\nbody"
    );
    assert_eq!(
        add_date_to_content(content, &todo, "2026-02-02 Mon", &DateInputType::Deadline),
        "* TODO Task\nDEADLINE: <2026-02-02 Mon>\nSCHEDULED: <2026-01-01 Thu>\nbody"
    );
    assert_eq!(
        add_date_to_content("* TODO Task\n  <2026-01-01 Thu>  \nb", &todo, "X", &DateInputType::Plain),
        "* TODO Task\n<X>\nb"
    );
    assert_eq!(
        add_date_to_content(content, &todo, "X", &DateInputType::Plain),
        "* TODO Task\n<X>\nSCHEDULED: <2026-01-01 Thu>\nbody"
    );
    assert_eq!(add_date_to_content("no heading", &todo, "X", &DateInputType::Plain), "no heading");
}

#[test]
fn tags_end_at_column_77() {
    let p = PathBuf::from("t.org");
    let todo = make_todo("Task", "TODO", 1, &p);
    let result = update_tags_in_content("* TODO Task\nbody\n", &todo, &["work".to_string(), "urgent".to_string()]);
    let expected = format!("* TODO Task{}:work:urgent:\nbody", " ".repeat(77 - 11 - 13));
    assert_eq!(result, expected);
    assert_eq!(result.lines().next().unwrap().len(), 77);
    let long = make_todo(&"x".repeat(80), "TODO", 2, &p);
    let content = format!("** TODO {}\n", "x".repeat(80));
    assert_eq!(
        update_tags_in_content(&content, &long, &["t".to_string()]),
        format!("** TODO {} :t:", "x".repeat(80))
    );
    let accented = make_todo("Tâche", "TODO", 1, &p);
    let r = update_tags_in_content("* TODO Tâche", &accented, &["a".to_string()]);
    assert_eq!(r.len(), 77);
}

#[test]
fn keywords_toggle_between_todo_and_done() {
    assert_eq!(next_keyword("TODO"), "DONE");
    assert_eq!(next_keyword("DONE"), "TODO");
    assert_eq!(next_keyword("NEXT"), "TODO");
    let p = PathBuf::from("t.org");
    let todo = make_todo("A", "TODO", 1, &p);
    assert_eq!(
        toggle_keyword_in_content("* TODO A\n* TODO A\n** TODO A", &todo, "DONE"),
        "* DONE A\n* DONE A\n** DONE A"
    );
}

#[test]
fn new_entry_texts() {
    assert_eq!(
        new_note_entry("2026-03-16 Mon 09:00:00"),
        "\n* New Note\n:PROPERTIES:\n:CREATED: [2026-03-16 Mon 09:00:00]\n:END:\n"
    );
    assert_eq!(
        quick_capture_entry("Call Bob", "2026-03-16 Mon", "2026-03-16 Mon 09:00:00"),
        "\n* TODO Call Bob\nSCHEDULED: <2026-03-16 Mon>\n:PROPERTIES:\n:CREATED: [2026-03-16 Mon 09:00:00]\n:END:\n"
    );
}

#[test]
fn adding_a_date_twice_changes_nothing_more() {
    let p = PathBuf::from("t.org");
    let todo = make_todo("Task", "TODO", 1, &p);
    let content = "intro\n* TODO Task\nbody\n* Other";
    for kind in [DateInputType::Scheduled, DateInputType::Deadline, DateInputType::Plain] {
        let once = add_date_to_content(content, &todo, "2026-03-16 Mon 09:00", &kind);
        let twice = add_date_to_content(&once, &todo, "2026-03-16 Mon 09:00", &kind);
        assert_eq!(once.lines().collect::<Vec<_>>(), twice.lines().collect::<Vec<_>>());
        assert_eq!(once.lines().count(), 5);
    }
    let plain_with_keyword = add_date_to_content(content, &todo, "SCHEDULED: x", &DateInputType::Plain);
    let again = add_date_to_content(&plain_with_keyword, &todo, "SCHEDULED: x", &DateInputType::Plain);
    assert_eq!(again.lines().count(), plain_with_keyword.lines().count() + 1);
}

#[test]
fn a_second_date_writes_the_same_file() {
    let p = PathBuf::from("t.org");
    let todo = make_todo("Task", "TODO", 1, &p);
    let content = "* TODO Task\nSCHEDULED: <2026-01-01 Thu>\nbody\n** Sub";
    for kind in [DateInputType::Scheduled, DateInputType::Deadline, DateInputType::Plain] {
        let once = add_date_to_content(content, &todo, "2026-03-16 Mon 09:00", &kind);
        let twice = add_date_to_content(&once, &todo, "2026-03-16 Mon 09:00", &kind);
        assert_eq!(once, twice);
    }
    let trailing = "* TODO Task\nx\n\n\n";
    let once = add_date_to_content(trailing, &todo, "D", &DateInputType::Scheduled);
    let twice = add_date_to_content(&once, &todo, "D", &DateInputType::Scheduled);
    assert_ne!(once.lines().count(), twice.lines().count());
}
