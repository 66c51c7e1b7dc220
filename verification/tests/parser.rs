use orgstand::parser::{
    entries_from_headlines, extract_entry_content, extract_todos_from_content, heading_level,
    Headline,
};
use std::path::PathBuf;

#[test]
fn heading_levels_count_leading_stars() {
    assert_eq!(heading_level("* Top"), Some(1));
    assert_eq!(heading_level("*** Deep"), Some(3));
    assert_eq!(heading_level("**"), Some(2));
    assert_eq!(heading_level(" * not a heading"), None);
    assert_eq!(heading_level(""), None);
    assert_eq!(heading_level("*a*b"), Some(1));
}

#[test]
fn entry_content_runs_to_the_next_sibling() {
    let lines = vec!["* A", "text", "** child", "more", "* B", "tail"];
    assert_eq!(extract_entry_content(&lines, 0, 1), "* A\ntext\n** child\nmore\n");
    assert_eq!(extract_entry_content(&lines, 2, 2), "** child\nmore\n");
    assert_eq!(extract_entry_content(&lines, 4, 1), "* B\ntail\n");
}

#[test]
fn entries_of_an_org_text() {
    let content = "intro\n* TODO Task one :work:\nSCHEDULED: <2026-03-16 Mon>\n** Sub\n* DONE Other\n";
    let path = PathBuf::from("notes.org");
    let todos = extract_todos_from_content(content, &path);
    assert_eq!(todos.len(), 3);
    assert_eq!(todos[0].keyword, "TODO");
    assert_eq!(todos[0].title, "Task one");
    assert_eq!(todos[0].tags, vec!["work".to_string()]);
    assert_eq!(todos[0].level, 1);
    assert_eq!(
        todos[0].content,
        "* TODO Task one :work:\nSCHEDULED: <2026-03-16 Mon>\n** Sub\n"
    );
    assert_eq!(todos[0].file_path, path);
    assert_eq!(todos[1].keyword, "");
    assert_eq!(todos[1].title, "Sub");
    assert_eq!(todos[1].level, 2);
    assert_eq!(todos[1].content, "** Sub\n");
    assert_eq!(todos[2].keyword, "DONE");
    assert_eq!(todos[2].content, "* DONE Other\n");
}

fn headline(keyword: Option<&str>, raw: &str, tags: &[&str], level: usize) -> Headline {
    Headline {
        keyword: keyword.map(|k| k.to_string()),
        raw: raw.to_string(),
        tags: tags.iter().map(|t| t.to_string()).collect(),
        level,
    }
}

#[test]
fn entries_are_found_by_level_and_trimmed_title() {
    let content = "** Task
* Task
body
** Sub
* Next
";
    let path = PathBuf::from("a.org");
    let hs = vec![
        headline(Some("TODO"), " Task ", &["x"], 1),
        headline(None, "Missing", &[], 1),
        headline(None, "Sub", &[], 2),
    ];
    let todos = entries_from_headlines(&hs, content, &path);
    assert_eq!(todos.len(), 2);
    assert_eq!(todos[0].keyword, "TODO");
    assert_eq!(todos[0].title, "Task");
    assert_eq!(todos[0].tags, vec!["x".to_string()]);
    assert_eq!(todos[0].content, "* Task
body
** Sub
");
    assert_eq!(todos[1].keyword, "");
    assert_eq!(todos[1].content, "** Sub
");
    assert_eq!(todos[1].level, 2);
}
