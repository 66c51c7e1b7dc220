//! The entries the library works on and the small enums that steer it.

use vstd::prelude::*;
use std::path::PathBuf;
use crate::text::string_views;

verus! {

#[verifier::external_type_specification]
#[verifier::external_body]
pub struct ExPathBuf(std::path::PathBuf);

/// `PathBuf::clone` gives back the same path.
pub assume_specification[ <std::path::PathBuf as Clone>::clone ](p: &PathBuf) -> (r: PathBuf)
    ensures
        r == *p,
;

/// One headline of an org file: its TODO keyword (empty for a note), title,
/// tags, the file it lives in, the text of its whole subtree and its level.
pub struct TodoEntry {
    pub keyword: String,
    pub title: String,
    pub tags: Vec<String>,
    pub file_path: PathBuf,
    pub content: String,
    pub level: usize,
}

/// The contents of a `TodoEntry` as mathematical values.
pub struct TodoView {
    pub keyword: Seq<char>,
    pub title: Seq<char>,
    pub tags: Seq<Seq<char>>,
    pub file_path: PathBuf,
    pub content: Seq<char>,
    pub level: nat,
}

impl View for TodoEntry {
    type V = TodoView;

    open spec fn view(&self) -> TodoView {
        TodoView {
            keyword: self.keyword@,
            title: self.title@,
            tags: string_views(self.tags@),
            file_path: self.file_path,
            content: self.content@,
            level: self.level as nat,
        }
    }
}

/// The views of a sequence of entries.
pub open spec fn todo_views(v: Seq<TodoEntry>) -> Seq<TodoView> {
    v.map_values(|t: TodoEntry| t@)
}

impl Clone for TodoEntry {
    fn clone(&self) -> (r: Self)
        ensures
            r@ == self@,
    {
        let tags = self.tags.clone();
        assert(tags@ =~= self.tags@);
        TodoEntry {
            keyword: self.keyword.clone(),
            title: self.title.clone(),
            tags,
            file_path: self.file_path.clone(),
            content: self.content.clone(),
            level: self.level,
        }
    }
}

/// Which entries the browser shows.
#[derive(Clone, Copy, Debug, PartialEq, Eq, Structural)]
pub enum ViewFilter {
    /// Every open TODO (a keyword that is not `DONE`).
    All,
    /// The entries dated in the current week (the week agenda).
    Today,
}

/// Which kind of date an entry is given.
#[derive(Clone, Copy, Debug, PartialEq, Eq, Structural)]
pub enum DateInputType {
    Scheduled,
    Deadline,
    Plain,
}

} // verus!
