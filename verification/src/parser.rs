//! Headlines: their level, the extent of an entry's subtree, and the entries
//! of an org text.

use vstd::prelude::*;
use crate::text::{
    str_views, string_views, char_vec_views,
    chars_of, contains, contains_chars, lines, lines_of, push_char, push_str, starts_with,
    starts_with_chars, string_of, terminated, trim_chars, trimmed,
};
use crate::types::{todo_views, TodoEntry, TodoView};
use crate::writer::skip_entry_content;
use orgize::Org;
use std::path::PathBuf;

verus! {

// ---------------------------------------------------------------------
// Headline levels and entry extents
// ---------------------------------------------------------------------

/// The first index at or after `i` whose character is not `*`, or `s.len()`.
pub open spec fn non_star_from(s: Seq<char>, i: nat) -> nat
    decreases s.len() - i,
{
    if i >= s.len() {
        s.len()
    } else if s[i as int] != '*' {
        i
    } else {
        non_star_from(s, i + 1)
    }
}

pub proof fn lemma_non_star_from(s: Seq<char>, i: nat)
    ensures
        i <= s.len() ==> i <= non_star_from(s, i) <= s.len(),
        forall|j: int| i <= j < non_star_from(s, i) ==> s[j] == '*',
        non_star_from(s, i) < s.len() ==> s[non_star_from(s, i) as int] != '*',
    decreases s.len() - i,
{
    if i < s.len() && s[i as int] == '*' {
        lemma_non_star_from(s, i + 1);
    }
}

/// The level of a headline line, the number of its leading stars; `None` for
/// a line that does not start with `*`.
pub open spec fn heading_level_of(line: Seq<char>) -> Option<nat> {
    if line.len() > 0 && line[0] == '*' {
        Some(non_star_from(line, 0))
    } else {
        None
    }
}

/// A headline of level at most `level`, which ends an entry of that level.
pub open spec fn ends_entry(line: Seq<char>, level: nat) -> bool {
    heading_level_of(line) matches Some(n) && n <= level
}

/// The index of the first line at or after `i` that ends an entry of level
/// `level`, or `ls.len()` (or `i` itself when `i` is past the end).
pub open spec fn entry_end(ls: Seq<Seq<char>>, i: nat, level: nat) -> nat
    decreases ls.len() - i,
{
    if i >= ls.len() {
        i
    } else if ends_entry(ls[i as int], level) {
        i
    } else {
        entry_end(ls, i + 1, level)
    }
}

pub proof fn lemma_entry_end(ls: Seq<Seq<char>>, i: nat, level: nat)
    ensures
        i <= entry_end(ls, i, level),
        i <= ls.len() ==> entry_end(ls, i, level) <= ls.len(),
        entry_end(ls, i, level) < ls.len() ==> ends_entry(ls[entry_end(ls, i, level) as int], level),
        forall|j: int| i <= j < entry_end(ls, i, level) ==> !ends_entry(#[trigger] ls[j], level),
    decreases ls.len() - i,
{
    if i < ls.len() && !ends_entry(ls[i as int], level) {
        lemma_entry_end(ls, i + 1, level);
    }
}

/// The level of a headline line (its leading stars), `None` for other lines.
pub fn heading_level_chars(line: &[char]) -> (r: Option<usize>)
    ensures
        match r {
            Some(n) => heading_level_of(line@) == Some(n as nat),
            None => heading_level_of(line@) is None,
        },
{
    if line.len() > 0 && line[0] == '*' {
        let mut i: usize = 0;
        while i < line.len() && line[i] == '*'
            invariant
                i <= line@.len(),
                non_star_from(line@, i as nat) == non_star_from(line@, 0),
            decreases line@.len() - i,
        {
            i = i + 1;
        }
        Some(i)
    } else {
        None
    }
}

/// The level of a headline line: the number of stars it starts with, or
/// `None` when it does not start with `*`.
pub fn heading_level(line: &str) -> (r: Option<usize>)
    ensures
        match r {
            Some(n) => heading_level_of(line@) == Some(n as nat),
            None => heading_level_of(line@) is None,
        },
{
    let cs = chars_of(line);
    heading_level_chars(cs.as_slice())
}

/// Whether `line` ends an entry of level `level`.
pub fn ends_entry_exec(line: &str, level: usize) -> (r: bool)
    ensures
        r == ends_entry(line@, level as nat),
{
    match heading_level(line) {
        Some(n) => n <= level,
        None => false,
    }
}


/// The lines of a text (`str::lines`), as strings.
pub fn line_strings(content: &str) -> (r: Vec<String>)
    ensures
        string_views(r@) == lines_of(content@),
{
    let cs = chars_of(content);
    let line_vecs = lines(cs.as_slice());
    let ghost ls = lines_of(content@);
    let mut line_strs: Vec<String> = Vec::new();
    let mut k: usize = 0;
    while k < line_vecs.len()
        invariant
            k <= line_vecs@.len(),
            char_vec_views(line_vecs@) == ls,
            line_strs@.len() == k,
            forall|j: int| 0 <= j < k ==> #[trigger] line_strs@[j]@ == ls[j],
        decreases line_vecs@.len() - k,
    {
        assert(ls[k as int] == line_vecs@[k as int]@);
        line_strs.push(string_of(line_vecs[k].as_slice()));
        k = k + 1;
    }
    assert(string_views(line_strs@) =~= ls);
    line_strs
}

/// Borrows each string as a `&str`.
pub fn str_refs(v: &Vec<String>) -> (r: Vec<&str>)
    ensures
        str_views(r@) == string_views(v@),
{
    let mut r: Vec<&str> = Vec::new();
    let mut k: usize = 0;
    while k < v.len()
        invariant
            k <= v@.len(),
            r@.len() == k,
            forall|j: int| 0 <= j < k ==> #[trigger] r@[j]@ == v@[j]@,
        decreases v@.len() - k,
    {
        r.push(v[k].as_str());
        k = k + 1;
    }
    assert(str_views(r@) =~= string_views(v@));
    r
}

/// The text of the entry whose headline is `lines[start]`: that line and the
/// following ones up to the next headline of level at most `level`, each
/// followed by a newline.
pub fn extract_entry_content(lines: &[&str], start: usize, level: usize) -> (r: String)
    requires
        start < lines@.len(),
    ensures
        r@ == terminated(
            str_views(lines@).subrange(
                start as int,
                entry_end(str_views(lines@), (start + 1) as nat, level as nat) as int,
            ),
            seq!['\n'],
        ),
{
    let ghost ls = str_views(lines@);
    let n = lines.len();
    let end = skip_entry_content(lines, start + 1, level);
    proof {
        crate::parser::lemma_entry_end(ls, (start + 1) as nat, level as nat);
    }
    let mut content = String::new();
    let mut i = start;
    while i < end
        invariant
            start <= i <= end <= lines@.len(),
            ls == str_views(lines@),
            content@ == terminated(ls.subrange(start as int, i as int), seq!['\n']),
        decreases end - i,
    {
        push_str(&mut content, lines[i]);
        push_char(&mut content, '\n');
        assert(ls[i as int] == lines@[i as int]@);
        assert(ls.subrange(start as int, i + 1 as int).drop_last() == ls.subrange(
            start as int,
            i as int,
        ));
        i = i + 1;
    }
    content
}

// ---------------------------------------------------------------------
// Entries of an org text
// ---------------------------------------------------------------------

/// A headline as `orgize` reads it: TODO keyword, raw title (without stars and
/// tags), tags and level.
pub struct Headline {
    pub keyword: Option<String>,
    pub raw: String,
    pub tags: Vec<String>,
    pub level: usize,
}

/// A headline as mathematical values.
pub struct HeadlineView {
    pub keyword: Option<Seq<char>>,
    pub raw: Seq<char>,
    pub tags: Seq<Seq<char>>,
    pub level: nat,
}

impl View for Headline {
    type V = HeadlineView;

    open spec fn view(&self) -> HeadlineView {
        HeadlineView {
            keyword: match self.keyword {
                Some(k) => Some(k@),
                None => None,
            },
            raw: self.raw@,
            tags: string_views(self.tags@),
            level: self.level as nat,
        }
    }
}

/// The headlines, in document order, that `orgize::Org::parse` finds in a text.
pub uninterp spec fn orgize_headlines(text: Seq<char>) -> Seq<HeadlineView>;

/// `orgize::Org::parse` and `Org::headlines`: each headline's keyword, raw
/// title, tags and level, in document order. A headline's level is its number
/// of leading stars, so at least 1.
#[verifier::external_body]
fn org_headlines(content: &str) -> (r: Vec<Headline>)
    ensures
        r@.map_values(|h: Headline| h@) == orgize_headlines(content@),
        forall|k: int| 0 <= k < r@.len() ==> (#[trigger] r@[k]).level >= 1,
{
    let org = Org::parse(content);
    org.headlines().map(
        |h| {
            let t = h.title(&org);
            Headline {
                keyword: t.keyword.as_ref().map(|k| k.to_string()),
                raw: t.raw.to_string(),
                tags: t.tags.iter().map(|x| x.to_string()).collect(),
                level: h.level(),
            }
        },
    ).collect()
}

/// `n` stars.
pub open spec fn stars(n: nat) -> Seq<char> {
    Seq::new(n, |i: int| '*')
}

/// The line that starts a headline of level `level` whose title is `title`:
/// exactly `level` leading stars, and the title somewhere in it.
pub open spec fn is_headline_line(line: Seq<char>, level: nat, title: Seq<char>) -> bool {
    starts_with(line, stars(level)) && !(line.len() > level && line[level as int] == '*')
        && contains(line, title)
}

/// The index of the first line that starts the headline, if any.
pub open spec fn headline_line_from(ls: Seq<Seq<char>>, level: nat, title: Seq<char>, i: nat) -> Option<nat>
    decreases ls.len() - i,
{
    if i >= ls.len() {
        None
    } else if is_headline_line(ls[i as int], level, title) {
        Some(i)
    } else {
        headline_line_from(ls, level, title, i + 1)
    }
}

/// The entry of a headline, found in the text by its line.
pub open spec fn entry_of(h: HeadlineView, ls: Seq<Seq<char>>, path: PathBuf) -> Option<TodoView> {
    let title = trimmed(h.raw);
    match headline_line_from(ls, h.level, title, 0) {
        None => None,
        Some(i) => Some(
            TodoView {
                keyword: match h.keyword {
                    Some(k) => k,
                    None => Seq::empty(),
                },
                title,
                tags: h.tags,
                file_path: path,
                content: terminated(ls.subrange(i as int, entry_end(ls, i + 1, h.level) as int), seq!['\n']),
                level: h.level,
            },
        ),
    }
}

/// The entries of the headlines whose line is found, in order.
pub open spec fn entries_of(hs: Seq<HeadlineView>, ls: Seq<Seq<char>>, path: PathBuf) -> Seq<TodoView>
    decreases hs.len(),
{
    if hs.len() == 0 {
        Seq::empty()
    } else {
        let rest = entries_of(hs.drop_last(), ls, path);
        match entry_of(hs.last(), ls, path) {
            Some(e) => rest.push(e),
            None => rest,
        }
    }
}

/// `n` stars as a character vector.
fn stars_exec(n: usize) -> (r: Vec<char>)
    ensures
        r@ == stars(n as nat),
{
    let mut r: Vec<char> = Vec::new();
    let mut i: usize = 0;
    while i < n
        invariant
            i <= n,
            r@ == stars(i as nat),
        decreases n - i,
    {
        r.push('*');
        i = i + 1;
        assert(r@ =~= stars(i as nat));
    }
    r
}

/// Finds the line that starts the headline of the given level and title.
fn find_headline_line(lines: &[&str], level: usize, title: &[char]) -> (r: Option<usize>)
    ensures
        match r {
            Some(i) => headline_line_from(str_views(lines@), level as nat, title@, 0) == Some(
                i as nat,
            ),
            None => headline_line_from(str_views(lines@), level as nat, title@, 0) is None,
        },
{
    let ghost ls = str_views(lines@);
    let st = stars_exec(level);
    let mut i: usize = 0;
    while i < lines.len()
        invariant
            i <= lines@.len(),
            ls == str_views(lines@),
            st@ == stars(level as nat),
            headline_line_from(ls, level as nat, title@, i as nat) == headline_line_from(
                ls,
                level as nat,
                title@,
                0,
            ),
        decreases lines@.len() - i,
    {
        let line = chars_of(lines[i]);
        assert(ls[i as int] == line@);
        let more_stars = line.len() > level && line[level] == '*';
        if starts_with_chars(line.as_slice(), st.as_slice()) && !more_stars && contains_chars(
            line.as_slice(),
            title,
        ) {
            return Some(i);
        }
        i = i + 1;
    }
    None
}

/// The entries of the given headlines in an org text: for each headline, the
/// line that starts it (exactly its level of stars and its trimmed title) and
/// the text of its subtree, attributed to `file_path`; a headline whose line
/// is not found gives no entry.
pub fn entries_from_headlines(headlines: &[Headline], content: &str, file_path: &PathBuf) -> (r: Vec<TodoEntry>)
    ensures
        todo_views(r@) == entries_of(
            headlines@.map_values(|h: Headline| h@),
            lines_of(content@),
            *file_path,
        ),
{
    let ghost hs = headlines@.map_values(|h: Headline| h@);
    let ghost ls = lines_of(content@);
    let line_strs = line_strings(content);
    let line_refs = str_refs(&line_strs);
    let mut todos: Vec<TodoEntry> = Vec::new();
    let mut i: usize = 0;
    while i < headlines.len()
        invariant
            i <= headlines@.len(),
            headlines@.map_values(|h: Headline| h@) == hs,
            str_views(line_refs@) == ls,
            todo_views(todos@) == entries_of(
                hs.subrange(0, i as int),
                ls,
                *file_path,
            ),
        decreases headlines@.len() - i,
    {
        let h = &headlines[i];
        assert(hs[i as int] == h@);
        assert(hs.subrange(0, i + 1 as int).drop_last() == hs.subrange(0, i as int));
        let raw = chars_of(h.raw.as_str());
        let title = trim_chars(raw.as_slice());
        let ghost prev = todo_views(todos@);
        match find_headline_line(line_refs.as_slice(), h.level, title.as_slice()) {
            None => {},
            Some(pos) => {
                proof {
                    lemma_headline_line_from(ls, h.level as nat, title@, 0);
                }
                let keyword = match &h.keyword {
                    Some(k) => k.clone(),
                    None => String::new(),
                };
                let tags = h.tags.clone();
                assert(tags@ =~= h.tags@);
                let entry = TodoEntry {
                    keyword,
                    title: string_of(title.as_slice()),
                    tags,
                    file_path: file_path.clone(),
                    content: extract_entry_content(line_refs.as_slice(), pos, h.level),
                    level: h.level,
                };
                todos.push(entry);
                assert(todo_views(todos@) == prev.push(entry@));
            },
        }
        i = i + 1;
    }
    assert(hs.subrange(0, headlines@.len() as int) == hs);
    todos
}

/// Each entry of headlines of level at least 1 has level at least 1.
proof fn lemma_entry_levels(hs: Seq<HeadlineView>, ls: Seq<Seq<char>>, path: PathBuf)
    requires
        forall|k: int| 0 <= k < hs.len() ==> (#[trigger] hs[k]).level >= 1,
    ensures
        forall|k: int| 0 <= k < entries_of(hs, ls, path).len() ==> (#[trigger] entries_of(
            hs,
            ls,
            path,
        )[k]).level >= 1,
    decreases hs.len(),
{
    if hs.len() > 0 {
        let rest = hs.drop_last();
        assert forall|k: int| 0 <= k < rest.len() implies (#[trigger] rest[k]).level >= 1 by {
            assert(rest[k] == hs[k]);
        }
        lemma_entry_levels(rest, ls, path);
        let all = entries_of(hs, ls, path);
        let prev = entries_of(rest, ls, path);
        assert(hs.last().level >= 1);
        match entry_of(hs.last(), ls, path) {
            Some(e) => {
                assert(all == prev.push(e));
                assert forall|k: int| 0 <= k < all.len() implies (#[trigger] all[k]).level >= 1 by {
                    if k < prev.len() {
                        assert(all[k] == prev[k]);
                    }
                }
            },
            None => {
                assert(all == prev);
            },
        }
    }
}

/// The entries of an org text: the entries of the headlines `orgize` finds
/// in it (see `entries_from_headlines`); each has level at least 1.
pub fn extract_todos_from_content(content: &str, file_path: &PathBuf) -> (r: Vec<TodoEntry>)
    ensures
        todo_views(r@) == entries_of(
            orgize_headlines(content@),
            lines_of(content@),
            *file_path,
        ),
        forall|k: int| 0 <= k < r@.len() ==> (#[trigger] r@[k]).level >= 1,
{
    let headlines = org_headlines(content);
    let r = entries_from_headlines(headlines.as_slice(), content, file_path);
    proof {
        let hs = headlines@.map_values(|h: Headline| h@);
        assert forall|k: int| 0 <= k < hs.len() implies (#[trigger] hs[k]).level >= 1 by {
            assert(hs[k] == headlines@[k]@);
        }
        lemma_entry_levels(hs, lines_of(content@), *file_path);
        assert forall|k: int| 0 <= k < r@.len() implies (#[trigger] r@[k]).level >= 1 by {
            assert(todo_views(r@)[k] == r@[k]@);
        }
    }
    r
}

pub proof fn lemma_headline_line_from(ls: Seq<Seq<char>>, level: nat, title: Seq<char>, i: nat)
    ensures
        headline_line_from(ls, level, title, i) matches Some(k) ==> i <= k < ls.len(),
    decreases ls.len() - i,
{
    if i < ls.len() && !is_headline_line(ls[i as int], level, title) {
        lemma_headline_line_from(ls, level, title, i + 1);
    }
}

} // verus!
