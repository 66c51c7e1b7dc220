//! Edits of an org text: replacing, deleting, dating, retagging and
//! re-keywording an entry, and the text of newly captured entries.

use vstd::prelude::*;
use crate::dates::{deadline_keyword, planning_keyword, scheduled_keyword};
use crate::parser::{
    ends_entry_exec, entry_end, heading_level, heading_level_of, lemma_entry_end, line_strings,
    stars, str_refs,
};
use crate::text::{
    str_views, string_views, char_vec_views,
    chars_of, contains, contains_chars, ends_with, ends_with_chars, join_strings, join_strs,
    joined, lines_of, push_char, push_chars, push_str, replace_all, replaced, starts_with,
    starts_with_chars, str_contains, str_eq, trim_chars, trimmed,
};
use crate::types::{DateInputType, TodoEntry};

verus! {

/// The index of the first line at or after `start` that is a headline of
/// level at most `level`, or the number of lines (or `start`, when it is past the end).
pub fn skip_entry_content(lines: &[&str], start: usize, level: usize) -> (r: usize)
    ensures
        r == entry_end(str_views(lines@), start as nat, level as nat),
{
    let ghost ls = str_views(lines@);
    let mut i = start;
    while i < lines.len()
        invariant
            start <= i,
            ls == str_views(lines@),
            entry_end(ls, i as nat, level as nat) == entry_end(ls, start as nat, level as nat),
        decreases lines@.len() - i,
    {
        assert(ls[i as int] == lines@[i as int]@);
        if ends_entry_exec(lines[i], level) {
            return i;
        }
        i = i + 1;
    }
    i
}

/// Why an edit could not be made.
#[derive(Clone, Copy, Debug, PartialEq, Eq, Structural)]
pub enum EditError {
    /// No headline of the text names the entry.
    EntryNotFound,
}

/// A headline line holding the entry's keyword and title.
pub open spec fn is_entry_heading(line: Seq<char>, keyword: Seq<char>, title: Seq<char>) -> bool {
    heading_level_of(line) is Some && contains(line, keyword) && contains(line, title)
}

/// Some line is a headline holding the entry's keyword and title.
pub open spec fn has_entry_heading(ls: Seq<Seq<char>>, keyword: Seq<char>, title: Seq<char>) -> bool {
    exists|j: int| 0 <= j < ls.len() && is_entry_heading(#[trigger] ls[j], keyword, title)
}

/// The lines from index `i` on with each entry whose headline holds the
/// keyword and title (headline and subtree) replaced by `new`.
pub open spec fn updated_from(
    ls: Seq<Seq<char>>,
    i: nat,
    keyword: Seq<char>,
    title: Seq<char>,
    new: Seq<char>,
) -> Seq<Seq<char>>
    decreases ls.len() - i,
{
    if i >= ls.len() {
        Seq::empty()
    } else if is_entry_heading(ls[i as int], keyword, title) {
        let next = entry_end(ls, i + 1, heading_level_of(ls[i as int])->0);
        proof {
            lemma_entry_end(ls, i + 1, heading_level_of(ls[i as int])->0);
        }
        seq![new] + updated_from(ls, next, keyword, title, new)
    } else {
        seq![ls[i as int]] + updated_from(ls, i + 1, keyword, title, new)
    }
}

/// The text with the entry's subtree replaced by `new_content`, lines joined
/// by newlines; `EntryNotFound` when no headline holds the entry's keyword and title.
pub fn update_todo_in_content(text: &str, todo: &TodoEntry, new_content: &str) -> (r: Result<
    String,
    EditError,
>)
    ensures
        match r {
            Ok(s) => has_entry_heading(lines_of(text@), todo.keyword@, todo.title@) && s@
                == joined(
                updated_from(lines_of(text@), 0, todo.keyword@, todo.title@, new_content@),
                seq!['\n'],
            ),
            Err(e) => !has_entry_heading(lines_of(text@), todo.keyword@, todo.title@) && e
                == EditError::EntryNotFound,
        },
{
    let ghost ls = lines_of(text@);
    let ghost kw = todo.keyword@;
    let ghost ti = todo.title@;
    let owned = line_strings(text);
    let lines = str_refs(&owned);
    let mut result: Vec<&str> = Vec::new();
    let mut i: usize = 0;
    let mut found = false;
    while i < lines.len()
        invariant
            i <= lines@.len(),
            str_views(lines@) == ls,
            kw == todo.keyword@,
            ti == todo.title@,
            str_views(result@) + updated_from(ls, i as nat, kw, ti, new_content@) == updated_from(
                ls,
                0,
                kw,
                ti,
                new_content@,
            ),
            found ==> has_entry_heading(ls, kw, ti),
            !found ==> forall|j: int| 0 <= j < i ==> !is_entry_heading(#[trigger] ls[j], kw, ti),
        decreases lines@.len() - i,
    {
        let line = lines[i];
        assert(ls[i as int] == line@);
        let ghost prev = str_views(result@);
        if let Some(level) = heading_level(line) {
            if str_contains(line, todo.keyword.as_str()) && str_contains(line, todo.title.as_str()) {
                result.push(new_content);
                assert(str_views(result@) == prev.push(new_content@));
                found = true;
                proof {
                    lemma_entry_end(ls, (i + 1) as nat, level as nat);
                }
                i = skip_entry_content(lines.as_slice(), i + 1, level);
                continue;
            }
        }
        result.push(line);
        assert(str_views(result@) == prev.push(line@));
        i = i + 1;
    }
    assert(updated_from(ls, i as nat, kw, ti, new_content@) == Seq::<Seq<char>>::empty());
    assert(str_views(result@) == updated_from(ls, 0, kw, ti, new_content@));
    if !found {
        return Err(EditError::EntryNotFound);
    }
    proof {
        reveal_strlit("\n");
    }
    assert("\n"@ == seq!['\n']);
    Ok(join_strs(result.as_slice(), "\n"))
}

/// The index of the first headline at or after `i` that holds the keyword and title.
pub open spec fn first_entry_heading_from(
    ls: Seq<Seq<char>>,
    keyword: Seq<char>,
    title: Seq<char>,
    i: nat,
) -> Option<nat>
    decreases ls.len() - i,
{
    if i >= ls.len() {
        None
    } else if is_entry_heading(ls[i as int], keyword, title) {
        Some(i)
    } else {
        first_entry_heading_from(ls, keyword, title, i + 1)
    }
}

pub proof fn lemma_first_entry_heading_from(
    ls: Seq<Seq<char>>,
    keyword: Seq<char>,
    title: Seq<char>,
    i: nat,
)
    ensures
        first_entry_heading_from(ls, keyword, title, i) matches Some(j) ==> i <= j < ls.len()
            && is_entry_heading(ls[j as int], keyword, title),
        forall|j: int|
            i <= j < ls.len() && (first_entry_heading_from(ls, keyword, title, i) matches Some(k)
                ==> j < k) ==> !is_entry_heading(#[trigger] ls[j], keyword, title),
    decreases ls.len() - i,
{
    if i < ls.len() && !is_entry_heading(ls[i as int], keyword, title) {
        lemma_first_entry_heading_from(ls, keyword, title, i + 1);
    }
}

/// The lines without the first entry (headline and subtree) whose headline
/// holds the keyword and title.
pub open spec fn without_entry(ls: Seq<Seq<char>>, keyword: Seq<char>, title: Seq<char>) -> Seq<
    Seq<char>,
> {
    match first_entry_heading_from(ls, keyword, title, 0) {
        None => ls,
        Some(j) => ls.subrange(0, j as int) + ls.subrange(
            entry_end(ls, j + 1, heading_level_of(ls[j as int])->0) as int,
            ls.len() as int,
        ),
    }
}

/// Index of the first headline that holds the keyword and title, or the number of lines.
fn first_entry_heading(lines: &[&str], keyword: &str, title: &str) -> (r: usize)
    ensures
        r <= lines@.len(),
        r < lines@.len() ==> first_entry_heading_from(str_views(lines@), keyword@, title@, 0)
            == Some(r as nat),
        r == lines@.len() ==> first_entry_heading_from(str_views(lines@), keyword@, title@, 0)
            is None,
{
    let ghost ls = str_views(lines@);
    let mut i: usize = 0;
    while i < lines.len()
        invariant
            i <= lines@.len(),
            ls == str_views(lines@),
            first_entry_heading_from(ls, keyword@, title@, i as nat) == first_entry_heading_from(
                ls,
                keyword@,
                title@,
                0,
            ),
        decreases lines@.len() - i,
    {
        let line = lines[i];
        assert(ls[i as int] == line@);
        if heading_level(line).is_some() && str_contains(line, keyword) && str_contains(line, title) {
            return i;
        }
        i = i + 1;
    }
    i
}

/// The text without the first entry whose headline holds the entry's keyword
/// and title, lines joined by newlines.
pub fn delete_entry_from_content(content: &str, todo: &TodoEntry) -> (r: String)
    ensures
        r@ == joined(without_entry(lines_of(content@), todo.keyword@, todo.title@), seq!['\n']),
{
    let ghost ls = lines_of(content@);
    let owned = line_strings(content);
    let lines = str_refs(&owned);
    let j = first_entry_heading(lines.as_slice(), todo.keyword.as_str(), todo.title.as_str());
    let mut result: Vec<&str> = Vec::new();
    let mut k: usize = 0;
    while k < j
        invariant
            k <= j <= lines@.len(),
            str_views(lines@) == ls,
            str_views(result@) == ls.subrange(0, k as int),
        decreases j - k,
    {
        assert(ls[k as int] == lines@[k as int]@);
        let ghost prev = str_views(result@);
        result.push(lines[k]);
        assert(str_views(result@) == prev.push(ls[k as int]));
        assert(str_views(result@) =~= ls.subrange(0, k + 1 as int));
        k = k + 1;
    }
    if j < lines.len() {
        proof {
            lemma_first_entry_heading_from(ls, todo.keyword@, todo.title@, 0);
        }
        let level = heading_level(lines[j]).unwrap();
        let end = skip_entry_content(lines.as_slice(), j + 1, level);
        proof {
            lemma_entry_end(ls, (j + 1) as nat, level as nat);
        }
        let mut k = end;
        while k < lines.len()
            invariant
                end <= k <= lines@.len(),
                str_views(lines@) == ls,
                str_views(result@) == ls.subrange(0, j as int) + ls.subrange(end as int, k as int),
            decreases lines@.len() - k,
        {
            assert(ls[k as int] == lines@[k as int]@);
            let ghost prev = str_views(result@);
            result.push(lines[k]);
            assert(str_views(result@) == prev.push(ls[k as int]));
            assert(str_views(result@) =~= ls.subrange(0, j as int) + ls.subrange(
                end as int,
                k + 1 as int,
            ));
            k = k + 1;
        }
    } else {
        assert(ls.subrange(0, j as int) == ls);
    }
    proof {
        reveal_strlit("\n");
    }
    assert("\n"@ == seq!['\n']);
    join_strs(result.as_slice(), "\n")
}

// ---------------------------------------------------------------------
// Dates
// ---------------------------------------------------------------------

/// A line that starts with `*` and holds the title.
pub open spec fn is_titled_line(line: Seq<char>, title: Seq<char>) -> bool {
    starts_with(line, seq!['*']) && contains(line, title)
}

/// The index of the first line at or after `i` that starts with `*` and holds the title.
pub open spec fn first_titled_from(ls: Seq<Seq<char>>, title: Seq<char>, i: nat) -> Option<nat>
    decreases ls.len() - i,
{
    if i >= ls.len() {
        None
    } else if is_titled_line(ls[i as int], title) {
        Some(i)
    } else {
        first_titled_from(ls, title, i + 1)
    }
}

pub proof fn lemma_first_titled_from(ls: Seq<Seq<char>>, title: Seq<char>, i: nat)
    ensures
        first_titled_from(ls, title, i) matches Some(j) ==> i <= j < ls.len() && is_titled_line(
            ls[j as int],
            title,
        ),
        forall|j: int|
            i <= j < ls.len() && (first_titled_from(ls, title, i) matches Some(k) ==> j < k)
                ==> !is_titled_line(#[trigger] ls[j], title),
    decreases ls.len() - i,
{
    if i < ls.len() && !is_titled_line(ls[i as int], title) {
        lemma_first_titled_from(ls, title, i + 1);
    }
}

/// The planning line for a date: `SCHEDULED: <date>`, `DEADLINE: <date>` or `<date>`.
pub open spec fn planning_line(date: Seq<char>, t: DateInputType) -> Seq<char> {
    match t {
        DateInputType::Scheduled => scheduled_keyword() + seq![' ', '<'] + date + seq!['>'],
        DateInputType::Deadline => deadline_keyword() + seq![' ', '<'] + date + seq!['>'],
        DateInputType::Plain => seq!['<'] + date + seq!['>'],
    }
}

/// A line right below the headline that a new date of this kind replaces: one
/// holding the kind's keyword, or for a plain date a bare `<...>` timestamp line.
pub open spec fn replaces_line(next: Seq<char>, t: DateInputType) -> bool {
    match planning_keyword(t) {
        Some(k) => contains(next, k),
        None => {
            let tr = trimmed(next);
            starts_with(tr, seq!['<']) && ends_with(tr, seq!['>']) && !contains(
                next,
                scheduled_keyword(),
            ) && !contains(next, deadline_keyword())
        },
    }
}

/// The lines with the planning line for `date` put right below the first line
/// that starts with `*` and holds the title, in place of a line it replaces.
pub open spec fn with_date(ls: Seq<Seq<char>>, title: Seq<char>, date: Seq<char>, t: DateInputType) -> Seq<
    Seq<char>,
> {
    match first_titled_from(ls, title, 0) {
        None => ls,
        Some(j) => {
            let rest: int = if j + 1 < ls.len() && replaces_line(ls[j + 1 as int], t) {
                j + 2int
            } else {
                j + 1int
            };
            ls.subrange(0, j + 1 as int).push(planning_line(date, t)) + ls.subrange(rest, ls.len() as int)
        },
    }
}

/// Index of the first line that starts with `*` and holds the title, or the number of lines.
fn first_titled_line(lines: &[&str], title: &str) -> (r: usize)
    ensures
        r <= lines@.len(),
        r < lines@.len() ==> first_titled_from(str_views(lines@), title@, 0) == Some(r as nat),
        r == lines@.len() ==> first_titled_from(str_views(lines@), title@, 0) is None,
{
    let ghost ls = str_views(lines@);
    let star = chars_of("*");
    proof {
        reveal_strlit("*");
    }
    assert(star@ == seq!['*']);
    let mut i: usize = 0;
    while i < lines.len()
        invariant
            i <= lines@.len(),
            ls == str_views(lines@),
            star@ == seq!['*'],
            first_titled_from(ls, title@, i as nat) == first_titled_from(ls, title@, 0),
        decreases lines@.len() - i,
    {
        let line = lines[i];
        assert(ls[i as int] == line@);
        let lc = chars_of(line);
        if starts_with_chars(lc.as_slice(), star.as_slice()) && str_contains(line, title) {
            return i;
        }
        i = i + 1;
    }
    i
}

/// The planning line for a date.
fn planning_line_exec(date: &str, input_type: &DateInputType) -> (r: String)
    ensures
        r@ == planning_line(date@, *input_type),
{
    let mut s = String::new();
    match input_type {
        DateInputType::Scheduled => {
            push_str(&mut s, "SCHEDULED: <");
            proof {
                reveal_strlit("SCHEDULED: <");
            }
            assert("SCHEDULED: <"@ == scheduled_keyword() + seq![' ', '<']);
        },
        DateInputType::Deadline => {
            push_str(&mut s, "DEADLINE: <");
            proof {
                reveal_strlit("DEADLINE: <");
            }
            assert("DEADLINE: <"@ == deadline_keyword() + seq![' ', '<']);
        },
        DateInputType::Plain => {
            push_char(&mut s, '<');
        },
    }
    push_str(&mut s, date);
    push_char(&mut s, '>');
    s
}

/// Whether a new date of this kind replaces the line below the headline.
fn replaces_line_exec(next: &str, input_type: &DateInputType) -> (r: bool)
    ensures
        r == replaces_line(next@, *input_type),
{
    let cs = chars_of(next);
    let sched = chars_of("SCHEDULED:");
    let dead = chars_of("DEADLINE:");
    proof {
        reveal_strlit("SCHEDULED:");
        reveal_strlit("DEADLINE:");
    }
    assert(sched@ == scheduled_keyword());
    assert(dead@ == deadline_keyword());
    match input_type {
        DateInputType::Scheduled => contains_chars(cs.as_slice(), sched.as_slice()),
        DateInputType::Deadline => contains_chars(cs.as_slice(), dead.as_slice()),
        DateInputType::Plain => {
            let tr = trim_chars(cs.as_slice());
            let open = vec!['<'];
            let close = vec!['>'];
            assert(open@ == seq!['<']);
            assert(close@ == seq!['>']);
            starts_with_chars(tr.as_slice(), open.as_slice()) && ends_with_chars(
                tr.as_slice(),
                close.as_slice(),
            ) && !contains_chars(cs.as_slice(), sched.as_slice()) && !contains_chars(
                cs.as_slice(),
                dead.as_slice(),
            )
        },
    }
}

/// The text with a planning line for `date` (`SCHEDULED: <date>`,
/// `DEADLINE: <date>` or `<date>`) right below the first line that starts with
/// `*` and holds the entry's title, in place of an existing line of that kind;
/// lines joined by newlines. Without such a line the text is only re-joined.
pub fn add_date_to_content(content: &str, todo: &TodoEntry, date: &str, input_type: &DateInputType) -> (r: String)
    ensures
        r@ == joined(with_date(lines_of(content@), todo.title@, date@, *input_type), seq!['\n']),
{
    let ghost ls = lines_of(content@);
    let ghost ti = todo.title@;
    let new_line = planning_line_exec(date, input_type);
    let owned = line_strings(content);
    let lines = str_refs(&owned);
    let j = first_titled_line(lines.as_slice(), todo.title.as_str());
    proof {
        lemma_first_titled_from(ls, ti, j as nat);
    }
    let mut result: Vec<&str> = Vec::new();
    let mut k: usize = 0;
    while k < j && k < lines.len()
        invariant
            k <= j,
            k <= lines@.len(),
            str_views(lines@) == ls,
            str_views(result@) == ls.subrange(0, k as int),
        decreases lines@.len() - k,
    {
        assert(ls[k as int] == lines@[k as int]@);
        let ghost prev = str_views(result@);
        result.push(lines[k]);
        assert(str_views(result@) == prev.push(ls[k as int]));
        assert(str_views(result@) =~= ls.subrange(0, k + 1 as int));
        k = k + 1;
    }
    if j < lines.len() {
        assert(ls[j as int] == lines@[j as int]@);
        let ghost prev = str_views(result@);
        result.push(lines[j]);
        assert(str_views(result@) == prev.push(ls[j as int]));
        assert(str_views(result@) =~= ls.subrange(0, j + 1 as int));
        let mut rest = j + 1;
        if j + 1 < lines.len() {
            assert(ls[j + 1] == lines@[j + 1]@);
            if replaces_line_exec(lines[j + 1], input_type) {
                rest = j + 2;
            }
        }
        let ghost head = str_views(result@);
        result.push(new_line.as_str());
        assert(str_views(result@) == head.push(new_line@));
        assert(with_date(ls, ti, date@, *input_type) == head.push(new_line@) + ls.subrange(
            rest as int,
            ls.len() as int,
        ));
        let mut k = rest;
        while k < lines.len()
            invariant
                rest <= k <= lines@.len(),
                str_views(lines@) == ls,
                str_views(result@) == head.push(new_line@) + ls.subrange(rest as int, k as int),
            decreases lines@.len() - k,
        {
            assert(ls[k as int] == lines@[k as int]@);
            let ghost prev = str_views(result@);
            result.push(lines[k]);
            assert(str_views(result@) == prev.push(ls[k as int]));
            assert(str_views(result@) =~= head.push(new_line@) + ls.subrange(
                rest as int,
                k + 1 as int,
            ));
            k = k + 1;
        }
    } else {
        assert(ls.subrange(0, k as int) == ls);
    }
    proof {
        reveal_strlit("\n");
    }
    assert("\n"@ == seq!['\n']);
    join_strs(result.as_slice(), "\n")
}

// ---------------------------------------------------------------------
// Keywords
// ---------------------------------------------------------------------

/// The start of a headline of level one: `* KEYWORD Title`.
pub open spec fn headline_text(keyword: Seq<char>, title: Seq<char>) -> Seq<char> {
    seq!['*', ' '] + keyword + seq![' '] + title
}

fn headline_text_exec(keyword: &str, title: &str) -> (r: Vec<char>)
    ensures
        r@ == headline_text(keyword@, title@),
{
    let mut v: Vec<char> = Vec::new();
    v.push('*');
    v.push(' ');
    let k = chars_of(keyword);
    let t = chars_of(title);
    let mut i: usize = 0;
    while i < k.len()
        invariant
            i <= k@.len(),
            v@ == seq!['*', ' '] + k@.subrange(0, i as int),
        decreases k@.len() - i,
    {
        v.push(k[i]);
        i = i + 1;
        assert(v@ =~= seq!['*', ' '] + k@.subrange(0, i as int));
    }
    v.push(' ');
    let mut i: usize = 0;
    let ghost head = v@;
    while i < t.len()
        invariant
            i <= t@.len(),
            v@ == head + t@.subrange(0, i as int),
        decreases t@.len() - i,
    {
        v.push(t[i]);
        i = i + 1;
        assert(v@ =~= head + t@.subrange(0, i as int));
    }
    assert(k@.subrange(0, k@.len() as int) == k@);
    assert(t@.subrange(0, t@.len() as int) == t@);
    v
}

/// The text with every `* KEYWORD Title` of the entry turned into
/// `* NEW_KEYWORD Title`.
pub fn toggle_keyword_in_content(content: &str, todo: &TodoEntry, new_keyword: &str) -> (r: String)
    ensures
        r@ == replaced(
            content@,
            headline_text(todo.keyword@, todo.title@),
            headline_text(new_keyword@, todo.title@),
        ),
{
    let cs = chars_of(content);
    let from = headline_text_exec(todo.keyword.as_str(), todo.title.as_str());
    let to = headline_text_exec(new_keyword, todo.title.as_str());
    replace_all(cs.as_slice(), from.as_slice(), to.as_slice())
}

/// The keyword an entry is toggled to: `DONE` for a `TODO`, `TODO` for anything else.
pub open spec fn toggled_keyword(keyword: Seq<char>) -> Seq<char> {
    if keyword == seq!['T', 'O', 'D', 'O'] {
        seq!['D', 'O', 'N', 'E']
    } else {
        seq!['T', 'O', 'D', 'O']
    }
}

/// The keyword an entry is toggled to: `DONE` for a `TODO`, `TODO` for anything else.
pub fn next_keyword(keyword: &str) -> (r: &'static str)
    ensures
        r@ == toggled_keyword(keyword@),
{
    let todo = "TODO";
    proof {
        reveal_strlit("TODO");
        reveal_strlit("DONE");
    }
    assert("TODO"@ == seq!['T', 'O', 'D', 'O']);
    assert("DONE"@ == seq!['D', 'O', 'N', 'E']);
    let same = str_eq(keyword, todo);
    if same {
        "DONE"
    } else {
        "TODO"
    }
}

// ---------------------------------------------------------------------
// Tags
// ---------------------------------------------------------------------

/// Bytes of a character in UTF-8 (`char::len_utf8`).
pub open spec fn utf8_width(c: char) -> nat {
    let n = c as u32;
    if n < 0x80 {
        1
    } else if n < 0x800 {
        2
    } else if n < 0x10000 {
        3
    } else {
        4
    }
}

/// Bytes of a text in UTF-8 (`str::len`).
pub open spec fn utf8_len(s: Seq<char>) -> nat
    decreases s.len(),
{
    if s.len() == 0 {
        0
    } else {
        utf8_len(s.drop_last()) + utf8_width(s.last())
    }
}

proof fn lemma_utf8_len_grows(s: Seq<char>, k: int)
    requires
        0 <= k <= s.len(),
    ensures
        utf8_len(s.subrange(0, k)) <= utf8_len(s),
    decreases s.len() - k,
{
    if k < s.len() {
        lemma_utf8_len_grows(s, k + 1);
        assert(s.subrange(0, k + 1).drop_last() == s.subrange(0, k));
    } else {
        assert(s.subrange(0, k) == s);
    }
}

/// The UTF-8 length of `s` when it is at most `cap`.
fn utf8_len_at_most(s: &[char], cap: usize) -> (r: Option<usize>)
    ensures
        r matches Some(n) ==> n == utf8_len(s@) && n <= cap,
        r is None ==> utf8_len(s@) > cap,
{
    let mut total: usize = 0;
    let mut i: usize = 0;
    while i < s.len()
        invariant
            i <= s@.len(),
            total == utf8_len(s@.subrange(0, i as int)),
            total <= cap,
        decreases s@.len() - i,
    {
        let n = s[i] as u32;
        let w: usize = if n < 0x80 {
            1
        } else if n < 0x800 {
            2
        } else if n < 0x10000 {
            3
        } else {
            4
        };
        assert(s@.subrange(0, i + 1 as int).drop_last() == s@.subrange(0, i as int));
        if w > cap - total {
            proof {
                lemma_utf8_len_grows(s@, i + 1);
            }
            return None;
        }
        total = total + w;
        i = i + 1;
    }
    assert(s@.subrange(0, s@.len() as int) == s@);
    Some(total)
}

/// A headline's text without tags: stars, keyword and title.
pub open spec fn heading_base(level: nat, keyword: Seq<char>, title: Seq<char>) -> Seq<char> {
    stars(level) + seq![' '] + keyword + seq![' '] + title
}

/// Tags as org writes them: `:a:b:`.
pub open spec fn tags_text(tags: Seq<Seq<char>>) -> Seq<char> {
    seq![':'] + joined(tags, seq![':']) + seq![':']
}

/// Spaces before the tags: enough to end them at column 77, at least one.
pub open spec fn tag_padding(base_len: nat, tags_len: nat) -> nat {
    if base_len + 1 + tags_len <= 77 {
        (77 - base_len - tags_len) as nat
    } else {
        1
    }
}

/// `n` spaces.
pub open spec fn spaces(n: nat) -> Seq<char> {
    Seq::new(n, |i: int| ' ')
}

/// The headline of an entry with the given tags (none: no tag column).
pub open spec fn tagged_heading(level: nat, keyword: Seq<char>, title: Seq<char>, tags: Seq<Seq<char>>) -> Seq<
    char,
> {
    let base = heading_base(level, keyword, title);
    if tags.len() == 0 {
        base
    } else {
        base + spaces(tag_padding(utf8_len(base), utf8_len(tags_text(tags)))) + tags_text(tags)
    }
}

/// A headline line of the entry: starts with `*` and holds its keyword and title.
pub open spec fn is_tagged_line(line: Seq<char>, keyword: Seq<char>, title: Seq<char>) -> bool {
    starts_with(line, seq!['*']) && contains(line, keyword) && contains(line, title)
}

/// The lines with every headline line of the entry replaced by `heading`.
pub open spec fn retagged(ls: Seq<Seq<char>>, keyword: Seq<char>, title: Seq<char>, heading: Seq<char>) -> Seq<
    Seq<char>,
> {
    ls.map_values(
        |l: Seq<char>|
            if is_tagged_line(l, keyword, title) {
                heading
            } else {
                l
            },
    )
}

fn tagged_heading_exec(todo: &TodoEntry, new_tags: &[String]) -> (r: String)
    ensures
        r@ == tagged_heading(
            todo.level as nat,
            todo.keyword@,
            todo.title@,
            string_views(new_tags@),
        ),
{
    let mut base = String::new();
    let mut i: usize = 0;
    while i < todo.level
        invariant
            i <= todo.level,
            base@ == stars(i as nat),
        decreases todo.level - i,
    {
        push_char(&mut base, '*');
        i = i + 1;
        assert(base@ =~= stars(i as nat));
    }
    push_char(&mut base, ' ');
    push_str(&mut base, todo.keyword.as_str());
    push_char(&mut base, ' ');
    push_str(&mut base, todo.title.as_str());
    assert(base@ =~= heading_base(todo.level as nat, todo.keyword@, todo.title@));
    if new_tags.len() == 0 {
        return base;
    }
    let mut tags_str = String::new();
    push_char(&mut tags_str, ':');
    let inner = join_strings(new_tags, ":");
    proof {
        reveal_strlit(":");
    }
    assert(":"@ == seq![':']);
    push_str(&mut tags_str, inner.as_str());
    push_char(&mut tags_str, ':');
    assert(tags_str@ =~= tags_text(string_views(new_tags@)));
    let bc = chars_of(base.as_str());
    let tc = chars_of(tags_str.as_str());
    let padding: usize = match (utf8_len_at_most(bc.as_slice(), 77), utf8_len_at_most(tc.as_slice(), 77)) {
        (Some(b), Some(t)) => {
            if b <= 76 && t <= 76 - b {
                77 - b - t
            } else {
                1
            }
        },
        _ => 1,
    };
    let mut line = base;
    let ghost head = line@;
    let mut k: usize = 0;
    while k < padding
        invariant
            k <= padding,
            line@ == head + spaces(k as nat),
        decreases padding - k,
    {
        push_char(&mut line, ' ');
        k = k + 1;
        assert(line@ =~= head + spaces(k as nat));
    }
    assert(padding == tag_padding(utf8_len(bc@), utf8_len(tc@)));
    push_str(&mut line, tags_str.as_str());
    line
}

/// The text with every line that starts with `*` and holds the entry's keyword
/// and title replaced by its headline with the new tags (`:a:b:` ending at
/// column 77, at least one space before them); lines joined by newlines.
pub fn update_tags_in_content(content: &str, todo: &TodoEntry, new_tags: &[String]) -> (r: String)
    ensures
        r@ == joined(
            retagged(
                lines_of(content@),
                todo.keyword@,
                todo.title@,
                tagged_heading(
                    todo.level as nat,
                    todo.keyword@,
                    todo.title@,
                    string_views(new_tags@),
                ),
            ),
            seq!['\n'],
        ),
{
    let ghost ls = lines_of(content@);
    let heading = tagged_heading_exec(todo, new_tags);
    let owned = line_strings(content);
    let ghost target = retagged(ls, todo.keyword@, todo.title@, heading@);
    let mut result: Vec<String> = Vec::new();
    let star = "*";
    proof {
        reveal_strlit("*");
    }
    let mut i: usize = 0;
    while i < owned.len()
        invariant
            i <= owned@.len(),
            string_views(owned@) == ls,
            star@ == seq!['*'],
            target == retagged(ls, todo.keyword@, todo.title@, heading@),
            string_views(result@) == target.subrange(0, i as int),
        decreases owned@.len() - i,
    {
        let line = owned[i].as_str();
        assert(ls[i as int] == line@);
        let lc = chars_of(line);
        let sc = chars_of(star);
        let ghost prev = string_views(result@);
        if starts_with_chars(lc.as_slice(), sc.as_slice()) && str_contains(line, todo.keyword.as_str())
            && str_contains(line, todo.title.as_str()) {
            assert(target[i as int] == heading@);
            result.push(heading.clone());
            assert(string_views(result@) == prev.push(heading@));
        } else {
            assert(target[i as int] == ls[i as int]);
            result.push(owned[i].clone());
            assert(string_views(result@) == prev.push(ls[i as int]));
        }
        assert(string_views(result@) =~= target.subrange(0, i + 1 as int));
        i = i + 1;
    }
    assert(target.subrange(0, owned@.len() as int) == target);
    proof {
        reveal_strlit("\n");
    }
    assert("\n"@ == seq!['\n']);
    join_strings(result.as_slice(), "\n")
}

// ---------------------------------------------------------------------
// New entries
// ---------------------------------------------------------------------

/// The text appended to the inbox for a new note created at `created`.
pub open spec fn new_note_text(created: Seq<char>) -> Seq<char> {
    "\n* New Note\n:PROPERTIES:\n:CREATED: ["@ + created + "]\n:END:\n"@
}

/// The text appended to the inbox for a new note created at `created`.
pub fn new_note_entry(created: &str) -> (r: String)
    ensures
        r@ == new_note_text(created@),
{
    let mut s = String::new();
    push_str(&mut s, "\n* New Note\n:PROPERTIES:\n:CREATED: [");
    push_str(&mut s, created);
    push_str(&mut s, "]\n:END:\n");
    s
}

/// The text appended to the inbox for a captured TODO scheduled on `scheduled`.
pub open spec fn quick_capture_text(title: Seq<char>, scheduled: Seq<char>, created: Seq<char>) -> Seq<
    char,
> {
    "\n* TODO "@ + title + "\nSCHEDULED: <"@ + scheduled + ">\n:PROPERTIES:\n:CREATED: ["@ + created
        + "]\n:END:\n"@
}

/// The text appended to the inbox for a captured TODO scheduled on `scheduled`.
pub fn quick_capture_entry(title: &str, scheduled: &str, created: &str) -> (r: String)
    ensures
        r@ == quick_capture_text(title@, scheduled@, created@),
{
    let mut s = String::new();
    push_str(&mut s, "\n* TODO ");
    push_str(&mut s, title);
    push_str(&mut s, "\nSCHEDULED: <");
    push_str(&mut s, scheduled);
    push_str(&mut s, ">\n:PROPERTIES:\n:CREATED: [");
    push_str(&mut s, created);
    push_str(&mut s, "]\n:END:\n");
    s
}

} // verus!
