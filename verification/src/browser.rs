//! The decisions of the interactive views: moving selections, editing a tag
//! list, the texts of titles and labels, and the days of the week agenda.

use vstd::prelude::*;
use crate::agenda::{monday_number, week_in_range};
use crate::calendar::{
    checked_add_days, chrono_date_text, days_between, format_date, max_date, min_date, lemma_valid_in_range, long_day_format,
    minus_days, month_abbrev, plus_days, today, weekday_from_monday, weekday_name, zero_padded4, Date,
};
use crate::dates::{display_date, display_date_on};
use crate::text::{
    decimal, push_decimal, zero_padded2, chars_of, join_strings, joined, push_char, push_str, str_eq, string_of, string_views,
    trim_chars, trimmed,
};
use crate::types::{todo_views, TodoEntry, ViewFilter};

verus! {

// ---------------------------------------------------------------------
// Selections
// ---------------------------------------------------------------------

/// The selection one row up, stopping at the first row.
pub fn select_up(selected: usize) -> (r: usize)
    ensures
        r == if selected == 0 {
            0
        } else {
            selected - 1
        },
{
    if selected == 0 {
        0
    } else {
        selected - 1
    }
}

/// The selection one row down in a list of `len` rows, stopping at the last row.
pub fn select_down(selected: usize, len: usize) -> (r: usize)
    ensures
        r == if selected + 1 < len {
            selected + 1
        } else {
            selected as int
        },
{
    let last = if len == 0 {
        0
    } else {
        len - 1
    };
    if selected < last {
        selected + 1
    } else {
        selected
    }
}

/// The other view.
pub open spec fn toggled_filter(f: ViewFilter) -> ViewFilter {
    match f {
        ViewFilter::All => ViewFilter::Today,
        ViewFilter::Today => ViewFilter::All,
    }
}

impl ViewFilter {
    /// The other view: the week agenda after all TODOs, and all TODOs after the agenda.
    pub fn toggled(&self) -> (r: ViewFilter)
        ensures
            r == toggled_filter(*self),
    {
        match self {
            ViewFilter::All => ViewFilter::Today,
            ViewFilter::Today => ViewFilter::All,
        }
    }
}

// ---------------------------------------------------------------------
// The tag list
// ---------------------------------------------------------------------

/// The tags being edited and the selected row.
pub struct TagList {
    pub tags: Vec<String>,
    pub selected: usize,
}

impl TagList {
    /// The tag list of an entry, with the first row selected.
    pub fn new(tags: Vec<String>) -> (r: TagList)
        ensures
            r.tags@ == tags@,
            r.selected == 0,
    {
        TagList { tags, selected: 0 }
    }

    /// Moves the selection one row up.
    pub fn select_up(&mut self)
        ensures
            final(self).tags@ == old(self).tags@,
            final(self).selected == if old(self).selected == 0 {
                0
            } else {
                old(self).selected - 1
            },
    {
        self.selected = select_up(self.selected);
    }

    /// Moves the selection one row down.
    pub fn select_down(&mut self)
        ensures
            final(self).tags@ == old(self).tags@,
            final(self).selected == if old(self).selected + 1 < old(self).tags@.len() {
                old(self).selected + 1
            } else {
                old(self).selected as int
            },
    {
        self.selected = select_down(self.selected, self.tags.len());
    }

    /// The tag that Enter opens for editing: the selected one, if any.
    pub fn selected_tag(&self) -> (r: Option<String>)
        ensures
            match r {
                Some(t) => self.selected < self.tags@.len() && t@ == self.tags@[self.selected as int]@,
                None => self.selected >= self.tags@.len(),
            },
    {
        if self.selected < self.tags.len() {
            Some(self.tags[self.selected].clone())
        } else {
            None
        }
    }

    /// Stores an edited tag in the selected row; an empty edit keeps the old tag.
    pub fn commit_edit(&mut self, new_tag: String)
        requires
            old(self).selected < old(self).tags@.len(),
        ensures
            final(self).selected == old(self).selected,
            final(self).tags@ == if new_tag@.len() == 0 {
                old(self).tags@
            } else {
                old(self).tags@.update(old(self).selected as int, new_tag)
            },
    {
        let empty = chars_of(new_tag.as_str()).len() == 0;
        if !empty {
            self.tags.set(self.selected, new_tag);
        }
    }

    /// Adds an empty tag at the end and selects it.
    pub fn add_tag(&mut self)
        requires
            old(self).tags@.len() < usize::MAX,
        ensures
            final(self).tags@.len() == old(self).tags@.len() + 1,
            final(self).tags@.subrange(0, old(self).tags@.len() as int) == old(self).tags@,
            final(self).tags@.last()@ == Seq::<char>::empty(),
            final(self).selected == old(self).tags@.len(),
    {
        self.tags.push(String::new());
        self.selected = self.tags.len() - 1;
    }

    /// Removes the selected tag; the selection stays on the last row when it
    /// was the last row.
    pub fn remove_selected(&mut self)
        ensures
            old(self).selected < old(self).tags@.len() ==> final(self).tags@ == old(self).tags@.remove(
                old(self).selected as int,
            ),
            old(self).selected >= old(self).tags@.len() ==> final(self).tags@ == old(self).tags@,
            final(self).selected == if old(self).selected < old(self).tags@.len()
                && old(self).selected >= final(self).tags@.len() && final(self).tags@.len() > 0 {
                (final(self).tags@.len() - 1) as usize
            } else {
                old(self).selected
            },
    {
        if self.selected < self.tags.len() && self.tags.len() > 0 {
            self.tags.remove(self.selected);
            if self.selected >= self.tags.len() && self.tags.len() > 0 {
                self.selected = self.tags.len() - 1;
            }
        }
    }

    /// The row a mouse click on screen row `row` selects: the list starts on
    /// row 2, one tag per row.
    pub fn clicked_index(&self, row: usize) -> (r: Option<usize>)
        ensures
            r == if 2 <= row && row < 2 + self.tags@.len() {
                Some((row - 2) as usize)
            } else {
                None::<usize>
            },
    {
        if row >= 2 && row - 2 < self.tags.len() {
            Some(row - 2)
        } else {
            None
        }
    }
}

// ---------------------------------------------------------------------
// Titles and labels
// ---------------------------------------------------------------------

/// The tags shown after a title: ` :a:b: `, or nothing without tags.
pub open spec fn tags_label_text(tags: Seq<Seq<char>>) -> Seq<char> {
    if tags.len() == 0 {
        Seq::empty()
    } else {
        seq![' ', ':'] + joined(tags, seq![':']) + seq![':', ' ']
    }
}

/// The tags shown after a title: ` :a:b: `, or nothing without tags.
pub fn tags_label(tags: &[String]) -> (r: String)
    ensures
        r@ == tags_label_text(string_views(tags@)),
{
    let mut s = String::new();
    if tags.len() == 0 {
        return s;
    }
    push_char(&mut s, ' ');
    push_char(&mut s, ':');
    let inner = join_strings(tags, ":");
    proof {
        reveal_strlit(":");
    }
    assert(":"@ == seq![':']);
    push_str(&mut s, inner.as_str());
    push_char(&mut s, ':');
    push_char(&mut s, ' ');
    assert(s@ =~= tags_label_text(string_views(tags@)));
    s
}

/// The title of the editor: `Editing: [KEYWORD] Title`.
pub fn editor_title(todo: &TodoEntry) -> (r: String)
    ensures
        r@ == "Editing: ["@ + todo.keyword@ + "] "@ + todo.title@,
{
    let mut s = String::new();
    push_str(&mut s, "Editing: [");
    push_str(&mut s, todo.keyword.as_str());
    push_str(&mut s, "] ");
    push_str(&mut s, todo.title.as_str());
    s
}

/// The title of the viewer: `[KEYWORD] Title`.
pub fn viewer_title(todo: &TodoEntry) -> (r: String)
    ensures
        r@ == "["@ + todo.keyword@ + "] "@ + todo.title@,
{
    let mut s = String::new();
    push_str(&mut s, "[");
    push_str(&mut s, todo.keyword.as_str());
    push_str(&mut s, "] ");
    push_str(&mut s, todo.title.as_str());
    s
}

/// The title of a quick capture: its lines joined by spaces, trimmed.
pub fn capture_title(lines: &[String]) -> (r: String)
    ensures
        r@ == trimmed(joined(string_views(lines@), " "@)),
{
    let joined_text = join_strings(lines, " ");
    let cs = chars_of(joined_text.as_str());
    let t = trim_chars(cs.as_slice());
    string_of(t.as_slice())
}

/// How a keyword is coloured.
#[derive(Clone, Copy, Debug, PartialEq, Eq, Structural)]
pub enum KeywordKind {
    Todo,
    Done,
    Other,
}

/// The colouring of a keyword: `TODO`, `DONE`, or any other.
pub fn keyword_kind(keyword: &str) -> (r: KeywordKind)
    ensures
        r == if keyword@ == "TODO"@ {
            KeywordKind::Todo
        } else if keyword@ == "DONE"@ {
            KeywordKind::Done
        } else {
            KeywordKind::Other
        },
{
    if str_eq(keyword, "TODO") {
        KeywordKind::Todo
    } else if str_eq(keyword, "DONE") {
        KeywordKind::Done
    } else {
        KeywordKind::Other
    }
}

// ---------------------------------------------------------------------
// The week agenda
// ---------------------------------------------------------------------

/// The seven days, Monday to Sunday, of the week of `today`.
pub fn week_days(today: &Date) -> (r: Vec<Date>)
    requires
        today.valid(),
        week_in_range(*today),
    ensures
        r@.len() == 7,
        forall|k: int| 0 <= k < 7 ==> (#[trigger] r@[k]).valid() && r@[k].day_number() == monday_number(*today) + k,
{
    let w = weekday_from_monday(today);
    let monday = minus_days(today, w as i64);
    let mut days: Vec<Date> = Vec::new();
    let mut k: i64 = 0;
    while k < 7
        invariant
            0 <= k <= 7,
            monday.valid(),
            monday.day_number() == monday_number(*today),
            week_in_range(*today),
            days@.len() == k,
            forall|j: int| 0 <= j < k ==> (#[trigger] days@[j]).valid() && days@[j].day_number() == monday_number(*today) + j,
        decreases 7 - k,
    {
        days.push(plus_days(&monday, k));
        k = k + 1;
    }
    days
}

/// The current day and, when its whole week lies in `chrono`'s range, the
/// seven days of that week, Monday first.
pub fn current_week() -> (r: (Date, Option<Vec<Date>>))
    ensures
        r.0.valid(),
        r.1 is Some <==> week_in_range(r.0),
        r.1 matches Some(days) ==> days@.len() == 7 && forall|k: int|
            0 <= k < 7 ==> (#[trigger] days@[k]).valid() && days@[k].day_number() == monday_number(
                r.0,
            ) + k,
{
    let now = today();
    let w = weekday_from_monday(&now);
    match checked_add_days(&now, -(w as i64)) {
        None => (now, None),
        Some(monday) => match checked_add_days(&monday, 6) {
            None => (now, None),
            Some(_) => (now, Some(week_days(&now))),
        },
    }
}

/// The heading of a day in the week agenda, such as `Monday, 16 Mar, 2026`:
/// the day as `chrono` formats `%A, %d %b, %Y`.
pub fn day_heading(d: &Date) -> (r: String)
    requires
        d.valid(),
    ensures
        r@ == chrono_date_text(*d, long_day_format()),
        0 <= d.year <= 9999 ==> r@ == weekday_name(d.weekday()) + seq![',', ' '] + zero_padded2(
            d.day as nat,
        ) + seq![' '] + month_abbrev(d.month as int) + seq![',', ' '] + zero_padded4(d.year as nat),
{
    proof {
        reveal_strlit("%A, %d %b, %Y");
    }
    assert("%A, %d %b, %Y"@ == long_day_format());
    format_date(d, "%A, %d %b, %Y")
}

/// The tag of how far a day lies from today, as the week agenda shows it:
/// `[Today]`, `[Tmrw]` and `[Yday]`; otherwise a sign and the distance, in
/// days below a week, in whole weeks below thirty days, and else in whole
/// months of thirty days: `[+2d]`, `[-1W]`, `[+3M]`.
pub open spec fn distance_tag_text(n: int) -> Seq<char> {
    if n == 0 {
        "[Today]"@
    } else if n == 1 {
        "[Tmrw]"@
    } else if n == -1 {
        "[Yday]"@
    } else {
        let a: nat = if n < 0 { (-n) as nat } else { n as nat };
        let sign = if n < 0 { '-' } else { '+' };
        let amount = if a < 7 {
            decimal(a).push('d')
        } else if a < 30 {
            decimal(a / 7).push('W')
        } else {
            decimal(a / 30).push('M')
        };
        seq!['[', sign] + amount + seq![']']
    }
}

/// The distance tag of a day `days` days after today (before it when negative).
pub fn distance_tag(days: i64) -> (r: String)
    requires
        -0xffff_ffff <= days <= 0xffff_ffff,
    ensures
        r@ == distance_tag_text(days as int),
{
    let mut s = String::new();
    if days == 0 {
        push_str(&mut s, "[Today]");
        proof {
            reveal_strlit("[Today]");
        }
        return s;
    }
    if days == 1 {
        push_str(&mut s, "[Tmrw]");
        proof {
            reveal_strlit("[Tmrw]");
        }
        return s;
    }
    if days == -1 {
        push_str(&mut s, "[Yday]");
        proof {
            reveal_strlit("[Yday]");
        }
        return s;
    }
    let a: u32 = if days < 0 {
        (-days) as u32
    } else {
        days as u32
    };
    push_char(&mut s, '[');
    push_char(&mut s, if days < 0 { '-' } else { '+' });
    let ghost before = s@;
    if a < 7 {
        push_decimal(&mut s, a);
        push_char(&mut s, 'd');
    } else if a < 30 {
        push_decimal(&mut s, a / 7);
        push_char(&mut s, 'W');
    } else {
        push_decimal(&mut s, a / 30);
        push_char(&mut s, 'M');
    }
    push_char(&mut s, ']');
    assert(s@ =~= distance_tag_text(days as int));
    s
}

/// The distance tag of `day` seen from `today`.
pub fn distance_tag_on(day: &Date, today: &Date) -> (r: String)
    requires
        day.valid(),
        today.valid(),
    ensures
        r@ == distance_tag_text(day.day_number() - today.day_number()),
{
    proof {
        lemma_valid_in_range(*day);
        lemma_valid_in_range(*today);
        assert(-100_000_000 <= min_date().day_number());
        assert(max_date().day_number() <= 100_000_000);
    }
    let n = days_between(day, today);
    distance_tag(n)
}

/// The positions of the entries shown under `day` in the week agenda: those
/// whose display date (nearest to `today`) is `day`.
pub fn agenda_entries_on(todos: &[TodoEntry], day: &Date, today: &Date) -> (r: Vec<usize>)
    requires
        today.valid(),
    ensures
        forall|k: int| 0 <= k < r@.len() ==> (#[trigger] r@[k]) < todos@.len(),
        forall|k: int, l: int| 0 <= k < l < r@.len() ==> r@[k] < r@[l],
        forall|i: int|
            0 <= i < todos@.len() ==> (r@.contains(i as usize) <==> display_date(
                #[trigger] todos@[i].content@,
                *today,
            ) == Some(*day)),
{
    let mut r: Vec<usize> = Vec::new();
    let mut i: usize = 0;
    while i < todos.len()
        invariant
            i <= todos@.len(),
            today.valid(),
            forall|k: int| 0 <= k < r@.len() ==> (#[trigger] r@[k]) < i,
            forall|k: int, l: int| 0 <= k < l < r@.len() ==> r@[k] < r@[l],
            forall|j: int|
                0 <= j < i ==> (r@.contains(j as usize) <==> display_date(
                    #[trigger] todos@[j].content@,
                    *today,
                ) == Some(*day)),
        decreases todos@.len() - i,
    {
        let d = display_date_on(&todos[i], today);
        let ghost prev = r@;
        if d == Some(*day) {
            r.push(i);
            assert(r@[prev.len() as int] == i);
        }
        assert forall|j: int| 0 <= j < i + 1 implies (r@.contains(j as usize) <==> display_date(
            #[trigger] todos@[j].content@,
            *today,
        ) == Some(*day)) by {
            if j < i {
                if r@.contains(j as usize) && !prev.contains(j as usize) {
                    let k = choose|k: int| 0 <= k < r@.len() && r@[k] == j as usize;
                    assert(k == prev.len());
                }
                if prev.contains(j as usize) {
                    let k = choose|k: int| 0 <= k < prev.len() && prev[k] == j as usize;
                    assert(r@[k] == j as usize);
                }
            } else {
                if r@.contains(j as usize) && !(d == Some(*day)) {
                    let k = choose|k: int| 0 <= k < r@.len() && r@[k] == j as usize;
                    assert(prev[k] < i);
                }
            }
        }
        i = i + 1;
    }
    r
}

} // verus!
