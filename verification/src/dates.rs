//! Org timestamps: finding `<...>` timestamps in entry text, reading their
//! date and clock time, and choosing the date an entry is shown under.

use vstd::prelude::*;
use crate::calendar::{chrono_parse_ymd, days_between, lemma_valid_in_range, parse_ymd, today, Date};
use crate::text::{
    str_views, string_views, char_vec_views,
    char_index_from, chars_of, find, find_chars, lemma_char_index_from, lemma_find_is_first,
    lines, lines_of, occurs_at, parse_u32, split_words, string_of, u32_of, words, index_of_char,
};
use crate::types::{DateInputType, TodoEntry};

verus! {

// ---------------------------------------------------------------------
// Specification
// ---------------------------------------------------------------------

/// The clock time `H:M` of a text holding exactly one `:` with a `u32` on each side.
pub open spec fn clock_of(t: Seq<char>) -> Option<(u32, u32)> {
    let c = char_index_from(t, ':', 0);
    if c < t.len() && char_index_from(t, ':', c + 1) == t.len() {
        match (u32_of(t.subrange(0, c as int)), u32_of(t.subrange(c + 1 as int, t.len() as int))) {
            (Some(h), Some(m)) => Some((h, m)),
            _ => None,
        }
    } else {
        None
    }
}

/// What a timestamp holds when its first word reads as `date`: that date, and
/// the clock time of its third word when there is one; nothing for a
/// timestamp without words or whose first word is no date.
pub open spec fn timestamp_with(s: Seq<char>, date: Option<Date>) -> Option<(Date, Option<(u32, u32)>)> {
    let parts = words(s);
    if parts.len() == 0 {
        None
    } else {
        match date {
            None => None,
            Some(d) => Some(
                (
                    d,
                    if parts.len() > 2 {
                        clock_of(parts[2])
                    } else {
                        None
                    },
                ),
            ),
        }
    }
}

/// What an org timestamp such as `2026-03-16 Mon 09:30` holds: the date of its
/// first word, and the clock time of its third word when there is one.
pub open spec fn org_timestamp(s: Seq<char>) -> Option<(Date, Option<(u32, u32)>)> {
    let parts = words(s);
    if parts.len() == 0 {
        None
    } else {
        timestamp_with(s, chrono_parse_ymd(parts[0]))
    }
}

/// The part of a line searched for timestamps: everything after the first
/// occurrence of the keyword, or the whole line when there is no keyword.
pub open spec fn search_area(line: Seq<char>, keyword: Option<Seq<char>>) -> Option<Seq<char>> {
    match keyword {
        None => Some(line),
        Some(k) => match find(line, k) {
            Some(p) => Some(line.subrange((p + k.len()) as int, line.len() as int)),
            None => None,
        },
    }
}

/// The texts between each `<` and the next `>` in `t`, from index `pos` on.
pub open spec fn bracketed_from(t: Seq<char>, pos: nat) -> Seq<Seq<char>>
    decreases t.len() - pos,
{
    let a = char_index_from(t, '<', pos);
    proof {
        lemma_char_index_from(t, '<', pos);
        lemma_char_index_from(t, '>', a);
    }
    if a >= t.len() || pos > t.len() {
        Seq::empty()
    } else {
        let e = char_index_from(t, '>', a);
        if e >= t.len() {
            Seq::empty()
        } else {
            seq![t.subrange(a + 1 as int, e as int)] + bracketed_from(t, e + 1)
        }
    }
}

/// The timestamps of one line.
pub open spec fn line_timestamps(line: Seq<char>, keyword: Option<Seq<char>>) -> Seq<Seq<char>> {
    match search_area(line, keyword) {
        Some(t) => bracketed_from(t, 0),
        None => Seq::empty(),
    }
}

/// The timestamps of a sequence of lines, line by line.
pub open spec fn timestamps_of_lines(ls: Seq<Seq<char>>, keyword: Option<Seq<char>>) -> Seq<
    Seq<char>,
>
    decreases ls.len(),
{
    if ls.len() == 0 {
        Seq::empty()
    } else {
        timestamps_of_lines(ls.drop_last(), keyword) + line_timestamps(ls.last(), keyword)
    }
}

/// The timestamps of a text (`find_timestamps`).
pub open spec fn timestamps(content: Seq<char>, keyword: Option<Seq<char>>) -> Seq<Seq<char>> {
    timestamps_of_lines(lines_of(content), keyword)
}

/// The first date that one of the timestamps holds.
pub open spec fn first_date(ts: Seq<Seq<char>>) -> Option<Date>
    decreases ts.len(),
{
    if ts.len() == 0 {
        None
    } else {
        match org_timestamp(ts[0]) {
            Some((d, _)) => Some(d),
            None => first_date(ts.drop_first()),
        }
    }
}

/// The first clock time that one of the timestamps holds.
pub open spec fn first_clock(ts: Seq<Seq<char>>) -> Option<(u32, u32)>
    decreases ts.len(),
{
    if ts.len() == 0 {
        None
    } else {
        match org_timestamp(ts[0]) {
            Some((_, Some(t))) => Some(t),
            _ => first_clock(ts.drop_first()),
        }
    }
}

/// `SCHEDULED:`
pub open spec fn scheduled_keyword() -> Seq<char> {
    seq!['S', 'C', 'H', 'E', 'D', 'U', 'L', 'E', 'D', ':']
}

/// `DEADLINE:`
pub open spec fn deadline_keyword() -> Seq<char> {
    seq!['D', 'E', 'A', 'D', 'L', 'I', 'N', 'E', ':']
}

/// The keyword that introduces a date of the given kind; plain dates have none.
pub open spec fn planning_keyword(t: DateInputType) -> Option<Seq<char>> {
    match t {
        DateInputType::Scheduled => Some(scheduled_keyword()),
        DateInputType::Deadline => Some(deadline_keyword()),
        DateInputType::Plain => None,
    }
}

/// The date of the given kind in an entry's text.
pub open spec fn existing_date(content: Seq<char>, t: DateInputType) -> Option<Date> {
    first_date(timestamps(content, planning_keyword(t)))
}

/// The clock time of the given kind in an entry's text, midnight when none is written.
pub open spec fn existing_time(content: Seq<char>, t: DateInputType) -> (u32, u32) {
    match first_clock(timestamps(content, planning_keyword(t))) {
        Some(c) => c,
        None => (0, 0),
    }
}

/// Distance in days between two dates.
pub open spec fn distance(a: Date, b: Date) -> int {
    let d = a.day_number() - b.day_number();
    if d < 0 {
        -d
    } else {
        d
    }
}

/// The first of `cands` nearest to `today`.
pub open spec fn nearest(cands: Seq<Date>, today: Date) -> Option<Date>
    decreases cands.len(),
{
    if cands.len() == 0 {
        None
    } else {
        match nearest(cands.drop_last(), today) {
            None => Some(cands.last()),
            Some(b) => if distance(cands.last(), today) < distance(b, today) {
                Some(cands.last())
            } else {
                Some(b)
            },
        }
    }
}

/// The scheduled, deadline and plain dates of an entry, in that order, where present.
pub open spec fn entry_dates(content: Seq<char>) -> Seq<Date> {
    let s = existing_date(content, DateInputType::Scheduled);
    let d = existing_date(content, DateInputType::Deadline);
    let p = existing_date(content, DateInputType::Plain);
    (if s is Some {
        seq![s->0]
    } else {
        seq![]
    }) + (if d is Some {
        seq![d->0]
    } else {
        seq![]
    }) + (if p is Some {
        seq![p->0]
    } else {
        seq![]
    })
}

/// The date an entry is shown under: of its dates, the one nearest to `today`.
pub open spec fn display_date(content: Seq<char>, today: Date) -> Option<Date> {
    nearest(entry_dates(content), today)
}

// ---------------------------------------------------------------------
// Reading timestamps
// ---------------------------------------------------------------------

/// The clock time of a word such as `09:30`.
fn parse_clock(t: &[char]) -> (r: Option<(u32, u32)>)
    ensures
        r == clock_of(t@),
{
    let c = index_of_char(t, ':', 0);
    proof {
        lemma_char_index_from(t@, ':', 0);
    }
    if c >= t.len() {
        return None;
    }
    let c2 = index_of_char(t, ':', c + 1);
    proof {
        lemma_char_index_from(t@, ':', (c + 1) as nat);
    }
    if c2 < t.len() {
        return None;
    }
    let mut left: Vec<char> = Vec::new();
    let mut k: usize = 0;
    while k < c
        invariant
            k <= c < t@.len(),
            left@ == t@.subrange(0, k as int),
        decreases c - k,
    {
        left.push(t[k]);
        k = k + 1;
    }
    let mut right: Vec<char> = Vec::new();
    let mut k: usize = c + 1;
    while k < t.len()
        invariant
            c + 1 <= k <= t@.len(),
            right@ == t@.subrange(c + 1, k as int),
        decreases t@.len() - k,
    {
        right.push(t[k]);
        k = k + 1;
    }
    match (parse_u32(left.as_slice()), parse_u32(right.as_slice())) {
        (Some(h), Some(m)) => Some((h, m)),
        _ => None,
    }
}

fn timestamp_with_chars(s: &[char], date: Option<Date>) -> (r: Option<(Date, Option<(u32, u32)>)>)
    ensures
        r == timestamp_with(s@, date),
{
    let parts = split_words(s);
    let ghost ws = char_vec_views(parts@);
    assert(ws.len() == parts@.len());
    if parts.len() == 0 {
        return None;
    }
    match date {
        None => None,
        Some(d) => {
            if parts.len() > 2 {
                assert(ws[2] == parts@[2]@);
                Some((d, parse_clock(parts[2].as_slice())))
            } else {
                Some((d, None))
            }
        },
    }
}

/// What a timestamp holds when its first word reads as `date` (as `chrono`
/// reads `%Y-%m-%d`): that date with the clock time of its third word.
pub fn timestamp_with_date(timestamp: &str, date: Option<Date>) -> (r: Option<(Date, Option<(u32, u32)>)>)
    ensures
        r == timestamp_with(timestamp@, date),
{
    let cs = chars_of(timestamp);
    timestamp_with_chars(cs.as_slice(), date)
}

fn parse_timestamp_chars(s: &[char]) -> (r: Option<(Date, Option<(u32, u32)>)>)
    ensures
        r == org_timestamp(s@),
        r matches Some((d, _)) ==> d.valid(),
{
    let parts = split_words(s);
    let ghost ws = char_vec_views(parts@);
    assert(ws.len() == parts@.len());
    if parts.len() == 0 {
        return None;
    }
    assert(ws[0] == parts@[0]@);
    let first = string_of(parts[0].as_slice());
    let date = parse_ymd(first.as_str());
    timestamp_with_chars(s, date)
}

/// Reads an org timestamp such as `2026-03-16 Mon 09:30`: the date of its first
/// word, with the clock time of its third word when that word is `H:M`.
pub fn parse_org_timestamp(timestamp: &str) -> (r: Option<(Date, Option<(u32, u32)>)>)
    ensures
        r == org_timestamp(timestamp@),
        r matches Some((d, _)) ==> d.valid(),
{
    let cs = chars_of(timestamp);
    parse_timestamp_chars(cs.as_slice())
}

/// The texts between each `<` and the next `>` in `t`.
fn bracketed(t: &[char]) -> (r: Vec<Vec<char>>)
    ensures
        char_vec_views(r@) == bracketed_from(t@, 0),
{
    let mut r: Vec<Vec<char>> = Vec::new();
    let mut pos: usize = 0;
    loop
        invariant
            pos <= t@.len(),
            char_vec_views(r@) + bracketed_from(t@, pos as nat) == bracketed_from(
                t@,
                0,
            ),
        decreases t@.len() - pos,
    {
        let a = index_of_char(t, '<', pos);
        proof {
            lemma_char_index_from(t@, '<', pos as nat);
        }
        if a >= t.len() {
            assert(bracketed_from(t@, pos as nat) == Seq::<Seq<char>>::empty());
            assert(char_vec_views(r@) == bracketed_from(t@, 0));
            return r;
        }
        let e = index_of_char(t, '>', a);
        proof {
            lemma_char_index_from(t@, '>', a as nat);
        }
        if e >= t.len() {
            assert(bracketed_from(t@, pos as nat) == Seq::<Seq<char>>::empty());
            assert(char_vec_views(r@) == bracketed_from(t@, 0));
            return r;
        }
        let mut inner: Vec<char> = Vec::new();
        let mut k = a + 1;
        while k < e
            invariant
                a + 1 <= k <= e < t@.len(),
                inner@ == t@.subrange(a + 1, k as int),
            decreases e - k,
        {
            inner.push(t[k]);
            k = k + 1;
        }
        assert(a < e) by {
            assert(t@[a as int] == '<');
        }
        let ghost prev = char_vec_views(r@);
        r.push(inner);
        assert(char_vec_views(r@) == prev.push(t@.subrange(a + 1, e as int)));
        pos = e + 1;
    }
}

/// The timestamps of one line.
fn line_timestamps_exec(line: &[char], keyword: Option<&[char]>) -> (r: Vec<Vec<char>>)
    ensures
        char_vec_views(r@) == line_timestamps(
            line@,
            match keyword {
                Some(k) => Some(k@),
                None => None,
            },
        ),
{
    match keyword {
        None => bracketed(line),
        Some(k) => match find_chars(line, k) {
            None => Vec::new(),
            Some(p) => {
                proof {
                    lemma_find_is_first(line@, k@);
                }
                assert(occurs_at(line@, k@, p as int));
                let n = line.len();
                let kl = k.len();
                assert(p + kl <= n);
                let mut rest: Vec<char> = Vec::new();
                let mut i = p + k.len();
                while i < line.len()
                    invariant
                        p + k@.len() <= i <= line@.len(),
                        rest@ == line@.subrange(p + k@.len(), i as int),
                    decreases line@.len() - i,
                {
                    rest.push(line[i]);
                    i = i + 1;
                }
                bracketed(rest.as_slice())
            },
        },
    }
}

fn timestamps_chars(content: &[char], keyword: Option<&[char]>) -> (r: Vec<String>)
    ensures
        string_views(r@) == timestamps(
            content@,
            match keyword {
                Some(k) => Some(k@),
                None => None,
            },
        ),
{
    let ghost kw = match keyword {
        Some(k) => Some(k@),
        None => None,
    };
    let ls = lines(content);
    let ghost lviews = char_vec_views(ls@);
    let mut r: Vec<String> = Vec::new();
    let mut i: usize = 0;
    while i < ls.len()
        invariant
            i <= ls@.len(),
            lviews == char_vec_views(ls@),
            lviews == lines_of(content@),
            kw == match keyword {
                Some(k) => Some(k@),
                None => None::<Seq<char>>,
            },
            string_views(r@) == timestamps_of_lines(lviews.subrange(0, i as int), kw),
        decreases ls@.len() - i,
    {
        let found = line_timestamps_exec(ls[i].as_slice(), keyword);
        let ghost fviews = char_vec_views(found@);
        let ghost before = string_views(r@);
        let mut j: usize = 0;
        while j < found.len()
            invariant
                j <= found@.len(),
                fviews == char_vec_views(found@),
                string_views(r@) == before + fviews.subrange(0, j as int),
            decreases found@.len() - j,
        {
            let s = string_of(found[j].as_slice());
            let ghost prev = string_views(r@);
            r.push(s);
            assert(string_views(r@) == prev.push(fviews[j as int]));
            j = j + 1;
            assert(fviews.subrange(0, j as int) == fviews.subrange(0, j - 1 as int).push(
                fviews[j - 1],
            ));
        }
        assert(fviews.subrange(0, found@.len() as int) == fviews);
        assert(lviews[i as int] == ls@[i as int]@);
        assert(lviews.subrange(0, i + 1 as int).drop_last() == lviews.subrange(0, i as int));
        i = i + 1;
    }
    assert(lviews.subrange(0, ls@.len() as int) == lviews);
    r
}

/// The timestamps of a text, line by line: with a keyword, those after the
/// keyword's first occurrence in lines that hold it; without one, all of them.
/// Each is the text between a `<` and the next `>`.
pub fn find_timestamps(content: &str, keyword: Option<&str>) -> (r: Vec<String>)
    ensures
        string_views(r@) == timestamps(
            content@,
            match keyword {
                Some(k) => Some(k@),
                None => None,
            },
        ),
{
    let cs = chars_of(content);
    match keyword {
        Some(k) => {
            let kc = chars_of(k);
            timestamps_chars(cs.as_slice(), Some(kc.as_slice()))
        },
        None => timestamps_chars(cs.as_slice(), None),
    }
}

fn keyword_chars(input_type: &DateInputType) -> (r: Option<Vec<char>>)
    ensures
        match r {
            Some(k) => planning_keyword(*input_type) == Some(k@),
            None => planning_keyword(*input_type) is None,
        },
{
    match input_type {
        DateInputType::Scheduled => {
            let k = chars_of("SCHEDULED:");
            proof {
                reveal_strlit("SCHEDULED:");
            }
            assert(k@ == scheduled_keyword());
            Some(k)
        },
        DateInputType::Deadline => {
            let k = chars_of("DEADLINE:");
            proof {
                reveal_strlit("DEADLINE:");
            }
            assert(k@ == deadline_keyword());
            Some(k)
        },
        DateInputType::Plain => None,
    }
}

fn timestamps_of_kind(content: &str, input_type: &DateInputType) -> (r: Vec<String>)
    ensures
        string_views(r@) == timestamps(content@, planning_keyword(*input_type)),
{
    let cs = chars_of(content);
    match keyword_chars(input_type) {
        Some(k) => timestamps_chars(cs.as_slice(), Some(k.as_slice())),
        None => timestamps_chars(cs.as_slice(), None),
    }
}

fn first_date_exec(ts: &Vec<String>) -> (r: Option<Date>)
    ensures
        r == first_date(string_views(ts@)),
        r matches Some(d) ==> d.valid(),
{
    let ghost views = string_views(ts@);
    assert(views.subrange(0, views.len() as int) == views);
    let mut i: usize = 0;
    while i < ts.len()
        invariant
            i <= ts@.len(),
            views == string_views(ts@),
            first_date(views.subrange(i as int, views.len() as int)) == first_date(views),
        decreases ts@.len() - i,
    {
        let ghost rest = views.subrange(i as int, views.len() as int);
        assert(rest[0] == ts@[i as int]@);
        assert(rest.drop_first() == views.subrange(i + 1, views.len() as int));
        if let Some((d, _)) = parse_org_timestamp(ts[i].as_str()) {
            return Some(d);
        }
        i = i + 1;
    }
    assert(views.subrange(i as int, views.len() as int) == Seq::<Seq<char>>::empty());
    None
}

fn first_clock_exec(ts: &Vec<String>) -> (r: Option<(u32, u32)>)
    ensures
        r == first_clock(string_views(ts@)),
{
    let ghost views = string_views(ts@);
    assert(views.subrange(0, views.len() as int) == views);
    let mut i: usize = 0;
    while i < ts.len()
        invariant
            i <= ts@.len(),
            views == string_views(ts@),
            first_clock(views.subrange(i as int, views.len() as int)) == first_clock(views),
        decreases ts@.len() - i,
    {
        let ghost rest = views.subrange(i as int, views.len() as int);
        assert(rest[0] == ts@[i as int]@);
        assert(rest.drop_first() == views.subrange(i + 1, views.len() as int));
        if let Some((_, Some(t))) = parse_org_timestamp(ts[i].as_str()) {
            return Some(t);
        }
        i = i + 1;
    }
    assert(views.subrange(i as int, views.len() as int) == Seq::<Seq<char>>::empty());
    None
}

/// The date of the given kind written in an entry: the first `SCHEDULED:` or
/// `DEADLINE:` date, or for a plain date the first date of any timestamp.
pub fn parse_existing_date(content: &str, input_type: &DateInputType) -> (r: Option<Date>)
    ensures
        r == existing_date(content@, *input_type),
        r matches Some(d) ==> d.valid(),
{
    let ts = timestamps_of_kind(content, input_type);
    first_date_exec(&ts)
}

/// The first date of any timestamp in the text.
pub fn parse_any_date(content: &str) -> (r: Option<Date>)
    ensures
        r == existing_date(content@, DateInputType::Plain),
        r matches Some(d) ==> d.valid(),
{
    parse_existing_date(content, &DateInputType::Plain)
}

/// The clock time of the given kind written in an entry, `(0, 0)` when none is.
pub fn parse_existing_time(content: &str, input_type: &DateInputType) -> (r: (u32, u32))
    ensures
        r == existing_time(content@, *input_type),
{
    let ts = timestamps_of_kind(content, input_type);
    match first_clock_exec(&ts) {
        Some(t) => t,
        None => (0, 0),
    }
}

/// The first clock time of any timestamp in the text, `(0, 0)` when none is.
pub fn parse_any_time(content: &str) -> (r: (u32, u32))
    ensures
        r == existing_time(content@, DateInputType::Plain),
{
    parse_existing_time(content, &DateInputType::Plain)
}

/// Of an entry's scheduled, deadline and plain dates, the first one nearest to `today`.
pub fn display_date_on(todo: &TodoEntry, today: &Date) -> (r: Option<Date>)
    requires
        today.valid(),
    ensures
        r == display_date(todo.content@, *today),
{
    let s = parse_existing_date(todo.content.as_str(), &DateInputType::Scheduled);
    let d = parse_existing_date(todo.content.as_str(), &DateInputType::Deadline);
    let p = parse_any_date(todo.content.as_str());
    let mut dates: Vec<Date> = Vec::new();
    if let Some(x) = s {
        dates.push(x);
    }
    if let Some(x) = d {
        dates.push(x);
    }
    if let Some(x) = p {
        dates.push(x);
    }
    assert(dates@ == entry_dates(todo.content@));
    let mut best: Option<Date> = None;
    let mut best_dist: i64 = 0;
    let mut i: usize = 0;
    while i < dates.len()
        invariant
            i <= dates@.len(),
            today.valid(),
            forall|k: int| 0 <= k < dates@.len() ==> (#[trigger] dates@[k]).valid(),
            best == nearest(dates@.subrange(0, i as int), *today),
            best matches Some(b) ==> best_dist == distance(b, *today),
        decreases dates@.len() - i,
    {
        let x = dates[i];
        proof {
            lemma_valid_in_range(x);
            lemma_valid_in_range(*today);
        }
        let diff = days_between(&x, today);
        let dist = if diff < 0 {
            -diff
        } else {
            diff
        };
        assert(dates@.subrange(0, i + 1 as int).drop_last() == dates@.subrange(0, i as int));
        match best {
            None => {
                best = Some(x);
                best_dist = dist;
            },
            Some(_) => {
                if dist < best_dist {
                    best = Some(x);
                    best_dist = dist;
                }
            },
        }
        i = i + 1;
    }
    assert(dates@.subrange(0, dates@.len() as int) == dates@);
    best
}

/// The date an entry is shown under: of its scheduled, deadline and plain
/// dates, the first one nearest to the current day. Which day that is comes
/// from the clock; the result is `None` exactly when the entry has no date,
/// and otherwise one of its dates.
pub fn get_display_date(todo: &TodoEntry) -> (r: Option<Date>)
    ensures
        r is None <==> entry_dates(todo.content@).len() == 0,
        r matches Some(d) ==> entry_dates(todo.content@).contains(d),
{
    let now = today();
    let r = display_date_on(todo, &now);
    proof {
        lemma_nearest_member(entry_dates(todo.content@), now);
    }
    r
}

/// The nearest date is one of the candidates, and there is one when there are candidates.
pub proof fn lemma_nearest_member(cands: Seq<Date>, today: Date)
    ensures
        nearest(cands, today) is None <==> cands.len() == 0,
        nearest(cands, today) matches Some(d) ==> cands.contains(d),
    decreases cands.len(),
{
    if cands.len() > 0 {
        lemma_nearest_member(cands.drop_last(), today);
        if let Some(b) = nearest(cands.drop_last(), today) {
            let k = choose|k: int| 0 <= k < cands.drop_last().len() && cands.drop_last()[k] == b;
            assert(cands[k] == b);
        }
        assert(cands[cands.len() - 1] == cands.last());
    }
}

} // verus!
