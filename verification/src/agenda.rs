//! The browser's lists: all open TODOs, or the entries dated in the current
//! week, ordered by date.

use vstd::prelude::*;
use vstd::seq_lib::group_seq_properties;
use crate::calendar::{
    checked_add_days, in_date_range, lemma_day_number_order, lemma_valid_in_range, minus_days,
    plus_days, today, weekday_from_monday, Date,
};
use crate::dates::{display_date, display_date_on, existing_date, parse_any_date, parse_existing_date};
use crate::text::{chars_eq, chars_of};
use crate::types::{todo_views, DateInputType, TodoEntry, TodoView, ViewFilter};

verus! {

// ---------------------------------------------------------------------
// Specification
// ---------------------------------------------------------------------

/// An open TODO: it has a keyword, and the keyword is not `DONE`.
pub open spec fn is_open_todo(t: TodoView) -> bool {
    t.keyword.len() > 0 && t.keyword != seq!['D', 'O', 'N', 'E']
}

/// The date an entry is placed in the week agenda by: its scheduled date, else
/// its deadline, else its first plain date.
pub open spec fn agenda_date(content: Seq<char>) -> Option<Date> {
    match existing_date(content, DateInputType::Scheduled) {
        Some(d) => Some(d),
        None => match existing_date(content, DateInputType::Deadline) {
            Some(d) => Some(d),
            None => existing_date(content, DateInputType::Plain),
        },
    }
}

/// The day number of the Monday of the week of `today`.
pub open spec fn monday_number(today: Date) -> int {
    today.day_number() - today.weekday()
}

/// `d` lies in the Monday-to-Sunday week of `today`.
pub open spec fn in_week_of(d: Date, today: Date) -> bool {
    monday_number(today) <= d.day_number() <= monday_number(today) + 6
}

/// The whole week of `today` lies in `chrono`'s range.
pub open spec fn week_in_range(today: Date) -> bool {
    in_date_range(monday_number(today)) && in_date_range(monday_number(today) + 6)
}

/// Whether the browser shows an entry under a filter.
pub open spec fn is_shown(t: TodoView, filter: ViewFilter, today: Date) -> bool {
    match filter {
        ViewFilter::All => is_open_todo(t),
        ViewFilter::Today => match agenda_date(t.content) {
            Some(d) => in_week_of(d, today),
            None => false,
        },
    }
}

/// The entries the browser shows under a filter, in the order given.
pub open spec fn shown_entries(todos: Seq<TodoView>, filter: ViewFilter, today: Date) -> Seq<TodoView> {
    todos.filter(|t: TodoView| is_shown(t, filter, today))
}

/// The date the browser orders entries by: the scheduled date, else the first plain date.
pub open spec fn sort_key(t: TodoView) -> Option<Date> {
    match existing_date(t.content, DateInputType::Scheduled) {
        Some(d) => Some(d),
        None => existing_date(t.content, DateInputType::Plain),
    }
}

/// The order of sort keys: no date first, then dates chronologically.
pub open spec fn key_le(a: Option<Date>, b: Option<Date>) -> bool {
    match (a, b) {
        (None, _) => true,
        (Some(_), None) => false,
        (Some(x), Some(y)) => x.before_or_on(y),
    }
}

/// The entries are ordered by their sort keys.
pub open spec fn sorted_by_key(s: Seq<TodoView>) -> bool {
    forall|i: int, j: int| 0 <= i < j < s.len() ==> key_le(sort_key(#[trigger] s[i]), sort_key(#[trigger] s[j]))
}

/// The entries of `s` with sort key `k`, in order.
pub open spec fn with_key(s: Seq<TodoView>, k: Option<Date>) -> Seq<TodoView> {
    s.filter(|t: TodoView| sort_key(t) == k)
}

/// `r` is `s` sorted stably by sort key: ordered by key, and the entries of
/// each key in the order they had in `s`.
pub open spec fn is_stable_sort(r: Seq<TodoView>, s: Seq<TodoView>) -> bool {
    sorted_by_key(r) && forall|k: Option<Date>| #[trigger] with_key(r, k) == with_key(s, k)
}

// ---------------------------------------------------------------------
// Sorting
// ---------------------------------------------------------------------

/// The sort key of an entry.
pub fn sort_key_of(todo: &TodoEntry) -> (r: Option<Date>)
    ensures
        r == sort_key(todo@),
        r matches Some(d) ==> d.valid(),
{
    match parse_existing_date(todo.content.as_str(), &DateInputType::Scheduled) {
        Some(d) => Some(d),
        None => parse_any_date(todo.content.as_str()),
    }
}

fn key_le_exec(a: &Option<Date>, b: &Option<Date>) -> (r: bool)
    ensures
        r == key_le(*a, *b),
{
    match (a, b) {
        (None, _) => true,
        (Some(_), None) => false,
        (Some(x), Some(y)) => x.le(y),
    }
}

proof fn lemma_key_le_total(a: Option<Date>, b: Option<Date>)
    ensures
        key_le(a, b) || key_le(b, a),
        key_le(a, b) && key_le(b, a) ==> a == b,
{
}

proof fn lemma_key_le_trans(a: Option<Date>, b: Option<Date>, c: Option<Date>)
    requires
        key_le(a, b),
        key_le(b, c),
    ensures
        key_le(a, c),
{
}

/// Inserting `x` after the entries whose keys are at most its key keeps the
/// order and adds `x` last among the entries of its key.
proof fn lemma_insert_sorted(r: Seq<TodoView>, p: int, x: TodoView)
    requires
        sorted_by_key(r),
        0 <= p <= r.len(),
        forall|j: int| 0 <= j < p ==> key_le(sort_key(#[trigger] r[j]), sort_key(x)),
        forall|j: int| p <= j < r.len() ==> !key_le(sort_key(#[trigger] r[j]), sort_key(x)),
    ensures
        sorted_by_key(r.insert(p, x)),
        forall|k: Option<Date>| #[trigger] with_key(r.insert(p, x), k) == (if k == sort_key(x) {
            with_key(r, k).push(x)
        } else {
            with_key(r, k)
        }),
{
    broadcast use group_seq_properties;

    let n = r.insert(p, x);
    r.insert_ensures(p, x);
    assert forall|i: int, j: int| 0 <= i < j < n.len() implies key_le(
        sort_key(#[trigger] n[i]),
        sort_key(#[trigger] n[j]),
    ) by {
        if i < p && j == p {
        } else if i == p && j > p {
            lemma_key_le_total(sort_key(r[j - 1]), sort_key(x));
        } else if i < p && j > p {
            lemma_key_le_total(sort_key(r[j - 1]), sort_key(x));
            lemma_key_le_trans(sort_key(r[i]), sort_key(x), sort_key(r[j - 1]));
        } else if i < p && j < p {
        } else {
        }
    }
    assert forall|k: Option<Date>| #[trigger] with_key(n, k) == (if k == sort_key(x) {
        with_key(r, k).push(x)
    } else {
        with_key(r, k)
    }) by {
        let pred = |t: TodoView| sort_key(t) == k;
        let left = r.subrange(0, p);
        let right = r.subrange(p, r.len() as int);
        assert(n =~= left.push(x) + right);
        assert(r =~= left + right);
        Seq::filter_distributes_over_add(left.push(x), right, pred);
        Seq::filter_distributes_over_add(left, right, pred);
        left.lemma_filter_push(x, pred);
        if k == sort_key(x) {
            assert forall|j: int| 0 <= j < right.len() implies !pred(#[trigger] right[j]) by {
                assert(right[j] == r[p + j]);
            }
            right.lemma_all_neg_filter_empty(pred);
            assert(right.filter(pred) =~= Seq::<TodoView>::empty());
            assert(with_key(r, k) =~= left.filter(pred));
        }
    }
}

/// Sorts entries stably by their sort keys.
fn sort_by_key(todos: Vec<TodoEntry>) -> (r: Vec<TodoEntry>)
    ensures
        is_stable_sort(todo_views(r@), todo_views(todos@)),
{
    let ghost input = todo_views(todos@);
    let mut result: Vec<TodoEntry> = Vec::new();
    let mut keys: Vec<Option<Date>> = Vec::new();
    let mut i: usize = 0;
    while i < todos.len()
        invariant
            i <= todos@.len(),
            input == todo_views(todos@),
            keys@.len() == result@.len(),
            forall|j: int| 0 <= j < keys@.len() ==> keys@[j] == sort_key(#[trigger] result@[j]@),
            sorted_by_key(todo_views(result@)),
            forall|k: Option<Date>| #[trigger] with_key(todo_views(result@), k) == with_key(
                input.subrange(0, i as int),
                k,
            ),
        decreases todos@.len() - i,
    {
        let x = todos[i].clone();
        let kx = sort_key_of(&x);
        let ghost r = todo_views(result@);
        let mut p: usize = 0;
        while p < result.len() && key_le_exec(&keys[p], &kx)
            invariant
                p <= result@.len(),
                keys@.len() == result@.len(),
                r == todo_views(result@),
                forall|j: int| 0 <= j < keys@.len() ==> keys@[j] == sort_key(#[trigger] result@[j]@),
                forall|j: int| 0 <= j < p ==> key_le(sort_key(#[trigger] r[j]), kx),
            decreases result@.len() - p,
        {
            assert(r[p as int] == result@[p as int]@);
            p = p + 1;
        }
        proof {
            assert forall|j: int| p <= j < r.len() implies !key_le(sort_key(#[trigger] r[j]), kx) by {
                assert(r[p as int] == result@[p as int]@);
                assert(r[j] == result@[j]@);
                lemma_key_le_total(sort_key(r[p as int]), kx);
                if key_le(sort_key(r[j]), kx) {
                    lemma_key_le_trans(sort_key(r[p as int]), sort_key(r[j]), kx);
                }
            }
            lemma_insert_sorted(r, p as int, x@);
            assert(input[i as int] == x@);
            assert(input.subrange(0, i + 1 as int) =~= input.subrange(0, i as int).push(x@));
            assert forall|k: Option<Date>| #[trigger] with_key(input.subrange(0, i + 1 as int), k)
                == (if k == sort_key(x@) {
                with_key(input.subrange(0, i as int), k).push(x@)
            } else {
                with_key(input.subrange(0, i as int), k)
            }) by {
                input.subrange(0, i as int).lemma_filter_push(x@, |t: TodoView| sort_key(t) == k);
            }
        }
        result.insert(p, x);
        keys.insert(p, kx);
        assert(todo_views(result@) =~= r.insert(p as int, x@));
        i = i + 1;
    }
    assert(input.subrange(0, todos@.len() as int) == input);
    result
}

// ---------------------------------------------------------------------
// Filtering
// ---------------------------------------------------------------------

/// The date an entry is placed in the week agenda by.
fn agenda_date_of(todo: &TodoEntry) -> (r: Option<Date>)
    ensures
        r == agenda_date(todo.content@),
        r matches Some(d) ==> d.valid(),
{
    match parse_existing_date(todo.content.as_str(), &DateInputType::Scheduled) {
        Some(d) => Some(d),
        None => match parse_existing_date(todo.content.as_str(), &DateInputType::Deadline) {
            Some(d) => Some(d),
            None => parse_any_date(todo.content.as_str()),
        },
    }
}

/// Whether an entry is an open TODO.
fn is_open_todo_exec(todo: &TodoEntry) -> (r: bool)
    ensures
        r == is_open_todo(todo@),
{
    let k = chars_of(todo.keyword.as_str());
    let done = chars_of("DONE");
    proof {
        reveal_strlit("DONE");
    }
    assert(done@ == seq!['D', 'O', 'N', 'E']);
    k.len() > 0 && !chars_eq(k.as_slice(), done.as_slice())
}

/// The entries the browser shows under `filter` when today is `today`,
/// ordered stably by date: for `All` the open TODOs; for `Today` the entries
/// whose scheduled, else deadline, else plain date lies in the Monday-to-Sunday
/// week of `today`. Entries without a date come first.
pub fn filter_todos_on(todos: &[TodoEntry], filter: &ViewFilter, today: &Date) -> (r: Vec<
    TodoEntry,
>)
    requires
        today.valid(),
        *filter == ViewFilter::Today ==> week_in_range(*today),
    ensures
        is_stable_sort(todo_views(r@), shown_entries(todo_views(todos@), *filter, *today)),
{
    let ghost all = todo_views(todos@);
    let ghost pred = |t: TodoView| is_shown(t, *filter, *today);
    let mut week: Option<(Date, Date)> = None;
    if *filter == ViewFilter::Today {
        let w = weekday_from_monday(today);
        let start = minus_days(today, w as i64);
        let end = plus_days(&start, 6);
        week = Some((start, end));
    }
    let mut kept: Vec<TodoEntry> = Vec::new();
    let mut i: usize = 0;
    while i < todos.len()
        invariant
            i <= todos@.len(),
            all == todo_views(todos@),
            today.valid(),
            pred == (|t: TodoView| is_shown(t, *filter, *today)),
            *filter == ViewFilter::All ==> week is None,
            *filter == ViewFilter::Today ==> (week matches Some((s, e)) && s.valid() && e.valid()
                && s.day_number() == monday_number(*today) && e.day_number() == monday_number(
                *today,
            ) + 6),
            todo_views(kept@) == all.subrange(0, i as int).filter(pred),
        decreases todos@.len() - i,
    {
        let t = &todos[i];
        assert(all[i as int] == t@);
        let keep = match week {
            None => is_open_todo_exec(t),
            Some((s, e)) => match agenda_date_of(t) {
                Some(d) => {
                    proof {
                        lemma_day_number_order(s, d);
                        lemma_day_number_order(d, e);
                    }
                    s.le(&d) && d.le(&e)
                },
                None => false,
            },
        };
        assert(keep == pred(t@));
        let ghost prev = todo_views(kept@);
        if keep {
            kept.push(t.clone());
            assert(todo_views(kept@) == prev.push(t@));
        }
        proof {
            assert(all.subrange(0, i + 1 as int) =~= all.subrange(0, i as int).push(t@));
            all.subrange(0, i as int).lemma_filter_push(t@, pred);
        }
        i = i + 1;
    }
    assert(all.subrange(0, todos@.len() as int) == all);
    sort_by_key(kept)
}

/// The entries the browser shows under `filter`, ordered stably by date (see
/// `filter_todos_on`), for the current day as the clock gives it. When the
/// week of that day leaves `chrono`'s range, the week agenda is empty.
pub fn filter_todos(todos: &[TodoEntry], filter: &ViewFilter) -> (r: Vec<TodoEntry>)
    ensures
        *filter == ViewFilter::All ==> forall|d: Date|
            d.valid() ==> is_stable_sort(
                todo_views(r@),
                #[trigger] shown_entries(todo_views(todos@), ViewFilter::All, d),
            ),
        *filter == ViewFilter::Today ==> exists|d: Date|
            d.valid() && (week_in_range(d) ==> is_stable_sort(
                todo_views(r@),
                #[trigger] shown_entries(todo_views(todos@), ViewFilter::Today, d),
            )) && (!week_in_range(d) ==> r@.len() == 0),
{
    let now = today();
    match filter {
        ViewFilter::All => {
            let r = filter_todos_on(todos, filter, &now);
            proof {
                assert forall|d: Date| d.valid() implies is_stable_sort(
                    todo_views(r@),
                    #[trigger] shown_entries(todo_views(todos@), ViewFilter::All, d),
                ) by {
                    assert((|t: TodoView| is_shown(t, ViewFilter::All, d)) =~= (|t: TodoView|
                        is_shown(t, ViewFilter::All, now)));
                    assert(shown_entries(todo_views(todos@), ViewFilter::All, d) == shown_entries(
                        todo_views(todos@),
                        ViewFilter::All,
                        now,
                    ));
                }
            }
            r
        },
        ViewFilter::Today => {
            proof {
                lemma_valid_in_range(now);
            }
            let w = weekday_from_monday(&now);
            let start = checked_add_days(&now, -(w as i64));
            if start.is_none() {
                let r: Vec<TodoEntry> = Vec::new();
                assert(!week_in_range(now));
                assert(shown_entries(todo_views(todos@), ViewFilter::Today, now) == shown_entries(
                    todo_views(todos@),
                    ViewFilter::Today,
                    now,
                ));
                return r;
            }
            let end = checked_add_days(&start.unwrap(), 6);
            if end.is_none() {
                let r: Vec<TodoEntry> = Vec::new();
                assert(!week_in_range(now));
                assert(shown_entries(todo_views(todos@), ViewFilter::Today, now) == shown_entries(
                    todo_views(todos@),
                    ViewFilter::Today,
                    now,
                ));
                return r;
            }
            let r = filter_todos_on(todos, filter, &now);
            assert(week_in_range(now));
            assert(is_stable_sort(
                todo_views(r@),
                shown_entries(todo_views(todos@), ViewFilter::Today, now),
            ));
            r
        },
    }
}

/// The entry at position `selected` of the list shown under `filter` when today is `today`.
pub fn selected_todo_on(todos: &[TodoEntry], selected: usize, filter: &ViewFilter, today: &Date) -> (r: Option<TodoEntry>)
    requires
        today.valid(),
        *filter == ViewFilter::Today ==> week_in_range(*today),
    ensures
        exists|shown: Seq<TodoView>|
            is_stable_sort(shown, shown_entries(todo_views(todos@), *filter, *today)) && match r {
                Some(t) => selected < shown.len() && t@ == shown[selected as int],
                None => selected >= shown.len(),
            },
{
    let list = filter_todos_on(todos, filter, today);
    if selected < list.len() {
        let t = list[selected].clone();
        assert(todo_views(list@)[selected as int] == list@[selected as int]@);
        Some(t)
    } else {
        None
    }
}

} // verus!
