//! Properties that hold across the library's operations.

use vstd::prelude::*;
use crate::calendar::{chrono_parse_ymd, iso_text, weekday_abbrev, zero_padded4};
use crate::dates::{search_area, first_clock, first_date, bracketed_from, clock_of, deadline_keyword, existing_date, existing_time, line_timestamps, org_timestamp, planning_keyword, scheduled_keyword, timestamps, timestamps_of_lines};
use crate::agenda::{monday_number, is_stable_sort, sort_key, with_key};
use crate::browser::toggled_filter;
use crate::keys::{command_of, Command, Key, View};
use crate::calendar::{lemma_day_number_order, Date};
use crate::dates::{distance, nearest};
use crate::parser::{heading_level_of, lemma_non_star_from, non_star_from, stars};
use crate::picker::{shifted_month, wrapped};
use crate::text::{trimmed, trim_end_at, ends_with, contains, lemma_find_from, lemma_find_is_first, replaced, replaced_from, joined, lemma_char_index_from, lines_from, strip_cr, char_index_from, find, is_ws, lines_of, non_ws_from, occurs_at, words, words_from, ws_from, all_digits, decimal, digit_char, digit_value, digits_value, is_digit, starts_with, u32_of, zero_padded2};
use crate::types::{DateInputType, TodoView, ViewFilter};
use crate::writer::{
    first_titled_from, heading_base, is_titled_line, lemma_first_titled_from, planning_line,
    replaces_line, tagged_heading, toggled_keyword, with_date,
};
use vstd::arithmetic::div_mod::{lemma_fundamental_div_mod, lemma_mod_multiples_vanish, lemma_small_mod};

verus! {

/// A headline's level is the number of its leading stars: at least one, and
/// the character after them (if any) is not a star.
pub proof fn law_heading_level_counts_stars(line: Seq<char>)
    ensures
        heading_level_of(line) is None <==> !(line.len() > 0 && line[0] == '*'),
        heading_level_of(line) matches Some(n) ==> 1 <= n <= line.len() && starts_with(
            line,
            stars(n),
        ) && (n == line.len() || line[n as int] != '*'),
{
    lemma_non_star_from(line, 0);
    if let Some(n) = heading_level_of(line) {
        assert(line.subrange(0, n as int) =~= stars(n));
    }
}

/// A headline rewritten with new tags keeps its level.
pub proof fn law_retagged_heading_keeps_level(
    level: nat,
    keyword: Seq<char>,
    title: Seq<char>,
    tags: Seq<Seq<char>>,
)
    requires
        level >= 1,
    ensures
        heading_level_of(tagged_heading(level, keyword, title, tags)) == Some(level),
{
    let h = tagged_heading(level, keyword, title, tags);
    let base = heading_base(level, keyword, title);
    assert(forall|j: int| 0 <= j < level ==> base[j] == '*');
    assert(base[level as int] == ' ');
    assert(forall|j: int| 0 <= j <= level ==> h[j] == base[j]);
    lemma_non_star_from(h, 0);
    let n = non_star_from(h, 0);
    if n < level {
        assert(h[n as int] == '*');
    }
    if n > level {
        assert(h[level as int] == '*');
    }
}

/// Toggling a `TODO` gives `DONE` and toggling a `DONE` gives `TODO`, so
/// toggling twice gives these keywords back; any other keyword becomes `TODO`.
pub proof fn law_toggle_keyword_twice(k: Seq<char>)
    ensures
        (k == seq!['T', 'O', 'D', 'O'] || k == seq!['D', 'O', 'N', 'E']) ==> toggled_keyword(
            toggled_keyword(k),
        ) == k,
        k != seq!['T', 'O', 'D', 'O'] ==> toggled_keyword(k) == seq!['T', 'O', 'D', 'O'],
{
    assert(seq!['T', 'O', 'D', 'O'] != seq!['D', 'O', 'N', 'E']) by {
        assert(seq!['T', 'O', 'D', 'O'][0] != seq!['D', 'O', 'N', 'E'][0]);
    }
}

/// Switching the view twice gives the view back, and a switch always changes it.
pub proof fn law_toggle_view_twice(f: ViewFilter)
    ensures
        toggled_filter(toggled_filter(f)) == f,
        toggled_filter(f) != f,
{
}

/// Outside the text fields, `k` and `j` do what the up and down arrows do.
pub proof fn law_vi_keys_match_arrows(view: View, control: bool)
    requires
        view != View::Editor,
        view != View::QuickCapture,
        view != (View::Tags { editing: true }),
    ensures
        command_of(view, Key::Char('k'), control) == command_of(view, Key::Up, control),
        command_of(view, Key::Char('j'), control) == command_of(view, Key::Down, control),
{
}

/// An entry is deleted only after the question: no key deletes in any other
/// view, `x` and Delete in the list ask it, and while it is asked `y` deletes
/// and every other key keeps the entry.
pub proof fn law_delete_needs_confirmation(view: View, key: Key, control: bool)
    ensures
        command_of(view, key, control) == Command::Delete ==> view == View::ConfirmDelete && key
            == Key::Char('y'),
        command_of(View::Browser, Key::Char('x'), control) == Command::AskDelete,
        command_of(View::Browser, Key::Delete, control) == Command::AskDelete,
        command_of(View::ConfirmDelete, key, control) == if key == Key::Char('y') {
            Command::Delete
        } else {
            Command::CancelDelete
        },
{
}

/// In the date picker, opposite keys ask for opposite changes: down undoes
/// up, right undoes left and `>` undoes `<`, whether the day or the time is
/// being edited.
pub proof fn law_picker_keys_pair_up(editing_time: bool)
    ensures
        ({
            let v = View::DateInput { editing_time };
            let opposite = |a: Command, b: Command|
                match (a, b) {
                    (Command::MoveDay(x), Command::MoveDay(y)) => x + y == 0,
                    (Command::AdjustTime(h1, m1), Command::AdjustTime(h2, m2)) => h1 + h2 == 0 && m1 + m2 == 0,
                    (Command::ChangeMonth(x), Command::ChangeMonth(y)) => x + y == 0,
                    (Command::Nothing, Command::Nothing) => true,
                    _ => false,
                };
            &&& opposite(command_of(v, Key::Up, false), command_of(v, Key::Down, false))
            &&& opposite(command_of(v, Key::Left, false), command_of(v, Key::Right, false))
            &&& opposite(command_of(v, Key::Char('<'), false), command_of(v, Key::Char('>'), false))
            &&& opposite(command_of(v, Key::PageUp, false), command_of(v, Key::PageDown, false))
        }),
{
}

/// Adjusting the clock by a delta and then by its negation gives the time
/// back, and an adjusted time is always a valid hour or minute.
pub proof fn law_adjust_time_undo(v: u32, delta: i32, modulus: int)
    requires
        modulus == 24 || modulus == 60,
        v < modulus,
        delta > i32::MIN,
    ensures
        0 <= wrapped(v, delta, modulus) < modulus,
        wrapped(wrapped(v, delta, modulus) as u32, (-delta) as i32, modulus) == v,
{
    let a = wrapped(v, delta, modulus);
    assert(v as i32 == v);
    assert(0 <= a < modulus) by (nonlinear_arith)
        requires
            a == (v + delta) % modulus,
            modulus > 0,
    ;
    assert(a as u32 as i32 == a);
    let x = v + delta;
    let q = x / modulus;
    lemma_fundamental_div_mod(x, modulus);
    assert(a - delta == modulus * (-q) + v) by (nonlinear_arith)
        requires
            x == modulus * q + a,
            x == v + delta,
    ;
    lemma_mod_multiples_vanish(-q, v as int, modulus);
    lemma_small_mod(v as nat, modulus as nat);
}

/// Moving the calendar a month forward and then back (or back and then
/// forward) shows the month it started from.
pub proof fn law_change_month_undo(y: i32, m: u32)
    requires
        1 <= m <= 12,
        i32::MIN < y < i32::MAX,
    ensures
        ({
            let (y1, m1) = shifted_month(y, m, 1);
            1 <= m1 <= 12 && shifted_month(y1, m1, -1i32) == (y, m)
        }),
        ({
            let (y1, m1) = shifted_month(y, m, -1i32);
            1 <= m1 <= 12 && shifted_month(y1, m1, 1) == (y, m)
        }),
{
}

/// Valid dates with the same day number are the same date, so moving the
/// selected day by `n` days and then by `-n` days gives it back.
pub proof fn law_move_day_undo(a: Date, b: Date, c: Date, n: int)
    requires
        a.valid(),
        b.valid(),
        c.valid(),
        b.day_number() == a.day_number() + n,
        c.day_number() == b.day_number() - n,
    ensures
        c == a,
{
    lemma_day_number_order(a, c);
}

/// The week agenda starts on a Monday and holds the day it is computed for.
pub proof fn law_week_starts_on_monday(today: Date)
    ensures
        (monday_number(today) - 1) % 7 == 0,
        monday_number(today) <= today.day_number() <= monday_number(today) + 6,
{
    let x = today.day_number() - 1;
    assert((x - x % 7) % 7 == 0 && 0 <= x % 7 < 7) by (nonlinear_arith);
}

/// The date an entry is shown under is one of its dates, at the smallest
/// distance from today of all of them, and the first such one.
pub proof fn law_display_date_is_nearest(cands: Seq<Date>, today: Date)
    ensures
        nearest(cands, today) is None <==> cands.len() == 0,
        nearest(cands, today) matches Some(d) ==> exists|i: int|
            0 <= i < cands.len() && cands[i] == d && (forall|j: int|
                0 <= j < cands.len() ==> distance(d, today) <= distance(#[trigger] cands[j], today))
                && (forall|j: int| 0 <= j < i ==> distance(d, today) < distance(#[trigger] cands[j], today)),
    decreases cands.len(),
{
    if cands.len() > 0 {
        let init = cands.drop_last();
        law_display_date_is_nearest(init, today);
        let last = cands.last();
        match nearest(init, today) {
            None => {
                assert(cands[cands.len() - 1] == last);
            },
            Some(b) => {
                let i = choose|i: int|
                    0 <= i < init.len() && init[i] == b && (forall|j: int|
                        0 <= j < init.len() ==> distance(b, today) <= distance(#[trigger] init[j], today))
                        && (forall|j: int| 0 <= j < i ==> distance(b, today) < distance(#[trigger] init[j], today));
                if distance(last, today) < distance(b, today) {
                    assert(cands[cands.len() - 1] == last);
                    assert forall|j: int| 0 <= j < cands.len() implies distance(last, today) <= distance(#[trigger] cands[j], today) by {
                        if j < init.len() {
                            assert(cands[j] == init[j]);
                        }
                    }
                    assert forall|j: int| 0 <= j < cands.len() - 1 implies distance(last, today) < distance(#[trigger] cands[j], today) by {
                        assert(cands[j] == init[j]);
                    }
                } else {
                    assert(cands[i] == b);
                    assert forall|j: int| 0 <= j < cands.len() implies distance(b, today) <= distance(#[trigger] cands[j], today) by {
                        if j < init.len() {
                            assert(cands[j] == init[j]);
                        }
                    }
                    assert forall|j: int| 0 <= j < i implies distance(b, today) < distance(#[trigger] cands[j], today) by {
                        assert(cands[j] == init[j]);
                    }
                }
            },
        }
    }
}

/// A stably sorted list holds exactly the entries it sorts.
pub proof fn law_sorted_list_holds_the_shown_entries(r: Seq<TodoView>, s: Seq<TodoView>)
    requires
        is_stable_sort(r, s),
    ensures
        forall|x: TodoView| r.contains(x) <==> s.contains(x),
{
    assert forall|x: TodoView| r.contains(x) <==> s.contains(x) by {
        let k = sort_key(x);
        let pred = |t: TodoView| sort_key(t) == k;
        assert(with_key(r, k) == r.filter(pred));
        assert(with_key(s, k) == s.filter(pred));
        if r.contains(x) {
            let i = choose|i: int| 0 <= i < r.len() && r[i] == x;
            r.lemma_filter_contains(pred, i);
            s.lemma_filter_contains_rev(pred, x);
        }
        if s.contains(x) {
            let i = choose|i: int| 0 <= i < s.len() && s[i] == x;
            s.lemma_filter_contains(pred, i);
            r.lemma_filter_contains_rev(pred, x);
        }
    }
}

/// The decimal text of a number reads back as that number, also zero-padded
/// to two digits.
pub proof fn law_decimal_reads_back(n: u32)
    ensures
        u32_of(decimal(n as nat)) == Some(n),
        u32_of(zero_padded2(n as nat)) == Some(n),
{
    lemma_decimal_digits(n as nat);
    let d = decimal(n as nat);
    assert(d[0] != '+');
    if n < 10 {
        let z = zero_padded2(n as nat);
        assert(z =~= seq!['0', digit_char(n as nat)]);
        assert(z.drop_last() =~= seq!['0']);
        assert(z.drop_last().drop_last() =~= Seq::<char>::empty());
        lemma_digit_value(n as nat);
        lemma_digit_value(0);
        assert(z.last() == digit_char(n as nat));
        assert(digits_value(z.drop_last().drop_last()) == 0);
        assert(digits_value(z.drop_last()) == 0);
        assert(digits_value(z) == n);
        assert(all_digits(z));
    }
}

proof fn lemma_digit_value(k: nat)
    requires
        k < 10,
    ensures
        digit_value(digit_char(k)) == k,
        is_digit(digit_char(k)),
{
}

proof fn lemma_decimal_digits(n: nat)
    ensures
        decimal(n).len() > 0,
        all_digits(decimal(n)),
        digits_value(decimal(n)) == n,
    decreases n,
{
    lemma_digit_value((n % 10) as nat);
    if n >= 10 {
        lemma_decimal_digits(n / 10);
        let d = decimal(n);
        assert(d.drop_last() == decimal(n / 10));
        assert(d.last() == digit_char(n % 10));
        assert((n / 10) * 10 + n % 10 == n) by (nonlinear_arith);
        assert(forall|i: int| 0 <= i < d.len() - 1 ==> d[i] == decimal(n / 10)[i]);
    } else {
        assert(decimal(n).drop_last() =~= Seq::<char>::empty());
        assert(decimal(n).last() == digit_char(n));
        assert(digits_value(decimal(n).drop_last()) == 0);
    }
}

// ---------------------------------------------------------------------
// Reading back what is written
// ---------------------------------------------------------------------

/// No character of `s` is whitespace.
pub open spec fn no_whitespace(s: Seq<char>) -> bool {
    forall|i: int| 0 <= i < s.len() ==> !is_ws(#[trigger] s[i])
}

/// No character of `s` is `c`.
pub open spec fn lacks(s: Seq<char>, c: char) -> bool {
    forall|i: int| 0 <= i < s.len() ==> #[trigger] s[i] != c
}

proof fn lemma_char_index_at(s: Seq<char>, c: char, i: nat, k: nat)
    requires
        i <= k <= s.len(),
        forall|j: int| i <= j < k ==> s[j] != c,
        k == s.len() || s[k as int] == c,
    ensures
        char_index_from(s, c, i) == k,
    decreases k - i,
{
    if i < k {
        lemma_char_index_at(s, c, i + 1, k);
    }
}

proof fn lemma_non_ws_at(s: Seq<char>, i: nat, k: nat)
    requires
        i <= k <= s.len(),
        forall|j: int| i <= j < k ==> is_ws(s[j]),
        k == s.len() || !is_ws(s[k as int]),
    ensures
        non_ws_from(s, i) == k,
    decreases k - i,
{
    if i < k {
        lemma_non_ws_at(s, i + 1, k);
    }
}

proof fn lemma_ws_at(s: Seq<char>, i: nat, k: nat)
    requires
        i <= k <= s.len(),
        forall|j: int| i <= j < k ==> !is_ws(s[j]),
        k == s.len() || is_ws(s[k as int]),
    ensures
        ws_from(s, i) == k,
    decreases k - i,
{
    if i < k {
        lemma_ws_at(s, i + 1, k);
    }
}

/// Three words separated by single spaces split into those words.
proof fn lemma_three_words(a: Seq<char>, b: Seq<char>, c: Seq<char>)
    requires
        a.len() > 0,
        b.len() > 0,
        c.len() > 0,
        no_whitespace(a),
        no_whitespace(b),
        no_whitespace(c),
    ensures
        words(a + seq![' '] + b + seq![' '] + c) == seq![a, b, c],
{
    let s = a + seq![' '] + b + seq![' '] + c;
    let la = a.len();
    let p2 = la + 1 + b.len();
    let n = s.len();
    assert(is_ws(' '));
    assert(forall|j: int| 0 <= j < la ==> s[j] == a[j]);
    assert(forall|j: int| la + 1 <= j < p2 ==> s[j] == b[j - la - 1]);
    assert(forall|j: int| p2 + 1 <= j < n ==> s[j] == c[j - p2 - 1]);
    assert(s[la as int] == ' ');
    assert(s[p2 as int] == ' ');
    lemma_non_ws_at(s, 0, 0);
    lemma_ws_at(s, 0, la);
    lemma_non_ws_at(s, la, la + 1);
    lemma_ws_at(s, la + 1, p2);
    lemma_non_ws_at(s, p2, p2 + 1);
    lemma_ws_at(s, p2 + 1, n);
    lemma_non_ws_at(s, n, n);
    assert(s.subrange(0, la as int) =~= a);
    assert(s.subrange(la + 1 as int, p2 as int) =~= b);
    assert(s.subrange(p2 + 1 as int, n as int) =~= c);
    assert(words_from(s, n) == Seq::<Seq<char>>::empty());
    assert(words_from(s, p2) == seq![c]);
    assert(words_from(s, la) == seq![b, c]);
    assert(words_from(s, 0) == seq![a, b, c]);
}

proof fn lemma_digits_plain(s: Seq<char>)
    requires
        all_digits(s),
    ensures
        no_whitespace(s),
        lacks(s, '>'),
        lacks(s, '\n'),
        lacks(s, ':'),
{
    assert forall|i: int| 0 <= i < s.len() implies !is_ws(#[trigger] s[i]) && s[i] != '>' && s[i]
        != '\n' && s[i] != ':' by {
        assert(is_digit(s[i]));
    }
}

proof fn lemma_padded_digits(n: nat)
    ensures
        all_digits(zero_padded2(n)),
        zero_padded2(n).len() > 0,
        all_digits(zero_padded4(n)),
        zero_padded4(n).len() > 0,
{
    lemma_decimal_digits(n);
    let d = decimal(n);
    assert(all_digits(seq!['0'] + d));
    assert(all_digits(seq!['0', '0'] + d));
    assert(all_digits(seq!['0', '0', '0'] + d));
}

/// The clock text `HH:MM` reads back as the hour and minute.
proof fn lemma_clock_reads_back(h: u32, m: u32)
    ensures
        clock_of(zero_padded2(h as nat) + seq![':'] + zero_padded2(m as nat)) == Some((h, m)),
{
    let a = zero_padded2(h as nat);
    let b = zero_padded2(m as nat);
    let t = a + seq![':'] + b;
    lemma_padded_digits(h as nat);
    lemma_padded_digits(m as nat);
    lemma_digits_plain(a);
    lemma_digits_plain(b);
    assert(forall|j: int| 0 <= j < a.len() ==> t[j] == a[j]);
    assert(forall|j: int| a.len() + 1 <= j < t.len() ==> t[j] == b[j - a.len() - 1]);
    lemma_char_index_at(t, ':', 0, a.len());
    lemma_char_index_at(t, ':', a.len() + 1, t.len());
    assert(t.subrange(0, a.len() as int) =~= a);
    assert(t.subrange(a.len() + 1 as int, t.len() as int) =~= b);
    law_decimal_reads_back(h);
    law_decimal_reads_back(m);
}

/// The text the date picker writes for a day and a clock time.
pub open spec fn written_timestamp(d: Date, hour: u32, minute: u32) -> Seq<char> {
    iso_text(d) + seq![' '] + weekday_abbrev(d.weekday()) + seq![' '] + zero_padded2(hour as nat)
        + seq![':'] + zero_padded2(minute as nat)
}

proof fn lemma_written_timestamp_plain(d: Date, hour: u32, minute: u32)
    requires
        d.valid(),
        0 <= d.year <= 9999,
    ensures
        iso_text(d).len() > 0,
        no_whitespace(iso_text(d)),
        no_whitespace(weekday_abbrev(d.weekday())),
        weekday_abbrev(d.weekday()).len() > 0,
        no_whitespace(zero_padded2(hour as nat) + seq![':'] + zero_padded2(minute as nat)),
        lacks(written_timestamp(d, hour, minute), '>'),
        lacks(written_timestamp(d, hour, minute), '\n'),
{
    lemma_padded_digits(d.year as nat);
    lemma_padded_digits(d.month as nat);
    lemma_padded_digits(d.day as nat);
    lemma_padded_digits(hour as nat);
    lemma_padded_digits(minute as nat);
    lemma_digits_plain(zero_padded4(d.year as nat));
    lemma_digits_plain(zero_padded2(d.month as nat));
    lemma_digits_plain(zero_padded2(d.day as nat));
    lemma_digits_plain(zero_padded2(hour as nat));
    lemma_digits_plain(zero_padded2(minute as nat));
    assert(!is_ws('-'));
    assert(!is_ws(':'));
    let w = weekday_abbrev(d.weekday());
    assert(no_whitespace(w) && lacks(w, '>') && lacks(w, '\n'));
}

/// An org timestamp written by the date picker reads back as the clock time it
/// was written with, and as the date that `chrono` reads from its `YYYY-MM-DD`.
pub proof fn law_timestamp_reads_back(d: Date, hour: u32, minute: u32)
    requires
        d.valid(),
        0 <= d.year <= 9999,
    ensures
        org_timestamp(written_timestamp(d, hour, minute)) == match chrono_parse_ymd(iso_text(d)) {
            Some(x) => Some((x, Some((hour, minute)))),
            None => None,
        },
{
    lemma_written_timestamp_plain(d, hour, minute);
    let a = iso_text(d);
    let b = weekday_abbrev(d.weekday());
    let c = zero_padded2(hour as nat) + seq![':'] + zero_padded2(minute as nat);
    assert(written_timestamp(d, hour, minute) =~= a + seq![' '] + b + seq![' '] + c);
    lemma_three_words(a, b, c);
    lemma_clock_reads_back(hour, minute);
}

/// A text without line breaks is one line.
proof fn lemma_one_line(s: Seq<char>)
    requires
        s.len() > 0,
        lacks(s, '\n'),
    ensures
        lines_of(s) == seq![s],
{
    lemma_char_index_at(s, '\n', 0, s.len());
    assert(s.subrange(0, s.len() as int) =~= s);
}

/// `<ts>` preceded by `prefix` (a space or nothing): the bracketed text is `ts`.
proof fn lemma_bracketed_single(prefix: Seq<char>, ts: Seq<char>)
    requires
        lacks(ts, '>'),
        prefix.len() <= 1,
        lacks(prefix, '<'),
    ensures
        bracketed_from(prefix + seq!['<'] + ts + seq!['>'], 0) == seq![ts],
{
    let s = prefix + seq!['<'] + ts + seq!['>'];
    let p = prefix.len();
    let n = s.len();
    assert(s[p as int] == '<');
    assert(forall|j: int| p + 1 <= j < n - 1 ==> s[j] == ts[j - p - 1]);
    assert(s[n - 1] == '>');
    lemma_char_index_at(s, '<', 0, p);
    lemma_char_index_at(s, '>', p, (n - 1) as nat);
    lemma_char_index_at(s, '<', n, n);
    assert(s.subrange(p + 1 as int, n - 1 as int) =~= ts);
    assert(bracketed_from(s, n) == Seq::<Seq<char>>::empty());
}

/// The planning line written for a timestamp holds exactly that timestamp,
/// found under its keyword.
pub proof fn law_planning_line_reads_back(ts: Seq<char>, t: DateInputType)
    requires
        lacks(ts, '>'),
        lacks(ts, '\n'),
    ensures
        timestamps(planning_line(ts, t), planning_keyword(t)) == seq![ts],
{
    let line = planning_line(ts, t);
    assert forall|i: int| 0 <= i < line.len() implies #[trigger] line[i] != '\n' by {
        let k = line.len() - ts.len() - 1;
        if k <= i < line.len() - 1 {
            assert(line[i] == ts[i - k]);
        }
    }
    lemma_one_line(line);
    let ls = seq![line];
    assert(ls.drop_last() =~= Seq::<Seq<char>>::empty());
    assert(ls.last() == line);
    assert(timestamps_of_lines(Seq::<Seq<char>>::empty(), planning_keyword(t)) == Seq::<Seq<char>>::empty());
    assert(timestamps_of_lines(ls, planning_keyword(t)) == line_timestamps(line, planning_keyword(t)));
    match t {
        DateInputType::Plain => {
            assert(line =~= Seq::<char>::empty() + seq!['<'] + ts + seq!['>']);
            lemma_bracketed_single(Seq::empty(), ts);
        },
        DateInputType::Scheduled => {
            let k = scheduled_keyword();
            assert(line.subrange(0, k.len() as int) =~= k);
            assert(occurs_at(line, k, 0));
            assert(find(line, k) == Some(0nat));
            assert(line.subrange(k.len() as int, line.len() as int) =~= seq![' '] + seq!['<'] + ts
                + seq!['>']);
            lemma_bracketed_single(seq![' '], ts);
        },
        DateInputType::Deadline => {
            let k = deadline_keyword();
            assert(line.subrange(0, k.len() as int) =~= k);
            assert(occurs_at(line, k, 0));
            assert(find(line, k) == Some(0nat));
            assert(line.subrange(k.len() as int, line.len() as int) =~= seq![' '] + seq!['<'] + ts
                + seq!['>']);
            lemma_bracketed_single(seq![' '], ts);
        },
    }
}

/// A date set with the date picker and written as a planning line reads back:
/// the line's date of that kind is the date `chrono` reads from the written
/// `YYYY-MM-DD`, and its clock time is the one set.
pub proof fn law_written_date_reads_back(d: Date, hour: u32, minute: u32, t: DateInputType)
    requires
        d.valid(),
        0 <= d.year <= 9999,
    ensures
        existing_date(planning_line(written_timestamp(d, hour, minute), t), t) == chrono_parse_ymd(
            iso_text(d),
        ),
        chrono_parse_ymd(iso_text(d)) is Some ==> existing_time(
            planning_line(written_timestamp(d, hour, minute), t),
            t,
        ) == (hour, minute),
{
    let ts = written_timestamp(d, hour, minute);
    lemma_written_timestamp_plain(d, hour, minute);
    law_planning_line_reads_back(ts, t);
    law_timestamp_reads_back(d, hour, minute);
    let tss = seq![ts];
    assert(tss.drop_first() =~= Seq::<Seq<char>>::empty());
    assert(tss[0] == ts);
    assert(first_date(Seq::<Seq<char>>::empty()) is None);
    assert(first_clock(Seq::<Seq<char>>::empty()) is None);
    assert(timestamps(planning_line(ts, t), planning_keyword(t)) == tss);
}

/// Re-keywording an entry that occurs in a text writes the new headline text into it.
pub proof fn law_replacement_holds_new_text(s: Seq<char>, from: Seq<char>, to: Seq<char>)
    requires
        from.len() > 0,
        contains(s, from),
    ensures
        contains(replaced(s, from, to), to),
{
    lemma_find_is_first(s, from);
    let k = find(s, from)->0;
    lemma_find_from(s, from, 0);
    let rest = replaced_from(s, from, to, k + from.len());
    let x = s.subrange(0, k as int) + to + rest;
    assert(replaced(s, from, to) == x);
    assert(x.subrange(k as int, k + to.len() as int) =~= to);
    assert(occurs_at(x, to, k as int));
    lemma_find_is_first(x, to);
}

// ---------------------------------------------------------------------
// Lines written back
// ---------------------------------------------------------------------

proof fn lemma_joined_front(ls: Seq<Seq<char>>, sep: Seq<char>)
    requires
        ls.len() >= 2,
    ensures
        joined(ls, sep) == ls[0] + sep + joined(ls.drop_first(), sep),
    decreases ls.len(),
{
    if ls.len() == 2 {
        assert(ls.drop_last() =~= seq![ls[0]]);
        assert(ls.drop_first() =~= seq![ls[1]]);
        assert(joined(seq![ls[0]], sep) == ls[0]);
        assert(joined(seq![ls[1]], sep) == ls[1]);
        assert(ls.last() == ls[1]);
    } else {
        lemma_joined_front(ls.drop_last(), sep);
        let x = joined(ls.drop_last().drop_first(), sep);
        assert(ls.drop_last().drop_first() =~= ls.drop_first().drop_last());
        assert(ls.drop_last()[0] == ls[0]);
        assert(ls.drop_first().last() == ls.last());
        assert(joined(ls.drop_first(), sep) == x + sep + ls.last());
        assert(joined(ls, sep) == joined(ls.drop_last(), sep) + sep + ls.last());
        assert(ls[0] + sep + x + sep + ls.last() =~= ls[0] + sep + (x + sep + ls.last()));
    }
}

proof fn lemma_char_index_shift(pre: Seq<char>, s: Seq<char>, c: char, i: nat)
    requires
        i <= s.len(),
    ensures
        char_index_from(pre + s, c, pre.len() + i) == pre.len() + char_index_from(s, c, i),
    decreases s.len() - i,
{
    let t = pre + s;
    if i < s.len() {
        assert(t[pre.len() + i as int] == s[i as int]);
        if s[i as int] != c {
            lemma_char_index_shift(pre, s, c, i + 1);
        }
    }
}

proof fn lemma_lines_shift(pre: Seq<char>, s: Seq<char>, p: nat)
    requires
        p <= s.len(),
    ensures
        lines_from(pre + s, pre.len() + p) == lines_from(s, p),
    decreases s.len() - p,
{
    let t = pre + s;
    if p < s.len() {
        lemma_char_index_shift(pre, s, '\n', p);
        lemma_char_index_from(s, '\n', p);
        let e = char_index_from(s, '\n', p);
        if e < s.len() {
            lemma_lines_shift(pre, s, e + 1);
            assert(t.subrange(pre.len() + p as int, pre.len() + e as int) =~= s.subrange(p as int, e as int));
        } else {
            assert(t.subrange(pre.len() + p as int, t.len() as int) =~= s.subrange(p as int, s.len() as int));
        }
    }
}

/// Lines joined with newlines read back as the same lines (`str::lines`),
/// when none holds a line break, none but the last ends with a carriage
/// return, and the last is not empty.
pub proof fn law_joined_lines_read_back(ls: Seq<Seq<char>>)
    requires
        forall|i: int| 0 <= i < ls.len() ==> lacks(#[trigger] ls[i], '\n'),
        forall|i: int|
            0 <= i < ls.len() - 1 ==> !((#[trigger] ls[i]).len() > 0 && ls[i].last() == '\r'),
        ls.len() > 0 ==> ls.last().len() > 0,
    ensures
        lines_of(joined(ls, seq!['\n'])) == ls,
    decreases ls.len(),
{
    if ls.len() == 0 {
    } else if ls.len() == 1 {
        assert(ls[0] == ls.last());
        lemma_one_line(ls[0]);
        assert(ls =~= seq![ls[0]]);
    } else {
        let a = ls[0];
        let rest = ls.drop_first();
        assert forall|i: int| 0 <= i < rest.len() implies lacks(#[trigger] rest[i], '\n') by {
            assert(rest[i] == ls[i + 1]);
        }
        assert forall|i: int| 0 <= i < rest.len() - 1 implies !((#[trigger] rest[i]).len() > 0
            && rest[i].last() == '\r') by {
            assert(rest[i] == ls[i + 1]);
        }
        assert(rest.last() == ls.last());
        law_joined_lines_read_back(rest);
        lemma_joined_front(ls, seq!['\n']);
        let r = joined(rest, seq!['\n']);
        let t = a + seq!['\n'] + r;
        assert(lacks(a, '\n'));
        assert(forall|j: int| 0 <= j < a.len() ==> t[j] == a[j]);
        assert(t[a.len() as int] == '\n');
        lemma_char_index_at(t, '\n', 0, a.len());
        assert(t.subrange(0, a.len() as int) =~= a);
        assert(strip_cr(a) == a);
        assert(t =~= (a + seq!['\n']) + r);
        lemma_lines_shift(a + seq!['\n'], r, 0);
        assert(lines_from(t, a.len() + 1) == lines_of(r));
        assert(lines_of(t) =~= seq![a] + rest);
        assert(ls =~= seq![a] + rest);
    }
}

/// Every timestamp found holds no `>`: it ends at the first `>` after its `<`.
pub proof fn law_timestamps_hold_no_close_bracket(content: Seq<char>, keyword: Option<Seq<char>>)
    ensures
        forall|i: int| 0 <= i < timestamps(content, keyword).len() ==> lacks(
            #[trigger] timestamps(content, keyword)[i],
            '>',
        ),
{
    lemma_timestamps_of_lines_lack(lines_of(content), keyword);
}

proof fn lemma_timestamps_of_lines_lack(ls: Seq<Seq<char>>, keyword: Option<Seq<char>>)
    ensures
        forall|i: int| 0 <= i < timestamps_of_lines(ls, keyword).len() ==> lacks(
            #[trigger] timestamps_of_lines(ls, keyword)[i],
            '>',
        ),
    decreases ls.len(),
{
    if ls.len() > 0 {
        lemma_timestamps_of_lines_lack(ls.drop_last(), keyword);
        if let Some(t) = search_area(ls.last(), keyword) {
            lemma_bracketed_lack(t, 0);
        }
        let a = timestamps_of_lines(ls.drop_last(), keyword);
        let b = line_timestamps(ls.last(), keyword);
        assert forall|i: int| 0 <= i < (a + b).len() implies lacks(#[trigger] (a + b)[i], '>') by {
            if i < a.len() {
                assert((a + b)[i] == a[i]);
            } else {
                assert((a + b)[i] == b[i - a.len()]);
            }
        }
    }
}

proof fn lemma_bracketed_lack(t: Seq<char>, pos: nat)
    ensures
        forall|i: int| 0 <= i < bracketed_from(t, pos).len() ==> lacks(
            #[trigger] bracketed_from(t, pos)[i],
            '>',
        ),
    decreases t.len() - pos,
{
    let a = char_index_from(t, '<', pos);
    lemma_char_index_from(t, '<', pos);
    if a < t.len() && pos <= t.len() {
        let e = char_index_from(t, '>', a);
        lemma_char_index_from(t, '>', a);
        if e < t.len() {
            lemma_bracketed_lack(t, e + 1);
            let first = t.subrange(a + 1 as int, e as int);
            assert(lacks(first, '>'));
            let rest = bracketed_from(t, e + 1);
            assert forall|i: int| 0 <= i < (seq![first] + rest).len() implies lacks(
                #[trigger] (seq![first] + rest)[i],
                '>',
            ) by {
                if i > 0 {
                    assert((seq![first] + rest)[i] == rest[i - 1]);
                }
            }
        }
    }
}


/// Searching `a + t` from inside `a` finds the first `c` of `a`, or else the
/// first `c` of `t` after all of `a`.
proof fn lemma_char_index_prefix(a: Seq<char>, t: Seq<char>, c: char, i: nat)
    requires
        i <= a.len(),
    ensures
        char_index_from(a + t, c, i) == if char_index_from(a, c, i) < a.len() {
            char_index_from(a, c, i)
        } else {
            a.len() + char_index_from(t, c, 0)
        },
    decreases a.len() - i,
{
    if i == a.len() {
        lemma_char_index_shift(a, t, c, 0);
    } else {
        assert((a + t)[i as int] == a[i as int]);
        if a[i as int] != c {
            lemma_char_index_prefix(a, t, c, i + 1);
        }
    }
}

/// The lines of `a + "\n" + b` from a point `p` inside `a` are the lines of
/// `a` from `p`, then possibly one empty line, then the lines of `b`.
proof fn lemma_lines_of_joined_texts(a: Seq<char>, b: Seq<char>, p: nat)
    requires
        p <= a.len(),
        !(a.len() > 0 && a.last() == '\r'),
    ensures
        lines_from(a + seq!['\n'] + b, p) == lines_from(a, p) + lines_of(b) || lines_from(
            a + seq!['\n'] + b,
            p,
        ) == lines_from(a, p) + seq![Seq::<char>::empty()] + lines_of(b),
    decreases a.len() - p,
{
    let s = a + seq!['\n'] + b;
    let n = a.len();
    assert(s == a + (seq!['\n'] + b));
    lemma_char_index_prefix(a, seq!['\n'] + b, '\n', p);
    lemma_char_index_from(a, '\n', p);
    assert((seq!['\n'] + b)[0] == '\n');
    assert(char_index_from(seq!['\n'] + b, '\n', 0) == 0);
    assert(s == (a + seq!['\n']) + b);
    lemma_lines_shift(a + seq!['\n'], b, 0);
    assert(lines_from(s, n + 1) == lines_of(b));
    let e = char_index_from(a, '\n', p);
    if p == n {
        assert(s.subrange(n as int, n as int) =~= Seq::<char>::empty());
        assert(lines_from(s, p) == seq![Seq::<char>::empty()] + lines_of(b));
        assert(lines_from(a, p) =~= Seq::<Seq<char>>::empty());
        assert(lines_from(s, p) == lines_from(a, p) + seq![Seq::<char>::empty()] + lines_of(b));
    } else if e < n {
        assert(s.subrange(p as int, e as int) =~= a.subrange(p as int, e as int));
        lemma_lines_of_joined_texts(a, b, e + 1);
        let head = seq![strip_cr(a.subrange(p as int, e as int))];
        assert(lines_from(s, p) == head + lines_from(s, e + 1));
        assert(lines_from(a, p) == head + lines_from(a, e + 1));
        if lines_from(s, e + 1) == lines_from(a, e + 1) + lines_of(b) {
            assert(lines_from(s, p) =~= lines_from(a, p) + lines_of(b));
        } else {
            assert(lines_from(s, p) =~= lines_from(a, p) + seq![Seq::<char>::empty()] + lines_of(b));
        }
    } else {
        let line = a.subrange(p as int, n as int);
        assert(s.subrange(p as int, n as int) =~= line);
        assert(line.last() == a.last());
        assert(strip_cr(line) == line);
        assert(lines_from(s, p) == seq![line] + lines_of(b));
        assert(lines_from(a, p) == seq![line]);
    }
}

/// The timestamps of two sequences of lines, one after the other, are those
/// of the first followed by those of the second.
proof fn lemma_timestamps_of_lines_append(x: Seq<Seq<char>>, y: Seq<Seq<char>>, keyword: Option<Seq<char>>)
    ensures
        timestamps_of_lines(x + y, keyword) == timestamps_of_lines(x, keyword) + timestamps_of_lines(
            y,
            keyword,
        ),
    decreases y.len(),
{
    if y.len() == 0 {
        assert(x + y =~= x);
        assert(timestamps_of_lines(x, keyword) + timestamps_of_lines(y, keyword) =~= timestamps_of_lines(x, keyword));
    } else {
        assert((x + y).drop_last() =~= x + y.drop_last());
        assert((x + y).last() == y.last());
        lemma_timestamps_of_lines_append(x, y.drop_last(), keyword);
        assert(timestamps_of_lines(x + y, keyword) =~= timestamps_of_lines(x, keyword)
            + timestamps_of_lines(y, keyword));
    }
}

/// An empty line holds no timestamp.
proof fn lemma_empty_line_has_no_timestamps(keyword: Option<Seq<char>>)
    ensures
        timestamps_of_lines(seq![Seq::<char>::empty()], keyword) =~= Seq::<Seq<char>>::empty(),
{
    let e = Seq::<char>::empty();
    assert(seq![e].drop_last() =~= Seq::<Seq<char>>::empty());
    assert(seq![e].last() == e);
    assert(timestamps_of_lines(Seq::<Seq<char>>::empty(), keyword) == Seq::<Seq<char>>::empty());
    assert(char_index_from(e, '<', 0) == 0);
    assert(bracketed_from(e, 0) == Seq::<Seq<char>>::empty());
    match keyword {
        None => {
            assert(line_timestamps(e, keyword) == bracketed_from(e, 0));
        },
        Some(k) => {
            if k.len() == 0 {
                assert(k =~= e);
                assert(e.subrange(0, 0) =~= k);
                assert(occurs_at(e, k, 0));
                assert(find(e, k) == Some(0nat));
                assert(e.subrange(0, 0) =~= e);
            } else {
                assert(find(e, k) is None);
            }
        },
    }
    assert(timestamps_of_lines(seq![e], keyword) == timestamps_of_lines(
        Seq::<Seq<char>>::empty(),
        keyword,
    ) + line_timestamps(e, keyword));
}

/// Lines are read one by one and no timestamp spans two lines: the timestamps
/// of `a`, a line break and `b` are those of `a` followed by those of `b`,
/// when `a` does not end with a carriage return.
pub proof fn law_timestamps_split_at_line_break(a: Seq<char>, b: Seq<char>, keyword: Option<Seq<char>>)
    requires
        !(a.len() > 0 && a.last() == '\r'),
    ensures
        timestamps(a + seq!['\n'] + b, keyword) == timestamps(a, keyword) + timestamps(b, keyword),
{
    lemma_lines_of_joined_texts(a, b, 0);
    let la = lines_of(a);
    let lb = lines_of(b);
    lemma_timestamps_of_lines_append(la, lb, keyword);
    if lines_of(a + seq!['\n'] + b) != la + lb {
        let mid = seq![Seq::<char>::empty()];
        assert(lines_of(a + seq!['\n'] + b) == (la + mid) + lb);
        lemma_timestamps_of_lines_append(la + mid, lb, keyword);
        lemma_timestamps_of_lines_append(la, mid, keyword);
        lemma_empty_line_has_no_timestamps(keyword);
        assert(timestamps_of_lines(la + mid, keyword) =~= timestamps_of_lines(la, keyword));
    }
}


/// An occurrence of `pat` in `s` means `s` contains `pat`.
proof fn lemma_occurrence_is_contained(s: Seq<char>, pat: Seq<char>, i: int)
    requires
        occurs_at(s, pat, i),
    ensures
        contains(s, pat),
{
    lemma_find_is_first(s, pat);
}

/// The first titled line at or after `i` is `j` when `j` is titled and none
/// before it is.
proof fn lemma_first_titled_is(ls: Seq<Seq<char>>, title: Seq<char>, i: nat, j: nat)
    requires
        i <= j < ls.len(),
        is_titled_line(ls[j as int], title),
        forall|k: int| i <= k < j ==> !is_titled_line(#[trigger] ls[k], title),
    ensures
        first_titled_from(ls, title, i) == Some(j),
    decreases j - i,
{
    if i < j {
        lemma_first_titled_is(ls, title, i + 1, j);
    }
}

/// A keyword that neither starts with `<` nor ends with `>` occurs in `<d>`
/// only when it occurs in `d`.
proof fn lemma_keyword_in_brackets(d: Seq<char>, k: Seq<char>)
    requires
        k.len() >= 1,
        k[0] != '<',
        k.last() != '>',
        !contains(d, k),
    ensures
        !contains(seq!['<'] + d + seq!['>'], k),
{
    let s = seq!['<'] + d + seq!['>'];
    lemma_find_is_first(s, k);
    lemma_find_is_first(d, k);
    if contains(s, k) {
        let p = find(s, k)->0 as int;
        assert(occurs_at(s, k, p));
        assert(s.subrange(p, p + k.len())[0] == k[0]);
        assert(p != 0);
        assert(s.subrange(p, p + k.len())[k.len() - 1] == k[k.len() - 1]);
        assert(p + k.len() != s.len());
        assert(d.subrange(p - 1, p - 1 + k.len()) =~= s.subrange(p, p + k.len()));
        assert(occurs_at(d, k, p - 1));
    }
}

/// The planning line written for a date is one that a second date of the same
/// kind replaces, when a plain date holds neither planning keyword.
proof fn lemma_planning_line_is_replaced(date: Seq<char>, t: DateInputType)
    requires
        t == DateInputType::Plain ==> !contains(date, scheduled_keyword()) && !contains(
            date,
            deadline_keyword(),
        ),
    ensures
        replaces_line(planning_line(date, t), t),
{
    let l = planning_line(date, t);
    match t {
        DateInputType::Scheduled => {
            assert(l.subrange(0, scheduled_keyword().len() as int) =~= scheduled_keyword());
            lemma_occurrence_is_contained(l, scheduled_keyword(), 0);
        },
        DateInputType::Deadline => {
            assert(l.subrange(0, deadline_keyword().len() as int) =~= deadline_keyword());
            lemma_occurrence_is_contained(l, deadline_keyword(), 0);
        },
        DateInputType::Plain => {
            assert(!is_ws('<') && !is_ws('>'));
            assert(l[0] == '<');
            assert(l.last() == '>');
            assert(non_ws_from(l, 0) == 0);
            assert(trim_end_at(l, l.len()) == l.len());
            assert(l.subrange(0, l.len() as int) =~= l);
            assert(trimmed(l) == l);
            assert(l.subrange(0, 1) =~= seq!['<']);
            assert(l.subrange(l.len() - 1, l.len() as int) =~= seq!['>']);
            assert(ends_with(l, seq!['>']));
            lemma_keyword_in_brackets(date, scheduled_keyword());
            lemma_keyword_in_brackets(date, deadline_keyword());
        },
    }
}

/// Adding the same date twice leaves the lines as the first addition left
/// them: the second finds the same headline and replaces the planning line
/// the first wrote right below it (a plain date must hold neither planning
/// keyword, or it would not be taken for a plain date line).
pub proof fn law_date_added_twice(ls: Seq<Seq<char>>, title: Seq<char>, date: Seq<char>, t: DateInputType)
    requires
        t == DateInputType::Plain ==> !contains(date, scheduled_keyword()) && !contains(
            date,
            deadline_keyword(),
        ),
    ensures
        with_date(with_date(ls, title, date, t), title, date, t) == with_date(ls, title, date, t),
{
    let l1 = with_date(ls, title, date, t);
    lemma_first_titled_from(ls, title, 0);
    match first_titled_from(ls, title, 0) {
        None => {},
        Some(j) => {
            let pl = planning_line(date, t);
            let rest: int = if j + 1 < ls.len() && replaces_line(ls[j + 1 as int], t) {
                j + 2int
            } else {
                j + 1int
            };
            assert(l1 == ls.subrange(0, j + 1 as int).push(pl) + ls.subrange(rest, ls.len() as int));
            assert forall|k: int| 0 <= k <= j implies #[trigger] l1[k] == ls[k] by {}
            assert(l1[j + 1 as int] == pl);
            assert forall|k: int| 0 <= k < j implies !is_titled_line(#[trigger] l1[k], title) by {
                assert(l1[k] == ls[k]);
            }
            lemma_first_titled_is(l1, title, 0, j);
            lemma_planning_line_is_replaced(date, t);
            assert(j + 1 < l1.len() && replaces_line(l1[j + 1 as int], t));
            assert(l1.subrange(0, j + 1 as int) =~= ls.subrange(0, j + 1 as int));
            assert(l1.subrange(j + 2 as int, l1.len() as int) =~= ls.subrange(rest, ls.len() as int));
            assert(with_date(l1, title, date, t) =~= l1);
        },
    }
}


/// The texts searched for timestamps under a keyword: for each line that
/// contains the keyword, in order, the text after its first occurrence.
pub open spec fn after_keyword(ls: Seq<Seq<char>>, keyword: Seq<char>) -> Seq<Seq<char>>
    decreases ls.len(),
{
    if ls.len() == 0 {
        Seq::empty()
    } else {
        let rest = after_keyword(ls.drop_last(), keyword);
        let l = ls.last();
        match find(l, keyword) {
            Some(p) => rest.push(l.subrange((p + keyword.len()) as int, l.len() as int)),
            None => rest,
        }
    }
}

proof fn lemma_keyword_lines(ls: Seq<Seq<char>>, keyword: Seq<char>)
    ensures
        timestamps_of_lines(ls, Some(keyword)) == timestamps_of_lines(
            after_keyword(ls, keyword),
            None,
        ),
    decreases ls.len(),
{
    if ls.len() > 0 {
        let rest = after_keyword(ls.drop_last(), keyword);
        lemma_keyword_lines(ls.drop_last(), keyword);
        let l = ls.last();
        match find(l, keyword) {
            Some(p) => {
                let a = l.subrange((p + keyword.len()) as int, l.len() as int);
                assert(rest.push(a).drop_last() =~= rest);
                assert(line_timestamps(l, Some(keyword)) == line_timestamps(a, None));
            },
            None => {
                assert(line_timestamps(l, Some(keyword)) =~= Seq::<Seq<char>>::empty());
            },
        }
    }
}

/// A search under a keyword reads only the lines that contain the keyword, and
/// of each only the text after the keyword's first occurrence: it finds the
/// timestamps of those texts, in order.
pub proof fn law_keyword_search_reads_after_keyword(content: Seq<char>, keyword: Seq<char>)
    ensures
        timestamps(content, Some(keyword)) == timestamps_of_lines(
            after_keyword(lines_of(content), keyword),
            None,
        ),
{
    lemma_keyword_lines(lines_of(content), keyword);
}

proof fn lemma_empty_keyword_lines(ls: Seq<Seq<char>>)
    ensures
        timestamps_of_lines(ls, Some(Seq::<char>::empty())) == timestamps_of_lines(ls, None),
    decreases ls.len(),
{
    if ls.len() > 0 {
        lemma_empty_keyword_lines(ls.drop_last());
        let l = ls.last();
        let e = Seq::<char>::empty();
        assert(l.subrange(0, 0) =~= e);
        assert(occurs_at(l, e, 0));
        assert(find(l, e) == Some(0nat));
        assert(l.subrange(0, l.len() as int) =~= l);
        assert(search_area(l, Some(e)) == search_area(l, None));
    }
}

/// Searching under an empty keyword finds exactly what a search without a
/// keyword finds.
pub proof fn law_empty_keyword_is_no_keyword(content: Seq<char>)
    ensures
        timestamps(content, Some(Seq::<char>::empty())) == timestamps(content, None),
{
    lemma_empty_keyword_lines(lines_of(content));
}


/// No line of a text holds a line break.
proof fn lemma_lines_lack_newline(s: Seq<char>, p: nat)
    ensures
        forall|k: int| 0 <= k < lines_from(s, p).len() ==> lacks(#[trigger] lines_from(s, p)[k], '\n'),
    decreases s.len() - p,
{
    if p < s.len() {
        let e = char_index_from(s, '\n', p);
        lemma_char_index_from(s, '\n', p);
        let seg = s.subrange(p as int, e as int);
        assert(lacks(seg, '\n'));
        if e < s.len() {
            lemma_lines_lack_newline(s, e + 1);
            let ls = lines_from(s, p);
            assert(ls == seq![strip_cr(seg)] + lines_from(s, e + 1));
            assert(lacks(strip_cr(seg), '\n'));
            assert forall|k: int| 0 <= k < ls.len() implies lacks(#[trigger] ls[k], '\n') by {
                if k > 0 {
                    assert(ls[k] == lines_from(s, e + 1)[k - 1]);
                }
            }
        }
    }
}

/// Adding the same date twice to a file leaves the text the first addition
/// wrote, so also its lines: the first text reads back as the lines it wrote,
/// and the second addition replaces the planning line the first wrote. Stated
/// for a date without line breaks (a plain one holding neither planning
/// keyword) and a text none of whose lines ends with a carriage return and
/// whose last line is not empty.
pub proof fn law_date_added_twice_to_a_file(
    content: Seq<char>,
    title: Seq<char>,
    date: Seq<char>,
    t: DateInputType,
)
    requires
        lacks(date, '\n'),
        t == DateInputType::Plain ==> !contains(date, scheduled_keyword()) && !contains(
            date,
            deadline_keyword(),
        ),
        forall|i: int|
            0 <= i < lines_of(content).len() ==> !((#[trigger] lines_of(content)[i]).len() > 0
                && lines_of(content)[i].last() == '\r'),
        lines_of(content).len() > 0 ==> lines_of(content).last().len() > 0,
    ensures
        ({
            let first = joined(with_date(lines_of(content), title, date, t), seq!['\n']);
            &&& joined(with_date(lines_of(first), title, date, t), seq!['\n']) == first
            &&& lines_of(joined(with_date(lines_of(first), title, date, t), seq!['\n']))
                == lines_of(first)
        }),
{
    let ls = lines_of(content);
    let l1 = with_date(ls, title, date, t);
    lemma_lines_lack_newline(content, 0);
    let pl = planning_line(date, t);
    assert(lacks(pl, '\n'));
    assert(pl.len() > 0 && pl.last() == '>');
    lemma_first_titled_from(ls, title, 0);
    match first_titled_from(ls, title, 0) {
        None => {
            assert(l1 == ls);
        },
        Some(j) => {
            let rest: int = if j + 1 < ls.len() && replaces_line(ls[j + 1 as int], t) {
                j + 2int
            } else {
                j + 1int
            };
            let head = ls.subrange(0, j + 1 as int).push(pl);
            let tail = ls.subrange(rest, ls.len() as int);
            assert(l1 == head + tail);
            assert forall|k: int| 0 <= k < l1.len() implies lacks(#[trigger] l1[k], '\n') && (k
                < l1.len() - 1 ==> !(l1[k].len() > 0 && l1[k].last() == '\r')) by {
                if k <= j {
                    assert(l1[k] == ls[k]);
                } else if k == j + 1 {
                    assert(l1[k] == pl);
                } else {
                    assert(l1[k] == ls[k - (j + 2) + rest]);
                }
            }
            if rest < ls.len() {
                assert(l1.last() == ls.last());
            } else {
                assert(l1.last() == pl);
            }
        },
    }
    law_joined_lines_read_back(l1);
    law_date_added_twice(ls, title, date, t);
}

} // verus!
