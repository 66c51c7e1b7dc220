//! What reading, replacing, deleting and dating an entry do to the lines of
//! an org text, stated over headline levels alone.

use vstd::prelude::*;
use crate::calendar::{chrono_parse_ymd, Date};
use crate::dates::{clock_of, org_timestamp, timestamp_with};
use crate::parser::{
    entries_of, entry_end, entry_of, heading_level_of, headline_line_from, is_headline_line, lemma_entry_end,
    lemma_headline_line_from, lemma_non_star_from, non_star_from, stars, HeadlineView,
};
use crate::text::{contains, ends_with, starts_with, terminated, trimmed, words};
use crate::types::{DateInputType, TodoView};
use std::path::PathBuf;
use crate::writer::{first_entry_heading_from, updated_from, with_date, without_entry, first_titled_from};

verus! {

// ---------------------------------------------------------------------
// Lines and levels
// ---------------------------------------------------------------------

/// A headline of level `level` or above (fewer stars) closes an entry of level `level`.
pub open spec fn closes(line: Seq<char>, level: nat) -> bool {
    match heading_level_of(line) {
        Some(l) => l <= level,
        None => false,
    }
}

/// Lines `i .. i + n` of `ls` are a whole subtree of level `level`: the first
/// is a headline of that level, none of the others closes it, and the line
/// after them (if any) does.
pub open spec fn is_subtree(ls: Seq<Seq<char>>, i: int, n: int, level: nat) -> bool {
    &&& 0 <= i
    &&& 1 <= n
    &&& i + n <= ls.len()
    &&& heading_level_of(ls[i]) == Some(level)
    &&& forall|m: int| i < m < i + n ==> !closes(#[trigger] ls[m], level)
    &&& (i + n == ls.len() || closes(ls[i + n], level))
}

/// The entry's text is one whole subtree of `ls`, each line ended by a newline.
pub open spec fn is_subtree_entry(ls: Seq<Seq<char>>, e: TodoView) -> bool {
    exists|i: int, n: int|
        #[trigger] is_subtree(ls, i, n, e.level) && e.content == terminated(
            ls.subrange(i, i + n),
            seq!['\n'],
        )
}

/// A headline line that holds the keyword and the title.
pub open spec fn names_entry(line: Seq<char>, keyword: Seq<char>, title: Seq<char>) -> bool {
    heading_level_of(line) is Some && contains(line, keyword) && contains(line, title)
}

/// A line that starts with `*` and holds the title.
pub open spec fn starts_titled(line: Seq<char>, title: Seq<char>) -> bool {
    starts_with(line, seq!['*']) && contains(line, title)
}

proof fn lemma_non_star_is(s: Seq<char>, level: nat, i: nat)
    requires
        i <= level <= s.len(),
        forall|j: int| 0 <= j < level ==> s[j] == '*',
        level == s.len() || s[level as int] != '*',
    ensures
        non_star_from(s, i) == level,
    decreases level - i,
{
    if i < level {
        lemma_non_star_is(s, level, i + 1);
    }
}

/// A headline line of `level >= 1` stars has heading level `level`.
proof fn lemma_headline_level(line: Seq<char>, level: nat)
    requires
        level >= 1,
        starts_with(line, stars(level)),
        !(line.len() > level && line[level as int] == '*'),
    ensures
        heading_level_of(line) == Some(level),
{
    assert forall|j: int| 0 <= j < level implies line[j] == '*' by {
        assert(line.subrange(0, level as int)[j] == stars(level)[j]);
    }
    lemma_non_star_is(line, level, 0);
}

/// The line found for a headline starts with exactly its level of stars.
proof fn lemma_found_headline(ls: Seq<Seq<char>>, level: nat, title: Seq<char>, i: nat)
    ensures
        headline_line_from(ls, level, title, i) matches Some(k) ==> is_headline_line(
            ls[k as int],
            level,
            title,
        ),
    decreases ls.len() - i,
{
    if i < ls.len() && !is_headline_line(ls[i as int], level, title) {
        lemma_found_headline(ls, level, title, i + 1);
    }
}

/// The end of an entry is the first closing line after its headline.
proof fn lemma_entry_end_is(ls: Seq<Seq<char>>, p: nat, e: nat, level: nat)
    requires
        p <= e <= ls.len(),
        forall|m: int| p <= m < e ==> !closes(#[trigger] ls[m], level),
        e == ls.len() || closes(ls[e as int], level),
    ensures
        entry_end(ls, p, level) == e,
    decreases e - p,
{
    if p < e {
        assert(!closes(ls[p as int], level));
        lemma_entry_end_is(ls, p + 1, e, level);
    }
}

// ---------------------------------------------------------------------
// Entries
// ---------------------------------------------------------------------

/// Every entry read from an org text is one whole subtree of the text: its
/// headline of the entry's level, then the lines up to (not including) the
/// next headline of that level or above, each ended by a newline. So an entry
/// never holds a sibling or an ancestor's sibling, and never stops before one.
pub proof fn law_entry_is_its_subtree(hs: Seq<HeadlineView>, ls: Seq<Seq<char>>, path: PathBuf)
    requires
        forall|k: int| 0 <= k < hs.len() ==> (#[trigger] hs[k]).level >= 1,
    ensures
        forall|k: int|
            0 <= k < entries_of(hs, ls, path).len() ==> is_subtree_entry(
                ls,
                #[trigger] entries_of(hs, ls, path)[k],
            ),
    decreases hs.len(),
{
    if hs.len() > 0 {
        let rest = hs.drop_last();
        assert forall|k: int| 0 <= k < rest.len() implies (#[trigger] rest[k]).level >= 1 by {
            assert(rest[k] == hs[k]);
        }
        law_entry_is_its_subtree(rest, ls, path);
        let all = entries_of(hs, ls, path);
        let prev = entries_of(rest, ls, path);
        let h = hs.last();
        match entry_of(h, ls, path) {
            None => {
                assert(all == prev);
            },
            Some(en) => {
                assert(all == prev.push(en));
                let title = trimmed(h.raw);
                let i = headline_line_from(ls, h.level, title, 0)->0;
                lemma_headline_line_from(ls, h.level, title, 0);
                lemma_found_headline(ls, h.level, title, 0);
                lemma_entry_end(ls, i + 1, h.level);
                let e = entry_end(ls, i + 1, h.level);
                lemma_headline_level(ls[i as int], h.level);
                assert forall|m: int| i < m < e implies !closes(#[trigger] ls[m], h.level) by {
                    assert(!crate::parser::ends_entry(ls[m], h.level));
                }
                if e < ls.len() {
                    assert(crate::parser::ends_entry(ls[e as int], h.level));
                }
                assert(is_subtree(ls, i as int, e - i, en.level));
                assert(is_subtree_entry(ls, en));
                assert forall|k: int| 0 <= k < all.len() implies is_subtree_entry(
                    ls,
                    #[trigger] all[k],
                ) by {
                    if k < prev.len() {
                        assert(all[k] == prev[k]);
                    } else {
                        assert(all[k] == en);
                    }
                }
            },
        }
    }
}

// ---------------------------------------------------------------------
// Replacing an entry
// ---------------------------------------------------------------------

proof fn lemma_updated_run(
    ls: Seq<Seq<char>>,
    i: nat,
    j: nat,
    keyword: Seq<char>,
    title: Seq<char>,
    new: Seq<char>,
)
    requires
        i <= j <= ls.len(),
        forall|m: int| i <= m < j ==> !names_entry(#[trigger] ls[m], keyword, title),
    ensures
        updated_from(ls, i, keyword, title, new) == ls.subrange(i as int, j as int) + updated_from(
            ls,
            j,
            keyword,
            title,
            new,
        ),
    decreases j - i,
{
    if i < j {
        assert(!names_entry(ls[i as int], keyword, title));
        lemma_updated_run(ls, i + 1, j, keyword, title, new);
        assert(ls.subrange(i as int, j as int) =~= seq![ls[i as int]] + ls.subrange(
            i + 1int,
            j as int,
        ));
    } else {
        assert(ls.subrange(i as int, j as int) =~= Seq::<Seq<char>>::empty());
    }
}

/// Saving an edited entry puts the new text in place of the first entry that
/// names it (its headline and the lines up to the next headline of its level
/// or above, at `e`), and keeps every line before it and every line from `e`
/// on up to the next headline naming the entry (at `j2`); when no such
/// headline follows, everything from `e` on is kept as it was.
pub proof fn law_update_keeps_what_follows(
    ls: Seq<Seq<char>>,
    keyword: Seq<char>,
    title: Seq<char>,
    new: Seq<char>,
    j: nat,
    e: nat,
    j2: nat,
)
    requires
        j < e <= j2 <= ls.len(),
        names_entry(ls[j as int], keyword, title),
        forall|m: int| 0 <= m < j ==> !names_entry(#[trigger] ls[m], keyword, title),
        forall|m: int|
            j < m < e ==> !closes(#[trigger] ls[m], heading_level_of(ls[j as int])->0),
        e == ls.len() || closes(ls[e as int], heading_level_of(ls[j as int])->0),
        forall|m: int| e <= m < j2 ==> !names_entry(#[trigger] ls[m], keyword, title),
        j2 == ls.len() || names_entry(ls[j2 as int], keyword, title),
    ensures
        updated_from(ls, 0, keyword, title, new) == ls.subrange(0, j as int) + seq![new]
            + ls.subrange(e as int, j2 as int) + updated_from(ls, j2, keyword, title, new),
        j2 == ls.len() ==> updated_from(ls, 0, keyword, title, new) == ls.subrange(0, j as int)
            + seq![new] + ls.subrange(e as int, ls.len() as int),
{
    let level = heading_level_of(ls[j as int])->0;
    lemma_updated_run(ls, 0, j, keyword, title, new);
    lemma_entry_end_is(ls, j + 1, e, level);
    lemma_updated_run(ls, e, j2, keyword, title, new);
    assert(updated_from(ls, j, keyword, title, new) == seq![new] + updated_from(
        ls,
        e,
        keyword,
        title,
        new,
    ));
    assert(updated_from(ls, 0, keyword, title, new) =~= ls.subrange(0, j as int) + seq![new]
        + ls.subrange(e as int, j2 as int) + updated_from(ls, j2, keyword, title, new));
    if j2 == ls.len() {
        assert(updated_from(ls, j2, keyword, title, new) =~= Seq::<Seq<char>>::empty());
        assert(updated_from(ls, 0, keyword, title, new) =~= ls.subrange(0, j as int) + seq![new]
            + ls.subrange(e as int, ls.len() as int));
    }
}

// ---------------------------------------------------------------------
// Deleting an entry
// ---------------------------------------------------------------------

proof fn lemma_first_named_is(ls: Seq<Seq<char>>, keyword: Seq<char>, title: Seq<char>, i: nat, j: nat)
    requires
        i <= j < ls.len(),
        names_entry(ls[j as int], keyword, title),
        forall|m: int| i <= m < j ==> !names_entry(#[trigger] ls[m], keyword, title),
    ensures
        first_entry_heading_from(ls, keyword, title, i) == Some(j),
    decreases j - i,
{
    if i < j {
        assert(!names_entry(ls[i as int], keyword, title));
        lemma_first_named_is(ls, keyword, title, i + 1, j);
    }
}

proof fn lemma_none_named(ls: Seq<Seq<char>>, keyword: Seq<char>, title: Seq<char>, i: nat)
    requires
        forall|m: int| 0 <= m < ls.len() ==> !names_entry(#[trigger] ls[m], keyword, title),
    ensures
        first_entry_heading_from(ls, keyword, title, i) is None,
    decreases ls.len() - i,
{
    if i < ls.len() {
        assert(!names_entry(ls[i as int], keyword, title));
        lemma_none_named(ls, keyword, title, i + 1);
    }
}

/// Deleting an entry removes exactly the first entry that names it: its
/// headline (at `j`) and the lines up to the next headline of its level or
/// above (at `e`); every line before `j` and from `e` on stays. A text with
/// no headline naming the entry stays as it is.
pub proof fn law_delete_removes_just_the_subtree(
    ls: Seq<Seq<char>>,
    keyword: Seq<char>,
    title: Seq<char>,
    j: nat,
    e: nat,
)
    requires
        j < e <= ls.len(),
        names_entry(ls[j as int], keyword, title),
        forall|m: int| 0 <= m < j ==> !names_entry(#[trigger] ls[m], keyword, title),
        forall|m: int|
            j < m < e ==> !closes(#[trigger] ls[m], heading_level_of(ls[j as int])->0),
        e == ls.len() || closes(ls[e as int], heading_level_of(ls[j as int])->0),
    ensures
        without_entry(ls, keyword, title) == ls.subrange(0, j as int) + ls.subrange(
            e as int,
            ls.len() as int,
        ),
{
    lemma_first_named_is(ls, keyword, title, 0, j);
    lemma_entry_end_is(ls, j + 1, e, heading_level_of(ls[j as int])->0);
}

/// A text with no headline naming the entry is not changed by deleting it.
pub proof fn law_delete_without_entry_keeps_text(ls: Seq<Seq<char>>, keyword: Seq<char>, title: Seq<char>)
    requires
        forall|m: int| 0 <= m < ls.len() ==> !names_entry(#[trigger] ls[m], keyword, title),
    ensures
        without_entry(ls, keyword, title) == ls,
{
    lemma_none_named(ls, keyword, title, 0);
}

// ---------------------------------------------------------------------
// Setting a date
// ---------------------------------------------------------------------

/// `SCHEDULED:`
pub open spec fn scheduled_word() -> Seq<char> {
    seq!['S', 'C', 'H', 'E', 'D', 'U', 'L', 'E', 'D', ':']
}

/// `DEADLINE:`
pub open spec fn deadline_word() -> Seq<char> {
    seq!['D', 'E', 'A', 'D', 'L', 'I', 'N', 'E', ':']
}

/// The line written for a date: `SCHEDULED: <date>`, `DEADLINE: <date>` or `<date>`.
pub open spec fn date_line(date: Seq<char>, t: DateInputType) -> Seq<char> {
    match t {
        DateInputType::Scheduled => scheduled_word() + seq![' ', '<'] + date + seq!['>'],
        DateInputType::Deadline => deadline_word() + seq![' ', '<'] + date + seq!['>'],
        DateInputType::Plain => seq!['<'] + date + seq!['>'],
    }
}

/// The line below a headline already holds a date of kind `t`: it contains
/// the kind's keyword anywhere, or for a plain date it is (trimmed) a bare
/// `<...>` without either keyword.
pub open spec fn holds_date_of_kind(next: Seq<char>, t: DateInputType) -> bool {
    match t {
        DateInputType::Scheduled => contains(next, scheduled_word()),
        DateInputType::Deadline => contains(next, deadline_word()),
        DateInputType::Plain => starts_with(trimmed(next), seq!['<']) && ends_with(
            trimmed(next),
            seq!['>'],
        ) && !contains(next, scheduled_word()) && !contains(next, deadline_word()),
    }
}

proof fn lemma_first_titled_at(ls: Seq<Seq<char>>, title: Seq<char>, i: nat, j: nat)
    requires
        i <= j < ls.len(),
        starts_titled(ls[j as int], title),
        forall|m: int| i <= m < j ==> !starts_titled(#[trigger] ls[m], title),
    ensures
        first_titled_from(ls, title, i) == Some(j),
    decreases j - i,
{
    if i < j {
        assert(!starts_titled(ls[i as int], title));
        lemma_first_titled_at(ls, title, i + 1, j);
    }
}

proof fn lemma_none_titled(ls: Seq<Seq<char>>, title: Seq<char>, i: nat)
    requires
        forall|m: int| 0 <= m < ls.len() ==> !starts_titled(#[trigger] ls[m], title),
    ensures
        first_titled_from(ls, title, i) is None,
    decreases ls.len() - i,
{
    if i < ls.len() {
        assert(!starts_titled(ls[i as int], title));
        lemma_none_titled(ls, title, i + 1);
    }
}

/// Setting a date puts its line right below the first line that starts with
/// `*` and holds the title (at `j`). A line there that already holds a date of
/// that kind (for `SCHEDULED`/`DEADLINE`, the keyword anywhere in the line) is
/// replaced, so exactly one such line stands there; any other line is kept
/// below the new one. Every other line stays.
pub proof fn law_date_line_replaces_its_kind(
    ls: Seq<Seq<char>>,
    title: Seq<char>,
    date: Seq<char>,
    t: DateInputType,
    j: nat,
)
    requires
        j < ls.len(),
        starts_titled(ls[j as int], title),
        forall|m: int| 0 <= m < j ==> !starts_titled(#[trigger] ls[m], title),
    ensures
        j + 1int < ls.len() && holds_date_of_kind(ls[j + 1int], t) ==> with_date(ls, title, date, t)
            == ls.subrange(0, j + 1int) + seq![date_line(date, t)] + ls.subrange(
            j + 2int,
            ls.len() as int,
        ),
        !(j + 1int < ls.len() && holds_date_of_kind(ls[j + 1int], t)) ==> with_date(ls, title, date, t)
            == ls.subrange(0, j + 1int) + seq![date_line(date, t)] + ls.subrange(
            j + 1int,
            ls.len() as int,
        ),
{
    lemma_first_titled_at(ls, title, 0, j);
    assert(crate::dates::scheduled_keyword() == scheduled_word());
    assert(crate::dates::deadline_keyword() == deadline_word());
    assert(crate::writer::planning_line(date, t) == date_line(date, t));
    if j + 1int < ls.len() {
        assert(crate::writer::replaces_line(ls[j + 1int], t) == holds_date_of_kind(ls[j + 1int], t));
    }
    assert(ls.subrange(0, j + 1int).push(date_line(date, t)) == ls.subrange(0, j + 1int) + seq![
        date_line(date, t),
    ]);
}

/// Without a line that starts with `*` and holds the title, setting a date
/// changes no line.
pub proof fn law_date_without_headline_keeps_lines(
    ls: Seq<Seq<char>>,
    title: Seq<char>,
    date: Seq<char>,
    t: DateInputType,
)
    requires
        forall|m: int| 0 <= m < ls.len() ==> !starts_titled(#[trigger] ls[m], title),
    ensures
        with_date(ls, title, date, t) == ls,
{
    lemma_none_titled(ls, title, 0);
}

// ---------------------------------------------------------------------
// Timestamps
// ---------------------------------------------------------------------

/// The clock time of a timestamp is read from its third word, however many
/// words follow it (a repeater such as `+1w`, a warning, ...): with a date
/// for the first word and three or more words, the time is that of the third.
pub proof fn law_clock_is_the_third_word(s: Seq<char>, date: Option<Date>)
    requires
        words(s).len() >= 3,
    ensures
        timestamp_with(s, date) == match date {
            Some(d) => Some((d, clock_of(words(s)[2]))),
            None => None,
        },
        org_timestamp(s) == match chrono_parse_ymd(words(s)[0]) {
            Some(d) => Some((d, clock_of(words(s)[2]))),
            None => None,
        },
{
}

/// A timestamp of one or two words holds no clock time.
pub proof fn law_short_timestamp_has_no_clock(s: Seq<char>, date: Date)
    requires
        1 <= words(s).len() <= 2,
    ensures
        timestamp_with(s, Some(date)) == Some((date, None::<(u32, u32)>)),
{
}

} // verus!
