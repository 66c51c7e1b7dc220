//! The date picker: a selected day, the month on display, a clock time, and
//! the month calendar it draws.

use vstd::prelude::*;
use crate::calendar::{
    checked_add_days, days_in_month, format_date, from_ymd, is_valid_ymd, lemma_day_number_order,
    lemma_month_end, pred, today, weekday_from_sunday, chrono_date_text, ymd_format,
    weekday_format, Date, MAX_YEAR, iso_text, weekday_abbrev, month_name, month_year_format,
    ymd_weekday_format, zero_padded4,
};
use crate::dates::{existing_date, existing_time, parse_existing_date, parse_existing_time};
use crate::text::{concat, push_char, push_space_padded2, push_str, push_zero_padded2, space_padded2, string_views, zero_padded2};
use crate::types::DateInputType;

verus! {

/// The state of the date picker.
#[derive(Clone, Copy, Debug)]
pub struct DatePicker {
    /// The day chosen.
    pub selected_date: Date,
    /// The first day of the month on display.
    pub viewing_month: Date,
    pub hour: u32,
    pub minute: u32,
    /// Whether the arrow keys change the time rather than the day.
    pub editing_time: bool,
}

impl DatePicker {
    /// The selected day is a valid date and the month on display is its month.
    pub open spec fn wf(self) -> bool {
        self.selected_date.valid() && self.viewing_month == self.selected_date.first_of_month()
    }

    /// Whether the selected day is a valid date and the month on display is its month.
    pub fn is_well_formed(&self) -> (r: bool)
        ensures
            r == self.wf(),
    {
        self.selected_date.is_valid() && self.viewing_month.year == self.selected_date.year
            && self.viewing_month.month == self.selected_date.month && self.viewing_month.day == 1
    }

    /// The picker for a date of the given kind in an entry: the entry's date of
    /// that kind (or `today`), its month, and the entry's clock time of that kind.
    pub fn open_on(content: &str, input_type: &DateInputType, today: &Date) -> (r: DatePicker)
        requires
            today.valid(),
        ensures
            r.wf(),
            r.selected_date == match existing_date(content@, *input_type) {
                Some(d) => d,
                None => *today,
            },
            (r.hour, r.minute) == existing_time(content@, *input_type),
            !r.editing_time,
    {
        let initial = match parse_existing_date(content, input_type) {
            Some(d) => d,
            None => *today,
        };
        let viewing = from_ymd(initial.year, initial.month, 1).unwrap();
        let (hour, minute) = parse_existing_time(content, input_type);
        DatePicker { selected_date: initial, viewing_month: viewing, hour, minute, editing_time: false }
    }

    /// The picker for a date of the given kind in an entry, starting from the
    /// entry's date of that kind or else the current day.
    pub fn open(content: &str, input_type: &DateInputType) -> (r: DatePicker)
        ensures
            r.wf(),
            existing_date(content@, *input_type) matches Some(d) ==> r.selected_date == d,
            (r.hour, r.minute) == existing_time(content@, *input_type),
            !r.editing_time,
    {
        let now = today();
        DatePicker::open_on(content, input_type, &now)
    }

    /// Moves the selected day by `days` (when not editing the time), keeping
    /// the month on display that of the selected day; nothing moves past
    /// `chrono`'s range.
    pub fn calendar_move_day(&mut self, days: i64)
        requires
            old(self).wf(),
            -106751991167 <= days <= 106751991167,
        ensures
            final(self).wf(),
            final(self).hour == old(self).hour,
            final(self).minute == old(self).minute,
            final(self).editing_time == old(self).editing_time,
            old(self).editing_time ==> final(self).selected_date == old(self).selected_date,
            !old(self).editing_time ==> if crate::calendar::in_date_range(
                old(self).selected_date.day_number() + days,
            ) {
                final(self).selected_date.day_number() == old(self).selected_date.day_number()
                    + days
            } else {
                final(self).selected_date == old(self).selected_date
            },
    {
        if !self.editing_time {
            if let Some(new_date) = checked_add_days(&self.selected_date, days) {
                self.selected_date = new_date;
                if new_date.year != self.viewing_month.year || new_date.month
                    != self.viewing_month.month {
                    self.viewing_month = from_ymd(new_date.year, new_date.month, 1).unwrap();
                }
            }
        }
    }

    /// Adds hours and minutes to the clock time (when editing the time),
    /// wrapping hours at 24 and minutes at 60.
    pub fn adjust_time(&mut self, hours_delta: i32, minutes_delta: i32)
        requires
            old(self).editing_time ==> i32::MIN <= (old(self).hour as i32) + hours_delta
                <= i32::MAX,
            old(self).editing_time ==> i32::MIN <= (old(self).minute as i32) + minutes_delta
                <= i32::MAX,
        ensures
            final(self).selected_date == old(self).selected_date,
            final(self).viewing_month == old(self).viewing_month,
            final(self).editing_time == old(self).editing_time,
            old(self).editing_time ==> final(self).hour == wrapped(old(self).hour, hours_delta, 24)
                && final(self).minute == wrapped(old(self).minute, minutes_delta, 60),
            !old(self).editing_time ==> final(self).hour == old(self).hour && final(self).minute
                == old(self).minute,
    {
        if self.editing_time {
            let h = self.hour as i32 + hours_delta;
            let m = self.minute as i32 + minutes_delta;
            let nh = h.checked_rem_euclid(24).unwrap();
            let nm = m.checked_rem_euclid(60).unwrap();
            self.hour = nh as u32;
            self.minute = nm as u32;
        }
    }

    /// Switches the arrow keys between the day and the time.
    pub fn toggle_time_edit(&mut self)
        ensures
            final(self).editing_time == !old(self).editing_time,
            final(self).selected_date == old(self).selected_date,
            final(self).viewing_month == old(self).viewing_month,
            final(self).hour == old(self).hour,
            final(self).minute == old(self).minute,
    {
        self.editing_time = !self.editing_time;
    }

    /// Shows the month `months` away; the selected day becomes that month's
    /// first day unless it already lies in it. A month outside the calendar or
    /// `chrono`'s range leaves the picker as it is.
    pub fn calendar_change_month(&mut self, months: i32)
        requires
            old(self).viewing_month.valid(),
            old(self).selected_date.valid(),
            i32::MIN <= old(self).viewing_month.month + months <= i32::MAX,
        ensures
            old(self).wf() ==> final(self).wf(),
            final(self).hour == old(self).hour,
            final(self).minute == old(self).minute,
            final(self).editing_time == old(self).editing_time,
            ({
                let (y, m) = shifted_month(old(self).viewing_month.year, old(self).viewing_month.month, months);
                if is_valid_ymd(y as int, m as int, 1) {
                    &&& final(self).viewing_month == Date { year: y, month: m, day: 1 }
                    &&& final(self).selected_date == if old(self).selected_date.year == y
                        && old(self).selected_date.month == m {
                        old(self).selected_date
                    } else {
                        Date { year: y, month: m, day: 1 }
                    }
                } else {
                    final(self).viewing_month == old(self).viewing_month
                        && final(self).selected_date == old(self).selected_date
                }
            }),
    {
        let new_year = self.viewing_month.year;
        let new_month = self.viewing_month.month as i32 + months;
        let (final_year, final_month): (i32, u32) = if new_month <= 0 {
            (new_year - 1, (12 + new_month) as u32)
        } else if new_month > 12 {
            (new_year + 1, (new_month - 12) as u32)
        } else {
            (new_year, new_month as u32)
        };
        if let Some(new_viewing) = from_ymd(final_year, final_month, 1) {
            self.viewing_month = new_viewing;
            if self.selected_date.year != final_year || self.selected_date.month != final_month {
                self.selected_date = new_viewing;
            }
        }
    }

    /// The timestamp text written for the picker's day and time:
    /// `%Y-%m-%d %a HH:MM`.
    pub fn timestamp_text(&self) -> (r: String)
        requires
            self.selected_date.valid(),
        ensures
            r@ == timestamp_text_of(self.selected_date, self.hour, self.minute),
            0 <= self.selected_date.year <= 9999 ==> r@ == iso_text(self.selected_date) + seq![' ']
                + weekday_abbrev(self.selected_date.weekday()) + seq![' '] + zero_padded2(
                self.hour as nat,
            ) + seq![':'] + zero_padded2(self.minute as nat),
    {
        proof {
            reveal_strlit("%Y-%m-%d");
            reveal_strlit("%a");
        }
        assert("%Y-%m-%d"@ == ymd_format());
        assert("%a"@ == weekday_format());
        let mut s = format_date(&self.selected_date, "%Y-%m-%d");
        push_char(&mut s, ' ');
        let wd = format_date(&self.selected_date, "%a");
        push_str(&mut s, wd.as_str());
        push_char(&mut s, ' ');
        push_zero_padded2(&mut s, self.hour);
        push_char(&mut s, ':');
        push_zero_padded2(&mut s, self.minute);
        s
    }
}

/// `v` (read as an `i32`) plus `delta`, wrapped into `0..modulus`.
pub open spec fn wrapped(v: u32, delta: i32, modulus: int) -> int {
    ((v as i32) + delta) % modulus
}

/// The year and month `months` away from year `y`, month `m`, computed as the
/// picker does: one step across a year boundary at most.
pub open spec fn shifted_month(y: i32, m: u32, months: i32) -> (i32, u32) {
    let nm = m as int + months;
    if nm <= 0 {
        ((y - 1) as i32, (12 + nm) as u32)
    } else if nm > 12 {
        ((y + 1) as i32, (nm - 12) as u32)
    } else {
        (y, nm as u32)
    }
}

/// The timestamp text for a day and a clock time: `%Y-%m-%d %a HH:MM`.
pub open spec fn timestamp_text_of(d: Date, hour: u32, minute: u32) -> Seq<char> {
    chrono_date_text(d, ymd_format()) + seq![' '] + chrono_date_text(d, weekday_format()) + seq![' ']
        + zero_padded2(hour as nat) + seq![':'] + zero_padded2(minute as nat)
}

// ---------------------------------------------------------------------
// The month calendar
// ---------------------------------------------------------------------

/// The cell of one day: `[dd]` when selected, ` dd*` when it is today, ` dd ` otherwise.
pub open spec fn day_cell(day: Date, selected: Date, today: Date) -> Seq<char> {
    if day == selected {
        seq!['['] + space_padded2(day.day as nat) + seq![']']
    } else if day == today {
        seq![' '] + space_padded2(day.day as nat) + seq!['*']
    } else {
        seq![' '] + space_padded2(day.day as nat) + seq![' ']
    }
}

/// Four spaces: a cell before the first day of the month.
pub open spec fn blank_cell() -> Seq<char> {
    seq![' ', ' ', ' ', ' ']
}

/// The cells of a month: `lead` blanks, then one cell per day.
pub open spec fn month_cells(year: i32, month: u32, lead: nat, last: nat, selected: Date, today: Date) -> Seq<
    Seq<char>,
> {
    Seq::new(
        lead + last,
        |i: int|
            if i < lead {
                blank_cell()
            } else {
                day_cell(Date { year, month, day: (i - lead + 1) as u32 }, selected, today)
            },
    )
}

/// The cells in rows of seven (the last row may be shorter).
pub open spec fn week_rows(cells: Seq<Seq<char>>) -> Seq<Seq<char>> {
    Seq::new(
        ((cells.len() + 6) / 7) as nat,
        |k: int|
            concat(
                cells.subrange(
                    7 * k,
                    if 7 * k + 7 <= cells.len() {
                        7 * k + 7
                    } else {
                        cells.len() as int
                    },
                ),
            ),
    )
}

/// The lines of the calendar of the month of `viewing_month`, with `selected`
/// and `today` marked: the month name and year, a blank line, the weekday
/// header from Sunday, a rule, the weeks, a blank line and the selected day.
pub open spec fn calendar_text(viewing_month: Date, selected: Date, today: Date) -> Seq<Seq<char>> {
    let first = viewing_month.first_of_month();
    let cells = month_cells(
        viewing_month.year,
        viewing_month.month,
        (first.day_number() % 7) as nat,
        days_in_month(viewing_month.year as int, viewing_month.month as int) as nat,
        selected,
        today,
    );
    seq![
        chrono_date_text(viewing_month, month_year_format()),
        Seq::empty(),
        "Su  Mo  Tu  We  Th  Fr  Sa"@,
        Seq::new(27, |i: int| '\u{2500}'),
    ] + week_rows(cells) + seq![
        Seq::empty(),
        "Selected: "@ + chrono_date_text(selected, ymd_weekday_format()),
    ]
}

/// The number of days of the month of `d`, read as the day of the day before
/// the next month's first day.
fn last_day_of_month(d: &Date) -> (r: u32)
    requires
        d.valid(),
        d.year < MAX_YEAR || d.month < 12,
    ensures
        r == days_in_month(d.year as int, d.month as int),
{
    let next = if d.month == 12 {
        from_ymd(d.year + 1, 1, 1).unwrap()
    } else {
        from_ymd(d.year, d.month + 1, 1).unwrap()
    };
    let last = pred(&next).unwrap();
    proof {
        lemma_month_end(d.year as int, d.month as int);
        let end = Date { year: d.year, month: d.month, day: days_in_month(d.year as int, d.month as int) as u32 };
        lemma_day_number_order(last, end);
    }
    last.day
}

/// One day's cell.
fn push_day_cell(line: &mut String, day: &Date, selected: &Date, today: &Date)
    ensures
        final(line)@ == old(line)@ + day_cell(*day, *selected, *today),
{
    if *day == *selected {
        push_char(line, '[');
        push_space_padded2(line, day.day);
        push_char(line, ']');
    } else if *day == *today {
        push_char(line, ' ');
        push_space_padded2(line, day.day);
        push_char(line, '*');
    } else {
        push_char(line, ' ');
        push_space_padded2(line, day.day);
        push_char(line, ' ');
    }
}

proof fn lemma_concat_push(parts: Seq<Seq<char>>, x: Seq<char>)
    ensures
        concat(parts.push(x)) == concat(parts) + x,
{
    assert(parts.push(x).drop_last() == parts);
}

/// The lines of the month calendar of `viewing_month` with `selected` and
/// `today` marked.
pub fn calendar_text_on(viewing_month: &Date, selected_date: &Date, today: &Date) -> (r: Vec<String>)
    requires
        viewing_month.valid(),
        selected_date.valid(),
        viewing_month.year < MAX_YEAR || viewing_month.month < 12,
    ensures
        string_views(r@) == calendar_text(*viewing_month, *selected_date, *today),
        0 <= viewing_month.year <= 9999 ==> string_views(r@)[0] == month_name(
            viewing_month.month as int,
        ) + seq![' '] + zero_padded4(viewing_month.year as nat),
        0 <= selected_date.year <= 9999 ==> string_views(r@).last() == "Selected: "@ + iso_text(
            *selected_date,
        ) + seq![' '] + weekday_abbrev(selected_date.weekday()),
{
    let ghost expected = calendar_text(*viewing_month, *selected_date, *today);
    let mut lines: Vec<String> = Vec::new();
    proof {
        reveal_strlit("%B %Y");
        reveal_strlit("%Y-%m-%d %a");
        reveal_strlit("");
    }
    assert("%B %Y"@ == seq!['%', 'B', ' ', '%', 'Y']);
    assert("%Y-%m-%d %a"@ == seq!['%', 'Y', '-', '%', 'm', '-', '%', 'd', ' ', '%', 'a']);
    lines.push(format_date(viewing_month, "%B %Y"));
    lines.push(String::new());
    let mut header = String::new();
    push_str(&mut header, "Su  Mo  Tu  We  Th  Fr  Sa");
    lines.push(header);
    let mut rule = String::new();
    let mut k: usize = 0;
    while k < 27
        invariant
            k <= 27,
            rule@ == Seq::new(k as nat, |i: int| '\u{2500}'),
        decreases 27 - k,
    {
        push_char(&mut rule, '\u{2500}');
        k = k + 1;
        assert(rule@ =~= Seq::new(k as nat, |i: int| '\u{2500}'));
    }
    lines.push(rule);
    assert(string_views(lines@) =~= expected.subrange(0, 4));
    let first_day = from_ymd(viewing_month.year, viewing_month.month, 1).unwrap();
    let lead = weekday_from_sunday(&first_day);
    let last = last_day_of_month(viewing_month);
    let ghost cells = month_cells(
        viewing_month.year,
        viewing_month.month,
        lead as nat,
        last as nat,
        *selected_date,
        *today,
    );
    let ghost rows = week_rows(cells);
    let ghost head = string_views(lines@);
    let mut week_line = String::new();
    let mut b: u32 = 0;
    while b < lead
        invariant
            b <= lead < 7,
            last <= 31,
            cells == month_cells(viewing_month.year, viewing_month.month, lead as nat, last as nat, *selected_date, *today),
            lines@.len() == 4,
            string_views(lines@) == head,
            week_line@ == concat(cells.subrange(0, b as int)),
        decreases lead - b,
    {
        push_str(&mut week_line, "    ");
        proof {
            reveal_strlit("    ");
            lemma_concat_push(cells.subrange(0, b as int), blank_cell());
            assert(cells.subrange(0, b + 1 as int) == cells.subrange(0, b as int).push(blank_cell()));
        }
        b = b + 1;
    }
    let mut day: u32 = 1;
    while day <= last
        invariant
            1 <= day <= last + 1,
            last <= 31,
            lead < 7,
            cells == month_cells(viewing_month.year, viewing_month.month, lead as nat, last as nat, *selected_date, *today),
            rows == week_rows(cells),
            string_views(lines@) == head + rows.subrange(0, ((lead + day - 1) / 7) as int),
            week_line@ == concat(cells.subrange(7 * ((lead + day - 1) / 7), (lead + day - 1) as int)),
        decreases last + 1 - day,
    {
        let current = Date { year: viewing_month.year, month: viewing_month.month, day };
        let idx: u32 = lead + day - 1;
        proof {
            lemma_concat_push(cells.subrange(7 * (idx / 7) as int, idx as int), cells[idx as int]);
            assert(cells.subrange(7 * (idx / 7) as int, idx + 1 as int) == cells.subrange(
                7 * (idx / 7) as int,
                idx as int,
            ).push(cells[idx as int]));
        }
        push_day_cell(&mut week_line, &current, selected_date, today);
        if idx % 7 == 6 {
            let ghost before = string_views(lines@);
            let ghost row = week_line@;
            assert(rows[(idx / 7) as int] == row);
            lines.push(week_line);
            assert(string_views(lines@) == before.push(row));
            assert(string_views(lines@) =~= head + rows.subrange(0, (idx / 7) + 1 as int));
            week_line = String::new();
            assert(cells.subrange(7 * ((idx + 1) / 7) as int, idx + 1 as int) =~= Seq::<Seq<char>>::empty());
        }
        day = day + 1;
    }
    let ghost n = (lead + last) as int;
    if (lead + last) % 7 != 0 {
        let ghost before = string_views(lines@);
        let ghost row = week_line@;
        assert(rows[n / 7] == row);
        lines.push(week_line);
        assert(string_views(lines@) == before.push(row));
        assert(string_views(lines@) =~= head + rows);
    } else {
        assert(rows.subrange(0, n / 7) =~= rows);
    }
    lines.push(String::new());
    let mut sel = String::new();
    push_str(&mut sel, "Selected: ");
    let text = format_date(selected_date, "%Y-%m-%d %a");
    push_str(&mut sel, text.as_str());
    let ghost before = string_views(lines@);
    assert(before =~= head + rows + seq![Seq::<char>::empty()]);
    assert(sel@ == expected.last());
    lines.push(sel);
    assert(string_views(lines@) == before.push(sel@));
    assert(string_views(lines@) =~= expected);
    lines
}

/// The lines of the month calendar of `viewing_month` with `selected_date`
/// and the current day marked.
pub fn render_calendar(viewing_month: &Date, selected_date: &Date) -> (r: Vec<String>)
    requires
        viewing_month.valid(),
        selected_date.valid(),
        viewing_month.year < MAX_YEAR || viewing_month.month < 12,
    ensures
        exists|d: Date| d.valid() && string_views(r@) == calendar_text(*viewing_month, *selected_date, d),
{
    let now = today();
    calendar_text_on(viewing_month, selected_date, &now)
}

} // verus!
