//! Calendar dates of the proleptic Gregorian calendar, with the day
//! arithmetic, weekdays, parsing and formatting that `chrono` provides.

use vstd::prelude::*;
use crate::text::{decimal, zero_padded2};
use chrono::{Datelike, Local, NaiveDate, TimeDelta};

verus! {

/// The earliest year `chrono::NaiveDate` represents.
pub const MIN_YEAR: i32 = -262143;

/// The latest year `chrono::NaiveDate` represents.
pub const MAX_YEAR: i32 = 262142;

/// Leap years of the proleptic Gregorian calendar (year 0 is a leap year).
pub open spec fn is_leap_year(y: int) -> bool {
    y % 4 == 0 && (y % 100 != 0 || y % 400 == 0)
}

/// Number of days in month `m` of year `y`.
pub open spec fn days_in_month(y: int, m: int) -> int {
    if m == 2 {
        if is_leap_year(y) {
            29
        } else {
            28
        }
    } else if m == 4 || m == 6 || m == 9 || m == 11 {
        30
    } else {
        31
    }
}

/// Number of days in year `y`.
pub open spec fn days_in_year(y: int) -> int {
    if is_leap_year(y) {
        366
    } else {
        365
    }
}

/// A year, month and day that name an existing day in the range of `chrono::NaiveDate`.
pub open spec fn is_valid_ymd(y: int, m: int, d: int) -> bool {
    MIN_YEAR <= y <= MAX_YEAR && 1 <= m <= 12 && 1 <= d <= days_in_month(y, m)
}

/// Days of the years before year `y`, counted from January 1 of year 1.
pub open spec fn days_before_year(y: int) -> int {
    365 * (y - 1) + (y - 1) / 4 - (y - 1) / 100 + (y - 1) / 400
}

/// Days of the months of year `y` before month `m`.
pub open spec fn days_before_month(y: int, m: int) -> int {
    let base: int = if m <= 1 {
        0
    } else if m == 2 {
        31
    } else if m == 3 {
        59
    } else if m == 4 {
        90
    } else if m == 5 {
        120
    } else if m == 6 {
        151
    } else if m == 7 {
        181
    } else if m == 8 {
        212
    } else if m == 9 {
        243
    } else if m == 10 {
        273
    } else if m == 11 {
        304
    } else {
        334
    };
    if m > 2 && is_leap_year(y) {
        base + 1
    } else {
        base
    }
}

/// The day number of a date: January 1 of year 1 is day 1, the day before it day 0
/// (`Datelike::num_days_from_ce`).
pub open spec fn day_number_ymd(y: int, m: int, d: int) -> int {
    days_before_year(y) + days_before_month(y, m) + d
}

/// A calendar date.
#[derive(Clone, Copy, Debug, PartialEq, Eq, Structural)]
pub struct Date {
    pub year: i32,
    pub month: u32,
    pub day: u32,
}

impl Date {
    /// The date exists and lies in the range of `chrono::NaiveDate`.
    pub open spec fn valid(self) -> bool {
        is_valid_ymd(self.year as int, self.month as int, self.day as int)
    }

    /// The day number of the date (`Datelike::num_days_from_ce`).
    pub open spec fn day_number(self) -> int {
        day_number_ymd(self.year as int, self.month as int, self.day as int)
    }

    /// Days from Monday: Monday is 0, Sunday is 6. January 1 of year 1 is a Monday.
    pub open spec fn weekday(self) -> int {
        (self.day_number() - 1) % 7
    }

    /// Chronological order.
    pub open spec fn before_or_on(self, other: Date) -> bool {
        self.year < other.year || (self.year == other.year && (self.month < other.month || (
        self.month == other.month && self.day <= other.day)))
    }

    /// Whether `self` is on or before `other`.
    pub fn le(&self, other: &Date) -> (r: bool)
        ensures
            r == self.before_or_on(*other),
    {
        self.year < other.year || (self.year == other.year && (self.month < other.month || (
        self.month == other.month && self.day <= other.day)))
    }

    /// Whether the date exists in the calendar `chrono` covers.
    pub fn is_valid(&self) -> (r: bool)
        ensures
            r == self.valid(),
    {
        from_ymd(self.year, self.month, self.day).is_some()
    }

    /// The date and its weekday as `%Y-%m-%d %a`, such as `2026-03-16 Mon`.
    pub fn weekday_text(&self) -> (s: String)
        requires
            self.valid(),
        ensures
            s@ == chrono_date_text(*self, ymd_weekday_format()),
            0 <= self.year <= 9999 ==> s@ == iso_text(*self) + seq![' '] + weekday_abbrev(
                self.weekday(),
            ),
    {
        proof {
            reveal_strlit("%Y-%m-%d %a");
        }
        assert("%Y-%m-%d %a"@ == ymd_weekday_format());
        format_date(self, "%Y-%m-%d %a")
    }

    /// The first day of the date's month.
    pub open spec fn first_of_month(self) -> Date {
        Date { year: self.year, month: self.month, day: 1 }
    }

    /// The date as `%Y-%m-%d` text, as `NaiveDate` displays it.
    pub fn to_string(&self) -> (s: String)
        requires
            self.valid(),
        ensures
            s@ == chrono_date_text(*self, ymd_format()),
            0 <= self.year <= 9999 ==> s@ == iso_text(*self),
    {
        proof {
            reveal_strlit("%Y-%m-%d");
        }
        assert("%Y-%m-%d"@ == ymd_format());
        format_date(self, "%Y-%m-%d")
    }
}

/// The earliest date `chrono::NaiveDate` represents.
pub open spec fn min_date() -> Date {
    Date { year: MIN_YEAR, month: 1, day: 1 }
}

/// The latest date `chrono::NaiveDate` represents.
pub open spec fn max_date() -> Date {
    Date { year: MAX_YEAR, month: 12, day: 31 }
}

/// Day numbers of the dates `chrono::NaiveDate` represents.
pub open spec fn in_date_range(n: int) -> bool {
    min_date().day_number() <= n <= max_date().day_number()
}

// ---------------------------------------------------------------------
// Facts about day numbers
// ---------------------------------------------------------------------

/// Consecutive years are `days_in_year` apart.
pub proof fn lemma_days_before_next_year(y: int)
    ensures
        days_before_year(y + 1) == days_before_year(y) + days_in_year(y),
{
    let a = y - 1;
    assert(y / 4 == a / 4 + (if y % 4 == 0 {
        1int
    } else {
        0
    })) by (nonlinear_arith)
        requires
            a == y - 1,
    ;
    assert(y / 100 == a / 100 + (if y % 100 == 0 {
        1int
    } else {
        0
    })) by (nonlinear_arith)
        requires
            a == y - 1,
    ;
    assert(y / 400 == a / 400 + (if y % 400 == 0 {
        1int
    } else {
        0
    })) by (nonlinear_arith)
        requires
            a == y - 1,
    ;
}

/// Later years start on larger day numbers.
pub proof fn lemma_days_before_year_grows(y1: int, y2: int)
    requires
        y1 <= y2,
    ensures
        days_before_year(y1) + 365 * (y2 - y1) <= days_before_year(y2),
    decreases y2 - y1,
{
    if y1 < y2 {
        lemma_days_before_year_grows(y1, y2 - 1);
        lemma_days_before_next_year(y2 - 1);
    }
}

/// The last day of a month is followed by the first day of the next month.
pub proof fn lemma_month_end(y: int, m: int)
    requires
        1 <= m <= 12,
    ensures
        m < 12 ==> day_number_ymd(y, m, days_in_month(y, m)) + 1 == day_number_ymd(y, m + 1, 1),
        m == 12 ==> day_number_ymd(y, m, days_in_month(y, m)) + 1 == day_number_ymd(y + 1, 1, 1),
{
    if m == 12 {
        lemma_days_before_next_year(y);
    }
}

/// Day numbers follow the chronological order of valid dates.
pub proof fn lemma_day_number_order(a: Date, b: Date)
    requires
        a.valid(),
        b.valid(),
    ensures
        a.before_or_on(b) <==> a.day_number() <= b.day_number(),
        a == b <==> a.day_number() == b.day_number(),
{
    if a.year < b.year {
        lemma_days_before_year_grows(a.year + 1, b.year as int);
        lemma_days_before_next_year(a.year as int);
    } else if b.year < a.year {
        lemma_days_before_year_grows(b.year + 1, a.year as int);
        lemma_days_before_next_year(b.year as int);
    }
}

/// The dates in `chrono`'s range have day numbers in `in_date_range`.
pub proof fn lemma_valid_in_range(d: Date)
    requires
        d.valid(),
    ensures
        in_date_range(d.day_number()),
{
    lemma_day_number_order(min_date(), d);
    lemma_day_number_order(d, max_date());
}

// ---------------------------------------------------------------------
// Text of dates
// ---------------------------------------------------------------------

/// The format string `%Y-%m-%d`.
pub open spec fn ymd_format() -> Seq<char> {
    seq!['%', 'Y', '-', '%', 'm', '-', '%', 'd']
}

/// The format string `%a`.
pub open spec fn weekday_format() -> Seq<char> {
    seq!['%', 'a']
}

/// The format strings this library hands to `NaiveDate::format`: `%Y-%m-%d`,
/// `%a`, `%B %Y`, `%Y-%m-%d %a` and `%A, %d %b, %Y`.
pub open spec fn is_date_format(f: Seq<char>) -> bool {
    f == ymd_format() || f == weekday_format() || f == month_year_format() || f
        == ymd_weekday_format() || f == long_day_format()
}

/// `n` as decimal digits zero-padded to four places.
pub open spec fn zero_padded4(n: nat) -> Seq<char> {
    if n < 10 {
        seq!['0', '0', '0'] + decimal(n)
    } else if n < 100 {
        seq!['0', '0'] + decimal(n)
    } else if n < 1000 {
        seq!['0'] + decimal(n)
    } else {
        decimal(n)
    }
}

/// `YYYY-MM-DD` for a date whose year lies in 0..=9999.
pub open spec fn iso_text(d: Date) -> Seq<char> {
    zero_padded4(d.year as nat) + seq!['-'] + zero_padded2(d.month as nat) + seq!['-']
        + zero_padded2(d.day as nat)
}

/// The three-letter English name of a weekday counted from Monday.
pub open spec fn weekday_abbrev(w: int) -> Seq<char> {
    if w == 0 {
        seq!['M', 'o', 'n']
    } else if w == 1 {
        seq!['T', 'u', 'e']
    } else if w == 2 {
        seq!['W', 'e', 'd']
    } else if w == 3 {
        seq!['T', 'h', 'u']
    } else if w == 4 {
        seq!['F', 'r', 'i']
    } else if w == 5 {
        seq!['S', 'a', 't']
    } else {
        seq!['S', 'u', 'n']
    }
}

/// The English name of a month (1 is January).
pub open spec fn month_name(m: int) -> Seq<char> {
    if m == 1 {
        "January"@
    } else if m == 2 {
        "February"@
    } else if m == 3 {
        "March"@
    } else if m == 4 {
        "April"@
    } else if m == 5 {
        "May"@
    } else if m == 6 {
        "June"@
    } else if m == 7 {
        "July"@
    } else if m == 8 {
        "August"@
    } else if m == 9 {
        "September"@
    } else if m == 10 {
        "October"@
    } else if m == 11 {
        "November"@
    } else {
        "December"@
    }
}

/// The first three letters of a month's English name.
pub open spec fn month_abbrev(m: int) -> Seq<char> {
    month_name(m).subrange(0, 3)
}

/// The English name of a weekday counted from Monday.
pub open spec fn weekday_name(w: int) -> Seq<char> {
    if w == 0 {
        "Monday"@
    } else if w == 1 {
        "Tuesday"@
    } else if w == 2 {
        "Wednesday"@
    } else if w == 3 {
        "Thursday"@
    } else if w == 4 {
        "Friday"@
    } else if w == 5 {
        "Saturday"@
    } else {
        "Sunday"@
    }
}

/// `%B %Y`: the month's name and the year.
pub open spec fn month_year_format() -> Seq<char> {
    seq!['%', 'B', ' ', '%', 'Y']
}

/// `%Y-%m-%d %a`: the date and the three-letter weekday.
pub open spec fn ymd_weekday_format() -> Seq<char> {
    seq!['%', 'Y', '-', '%', 'm', '-', '%', 'd', ' ', '%', 'a']
}

/// `%A, %d %b, %Y`: the weekday's name, the day, the month's first letters and the year.
pub open spec fn long_day_format() -> Seq<char> {
    seq!['%', 'A', ',', ' ', '%', 'd', ' ', '%', 'b', ',', ' ', '%', 'Y']
}

/// What `NaiveDate::format(fmt).to_string()` gives for a date.
pub uninterp spec fn chrono_date_text(d: Date, fmt: Seq<char>) -> Seq<char>;

/// What `NaiveDate::parse_from_str(s, "%Y-%m-%d")` gives for a text.
pub uninterp spec fn chrono_parse_ymd(s: Seq<char>) -> Option<Date>;

// ---------------------------------------------------------------------
// Calls into chrono
// ---------------------------------------------------------------------

/// `NaiveDate::from_ymd_opt`: the date with the given year, month and day,
/// when it exists in the calendar and in `chrono`'s range.
#[verifier::external_body]
pub(crate) fn from_ymd(year: i32, month: u32, day: u32) -> (r: Option<Date>)
    ensures
        r == (if is_valid_ymd(year as int, month as int, day as int) {
            Some(Date { year, month, day })
        } else {
            None
        }),
{
    NaiveDate::from_ymd_opt(year, month, day).map(
        |nd| Date { year: nd.year(), month: nd.month(), day: nd.day() },
    )
}

/// `NaiveDate::checked_add_signed` with `TimeDelta::days(n)`: the date `n`
/// days later, or `None` when it falls outside `chrono`'s range.
/// (`TimeDelta::days` panics beyond 106751991167 days either way.)
#[verifier::external_body]
pub(crate) fn checked_add_days(d: &Date, n: i64) -> (r: Option<Date>)
    requires
        d.valid(),
        -106751991167 <= n <= 106751991167,
    ensures
        r matches Some(x) ==> x.valid() && x.day_number() == d.day_number() + n,
        r is None <==> !in_date_range(d.day_number() + n),
{
    let nd = NaiveDate::from_ymd_opt(d.year, d.month, d.day).unwrap();
    nd.checked_add_signed(TimeDelta::days(n)).map(
        |x| Date { year: x.year(), month: x.month(), day: x.day() },
    )
}

/// `NaiveDate - TimeDelta` with `TimeDelta::days(n)`: the date `n` days earlier
/// (the operator panics outside `chrono`'s range).
#[verifier::external_body]
pub(crate) fn minus_days(d: &Date, n: i64) -> (r: Date)
    requires
        d.valid(),
        -106751991167 <= n <= 106751991167,
        in_date_range(d.day_number() - n),
    ensures
        r.valid(),
        r.day_number() == d.day_number() - n,
{
    let nd = NaiveDate::from_ymd_opt(d.year, d.month, d.day).unwrap();
    let x = nd - TimeDelta::days(n);
    Date { year: x.year(), month: x.month(), day: x.day() }
}

/// `NaiveDate + TimeDelta` with `TimeDelta::days(n)`: the date `n` days later
/// (the operator panics outside `chrono`'s range).
#[verifier::external_body]
pub(crate) fn plus_days(d: &Date, n: i64) -> (r: Date)
    requires
        d.valid(),
        -106751991167 <= n <= 106751991167,
        in_date_range(d.day_number() + n),
    ensures
        r.valid(),
        r.day_number() == d.day_number() + n,
{
    let nd = NaiveDate::from_ymd_opt(d.year, d.month, d.day).unwrap();
    let x = nd + TimeDelta::days(n);
    Date { year: x.year(), month: x.month(), day: x.day() }
}

/// `(a - b).num_days()` for `NaiveDate`s: the signed number of days from `b` to `a`.
#[verifier::external_body]
pub(crate) fn days_between(a: &Date, b: &Date) -> (r: i64)
    requires
        a.valid(),
        b.valid(),
    ensures
        r == a.day_number() - b.day_number(),
{
    let na = NaiveDate::from_ymd_opt(a.year, a.month, a.day).unwrap();
    let nb = NaiveDate::from_ymd_opt(b.year, b.month, b.day).unwrap();
    (na - nb).num_days()
}

/// `NaiveDate::pred_opt`: the day before, or `None` for the earliest date.
#[verifier::external_body]
pub(crate) fn pred(d: &Date) -> (r: Option<Date>)
    requires
        d.valid(),
    ensures
        r matches Some(x) ==> x.valid() && x.day_number() == d.day_number() - 1,
        r is None <==> *d == min_date(),
{
    let nd = NaiveDate::from_ymd_opt(d.year, d.month, d.day).unwrap();
    nd.pred_opt().map(|x| Date { year: x.year(), month: x.month(), day: x.day() })
}

/// `Weekday::num_days_from_monday` of `Datelike::weekday`: Monday is 0.
#[verifier::external_body]
pub(crate) fn weekday_from_monday(d: &Date) -> (r: u32)
    requires
        d.valid(),
    ensures
        r == d.weekday(),
{
    NaiveDate::from_ymd_opt(d.year, d.month, d.day).unwrap().weekday().num_days_from_monday()
}

/// `Weekday::num_days_from_sunday` of `Datelike::weekday`: Sunday is 0.
#[verifier::external_body]
pub(crate) fn weekday_from_sunday(d: &Date) -> (r: u32)
    requires
        d.valid(),
    ensures
        r == d.day_number() % 7,
{
    NaiveDate::from_ymd_opt(d.year, d.month, d.day).unwrap().weekday().num_days_from_sunday()
}

/// `NaiveDate::parse_from_str(s, "%Y-%m-%d")`. The result is a valid date, and
/// a zero-padded `YYYY-MM-DD` text of a date in years 0..=9999 reads back as that date.
#[verifier::external_body]
pub(crate) fn parse_ymd(s: &str) -> (r: Option<Date>)
    ensures
        r == chrono_parse_ymd(s@),
        r matches Some(x) ==> x.valid(),
        forall|x: Date| #![trigger iso_text(x)]
            x.valid() && 0 <= x.year <= 9999 && s@ == iso_text(x) ==> r == Some(x),
{
    NaiveDate::parse_from_str(s, "%Y-%m-%d").ok().map(
        |x| Date { year: x.year(), month: x.month(), day: x.day() },
    )
}

/// `NaiveDate::format(fmt).to_string()` in the default (English) locale.
/// `%a` is the three-letter weekday; for years 0..=9999, `%Y` is the year
/// zero-padded to four digits, `%m` and `%d` are zero-padded to two, `%B` is
/// the month's name, `%b` its first three letters and `%A` the weekday's name.
/// The texts of other years (written with a sign) are not stated.
#[verifier::external_body]
pub(crate) fn format_date(d: &Date, fmt: &str) -> (r: String)
    requires
        d.valid(),
        is_date_format(fmt@),
    ensures
        r@ == chrono_date_text(*d, fmt@),
        fmt@ == ymd_format() && 0 <= d.year <= 9999 ==> r@ == iso_text(*d),
        fmt@ == weekday_format() ==> r@ == weekday_abbrev(d.weekday()),
        fmt@ == month_year_format() && 0 <= d.year <= 9999 ==> r@ == month_name(d.month as int)
            + seq![' '] + zero_padded4(d.year as nat),
        fmt@ == ymd_weekday_format() && 0 <= d.year <= 9999 ==> r@ == iso_text(*d) + seq![' ']
            + weekday_abbrev(d.weekday()),
        fmt@ == long_day_format() && 0 <= d.year <= 9999 ==> r@ == weekday_name(d.weekday())
            + seq![',', ' '] + zero_padded2(d.day as nat) + seq![' '] + month_abbrev(
            d.month as int,
        ) + seq![',', ' '] + zero_padded4(d.year as nat),
{
    NaiveDate::from_ymd_opt(d.year, d.month, d.day).unwrap().format(fmt).to_string()
}

/// `Local::now().date_naive()`: today's date in the local time zone. Nothing is
/// stated of which day it is.
#[verifier::external_body]
pub(crate) fn today() -> (r: Date)
    ensures
        r.valid(),
{
    let x = Local::now().date_naive();
    Date { year: x.year(), month: x.month(), day: x.day() }
}

} // verus!
