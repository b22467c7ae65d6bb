//! Calendar dates (proleptic Gregorian), with `chrono` doing the calendar work.
use vstd::prelude::*;

use crate::text::{int_str, zero_pad, nat_str};

verus! {

pub open spec fn min_year() -> int {
    -262143
}

pub open spec fn max_year() -> int {
    262142
}

pub open spec fn is_leap(y: int) -> bool {
    (y % 4 == 0 && y % 100 != 0) || y % 400 == 0
}

pub open spec fn days_in_month(y: int, m: int) -> int {
    if m == 2 {
        if is_leap(y) {
            29
        } else {
            28
        }
    } else if m == 4 || m == 6 || m == 9 || m == 11 {
        30
    } else {
        31
    }
}

/// A date `chrono::NaiveDate` can hold.
pub open spec fn date_valid(y: int, m: int, d: int) -> bool {
    min_year() <= y <= max_year() && 1 <= m <= 12 && 1 <= d <= days_in_month(y, m)
}

pub open spec fn days_before_month(y: int, m: int) -> int
    decreases m,
{
    if m <= 1 {
        0
    } else {
        days_before_month(y, m - 1) + days_in_month(y, m - 1)
    }
}

/// Day number of a date; differences of day numbers count calendar days.
pub open spec fn day_number(y: int, m: int, d: int) -> int {
    365 * (y - 1) + (y - 1) / 4 - (y - 1) / 100 + (y - 1) / 400 + days_before_month(y, m) + d
}

/// The calendar text `chrono` writes with `%Y-%m-%d` (and `Display`): a
/// four-digit year in 0..=9999, otherwise a signed year of at least four digits.
pub open spec fn date_str(y: int, m: int, d: int) -> Seq<char> {
    let year = if 0 <= y <= 9999 {
        zero_pad(nat_str(y as nat), 4)
    } else if y < 0 {
        seq!['-'] + zero_pad(nat_str((-y) as nat), 4)
    } else {
        seq!['+'] + zero_pad(nat_str(y as nat), 4)
    };
    year + seq!['-'] + zero_pad(nat_str(m as nat), 2) + seq!['-'] + zero_pad(nat_str(d as nat), 2)
}

/// What `NaiveDate::parse_from_str(s, fmt)` returns, as (year, month, day).
pub uninterp spec fn chrono_parse(s: Seq<char>, fmt: Seq<char>) -> Option<(int, int, int)>;

#[verifier::external_body]
/// `NaiveDate::from_ymd_opt(..).is_some()`: whether the date exists in the
/// calendar `chrono` supports.
fn chrono_ymd_exists(year: i32, month: u32, day: u32) -> (r: bool)
    ensures
        r == date_valid(year as int, month as int, day as int),
{
    chrono::NaiveDate::from_ymd_opt(year, month, day).is_some()
}

#[verifier::external_body]
/// `NaiveDate::parse_from_str`, named `chrono_parse`, taken apart into year,
/// month and day; a date it returns is one `NaiveDate` can hold.
fn chrono_parse_ymd(s: &str, fmt: &str) -> (r: Option<(i32, u32, u32)>)
    ensures
        match r {
            Some((y, m, d)) => chrono_parse(s@, fmt@) == Some((y as int, m as int, d as int))
                && date_valid(y as int, m as int, d as int),
            None => chrono_parse(s@, fmt@) is None,
        },
{
    match chrono::NaiveDate::parse_from_str(s, fmt) {
        Ok(d) => Some((chrono::Datelike::year(&d), chrono::Datelike::month(&d), chrono::Datelike::day(&d))),
        Err(_) => None,
    }
}

/// A calendar date.
#[derive(Clone, Copy, PartialEq, Eq, Structural, Debug)]
pub struct Date {
    year: i32,
    month: u32,
    day: u32,
}

impl Date {
    #[verifier::type_invariant]
    spec fn inv(self) -> bool {
        date_valid(self.year as int, self.month as int, self.day as int)
    }

    pub closed spec fn y(self) -> int {
        self.year as int
    }

    pub closed spec fn m(self) -> int {
        self.month as int
    }

    pub closed spec fn d(self) -> int {
        self.day as int
    }

    pub open spec fn days(self) -> int {
        day_number(self.y(), self.m(), self.d())
    }

    pub open spec fn text(self) -> Seq<char> {
        date_str(self.y(), self.m(), self.d())
    }

    /// Chronological `<`.
    pub open spec fn before(self, other: Date) -> bool {
        self.y() < other.y() || (self.y() == other.y() && (self.m() < other.m() || (self.m()
            == other.m() && self.d() < other.d())))
    }

    /// The date `year-month-day`, when it exists in the calendar `chrono` supports.
    pub fn from_ymd_opt(year: i32, month: u32, day: u32) -> (r: Option<Date>)
        ensures
            r is Some <==> date_valid(year as int, month as int, day as int),
            r matches Some(d) ==> d.y() == year && d.m() == month && d.d() == day,
    {
        if chrono_ymd_exists(year, month, day) {
            Some(Date { year, month, day })
        } else {
            None
        }
    }

    /// Parses `s` with the `chrono` format `fmt`; `None` where `chrono` refuses it.
    pub fn parse_from_str(s: &str, fmt: &str) -> (r: Option<Date>)
        ensures
            r matches Some(d) ==> chrono_parse(s@, fmt@) == Some((d.y(), d.m(), d.d())),
            r is None ==> chrono_parse(s@, fmt@) is None,
    {
        match chrono_parse_ymd(s, fmt) {
            Some((year, month, day)) => Some(Date { year, month, day }),
            None => None,
        }
    }

    /// The signed number of calendar days from `other` to `self`.
    pub fn days_since(self, other: Date) -> (r: i64)
        ensures
            r == self.days() - other.days(),
    {
        chrono_days_between(self, other)
    }

    /// The `%Y-%m-%d` text of the date.
    pub fn to_string(self) -> (r: String)
        ensures
            r@ == self.text(),
    {
        chrono_display(self)
    }

    pub fn year(self) -> (r: i32)
        ensures
            r == self.y(),
    {
        self.year
    }

    pub fn month(self) -> (r: u32)
        ensures
            r == self.m(),
    {
        self.month
    }

    pub fn day(self) -> (r: u32)
        ensures
            r == self.d(),
    {
        self.day
    }

    pub fn is_valid(self)
        ensures
            date_valid(self.y(), self.m(), self.d()),
    {
        proof {
            use_type_invariant(self);
        }
    }

    /// Chronological `<`.
    pub fn lt(self, other: Date) -> (r: bool)
        ensures
            r == self.before(other),
    {
        self.year < other.year || (self.year == other.year && (self.month < other.month || (
        self.month == other.month && self.day < other.day)))
    }

    pub fn eq(self, other: Date) -> (r: bool)
        ensures
            r == (self.y() == other.y() && self.m() == other.m() && self.d() == other.d()),
            r == (self == other),
    {
        self.year == other.year && self.month == other.month && self.day == other.day
    }
}

#[verifier::external_body]
/// `(a - b).num_days()` on `NaiveDate`: the signed number of calendar days between two dates.
fn chrono_days_between(a: Date, b: Date) -> (r: i64)
    ensures
        r == a.days() - b.days(),
{
    let x = chrono::NaiveDate::from_ymd_opt(a.year, a.month, a.day).unwrap();
    let y = chrono::NaiveDate::from_ymd_opt(b.year, b.month, b.day).unwrap();
    (x - y).num_days()
}

#[verifier::external_body]
/// `Display` for `NaiveDate` (the `%Y-%m-%d` form).
fn chrono_display(d: Date) -> (r: String)
    ensures
        r@ == d.text(),
{
    chrono::NaiveDate::from_ymd_opt(d.year, d.month, d.day).unwrap().to_string()
}

} // verus!
