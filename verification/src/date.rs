//! Calendar primitives: weekdays, dates as day numbers, and the forward scan
//! that finds the next date falling on a wanted weekday.

use vstd::prelude::*;
use vstd::arithmetic::div_mod::lemma_add_mod_noop;

verus! {

/// A day of the week, Monday first.
#[derive(Clone, Copy, Debug, PartialEq, Eq, Structural, Hash)]
pub enum Weekday {
    Mon,
    Tue,
    Wed,
    Thu,
    Fri,
    Sat,
    Sun,
}

impl Weekday {
    /// Position of the weekday within the week, counting Monday as 0.
    pub open spec fn spec_number(self) -> int {
        match self {
            Weekday::Mon => 0,
            Weekday::Tue => 1,
            Weekday::Wed => 2,
            Weekday::Thu => 3,
            Weekday::Fri => 4,
            Weekday::Sat => 5,
            Weekday::Sun => 6,
        }
    }

    /// Position of the weekday within the week, counting Monday as 0.
    pub fn number(self) -> (n: u64)
        ensures
            n == self.spec_number(),
    {
        match self {
            Weekday::Mon => 0,
            Weekday::Tue => 1,
            Weekday::Wed => 2,
            Weekday::Thu => 3,
            Weekday::Fri => 4,
            Weekday::Sat => 5,
            Weekday::Sun => 6,
        }
    }
}

/// The weekday at the given position within the week, counting Monday as 0.
pub open spec fn spec_weekday_of_number(n: int) -> Weekday {
    if n == 0 {
        Weekday::Mon
    } else if n == 1 {
        Weekday::Tue
    } else if n == 2 {
        Weekday::Wed
    } else if n == 3 {
        Weekday::Thu
    } else if n == 4 {
        Weekday::Fri
    } else if n == 5 {
        Weekday::Sat
    } else {
        Weekday::Sun
    }
}

/// The weekday at the given position within the week, counting Monday as 0.
pub fn weekday_of_number(n: u64) -> (w: Weekday)
    requires
        n < 7,
    ensures
        w == spec_weekday_of_number(n as int),
{
    if n == 0 {
        Weekday::Mon
    } else if n == 1 {
        Weekday::Tue
    } else if n == 2 {
        Weekday::Wed
    } else if n == 3 {
        Weekday::Thu
    } else if n == 4 {
        Weekday::Fri
    } else if n == 5 {
        Weekday::Sat
    } else {
        Weekday::Sun
    }
}

/// The weekday of day number `d`, where day 0 is a Monday.
pub open spec fn spec_weekday_of_day(d: int) -> Weekday {
    spec_weekday_of_number(d % 7)
}

/// A calendar date in the proleptic Gregorian calendar, stored as the number
/// of whole days since the first of January of year 1, which is day 0 and a
/// Monday.
#[derive(Clone, Copy, Debug, PartialEq, Eq, Structural, Hash)]
pub struct Date {
    pub days: u64,
}

/// Whether year `y` is a leap year in the Gregorian calendar.
pub open spec fn spec_is_leap_year(y: int) -> bool {
    y % 4 == 0 && (y % 100 != 0 || y % 400 == 0)
}

/// The number of days in year `y`.
pub open spec fn spec_year_len(y: int) -> int {
    if spec_is_leap_year(y) {
        366
    } else {
        365
    }
}

/// The number of days in month `m` of year `y`.
pub open spec fn spec_month_len(y: int, m: int) -> int {
    if m == 2 {
        if spec_is_leap_year(y) {
            29
        } else {
            28
        }
    } else if m == 4 || m == 6 || m == 9 || m == 11 {
        30
    } else {
        31
    }
}

/// The number of days in all years from 1 up to but excluding `y`.
pub open spec fn spec_days_before_year(y: int) -> int
    decreases y,
{
    if y <= 1 {
        0
    } else {
        spec_days_before_year(y - 1) + spec_year_len(y - 1)
    }
}

/// The number of days in the months of year `y` from 1 up to but excluding
/// `m`.
pub open spec fn spec_days_before_month(y: int, m: int) -> int
    decreases m,
{
    if m <= 1 {
        0
    } else {
        spec_days_before_month(y, m - 1) + spec_month_len(y, m - 1)
    }
}

/// Whether year `y`, month `m` and day of month `d` name a real calendar date
/// that this crate accepts (years 1 through 9999).
pub open spec fn valid_ymd(y: int, m: int, d: int) -> bool {
    &&& 1 <= y <= 9999
    &&& 1 <= m <= 12
    &&& 1 <= d <= spec_month_len(y, m)
}

/// The day number of the date with year `y`, month `m` and day of month `d`.
pub open spec fn spec_ymd_to_days(y: int, m: int, d: int) -> int {
    spec_days_before_year(y) + spec_days_before_month(y, m) + d - 1
}

/// Whether year `y` is a leap year in the Gregorian calendar.
pub fn is_leap_year(y: u64) -> (r: bool)
    ensures
        r == spec_is_leap_year(y as int),
{
    y % 4 == 0 && (y % 100 != 0 || y % 400 == 0)
}

/// The number of days in year `y`.
pub fn year_len(y: u64) -> (r: u64)
    ensures
        r == spec_year_len(y as int),
{
    if is_leap_year(y) {
        366
    } else {
        365
    }
}

/// The number of days in month `m` of year `y`.
pub fn month_len(y: u64, m: u64) -> (r: u64)
    requires
        1 <= m <= 12,
    ensures
        r == spec_month_len(y as int, m as int),
{
    if m == 2 {
        if is_leap_year(y) {
            29
        } else {
            28
        }
    } else if m == 4 || m == 6 || m == 9 || m == 11 {
        30
    } else {
        31
    }
}

impl Date {
    /// The weekday this date falls on.
    pub open spec fn spec_weekday(self) -> Weekday {
        spec_weekday_of_day(self.days as int)
    }

    /// The weekday this date falls on.
    pub fn weekday(&self) -> (w: Weekday)
        ensures
            w == self.spec_weekday(),
    {
        weekday_of_number(self.days % 7)
    }

    /// The date of the following day.
    pub fn succ(&self) -> (r: Date)
        requires
            self.days < u64::MAX,
        ensures
            r.days == self.days + 1,
    {
        Date { days: self.days + 1 }
    }

    /// The date of the preceding day.
    pub fn pred(&self) -> (r: Date)
        requires
            self.days > 0,
        ensures
            r.days == self.days - 1,
    {
        Date { days: self.days - 1 }
    }

    /// The date with year `y`, month `m` and day of month `d`.
    pub fn from_ymd(y: u64, m: u64, d: u64) -> (r: Date)
        requires
            valid_ymd(y as int, m as int, d as int),
        ensures
            r.days == spec_ymd_to_days(y as int, m as int, d as int),
    {
        let mut acc: u64 = 0;
        let mut i: u64 = 1;
        while i < y
            invariant
                1 <= i <= y,
                y <= 9999,
                acc == spec_days_before_year(i as int),
                acc <= 366 * (i - 1),
            decreases y - i,
        {
            acc = acc + year_len(i);
            i = i + 1;
        }
        let mut j: u64 = 1;
        while j < m
            invariant
                1 <= j <= m,
                m <= 12,
                acc == spec_days_before_year(y as int) + spec_days_before_month(y as int, j as int),
                acc <= 366 * 9999 + 31 * (j - 1),
            decreases m - j,
        {
            acc = acc + month_len(y, j);
            j = j + 1;
        }
        Date { days: acc + d - 1 }
    }
}

/// How many days lie between a day with day number `from` and the first day
/// on or after it that falls on `weekday`.
pub open spec fn spec_days_until_weekday(from: int, weekday: Weekday) -> int {
    let t = from % 7;
    let w = weekday.spec_number();
    if w >= t {
        w - t
    } else {
        w + 7 - t
    }
}

/// The first date on or after `today` whose weekday is `weekday`.
pub open spec fn spec_weekday_to_date(weekday: Weekday, today: Date) -> Date {
    Date { days: (today.days + spec_days_until_weekday(today.days as int, weekday)) as u64 }
}

/// The first date on or after `today` whose weekday is `weekday` is found at
/// most six days out, it is `today` itself when the weekday already matches,
/// and no earlier day on or after `today` falls on that weekday.
pub proof fn lemma_weekday_to_date(weekday: Weekday, today: Date)
    requires
        today.days + 6 <= u64::MAX,
    ensures
        today.days <= spec_weekday_to_date(weekday, today).days <= today.days + 6,
        spec_weekday_to_date(weekday, today).spec_weekday() == weekday,
        today.spec_weekday() == weekday ==> spec_weekday_to_date(weekday, today) == today,
        forall|d: int|
            today.days <= d < spec_weekday_to_date(weekday, today).days
                ==> #[trigger] spec_weekday_of_day(d) != weekday,
{
    let t = today.days as int % 7;
    let w = weekday.spec_number();
    let k = spec_days_until_weekday(today.days as int, weekday);
    assert((t + k) % 7 == w) by {
        lemma_add_mod_noop(t, k, 7);
    };
    lemma_add_mod_noop(today.days as int, k, 7);
    assert forall|d: int|
        today.days <= d < today.days + k implies #[trigger] spec_weekday_of_day(d)
        != weekday by {
        let j = d - today.days;
        lemma_add_mod_noop(today.days as int, j, 7);
        assert((t + j) % 7 != w);
    };
}

/// The first date on or after `today` whose weekday is `weekday`. Given
/// tomorrow's weekday this returns tomorrow's date; today is represented by
/// the current weekday.
pub fn weekday_to_date(weekday: Weekday, today: Date) -> (r: Date)
    requires
        today.days + 6 <= u64::MAX,
    ensures
        r == spec_weekday_to_date(weekday, today),
        today.days <= r.days <= today.days + 6,
        r.spec_weekday() == weekday,
        today.spec_weekday() == weekday ==> r == today,
        forall|d: int| today.days <= d < r.days ==> #[trigger] spec_weekday_of_day(d) != weekday,
{
    proof {
        lemma_weekday_to_date(weekday, today);
    }
    let t: u64 = today.days % 7;
    let w: u64 = weekday.number();
    let k: u64 = if w >= t {
        w - t
    } else {
        w + 7 - t
    };
    Date { days: today.days + k }
}

/// Relies on chrono's `Local::now`, `DateTime::date_naive` and
/// `Datelike::num_days_from_ce`: the current local calendar date, counted in
/// days in the proleptic Gregorian calendar with the first of January of year
/// 1 as day 1. The result depends on the wall clock, so nothing is promised
/// of it.
#[verifier::external_body]
fn current_day_number_from_ce() -> (r: i32) {
    chrono::Datelike::num_days_from_ce(&chrono::Local::now().date_naive())
}

/// The current local date according to the wall clock. A clock reading before
/// year 1 is clamped to day 0. The result is bounded, but otherwise depends
/// on the wall clock alone.
pub fn today() -> (r: Date)
    ensures
        r.days + 6 <= u64::MAX,
{
    let n: i32 = current_day_number_from_ce();
    if n >= 1 {
        Date { days: (n - 1) as u64 }
    } else {
        Date { days: 0 }
    }
}

} // verus!
