//! The civil calendar behind every schedule: days counted from
//! 1970-01-01 (UTC), their dates and weekdays.

use vstd::prelude::*;

verus! {

/// Seconds in one civil day.
pub const SECONDS_PER_DAY: u64 = 86400;

/// The first year that the calendar covers.
pub const MIN_YEAR: u64 = 1970;

/// The days of four hundred years: the span after which the calendar
/// repeats.
pub const DAYS_PER_CYCLE: u64 = 146097;

/// The number of the day on which the instant `t` falls.
pub open spec fn day_of(t: int) -> int {
    t / (SECONDS_PER_DAY as int)
}

/// The second of its day at which the instant `t` falls.
pub open spec fn second_of_day(t: int) -> int {
    t % (SECONDS_PER_DAY as int)
}

/// A civil date as the contracts see it.
pub ghost struct CivilDate {
    pub year: int,
    pub month: int,
    pub day: int,
}

/// A civil date.
#[derive(Clone, Copy, Debug, PartialEq, Eq, Structural)]
pub struct Date {
    pub year: u64,
    pub month: u32,
    pub day: u32,
}

impl View for Date {
    type V = CivilDate;

    open spec fn view(&self) -> CivilDate {
        CivilDate { year: self.year as int, month: self.month as int, day: self.day as int }
    }
}

pub open spec fn is_leap_year(year: int) -> bool {
    year % 4 == 0 && (year % 100 != 0 || year % 400 == 0)
}

pub open spec fn days_in_year(year: int) -> int {
    if is_leap_year(year) {
        366
    } else {
        365
    }
}

pub open spec fn days_in_month(year: int, month: int) -> int {
    if month == 2 {
        if is_leap_year(year) {
            29
        } else {
            28
        }
    } else if month == 4 || month == 6 || month == 9 || month == 11 {
        30
    } else {
        31
    }
}

/// Leap years in `1970..year`.
pub open spec fn leap_years_before(year: int) -> int {
    (year - 1969) / 4 - (year - 1901) / 100 + (year - 1601) / 400
}

/// Days from the epoch to January 1st of `year`.
pub open spec fn days_before_year(year: int) -> int {
    365 * (year - 1970) + leap_years_before(year)
}

/// Days from January 1st of `year` to the first of `month`.
pub open spec fn days_before_month(year: int, month: int) -> int {
    let common: int = if month <= 1 {
        0
    } else if month == 2 {
        31
    } else if month == 3 {
        59
    } else if month == 4 {
        90
    } else if month == 5 {
        120
    } else if month == 6 {
        151
    } else if month == 7 {
        181
    } else if month == 8 {
        212
    } else if month == 9 {
        243
    } else if month == 10 {
        273
    } else if month == 11 {
        304
    } else if month == 12 {
        334
    } else {
        365
    };
    if month > 2 && is_leap_year(year) {
        common + 1
    } else {
        common
    }
}

impl CivilDate {
    /// A date of the calendar: a real day on or after the epoch.
    pub open spec fn is_valid(self) -> bool {
        &&& self.year >= MIN_YEAR
        &&& 1 <= self.month <= 12
        &&& 1 <= self.day <= days_in_month(self.year, self.month)
    }

    /// Days from the epoch to this date.
    pub open spec fn day_number(self) -> int {
        days_before_year(self.year) + days_before_month(self.year, self.month) + self.day - 1
    }

    /// The day after this one.
    pub open spec fn successor(self) -> CivilDate {
        if self.day < days_in_month(self.year, self.month) {
            CivilDate { year: self.year, month: self.month, day: self.day + 1 }
        } else if self.month < 12 {
            CivilDate { year: self.year, month: self.month + 1, day: 1 }
        } else {
            CivilDate { year: self.year + 1, month: 1, day: 1 }
        }
    }
}

/// The date of the day that lies `day` days after the epoch.
pub open spec fn date_of_day(day: nat) -> CivilDate
    decreases day,
{
    if day == 0 {
        CivilDate { year: 1970, month: 1, day: 1 }
    } else {
        date_of_day((day - 1) as nat).successor()
    }
}

/// The weekday of a day number: 0 is Sunday, 6 is Saturday.
pub open spec fn weekday_of_day(day: nat) -> int {
    ((day + 4) % 7) as int
}

/// Four hundred years are `DAYS_PER_CYCLE` days, whichever year they
/// start with.
pub proof fn lemma_cycle(year: int)
    requires
        year >= 1970,
    ensures
        days_before_year(year + 400) == days_before_year(year) + DAYS_PER_CYCLE,
{
    let a = year - 1969;
    let b = year - 1901;
    let c = year - 1601;
    assert((a + 400) / 4 == a / 4 + 100);
    assert((b + 400) / 100 == b / 100 + 4);
    assert((c + 400) / 400 == c / 400 + 1);
}

/// Whole cycles from the epoch on take whole multiples of `DAYS_PER_CYCLE`.
pub proof fn lemma_cycles(cycles: int)
    requires
        cycles >= 0,
    ensures
        days_before_year(1970 + 400 * cycles) == DAYS_PER_CYCLE * cycles,
    decreases cycles,
{
    if cycles > 0 {
        lemma_cycles(cycles - 1);
        lemma_cycle(1970 + 400 * (cycles - 1));
    }
}

/// Each year adds its own length to the count of days.
pub proof fn lemma_year_step(year: int)
    requires
        year >= 1970,
    ensures
        days_before_year(year + 1) == days_before_year(year) + days_in_year(year),
{
    let a = year - 1969;
    let b = year - 1901;
    let c = year - 1601;
    assert((a + 1) / 4 == a / 4 + if year % 4 == 0 { 1int } else { 0int });
    assert((b + 1) / 100 == b / 100 + if year % 100 == 0 { 1int } else { 0int });
    assert((c + 1) / 400 == c / 400 + if year % 400 == 0 { 1int } else { 0int });
    assert(year % 400 == 0 ==> year % 100 == 0);
    assert(year % 100 == 0 ==> year % 4 == 0);
}

/// The count of days before a year grows with the year.
pub proof fn lemma_days_before_year_monotonic(a: int, b: int)
    requires
        1970 <= a <= b,
    ensures
        days_before_year(a) <= days_before_year(b),
        a < b ==> days_before_year(a) + days_in_year(a) <= days_before_year(b),
    decreases b - a,
{
    if a < b {
        lemma_days_before_year_monotonic(a, b - 1);
        lemma_year_step(b - 1);
    }
}

/// The day after a date of the calendar is a date of the calendar, one day later.
pub proof fn lemma_successor(d: CivilDate)
    requires
        d.is_valid(),
    ensures
        d.successor().is_valid(),
        d.successor().day_number() == d.day_number() + 1,
{
    if d.day >= days_in_month(d.year, d.month) && d.month == 12 {
        lemma_year_step(d.year);
    }
}

/// Two dates of the calendar in order of time have day numbers in the same order.
pub proof fn lemma_day_number_ordered(a: CivilDate, b: CivilDate)
    requires
        a.is_valid(),
        b.is_valid(),
        a.year < b.year || (a.year == b.year && (a.month < b.month || (a.month == b.month && a.day
            < b.day))),
    ensures
        a.day_number() < b.day_number(),
{
    if a.year < b.year {
        lemma_days_before_year_monotonic(a.year, b.year);
    }
}

/// No two dates of the calendar share a day number.
pub proof fn lemma_day_number_injective(a: CivilDate, b: CivilDate)
    requires
        a.is_valid(),
        b.is_valid(),
        a.day_number() == b.day_number(),
    ensures
        a == b,
{
    if a.year < b.year || (a.year == b.year && (a.month < b.month || (a.month == b.month && a.day
        < b.day))) {
        lemma_day_number_ordered(a, b);
    } else if a != b {
        lemma_day_number_ordered(b, a);
    }
}

/// A date of the calendar is no earlier than January 1st of its year and
/// earlier than January 1st of the next.
pub proof fn lemma_day_number_bounds(d: CivilDate)
    requires
        d.is_valid(),
    ensures
        days_before_year(d.year) <= d.day_number() < days_before_year(d.year) + days_in_year(
            d.year,
        ),
        d.day_number() >= 365 * (d.year - 1970),
{
}

/// Every day after the epoch has a date of the calendar, and that date has
/// the day's number.
pub proof fn lemma_date_of_day(day: nat)
    ensures
        date_of_day(day).is_valid(),
        date_of_day(day).day_number() == day,
        date_of_day(day).year <= 1970 + day / 365,
    decreases day,
{
    if day > 0 {
        let p = date_of_day((day - 1) as nat);
        lemma_date_of_day((day - 1) as nat);
        lemma_day_number_bounds(p);
        lemma_successor(p);
        lemma_day_number_bounds(p.successor());
    }
}

/// The one date of the calendar with a given day number is the date of that day.
pub proof fn lemma_date_of_day_unique(d: CivilDate)
    requires
        d.is_valid(),
    ensures
        date_of_day(d.day_number() as nat) == d,
{
    lemma_day_number_bounds(d);
    lemma_date_of_day(d.day_number() as nat);
    lemma_day_number_injective(date_of_day(d.day_number() as nat), d);
}

/// Whether `year` has a February 29th.
pub fn leap_year(year: u64) -> (r: bool)
    ensures
        r == is_leap_year(year as int),
{
    year % 4 == 0 && (year % 100 != 0 || year % 400 == 0)
}

/// The number of days of `year`.
pub fn year_length(year: u64) -> (r: u64)
    ensures
        r == days_in_year(year as int),
{
    if leap_year(year) {
        366
    } else {
        365
    }
}

/// The number of days of `month` in `year`.
pub fn month_length(year: u64, month: u32) -> (r: u32)
    ensures
        r == days_in_month(year as int, month as int),
{
    if month == 2 {
        if leap_year(year) {
            29
        } else {
            28
        }
    } else if month == 4 || month == 6 || month == 9 || month == 11 {
        30
    } else {
        31
    }
}

/// The weekday of a day number: 0 is Sunday, 6 is Saturday.
pub fn weekday(day: u64) -> (r: u32)
    ensures
        r == weekday_of_day(day as nat),
{
    ((day % 7 + 4) % 7) as u32
}

impl Date {
    /// The date of the day that lies `day` days after the epoch.
    pub fn from_day(day: u64) -> (r: Date)
        ensures
            r@ == date_of_day(day as nat),
    {
        let cycles: u64 = day / DAYS_PER_CYCLE;
        let mut year: u64 = 1970 + 400 * cycles;
        let mut rest: u64 = day % DAYS_PER_CYCLE;
        proof {
            lemma_cycles(cycles as int);
        }
        while rest >= year_length(year)
            invariant
                year >= 1970,
                days_before_year(year as int) + rest == day,
                year + rest / 365 <= 1970 + 400 * cycles + 401,
                cycles == day / DAYS_PER_CYCLE,
            decreases rest,
        {
            proof {
                lemma_year_step(year as int);
            }
            rest = rest - year_length(year);
            year = year + 1;
        }
        let mut month: u32 = 1;
        while rest >= month_length(year, month) as u64
            invariant
                1 <= month <= 12,
                days_before_year(year as int) + days_before_month(year as int, month as int)
                    + rest == day,
                days_before_month(year as int, month as int) + rest < days_in_year(year as int),
            decreases rest,
        {
            rest = rest - month_length(year, month) as u64;
            month = month + 1;
        }
        let r = Date { year, month, day: (rest + 1) as u32 };
        proof {
            lemma_date_of_day_unique(r@);
        }
        r
    }

    /// The number of days from the epoch to this date.
    pub fn to_day(self) -> (r: u64)
        requires
            self@.is_valid(),
            self@.day_number() <= u64::MAX,
        ensures
            r == self@.day_number(),
    {
        let y: u64 = self.year;
        let leaps: u64 = (y - 1969) / 4 + (y - 1601) / 400 - (y - 1901) / 100;
        let common: u64 = if self.month == 1 {
            0
        } else if self.month == 2 {
            31
        } else if self.month == 3 {
            59
        } else if self.month == 4 {
            90
        } else if self.month == 5 {
            120
        } else if self.month == 6 {
            151
        } else if self.month == 7 {
            181
        } else if self.month == 8 {
            212
        } else if self.month == 9 {
            243
        } else if self.month == 10 {
            273
        } else if self.month == 11 {
            304
        } else {
            334
        };
        let extra: u64 = if self.month > 2 && leap_year(self.year) {
            1
        } else {
            0
        };
        365 * (y - 1970) + leaps + common + extra + (self.day as u64 - 1)
    }

    /// The day after this one.
    pub fn next(self) -> (r: Date)
        requires
            self@.is_valid(),
            self.year < u64::MAX,
        ensures
            r@ == self@.successor(),
    {
        if self.day < month_length(self.year, self.month) {
            Date { year: self.year, month: self.month, day: self.day + 1 }
        } else if self.month < 12 {
            Date { year: self.year, month: self.month + 1, day: 1 }
        } else {
            Date { year: self.year + 1, month: 1, day: 1 }
        }
    }
}

/// A civil date and a time of day, in UTC.
#[derive(Clone, Copy, Debug, PartialEq, Eq, Structural)]
pub struct DateTime {
    pub date: Date,
    pub hour: u32,
    pub minute: u32,
    pub second: u32,
}

impl DateTime {
    /// A date of the calendar and a time of the clock.
    pub open spec fn is_valid(self) -> bool {
        &&& self.date@.is_valid()
        &&& self.hour < 24
        &&& self.minute < 60
        &&& self.second < 60
    }

    /// Seconds from the epoch to this date and time.
    pub open spec fn instant(self) -> int {
        self.date@.day_number() * SECONDS_PER_DAY + self.hour * 3600 + self.minute * 60
            + self.second
    }

    /// The date and time with these fields, where they name a date of the
    /// calendar and a time of the clock.
    pub fn new(year: u64, month: u32, day: u32, hour: u32, minute: u32, second: u32) -> (r: Option<
        DateTime,
    >)
        ensures
            match r {
                Some(t) => t.is_valid() && t == (DateTime {
                    date: Date { year, month, day },
                    hour,
                    minute,
                    second,
                }),
                None => !(DateTime { date: Date { year, month, day }, hour, minute, second })
                    .is_valid(),
            },
    {
        if year >= 1970 && 1 <= month && month <= 12 && 1 <= day && day <= month_length(
            year,
            month,
        ) && hour < 24 && minute < 60 && second < 60 {
            Some(DateTime { date: Date { year, month, day }, hour, minute, second })
        } else {
            None
        }
    }

    /// Seconds from the epoch to this date and time.
    pub fn to_instant(self) -> (r: u64)
        requires
            self.is_valid(),
            self.instant() <= u64::MAX,
        ensures
            r == self.instant(),
    {
        proof {
            lemma_day_number_bounds(self.date@);
        }
        let day: u64 = self.date.to_day();
        day * SECONDS_PER_DAY + (self.hour as u64) * 3600 + (self.minute as u64) * 60
            + self.second as u64
    }

    /// The date and time of the instant `t`, in seconds since the epoch.
    pub fn from_instant(t: u64) -> (r: DateTime)
        ensures
            r.is_valid(),
            r.instant() == t,
            r.date@ == date_of_day(day_of(t as int) as nat),
    {
        let day: u64 = t / SECONDS_PER_DAY;
        let rest: u32 = (t % SECONDS_PER_DAY) as u32;
        let date = Date::from_day(day);
        proof {
            lemma_date_of_day(day as nat);
        }
        DateTime { date, hour: rest / 3600, minute: (rest / 60) % 60, second: rest % 60 }
    }
}

} // verus!
