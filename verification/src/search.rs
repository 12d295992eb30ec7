//! When a schedule fires: which instants it matches, and the first of
//! them after a given one.

use vstd::prelude::*;
use crate::calendar::{
    date_of_day, day_of, lemma_date_of_day, second_of_day, weekday, weekday_of_day, CivilDate,
    Date, SECONDS_PER_DAY,
};
use crate::field::FieldKind;
use crate::schedule::{CronSchedule, ScheduleView};

verus! {

/// How many days after the day of `now` a search for the next match goes on.
pub const SEARCH_DAYS: u64 = 1830;

/// No instant within the days searched matches the schedule.
#[derive(Clone, Copy, Debug, PartialEq, Eq, Structural)]
pub struct NoMatchError;

/// The last day of which an instant can be told in seconds since the epoch.
pub const LAST_DAY: u64 = 213503982334601;

/// `LAST_DAY` is the day of the last instant, and no instant lies later.
pub proof fn lemma_last_day(t: int)
    requires
        0 <= t <= u64::MAX,
    ensures
        day_of(u64::MAX as int) == LAST_DAY,
        0 <= day_of(t) <= LAST_DAY,
{
}

/// Whether `t` lies after `now` and on one of the days that a search from
/// `now` covers: the day of `now` and the `SEARCH_DAYS` days after it, as
/// far as instants can be told at all.
pub open spec fn in_window(now: int, t: int) -> bool {
    now < t <= u64::MAX && day_of(t) <= day_of(now) + SEARCH_DAYS
}

/// Whether `t` is the first instant after `now` at which `schedule` fires,
/// and lies on one of the days that a search from `now` covers.
pub open spec fn is_next_match(schedule: ScheduleView, now: int, t: int) -> bool {
    &&& in_window(now, t)
    &&& schedule.matches(t)
    &&& forall|u: int| now < u < t ==> !schedule.matches(u)
}

/// Whether `schedule` fires at no instant after `now` on the days that a
/// search from `now` covers.
pub open spec fn none_in_window(schedule: ScheduleView, now: int) -> bool {
    forall|u: int| in_window(now, u) ==> !schedule.matches(u)
}

/// The first match after an instant is one instant: no two differ.
pub proof fn lemma_next_match_unique(schedule: ScheduleView, now: int, a: int, b: int)
    requires
        is_next_match(schedule, now, a),
        is_next_match(schedule, now, b),
    ensures
        a == b,
{
}

/// A first match and the lack of any exclude each other.
pub proof fn lemma_next_match_excludes_none(schedule: ScheduleView, now: int, t: int)
    requires
        is_next_match(schedule, now, t),
    ensures
        !none_in_window(schedule, now),
{
}

impl ScheduleView {
    /// Whether the schedule fires at the second `second_of_day` of a day
    /// on which it fires.
    pub open spec fn admits_time(self, second_of_day: int) -> bool {
        &&& self.hours.contains(second_of_day / 3600)
        &&& self.minutes.contains((second_of_day / 60) % 60)
        &&& self.seconds.contains(second_of_day % 60)
    }

    /// Whether the schedule fires on a day with this day of the month and
    /// this weekday.
    ///
    /// Where neither day field was written as `*`, one of the two is
    /// enough; otherwise both are asked for.
    pub open spec fn admits_day(self, day_of_month: int, weekday: int) -> bool {
        if !self.any_day_of_month && !self.any_day_of_week {
            self.days_of_month.contains(day_of_month) || self.days_of_week.contains(weekday)
        } else {
            self.days_of_month.contains(day_of_month) && self.days_of_week.contains(weekday)
        }
    }

    /// Whether the schedule fires in the year `year`: in every year where
    /// the year field is `*` or missing, else in the years that it admits.
    pub open spec fn admits_year(self, year: int) -> bool {
        self.any_year || self.years.contains(year)
    }

    /// Whether the schedule fires on the date `date`, which falls on `weekday`.
    pub open spec fn admits_date(self, date: CivilDate, weekday: int) -> bool {
        &&& self.admits_year(date.year)
        &&& self.months.contains(date.month)
        &&& self.admits_day(date.day, weekday)
    }

    /// Whether the schedule fires at the instant `t`, in seconds since the
    /// epoch: whether every field admits what `t` is in the calendar.
    pub open spec fn matches(self, t: int) -> bool {
        &&& t >= 0
        &&& self.admits_date(date_of_day(day_of(t) as nat), weekday_of_day(day_of(t) as nat))
        &&& self.admits_time(second_of_day(t))
    }
}

impl CronSchedule {
    /// Whether the schedule fires on `date`, which falls on `weekday`.
    pub fn admits_date(&self, date: Date, weekday: u32) -> (r: bool)
        ensures
            r == self@.admits_date(date@, weekday as int),
    {
        let years = self.years();
        let by_year: bool = self.any_year() || (date.year <= FieldKind::Year.max_value() as u64
            && years.contains(date.year as u32));
        if !by_year || !self.months().contains(date.month) {
            return false;
        }
        let by_month_day: bool = self.days_of_month().contains(date.day);
        let by_weekday: bool = self.days_of_week().contains(weekday);
        if !self.any_day_of_month() && !self.any_day_of_week() {
            by_month_day || by_weekday
        } else {
            by_month_day && by_weekday
        }
    }

    /// The first second of a day, at or after its second `from`, at which
    /// the schedule fires.
    pub fn first_time_from(&self, from: u32) -> (r: Option<u32>)
        ensures
            match r {
                Some(s) => from <= s < SECONDS_PER_DAY && self@.admits_time(s as int) && forall|
                    u: int,
                |
                    from <= u < s ==> !self@.admits_time(u),
                None => forall|u: int| from <= u < SECONDS_PER_DAY ==> !self@.admits_time(u),
            },
    {
        if from as u64 >= SECONDS_PER_DAY {
            return None;
        }
        let seconds = self.seconds();
        let minutes = self.minutes();
        let hours = self.hours();
        proof {
            seconds.lemma_members_bounded();
            minutes.lemma_members_bounded();
            hours.lemma_members_bounded();
            lemma_clock(from as int);
        }
        let first_second: u32 = match seconds.first_from(0) {
            Some(s) => s,
            None => {
                assert forall|u: int| from <= u < SECONDS_PER_DAY implies !self@.admits_time(u) by {
                    lemma_clock(u);
                }
                return None;
            },
        };
        let first_minute: u32 = match minutes.first_from(0) {
            Some(m) => m,
            None => {
                assert forall|u: int| from <= u < SECONDS_PER_DAY implies !self@.admits_time(u) by {
                    lemma_clock(u);
                }
                return None;
            },
        };
        let h0: u32 = from / 3600;
        let m0: u32 = (from / 60) % 60;
        let s0: u32 = from % 60;
        if hours.contains(h0) {
            if minutes.contains(m0) {
                match seconds.first_from(s0) {
                    Some(s) => {
                        let r: u32 = h0 * 3600 + m0 * 60 + s;
                        proof {
                            lemma_clock_of(h0 as int, m0 as int, s as int);
                            assert forall|u: int| from <= u < r implies !self@.admits_time(u) by {
                                lemma_clock(u);
                                lemma_clock_order(from as int, u);
                                lemma_clock_order(u, r as int);
                            }
                        }
                        return Some(r);
                    },
                    None => {},
                }
            }
            match minutes.first_from(m0 + 1) {
                Some(m) => {
                    let r: u32 = h0 * 3600 + m * 60 + first_second;
                    proof {
                        lemma_clock_of(h0 as int, m as int, first_second as int);
                        assert forall|u: int| from <= u < r implies !self@.admits_time(u) by {
                            lemma_clock(u);
                            lemma_clock_order(from as int, u);
                            lemma_clock_order(u, r as int);
                        }
                    }
                    return Some(r);
                },
                None => {},
            }
        }
        match hours.first_from(h0 + 1) {
            Some(h) => {
                let r: u32 = h * 3600 + first_minute * 60 + first_second;
                proof {
                    lemma_clock_of(h as int, first_minute as int, first_second as int);
                    assert forall|u: int| from <= u < r implies !self@.admits_time(u) by {
                        lemma_clock(u);
                        lemma_clock_order(from as int, u);
                        lemma_clock_order(u, r as int);
                    }
                }
                Some(r)
            },
            None => {
                assert forall|u: int| from <= u < SECONDS_PER_DAY implies !self@.admits_time(u) by {
                    lemma_clock(u);
                    lemma_clock_order(from as int, u);
                }
                None
            },
        }
    }
}

impl CronSchedule {
    /// The first instant after `now` at which the schedule fires, among
    /// those of the day of `now` and of the `SEARCH_DAYS` days after it.
    pub fn next_after(&self, now: u64) -> (r: Result<u64, NoMatchError>)
        ensures
            match r {
                Ok(t) => is_next_match(self@, now as int, t as int),
                Err(_) => none_in_window(self@, now as int),
            },
    {
        let first_day: u64 = now / SECONDS_PER_DAY;
        let last_day: u64 = if first_day + SEARCH_DAYS < LAST_DAY {
            first_day + SEARCH_DAYS
        } else {
            LAST_DAY
        };
        let mut day: u64 = first_day;
        let mut date: Date = Date::from_day(day);
        while day <= last_day
            invariant
                first_day == day_of(now as int),
                first_day <= last_day <= LAST_DAY,
                last_day <= first_day + SEARCH_DAYS,
                first_day <= day <= last_day + 1,
                date@ == date_of_day(day as nat),
                forall|u: int| now < u && day_of(u) < day ==> !self@.matches(u),
            decreases last_day + 1 - day,
        {
            proof {
                lemma_date_of_day(day as nat);
            }
            if self.admits_date(date, weekday(day)) {
                let from: u32 = if day == first_day {
                    (now % SECONDS_PER_DAY) as u32 + 1
                } else {
                    0
                };
                match self.first_time_from(from) {
                    Some(s) => {
                        let start: u64 = day * SECONDS_PER_DAY;
                        if s as u64 <= u64::MAX - start {
                            let t: u64 = start + s as u64;
                            assert(day_of(t as int) == day && second_of_day(t as int) == s);
                            assert forall|u: int| now < u < t implies !self@.matches(u) by {
                                if day_of(u) == day {
                                    assert(from <= second_of_day(u) < s);
                                }
                            }
                            return Ok(t);
                        }
                        assert forall|u: int|
                            now < u <= u64::MAX && day_of(u) == day implies !self@.matches(u) by {
                            assert(from <= second_of_day(u) < s);
                        }
                        assert forall|u: int| in_window(now as int, u) implies !self@.matches(
                            u,
                        ) by {
                            assert(day_of(u) <= LAST_DAY);
                        }
                        return Err(NoMatchError);
                    },
                    None => {
                        assert forall|u: int| now < u && day_of(u) == day implies !self@.matches(
                            u,
                        ) by {
                            assert(from <= second_of_day(u) < SECONDS_PER_DAY);
                        }
                    },
                }
            }
            date = date.next();
            day = day + 1;
        }
        assert forall|u: int| in_window(now as int, u) implies !self@.matches(u) by {
            assert(day_of(u) <= LAST_DAY);
        }
        Err(NoMatchError)
    }
}

/// A second of the day is an hour, a minute of it and a second of that.
pub proof fn lemma_clock(t: int)
    requires
        0 <= t < SECONDS_PER_DAY,
    ensures
        0 <= t / 3600 < 24,
        0 <= (t / 60) % 60 < 60,
        0 <= t % 60 < 60,
        t == (t / 3600) * 3600 + ((t / 60) % 60) * 60 + t % 60,
{
}

/// The second of the day that an hour, a minute and a second make up
/// reads as that hour, minute and second.
pub proof fn lemma_clock_of(h: int, m: int, s: int)
    requires
        0 <= h < 24,
        0 <= m < 60,
        0 <= s < 60,
    ensures
        0 <= h * 3600 + m * 60 + s < SECONDS_PER_DAY,
        (h * 3600 + m * 60 + s) / 3600 == h,
        ((h * 3600 + m * 60 + s) / 60) % 60 == m,
        (h * 3600 + m * 60 + s) % 60 == s,
{
}

/// Seconds of the day are ordered as their hours, then their minutes, then
/// their seconds.
pub proof fn lemma_clock_order(a: int, b: int)
    requires
        0 <= a < SECONDS_PER_DAY,
        0 <= b < SECONDS_PER_DAY,
    ensures
        a <= b <==> a / 3600 < b / 3600 || (a / 3600 == b / 3600 && ((a / 60) % 60 < (b / 60) % 60
            || ((a / 60) % 60 == (b / 60) % 60 && a % 60 <= b % 60))),
{
    lemma_clock(a);
    lemma_clock(b);
}

impl ScheduleView {
    /// Whether the schedule fires on every day: in every year, in every
    /// month, on every day of the month and of the week.
    pub open spec fn fires_every_day(self) -> bool {
        &&& self.any_year
        &&& forall|m: int| 1 <= m <= 12 ==> self.months.contains(m)
        &&& forall|d: int| 1 <= d <= 31 ==> self.days_of_month.contains(d)
        &&& forall|w: int| 0 <= w <= 6 ==> self.days_of_week.contains(w)
    }
}

/// A schedule that fires on every day is never exhausted while instants
/// can tell the whole of the next day: it fires then, in whatever year.
pub proof fn lemma_daily_schedule_fires_again(schedule: ScheduleView, now: int)
    requires
        schedule.is_valid(),
        schedule.fires_every_day(),
        0 <= now,
        day_of(now) + 1 < LAST_DAY,
    ensures
        !none_in_window(schedule, now),
{
    let h = choose|v: int| schedule.hours.contains(v);
    let m = choose|v: int| schedule.minutes.contains(v);
    let s = choose|v: int| schedule.seconds.contains(v);
    lemma_clock_of(h, m, s);
    let day = day_of(now) + 1;
    let t = day * SECONDS_PER_DAY + h * 3600 + m * 60 + s;
    assert(day_of(t) == day && second_of_day(t) == h * 3600 + m * 60 + s);
    lemma_date_of_day(day as nat);
    assert(schedule.admits_time(second_of_day(t)));
    assert(schedule.admits_date(date_of_day(day as nat), weekday_of_day(day as nat)));
    assert(schedule.matches(t));
    assert(in_window(now, t));
}

} // verus!
