use jobsched::calendar::{Date, DateTime};
use jobsched::schedule::CronSchedule;
use jobsched::search::NoMatchError;

fn at(year: u64, month: u32, day: u32, hour: u32, minute: u32, second: u32) -> u64 {
    DateTime::new(year, month, day, hour, minute, second).unwrap().to_instant()
}

#[test]
fn daily_schedule_fires_later_the_same_day() {
    let s = CronSchedule::parse("0 30 9 * * *").unwrap();
    assert_eq!(s.next_after(at(2024, 1, 1, 9, 0, 0)), Ok(at(2024, 1, 1, 9, 30, 0)));
}

#[test]
fn daily_schedule_excludes_the_instant_itself() {
    let s = CronSchedule::parse("0 30 9 * * *").unwrap();
    assert_eq!(s.next_after(at(2024, 1, 1, 9, 30, 0)), Ok(at(2024, 1, 2, 9, 30, 0)));
}

#[test]
fn either_day_field_is_enough_when_both_are_restricted() {
    let s = CronSchedule::parse("0 0 0 15 * 1").unwrap();
    // 2024-01-08 is a Monday that is not the 15th.
    assert_eq!(s.next_after(at(2024, 1, 7, 12, 0, 0)), Ok(at(2024, 1, 8, 0, 0, 0)));
    // 2024-02-15 is a Thursday; the Monday before it is 2024-02-12.
    assert_eq!(s.next_after(at(2024, 2, 12, 0, 0, 0)), Ok(at(2024, 2, 15, 0, 0, 0)));
    // 2024-01-15 is both.
    assert_eq!(s.next_after(at(2024, 1, 8, 0, 0, 0)), Ok(at(2024, 1, 15, 0, 0, 0)));
}

#[test]
fn impossible_date_finds_no_match() {
    let s = CronSchedule::parse("0 0 0 31 2 *").unwrap();
    assert_eq!(s.next_after(at(2024, 1, 1, 0, 0, 0)), Err(NoMatchError));
}

#[test]
fn epoch_is_a_thursday() {
    assert_eq!(at(1970, 1, 1, 0, 0, 0), 0);
    assert_eq!(jobsched::calendar::weekday(0), 4);
    assert_eq!(at(2024, 1, 1, 9, 0, 0), 1704099600);
}

#[test]
fn every_second_fires_one_second_later() {
    let s = CronSchedule::parse("* * * * * *").unwrap();
    assert_eq!(s.next_after(0), Ok(1));
    assert_eq!(s.next_after(86399), Ok(86400));
    assert_eq!(s.next_after(1704067199), Ok(1704067200));
}

#[test]
fn stepped_seconds_fire_on_their_multiples() {
    let s = CronSchedule::parse("1/4 * * * * *").unwrap();
    assert_eq!(s.next_after(at(2024, 1, 1, 0, 0, 0)), Ok(at(2024, 1, 1, 0, 0, 1)));
    assert_eq!(s.next_after(at(2024, 1, 1, 0, 0, 1)), Ok(at(2024, 1, 1, 0, 0, 5)));
    assert_eq!(s.next_after(at(2024, 1, 1, 0, 0, 57)), Ok(at(2024, 1, 1, 0, 1, 1)));
    assert_eq!(s.next_after(at(2024, 1, 1, 23, 59, 58)), Ok(at(2024, 1, 2, 0, 0, 1)));
}

#[test]
fn minutes_and_hours_carry_over() {
    let s = CronSchedule::parse("30 15,45 6,18 * * *").unwrap();
    assert_eq!(s.next_after(at(2024, 3, 10, 6, 15, 29)), Ok(at(2024, 3, 10, 6, 15, 30)));
    assert_eq!(s.next_after(at(2024, 3, 10, 6, 15, 30)), Ok(at(2024, 3, 10, 6, 45, 30)));
    assert_eq!(s.next_after(at(2024, 3, 10, 6, 45, 30)), Ok(at(2024, 3, 10, 18, 15, 30)));
    assert_eq!(s.next_after(at(2024, 3, 10, 18, 45, 30)), Ok(at(2024, 3, 11, 6, 15, 30)));
    assert_eq!(s.next_after(at(2024, 3, 10, 7, 0, 0)), Ok(at(2024, 3, 10, 18, 15, 30)));
    assert_eq!(s.next_after(at(2024, 3, 10, 6, 20, 40)), Ok(at(2024, 3, 10, 6, 45, 30)));
}

#[test]
fn the_last_second_of_a_day_leads_to_the_next_day() {
    let s = CronSchedule::parse("59 59 23 * * *").unwrap();
    assert_eq!(s.next_after(at(2024, 1, 1, 23, 59, 58)), Ok(at(2024, 1, 1, 23, 59, 59)));
    assert_eq!(s.next_after(at(2024, 1, 1, 23, 59, 59)), Ok(at(2024, 1, 2, 23, 59, 59)));
}

#[test]
fn leap_day_is_found_within_the_window() {
    let s = CronSchedule::parse("0 0 12 29 2 *").unwrap();
    assert_eq!(s.next_after(at(2023, 3, 1, 0, 0, 0)), Ok(at(2024, 2, 29, 12, 0, 0)));
    assert_eq!(s.next_after(at(2024, 2, 29, 12, 0, 0)), Ok(at(2028, 2, 29, 12, 0, 0)));
}

#[test]
fn months_have_their_own_last_days() {
    let s = CronSchedule::parse("0 0 0 31 * *").unwrap();
    assert_eq!(s.next_after(at(2024, 1, 31, 0, 0, 0)), Ok(at(2024, 3, 31, 0, 0, 0)));
    let t = CronSchedule::parse("0 0 0 30 * *").unwrap();
    assert_eq!(t.next_after(at(2023, 1, 30, 0, 0, 0)), Ok(at(2023, 3, 30, 0, 0, 0)));
}

#[test]
fn weekday_alone_restricts_the_day() {
    let s = CronSchedule::parse("0 0 8 * * Fri").unwrap();
    // 2024-01-05 is a Friday.
    assert_eq!(s.next_after(at(2024, 1, 1, 0, 0, 0)), Ok(at(2024, 1, 5, 8, 0, 0)));
    assert_eq!(s.next_after(at(2024, 1, 5, 8, 0, 0)), Ok(at(2024, 1, 12, 8, 0, 0)));
}

#[test]
fn day_of_month_alone_restricts_the_day() {
    let s = CronSchedule::parse("0 0 0 15 * *").unwrap();
    assert_eq!(s.next_after(at(2024, 1, 8, 0, 0, 0)), Ok(at(2024, 1, 15, 0, 0, 0)));
    assert_eq!(s.next_after(at(2024, 1, 15, 0, 0, 0)), Ok(at(2024, 2, 15, 0, 0, 0)));
}

#[test]
fn the_year_field_restricts_the_year() {
    let s = CronSchedule::parse("0 0 0 1 1 * 2026").unwrap();
    assert_eq!(s.next_after(at(2024, 6, 1, 0, 0, 0)), Ok(at(2026, 1, 1, 0, 0, 0)));
    assert_eq!(s.next_after(at(2026, 1, 1, 0, 0, 0)), Err(NoMatchError));
    let past = CronSchedule::parse("0 0 0 1 1 * 2020").unwrap();
    assert_eq!(past.next_after(at(2024, 6, 1, 0, 0, 0)), Err(NoMatchError));
}

#[test]
fn the_search_ends_with_its_window() {
    let s = CronSchedule::parse("0 0 0 1 1 * 2030").unwrap();
    // 1830 days before 2030-01-01 is 2024-12-28.
    assert_eq!(s.next_after(at(2024, 12, 28, 23, 59, 59)), Ok(at(2030, 1, 1, 0, 0, 0)));
    assert_eq!(s.next_after(at(2024, 12, 28, 0, 0, 0)), Ok(at(2030, 1, 1, 0, 0, 0)));
    assert_eq!(s.next_after(at(2024, 12, 27, 23, 59, 59)), Err(NoMatchError));
}

#[test]
fn a_schedule_without_a_year_fires_in_every_year() {
    let s = CronSchedule::parse("* * * * * *").unwrap();
    let last = at(2099, 12, 31, 23, 59, 59);
    assert_eq!(s.next_after(last - 1), Ok(last));
    assert_eq!(s.next_after(last), Ok(at(2100, 1, 1, 0, 0, 0)));
    assert_eq!(s.next_after(last + 1), Ok(last + 2));
    let daily = CronSchedule::parse("0 0 1 * * *").unwrap();
    assert_eq!(daily.next_after(last), Ok(at(2100, 1, 1, 1, 0, 0)));
    assert_eq!(daily.next_after(at(2100, 2, 28, 1, 0, 0)), Ok(at(2100, 3, 1, 1, 0, 0)));
    assert_eq!(daily.next_after(at(9999, 12, 31, 1, 0, 0)), Ok(at(10000, 1, 1, 1, 0, 0)));
    assert_eq!(
        daily.next_after(at(1000000, 12, 31, 1, 0, 0)),
        Ok(at(1000001, 1, 1, 1, 0, 0))
    );
    let starred = CronSchedule::parse("0 0 1 * * * *").unwrap();
    assert_eq!(starred.next_after(last), Ok(at(2100, 1, 1, 1, 0, 0)));
    assert_eq!(starred.next_after(at(6000, 1, 1, 1, 0, 0)), Ok(at(6000, 1, 2, 1, 0, 0)));
}

#[test]
fn a_written_year_restricts_beyond_this_century_too() {
    let s = CronSchedule::parse("0 0 0 1 1 * 2100-2101").unwrap();
    assert_eq!(s.next_after(at(2099, 6, 1, 0, 0, 0)), Ok(at(2100, 1, 1, 0, 0, 0)));
    assert_eq!(s.next_after(at(2100, 1, 1, 0, 0, 0)), Ok(at(2101, 1, 1, 0, 0, 0)));
    assert_eq!(s.next_after(at(2101, 1, 1, 0, 0, 0)), Err(NoMatchError));
    let past = CronSchedule::parse("0 0 0 1 1 * 1969").unwrap();
    assert_eq!(past.next_after(0), Err(NoMatchError));
    let all = CronSchedule::parse("0 0 0 1 1 * 1-5000").unwrap();
    assert_eq!(all.next_after(at(4999, 6, 1, 0, 0, 0)), Ok(at(5000, 1, 1, 0, 0, 0)));
    assert_eq!(all.next_after(at(5000, 1, 1, 0, 0, 0)), Err(NoMatchError));
}

#[test]
fn the_search_ends_where_instants_end() {
    let s = CronSchedule::parse("* * * * * *").unwrap();
    assert_eq!(s.next_after(u64::MAX - 1), Ok(u64::MAX));
    assert_eq!(s.next_after(u64::MAX), Err(NoMatchError));
    // The last day that instants reach ends for them at 07:00:15.
    assert_eq!(DateTime::from_instant(u64::MAX).hour, 7);
    assert_eq!(DateTime::from_instant(u64::MAX).minute, 0);
    assert_eq!(DateTime::from_instant(u64::MAX).second, 15);
    let evening = CronSchedule::parse("0 0 8 * * *").unwrap();
    assert_eq!(evening.next_after(u64::MAX - 100), Err(NoMatchError));
    assert_eq!(evening.next_after(u64::MAX - 86400), Ok(u64::MAX - 86400 + 3585));
    let morning = CronSchedule::parse("0 0 7 * * *").unwrap();
    assert_eq!(morning.next_after(u64::MAX - 100), Ok(u64::MAX - 15));
    assert_eq!(morning.next_after(u64::MAX - 15), Err(NoMatchError));
}

#[test]
fn sunday_is_seven_as_well_as_zero() {
    // 2024-01-07 is a Sunday.
    for text in ["0 0 0 * * 7", "0 0 0 * * 0", "0 0 0 * * Sun", "0 0 0 * * 0,7"] {
        let s = CronSchedule::parse(text).unwrap();
        assert_eq!(s.next_after(at(2024, 1, 1, 0, 0, 0)), Ok(at(2024, 1, 7, 0, 0, 0)), "{}", text);
        assert_eq!(s.next_after(at(2024, 1, 7, 0, 0, 0)), Ok(at(2024, 1, 14, 0, 0, 0)), "{}", text);
    }
    let weekend = CronSchedule::parse("0 0 0 * * 6-7").unwrap();
    assert_eq!(weekend.next_after(at(2024, 1, 1, 0, 0, 0)), Ok(at(2024, 1, 6, 0, 0, 0)));
    assert_eq!(weekend.next_after(at(2024, 1, 6, 0, 0, 0)), Ok(at(2024, 1, 7, 0, 0, 0)));
    assert_eq!(weekend.next_after(at(2024, 1, 7, 0, 0, 0)), Ok(at(2024, 1, 13, 0, 0, 0)));
}

#[test]
fn the_result_is_later_and_nothing_between_matches() {
    let s = CronSchedule::parse("*/7 */11 */5 * * *").unwrap();
    let mut now = at(2024, 2, 28, 20, 0, 0);
    for _ in 0..500 {
        let next = s.next_after(now).unwrap();
        assert!(next > now);
        let t = DateTime::from_instant(next);
        assert_eq!(t.second % 7, 0);
        assert_eq!(t.minute % 11, 0);
        assert_eq!(t.hour % 5, 0);
        for u in (now + 1)..next {
            let d = DateTime::from_instant(u);
            assert!(d.second % 7 != 0 || d.minute % 11 != 0 || d.hour % 5 != 0);
            if u - now > 100 {
                break;
            }
        }
        now = next;
    }
}

#[test]
fn first_time_from_searches_one_day() {
    let s = CronSchedule::parse("10,50 20 3,9 * * *").unwrap();
    assert_eq!(s.first_time_from(0), Some(3 * 3600 + 20 * 60 + 10));
    assert_eq!(s.first_time_from(3 * 3600 + 20 * 60 + 10), Some(3 * 3600 + 20 * 60 + 10));
    assert_eq!(s.first_time_from(3 * 3600 + 20 * 60 + 11), Some(3 * 3600 + 20 * 60 + 50));
    assert_eq!(s.first_time_from(3 * 3600 + 20 * 60 + 51), Some(9 * 3600 + 20 * 60 + 10));
    assert_eq!(s.first_time_from(9 * 3600 + 20 * 60 + 51), None);
    assert_eq!(s.first_time_from(86400), None);
    assert_eq!(s.first_time_from(u32::MAX), None);
}

#[test]
fn admits_date_asks_year_month_and_day() {
    let s = CronSchedule::parse("0 0 0 15 6 1 2024").unwrap();
    assert!(s.admits_date(Date { year: 2024, month: 6, day: 15 }, 6));
    assert!(s.admits_date(Date { year: 2024, month: 6, day: 3 }, 1));
    assert!(!s.admits_date(Date { year: 2024, month: 6, day: 4 }, 2));
    assert!(!s.admits_date(Date { year: 2024, month: 7, day: 15 }, 1));
    assert!(!s.admits_date(Date { year: 2025, month: 6, day: 15 }, 0));
    let both = CronSchedule::parse("0 0 0 15 * *").unwrap();
    assert!(both.admits_date(Date { year: 2024, month: 6, day: 15 }, 6));
    assert!(!both.admits_date(Date { year: 2024, month: 6, day: 3 }, 1));
}
