use jobsched::calendar::DateTime;
use jobsched::schedule::CronSchedule;
use tokio_cron_scheduler::Job;

fn at(year: u64, month: u32, day: u32, hour: u32, minute: u32, second: u32) -> u64 {
    DateTime::new(year, month, day, hour, minute, second).unwrap().to_instant()
}

/// The next occurrence after `now` as the scheduler crate's own engine finds it.
fn elsewhere(schedule: &str, now: u64) -> Option<u64> {
    let mut job = Job::new(schedule, |_id, _scheduler| {}).ok()?;
    let mut data = job.job_data().ok()?;
    data.last_tick = Some(now);
    let start = data.last_tick_utc()?;
    let cron = data.schedule()?;
    let next = cron.find_next_occurrence(&start, false).ok()?;
    u64::try_from(next.timestamp()).ok()
}

fn here(schedule: &str, now: u64) -> Option<u64> {
    CronSchedule::parse(schedule).ok()?.next_after(now).ok()
}

const SCHEDULES: [&str; 21] = [
    "* * * * * *",
    "0 30 9 * * *",
    "1/4 * * * * *",
    "*/7 */11 */5 * * *",
    "30 15,45 6,18 * * *",
    "59 59 23 * * *",
    "0 0 12 29 2 *",
    "0 0 0 31 * *",
    "0 0 8 * * Fri",
    "0 0 0 15 * *",
    "0 15 6,8,10 * Mar,Jun Fri",
    "0 0 0 1 1 * 2026",
    "0 0/20 8-17 * * Mon-Fri",
    "15 10 0 1-7 Jan-Jun *",
    "0 0 0 * 2 Sun 2024/4",
    "5 4 3 2/9 * *",
    "0 0 0 * * 7",
    "0 30 6 * * 5-7",
    "0 0 0 * * 1/3",
    "0 0 12 * * 0,7",
    "0 0 0 1 1 * 2100-2101",
];

#[test]
fn next_occurrences_agree_with_the_scheduler_crate() {
    let starts = [
        at(2024, 1, 1, 0, 0, 0),
        at(2024, 1, 1, 9, 30, 0),
        at(2024, 2, 28, 23, 59, 59),
        at(2024, 2, 29, 12, 0, 0),
        at(2023, 12, 31, 23, 59, 58),
        at(2025, 6, 15, 6, 15, 0),
        at(2026, 10, 31, 17, 40, 1),
        at(2099, 12, 31, 23, 59, 59),
        at(2399, 2, 28, 12, 0, 0),
    ];
    for schedule in SCHEDULES {
        for start in starts {
            let mut now = start;
            for _ in 0..40 {
                let mine = here(schedule, now);
                if let Some(t) = mine {
                    assert_eq!(Some(t), elsewhere(schedule, now), "{} after {}", schedule, now);
                    now = t;
                } else {
                    break;
                }
            }
        }
    }
}

#[test]
fn fields_parted_by_any_white_space_agree_with_the_scheduler_crate() {
    let now = at(2024, 1, 1, 0, 0, 0);
    for schedule in ["0\u{a0}30\u{3000}9 * * *", " 0\t30\u{2003}9\u{85}*\u{2028}* *\n"] {
        let mine = here(schedule, now);
        assert_eq!(mine, Some(at(2024, 1, 1, 9, 30, 0)), "{:?}", schedule);
        assert_eq!(mine, elsewhere(schedule, now), "{:?}", schedule);
    }
}

#[test]
fn the_scheduler_crate_refuses_what_is_out_of_range() {
    for schedule in [
        "60 * * * * *",
        "* 60 * * * *",
        "* * 24 * * *",
        "* * * 32 * *",
        "* * * * 13 *",
        "* * * * * 8",
        "* * * * * * 0",
        "* * * * * * 5001",
        "* * * *",
        "a * * * * *",
    ] {
        assert!(CronSchedule::parse(schedule).is_err(), "{}", schedule);
        assert!(Job::new(schedule, |_id, _scheduler| {}).is_err(), "{}", schedule);
    }
}

#[test]
fn either_day_field_is_enough_here_where_the_scheduler_crate_asks_for_both() {
    let schedule = "0 0 0 15 * 1";
    let now = at(2024, 1, 7, 12, 0, 0);
    // 2024-01-08 is a Monday; 2024-01-15 is a Monday and the 15th.
    assert_eq!(here(schedule, now), Some(at(2024, 1, 8, 0, 0, 0)));
    assert_eq!(elsewhere(schedule, now), Some(at(2024, 1, 15, 0, 0, 0)));
}
