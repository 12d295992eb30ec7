use jobsched::calendar::{leap_year, month_length, weekday, year_length, Date, DateTime};

#[test]
fn leap_years_follow_the_gregorian_rule() {
    assert!(leap_year(2024));
    assert!(leap_year(2000));
    assert!(!leap_year(1900));
    assert!(!leap_year(2100));
    assert!(!leap_year(2023));
    assert_eq!(year_length(2024), 366);
    assert_eq!(year_length(2023), 365);
}

#[test]
fn months_have_their_lengths() {
    let lengths: Vec<u32> = (1..=12).map(|m| month_length(2023, m)).collect();
    assert_eq!(lengths, vec![31, 28, 31, 30, 31, 30, 31, 31, 30, 31, 30, 31]);
    assert_eq!(month_length(2024, 2), 29);
    assert_eq!(month_length(2100, 2), 28);
}

#[test]
fn day_zero_is_the_epoch() {
    assert_eq!(Date::from_day(0), Date { year: 1970, month: 1, day: 1 });
    assert_eq!(Date { year: 1970, month: 1, day: 1 }.to_day(), 0);
}

#[test]
fn known_days_have_their_dates() {
    assert_eq!(Date::from_day(19723), Date { year: 2024, month: 1, day: 1 });
    assert_eq!(Date::from_day(19782), Date { year: 2024, month: 2, day: 29 });
    assert_eq!(Date::from_day(19783), Date { year: 2024, month: 3, day: 1 });
    assert_eq!(Date::from_day(11016), Date { year: 2000, month: 2, day: 29 });
    assert_eq!(Date::from_day(364), Date { year: 1970, month: 12, day: 31 });
    assert_eq!(Date::from_day(365), Date { year: 1971, month: 1, day: 1 });
    assert_eq!(Date::from_day(47482), Date { year: 2100, month: 1, day: 1 });
    assert_eq!(Date::from_day(146097), Date { year: 2370, month: 1, day: 1 });
    assert_eq!(Date::from_day(146096), Date { year: 2369, month: 12, day: 31 });
    assert_eq!(Date::from_day(2932896), Date { year: 9999, month: 12, day: 31 });
    assert_eq!(Date { year: 9999, month: 12, day: 31 }.to_day(), 2932896);
    assert_eq!(
        Date::from_day(213503982334601),
        Date { year: 584554051223, month: 11, day: 9 }
    );
    assert_eq!(Date { year: 584554051223, month: 11, day: 9 }.to_day(), 213503982334601);
    assert_eq!(Date { year: 2024, month: 2, day: 29 }.to_day(), 19782);
}

#[test]
fn day_numbers_and_dates_are_inverse() {
    let mut day: u64 = 0;
    let mut date = Date::from_day(0);
    while day < 300000 {
        assert_eq!(date.to_day(), day);
        assert_eq!(Date::from_day(day), date);
        date = date.next();
        day += 1;
    }
}

#[test]
fn next_day_crosses_months_and_years() {
    assert_eq!(
        Date { year: 2023, month: 2, day: 28 }.next(),
        Date { year: 2023, month: 3, day: 1 }
    );
    assert_eq!(
        Date { year: 2024, month: 2, day: 28 }.next(),
        Date { year: 2024, month: 2, day: 29 }
    );
    assert_eq!(
        Date { year: 2023, month: 12, day: 31 }.next(),
        Date { year: 2024, month: 1, day: 1 }
    );
}

#[test]
fn weekdays_count_from_sunday() {
    assert_eq!(weekday(0), 4);
    assert_eq!(weekday(3), 0);
    assert_eq!(weekday(19723), 1);
    assert_eq!(weekday(19729), 0);
}

#[test]
fn date_time_refuses_what_is_no_date_or_time() {
    assert!(DateTime::new(2023, 2, 29, 0, 0, 0).is_none());
    assert!(DateTime::new(2024, 2, 29, 0, 0, 0).is_some());
    assert!(DateTime::new(1969, 12, 31, 0, 0, 0).is_none());
    assert!(DateTime::new(2024, 13, 1, 0, 0, 0).is_none());
    assert!(DateTime::new(2024, 0, 1, 0, 0, 0).is_none());
    assert!(DateTime::new(2024, 4, 31, 0, 0, 0).is_none());
    assert!(DateTime::new(2024, 1, 0, 0, 0, 0).is_none());
    assert!(DateTime::new(2024, 1, 1, 24, 0, 0).is_none());
    assert!(DateTime::new(2024, 1, 1, 0, 60, 0).is_none());
    assert!(DateTime::new(2024, 1, 1, 0, 0, 60).is_none());
}

#[test]
fn instants_and_date_times_are_inverse() {
    let t = DateTime::new(2024, 1, 1, 9, 30, 15).unwrap();
    assert_eq!(t.to_instant(), 1704101415);
    assert_eq!(DateTime::from_instant(1704101415), t);
    assert_eq!(DateTime::new(2100, 1, 1, 0, 0, 0).unwrap().to_instant(), 4102444800);
    assert_eq!(DateTime::new(9999, 12, 31, 23, 59, 59).unwrap().to_instant(), 253402300799);
    assert_eq!(
        DateTime::from_instant(u64::MAX),
        DateTime::new(584554051223, 11, 9, 7, 0, 15).unwrap()
    );
    assert_eq!(DateTime::new(584554051223, 11, 9, 7, 0, 15).unwrap().to_instant(), u64::MAX);
    assert_eq!(DateTime::from_instant(0), DateTime::new(1970, 1, 1, 0, 0, 0).unwrap());
    assert_eq!(
        DateTime::from_instant(951868799),
        DateTime::new(2000, 2, 29, 23, 59, 59).unwrap()
    );
}
