use mtd::date::{today, weekday_of_number, weekday_to_date, Date, Weekday};

// Unit test the date scan directly to remove the need to pass today into the
// Todo constructor.
#[test]
fn weekday_to_date_returns_correct_dates() {
    // Today is a Tuesday
    let today = Date::from_ymd(2022, 6, 7);

    // Tue should return today's date
    assert_eq!(weekday_to_date(Weekday::Tue, today), today);

    // Wed should return tomorrow's date
    assert_eq!(weekday_to_date(Weekday::Wed, today), today.succ());

    // Mon should return next weeks monday
    assert_eq!(weekday_to_date(Weekday::Mon, today), Date::from_ymd(2022, 6, 13));
}

#[test]
fn weekday_to_date_stays_within_one_week_and_matches_weekday() {
    let t = Date::from_ymd(2022, 6, 7);
    for n in 0..7u64 {
        let w = weekday_of_number(n);
        let r = weekday_to_date(w, t);
        assert!(t.days <= r.days && r.days <= t.days + 6);
        assert_eq!(r.weekday(), w);
    }
    assert_eq!(weekday_to_date(t.weekday(), t), t);
}

#[test]
fn from_ymd_returns_correct_day_numbers_and_weekdays() {
    assert_eq!(Date::from_ymd(1, 1, 1).days, 0);
    assert_eq!(Date::from_ymd(1, 1, 1).weekday(), Weekday::Mon);
    assert_eq!(Date::from_ymd(2022, 6, 7).weekday(), Weekday::Tue);
    assert_eq!(Date::from_ymd(2021, 4, 1).weekday(), Weekday::Thu);
    assert_eq!(Date::from_ymd(2022, 6, 10).weekday(), Weekday::Fri);
    // 1970-01-01 is day 719162 counted from 0001-01-01, and a Thursday.
    assert_eq!(Date::from_ymd(1970, 1, 1).days, 719162);
    assert_eq!(Date::from_ymd(1970, 1, 1).weekday(), Weekday::Thu);
}

#[test]
fn from_ymd_handles_leap_years() {
    // 2020 is a leap year: February has 29 days.
    assert_eq!(Date::from_ymd(2020, 3, 1).days - Date::from_ymd(2020, 2, 28).days, 2);
    // 2100 is not a leap year despite being divisible by 4.
    assert_eq!(Date::from_ymd(2100, 3, 1).days - Date::from_ymd(2100, 2, 28).days, 1);
    // 2000 is a leap year as a multiple of 400.
    assert_eq!(Date::from_ymd(2000, 3, 1).days - Date::from_ymd(2000, 2, 28).days, 2);
}

#[test]
fn today_matches_the_system_clock() {
    // Guard against a midnight rollover between the two readings.
    let before = (chrono::Datelike::num_days_from_ce(&chrono::Local::now().date_naive()) - 1) as u64;
    let t = today();
    let after = (chrono::Datelike::num_days_from_ce(&chrono::Local::now().date_naive()) - 1) as u64;
    assert!(before <= t.days && t.days <= after);
}
