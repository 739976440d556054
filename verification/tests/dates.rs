use chrono::Datelike;
use git_stats::date::Date;

fn chrono_days(y: i32, m: u32, d: u32) -> i32 {
    chrono::NaiveDate::from_ymd_opt(y, m, d).unwrap().num_days_from_ce()
}

#[test]
fn day_numbers_match_chrono() {
    let cases = [
        (1970, 1, 1),
        (2024, 1, 1),
        (2024, 2, 29),
        (2024, 12, 31),
        (2000, 2, 29),
        (1999, 12, 31),
        (2023, 3, 1),
        (1, 1, 1),
        (1900, 2, 28),
        (2100, 3, 1),
        (0, 1, 1),
        (0, 12, 31),
        (0, 2, 29),
        (-1, 6, 15),
        (-4, 3, 1),
        (-100, 2, 28),
        (-400, 2, 29),
        (-262143, 1, 1),
        (262142, 12, 31),
    ];
    for (y, m, d) in cases {
        let date = Date::from_ymd(y, m, d).unwrap();
        assert_eq!(date.days, chrono_days(y, m, d), "mismatch for {y}-{m}-{d}");
    }
}

#[test]
fn epoch_day_number() {
    assert_eq!(Date::from_ymd(1970, 1, 1).unwrap().days, 719163);
}

#[test]
fn invalid_dates_are_rejected() {
    assert!(Date::from_ymd(2023, 2, 29).is_none());
    assert!(Date::from_ymd(1900, 2, 29).is_none());
    assert!(Date::from_ymd(2024, 0, 1).is_none());
    assert!(Date::from_ymd(2024, 13, 1).is_none());
    assert!(Date::from_ymd(2024, 4, 31).is_none());
    assert!(Date::from_ymd(2024, 1, 0).is_none());
    assert!(Date::from_ymd(-262144, 1, 1).is_none());
    assert!(Date::from_ymd(300000, 1, 1).is_none());
    assert!(Date::from_ymd(-100, 2, 29).is_none());
}

#[test]
fn leap_day_is_accepted_in_leap_years() {
    assert!(Date::from_ymd(2024, 2, 29).is_some());
    assert!(Date::from_ymd(2000, 2, 29).is_some());
    assert!(Date::from_ymd(0, 2, 29).is_some());
    assert!(Date::from_ymd(-400, 2, 29).is_some());
}

#[test]
fn day_zero_is_the_last_day_before_the_common_era() {
    assert_eq!(Date::from_ymd(0, 12, 31).unwrap().days, 0);
    assert_eq!(Date::from_ymd(1, 1, 1).unwrap().days, 1);
}

#[test]
fn consecutive_dates_are_consecutive_day_numbers() {
    let a = Date::from_ymd(2024, 2, 28).unwrap();
    let b = Date::from_ymd(2024, 2, 29).unwrap();
    let c = Date::from_ymd(2024, 3, 1).unwrap();
    assert_eq!(b.days, a.days + 1);
    assert_eq!(c.days, b.days + 1);
    let d = Date::from_ymd(2023, 12, 31).unwrap();
    let e = Date::from_ymd(2024, 1, 1).unwrap();
    assert_eq!(e.days, d.days + 1);
    let f = Date::from_ymd(-1, 12, 31).unwrap();
    let g = Date::from_ymd(0, 1, 1).unwrap();
    assert_eq!(g.days, f.days + 1);
}
