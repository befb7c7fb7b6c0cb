use widget_kit::date::{calendar_days, Date};

fn date(year: i32, month: u8, day: u8) -> Date {
    Date::new(year, month, day).expect("tarih")
}

#[test]
fn days_are_counted_from_the_epoch() {
    assert_eq!(date(1970, 1, 1).days_since_epoch(), 0);
    assert_eq!(date(1969, 12, 31).days_since_epoch(), -1);
    assert_eq!(date(2025, 3, 12).days_since_epoch(), 20159);
    assert_eq!(date(2000, 3, 1).days_since_epoch(), 11017);
}

#[test]
fn counting_back_from_days_gives_the_date() {
    for days in [-800_000i64, -1, 0, 59, 11016, 11017, 20159, 2_000_000] {
        let d = Date::from_days_since_epoch(days);
        assert_eq!(d.days_since_epoch(), days);
    }
    assert_eq!(Date::from_days_since_epoch(20159), date(2025, 3, 12));
    assert_eq!(Date::from_days_since_epoch(11016), date(2000, 2, 29));
}

#[test]
fn weekdays_start_on_monday() {
    assert_eq!(date(1970, 1, 1).weekday(), 3);
    assert_eq!(date(2025, 3, 10).weekday(), 0);
    assert_eq!(date(2025, 3, 12).weekday(), 2);
    assert_eq!(date(2025, 3, 16).weekday(), 6);
    assert!(date(2025, 3, 15).is_weekend());
    assert!(!date(2025, 3, 14).is_weekend());
}

#[test]
fn adding_days_crosses_months_and_years() {
    assert_eq!(date(2024, 2, 28).add_days(1), date(2024, 2, 29));
    assert_eq!(date(2023, 2, 28).add_days(1), date(2023, 3, 1));
    assert_eq!(date(2025, 12, 31).add_days(1), date(2026, 1, 1));
    assert_eq!(date(2026, 1, 1).add_days(-1), date(2025, 12, 31));
    assert_eq!(date(0, 1, 1).add_days(-1), date(-1, 12, 31));
}

#[test]
fn iso_weeks_belong_to_the_year_of_their_thursday() {
    assert_eq!(date(2025, 3, 12).iso_week(), 11);
    assert_eq!(date(2021, 1, 1).iso_week(), 53);
    assert_eq!(date(2020, 12, 31).iso_week(), 53);
    assert_eq!(date(2024, 12, 30).iso_week(), 1);
    assert_eq!(date(2026, 8, 31).iso_week(), 36);
}

#[test]
fn a_month_shows_six_weeks_from_monday() {
    let days = calendar_days(&date(2026, 9, 1));
    assert_eq!(days.len(), 42);
    assert_eq!(days[0], date(2026, 8, 31));
    assert_eq!(days[1], date(2026, 9, 1));
    assert_eq!(days[41], date(2026, 10, 11));
    assert_eq!(days[0].iso_week(), 36);
    assert_eq!(days[35].iso_week(), 41);
    assert!(days.iter().step_by(7).all(|d| d.weekday() == 0));
}
