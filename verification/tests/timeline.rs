use widget_kit::date::Date;
use widget_kit::timeline::{calendar_instants, calendar_label, calendar_text, Unit};

/// 2025-03-12 14:30:00 UTC.
const MOMENT: i64 = 1_741_789_800;
const DAY: i64 = 86_400;

fn midnight(year: i32, month: u8, day: u8) -> i64 {
    Date::new(year, month, day).expect("tarih").days_since_epoch() * DAY
}

#[test]
fn weeks_start_on_monday() {
    // 10 Mart 2025 pazartesidir.
    let instants = calendar_instants(MOMENT - 5 * DAY, MOMENT, Unit::Day, 7);
    let monday = Date::new(2025, 3, 10).map(|date| date.days_since_epoch() * 86_400);

    assert_eq!(instants.first().copied(), monday);
}

#[test]
fn month_lines_start_on_the_first_and_january_shows_the_year() {
    let instants = calendar_instants(MOMENT, MOMENT + 365 * DAY, Unit::Month, 1);
    assert_eq!(instants.len(), 12);
    assert_eq!(instants[0], midnight(2025, 4, 1));
    let labels: Vec<String> = instants.iter().map(|&t| calendar_label(t, Unit::Month)).collect();
    assert_eq!(labels[0], "Nis");
    assert!(labels.contains(&"2026".to_string()));
    assert_eq!(labels[11], "Mar");
}

#[test]
fn day_lines_show_day_and_month() {
    let instants = calendar_instants(MOMENT, MOMENT + 7 * DAY, Unit::Day, 1);
    assert_eq!(instants.len(), 7);
    assert_eq!(calendar_label(instants[0], Unit::Day), "13 Mar");
}

#[test]
fn hour_lines_show_the_time_and_midnight_the_day() {
    // Türkiye saatiyle 14:30 UTC 17:30'dur.
    let local = MOMENT + 180 * 60;
    let instants = calendar_instants(local, local + DAY, Unit::Hour, 1);
    let labels: Vec<String> = instants.iter().map(|&t| calendar_label(t, Unit::Hour)).collect();
    assert_eq!(labels[0], "18:00");
    assert!(labels.contains(&"13 Mar".to_string()));
    assert_eq!(calendar_label(MOMENT, Unit::Second), "14:30:00");
}

#[test]
fn decades_start_in_years_ending_in_zero() {
    let instants = calendar_instants(midnight(2013, 6, 1), midnight(2045, 1, 1), Unit::Year, 10);
    let expected = vec![midnight(2020, 1, 1), midnight(2030, 1, 1), midnight(2040, 1, 1)];
    assert_eq!(instants, expected);
    assert_eq!(calendar_label(instants[0], Unit::Year), "2020");
    assert_eq!(calendar_label(midnight(-5, 1, 1), Unit::Year), "-5");
}

#[test]
fn fixed_steps_are_multiples_from_the_epoch() {
    assert_eq!(calendar_instants(-7, 7, Unit::Second, 5), vec![-5, 0, 5]);
    assert_eq!(calendar_instants(10, 12, Unit::Second, 0), vec![10, 11, 12]);
    assert_eq!(calendar_instants(61, 179, Unit::Minute, 1), vec![120]);
    assert!(calendar_instants(5, 4, Unit::Second, 1).is_empty());
}

#[test]
fn the_playhead_date_is_written_in_turkish() {
    assert_eq!(calendar_text(MOMENT + 180 * 60, 60), "12 Mart 2025 17:30");
    assert_eq!(calendar_text(MOMENT, 86_400), "12 Mart 2025");
    assert_eq!(calendar_text(MOMENT, 1), "12 Mart 2025 14:30:00");
    assert_eq!(calendar_text(midnight(2024, 2, 29), 86_400), "29 Şubat 2024");
}
