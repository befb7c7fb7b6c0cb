use widget_kit::date::{Date, DateTime, Time};
use widget_kit::date_picker::{decade, initial_state, reduce, CalendarView, Mode, Pick, PickerState, Props};

fn props(mode: Mode) -> Props {
    Props {
        mode,
        value: None,
        now: DateTime::new(
            Date::new(2026, 9, 24).expect("tarih"),
            Time::new(14, 32, 0).expect("saat"),
        ),
        week_numbers: true,
        clearable: true,
    }
}

fn september() -> PickerState {
    PickerState {
        shown: Date::new(2026, 9, 1).expect("tarih"),
        view: CalendarView::Days,
        selection: None,
    }
}

#[test]
fn navigation_moves_by_view() {
    let mut state = september();

    let _ = reduce(&mut state, Pick::Next, props(Mode::Date));
    assert_eq!(state.shown, Date::new(2026, 10, 1).expect("tarih"));

    let _ = reduce(&mut state, Pick::Zoom, props(Mode::Date));
    let _ = reduce(&mut state, Pick::Previous, props(Mode::Date));
    assert_eq!(state.view, CalendarView::Months);
    assert_eq!(state.shown.year(), 2025);

    let _ = reduce(&mut state, Pick::Zoom, props(Mode::Date));
    let _ = reduce(&mut state, Pick::Year(2030), props(Mode::Date));
    let _ = reduce(&mut state, Pick::Month(2), props(Mode::Date));
    assert_eq!(state.view, CalendarView::Days);
    assert_eq!(state.shown, Date::new(2030, 2, 1).expect("tarih"));
}

#[test]
fn date_picks_close_and_date_time_picks_keep_the_time() {
    let day = Date::new(2026, 9, 8).expect("tarih");

    let mut state = september();
    let reaction = reduce(&mut state, Pick::Day(day), props(Mode::Date));
    assert!(reaction.close);

    let mut state = september();
    state.selection = Some(DateTime::new(day, Time::new(9, 30, 0).expect("saat")));
    let other = Date::new(2026, 9, 10).expect("tarih");
    let reaction = reduce(&mut state, Pick::Day(other), props(Mode::DateTime));
    assert!(!reaction.close);
    assert_eq!(
        reaction.publish.flatten(),
        Some(DateTime::new(other, Time::new(9, 30, 0).expect("saat")))
    );

    let reaction = reduce(&mut state, Pick::Minute(45), props(Mode::Time));
    assert!(reaction.close);
    assert_eq!(state.selection.map(|selection| selection.time), Time::new(9, 45, 0));
}

#[test]
fn decades_are_aligned() {
    assert_eq!(decade(2026), (2020, 2029));
    assert_eq!(decade(2030), (2030, 2039));
}

#[test]
fn decades_of_years_before_zero_are_aligned_too() {
    assert_eq!(decade(-1), (-10, -1));
    assert_eq!(decade(-10), (-10, -1));
    assert_eq!(decade(0), (0, 9));
}

#[test]
fn months_keep_the_day_or_take_the_last_one() {
    let jan31 = Date::new(2024, 1, 31).expect("tarih");
    assert_eq!(jan31.add_months(1), Date::new(2024, 2, 29).expect("tarih"));
    assert_eq!(jan31.add_months(13), Date::new(2025, 2, 28).expect("tarih"));
    assert_eq!(jan31.add_months(-2), Date::new(2023, 11, 30).expect("tarih"));
    assert_eq!(jan31.add_months(-1), Date::new(2023, 12, 31).expect("tarih"));
    assert_eq!(Date::new(2023, 2, 29), None);
    assert_eq!(Date::new(2000, 2, 29).map(|d| d.day()), Some(29));
    assert_eq!(Date::new(1900, 2, 29), None);
    assert_eq!(Date::new(2024, 13, 1), None);
    assert_eq!(Date::new(2024, 4, 0), None);
    // A date whose year would not fit stays as it is.
    let last = Date::new(i32::MAX, 12, 1).expect("tarih");
    assert_eq!(last.add_months(1), last);
    assert_eq!(Time::new(24, 0, 0), None);
    assert_eq!(Time::new(23, 59, 59).map(|t| (t.hour(), t.minute(), t.second())), Some((23, 59, 59)));
}

#[test]
fn the_panel_opens_on_the_value_or_today() {
    let mut p = props(Mode::Date);
    let state = initial_state(p);
    assert_eq!(state.shown, Date::new(2026, 9, 1).expect("tarih"));
    assert_eq!(state.view, CalendarView::Days);

    let value = DateTime::new(Date::new(2024, 2, 29).expect("tarih"), Time::midnight());
    p.value = Some(value);
    assert_eq!(initial_state(p).shown, Date::new(2024, 2, 1).expect("tarih"));
    assert_eq!(initial_state(p).selection, Some(value));

    // A time picker's panel shows today's month.
    p.mode = Mode::Time;
    assert_eq!(initial_state(p).shown, Date::new(2026, 9, 1).expect("tarih"));
}

#[test]
fn hours_today_clear_and_done() {
    let mut state = september();
    // Without a selection the hour is set on today, from midnight.
    let reaction = reduce(&mut state, Pick::Hour(7), props(Mode::DateTime));
    assert!(!reaction.close);
    let chosen = DateTime::new(Date::new(2026, 9, 24).expect("tarih"), Time::new(7, 0, 0).expect("saat"));
    assert_eq!(reaction.publish, Some(Some(chosen)));
    // An hour that does not exist leaves the time as it was.
    let reaction = reduce(&mut state, Pick::Hour(30), props(Mode::DateTime));
    assert_eq!(reaction.publish, Some(Some(chosen)));
    // In a time picker the hour is not the last step.
    let reaction = reduce(&mut state, Pick::Hour(8), props(Mode::Time));
    assert!(!reaction.close);

    let reaction = reduce(&mut state, Pick::Now, props(Mode::Date));
    assert!(reaction.close);
    assert_eq!(
        reaction.publish,
        Some(Some(DateTime::new(Date::new(2026, 9, 24).expect("tarih"), Time::midnight())))
    );
    let reaction = reduce(&mut state, Pick::Now, props(Mode::DateTime));
    assert_eq!(reaction.publish, Some(Some(props(Mode::DateTime).now)));

    let reaction = reduce(&mut state, Pick::Clear, props(Mode::Date));
    assert!(reaction.close);
    assert_eq!(reaction.publish, Some(None));
    let reaction = reduce(&mut state, Pick::Done, props(Mode::Date));
    assert!(reaction.close);
    assert_eq!(reaction.publish, None);

    // In a time picker, a day pick only changes the panel.
    let reaction = reduce(&mut state, Pick::Day(Date::new(2026, 9, 3).expect("tarih")), props(Mode::Time));
    assert!(!reaction.close);
    assert_eq!(reaction.publish, None);
}

#[test]
fn years_view_moves_by_ten_years() {
    let mut state = september();
    let _ = reduce(&mut state, Pick::Zoom, props(Mode::Date));
    let _ = reduce(&mut state, Pick::Zoom, props(Mode::Date));
    let _ = reduce(&mut state, Pick::Zoom, props(Mode::Date));
    assert_eq!(state.view, CalendarView::Years);
    let _ = reduce(&mut state, Pick::Next, props(Mode::Date));
    assert_eq!(state.shown, Date::new(2036, 9, 1).expect("tarih"));
    let _ = reduce(&mut state, Pick::Previous, props(Mode::Date));
    assert_eq!(state.shown, Date::new(2026, 9, 1).expect("tarih"));
}

#[test]
fn next_then_previous_comes_back_in_every_view() {
    for view in [CalendarView::Days, CalendarView::Months, CalendarView::Years] {
        let mut state = PickerState {
            shown: Date::new(2026, 1, 1).expect("tarih"),
            view,
            selection: None,
        };

        let _ = reduce(&mut state, Pick::Next, props(Mode::Date));
        assert_ne!(state.shown, Date::new(2026, 1, 1).expect("tarih"));
        let _ = reduce(&mut state, Pick::Previous, props(Mode::Date));
        assert_eq!(state.shown, Date::new(2026, 1, 1).expect("tarih"));
        assert_eq!(state.view, view);
    }
}
