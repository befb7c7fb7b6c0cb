//! Date and time pickers: the calendar and clock panels that open beside a
//! field.
//!
//! Clicking the title goes from days to months, then to years; the arrows
//! move by a month, a year or ten years according to the view. A date pick
//! closes the panel; in a date-and-time picker the choice is passed on at
//! once and the panel closes with "Tamam"; a time picker takes the hour, then
//! the minute, and closes. Moving about in the panel produces no message for
//! the application; only the chosen value is passed on.
use vstd::prelude::*;

use crate::date::{
    add_months_to, floor_div, valid_date, valid_time, Date, DateTime, Time,
};
use crate::dropdown::Reaction;

verus! {

/// What the picker picks.
#[derive(Debug, Clone, Copy, PartialEq, Eq, Structural)]
pub enum Mode {
    Date,
    DateTime,
    Time,
}

/// What the calendar shows.
#[derive(Debug, Clone, Copy, PartialEq, Eq, Structural)]
pub enum CalendarView {
    Days,
    Months,
    Years,
}

/// The panel's own messages.
#[derive(Debug, Clone, Copy, PartialEq, Eq, Structural)]
pub enum Pick {
    Previous,
    Next,
    /// The title: days, then months, then years.
    Zoom,
    Day(Date),
    Month(u8),
    Year(i32),
    Hour(u8),
    Minute(u8),
    /// Today, or now.
    Now,
    Clear,
    Done,
}

/// The open panel.
#[derive(Debug, Clone, Copy, PartialEq, Eq, Structural)]
pub struct PickerState {
    /// The first day of the month shown.
    pub shown: Date,
    pub view: CalendarView,
    /// The choice in the panel; the time is kept while the date changes.
    pub selection: Option<DateTime>,
}

/// The picker's settings, shared by the panel and its messages.
#[derive(Debug, Clone, Copy, PartialEq, Eq, Structural)]
pub struct Props {
    pub mode: Mode,
    pub value: Option<DateTime>,
    /// Today and now, in local time.
    pub now: DateTime,
    pub week_numbers: bool,
    pub clearable: bool,
}

/// The year `y` less its remainder on division by ten.
pub open spec fn decade_start(year: int) -> int {
    year - year % 10
}

/// The decade of a year: 2026 gives 2020 to 2029.
pub fn decade(year: i32) -> (r: (i32, i32))
    requires
        i32::MIN <= decade_start(year as int),
        decade_start(year as int) + 9 <= i32::MAX,
    ensures
        r.0 == decade_start(year as int),
        r.1 == decade_start(year as int) + 9,
{
    let q = floor_div(year as i64, 10);
    let first = (q * 10) as i32;
    (first, first + 9)
}

/// The state of a panel that opens: the month of the value (of today, if
/// there is none or the picker picks only a time), the day view, and the
/// value as the choice.
pub fn initial_state(props: Props) -> (s: PickerState)
    ensures
        s.shown@ == (match props.value {
            Some(v) if props.mode != Mode::Time => (v.date@.0, v.date@.1, 1int),
            _ => (props.now.date@.0, props.now.date@.1, 1int),
        }),
        s.view == CalendarView::Days,
        s.selection == props.value,
{
    let date = match props.value {
        Some(v) => {
            if props.mode != Mode::Time {
                v.date
            } else {
                props.now.date
            }
        },
        None => props.now.date,
    };
    PickerState { shown: date.first_of_month(), view: CalendarView::Days, selection: props.value }
}

/// How many months the arrows move in a view: a month, a year or ten years.
pub open spec fn view_step(view: CalendarView) -> int {
    match view {
        CalendarView::Days => 1,
        CalendarView::Months => 12,
        CalendarView::Years => 120,
    }
}

/// The view after the title was clicked.
pub open spec fn zoomed(view: CalendarView) -> CalendarView {
    match view {
        CalendarView::Days => CalendarView::Months,
        CalendarView::Months | CalendarView::Years => CalendarView::Years,
    }
}

/// The time an hour pick makes of `base`: the hour changes and the second
/// becomes 0, unless the hour does not exist.
pub open spec fn with_hour(base: (int, int, int), hour: int) -> (int, int, int) {
    if valid_time(hour, base.1, 0) {
        (hour, base.1, 0)
    } else {
        base
    }
}

/// The time a minute pick makes of `base`.
pub open spec fn with_minute(base: (int, int, int), minute: int) -> (int, int, int) {
    if valid_time(base.0, minute, 0) {
        (base.0, minute, 0)
    } else {
        base
    }
}

/// Applies a panel message; the chosen value, if any, is what the reaction
/// passes on.
pub fn reduce(state: &mut PickerState, pick: Pick, props: Props) -> (r: Reaction<Option<DateTime>>)
    ensures
        // The month shown stays the first of a month.
        old(state).shown@.2 == 1 ==> final(state).shown@.2 == 1,
        match pick {
            Pick::Previous | Pick::Next => {
                let direction = if pick == Pick::Next { 1int } else { -1int };
                &&& final(state).shown@ == add_months_to(
                    old(state).shown@,
                    view_step(old(state).view) * direction,
                )
                &&& final(state).view == old(state).view
                &&& final(state).selection == old(state).selection
                &&& r.publish is None && !r.close
            },
            Pick::Zoom => {
                &&& final(state).shown == old(state).shown
                &&& final(state).view == zoomed(old(state).view)
                &&& final(state).selection == old(state).selection
                &&& r.publish is None && !r.close
            },
            Pick::Month(month) => {
                &&& final(state).shown@ == if valid_date(old(state).shown@.0, month as int, 1) {
                    (old(state).shown@.0, month as int, 1int)
                } else {
                    old(state).shown@
                }
                &&& final(state).view == CalendarView::Days
                &&& final(state).selection == old(state).selection
                &&& r.publish is None && !r.close
            },
            Pick::Year(year) => {
                &&& final(state).shown@ == if valid_date(year as int, old(state).shown@.1, 1) {
                    (year as int, old(state).shown@.1, 1int)
                } else {
                    old(state).shown@
                }
                &&& final(state).view == CalendarView::Months
                &&& final(state).selection == old(state).selection
                &&& r.publish is None && !r.close
            },
            Pick::Day(day) => {
                &&& final(state).shown@ == (day@.0, day@.1, 1int)
                &&& final(state).view == old(state).view
                &&& final(state).selection matches Some(s) && s.date == day && s.time@ == match old(
                    state,
                ).selection {
                    Some(previous) => previous.time@,
                    None => (0int, 0int, 0int),
                }
                &&& match props.mode {
                    Mode::Date => r.publish == Some(final(state).selection) && r.close,
                    Mode::DateTime => r.publish == Some(final(state).selection) && !r.close,
                    Mode::Time => r.publish is None && !r.close,
                }
            },
            Pick::Hour(value) | Pick::Minute(value) => {
                let base_date = match old(state).selection {
                    Some(s) => s.date,
                    None => props.now.date,
                };
                let base_time = match old(state).selection {
                    Some(s) => s.time@,
                    None => (0int, 0int, 0int),
                };
                &&& final(state).shown == old(state).shown
                &&& final(state).view == old(state).view
                &&& final(state).selection matches Some(s) && s.date == base_date && s.time@ == if pick
                    is Hour {
                    with_hour(base_time, value as int)
                } else {
                    with_minute(base_time, value as int)
                }
                &&& r.publish == Some(final(state).selection)
                &&& r.close == (props.mode == Mode::Time && pick is Minute)
            },
            Pick::Now => {
                &&& *final(state) == *old(state)
                &&& r.close
                &&& r.publish matches Some(Some(v)) && if props.mode == Mode::Date {
                    v.date == props.now.date && v.time@ == (0int, 0int, 0int)
                } else {
                    v == props.now
                }
            },
            Pick::Clear => *final(state) == *old(state) && r.publish == Some(None::<DateTime>) && r.close,
            Pick::Done => *final(state) == *old(state) && r.publish is None && r.close,
        },
{
    match pick {
        Pick::Previous | Pick::Next => {
            let direction: i32 = if pick == Pick::Next {
                1
            } else {
                -1
            };
            let months: i32 = match state.view {
                CalendarView::Days => direction,
                CalendarView::Months => 12 * direction,
                CalendarView::Years => 120 * direction,
            };
            state.shown = state.shown.add_months(months);
            Reaction::stay()
        },
        Pick::Zoom => {
            state.view = match state.view {
                CalendarView::Days => CalendarView::Months,
                CalendarView::Months | CalendarView::Years => CalendarView::Years,
            };
            Reaction::stay()
        },
        Pick::Month(month) => {
            state.shown = match Date::new(state.shown.year(), month, 1) {
                Some(d) => d,
                None => state.shown,
            };
            state.view = CalendarView::Days;
            Reaction::stay()
        },
        Pick::Year(year) => {
            state.shown = match Date::new(year, state.shown.month(), 1) {
                Some(d) => d,
                None => state.shown,
            };
            state.view = CalendarView::Months;
            Reaction::stay()
        },
        Pick::Day(day) => {
            state.shown = day.first_of_month();
            let time = match state.selection {
                Some(selection) => selection.time,
                None => Time::midnight(),
            };
            let selection = DateTime::new(day, time);
            state.selection = Some(selection);
            match props.mode {
                Mode::Date => Reaction::commit(Some(selection)),
                Mode::DateTime => Reaction::publish(Some(selection)),
                Mode::Time => Reaction::stay(),
            }
        },
        Pick::Hour(value) | Pick::Minute(value) => {
            let base = match state.selection {
                Some(selection) => selection,
                None => DateTime::new(props.now.date, Time::midnight()),
            };
            let is_hour = match pick {
                Pick::Hour(_) => true,
                _ => false,
            };
            let candidate = if is_hour {
                Time::new(value, base.time.minute(), 0)
            } else {
                Time::new(base.time.hour(), value, 0)
            };
            let time = match candidate {
                Some(t) => t,
                None => base.time,
            };
            let selection = DateTime::new(base.date, time);
            state.selection = Some(selection);
            if props.mode == Mode::Time && !is_hour {
                Reaction::commit(Some(selection))
            } else {
                Reaction::publish(Some(selection))
            }
        },
        Pick::Now => {
            let now = match props.mode {
                Mode::Date => DateTime::new(props.now.date, Time::midnight()),
                Mode::DateTime | Mode::Time => props.now,
            };
            Reaction::commit(Some(now))
        },
        Pick::Clear => Reaction::commit(None),
        Pick::Done => Reaction::close(),
    }
}

/// The arrows undo each other: in any view, moving forward and then back
/// shows the month shown before (for the first of a month whose moves stay
/// within the representable years).
pub proof fn law_next_then_previous(shown: (int, int, int), view: CalendarView)
    requires
        valid_date(shown.0, shown.1, shown.2),
        shown.2 == 1,
        i32::MIN <= crate::date::index_year(crate::date::month_index(shown.0, shown.1) + view_step(view))
            <= i32::MAX,
    ensures
        add_months_to(add_months_to(shown, view_step(view)), -view_step(view)) == shown,
{
    let k = view_step(view);
    let i = crate::date::month_index(shown.0, shown.1);
    let j = i + k;
    vstd::arithmetic::div_mod::lemma_fundamental_div_mod(j, 12);
    vstd::arithmetic::div_mod::lemma_fundamental_div_mod(i, 12);
    let next = add_months_to(shown, k);
    assert(next == (j / 12, j % 12 + 1, 1int));
    assert(crate::date::month_index(next.0, next.1) == j);
    vstd::arithmetic::div_mod::lemma_fundamental_div_mod_converse(i, 12, shown.0, shown.1 - 1);
}

/// Clicking the title only ever zooms out: from days to months, from months
/// to years, and years stay years.
pub proof fn law_zoom_goes_out(view: CalendarView)
    ensures
        zoomed(view) != CalendarView::Days,
        zoomed(zoomed(view)) == CalendarView::Years,
{
}

} // verus!
