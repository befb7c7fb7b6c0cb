//! Timelines: the scale of the axis and the calendar instants on it.
use vstd::prelude::*;

use crate::date::{
    civil_date, clock_of, index_month, lemma_civil_date, lemma_next_month, valid_date, weekday_of, end_epoch_day, first_epoch_day, floor_div, full_month, index_year,
    lemma_month_index, lemma_months_grow, month_abbreviation, month_first_day, month_name,
    short_month, Date, DateTime, Time,
};
use crate::text::{
    decimal, push_char, push_decimal, push_signed, push_two_digits, signed_decimal, two_digits,
};

verus! {

/// The axis's scale.
#[derive(Debug, Clone, Copy, PartialEq, Eq, Structural)]
pub enum Scale {
    /// Numbers (frames, seconds): steps of 1, 2 or 5 times a power of ten.
    Number,
    /// Unix seconds (UTC); labels are written in local time, `offset`
    /// minutes added to UTC (Türkiye: 180).
    Calendar { offset: i32 },
}

impl Default for Scale {
    fn default() -> (s: Self)
        ensures
            s == Scale::Number,
    {
        Scale::Number
    }
}

/// Units of the calendar.
#[derive(Debug, Clone, Copy, PartialEq, Eq, Structural)]
pub enum Unit {
    Second,
    Minute,
    Hour,
    Day,
    Month,
    Year,
}

/// Seconds of a unit; a month and a year take their average length in the
/// Gregorian calendar.
pub open spec fn unit_seconds(unit: Unit) -> int {
    match unit {
        Unit::Second => 1,
        Unit::Minute => 60,
        Unit::Hour => 3600,
        Unit::Day => 86400,
        Unit::Month => 2_629_746,
        Unit::Year => 31_556_952,
    }
}

impl Unit {
    /// Seconds of the unit (on average, for months and years).
    pub fn seconds(self) -> (s: i64)
        ensures
            s == unit_seconds(self),
    {
        match self {
            Unit::Second => 1,
            Unit::Minute => 60,
            Unit::Hour => 3600,
            Unit::Day => 86400,
            Unit::Month => 2_629_746,
            Unit::Year => 31_556_952,
        }
    }
}

/// Whether steps of the unit follow the calendar (months and years).
pub open spec fn follows_calendar(unit: Unit) -> bool {
    unit is Month || unit is Year
}

/// The months of a calendar step of `count` units.
pub open spec fn months_per_step(unit: Unit, count: int) -> int {
    if unit is Year {
        count * 12
    } else {
        count
    }
}

/// The seconds of a fixed step of `count` units, at least one.
pub open spec fn fixed_step(unit: Unit, count: int) -> int {
    if unit_seconds(unit) * count < 1 {
        1
    } else {
        unit_seconds(unit) * count
    }
}

/// Weeks start on Monday: 1 January 1970 was a Thursday, three days after
/// one; other steps start at the epoch.
pub open spec fn step_shift(unit: Unit, count: int) -> int {
    if unit is Day && count == 7 {
        3 * 86400int
    } else {
        0
    }
}

/// A fixed step of `count` units falls on the instant.
pub open spec fn on_fixed_step(instant: int, unit: Unit, count: int) -> bool {
    (instant + step_shift(unit, count)) % fixed_step(unit, count) == 0
}

/// The instant at which the month with index `k` starts.
pub open spec fn month_start(k: int) -> int {
    month_first_day(k) * 86400
}

/// The month index is one of a step of `months` months, in a year that
/// the calendar holds.
pub open spec fn on_month_step(k: int, months: int) -> bool {
    k % months == 0 && i32::MIN <= index_year(k) <= i32::MAX
}

/// The instant starts a month of a step of `months` months.
pub open spec fn starts_month_step(instant: int, months: int) -> bool {
    exists|k: int| on_month_step(k, months) && instant == #[trigger] month_start(k)
}

/// Two multiples of `m` lie at least `m` apart.
pub proof fn lemma_multiples_apart(a: int, b: int, m: int)
    requires
        m > 0,
        a % m == 0,
        b % m == 0,
        a < b,
    ensures
        a + m <= b,
{
    vstd::arithmetic::div_mod::lemma_fundamental_div_mod(a, m);
    vstd::arithmetic::div_mod::lemma_fundamental_div_mod(b, m);
    let qa = a / m;
    let qb = b / m;
    assert(qa < qb) by (nonlinear_arith)
        requires
            a == m * qa,
            b == m * qb,
            a < b,
            m > 0,
    ;
    assert(a + m <= b) by (nonlinear_arith)
        requires
            a == m * qa,
            b == m * qb,
            qa + 1 <= qb,
            m > 0,
    ;
}

/// The counts stay within 64 bits: the step's seconds, the first instant
/// at or before `from` that the step falls on, and the instant after the
/// last one up to `to`.
pub open spec fn fixed_fits(from: int, to: int, unit: Unit, count: int) -> bool {
    &&& i64::MIN <= unit_seconds(unit) * count <= i64::MAX
    &&& i64::MIN + fixed_step(unit, count) <= from + 1
    &&& from + step_shift(unit, count) <= i64::MAX
    &&& to + fixed_step(unit, count) <= i64::MAX
}

/// The instants of a fixed step between `from` and `to`, in order.
fn fixed_instants(from: i64, to: i64, unit: Unit, count: i64) -> (instants: Vec<i64>)
    requires
        !follows_calendar(unit),
        fixed_fits(from as int, to as int, unit, count as int),
    ensures
        forall|i: int, j: int| 0 <= i < j < instants@.len() ==> instants@[i] < instants@[j],
        forall|i: int|
            0 <= i < instants@.len() ==> from <= #[trigger] instants@[i] <= to && on_fixed_step(
                instants@[i] as int,
                unit,
                count as int,
            ),
        forall|t: int|
            from <= t <= to && #[trigger] on_fixed_step(t, unit, count as int) ==> instants@.contains(
                t as i64,
            ),
{
    let product = unit.seconds() * count;
    let step: i64 = if product < 1 {
        1
    } else {
        product
    };
    let shift: i64 = if unit == Unit::Day && count == 7 {
        259_200
    } else {
        0
    };
    let ghost g_step = fixed_step(unit, count as int);
    let ghost g_shift = step_shift(unit, count as int);
    assert(step == g_step && shift == g_shift);
    let q = floor_div(from + shift, step);
    let mut instant = q * step - shift;
    let mut instants: Vec<i64> = Vec::new();
    proof {
        vstd::arithmetic::div_mod::lemma_mod_bound((from + shift) as int, step as int);
        vstd::arithmetic::div_mod::lemma_fundamental_div_mod_converse(instant + shift, step as int, q as int, 0);
        assert forall|t: int| from <= t < instant && #[trigger] on_fixed_step(t, unit, count as int) implies instants@.contains(t as i64) by {
            lemma_multiples_apart(t + shift, instant + shift, step as int);
        }
    }
    while instant <= to
        invariant
            1 <= step,
            step == fixed_step(unit, count as int),
            shift == step_shift(unit, count as int),
            fixed_fits(from as int, to as int, unit, count as int),
            from - step < instant,
            (instant + shift) % (step as int) == 0,
            forall|i: int, j: int| 0 <= i < j < instants@.len() ==> instants@[i] < instants@[j],
            forall|i: int| 0 <= i < instants@.len() ==> #[trigger] instants@[i] < instant,
            forall|i: int|
                0 <= i < instants@.len() ==> from <= #[trigger] instants@[i] <= to && on_fixed_step(
                    instants@[i] as int,
                    unit,
                    count as int,
                ),
            forall|t: int|
                from <= t < instant && #[trigger] on_fixed_step(t, unit, count as int)
                    ==> instants@.contains(t as i64),
        decreases to + step - instant,
    {
        let ghost old_instants = instants@;
        if instant >= from {
            instants.push(instant);
        }
        proof {
            assert forall|t: int| from <= t < instant + step && #[trigger] on_fixed_step(t, unit, count as int) implies instants@.contains(t as i64) by {
                if t < instant {
                    let i = choose|i: int| 0 <= i < old_instants.len() && old_instants[i] == t as i64;
                    assert(instants@[i] == t as i64);
                } else if t > instant {
                    lemma_multiples_apart(instant + shift, t + shift, step as int);
                } else {
                    assert(instants@[instants@.len() - 1] == instant);
                }
            }
        }
        proof {
            let k = (instant + shift) / (step as int);
            vstd::arithmetic::div_mod::lemma_fundamental_div_mod(instant + shift, step as int);
            assert(instant + step + shift == (k + 1) * step + 0) by (nonlinear_arith)
                requires
                    instant + shift == step * k + 0,
            ;
            vstd::arithmetic::div_mod::lemma_fundamental_div_mod_converse(
                instant + step + shift,
                step as int,
                k + 1,
                0,
            );
        }
        instant = instant + step;
    }
    instants
}

/// The month of `from` is a day of the calendar, the step is at least a
/// month, and a month index one step past the last year still fits 64 bits.
pub open spec fn month_fits(from: int, unit: Unit, count: int) -> bool {
    &&& first_epoch_day() * 86400 <= from < end_epoch_day() * 86400
    &&& 1 <= count
    &&& months_per_step(unit, count) + (i32::MAX + 1) * 12 <= i64::MAX
}

/// The instants at which a step of `months` months starts, from the month of
/// `from` on, up to `to`, in order.
fn month_instants(from: i64, to: i64, months: i64) -> (instants: Vec<i64>)
    requires
        1 <= months,
        months + (i32::MAX + 1) * 12 <= i64::MAX,
        first_epoch_day() * 86400 <= from < end_epoch_day() * 86400,
    ensures
        forall|i: int, j: int| 0 <= i < j < instants@.len() ==> instants@[i] < instants@[j],
        forall|i: int|
            0 <= i < instants@.len() ==> from <= #[trigger] instants@[i] <= to && starts_month_step(
                instants@[i] as int,
                months as int,
            ),
        forall|k: int|
            on_month_step(k, months as int) && from <= #[trigger] month_start(k) <= to
                ==> instants@.contains(month_start(k) as i64),
{
    let start = DateTime::from_unix(from).date;
    let first = start.year() as i64 * 12 + start.month() as i64 - 1;
    let mut index = floor_div(first, months) * months;
    let mut instants: Vec<i64> = Vec::new();
    proof {
        let m = months as int;
        lemma_month_index(start@.0, start@.1);
        vstd::arithmetic::div_mod::lemma_mod_bound(first as int, m);
        vstd::arithmetic::div_mod::lemma_fundamental_div_mod_converse(index as int, m, first as int / m, 0);
        assert(month_start(first as int) <= from) by {
            assert(month_first_day(first as int) <= from / 86400);
            vstd::arithmetic::div_mod::lemma_fundamental_div_mod(from as int, 86400);
        }
        assert forall|k: int|
            on_month_step(k, m) && k < index && from <= #[trigger] month_start(k) <= to implies instants@.contains(
            month_start(k) as i64) by {
            lemma_months_grow(k, first as int);
        }
    }
    loop
        invariant
            1 <= months,
            months + (i32::MAX + 1) * 12 <= i64::MAX,
            first_epoch_day() * 86400 <= from < end_epoch_day() * 86400,
            i32::MIN * 12 - months <= index <= (i32::MAX + 1) * 12 + months,
            index as int % (months as int) == 0,
            forall|i: int, j: int| 0 <= i < j < instants@.len() ==> instants@[i] < instants@[j],
            forall|i: int| 0 <= i < instants@.len() ==> #[trigger] instants@[i] < month_start(index as int),
            forall|i: int|
                0 <= i < instants@.len() ==> from <= #[trigger] instants@[i] <= to && starts_month_step(
                    instants@[i] as int,
                    months as int,
                ),
            forall|k: int|
                on_month_step(k, months as int) && k < index && from <= #[trigger] month_start(k) <= to
                    ==> instants@.contains(month_start(k) as i64),
        ensures
            forall|i: int, j: int| 0 <= i < j < instants@.len() ==> instants@[i] < instants@[j],
            forall|i: int|
                0 <= i < instants@.len() ==> from <= #[trigger] instants@[i] <= to && starts_month_step(
                    instants@[i] as int,
                    months as int,
                ),
            forall|k: int|
                on_month_step(k, months as int) && from <= #[trigger] month_start(k) <= to
                    ==> instants@.contains(month_start(k) as i64),
        decreases (i32::MAX + 1) * 12 + months - index,
    {
        let year = floor_div(index, 12);
        if year > i32::MAX as i64 {
            proof {
                assert forall|k: int|
                    on_month_step(k, months as int) && from <= #[trigger] month_start(k) <= to implies instants@.contains(
                    month_start(k) as i64) by {
                    if k >= index {
                        vstd::arithmetic::div_mod::lemma_div_is_ordered(index as int, k, 12);
                    }
                }
            }
            break;
        }
        let ghost old_instants = instants@;
        if year >= i32::MIN as i64 {
            let month = index - year * 12 + 1;
            proof {
                vstd::arithmetic::div_mod::lemma_mod_bound(index as int, 12);
            }
            match Date::new(year as i32, month as u8, 1) {
                None => {
                    break;
                },
                Some(date) => {
                    let day = date.days_since_epoch();
                    proof {
                        assert(month_start(index as int) == day * 86400);
                        crate::date::lemma_within_year(date@);
                        crate::date::lemma_days_before_year_bounds(year as int);
                        crate::date::lemma_days_before_year_bounds(year + 1);
                    }
                    let instant = day * 86400;
                    if instant > to {
                        proof {
                            assert forall|k: int|
                                on_month_step(k, months as int) && from <= #[trigger] month_start(k) <= to implies instants@.contains(
                                month_start(k) as i64) by {
                                if k > index {
                                    lemma_months_grow(index as int, k);
                                }
                            }
                        }
                        break;
                    }
                    if instant >= from {
                        instants.push(instant);
                        proof {
                            assert(on_month_step(index as int, months as int));
                            assert(instants@[instants@.len() - 1] == month_start(index as int));
                        }
                    }
                },
            }
        }
        proof {
            let m = months as int;
            let next = index + m;
            lemma_months_grow(index as int, next);
            let k = index as int / m;
            vstd::arithmetic::div_mod::lemma_fundamental_div_mod(index as int, m);
            assert(next == (k + 1) * m + 0) by (nonlinear_arith)
                requires
                    index == m * k + 0,
                    next == index + m,
            ;
            vstd::arithmetic::div_mod::lemma_fundamental_div_mod_converse(next, m, k + 1, 0);
            assert forall|k: int|
                on_month_step(k, m) && k < next && from <= #[trigger] month_start(k) <= to implies instants@.contains(
                month_start(k) as i64) by {
                if k < index {
                    let i = choose|i: int| 0 <= i < old_instants.len() && old_instants[i] == month_start(k) as i64;
                    assert(instants@[i] == month_start(k) as i64);
                } else if k > index {
                    lemma_multiples_apart(index as int, k, m);
                } else {
                    assert(instants@[instants@.len() - 1] == month_start(k) as i64);
                }
            }
        }
        index = index + months;
    }
    instants
}

/// The instants from `from` to `to` (seconds, both included) on which a
/// step of `count` units falls, in order. Steps of months and years start
/// on the first of a month whose index from year 0 is a multiple of the
/// step (January for years, so decades start in years ending in 0); weeks
/// start on Monday; other steps are multiples of their length from the
/// epoch. A step of fixed units that comes to less than a second is a
/// second.
pub fn calendar_instants(from: i64, to: i64, unit: Unit, count: i64) -> (instants: Vec<i64>)
    requires
        follows_calendar(unit) ==> month_fits(from as int, unit, count as int),
        !follows_calendar(unit) ==> fixed_fits(from as int, to as int, unit, count as int),
    ensures
        forall|i: int, j: int| 0 <= i < j < instants@.len() ==> instants@[i] < instants@[j],
        forall|i: int| 0 <= i < instants@.len() ==> from <= #[trigger] instants@[i] <= to,
        !follows_calendar(unit) ==> forall|i: int|
            0 <= i < instants@.len() ==> on_fixed_step(#[trigger] instants@[i] as int, unit, count as int),
        !follows_calendar(unit) ==> forall|t: int|
            from <= t <= to && #[trigger] on_fixed_step(t, unit, count as int) ==> instants@.contains(
                t as i64,
            ),
        follows_calendar(unit) ==> forall|i: int|
            0 <= i < instants@.len() ==> starts_month_step(
                #[trigger] instants@[i] as int,
                months_per_step(unit, count as int),
            ),
        follows_calendar(unit) ==> forall|k: int|
            on_month_step(k, months_per_step(unit, count as int)) && from <= #[trigger] month_start(k)
                <= to ==> instants@.contains(month_start(k) as i64),
{
    match unit {
        Unit::Month => month_instants(from, to, count),
        Unit::Year => month_instants(from, to, count * 12),
        _ => fixed_instants(from, to, unit, count),
    }
}

/// Day and abbreviated month, such as `13 Mar`.
pub open spec fn day_month_text(date: (int, int, int)) -> Seq<char> {
    decimal(date.2 as nat) + seq![' '] + short_month(date.1)
}

/// Hours and minutes, and seconds if asked, in two digits each: `18:00`.
pub open spec fn clock_text(time: (int, int, int), seconds: bool) -> Seq<char> {
    let minutes = two_digits(time.0) + seq![':'] + two_digits(time.1);
    if seconds {
        minutes + seq![':'] + two_digits(time.2)
    } else {
        minutes
    }
}

/// The label of a calendar line of the unit: the year for years and for
/// January, the abbreviated month for other months, day and month for days
/// and for midnight, else the time of day.
pub open spec fn label_text(date: (int, int, int), time: (int, int, int), unit: Unit) -> Seq<char> {
    match unit {
        Unit::Year => signed_decimal(date.0),
        Unit::Month => if date.1 == 1 {
            signed_decimal(date.0)
        } else {
            short_month(date.1)
        },
        Unit::Day => day_month_text(date),
        Unit::Hour | Unit::Minute => if time.0 == 0 && time.1 == 0 {
            day_month_text(date)
        } else {
            clock_text(time, false)
        },
        Unit::Second => clock_text(time, true),
    }
}

fn push_day_month(s: &mut String, date: &Date)
    ensures
        final(s)@ == old(s)@ + day_month_text(date@),
{
    let day = date.day();
    push_decimal(s, day as u64);
    push_char(s, ' ');
    s.append(month_abbreviation(date.month()));
    proof {
        assert(final(s)@ =~= old(s)@ + day_month_text(date@));
    }
}

fn push_clock(s: &mut String, time: &Time, seconds: bool)
    ensures
        final(s)@ == old(s)@ + clock_text(time@, seconds),
{
    push_two_digits(s, time.hour());
    push_char(s, ':');
    push_two_digits(s, time.minute());
    if seconds {
        push_char(s, ':');
        push_two_digits(s, time.second());
    }
    proof {
        assert(final(s)@ =~= old(s)@ + clock_text(time@, seconds));
    }
}

/// The label of the calendar line at `instant` (local seconds) for lines of
/// the unit.
pub fn calendar_label(instant: i64, unit: Unit) -> (label: String)
    requires
        first_epoch_day() * 86400 <= instant < end_epoch_day() * 86400,
    ensures
        label@ == label_text(civil_date(instant / 86400), clock_of(instant as int), unit),
{
    let moment = DateTime::from_unix(instant);
    let date = moment.date;
    let time = moment.time;
    let mut label = String::new();
    match unit {
        Unit::Year => push_signed(&mut label, date.year() as i64),
        Unit::Month => {
            if date.month() == 1 {
                push_signed(&mut label, date.year() as i64);
            } else {
                label.append(month_abbreviation(date.month()));
            }
        },
        Unit::Day => push_day_month(&mut label, &date),
        Unit::Hour | Unit::Minute => {
            if time.hour() == 0 && time.minute() == 0 {
                push_day_month(&mut label, &date);
            } else {
                push_clock(&mut label, &time, false);
            }
        },
        Unit::Second => push_clock(&mut label, &time, true),
    }
    proof {
        assert(label@ =~= label_text(date@, time@, unit));
    }
    label
}

/// The playhead's text: day, month and year, such as `12 Mart 2025`; with
/// hours and minutes when the step is under a day, and seconds too when it
/// is under a minute.
pub open spec fn playhead_text(date: (int, int, int), time: (int, int, int), step: int) -> Seq<char> {
    let day = decimal(date.2 as nat) + seq![' '] + full_month(date.1) + seq![' '] + signed_decimal(
        date.0,
    );
    if step >= 86400 {
        day
    } else {
        day + seq![' '] + clock_text(time, step < 60)
    }
}

/// The playhead's text at `local` (local seconds) for a step of `step`
/// seconds.
pub fn calendar_text(local: i64, step: i64) -> (text: String)
    requires
        first_epoch_day() * 86400 <= local < end_epoch_day() * 86400,
    ensures
        text@ == playhead_text(civil_date(local / 86400), clock_of(local as int), step as int),
{
    let moment = DateTime::from_unix(local);
    let date = moment.date;
    let time = moment.time;
    let mut text = String::new();
    push_decimal(&mut text, date.day() as u64);
    push_char(&mut text, ' ');
    text.append(month_name(date.month()));
    push_char(&mut text, ' ');
    push_signed(&mut text, date.year() as i64);
    if step < 86400 {
        push_char(&mut text, ' ');
        push_clock(&mut text, &time, step < 60);
    }
    proof {
        assert(text@ =~= playhead_text(date@, time@, step as int));
    }
    text
}

/// Week lines fall on midnight of a Monday.
pub proof fn law_weeks_start_on_monday(t: int)
    requires
        on_fixed_step(t, Unit::Day, 7),
    ensures
        t % 86400 == 0,
        weekday_of(t / 86400) == 0,
{
    let k = (t + 259_200) / 604_800;
    vstd::arithmetic::div_mod::lemma_fundamental_div_mod(t + 259_200, 604_800);
    assert(t == (7 * k - 3) * 86400 + 0) by (nonlinear_arith)
        requires
            t + 259_200 == 604_800 * k + 0,
    ;
    vstd::arithmetic::div_mod::lemma_fundamental_div_mod_converse(t, 86400, 7 * k - 3, 0);
    vstd::arithmetic::div_mod::lemma_fundamental_div_mod_converse(7 * k, 7, k, 0);
}

/// Month and year lines fall on midnight of the first day of their month.
pub proof fn law_month_lines_start_on_the_first(k: int)
    requires
        i32::MIN <= index_year(k) <= i32::MAX,
    ensures
        month_start(k) % 86400 == 0,
        civil_date(month_start(k) / 86400) == (index_year(k), index_month(k), 1int),
{
    lemma_next_month(k);
    vstd::arithmetic::div_mod::lemma_fundamental_div_mod_converse(
        month_start(k),
        86400,
        month_first_day(k),
        0,
    );
    assert(valid_date(index_year(k), index_month(k), 1));
    lemma_civil_date((index_year(k), index_month(k), 1));
}

/// Lines of `count` years fall in January of years that are multiples of
/// `count`: decades start in years ending in 0.
pub proof fn law_year_lines_start_in_january(k: int, count: int)
    requires
        count >= 1,
        on_month_step(k, count * 12),
    ensures
        index_month(k) == 1,
        index_year(k) % count == 0,
{
    let m = count * 12;
    let q = k / m;
    vstd::arithmetic::div_mod::lemma_fundamental_div_mod(k, m);
    assert(k == (count * q) * 12 + 0) by (nonlinear_arith)
        requires
            k == m * q + 0,
            m == count * 12,
    ;
    vstd::arithmetic::div_mod::lemma_fundamental_div_mod_converse(k, 12, count * q, 0);
    vstd::arithmetic::div_mod::lemma_fundamental_div_mod_converse(count * q, count, q, 0);
}

} // verus!
