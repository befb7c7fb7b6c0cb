//! Calendar dates and times of day in the proleptic Gregorian calendar, as
//! the date and time pickers use them.
use vstd::prelude::*;

verus! {

/// Whether the year has a 29th of February.
pub open spec fn is_leap(year: int) -> bool {
    year % 4 == 0 && (year % 100 != 0 || year % 400 == 0)
}

/// The number of days in the month (1 to 12) of the year.
pub open spec fn days_in_month(year: int, month: int) -> int {
    if month == 2 {
        if is_leap(year) {
            29
        } else {
            28
        }
    } else if month == 4 || month == 6 || month == 9 || month == 11 {
        30
    } else {
        31
    }
}

/// A day of the calendar: year, month (1 to 12) and day of the month.
pub open spec fn valid_date(year: int, month: int, day: int) -> bool {
    &&& i32::MIN <= year <= i32::MAX
    &&& 1 <= month <= 12
    &&& 1 <= day <= days_in_month(year, month)
}

/// A time of day: hour (0 to 23), minute and second (0 to 59).
pub open spec fn valid_time(hour: int, minute: int, second: int) -> bool {
    0 <= hour < 24 && 0 <= minute < 60 && 0 <= second < 60
}

/// The months counted from year 0: the month index of a year and month.
pub open spec fn month_index(year: int, month: int) -> int {
    year * 12 + (month - 1)
}

/// The year of a month index.
pub open spec fn index_year(index: int) -> int {
    index / 12
}

/// The month (1 to 12) of a month index.
pub open spec fn index_month(index: int) -> int {
    index % 12 + 1
}

/// The date `months` months after `date` (before it if negative), on the
/// same day of the month or, if the month is shorter, on its last day; a
/// date whose year would not fit stays as it is.
pub open spec fn add_months_to(date: (int, int, int), months: int) -> (int, int, int) {
    let index = month_index(date.0, date.1) + months;
    if i32::MIN <= index_year(index) <= i32::MAX {
        let (y, m) = (index_year(index), index_month(index));
        (y, m, if date.2 <= days_in_month(y, m) {
            date.2
        } else {
            days_in_month(y, m)
        })
    } else {
        date
    }
}

/// A calendar day.
#[derive(Debug, Clone, Copy, PartialEq, Eq, Structural, Hash)]
pub struct Date {
    year: i32,
    month: u8,
    day: u8,
}

impl View for Date {
    /// Year, month and day.
    type V = (int, int, int);

    closed spec fn view(&self) -> (int, int, int) {
        (self.year as int, self.month as int, self.day as int)
    }
}

impl Date {
    #[verifier::type_invariant]
    closed spec fn valid(self) -> bool {
        valid_date(self.year as int, self.month as int, self.day as int)
    }

    /// The date, if the day exists in the calendar.
    pub fn new(year: i32, month: u8, day: u8) -> (r: Option<Date>)
        ensures
            r is Some <==> valid_date(year as int, month as int, day as int),
            r is Some ==> r->0@ == (year as int, month as int, day as int),
    {
        if 1 <= month && month <= 12 && 1 <= day && day <= month_length(year, month) {
            Some(Date { year, month, day })
        } else {
            None
        }
    }

    pub fn year(&self) -> (y: i32)
        ensures
            y == self@.0,
    {
        self.year
    }

    pub fn month(&self) -> (m: u8)
        ensures
            m == self@.1,
            1 <= m <= 12,
    {
        proof {
            use_type_invariant(self);
        }
        self.month
    }

    pub fn day(&self) -> (d: u8)
        ensures
            d == self@.2,
            1 <= d <= 31,
    {
        proof {
            use_type_invariant(self);
        }
        self.day
    }

    /// The first day of the date's month.
    pub fn first_of_month(&self) -> (d: Date)
        ensures
            d@ == (self@.0, self@.1, 1int),
    {
        proof {
            use_type_invariant(self);
        }
        Date { year: self.year, month: self.month, day: 1 }
    }

    /// The date `months` months later (earlier if negative), on the same
    /// day of the month or, if the month is shorter, on its last day. A date
    /// whose year would not fit stays as it is.
    pub fn add_months(&self, months: i32) -> (d: Date)
        ensures
            d@ == add_months_to(self@, months as int),
    {
        proof {
            use_type_invariant(self);
        }
        let index: i64 = self.year as i64 * 12 + (self.month as i64 - 1) + months as i64;
        let year = floor_div(index, 12);
        let month = index - year * 12 + 1;
        if year < i32::MIN as i64 || year > i32::MAX as i64 {
            return *self;
        }
        let year = year as i32;
        let month = month as u8;
        let last = month_length(year, month);
        let day = if self.day <= last {
            self.day
        } else {
            last
        };
        Date { year, month, day }
    }
}

/// `a` divided by `b`, rounded toward negative infinity.
pub fn floor_div(a: i64, b: i64) -> (q: i64)
    requires
        b > 0,
    ensures
        q == a / b,
        a - q * b == a % b,
{
    if a >= 0 {
        let q = a / b;
        proof {
            vstd::arithmetic::div_mod::lemma_fundamental_div_mod(a as int, b as int);
            assert(a - q * b == a % b) by (nonlinear_arith)
                requires
                    a == b * (a / b) + (a % b),
                    q == a / b,
            ;
        }
        q
    } else {
        let m = -(a + 1);
        let k = m / b;
        proof {
            let r = m % b;
            vstd::arithmetic::div_mod::lemma_fundamental_div_mod(m as int, b as int);
            assert(k * b <= m) by (nonlinear_arith)
                requires
                    m == b * k + r,
                    0 <= r,
            ;
            assert(a == (-k - 1) * b + (b - r - 1)) by (nonlinear_arith)
                requires
                    m == b * k + r,
                    m == -a - 1,
            ;
            vstd::arithmetic::div_mod::lemma_fundamental_div_mod_converse(
                a as int,
                b as int,
                -k - 1,
                b - r - 1,
            );
            assert(a - (-k - 1) * b == a % b);
        }
        -k - 1
    }
}

/// Whether `year` is a leap year.
pub fn leap_year(year: i32) -> (r: bool)
    ensures
        r == is_leap(year as int),
{
    let y = year as i64;
    let four = y % 4 == 0;
    let hundred = y % 100 == 0;
    let four_hundred = y % 400 == 0;
    proof {
        assert((y % 4 == 0) == (y as int % 4 == 0));
        assert((y % 100 == 0) == (y as int % 100 == 0));
        assert((y % 400 == 0) == (y as int % 400 == 0));
    }
    four && (!hundred || four_hundred)
}

/// The number of days in the month.
pub fn month_length(year: i32, month: u8) -> (n: u8)
    ensures
        n == days_in_month(year as int, month as int),
        28 <= n <= 31,
{
    if month == 2 {
        if leap_year(year) {
            29
        } else {
            28
        }
    } else if month == 4 || month == 6 || month == 9 || month == 11 {
        30
    } else {
        31
    }
}

/// A time of day, to the second.
#[derive(Debug, Clone, Copy, PartialEq, Eq, Structural, Hash)]
pub struct Time {
    hour: u8,
    minute: u8,
    second: u8,
}

impl View for Time {
    /// Hour, minute and second.
    type V = (int, int, int);

    closed spec fn view(&self) -> (int, int, int) {
        (self.hour as int, self.minute as int, self.second as int)
    }
}

impl Time {
    #[verifier::type_invariant]
    closed spec fn valid(self) -> bool {
        valid_time(self.hour as int, self.minute as int, self.second as int)
    }

    /// The time, if it exists: hours below 24, minutes and seconds below 60.
    pub fn new(hour: u8, minute: u8, second: u8) -> (r: Option<Time>)
        ensures
            r is Some <==> valid_time(hour as int, minute as int, second as int),
            r is Some ==> r->0@ == (hour as int, minute as int, second as int),
    {
        if hour < 24 && minute < 60 && second < 60 {
            Some(Time { hour, minute, second })
        } else {
            None
        }
    }

    /// 00:00:00.
    pub fn midnight() -> (t: Time)
        ensures
            t@ == (0int, 0int, 0int),
    {
        Time { hour: 0, minute: 0, second: 0 }
    }

    pub fn hour(&self) -> (h: u8)
        ensures
            h == self@.0,
            h < 24,
    {
        proof {
            use_type_invariant(self);
        }
        self.hour
    }

    pub fn minute(&self) -> (m: u8)
        ensures
            m == self@.1,
            m < 60,
    {
        proof {
            use_type_invariant(self);
        }
        self.minute
    }

    pub fn second(&self) -> (s: u8)
        ensures
            s == self@.2,
            s < 60,
    {
        proof {
            use_type_invariant(self);
        }
        self.second
    }
}

/// A date and a time of day.
#[derive(Debug, Clone, Copy, PartialEq, Eq, Structural, Hash)]
pub struct DateTime {
    pub date: Date,
    pub time: Time,
}

impl DateTime {
    pub fn new(date: Date, time: Time) -> (d: DateTime)
        ensures
            d.date == date,
            d.time == time,
    {
        DateTime { date, time }
    }
}

/// The leap years from year 1 through `year` (for years before 1, the
/// same count extended: it always grows by one at a leap year).
pub open spec fn leaps_through(year: int) -> int {
    year / 4 - year / 100 + year / 400
}

/// Days from 1 January 1970 to 1 January of the year.
pub open spec fn days_before_year(year: int) -> int {
    365 * (year - 1970) + leaps_through(year - 1) - leaps_through(1969)
}

/// Days of the year before the first of the month.
pub open spec fn days_before_month(year: int, month: int) -> int {
    let common: int = if month <= 1 {
        0
    } else if month == 2 {
        31
    } else if month == 3 {
        59
    } else if month == 4 {
        90
    } else if month == 5 {
        120
    } else if month == 6 {
        151
    } else if month == 7 {
        181
    } else if month == 8 {
        212
    } else if month == 9 {
        243
    } else if month == 10 {
        273
    } else if month == 11 {
        304
    } else {
        334
    };
    if month > 2 && is_leap(year) {
        common + 1
    } else {
        common
    }
}

/// Days from 1 January 1970 to the date; negative before it.
pub open spec fn epoch_day(date: (int, int, int)) -> int {
    days_before_year(date.0) + days_before_month(date.0, date.1) + date.2 - 1
}

/// A year has 365 days, 366 if it is a leap year.
pub proof fn lemma_year_length(year: int)
    ensures
        days_before_year(year + 1) - days_before_year(year) == if is_leap(year) {
            366int
        } else {
            365int
        },
{
    let y = year;
    lemma_floor_step(y, 4);
    lemma_floor_step(y, 100);
    lemma_floor_step(y, 400);
    lemma_divides(y, 100, 4, 25);
    lemma_divides(y, 400, 100, 4);
}

/// A multiple of `d = k * e` is a multiple of `e`.
pub proof fn lemma_divides(y: int, d: int, e: int, k: int)
    requires
        d == k * e,
        d > 0,
        e > 0,
        k > 0,
    ensures
        y % d == 0 ==> y % e == 0,
{
    if y % d == 0 {
        vstd::arithmetic::div_mod::lemma_fundamental_div_mod(y, d);
        let q = y / d;
        assert(y == (q * k) * e + 0) by (nonlinear_arith)
            requires
                y == d * q + y % d,
                y % d == 0,
                d == k * e,
        ;
        vstd::arithmetic::div_mod::lemma_fundamental_div_mod_converse(y, e, q * k, 0);
    }
}

/// Going from `y - 1` to `y`, the quotient by `d` grows by one exactly when
/// `d` divides `y`.
pub proof fn lemma_floor_step(y: int, d: int)
    requires
        d > 0,
    ensures
        y / d - (y - 1) / d == if y % d == 0 {
            1int
        } else {
            0int
        },
{
    vstd::arithmetic::div_mod::lemma_fundamental_div_mod(y, d);
    vstd::arithmetic::div_mod::lemma_fundamental_div_mod(y - 1, d);
    let q = y / d;
    let r = y % d;
    vstd::arithmetic::div_mod::lemma_mod_bound(y, d);
    assert(y == q * d + r) by (nonlinear_arith)
        requires
            y == d * q + r,
    ;
    if r == 0 {
        assert(y - 1 == (q - 1) * d + (d - 1)) by (nonlinear_arith)
            requires
                y == q * d + r,
                r == 0,
        ;
        vstd::arithmetic::div_mod::lemma_fundamental_div_mod_converse(y - 1, d, q - 1, d - 1);
    } else {
        vstd::arithmetic::div_mod::lemma_fundamental_div_mod_converse(y - 1, d, q, r - 1);
    }
}

/// Close bounds on the days before a year: 400 times the count is within a
/// few hundred of 146097 per 400 years.
pub proof fn lemma_days_before_year_bounds(year: int)
    ensures
        146097 * (year - 1970) - 1500 <= 400 * days_before_year(year) <= 146097 * (year - 1970) + 1500,
{
    let x = year - 1;
    vstd::arithmetic::div_mod::lemma_fundamental_div_mod(x, 4);
    vstd::arithmetic::div_mod::lemma_fundamental_div_mod(x, 100);
    vstd::arithmetic::div_mod::lemma_fundamental_div_mod(x, 400);
    vstd::arithmetic::div_mod::lemma_mod_bound(x, 4);
    vstd::arithmetic::div_mod::lemma_mod_bound(x, 100);
    vstd::arithmetic::div_mod::lemma_mod_bound(x, 400);
    assert(leaps_through(1969) == 477);
}

/// Later years start later: at least 365 days later per year.
pub proof fn lemma_days_before_year_grows(a: int, b: int)
    requires
        a < b,
    ensures
        days_before_year(a) + 365 <= days_before_year(b),
    decreases b - a,
{
    lemma_year_length(a);
    if a + 1 < b {
        lemma_days_before_year_grows(a + 1, b);
    }
}

/// The day of the year before the month's first day and within it.
pub proof fn lemma_month_fits(year: int, month: int)
    requires
        1 <= month <= 12,
    ensures
        0 <= days_before_month(year, month),
        days_before_month(year, month) + days_in_month(year, month) == if month == 12 {
            days_before_year(year + 1) - days_before_year(year)
        } else {
            days_before_month(year, month + 1)
        },
{
    lemma_year_length(year);
}

/// A date lies within its year.
pub proof fn lemma_within_year(date: (int, int, int))
    requires
        valid_date(date.0, date.1, date.2),
    ensures
        days_before_year(date.0) <= epoch_day(date) < days_before_year(date.0 + 1),
{
    lemma_year_length(date.0);
    lemma_month_fits(date.0, date.1);
    if date.1 < 12 {
        lemma_months_below_year_end(date.0, date.1 + 1);
    }
}

proof fn lemma_months_below_year_end(year: int, month: int)
    requires
        2 <= month <= 12,
    ensures
        days_before_month(year, month) + days_in_month(year, month) <= days_before_year(year + 1)
            - days_before_year(year),
{
    lemma_year_length(year);
}

/// Two days of the calendar with the same count of days from the epoch are
/// the same day.
pub proof fn lemma_epoch_day_injective(a: (int, int, int), b: (int, int, int))
    requires
        valid_date(a.0, a.1, a.2),
        valid_date(b.0, b.1, b.2),
        epoch_day(a) == epoch_day(b),
    ensures
        a == b,
{
    lemma_within_year(a);
    lemma_within_year(b);
    if a.0 < b.0 {
        lemma_days_before_year_grows(a.0 + 1, b.0 + 1);
        if a.0 + 1 < b.0 {
            lemma_days_before_year_grows(a.0 + 1, b.0);
        }
    }
    if b.0 < a.0 {
        if b.0 + 1 < a.0 {
            lemma_days_before_year_grows(b.0 + 1, a.0);
        }
    }
    assert(a.0 == b.0);
    lemma_month_fits(a.0, a.1);
    lemma_month_fits(b.0, b.1);
    lemma_year_length(a.0);
}

/// The days before the year, for years that fit or the year after the
/// last.
fn days_before(year: i64) -> (d: i64)
    requires
        i32::MIN <= year <= i32::MAX as int + 1,
    ensures
        d == days_before_year(year as int),
{
    let x = year - 1;
    let leaps = floor_div(x, 4) - floor_div(x, 100) + floor_div(x, 400);
    proof {
        lemma_days_before_year_bounds(year as int);
    }
    365 * (year - 1970) + leaps - 477
}

/// Days before the month within the year.
fn days_before_first(year: i32, month: u8) -> (d: i64)
    requires
        1 <= month <= 12,
    ensures
        d == days_before_month(year as int, month as int),
{
    let common: i64 = if month <= 1 {
        0
    } else if month == 2 {
        31
    } else if month == 3 {
        59
    } else if month == 4 {
        90
    } else if month == 5 {
        120
    } else if month == 6 {
        151
    } else if month == 7 {
        181
    } else if month == 8 {
        212
    } else if month == 9 {
        243
    } else if month == 10 {
        273
    } else if month == 11 {
        304
    } else {
        334
    };
    if month > 2 && leap_year(year) {
        common + 1
    } else {
        common
    }
}

/// The count of days from the epoch of the first representable day, and of
/// the day after the last one.
pub open spec fn first_epoch_day() -> int {
    days_before_year(i32::MIN as int)
}

pub open spec fn end_epoch_day() -> int {
    days_before_year(i32::MAX as int + 1)
}

impl Date {
    /// Days from 1 January 1970 to the date; negative before it.
    pub fn days_since_epoch(&self) -> (n: i64)
        ensures
            n == epoch_day(self@),
    {
        proof {
            use_type_invariant(self);
        }
        days_before(self.year as i64) + days_before_first(self.year, self.month) + self.day as i64 - 1
    }

    /// The day `days` days after 1 January 1970 (before it if negative).
    pub fn from_days_since_epoch(days: i64) -> (d: Date)
        requires
            first_epoch_day() <= days < end_epoch_day(),
        ensures
            epoch_day(d@) == days,
            d@ == civil_date(days as int),
    {
        proof {
            lemma_days_before_year_bounds(i32::MIN as int);
            lemma_days_before_year_bounds(i32::MAX as int + 1);
        }
        let estimate = 1970 + floor_div(days * 4, 1461);
        let mut year: i64 = if estimate < i32::MIN as i64 {
            i32::MIN as i64
        } else if estimate > i32::MAX as i64 {
            i32::MAX as i64
        } else {
            estimate
        };
        while days_before(year) > days
            invariant
                i32::MIN <= year <= i32::MAX,
                first_epoch_day() <= days < end_epoch_day(),
            decreases year - i32::MIN,
        {
            proof {
                if year == i32::MIN {
                    assert(days_before_year(year as int) <= days);
                }
                lemma_days_before_year_grows(year - 1, year as int);
            }
            year = year - 1;
        }
        while days_before(year + 1) <= days
            invariant
                i32::MIN <= year <= i32::MAX,
                first_epoch_day() <= days < end_epoch_day(),
                days_before_year(year as int) <= days,
            decreases i32::MAX - year,
        {
            proof {
                lemma_days_before_year_grows(year as int, year + 1);
            }
            year = year + 1;
        }
        let y = year as i32;
        let offset = days - days_before(year);
        proof {
            lemma_year_length(y as int);
        }
        let mut month: u8 = 12;
        while days_before_first(y, month) > offset
            invariant
                1 <= month <= 12,
                0 <= offset,
                offset == days - days_before_year(y as int),
                days < days_before_year(y as int + 1),
                month < 12 ==> days_before_month(y as int, month + 1) > offset,
            decreases month,
        {
            month = month - 1;
        }
        let day = offset - days_before_first(y, month) + 1;
        proof {
            lemma_month_fits(y as int, month as int);
            lemma_civil_date((y as int, month as int, day as int));
        }
        Date { year: y, month, day: day as u8 }
    }
}

/// Counting days from the epoch and back gives the same day.
pub proof fn law_epoch_day_round_trip(date: (int, int, int), other: (int, int, int))
    requires
        valid_date(date.0, date.1, date.2),
        valid_date(other.0, other.1, other.2),
        epoch_day(other) == epoch_day(date),
    ensures
        other == date,
{
    lemma_epoch_day_injective(date, other);
}

/// The weekday of the day `n` days after the epoch: 0 for Monday through 6
/// for Sunday (1 January 1970 was a Thursday).
pub open spec fn weekday_of(n: int) -> int {
    (n + 3) % 7
}

/// The year in which the day `n` days after the epoch falls.
pub open spec fn year_of_day(n: int) -> int {
    choose|y: int| #![trigger days_before_year(y)] days_before_year(y) <= n < days_before_year(y + 1)
}

/// The Thursday of the (Monday to Sunday) week of the day `n`.
pub open spec fn thursday_of(n: int) -> int {
    n - weekday_of(n) + 3
}

/// The ISO 8601 week number of the day `n`: weeks start on Monday, and a
/// week belongs to the year of its Thursday.
pub open spec fn iso_week_of(n: int) -> int {
    (thursday_of(n) - days_before_year(year_of_day(thursday_of(n)))) / 7 + 1
}

/// The year in which a day falls is the only one.
pub proof fn lemma_year_of_day(n: int, y: int)
    requires
        days_before_year(y) <= n < days_before_year(y + 1),
    ensures
        year_of_day(n) == y,
{
    let z = year_of_day(n);
    assert(days_before_year(z) <= n < days_before_year(z + 1));
    if z < y {
        lemma_days_before_year_grows(z + 1, y + 1);
        if z + 1 < y {
            lemma_days_before_year_grows(z + 1, y);
        }
    }
    if y < z {
        if y + 1 < z {
            lemma_days_before_year_grows(y + 1, z);
        }
    }
}

impl Date {
    /// The weekday: 0 for Monday through 6 for Sunday.
    pub fn weekday(&self) -> (w: u8)
        ensures
            w == weekday_of(epoch_day(self@)),
            w < 7,
    {
        let n = self.days_since_epoch();
        let q = floor_div(n + 3, 7);
        (n + 3 - q * 7) as u8
    }

    /// Saturday or Sunday.
    pub fn is_weekend(&self) -> (r: bool)
        ensures
            r == (weekday_of(epoch_day(self@)) >= 5),
    {
        self.weekday() >= 5
    }

    /// The day `days` days later (earlier if negative).
    pub fn add_days(&self, days: i64) -> (d: Date)
        requires
            first_epoch_day() <= epoch_day(self@) + days < end_epoch_day(),
        ensures
            epoch_day(d@) == epoch_day(self@) + days,
    {
        Date::from_days_since_epoch(self.days_since_epoch() + days)
    }

    /// The ISO 8601 week number.
    pub fn iso_week(&self) -> (w: u8)
        requires
            first_epoch_day() <= thursday_of(epoch_day(self@)) < end_epoch_day(),
        ensures
            w == iso_week_of(epoch_day(self@)),
            1 <= w <= 53,
    {
        let n = self.days_since_epoch();
        let weekday = self.weekday() as i64;
        let thursday = n - weekday + 3;
        let date = Date::from_days_since_epoch(thursday);
        proof {
            use_type_invariant(&date);
            lemma_within_year(date@);
            lemma_year_of_day(thursday as int, date@.0);
            lemma_year_length(date@.0);
        }
        let start = days_before(date.year as i64);
        let q = floor_div(thursday - start, 7);
        (q + 1) as u8
    }
}

/// The six weeks that a month's calendar shows: from the Monday of the
/// week of its first day on, 42 days.
pub fn calendar_days(shown: &Date) -> (days: Vec<Date>)
    requires
        first_epoch_day() <= epoch_day(shown@) - 6,
        epoch_day(shown@) + 42 < end_epoch_day(),
    ensures
        days@.len() == 42,
        forall|i: int|
            0 <= i < 42 ==> epoch_day(#[trigger] days@[i]@) == epoch_day(shown@) - weekday_of(
                epoch_day(shown@),
            ) + i,
{
    let start = shown.add_days(-(shown.weekday() as i64));
    let mut days: Vec<Date> = Vec::new();
    let mut i: i64 = 0;
    while i < 42
        invariant
            0 <= i <= 42,
            days@.len() == i,
            epoch_day(start@) == epoch_day(shown@) - weekday_of(epoch_day(shown@)),
            first_epoch_day() <= epoch_day(shown@) - 6,
            epoch_day(shown@) + 42 < end_epoch_day(),
            forall|k: int|
                0 <= k < i ==> epoch_day(#[trigger] days@[k]@) == epoch_day(start@) + k,
        decreases 42 - i,
    {
        days.push(start.add_days(i));
        i = i + 1;
    }
    days
}

/// The calendar day `n` days after 1 January 1970 (before it if negative).
pub open spec fn civil_date(n: int) -> (int, int, int) {
    choose|d: (int, int, int)| #![trigger epoch_day(d)] valid_date(d.0, d.1, d.2) && epoch_day(d) == n
}

/// Hour, minute and second of the moment `seconds` seconds after a midnight
/// (a multiple of 86400 seconds before it).
pub open spec fn clock_of(seconds: int) -> (int, int, int) {
    let r = seconds % 86400;
    (r / 3600, (r % 3600) / 60, r % 60)
}

/// A day that the calendar holds is the civil date of its count of days.
pub proof fn lemma_civil_date(date: (int, int, int))
    requires
        valid_date(date.0, date.1, date.2),
    ensures
        civil_date(epoch_day(date)) == date,
{
    let c = civil_date(epoch_day(date));
    assert(valid_date(c.0, c.1, c.2) && epoch_day(c) == epoch_day(date));
    lemma_epoch_day_injective(date, c);
}

impl DateTime {
    /// The moment `seconds` seconds after 1 January 1970 00:00:00.
    pub fn from_unix(seconds: i64) -> (d: DateTime)
        requires
            first_epoch_day() * 86400 <= seconds < end_epoch_day() * 86400,
        ensures
            d.date@ == civil_date(seconds / 86400),
            valid_date(d.date@.0, d.date@.1, d.date@.2),
            epoch_day(d.date@) == seconds / 86400,
            d.time@ == clock_of(seconds as int),
    {
        let days = floor_div(seconds, 86400);
        let rest = seconds - days * 86400;
        let date = Date::from_days_since_epoch(days);
        proof {
            use_type_invariant(&date);
        }
        let time = Time {
            hour: (rest / 3600) as u8,
            minute: ((rest % 3600) / 60) as u8,
            second: (rest % 60) as u8,
        };
        DateTime { date, time }
    }
}

/// Days from the epoch to the first day of the month with index `k`.
pub open spec fn month_first_day(k: int) -> int {
    epoch_day((index_year(k), index_month(k), 1))
}

/// A year and month are found again from their month index.
pub proof fn lemma_month_index(year: int, month: int)
    requires
        1 <= month <= 12,
    ensures
        index_year(month_index(year, month)) == year,
        index_month(month_index(year, month)) == month,
{
    vstd::arithmetic::div_mod::lemma_fundamental_div_mod_converse(
        month_index(year, month),
        12,
        year,
        month - 1,
    );
}

/// The next month starts where the month ends.
pub proof fn lemma_next_month(k: int)
    ensures
        1 <= index_month(k) <= 12,
        month_first_day(k + 1) == month_first_day(k) + days_in_month(index_year(k), index_month(k)),
{
    let y = index_year(k);
    let m = index_month(k);
    vstd::arithmetic::div_mod::lemma_fundamental_div_mod(k, 12);
    vstd::arithmetic::div_mod::lemma_mod_bound(k, 12);
    if m < 12 {
        vstd::arithmetic::div_mod::lemma_fundamental_div_mod_converse(k + 1, 12, y, m);
    } else {
        vstd::arithmetic::div_mod::lemma_fundamental_div_mod_converse(k + 1, 12, y + 1, 0);
    }
    lemma_month_fits(y, m);
}

/// Later months start later, by at least 28 days a month.
pub proof fn lemma_months_grow(a: int, b: int)
    requires
        a < b,
    ensures
        month_first_day(a) + 28 * (b - a) <= month_first_day(b),
    decreases b - a,
{
    lemma_next_month(a);
    if a + 1 < b {
        lemma_months_grow(a + 1, b);
    }
}

/// The Turkish name of the month (1 to 12).
pub open spec fn full_month(month: int) -> Seq<char> {
    if month == 1 {
        "Ocak"@
    } else if month == 2 {
        "Şubat"@
    } else if month == 3 {
        "Mart"@
    } else if month == 4 {
        "Nisan"@
    } else if month == 5 {
        "Mayıs"@
    } else if month == 6 {
        "Haziran"@
    } else if month == 7 {
        "Temmuz"@
    } else if month == 8 {
        "Ağustos"@
    } else if month == 9 {
        "Eylül"@
    } else if month == 10 {
        "Ekim"@
    } else if month == 11 {
        "Kasım"@
    } else {
        "Aralık"@
    }
}

/// The three-letter Turkish abbreviation of the month (1 to 12).
pub open spec fn short_month(month: int) -> Seq<char> {
    if month == 1 {
        "Oca"@
    } else if month == 2 {
        "Şub"@
    } else if month == 3 {
        "Mar"@
    } else if month == 4 {
        "Nis"@
    } else if month == 5 {
        "May"@
    } else if month == 6 {
        "Haz"@
    } else if month == 7 {
        "Tem"@
    } else if month == 8 {
        "Ağu"@
    } else if month == 9 {
        "Eyl"@
    } else if month == 10 {
        "Eki"@
    } else if month == 11 {
        "Kas"@
    } else {
        "Ara"@
    }
}

/// The Turkish name of the month.
pub fn month_name(month: u8) -> (s: &'static str)
    ensures
        s@ == full_month(month as int),
{
    if month == 1 {
        "Ocak"
    } else if month == 2 {
        "Şubat"
    } else if month == 3 {
        "Mart"
    } else if month == 4 {
        "Nisan"
    } else if month == 5 {
        "Mayıs"
    } else if month == 6 {
        "Haziran"
    } else if month == 7 {
        "Temmuz"
    } else if month == 8 {
        "Ağustos"
    } else if month == 9 {
        "Eylül"
    } else if month == 10 {
        "Ekim"
    } else if month == 11 {
        "Kasım"
    } else {
        "Aralık"
    }
}

/// The three-letter Turkish abbreviation of the month.
pub fn month_abbreviation(month: u8) -> (s: &'static str)
    ensures
        s@ == short_month(month as int),
{
    if month == 1 {
        "Oca"
    } else if month == 2 {
        "Şub"
    } else if month == 3 {
        "Mar"
    } else if month == 4 {
        "Nis"
    } else if month == 5 {
        "May"
    } else if month == 6 {
        "Haz"
    } else if month == 7 {
        "Tem"
    } else if month == 8 {
        "Ağu"
    } else if month == 9 {
        "Eyl"
    } else if month == 10 {
        "Eki"
    } else if month == 11 {
        "Kas"
    } else {
        "Ara"
    }
}

impl Date {
    /// Dates with the same year, month and day are the same value.
    pub proof fn lemma_same_view(self, other: Date)
        requires
            self@ == other@,
        ensures
            self == other,
    {
    }
}

impl Time {
    /// Times with the same hour, minute and second are the same value.
    pub proof fn lemma_same_view(self, other: Time)
        requires
            self@ == other@,
        ensures
            self == other,
    {
    }
}

} // verus!
