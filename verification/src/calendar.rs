//! The calendar date of a point in time, for the note that goes with an entry
//! in the trash.

use vstd::prelude::*;

verus! {

/// The seconds of a day.
pub const SECONDS_PER_DAY: u64 = 86_400;

/// The days of four hundred years, after which the calendar repeats.
pub const DAYS_PER_CYCLE: u64 = 146_097;

/// A date and a time of day, in universal time.
#[derive(Clone, Copy, Debug, PartialEq, Eq)]
pub struct CalendarTime {
    pub year: u64,
    pub month: u8,
    pub day: u8,
    pub hour: u8,
    pub minute: u8,
    pub second: u8,
}

/// Whether a year has a 29th of February.
pub open spec fn is_leap_year(year: int) -> bool {
    year % 4 == 0 && (year % 100 != 0 || year % 400 == 0)
}

/// The number of days of a year.
pub open spec fn days_in_year(year: int) -> int {
    if is_leap_year(year) {
        366
    } else {
        365
    }
}

/// The number of days of a month, counted from 1.
pub open spec fn days_in_month(year: int, month: int) -> int {
    if month == 2 {
        if is_leap_year(year) {
            29
        } else {
            28
        }
    } else if month == 4 || month == 6 || month == 9 || month == 11 {
        30
    } else {
        31
    }
}

/// The days from the first day of 1970 to the first day of `year`.
pub open spec fn days_before_year(year: int) -> int
    decreases year,
{
    if year <= 1970 {
        0
    } else {
        days_before_year(year - 1) + days_in_year(year - 1)
    }
}

/// The days from the first day of `year` to the first day of its `month`.
pub open spec fn days_before_month(year: int, month: int) -> int
    decreases month,
{
    if month <= 1 {
        0
    } else {
        days_before_month(year, month - 1) + days_in_month(year, month - 1)
    }
}

/// The seconds from the start of 1970 to the given date and time of day.
pub open spec fn seconds_until(time: CalendarTime) -> int {
    let days = days_before_year(time.year as int) + days_before_month(
        time.year as int,
        time.month as int,
    ) + (time.day - 1);
    ((days * 24 + time.hour) * 60 + time.minute) * 60 + time.second
}

/// Whether the fields name a day of the calendar, from 1970 on, and a time
/// of that day.
pub open spec fn is_calendar_time(time: CalendarTime) -> bool {
    &&& time.year >= 1970
    &&& 1 <= time.month <= 12
    &&& 1 <= time.day <= days_in_month(time.year as int, time.month as int)
    &&& time.hour < 24
    &&& time.minute < 60
    &&& time.second < 60
}

/// The leap days from the start of the calendar to the first day of `year`.
pub open spec fn leap_days_before(year: int) -> int {
    (year - 1) / 4 - (year - 1) / 100 + (year - 1) / 400
}

/// From one number to the next, the quotient by `divisor` grows by one where
/// the number is a multiple of it, and stays elsewhere.
proof fn lemma_quotient_step(number: int, divisor: int)
    requires
        number >= 1,
        divisor > 0,
    ensures
        number / divisor - (number - 1) / divisor == if number % divisor == 0 {
            1int
        } else {
            0int
        },
{
    let q = number / divisor;
    let r = number % divisor;
    vstd::arithmetic::div_mod::lemma_fundamental_div_mod(number, divisor);
    if r == 0 {
        assert(number - 1 == (q - 1) * divisor + (divisor - 1)) by (nonlinear_arith)
            requires
                number == divisor * q + r,
                r == 0,
        ;
        vstd::arithmetic::div_mod::lemma_fundamental_div_mod_converse(
            number - 1,
            divisor,
            q - 1,
            divisor - 1,
        );
    } else {
        assert(number - 1 == q * divisor + (r - 1)) by (nonlinear_arith)
            requires
                number == divisor * q + r,
        ;
        vstd::arithmetic::div_mod::lemma_fundamental_div_mod_converse(
            number - 1,
            divisor,
            q,
            r - 1,
        );
    }
}

/// A year adds a leap day to the count exactly where it is a leap year.
proof fn lemma_leap_day_step(year: int)
    requires
        year >= 1,
    ensures
        leap_days_before(year + 1) - leap_days_before(year) == if is_leap_year(year) {
            1int
        } else {
            0int
        },
{
    lemma_quotient_step(year, 4);
    lemma_quotient_step(year, 100);
    lemma_quotient_step(year, 400);
    if year % 400 == 0 {
        assert(year % 100 == 0 && year % 4 == 0) by {
            vstd::arithmetic::div_mod::lemma_fundamental_div_mod(year, 400);
            let q = year / 400;
            vstd::arithmetic::div_mod::lemma_fundamental_div_mod_converse(year, 100, 4 * q, 0);
            vstd::arithmetic::div_mod::lemma_fundamental_div_mod_converse(year, 4, 100 * q, 0);
        }
    }
    if year % 100 == 0 {
        assert(year % 4 == 0) by {
            vstd::arithmetic::div_mod::lemma_fundamental_div_mod(year, 100);
            let q = year / 100;
            vstd::arithmetic::div_mod::lemma_fundamental_div_mod_converse(year, 4, 25 * q, 0);
        }
    }
}

/// The days before a year, counted without going through the years: 365 for
/// each, and one more for each leap year among them.
pub proof fn lemma_days_before_year(year: int)
    requires
        year >= 1970,
    ensures
        days_before_year(year) == 365 * (year - 1970) + leap_days_before(year) - 477,
    decreases year,
{
    if year > 1970 {
        lemma_days_before_year(year - 1);
        lemma_leap_day_step(year - 1);
    } else {
        assert(1969int / 4 == 492 && 1969int / 100 == 19 && 1969int / 400 == 4);
    }
}

/// Four hundred years are 146097 days, wherever they start.
pub proof fn lemma_cycle_of_years(cycles: int)
    requires
        cycles >= 0,
    ensures
        days_before_year(1970 + 400 * cycles) == 146_097 * cycles,
{
    lemma_days_before_year(1970 + 400 * cycles);
}

/// A year ends where the next begins: the days before its thirteenth month
/// are the days of the year.
pub proof fn lemma_months_fill_the_year(year: int)
    ensures
        days_before_month(year, 13) == days_in_year(year),
{
    reveal_with_fuel(days_before_month, 14);
}

/// Later years begin later: each year begins at least a year's days after
/// any year before it.
pub proof fn lemma_years_follow(earlier: int, later: int)
    requires
        1970 <= earlier <= later,
    ensures
        days_before_year(earlier) <= days_before_year(later),
        earlier < later ==> days_before_year(earlier) + days_in_year(earlier) <= days_before_year(
            later,
        ),
    decreases later,
{
    if earlier < later {
        lemma_years_follow(earlier, later - 1);
    }
}

/// Later months begin later: each month begins at least a month's days after
/// any month before it.
pub proof fn lemma_months_follow(year: int, earlier: int, later: int)
    requires
        1 <= earlier <= later <= 13,
    ensures
        days_before_month(year, earlier) <= days_before_month(year, later),
        earlier < later ==> days_before_month(year, earlier) + days_in_month(year, earlier)
            <= days_before_month(year, later),
    decreases later,
{
    if earlier < later {
        lemma_months_follow(year, earlier, later - 1);
    }
}

/// A point in time has one date and one time of day: two calendar times that
/// lie equally many seconds after the start of 1970 are the same.
pub proof fn lemma_calendar_time_is_unique(a: CalendarTime, b: CalendarTime)
    requires
        is_calendar_time(a),
        is_calendar_time(b),
        seconds_until(a) == seconds_until(b),
    ensures
        a == b,
{
    let day_a = days_before_year(a.year as int) + days_before_month(
        a.year as int,
        a.month as int,
    ) + (a.day - 1);
    let day_b = days_before_year(b.year as int) + days_before_month(
        b.year as int,
        b.month as int,
    ) + (b.day - 1);
    assert(seconds_until(a) == day_a * 86_400 + a.hour * 3600 + a.minute * 60 + a.second);
    assert(seconds_until(b) == day_b * 86_400 + b.hour * 3600 + b.minute * 60 + b.second);
    assert(day_a == day_b);
    assert(a.hour == b.hour && a.minute == b.minute && a.second == b.second);
    lemma_months_fill_the_year(a.year as int);
    lemma_months_fill_the_year(b.year as int);
    lemma_months_follow(a.year as int, 1, a.month as int);
    lemma_months_follow(b.year as int, 1, b.month as int);
    lemma_months_follow(a.year as int, a.month as int, 13);
    lemma_months_follow(b.year as int, b.month as int, 13);
    if a.year < b.year {
        lemma_years_follow(a.year as int, b.year as int);
    }
    if b.year < a.year {
        lemma_years_follow(b.year as int, a.year as int);
    }
    assert(a.year == b.year);
    if a.month < b.month {
        lemma_months_follow(a.year as int, a.month as int, b.month as int);
    }
    if b.month < a.month {
        lemma_months_follow(a.year as int, b.month as int, a.month as int);
    }
    assert(a.month == b.month);
    assert(a.day == b.day);
}

/// Whether a year has a 29th of February.
pub fn is_leap(year: u64) -> (leap: bool)
    ensures
        leap == is_leap_year(year as int),
{
    year % 4 == 0 && (year % 100 != 0 || year % 400 == 0)
}

/// The number of days of a year.
pub fn year_length(year: u64) -> (days: u64)
    ensures
        days == days_in_year(year as int),
{
    if is_leap(year) {
        366
    } else {
        365
    }
}

/// The number of days of a month, counted from 1.
pub fn month_length(year: u64, month: u8) -> (days: u64)
    ensures
        days == days_in_month(year as int, month as int),
{
    if month == 2 {
        if is_leap(year) {
            29
        } else {
            28
        }
    } else if month == 4 || month == 6 || month == 9 || month == 11 {
        30
    } else {
        31
    }
}

/// The date and time of day that lie `seconds` after the start of 1970, in
/// universal time.
pub fn calendar_time(seconds: u64) -> (time: CalendarTime)
    ensures
        is_calendar_time(time),
        seconds_until(time) == seconds,
{
    let days: u64 = seconds / SECONDS_PER_DAY;
    let rest: u64 = seconds % SECONDS_PER_DAY;
    let cycles: u64 = days / DAYS_PER_CYCLE;
    let mut left: u64 = days % DAYS_PER_CYCLE;
    assert(cycles <= 1_500_000_000);
    let first: u64 = 1970 + 400 * cycles;
    let mut year: u64 = first;
    proof {
        lemma_cycle_of_years(cycles as int);
    }
    while left >= year_length(year)
        invariant
            first == 1970 + 400 * cycles,
            cycles <= 1_500_000_000,
            first <= year,
            (year - first) + left <= 146_097,
            days_before_year(year as int) + left == days,
        decreases left,
    {
        left = left - year_length(year);
        year = year + 1;
    }
    let mut month: u8 = 1;
    proof {
        lemma_months_fill_the_year(year as int);
        reveal_with_fuel(days_before_month, 2);
    }
    while left >= month_length(year, month)
        invariant
            1 <= month <= 12,
            year >= 1970,
            days_before_month(year as int, 13) == days_in_year(year as int),
            days_before_month(year as int, month as int) + left < days_in_year(year as int),
            days_before_year(year as int) + days_before_month(year as int, month as int) + left
                == days,
        decreases left,
    {
        proof {
            if month == 12 {
                assert(days_before_month(year as int, 13) == days_before_month(year as int, 12)
                    + days_in_month(year as int, 12));
            }
        }
        left = left - month_length(year, month);
        month = month + 1;
    }
    let time = CalendarTime {
        year,
        month,
        day: (left + 1) as u8,
        hour: (rest / 3600) as u8,
        minute: (rest % 3600 / 60) as u8,
        second: (rest % 60) as u8,
    };
    assert(seconds == days * 86_400 + rest);
    assert(rest == ((rest / 3600) * 60 + rest % 3600 / 60) * 60 + rest % 60);
    assert(seconds_until(time) == seconds) by {
        let whole = days_before_year(year as int) + days_before_month(year as int, month as int)
            + (time.day - 1);
        assert(whole == days);
        assert(((whole * 24 + time.hour) * 60 + time.minute) * 60 + time.second == whole * 86_400
            + ((time.hour * 60 + time.minute) * 60 + time.second));
    }
    time
}

} // verus!
