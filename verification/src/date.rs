//! Calendar dates in the proleptic Gregorian calendar.
//!
//! Every "day" and "month" boundary decision of the nightly job is made on
//! values of [`Date`], which the library computes itself from a clock
//! reading and a fixed timezone offset, so that one run never mixes two
//! timezones.

use vstd::arithmetic::div_mod::{
    lemma_fundamental_div_mod_converse_div,
    lemma_div_is_ordered, lemma_fundamental_div_mod, lemma_mod_division_less_than_divisor,
};
use vstd::prelude::*;
use vstd::string::StringSliceAdditionalSpecFns;

verus! {

/// Earliest year the calendar model covers.
pub const MIN_YEAR: i32 = 1600;

/// Latest year the calendar model covers.
pub const MAX_YEAR: i32 = 9999;

/// Day index of 9999-12-31, counted from 1600-01-01.
pub const MAX_DAY_INDEX: u64 = 3068036;

/// Day index of 1970-01-01, counted from 1600-01-01.
pub const EPOCH_DAY_INDEX: u64 = 135140;

pub const SECONDS_PER_DAY: i64 = 86400;

/// Smallest count of seconds after 1970-01-01 00:00:00 that lies beyond the
/// last covered day (the first second of year 10000).
pub const MAX_LOCAL_SECONDS: i64 = 253402300800;

/// A calendar date, valid when [`Date::wf`] holds.
#[derive(Clone, Copy, PartialEq, Eq, Structural, Debug)]
pub struct Date {
    pub year: i32,
    pub month: i32,
    pub day: i32,
}

pub open spec fn spec_is_leap_year(y: int) -> bool {
    y % 4 == 0 && (y % 100 != 0 || y % 400 == 0)
}

pub open spec fn spec_days_in_month(y: int, m: int) -> int {
    if m == 2 {
        if spec_is_leap_year(y) {
            29
        } else {
            28
        }
    } else if m == 4 || m == 6 || m == 9 || m == 11 {
        30
    } else {
        31
    }
}

pub open spec fn spec_year_length(y: int) -> int {
    if spec_is_leap_year(y) {
        366
    } else {
        365
    }
}

/// Number of leap years in the range `[MIN_YEAR, y)`.
pub open spec fn spec_leap_years_before(y: int) -> int {
    ((y - 1) / 4 - (y - 1) / 100 + (y - 1) / 400) - 387
}

/// Days from MIN_YEAR-01-01 to y-01-01.
pub open spec fn spec_days_before_year(y: int) -> int {
    365 * (y - 1600) + spec_leap_years_before(y)
}

/// Days from y-01-01 to y-m-01.
pub open spec fn spec_days_before_month(y: int, m: int) -> int
    decreases m,
{
    if m <= 1 {
        0
    } else {
        spec_days_before_month(y, m - 1) + spec_days_in_month(y, m - 1)
    }
}

impl Date {
    pub open spec fn wf(self) -> bool {
        &&& MIN_YEAR <= self.year <= MAX_YEAR
        &&& 1 <= self.month <= 12
        &&& 1 <= self.day <= spec_days_in_month(self.year as int, self.month as int)
    }

    /// Days since MIN_YEAR-01-01.
    pub open spec fn spec_day_index(self) -> int {
        spec_days_before_year(self.year as int) + spec_days_before_month(
            self.year as int,
            self.month as int,
        ) + self.day - 1
    }

    /// The very first covered date, the only one without a predecessor.
    pub open spec fn spec_is_min(self) -> bool {
        self.year == MIN_YEAR && self.month == 1 && self.day == 1
    }

    /// The calendar day right before `self`.
    pub open spec fn spec_pred(self) -> Date {
        if self.day > 1 {
            Date { year: self.year, month: self.month, day: (self.day - 1) as i32 }
        } else if self.month > 1 {
            Date {
                year: self.year,
                month: (self.month - 1) as i32,
                day: spec_days_in_month(self.year as int, self.month as int - 1) as i32,
            }
        } else {
            Date { year: (self.year - 1) as i32, month: 12, day: 31 }
        }
    }

    /// The first day of `self`'s month.
    pub open spec fn spec_month_start(self) -> Date {
        Date { year: self.year, month: self.month, day: 1 }
    }

    /// Checked constructor: `Some` exactly on well-formed dates.
    pub fn new(year: i32, month: i32, day: i32) -> (r: Option<Date>)
        ensures
            match r {
                Some(d) => d == (Date { year, month, day }) && d.wf(),
                None => !(Date { year, month, day }).wf(),
            },
    {
        if MIN_YEAR <= year && year <= MAX_YEAR && 1 <= month && month <= 12 && 1 <= day
            && day <= days_in_month(year, month) {
            Some(Date { year, month, day })
        } else {
            None
        }
    }

    /// The calendar day right before `self` ("yesterday" of a run).
    pub fn pred(self) -> (r: Date)
        requires
            self.wf(),
            !self.spec_is_min(),
        ensures
            r == self.spec_pred(),
            r.wf(),
    {
        if self.day > 1 {
            Date { year: self.year, month: self.month, day: self.day - 1 }
        } else if self.month > 1 {
            Date {
                year: self.year,
                month: self.month - 1,
                day: days_in_month(self.year, self.month - 1),
            }
        } else {
            Date { year: self.year - 1, month: 12, day: 31 }
        }
    }

    /// The first day of `self`'s month.
    pub fn month_start(self) -> (r: Date)
        requires
            self.wf(),
        ensures
            r == self.spec_month_start(),
            r.wf(),
    {
        Date { year: self.year, month: self.month, day: 1 }
    }

    /// Whether `self` is the first day of a calendar month.
    pub fn is_month_start(self) -> (r: bool)
        ensures
            r == (self.day == 1),
    {
        self.day == 1
    }
}

pub fn is_leap_year(y: i32) -> (r: bool)
    requires
        y >= 0,
    ensures
        r == spec_is_leap_year(y as int),
{
    y % 4 == 0 && (y % 100 != 0 || y % 400 == 0)
}

pub fn days_in_month(year: i32, month: i32) -> (r: i32)
    requires
        year >= 0,
    ensures
        r == spec_days_in_month(year as int, month as int),
{
    if month == 2 {
        if is_leap_year(year) {
            29
        } else {
            28
        }
    } else if month == 4 || month == 6 || month == 9 || month == 11 {
        30
    } else {
        31
    }
}

pub fn year_length(y: i32) -> (r: i32)
    requires
        y >= 0,
    ensures
        r == spec_year_length(y as int),
{
    if is_leap_year(y) {
        366
    } else {
        365
    }
}

/// For positive `d`, stepping the dividend by one raises the quotient
/// exactly at the multiples of `d`.
proof fn lemma_div_step(x: int, d: int)
    requires
        d > 0,
    ensures
        x / d == (x - 1) / d + if x % d == 0 {
            1int
        } else {
            0int
        },
{
    lemma_fundamental_div_mod(x, d);
    lemma_mod_division_less_than_divisor(x, d);
    if x % d == 0 {
        assert(x - 1 == (x / d - 1) * d + (d - 1)) by (nonlinear_arith)
            requires
                x == d * (x / d) + x % d && x % d == 0,
        ;
        lemma_fundamental_div_mod_converse_div(x - 1, d, x / d - 1, d - 1);
    } else {
        assert(x - 1 == (x / d) * d + (x % d - 1)) by (nonlinear_arith)
            requires
                x == d * (x / d) + x % d,
        ;
        lemma_fundamental_div_mod_converse_div(x - 1, d, x / d, x % d - 1);
    }
}

/// Days-before-year advances by exactly one year length per year.
pub proof fn lemma_year_step(y: int)
    ensures
        spec_days_before_year(y + 1) == spec_days_before_year(y) + spec_year_length(y),
{
    lemma_div_step(y, 4);
    lemma_div_step(y, 100);
    lemma_div_step(y, 400);
}

/// The months of a year sum to its length.
pub proof fn lemma_days_before_month_full(y: int)
    ensures
        spec_days_before_month(y, 13) == spec_year_length(y),
{
    reveal_with_fuel(spec_days_before_month, 13);
}

/// The predecessor day sits exactly one below in the day numbering.
pub proof fn lemma_day_index_pred(d: Date)
    requires
        d.wf(),
        !d.spec_is_min(),
    ensures
        d.spec_pred().wf(),
        d.spec_pred().spec_day_index() == d.spec_day_index() - 1,
{
    if d.day > 1 {
    } else if d.month > 1 {
        assert(spec_days_before_month(d.year as int, d.month as int) == spec_days_before_month(
            d.year as int,
            d.month as int - 1,
        ) + spec_days_in_month(d.year as int, d.month as int - 1));
    } else {
        lemma_year_step(d.year - 1);
        lemma_days_before_month_full(d.year - 1);
        assert(spec_days_before_month(d.year as int - 1, 13) == spec_days_before_month(
            d.year as int - 1,
            12,
        ) + 31);
    }
}

/// A day differs from the day before it: some field always changes.
pub proof fn lemma_pred_ne(d: Date)
    requires
        d.wf(),
        !d.spec_is_min(),
    ensures
        d.spec_pred() != d,
{
    if d.day > 1 {
        assert(d.spec_pred().day != d.day);
    } else if d.month > 1 {
        assert(d.spec_pred().month != d.month);
    } else {
        assert(d.spec_pred().year != d.year);
    }
}

/// Reconstructs the date with the given day index (days since
/// MIN_YEAR-01-01).
pub fn from_day_index(n: u64) -> (r: Date)
    requires
        n <= MAX_DAY_INDEX,
    ensures
        r.wf(),
        r.spec_day_index() == n,
{
    let mut y: i32 = MIN_YEAR;
    let mut rem: u64 = n;
    loop
        invariant
            MIN_YEAR <= y <= MAX_YEAR,
            n <= MAX_DAY_INDEX,
            rem == n - spec_days_before_year(y as int),
            spec_days_before_year(y as int) <= n,
        ensures
            MIN_YEAR <= y <= MAX_YEAR,
            rem == n - spec_days_before_year(y as int),
            rem < spec_year_length(y as int),
        decreases rem,
    {
        let len = year_length(y) as u64;
        if rem < len {
            break ;
        }
        proof {
            lemma_year_step(y as int);
            if y == MAX_YEAR {
                assert(spec_days_before_year(MAX_YEAR as int + 1) == 3068037);
                assert(false);
            }
        }
        rem = rem - len;
        y = y + 1;
    }
    let mut m: i32 = 1;
    loop
        invariant
            y >= 0,
            1 <= m <= 12,
            rem == n - spec_days_before_year(y as int) - spec_days_before_month(
                y as int,
                m as int,
            ),
            rem + spec_days_before_month(y as int, m as int) < spec_year_length(y as int),
        ensures
            1 <= m <= 12,
            rem == n - spec_days_before_year(y as int) - spec_days_before_month(
                y as int,
                m as int,
            ),
            rem < spec_days_in_month(y as int, m as int),
        decreases rem,
    {
        let len = days_in_month(y, m) as u64;
        if rem < len {
            break ;
        }
        proof {
            if m == 12 {
                lemma_days_before_month_full(y as int);
                assert(false);
            }
        }
        rem = rem - len;
        m = m + 1;
    }
    let d = Date { year: y, month: m, day: rem as i32 + 1 };
    d
}

pub open spec fn spec_is_digit(b: u8) -> bool {
    48 <= b <= 57
}

pub open spec fn spec_digit_val(b: u8) -> int {
    b - 48
}

pub open spec fn spec_digit_byte(n: int) -> u8 {
    (48 + n) as u8
}

/// The ten bytes of a date's ISO rendering, `YYYY-MM-DD`.
pub open spec fn spec_date_iso_bytes(d: Date) -> Seq<u8> {
    seq![
        spec_digit_byte(d.year as int / 1000 % 10),
        spec_digit_byte(d.year as int / 100 % 10),
        spec_digit_byte(d.year as int / 10 % 10),
        spec_digit_byte(d.year as int % 10),
        45u8,
        spec_digit_byte(d.month as int / 10 % 10),
        spec_digit_byte(d.month as int % 10),
        45u8,
        spec_digit_byte(d.day as int / 10 % 10),
        spec_digit_byte(d.day as int % 10),
    ]
}

/// Appends the ISO rendering of a date, `YYYY-MM-DD`.
pub fn push_date_iso_bytes(d: Date, out: &mut Vec<u8>)
    requires
        d.wf(),
    ensures
        final(out)@ == old(out)@ + spec_date_iso_bytes(d),
{
    out.push(48 + (d.year / 1000 % 10) as u8);
    out.push(48 + (d.year / 100 % 10) as u8);
    out.push(48 + (d.year / 10 % 10) as u8);
    out.push(48 + (d.year % 10) as u8);
    out.push(45);
    out.push(48 + (d.month / 10 % 10) as u8);
    out.push(48 + (d.month % 10) as u8);
    out.push(45);
    out.push(48 + (d.day / 10 % 10) as u8);
    out.push(48 + (d.day % 10) as u8);
    assert(final(out)@ =~= old(out)@ + spec_date_iso_bytes(d));
}

/// The ISO rendering of a date as a byte vector.
pub fn date_iso_bytes(d: Date) -> (r: Vec<u8>)
    requires
        d.wf(),
    ensures
        r@ == spec_date_iso_bytes(d),
{
    let mut out: Vec<u8> = Vec::new();
    push_date_iso_bytes(d, &mut out);
    out
}

/// What parsing `YYYY-MM-DD` yields: a date exactly when the bytes have
/// that exact shape and name a covered calendar day.
pub open spec fn spec_parse_date(s: Seq<u8>) -> Option<Date> {
    if s.len() == 10 && spec_is_digit(s[0]) && spec_is_digit(s[1]) && spec_is_digit(s[2])
        && spec_is_digit(s[3]) && s[4] == 45u8 && spec_is_digit(s[5]) && spec_is_digit(s[6]) && s[7]
        == 45u8 && spec_is_digit(s[8]) && spec_is_digit(s[9]) {
        let d = Date {
            year: (1000 * spec_digit_val(s[0]) + 100 * spec_digit_val(s[1]) + 10 * spec_digit_val(
                s[2],
            ) + spec_digit_val(s[3])) as i32,
            month: (10 * spec_digit_val(s[5]) + spec_digit_val(s[6])) as i32,
            day: (10 * spec_digit_val(s[8]) + spec_digit_val(s[9])) as i32,
        };
        if d.wf() {
            Some(d)
        } else {
            None
        }
    } else {
        None
    }
}

/// Calendar order on dates, by year, then month, then day.
pub open spec fn spec_date_le(a: Date, b: Date) -> bool {
    a.year < b.year || (a.year == b.year && (a.month < b.month || (a.month == b.month && a.day
        <= b.day)))
}

/// Compares two dates in calendar order.
pub fn date_le(a: Date, b: Date) -> (r: bool)
    ensures
        r == spec_date_le(a, b),
{
    a.year < b.year || (a.year == b.year && (a.month < b.month || (a.month == b.month && a.day
        <= b.day)))
}

/// Days-before-year grows by at least a year's floor per year.
proof fn lemma_days_before_year_monotonic(y1: int, y2: int)
    requires
        y1 <= y2,
    ensures
        spec_days_before_year(y1) <= spec_days_before_year(y2),
        y1 < y2 ==> spec_days_before_year(y1) + 365 <= spec_days_before_year(y2),
    decreases y2 - y1,
{
    if y1 < y2 {
        lemma_days_before_year_monotonic(y1, y2 - 1);
        lemma_year_step(y2 - 1);
    }
}

/// Days-before-month grows by the month lengths in between.
proof fn lemma_days_before_month_monotonic(y: int, m1: int, m2: int)
    requires
        1 <= m1 <= m2 <= 13,
    ensures
        spec_days_before_month(y, m1) <= spec_days_before_month(y, m2),
        m1 < m2 ==> spec_days_before_month(y, m1) + spec_days_in_month(y, m1)
            <= spec_days_before_month(y, m2),
    decreases m2 - m1,
{
    if m1 < m2 {
        lemma_days_before_month_monotonic(y, m1, m2 - 1);
    }
}

/// Within its year, a date's month-and-day part stays below the year
/// length and is never negative.
proof fn lemma_day_of_year_bounds(d: Date)
    requires
        d.wf(),
    ensures
        0 <= spec_days_before_month(d.year as int, d.month as int) + d.day - 1,
        spec_days_before_month(d.year as int, d.month as int) + d.day - 1 < spec_year_length(
            d.year as int,
        ),
{
    lemma_days_before_month_monotonic(d.year as int, 1, d.month as int);
    lemma_days_before_month_monotonic(d.year as int, d.month as int + 1, 13);
    lemma_days_before_month_full(d.year as int);
}

/// A strictly earlier date has a strictly smaller day index.
proof fn lemma_date_lt_day_index(a: Date, b: Date)
    requires
        a.wf(),
        b.wf(),
        spec_date_le(a, b),
        a != b,
    ensures
        a.spec_day_index() < b.spec_day_index(),
{
    lemma_day_of_year_bounds(a);
    lemma_day_of_year_bounds(b);
    if a.year < b.year {
        lemma_days_before_year_monotonic(a.year as int + 1, b.year as int);
        lemma_year_step(a.year as int);
    } else if a.month < b.month {
        lemma_days_before_month_monotonic(a.year as int, a.month as int + 1, b.month as int);
        lemma_days_before_month_monotonic(a.year as int, a.month as int, a.month as int + 1);
    }
}

/// Calendar order agrees with the day numbering: a date lies on or before
/// another exactly when its day index is no larger.
pub proof fn lemma_date_le_day_index(a: Date, b: Date)
    requires
        a.wf(),
        b.wf(),
    ensures
        spec_date_le(a, b) <==> a.spec_day_index() <= b.spec_day_index(),
{
    if spec_date_le(a, b) {
        if a != b {
            lemma_date_lt_day_index(a, b);
        }
    } else {
        assert(spec_date_le(b, a) && a != b);
        lemma_date_lt_day_index(b, a);
    }
}

/// A number below ten thousand is the weighted sum of its four decimal
/// digits.
proof fn lemma_four_digits(y: int)
    requires
        0 <= y < 10000,
    ensures
        y == 1000 * (y / 1000 % 10) + 100 * (y / 100 % 10) + 10 * (y / 10 % 10) + y % 10,
{
    lemma_fundamental_div_mod(y, 10);
    vstd::arithmetic::div_mod::lemma_div_denominator(y, 10, 10);
    lemma_fundamental_div_mod(y / 10, 10);
    vstd::arithmetic::div_mod::lemma_div_denominator(y, 100, 10);
    lemma_fundamental_div_mod(y / 100, 10);
    lemma_div_is_ordered(y, 9999, 1000);
    vstd::arithmetic::div_mod::lemma_div_pos_is_pos(y, 1000);
    vstd::arithmetic::div_mod::lemma_small_mod((y / 1000) as nat, 10);
}

/// A number below one hundred is the weighted sum of its two decimal
/// digits.
proof fn lemma_two_digits(m: int)
    requires
        0 <= m < 100,
    ensures
        m == 10 * (m / 10 % 10) + m % 10,
{
    lemma_fundamental_div_mod(m, 10);
    lemma_div_is_ordered(m, 99, 10);
    vstd::arithmetic::div_mod::lemma_div_pos_is_pos(m, 10);
    vstd::arithmetic::div_mod::lemma_small_mod((m / 10) as nat, 10);
}

/// Round trip: formatting a date and parsing the result gives the date
/// back.
pub proof fn lemma_date_iso_round_trip(d: Date)
    requires
        d.wf(),
    ensures
        spec_parse_date(spec_date_iso_bytes(d)) == Some(d),
{
    let s = spec_date_iso_bytes(d);
    lemma_four_digits(d.year as int);
    lemma_two_digits(d.month as int);
    lemma_two_digits(d.day as int);
    lemma_mod_division_less_than_divisor(d.year as int / 1000, 10);
    lemma_mod_division_less_than_divisor(d.year as int / 100, 10);
    lemma_mod_division_less_than_divisor(d.year as int / 10, 10);
    lemma_mod_division_less_than_divisor(d.year as int, 10);
    lemma_mod_division_less_than_divisor(d.month as int / 10, 10);
    lemma_mod_division_less_than_divisor(d.month as int, 10);
    lemma_mod_division_less_than_divisor(d.day as int / 10, 10);
    lemma_mod_division_less_than_divisor(d.day as int, 10);
    vstd::arithmetic::div_mod::lemma_div_pos_is_pos(d.year as int / 1000, 10);
    assert(spec_is_digit(s[0]) && spec_is_digit(s[1]) && spec_is_digit(s[2]) && spec_is_digit(
        s[3],
    ));
    assert(spec_is_digit(s[5]) && spec_is_digit(s[6]) && spec_is_digit(s[8]) && spec_is_digit(
        s[9],
    ));
    assert(1000 * spec_digit_val(s[0]) + 100 * spec_digit_val(s[1]) + 10 * spec_digit_val(s[2])
        + spec_digit_val(s[3]) == d.year);
    assert(10 * spec_digit_val(s[5]) + spec_digit_val(s[6]) == d.month);
    assert(10 * spec_digit_val(s[8]) + spec_digit_val(s[9]) == d.day);
}

/// Parses a `YYYY-MM-DD` string into a covered calendar date.
pub fn parse_date(s: &str) -> (r: Option<Date>)
    ensures
        r == spec_parse_date(s.spec_bytes()),
        match r {
            Some(d) => d.wf(),
            None => true,
        },
{
    let b = s.as_bytes();
    if b.len() != 10 {
        return None;
    }
    let digit_ok = (48 <= b[0] && b[0] <= 57) && (48 <= b[1] && b[1] <= 57) && (48 <= b[2] && b[2]
        <= 57) && (48 <= b[3] && b[3] <= 57) && (48 <= b[5] && b[5] <= 57) && (48 <= b[6] && b[6]
        <= 57) && (48 <= b[8] && b[8] <= 57) && (48 <= b[9] && b[9] <= 57);
    if !(digit_ok && b[4] == 45 && b[7] == 45) {
        return None;
    }
    let year = 1000 * (b[0] - 48) as i32 + 100 * (b[1] - 48) as i32 + 10 * (b[2] - 48) as i32 + (
    b[3] - 48) as i32;
    let month = 10 * (b[5] - 48) as i32 + (b[6] - 48) as i32;
    let day = 10 * (b[8] - 48) as i32 + (b[9] - 48) as i32;
    Date::new(year, month, day)
}

/// Converts a count of seconds since 1970-01-01 00:00:00, already shifted
/// into the fixed timezone, to the calendar date it falls on.
pub fn date_of_local_seconds(local: i64) -> (r: Date)
    requires
        0 <= local < MAX_LOCAL_SECONDS,
    ensures
        r.wf(),
        r.spec_day_index() == EPOCH_DAY_INDEX + (local as int) / (SECONDS_PER_DAY as int),
        !r.spec_is_min(),
{
    let days: i64 = local / SECONDS_PER_DAY;
    proof {
        lemma_div_is_ordered(local as int, MAX_LOCAL_SECONDS - 1, SECONDS_PER_DAY as int);
        lemma_fundamental_div_mod(local as int, SECONDS_PER_DAY as int);
        lemma_mod_division_less_than_divisor(local as int, SECONDS_PER_DAY as int);
    }
    let r = from_day_index(EPOCH_DAY_INDEX + days as u64);
    proof {
        if r.spec_is_min() {
            assert(r.spec_day_index() == 0);
        }
    }
    r
}

} // verus!
