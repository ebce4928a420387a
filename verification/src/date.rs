use vstd::prelude::*;
use vstd::arithmetic::div_mod::{
    lemma_fundamental_div_mod, lemma_fundamental_div_mod_converse, lemma_mod_bound, lemma_mod_mod,
};
use vstd::string::StrSliceExecFns;
use crate::error::ApiError;

verus! {

/// A calendar day of the proleptic Gregorian calendar, as observed in the
/// server's local zone. The library works on whole days only: every
/// timestamp is represented by the local day it falls on, and day-boundary
/// comparisons are therefore unambiguous. Years run from 1 through 9999,
/// the range the `YYYY-MM-DD` parameter form can express.
#[derive(Debug, Clone, Copy, PartialEq, Eq, Structural)]
pub struct Date {
    pub year: i64,
    pub month: i64,
    pub day: i64,
}

pub open spec fn is_leap_year(y: int) -> bool {
    (y % 4 == 0 && y % 100 != 0) || y % 400 == 0
}

pub open spec fn days_in_month(y: int, m: int) -> int {
    if m == 2 {
        if is_leap_year(y) {
            29
        } else {
            28
        }
    } else if m == 4 || m == 6 || m == 9 || m == 11 {
        30
    } else {
        31
    }
}

/// Days of year `y` that lie before the first day of month `m`.
pub open spec fn days_before_month(y: int, m: int) -> int {
    let leap: int = if is_leap_year(y) {
        1
    } else {
        0
    };
    if m <= 1 {
        0
    } else if m == 2 {
        31
    } else if m == 3 {
        59 + leap
    } else if m == 4 {
        90 + leap
    } else if m == 5 {
        120 + leap
    } else if m == 6 {
        151 + leap
    } else if m == 7 {
        181 + leap
    } else if m == 8 {
        212 + leap
    } else if m == 9 {
        243 + leap
    } else if m == 10 {
        273 + leap
    } else if m == 11 {
        304 + leap
    } else {
        334 + leap
    }
}

/// Leap days among the years 1 through `y`.
pub open spec fn leap_days_through(y: int) -> int {
    y / 4 - y / 100 + y / 400
}

/// Day number of the first day of year `y`, minus one; day number 1 is
/// the first representable day, 0001-01-01.
pub open spec fn year_base(y: int) -> int {
    365 * (y - 1) + leap_days_through(y - 1)
}

/// The greatest day number a `Date` can carry: 9999-12-31.
pub const LAST_DAY_NUMBER: i64 = 3652059;

impl Date {
    pub open spec fn valid(&self) -> bool {
        &&& 1 <= self.year <= 9999
        &&& 1 <= self.month <= 12
        &&& 1 <= self.day <= days_in_month(self.year as int, self.month as int)
    }

    /// The date's day number: days since the day before 0001-01-01, so
    /// that 0001-01-01 is day 1. Two valid dates carry the same day
    /// number exactly when they are equal.
    pub open spec fn day_number(&self) -> int {
        year_base(self.year as int) + days_before_month(self.year as int, self.month as int)
            + self.day as int
    }

    /// The calendar day after `self`.
    pub open spec fn next_spec(&self) -> Date {
        if self.day < days_in_month(self.year as int, self.month as int) {
            Date { year: self.year, month: self.month, day: (self.day + 1) as i64 }
        } else if self.month < 12 {
            Date { year: self.year, month: (self.month + 1) as i64, day: 1 }
        } else {
            Date { year: (self.year + 1) as i64, month: 1, day: 1 }
        }
    }
}

pub fn days_in_month_of(year: i64, month: i64) -> (r: i64)
    requires
        0 <= year <= 9999,
        1 <= month <= 12,
    ensures
        r == days_in_month(year as int, month as int),
{
    if month == 2 {
        if (year % 4 == 0 && year % 100 != 0) || year % 400 == 0 {
            29
        } else {
            28
        }
    } else if month == 4 || month == 6 || month == 9 || month == 11 {
        30
    } else {
        31
    }
}

impl Date {
    /// Whether the fields spell a real calendar day of years 1 through
    /// 9999.
    pub fn check_valid(&self) -> (r: bool)
        ensures
            r == self.valid(),
    {
        1 <= self.year && self.year <= 9999 && 1 <= self.month && self.month <= 12 && 1
            <= self.day && self.day <= days_in_month_of(self.year, self.month)
    }

    /// The date's day number, computed from the year/month/day fields.
    pub fn days_from_ce(&self) -> (r: i64)
        requires
            self.valid(),
        ensures
            r == self.day_number(),
            1 <= r <= LAST_DAY_NUMBER,
    {
        proof {
            self.lemma_day_number_bounds();
        }
        let y: i64 = self.year - 1;
        let leap: i64 = if (self.year % 4 == 0 && self.year % 100 != 0) || self.year % 400 == 0 {
            1
        } else {
            0
        };
        let before: i64 = match self.month {
            1 => 0,
            2 => 31,
            3 => 59 + leap,
            4 => 90 + leap,
            5 => 120 + leap,
            6 => 151 + leap,
            7 => 181 + leap,
            8 => 212 + leap,
            9 => 243 + leap,
            10 => 273 + leap,
            11 => 304 + leap,
            _ => 334 + leap,
        };
        365 * y + y / 4 - y / 100 + y / 400 + before + self.day
    }

    /// Every valid date's day number lies between 1 and `LAST_DAY_NUMBER`.
    pub proof fn lemma_day_number_bounds(&self)
        requires
            self.valid(),
        ensures
            1 <= self.day_number() <= LAST_DAY_NUMBER,
    {
        let y = self.year as int;
        assert(0 <= (y - 1) / 4 <= 2499 && 0 <= (y - 1) / 100 <= 99 && 0 <= (y - 1) / 400 <= 24
            && (y - 1) / 100 <= (y - 1) / 4) by {
            lemma_div_in_range(y - 1, 4, 0, 2500);
            lemma_div_in_range(y - 1, 100, 0, 100);
            lemma_div_in_range(y - 1, 400, 0, 25);
            lemma_div_denominators_ordered(y - 1, 4, 100);
        }
    }
}

/// For nonnegative `a` and `lo * n <= a < hi * n`, the quotient `a / n`
/// lies in `[lo, hi)`.
proof fn lemma_div_in_range(a: int, n: int, lo: int, hi: int)
    requires
        n >= 1,
        lo * n <= a < hi * n,
    ensures
        lo <= a / n < hi,
{
    lemma_fundamental_div_mod(a, n);
    lemma_mod_bound(a, n);
    assert(lo <= a / n < hi) by (nonlinear_arith)
        requires
            n >= 1,
            lo * n <= a < hi * n,
            a == n * (a / n) + a % n,
            0 <= a % n < n,
    ;
}

/// Dividing a nonnegative number by a larger positive divisor gives a
/// quotient no greater than dividing by the smaller one.
proof fn lemma_div_denominators_ordered(a: int, n1: int, n2: int)
    requires
        a >= 0,
        1 <= n1 <= n2,
    ensures
        a / n2 <= a / n1,
{
    lemma_fundamental_div_mod(a, n1);
    lemma_fundamental_div_mod(a, n2);
    lemma_mod_bound(a, n1);
    lemma_mod_bound(a, n2);
    assert(a / n2 <= a / n1) by (nonlinear_arith)
        requires
            a >= 0,
            1 <= n1 <= n2,
            a == n1 * (a / n1) + a % n1,
            a == n2 * (a / n2) + a % n2,
            0 <= a % n1 < n1,
            0 <= a % n2 < n2,
    ;
}

/// Stepping the dividend by one raises the quotient exactly when the new
/// dividend is a multiple of the divisor.
proof fn lemma_div_step(a: int, n: int)
    requires
        a >= 1,
        n >= 1,
    ensures
        a / n == (a - 1) / n + if a % n == 0 {
            1int
        } else {
            0int
        },
{
    let q = (a - 1) / n;
    let r = (a - 1) % n;
    lemma_fundamental_div_mod(a - 1, n);
    lemma_mod_bound(a - 1, n);
    if r + 1 == n {
        assert(a == (q + 1) * n + 0) by (nonlinear_arith)
            requires
                a - 1 == n * q + r,
                r + 1 == n,
        ;
        lemma_fundamental_div_mod_converse(a, n, q + 1, 0);
    } else {
        assert(a == q * n + (r + 1)) by (nonlinear_arith)
            requires
                a - 1 == n * q + r,
        ;
        lemma_fundamental_div_mod_converse(a, n, q, r + 1);
    }
}

/// Crossing from year `y - 1` into year `y` adds one leap day to the
/// running count exactly when `y` is a leap year.
proof fn lemma_leap_days_step(y: int)
    requires
        y >= 1,
    ensures
        leap_days_through(y) == leap_days_through(y - 1) + if is_leap_year(y) {
            1int
        } else {
            0int
        },
{
    lemma_div_step(y, 4);
    lemma_div_step(y, 100);
    lemma_div_step(y, 400);
    // A year divisible by 100 is divisible by 4, and one divisible by 400
    // is divisible by both.
    lemma_mod_mod(y, 4, 25);
    lemma_mod_mod(y, 100, 4);
    lemma_mod_mod(y, 4, 100);
    if y % 100 == 0 {
        assert(y % 4 == (y % 100) % 4);
    }
    if y % 400 == 0 {
        assert(y % 100 == (y % 400) % 100);
        assert(y % 4 == (y % 400) % 4);
    }
}

/// The first day of year `y + 1` comes 365 or 366 days after the first
/// day of year `y`, according to whether `y` is a leap year.
proof fn lemma_year_base_step(y: int)
    requires
        y >= 1,
    ensures
        year_base(y + 1) == year_base(y) + 365 + if is_leap_year(y) {
            1int
        } else {
            0int
        },
{
    lemma_leap_days_step(y);
}

proof fn lemma_year_base_ordered(y1: int, y2: int)
    requires
        1 <= y1 <= y2,
    ensures
        year_base(y1) <= year_base(y2),
    decreases y2 - y1,
{
    if y1 < y2 {
        lemma_year_base_ordered(y1, y2 - 1);
        lemma_year_base_step(y2 - 1);
    }
}

/// Successive calendar days carry successive day numbers.
pub proof fn lemma_next_day_number(d: Date)
    requires
        d.valid(),
        !(d.year == 9999 && d.month == 12 && d.day == 31),
    ensures
        d.next_spec().valid(),
        d.next_spec().day_number() == d.day_number() + 1,
{
    if d.day < days_in_month(d.year as int, d.month as int) {
    } else if d.month < 12 {
    } else {
        lemma_year_base_step(d.year as int);
    }
}

impl Date {
    /// The calendar day after `self`; its day number is one greater.
    pub fn next_day(&self) -> (r: Date)
        requires
            self.valid(),
            !(self.year == 9999 && self.month == 12 && self.day == 31),
        ensures
            r == self.next_spec(),
            r.valid(),
            r.day_number() == self.day_number() + 1,
    {
        proof {
            lemma_next_day_number(*self);
        }
        let dim: i64 = days_in_month_of(self.year, self.month);
        if self.day < dim {
            Date { year: self.year, month: self.month, day: self.day + 1 }
        } else if self.month < 12 {
            Date { year: self.year, month: self.month + 1, day: 1 }
        } else {
            Date { year: self.year + 1, month: 1, day: 1 }
        }
    }

    /// The calendar day before `self`; its day number is one smaller.
    pub fn prev_day(&self) -> (r: Date)
        requires
            self.valid(),
            !(self.year == 1 && self.month == 1 && self.day == 1),
        ensures
            r.valid(),
            r.day_number() == self.day_number() - 1,
    {
        let r: Date = if self.day > 1 {
            Date { year: self.year, month: self.month, day: self.day - 1 }
        } else if self.month > 1 {
            Date {
                year: self.year,
                month: self.month - 1,
                day: days_in_month_of(self.year, self.month - 1),
            }
        } else {
            Date { year: self.year - 1, month: 12, day: 31 }
        };
        proof {
            assert(r.next_spec() == *self);
            lemma_next_day_number(r);
        }
        r
    }

    /// The day `n` days before `self`, stopping at the first
    /// representable day, 0001-01-01, if the subtraction would leave the
    /// calendar.
    pub fn days_back(&self, n: u64) -> (r: Date)
        requires
            self.valid(),
        ensures
            r.valid(),
            r.day_number() == if self.day_number() - n >= 1 {
                self.day_number() - n
            } else {
                1int
            },
    {
        let mut current: Date = *self;
        let mut i: u64 = 0;
        while i < n
            invariant
                i <= n,
                current.valid(),
                current.day_number() == if self.day_number() - i >= 1 {
                    self.day_number() - i
                } else {
                    1int
                },
            decreases n - i,
        {
            proof {
                current.lemma_day_number_bounds();
            }
            if !(current.year == 1 && current.month == 1 && current.day == 1) {
                current = current.prev_day();
            } else {
                assert(current.day_number() == 1);
            }
            i = i + 1;
        }
        current
    }
}

/// Two valid dates with the same day number are the same date. Together
/// with `lemma_next_day_number`, this makes the day number a faithful
/// mirror of the calendar.
pub proof fn lemma_day_number_injective(d1: Date, d2: Date)
    requires
        d1.valid(),
        d2.valid(),
        d1.day_number() == d2.day_number(),
    ensures
        d1 == d2,
{
    if d1.year < d2.year || d2.year < d1.year {
        if d1.year < d2.year {
            lemma_day_number_year_ordered(d1, d2);
        } else {
            lemma_day_number_year_ordered(d2, d1);
        }
    } else {
        assert(d1.year == d2.year);
        if d1.month != d2.month || d1.day != d2.day {
            assert(days_before_month(d1.year as int, d1.month as int) + d1.day as int
                != days_before_month(d2.year as int, d2.month as int) + d2.day as int);
        }
    }
}

/// A date of an earlier year has a strictly smaller day number.
proof fn lemma_day_number_year_ordered(d1: Date, d2: Date)
    requires
        d1.valid(),
        d2.valid(),
        d1.year < d2.year,
    ensures
        d1.day_number() < d2.day_number(),
{
    let y1 = d1.year as int;
    let y2 = d2.year as int;
    lemma_year_base_step(y1);
    lemma_year_base_ordered(y1 + 1, y2);
    assert(d1.day_number() <= year_base(y1 + 1));
    assert(year_base(y2) + 1 <= d2.day_number());
}

pub open spec fn is_digit_char(c: char) -> bool {
    48 <= c as int <= 57
}

pub open spec fn digit_val(c: char) -> int {
    c as int - 48
}

/// The text has the shape `YYYY-MM-DD`: four digits, a dash, two digits,
/// a dash, two digits, and nothing more.
pub open spec fn date_text_shaped(s: Seq<char>) -> bool {
    &&& s.len() == 10
    &&& s[4] == '-'
    &&& s[7] == '-'
    &&& is_digit_char(s[0])
    &&& is_digit_char(s[1])
    &&& is_digit_char(s[2])
    &&& is_digit_char(s[3])
    &&& is_digit_char(s[5])
    &&& is_digit_char(s[6])
    &&& is_digit_char(s[8])
    &&& is_digit_char(s[9])
}

/// The date the digits of a well-shaped `YYYY-MM-DD` text spell out.
pub open spec fn parsed_date(s: Seq<char>) -> Date {
    Date {
        year: (1000 * digit_val(s[0]) + 100 * digit_val(s[1]) + 10 * digit_val(s[2]) + digit_val(
            s[3],
        )) as i64,
        month: (10 * digit_val(s[5]) + digit_val(s[6])) as i64,
        day: (10 * digit_val(s[8]) + digit_val(s[9])) as i64,
    }
}

/// The text is a well-shaped `YYYY-MM-DD` spelling of a valid calendar
/// date.
pub open spec fn date_text_valid(s: Seq<char>) -> bool {
    date_text_shaped(s) && parsed_date(s).valid()
}

/// The digit at position `i`, or `None` if the character there is not a
/// decimal digit.
fn digit_at(s: &str, i: usize) -> (r: Option<i64>)
    requires
        i < s@.len(),
    ensures
        r is Some <==> is_digit_char(s@[i as int]),
        r matches Some(v) ==> v == digit_val(s@[i as int]) && 0 <= v <= 9,
{
    let c: char = s.get_char(i);
    let u: u32 = c as u32;
    if 48 <= u && u <= 57 {
        Some((u - 48) as i64)
    } else {
        None
    }
}

/// Parses a `YYYY-MM-DD` parameter into a calendar day. The text must be
/// exactly ten characters, digits and dashes in their places, and must
/// name a valid day of years 1 through 9999; any other text is rejected
/// as `InvalidDateTime`.
pub fn parse_date(s: &str) -> (r: Result<Date, ApiError>)
    ensures
        r is Ok <==> date_text_valid(s@),
        r matches Ok(d) ==> d == parsed_date(s@) && d.valid(),
        r matches Err(e) ==> e == ApiError::InvalidDateTime,
{
    if s.unicode_len() != 10 {
        return Err(ApiError::InvalidDateTime);
    }
    if !(s.get_char(4) == '-' && s.get_char(7) == '-') {
        return Err(ApiError::InvalidDateTime);
    }
    let d0 = digit_at(s, 0);
    let d1 = digit_at(s, 1);
    let d2 = digit_at(s, 2);
    let d3 = digit_at(s, 3);
    let d5 = digit_at(s, 5);
    let d6 = digit_at(s, 6);
    let d8 = digit_at(s, 8);
    let d9 = digit_at(s, 9);
    match (d0, d1, d2, d3, d5, d6, d8, d9) {
        (
            Some(v0),
            Some(v1),
            Some(v2),
            Some(v3),
            Some(v5),
            Some(v6),
            Some(v8),
            Some(v9),
        ) => {
            let year: i64 = 1000 * v0 + 100 * v1 + 10 * v2 + v3;
            let month: i64 = 10 * v5 + v6;
            let day: i64 = 10 * v8 + v9;
            if year < 1 || month < 1 || month > 12 || day < 1 {
                return Err(ApiError::InvalidDateTime);
            }
            if day > days_in_month_of(year, month) {
                return Err(ApiError::InvalidDateTime);
            }
            Ok(Date { year, month, day })
        },
        _ => Err(ApiError::InvalidDateTime),
    }
}

} // verus!
