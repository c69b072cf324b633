//! Calendar dates of the proleptic Gregorian calendar, counted in whole days.
//! Freshness of cached data is judged by date, never by time of day.

use vstd::prelude::*;
use vstd::string::*;

verus! {

/// A calendar date as three numbers.
pub struct Ymd {
    pub year: int,
    pub month: int,
    pub day: int,
}

pub open spec fn is_leap(year: int) -> bool {
    year % 4 == 0 && (year % 100 != 0 || year % 400 == 0)
}

pub open spec fn days_in_month(year: int, month: int) -> int {
    if month == 2 {
        if is_leap(year) {
            29
        } else {
            28
        }
    } else if month == 4 || month == 6 || month == 9 || month == 11 {
        30
    } else {
        31
    }
}

/// Days of `year` that lie before the first of `month`.
pub open spec fn days_before_month(year: int, month: int) -> int
    decreases month,
{
    if month <= 1 {
        0
    } else {
        days_before_month(year, month - 1) + days_in_month(year, month - 1)
    }
}

/// Days from 0001-01-01 to the first of January of `year`.
pub open spec fn days_before_year(year: int) -> int {
    365 * (year - 1) + (year - 1) / 4 - (year - 1) / 100 + (year - 1) / 400
}

/// The day number of 1970-01-01 counted from 0001-01-01.
pub open spec fn epoch_offset() -> int {
    719162
}

/// A date that the calendar has, in the years 1 to 9999.
pub open spec fn valid_ymd(v: Ymd) -> bool {
    &&& 1 <= v.year <= 9999
    &&& 1 <= v.month <= 12
    &&& 1 <= v.day <= days_in_month(v.year, v.month)
}

/// Days from 1970-01-01 to `v`; negative before it.
pub open spec fn day_number_of(v: Ymd) -> int {
    days_before_year(v.year) + days_before_month(v.year, v.month) + (v.day - 1) - epoch_offset()
}

/// The day number of 0001-01-01.
pub open spec fn first_day() -> int {
    -719162
}

/// The day number of 9999-12-31.
pub open spec fn last_day() -> int {
    2932896
}

pub open spec fn digit_glyph(d: int) -> char {
    if d == 0 {
        '0'
    } else if d == 1 {
        '1'
    } else if d == 2 {
        '2'
    } else if d == 3 {
        '3'
    } else if d == 4 {
        '4'
    } else if d == 5 {
        '5'
    } else if d == 6 {
        '6'
    } else if d == 7 {
        '7'
    } else if d == 8 {
        '8'
    } else {
        '9'
    }
}

/// The last `width` decimal digits of `n`, with leading zeros.
pub open spec fn decimal_digits(n: int, width: nat) -> Seq<char>
    decreases width,
{
    if width == 0 {
        Seq::<char>::empty()
    } else {
        decimal_digits(n / 10, (width - 1) as nat).push(digit_glyph(n % 10))
    }
}

/// A date written as eight digits: year, month, day.
pub open spec fn compact_form(v: Ymd) -> Seq<char> {
    decimal_digits(v.year, 4) + decimal_digits(v.month, 2) + decimal_digits(v.day, 2)
}

/// A valid calendar date.
#[derive(Clone, Copy, Debug, PartialEq, Eq, Structural)]
pub struct Date {
    year: u16,
    month: u8,
    day: u8,
}

impl View for Date {
    type V = Ymd;

    closed spec fn view(&self) -> Ymd {
        Ymd { year: self.year as int, month: self.month as int, day: self.day as int }
    }
}

/// A year has 365 days, a leap year one more.
pub proof fn lemma_year_length(year: int)
    ensures
        days_before_month(year, 13) == 365 + if is_leap(year) { 1int } else { 0int },
        days_before_year(year + 1) == days_before_year(year) + days_before_month(year, 13),
{
    reveal_with_fuel(days_before_month, 14);
}

/// Later years start later.
pub proof fn lemma_years_ordered(a: int, b: int)
    requires
        a < b,
    ensures
        days_before_year(a + 1) <= days_before_year(b),
{
}

/// Within a year, a day of an earlier month comes before the first of a
/// later month.
pub proof fn lemma_months_ordered(year: int, a: int, b: int)
    requires
        1 <= a < b <= 13,
    ensures
        days_before_month(year, a) + days_in_month(year, a) <= days_before_month(year, b),
        days_before_month(year, a) >= 0,
{
    reveal_with_fuel(days_before_month, 14);
}

/// Two valid dates with the same day number are the same date.
pub proof fn lemma_day_number_injective(a: Ymd, b: Ymd)
    requires
        valid_ymd(a),
        valid_ymd(b),
        day_number_of(a) == day_number_of(b),
    ensures
        a == b,
{
    lemma_span(a);
    lemma_span(b);
    if a.year < b.year {
        lemma_years_ordered(a.year, b.year);
    } else if b.year < a.year {
        lemma_years_ordered(b.year, a.year);
    } else if a.month < b.month {
        lemma_months_ordered(a.year, a.month, b.month);
    } else if b.month < a.month {
        lemma_months_ordered(a.year, b.month, a.month);
    }
}

/// A valid date lies within its year, and its day number within the range of
/// day numbers.
pub proof fn lemma_span(v: Ymd)
    requires
        valid_ymd(v),
    ensures
        days_before_year(v.year) - epoch_offset() <= day_number_of(v) < days_before_year(v.year + 1)
            - epoch_offset(),
        first_day() <= day_number_of(v) <= last_day(),
{
    lemma_year_length(v.year);
    lemma_months_ordered(v.year, v.month, 13);
    if v.year > 1 {
        lemma_years_ordered(0, v.year);
    }
    if v.year < 9999 {
        lemma_years_ordered(v.year, 9999);
    }
    lemma_year_length(9999);
}

fn leap(year: u16) -> (r: bool)
    ensures
        r == is_leap(year as int),
{
    year % 4 == 0 && (year % 100 != 0 || year % 400 == 0)
}

fn month_length(year: u16, month: u8) -> (r: u8)
    ensures
        r == days_in_month(year as int, month as int),
{
    if month == 2 {
        if leap(year) {
            29
        } else {
            28
        }
    } else if month == 4 || month == 6 || month == 9 || month == 11 {
        30
    } else {
        31
    }
}

fn year_start(year: u16) -> (r: i64)
    requires
        1 <= year <= 10000,
    ensures
        r == days_before_year(year as int),
{
    let y: i64 = (year - 1) as i64;
    365 * y + y / 4 - y / 100 + y / 400
}

fn glyph(d: u16) -> (c: char)
    requires
        d < 10,
    ensures
        c == digit_glyph(d as int),
{
    if d == 0 {
        '0'
    } else if d == 1 {
        '1'
    } else if d == 2 {
        '2'
    } else if d == 3 {
        '3'
    } else if d == 4 {
        '4'
    } else if d == 5 {
        '5'
    } else if d == 6 {
        '6'
    } else if d == 7 {
        '7'
    } else if d == 8 {
        '8'
    } else {
        '9'
    }
}

impl Date {
    #[verifier::type_invariant]
    spec fn inv(self) -> bool {
        valid_ymd(self@)
    }

    /// The date with these numbers, if the calendar has it.
    pub fn new(year: u16, month: u8, day: u8) -> (r: Option<Date>)
        ensures
            r is Some <==> valid_ymd(Ymd { year: year as int, month: month as int, day: day as int }),
            r is Some ==> r->0@ == (Ymd { year: year as int, month: month as int, day: day as int }),
    {
        if 1 <= year && year <= 9999 && 1 <= month && month <= 12 && 1 <= day && day
            <= month_length(year, month) {
            Some(Date { year, month, day })
        } else {
            None
        }
    }

    pub fn year(&self) -> (r: u16)
        ensures
            r == self@.year,
    {
        self.year
    }

    pub fn month(&self) -> (r: u8)
        ensures
            r == self@.month,
    {
        self.month
    }

    pub fn day(&self) -> (r: u8)
        ensures
            r == self@.day,
    {
        self.day
    }

    /// Days from 1970-01-01 to this date; negative before it.
    pub fn day_number(&self) -> (n: i64)
        ensures
            valid_ymd(self@),
            n == day_number_of(self@),
            first_day() <= n <= last_day(),
    {
        proof {
            use_type_invariant(self);
            lemma_span(self@);
        }
        let mut days: i64 = year_start(self.year);
        let mut m: u8 = 1;
        while m < self.month
            invariant
                1 <= m <= self.month <= 12,
                days == days_before_year(self.year as int) + days_before_month(
                    self.year as int,
                    m as int,
                ),
                0 <= days_before_year(self.year as int) <= 3652059,
                0 <= days_before_month(self.year as int, m as int) <= 366,
            decreases self.month - m,
        {
            proof {
                lemma_months_ordered(self.year as int, m as int, 13);
                lemma_year_length(self.year as int);
                if m + 1 < 13 {
                    lemma_months_ordered(self.year as int, m as int + 1, 13);
                }
            }
            days = days + month_length(self.year, m) as i64;
            m = m + 1;
        }
        days + (self.day as i64 - 1) - 719162
    }

    /// The date with day number `n`, if it lies in the years 1 to 9999.
    pub fn from_day_number(n: i64) -> (r: Option<Date>)
        ensures
            r is Some <==> first_day() <= n <= last_day(),
            r is Some ==> day_number_of(r->0@) == n,
    {
        if n < -719162 || n > 2932896 {
            return None;
        }
        let since: i64 = n + 719162;
        let mut year: u16 = (since / 366 + 1) as u16;
        proof {
            lemma_year_length(9999);
        }
        while year < 9999 && year_start(year + 1) <= since
            invariant
                1 <= year <= 9999,
                since == n + 719162,
                0 <= since <= 3652058,
                days_before_year(year as int) <= since,
            decreases 9999 - year,
        {
            year = year + 1;
        }
        let mut rest: i64 = since - year_start(year);
        let mut month: u8 = 1;
        proof {
            lemma_year_length(year as int);
        }
        while month < 12 && rest >= month_length(year, month) as i64
            invariant
                1 <= month <= 12,
                1 <= year <= 9999,
                0 <= rest,
                rest + days_before_month(year as int, month as int) + days_before_year(year as int)
                    == since,
                since < days_before_year(year as int) + days_before_month(year as int, 13),
            decreases 12 - month,
        {
            rest = rest - month_length(year, month) as i64;
            month = month + 1;
        }
        proof {
            lemma_months_ordered(year as int, month as int, 13);
            if month == 12 {
                reveal_with_fuel(days_before_month, 2);
            }
        }
        Some(Date { year, month, day: (rest + 1) as u8 })
    }

    /// Whole days from `earlier` to this date; negative if `earlier` is later.
    pub fn days_since(&self, earlier: &Date) -> (n: i64)
        ensures
            n == day_number_of(self@) - day_number_of(earlier@),
    {
        self.day_number() - earlier.day_number()
    }

    /// The date as eight digits, such as `20240131`.
    pub fn compact(&self) -> (s: String)
        ensures
            s@ == compact_form(self@),
    {
        proof {
            use_type_invariant(self);
            reveal_with_fuel(decimal_digits, 5);
        }
        let y: u16 = self.year;
        let m: u16 = self.month as u16;
        let d: u16 = self.day as u16;
        let mut v: Vec<char> = Vec::new();
        v.push(glyph(y / 1000 % 10));
        v.push(glyph(y / 100 % 10));
        v.push(glyph(y / 10 % 10));
        v.push(glyph(y % 10));
        v.push(glyph(m / 10 % 10));
        v.push(glyph(m % 10));
        v.push(glyph(d / 10 % 10));
        v.push(glyph(d % 10));
        assert(v@ == compact_form(self@));
        crate::text::text_of(&v, 0, 8)
    }
}

} // verus!
