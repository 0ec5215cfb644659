//! Calendar dates and timestamps, as plain values.
//!
//! The history store keys its per-day aggregates by the calendar date (UTC)
//! of each entry's timestamp, formats dates as ISO `YYYY-MM-DD` keys, and
//! walks dates backwards to report the last N days. All of that is ordinary
//! proleptic-Gregorian arithmetic over the years 0 through 9999.

use vstd::prelude::*;

verus! {

/// A calendar date. Valid dates (see [`is_valid_date`]) range from
/// 0000-01-01 through 9999-12-31.
#[derive(Clone, Copy, Debug, PartialEq, Eq, Structural)]
pub struct Date {
    pub year: u32,
    pub month: u8,
    pub day: u8,
}

/// An instant, held as its UTC calendar date and time of day. The engine
/// reads only the date part; the time of day is carried for callers.
#[derive(Clone, Copy, Debug, PartialEq, Eq, Structural)]
pub struct Timestamp {
    pub date: Date,
    pub hour: u8,
    pub minute: u8,
    pub second: u8,
}

/// Gregorian leap-year rule.
pub open spec fn is_leap_year(y: int) -> bool {
    (y % 4 == 0 && y % 100 != 0) || y % 400 == 0
}

/// Days in a month of a given year.
pub open spec fn spec_days_in_month(y: int, m: int) -> int {
    if m == 2 {
        if is_leap_year(y) {
            29
        } else {
            28
        }
    } else if m == 4 || m == 6 || m == 9 || m == 11 {
        30
    } else {
        31
    }
}

pub open spec fn is_valid_date(d: Date) -> bool {
    &&& d.year <= 9999
    &&& 1 <= d.month <= 12
    &&& 1 <= d.day <= spec_days_in_month(d.year as int, d.month as int)
}

pub open spec fn is_valid_timestamp(t: Timestamp) -> bool {
    &&& is_valid_date(t.date)
    &&& t.hour <= 23
    &&& t.minute <= 59
    &&& t.second <= 59
}

/// Days in a month, executable form.
pub fn days_in_month(year: u32, month: u8) -> (r: u8)
    ensures
        r == spec_days_in_month(year as int, month as int),
{
    if month == 2 {
        if (year % 4 == 0 && year % 100 != 0) || year % 400 == 0 {
            29
        } else {
            28
        }
    } else if month == 4 || month == 6 || month == 9 || month == 11 {
        30
    } else {
        31
    }
}

impl Date {
    /// Build a date, accepting exactly the valid ones.
    pub fn new(year: u32, month: u8, day: u8) -> (r: Option<Date>)
        ensures
            r is Some <==> is_valid_date(Date { year, month, day }),
            r is Some ==> r->0 == (Date { year, month, day }),
    {
        let d = Date { year, month, day };
        if year <= 9999 && 1 <= month && month <= 12 && 1 <= day && day <= days_in_month(
            year,
            month,
        ) {
            Some(d)
        } else {
            None
        }
    }
}

impl Timestamp {
    /// Build a timestamp from calendar and clock fields, accepting exactly
    /// the valid ones.
    pub fn new(year: u32, month: u8, day: u8, hour: u8, minute: u8, second: u8) -> (r: Option<
        Timestamp,
    >)
        ensures
            r is Some <==> is_valid_timestamp(
                Timestamp { date: Date { year, month, day }, hour, minute, second },
            ),
            r is Some ==> r->0 == (Timestamp {
                date: Date { year, month, day },
                hour,
                minute,
                second,
            }),
    {
        let t = Timestamp { date: Date { year, month, day }, hour, minute, second };
        if year <= 9999 && 1 <= month && month <= 12 && 1 <= day && day <= days_in_month(
            year,
            month,
        ) && hour <= 23 && minute <= 59 && second <= 59 {
            Some(t)
        } else {
            None
        }
    }
}

/// The calendar predecessor of a date; the minimum date 0000-01-01 is its
/// own predecessor.
pub open spec fn spec_prev_day(d: Date) -> Date {
    if d.day > 1 {
        Date { year: d.year, month: d.month, day: (d.day - 1) as u8 }
    } else if d.month > 1 {
        Date {
            year: d.year,
            month: (d.month - 1) as u8,
            day: spec_days_in_month(d.year as int, d.month as int - 1) as u8,
        }
    } else if d.year > 0 {
        Date { year: (d.year - 1) as u32, month: 12, day: 31 }
    } else {
        d
    }
}

/// The date `k` days before `d` (clamped at the minimum date).
pub open spec fn spec_back_days(d: Date, k: nat) -> Date
    decreases k,
{
    if k == 0 {
        d
    } else {
        spec_prev_day(spec_back_days(d, (k - 1) as nat))
    }
}

/// Step one day back in the calendar.
pub fn prev_day(d: Date) -> (r: Date)
    requires
        is_valid_date(d),
    ensures
        r == spec_prev_day(d),
        is_valid_date(r),
{
    if d.day > 1 {
        Date { year: d.year, month: d.month, day: d.day - 1 }
    } else if d.month > 1 {
        Date { year: d.year, month: d.month - 1, day: days_in_month(d.year, d.month - 1) }
    } else if d.year > 0 {
        Date { year: d.year - 1, month: 12, day: 31 }
    } else {
        d
    }
}

/// The digit character for a value 0 through 9.
pub open spec fn digit_char(v: int) -> char {
    if v == 0 {
        '0'
    } else if v == 1 {
        '1'
    } else if v == 2 {
        '2'
    } else if v == 3 {
        '3'
    } else if v == 4 {
        '4'
    } else if v == 5 {
        '5'
    } else if v == 6 {
        '6'
    } else if v == 7 {
        '7'
    } else if v == 8 {
        '8'
    } else {
        '9'
    }
}

/// The ISO `YYYY-MM-DD` key of a date, zero-padded.
pub open spec fn spec_date_key(d: Date) -> Seq<char> {
    seq![
        digit_char(d.year as int / 1000 % 10),
        digit_char(d.year as int / 100 % 10),
        digit_char(d.year as int / 10 % 10),
        digit_char(d.year as int % 10),
        '-',
        digit_char(d.month as int / 10 % 10),
        digit_char(d.month as int % 10),
        '-',
        digit_char(d.day as int / 10 % 10),
        digit_char(d.day as int % 10),
    ]
}

/// Append the digit character of a value 0 through 9.
fn push_digit(s: &mut String, v: u32)
    requires
        v <= 9,
    ensures
        final(s)@ == old(s)@ + seq![digit_char(v as int)],
{
    proof {
        reveal_strlit("0");
        reveal_strlit("1");
        reveal_strlit("2");
        reveal_strlit("3");
        reveal_strlit("4");
        reveal_strlit("5");
        reveal_strlit("6");
        reveal_strlit("7");
        reveal_strlit("8");
        reveal_strlit("9");
    }
    if v == 0 {
        s.append("0");
    } else if v == 1 {
        s.append("1");
    } else if v == 2 {
        s.append("2");
    } else if v == 3 {
        s.append("3");
    } else if v == 4 {
        s.append("4");
    } else if v == 5 {
        s.append("5");
    } else if v == 6 {
        s.append("6");
    } else if v == 7 {
        s.append("7");
    } else if v == 8 {
        s.append("8");
    } else {
        s.append("9");
    }
    proof {
        assert(s@ =~= old(s)@ + seq![digit_char(v as int)]);
    }
}

/// Format a date as its ISO `YYYY-MM-DD` key.
pub fn date_key(d: Date) -> (r: String)
    ensures
        r@ == spec_date_key(d),
{
    proof {
        reveal_strlit("-");
    }
    let mut s = String::new();
    push_digit(&mut s, d.year / 1000 % 10);
    push_digit(&mut s, d.year / 100 % 10);
    push_digit(&mut s, d.year / 10 % 10);
    push_digit(&mut s, d.year % 10);
    s.append("-");
    push_digit(&mut s, d.month as u32 / 10 % 10);
    push_digit(&mut s, d.month as u32 % 10);
    s.append("-");
    push_digit(&mut s, d.day as u32 / 10 % 10);
    push_digit(&mut s, d.day as u32 % 10);
    proof {
        assert(s@ =~= spec_date_key(d));
    }
    s
}

} // verus!
