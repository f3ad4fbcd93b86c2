//! Calendar timestamps and the literal `YYYY-MM-DD Www HH:MM` format.

use vstd::prelude::*;
use crate::chars::{is_digit_char, is_letter_char, digit_char, letter_char};

verus! {

/// A local calendar timestamp, minute precision. The weekday written in the
/// source text is a shape requirement only and is not retained.
#[derive(Debug, Clone, Copy, PartialEq, Eq, Structural)]
pub struct Timestamp {
    pub year: u32,
    pub month: u32,
    pub day: u32,
    pub hour: u32,
    pub minute: u32,
}

/// Gregorian leap year.
pub open spec fn is_leap_year(y: int) -> bool {
    y % 4 == 0 && (y % 100 != 0 || y % 400 == 0)
}

/// Number of days in a month of the Gregorian calendar.
pub open spec fn days_in_month(y: int, m: int) -> int {
    if m == 2 {
        if is_leap_year(y) { 29 } else { 28 }
    } else if m == 4 || m == 6 || m == 9 || m == 11 {
        30
    } else {
        31
    }
}

impl Timestamp {
    /// The fields name a real calendar date and a 24-hour wall-clock time.
    pub open spec fn wf(self) -> bool {
        &&& self.year <= 9999
        &&& 1 <= self.month <= 12
        &&& 1 <= self.day <= days_in_month(self.year as int, self.month as int)
        &&& self.hour <= 23
        &&& self.minute <= 59
    }
}

/// Numeric value of an ASCII digit.
pub open spec fn digit_val(c: char) -> int {
    c as int - '0' as int
}

/// The string has exactly the shape `YYYY-MM-DD Www HH:MM`: four digits,
/// `-`, two digits, `-`, two digits, a space, three ASCII letters, a space,
/// two digits, `:`, two digits.
pub open spec fn ts_shape(s: Seq<char>) -> bool {
    &&& s.len() == 20
    &&& is_digit_char(s[0]) && is_digit_char(s[1]) && is_digit_char(s[2]) && is_digit_char(s[3])
    &&& s[4] == '-'
    &&& is_digit_char(s[5]) && is_digit_char(s[6])
    &&& s[7] == '-'
    &&& is_digit_char(s[8]) && is_digit_char(s[9])
    &&& s[10] == ' '
    &&& is_letter_char(s[11]) && is_letter_char(s[12]) && is_letter_char(s[13])
    &&& s[14] == ' '
    &&& is_digit_char(s[15]) && is_digit_char(s[16])
    &&& s[17] == ':'
    &&& is_digit_char(s[18]) && is_digit_char(s[19])
}

pub open spec fn ts_year(s: Seq<char>) -> int {
    digit_val(s[0]) * 1000 + digit_val(s[1]) * 100 + digit_val(s[2]) * 10 + digit_val(s[3])
}

pub open spec fn ts_month(s: Seq<char>) -> int {
    digit_val(s[5]) * 10 + digit_val(s[6])
}

pub open spec fn ts_day(s: Seq<char>) -> int {
    digit_val(s[8]) * 10 + digit_val(s[9])
}

pub open spec fn ts_hour(s: Seq<char>) -> int {
    digit_val(s[15]) * 10 + digit_val(s[16])
}

pub open spec fn ts_minute(s: Seq<char>) -> int {
    digit_val(s[18]) * 10 + digit_val(s[19])
}

/// The string is a well-shaped timestamp whose fields name a real date
/// and a 24-hour time.
pub open spec fn ts_valid(s: Seq<char>) -> bool {
    &&& ts_shape(s)
    &&& 1 <= ts_month(s) <= 12
    &&& 1 <= ts_day(s) <= days_in_month(ts_year(s), ts_month(s))
    &&& ts_hour(s) <= 23
    &&& ts_minute(s) <= 59
}

/// The timestamp value written by a valid timestamp string.
pub open spec fn ts_value(s: Seq<char>) -> Timestamp {
    Timestamp {
        year: ts_year(s) as u32,
        month: ts_month(s) as u32,
        day: ts_day(s) as u32,
        hour: ts_hour(s) as u32,
        minute: ts_minute(s) as u32,
    }
}

/// Reads the ASCII digit at position `i`.
fn digit_at(s: &str, i: usize) -> (d: u32)
    requires
        i < s@.len(),
        is_digit_char(s@[i as int]),
    ensures
        d == digit_val(s@[i as int]),
        d <= 9,
{
    let c = s.get_char(i);
    c as u32 - 48
}

/// Number of days in a month of the Gregorian calendar.
pub fn month_days(y: u32, m: u32) -> (d: u32)
    requires
        1 <= m <= 12,
    ensures
        d == days_in_month(y as int, m as int),
{
    if m == 2 {
        if y % 4 == 0 && (y % 100 != 0 || y % 400 == 0) { 29 } else { 28 }
    } else if m == 4 || m == 6 || m == 9 || m == 11 {
        30
    } else {
        31
    }
}

/// Parses the exact literal format `YYYY-MM-DD Www HH:MM`, rejecting any
/// other shape and any field outside the calendar or the 24-hour clock.
pub fn parse_timestamp(s: &str) -> (r: Option<Timestamp>)
    ensures
        ts_valid(s@) ==> r == Some(ts_value(s@)),
        !ts_valid(s@) ==> r is None,
        r matches Some(t) ==> t.wf(),
{
    if s.unicode_len() != 20 {
        return None;
    }
    if !(digit_char(s.get_char(0)) && digit_char(s.get_char(1)) && digit_char(s.get_char(2))
        && digit_char(s.get_char(3))) {
        return None;
    }
    if s.get_char(4) != '-' {
        return None;
    }
    if !(digit_char(s.get_char(5)) && digit_char(s.get_char(6))) {
        return None;
    }
    if s.get_char(7) != '-' {
        return None;
    }
    if !(digit_char(s.get_char(8)) && digit_char(s.get_char(9))) {
        return None;
    }
    if s.get_char(10) != ' ' {
        return None;
    }
    if !(letter_char(s.get_char(11)) && letter_char(s.get_char(12)) && letter_char(s.get_char(13))) {
        return None;
    }
    if s.get_char(14) != ' ' {
        return None;
    }
    if !(digit_char(s.get_char(15)) && digit_char(s.get_char(16))) {
        return None;
    }
    if s.get_char(17) != ':' {
        return None;
    }
    if !(digit_char(s.get_char(18)) && digit_char(s.get_char(19))) {
        return None;
    }
    let year = digit_at(s, 0) * 1000 + digit_at(s, 1) * 100 + digit_at(s, 2) * 10 + digit_at(s, 3);
    let month = digit_at(s, 5) * 10 + digit_at(s, 6);
    let day = digit_at(s, 8) * 10 + digit_at(s, 9);
    let hour = digit_at(s, 15) * 10 + digit_at(s, 16);
    let minute = digit_at(s, 18) * 10 + digit_at(s, 19);
    if month < 1 || month > 12 {
        return None;
    }
    if day < 1 || day > month_days(year, month) {
        return None;
    }
    if hour > 23 {
        return None;
    }
    if minute > 59 {
        return None;
    }
    Some(Timestamp { year, month, day, hour, minute })
}

} // verus!
