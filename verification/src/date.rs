//! Calendar dates and the two date text patterns the banks use.
//!
//! A date is held as plain year, month and day numbers. The Postbank export
//! writes dates as `D.M.YYYY`, the Sparda export as `YYYY-M-D`; the
//! destination format always gets `YYYY-MM-DD`.

use vstd::prelude::*;

use crate::text::{all_digits, is_digit, parse_small_num, seq_num, split_seq, split_str};

verus! {

/// A calendar date, without a time component.
#[derive(Debug, Clone, Copy, PartialEq, Eq, Structural)]
pub struct Date {
    pub year: u32,
    pub month: u32,
    pub day: u32,
}

/// Whether `y` is a leap year of the Gregorian calendar.
pub open spec fn is_leap_year(y: int) -> bool {
    y % 4 == 0 && (y % 100 != 0 || y % 400 == 0)
}

/// The number of days of month `m` in year `y`.
pub open spec fn days_in_month(y: int, m: int) -> int {
    if m == 2 {
        if is_leap_year(y) {
            29
        } else {
            28
        }
    } else if m == 4 || m == 6 || m == 9 || m == 11 {
        30
    } else {
        31
    }
}

/// Whether `d` names a real calendar date that the four-digit year text
/// form can carry.
pub open spec fn valid_date(d: Date) -> bool {
    &&& d.year <= 9999
    &&& 1 <= d.month <= 12
    &&& 1 <= d.day <= days_in_month(d.year as int, d.month as int)
}

impl Date {
    /// Whether this value names a real calendar date.
    pub fn is_valid(&self) -> (r: bool)
        ensures
            r == valid_date(*self),
    {
        let dim = days_in_month_num(self.year, self.month);
        self.year <= 9999 && 1 <= self.month && self.month <= 12 && 1 <= self.day && self.day
            <= dim
    }
}

/// The number of days of month `m` in year `y`.
pub fn days_in_month_num(y: u32, m: u32) -> (r: u32)
    ensures
        r == days_in_month(y as int, m as int),
{
    if m == 2 {
        if y % 4 == 0 && (y % 100 != 0 || y % 400 == 0) {
            29
        } else {
            28
        }
    } else if m == 4 || m == 6 || m == 9 || m == 11 {
        30
    } else {
        31
    }
}

/// The date a `D.M.YYYY` text (day and month one or two digits, year four)
/// names, if it is well-formed and names a real date.
pub open spec fn parse_dmy_spec(s: Seq<char>) -> Option<Date> {
    let parts = split_seq(s, '.');
    if parts.len() == 3 && 1 <= parts[0].len() <= 2 && 1 <= parts[1].len() <= 2 && parts[2].len()
        == 4 && all_digits(parts[0]) && all_digits(parts[1]) && all_digits(parts[2]) {
        let d = Date {
            year: seq_num(parts[2]) as u32,
            month: seq_num(parts[1]) as u32,
            day: seq_num(parts[0]) as u32,
        };
        if valid_date(d) {
            Some(d)
        } else {
            None
        }
    } else {
        None
    }
}

/// The date a `YYYY-M-D` text (year four digits, month and day one or two)
/// names, if it is well-formed and names a real date.
pub open spec fn parse_iso_spec(s: Seq<char>) -> Option<Date> {
    let parts = split_seq(s, '-');
    if parts.len() == 3 && parts[0].len() == 4 && 1 <= parts[1].len() <= 2 && 1 <= parts[2].len()
        <= 2 && all_digits(parts[0]) && all_digits(parts[1]) && all_digits(parts[2]) {
        let d = Date {
            year: seq_num(parts[0]) as u32,
            month: seq_num(parts[1]) as u32,
            day: seq_num(parts[2]) as u32,
        };
        if valid_date(d) {
            Some(d)
        } else {
            None
        }
    } else {
        None
    }
}

/// The destination text of a date: `YYYY-MM-DD`, zero padded.
pub open spec fn date_text(d: Date) -> Seq<char> {
    seq![
        crate::text::digit_char(d.year as int / 1000 % 10),
        crate::text::digit_char(d.year as int / 100 % 10),
        crate::text::digit_char(d.year as int / 10 % 10),
        crate::text::digit_char(d.year as int % 10),
        '-',
        crate::text::digit_char(d.month as int / 10),
        crate::text::digit_char(d.month as int % 10),
        '-',
        crate::text::digit_char(d.day as int / 10),
        crate::text::digit_char(d.day as int % 10),
    ]
}

impl Date {
    /// Renders the date as `YYYY-MM-DD`.
    pub fn to_iso_string(&self) -> (r: String)
        requires
            valid_date(*self),
        ensures
            r@ == date_text(*self),
    {
        let mut r = String::new();
        r.append(crate::text::digit_str((self.year / 1000 % 10) as u64));
        r.append(crate::text::digit_str((self.year / 100 % 10) as u64));
        r.append(crate::text::digit_str((self.year / 10 % 10) as u64));
        r.append(crate::text::digit_str((self.year % 10) as u64));
        r.append("-");
        r.append(crate::text::digit_str((self.month / 10) as u64));
        r.append(crate::text::digit_str((self.month % 10) as u64));
        r.append("-");
        r.append(crate::text::digit_str((self.day / 10) as u64));
        r.append(crate::text::digit_str((self.day % 10) as u64));
        proof {
            reveal_strlit("-");
            assert("-"@ =~= seq!['-']);
            assert(r@ =~= date_text(*self));
        }
        r
    }
}

/// Whether every character of `s` is a decimal digit.
pub fn is_digits_str(s: &str) -> (r: bool)
    ensures
        r == all_digits(s@),
{
    let len = s.unicode_len();
    let mut i: usize = 0;
    while i < len
        invariant
            0 <= i <= s@.len(),
            len == s@.len(),
            forall|j: int| 0 <= j < i ==> is_digit(#[trigger] s@[j]),
        decreases s@.len() - i,
    {
        let v = s.get_char(i) as u32;
        if v < 48 || v > 57 {
            return false;
        }
        i += 1;
    }
    true
}

/// Parses a `D.M.YYYY` date text.
pub fn parse_dmy(s: &str) -> (r: Option<Date>)
    ensures
        r == parse_dmy_spec(s@),
{
    let parts = split_str(s, '.');
    proof {
        assert(parts.deep_view().len() == split_seq(s@, '.').len());
        assert(parts.deep_view()[0] == split_seq(s@, '.')[0]);
    }
    if parts.len() != 3 {
        return None;
    }
    proof {
        assert(parts.deep_view()[1] == split_seq(s@, '.')[1]);
        assert(parts.deep_view()[2] == split_seq(s@, '.')[2]);
    }
    let p0 = &parts[0];
    let p1 = &parts[1];
    let p2 = &parts[2];
    let l0 = p0.as_str().unicode_len();
    let l1 = p1.as_str().unicode_len();
    let l2 = p2.as_str().unicode_len();
    if !(1 <= l0 && l0 <= 2 && 1 <= l1 && l1 <= 2 && l2 == 4) {
        return None;
    }
    if !(is_digits_str(p0.as_str()) && is_digits_str(p1.as_str()) && is_digits_str(p2.as_str())) {
        return None;
    }
    let d = Date {
        year: parse_small_num(p2.as_str()),
        month: parse_small_num(p1.as_str()),
        day: parse_small_num(p0.as_str()),
    };
    if d.is_valid() {
        Some(d)
    } else {
        None
    }
}

/// Parses a `YYYY-M-D` date text.
pub fn parse_iso(s: &str) -> (r: Option<Date>)
    ensures
        r == parse_iso_spec(s@),
{
    let parts = split_str(s, '-');
    proof {
        assert(parts.deep_view().len() == split_seq(s@, '-').len());
        assert(parts.deep_view()[0] == split_seq(s@, '-')[0]);
    }
    if parts.len() != 3 {
        return None;
    }
    proof {
        assert(parts.deep_view()[1] == split_seq(s@, '-')[1]);
        assert(parts.deep_view()[2] == split_seq(s@, '-')[2]);
    }
    let p0 = &parts[0];
    let p1 = &parts[1];
    let p2 = &parts[2];
    let l0 = p0.as_str().unicode_len();
    let l1 = p1.as_str().unicode_len();
    let l2 = p2.as_str().unicode_len();
    if !(l0 == 4 && 1 <= l1 && l1 <= 2 && 1 <= l2 && l2 <= 2) {
        return None;
    }
    if !(is_digits_str(p0.as_str()) && is_digits_str(p1.as_str()) && is_digits_str(p2.as_str())) {
        return None;
    }
    let d = Date {
        year: parse_small_num(p0.as_str()),
        month: parse_small_num(p1.as_str()),
        day: parse_small_num(p2.as_str()),
    };
    if d.is_valid() {
        Some(d)
    } else {
        None
    }
}

} // verus!
