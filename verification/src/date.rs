//! Calendar dates as plain year/month/day values, with validity, ordering,
//! and the fixed `YYYY-MM-DD` textual form used by the persistence codec.

use vstd::prelude::*;

verus! {

/// A calendar date with no time component. A date held by the store is
/// always `valid()`: the form editor rejects any text that does not parse
/// to a real calendar day.
#[derive(Clone, Copy, PartialEq, Eq, Structural, Debug)]
pub struct Date {
    pub year: u32,
    pub month: u32,
    pub day: u32,
}

pub open spec fn is_leap_year(y: int) -> bool {
    (y % 4 == 0 && y % 100 != 0) || y % 400 == 0
}

pub open spec fn days_in_month(y: int, m: int) -> int {
    if m == 2 {
        if is_leap_year(y) {
            29
        } else {
            28
        }
    } else if m == 4 || m == 6 || m == 9 || m == 11 {
        30
    } else {
        31
    }
}

impl Date {
    /// A real calendar day whose year fits the four-digit textual form.
    pub open spec fn valid(self) -> bool {
        self.year <= 9999 && 1 <= self.month <= 12 && 1 <= self.day <= days_in_month(
            self.year as int,
            self.month as int,
        )
    }

    /// Chronological order (lexicographic on year, month, day).
    pub open spec fn spec_le(self, other: Date) -> bool {
        if self.year != other.year {
            self.year < other.year
        } else if self.month != other.month {
            self.month < other.month
        } else {
            self.day <= other.day
        }
    }

    pub open spec fn spec_lt(self, other: Date) -> bool {
        self.spec_le(other) && self != other
    }

    pub fn is_valid(&self) -> (r: bool)
        ensures
            r == self.valid(),
    {
        let leap = (self.year % 4 == 0 && self.year % 100 != 0) || self.year % 400 == 0;
        let dim: u32 = if self.month == 2 {
            if leap {
                29
            } else {
                28
            }
        } else if self.month == 4 || self.month == 6 || self.month == 9 || self.month == 11 {
            30
        } else {
            31
        };
        self.year <= 9999 && 1 <= self.month && self.month <= 12 && 1 <= self.day && self.day <= dim
    }

    pub fn le(&self, other: &Date) -> (r: bool)
        ensures
            r == self.spec_le(*other),
    {
        if self.year != other.year {
            self.year < other.year
        } else if self.month != other.month {
            self.month < other.month
        } else {
            self.day <= other.day
        }
    }

    pub fn lt(&self, other: &Date) -> (r: bool)
        ensures
            r == self.spec_lt(*other),
    {
        let r = if self.year != other.year {
            self.year < other.year
        } else if self.month != other.month {
            self.month < other.month
        } else {
            self.day < other.day
        };
        r
    }
}

pub open spec fn is_digit(c: char) -> bool {
    c == '0' || c == '1' || c == '2' || c == '3' || c == '4' || c == '5' || c == '6' || c == '7'
        || c == '8' || c == '9'
}

pub open spec fn digit_char(d: int) -> char {
    if d == 0 {
        '0'
    } else if d == 1 {
        '1'
    } else if d == 2 {
        '2'
    } else if d == 3 {
        '3'
    } else if d == 4 {
        '4'
    } else if d == 5 {
        '5'
    } else if d == 6 {
        '6'
    } else if d == 7 {
        '7'
    } else if d == 8 {
        '8'
    } else {
        '9'
    }
}

pub open spec fn digit_val(c: char) -> int {
    if c == '0' {
        0
    } else if c == '1' {
        1
    } else if c == '2' {
        2
    } else if c == '3' {
        3
    } else if c == '4' {
        4
    } else if c == '5' {
        5
    } else if c == '6' {
        6
    } else if c == '7' {
        7
    } else if c == '8' {
        8
    } else {
        9
    }
}

pub proof fn lemma_digit_round_trip(d: int)
    requires
        0 <= d <= 9,
    ensures
        is_digit(digit_char(d)),
        digit_val(digit_char(d)) == d,
{
}

pub fn digit_to_char(d: u32) -> (c: char)
    requires
        d <= 9,
    ensures
        c == digit_char(d as int),
{
    match d {
        0 => '0',
        1 => '1',
        2 => '2',
        3 => '3',
        4 => '4',
        5 => '5',
        6 => '6',
        7 => '7',
        8 => '8',
        _ => '9',
    }
}

pub fn char_is_digit(c: char) -> (r: bool)
    ensures
        r == is_digit(c),
{
    c == '0' || c == '1' || c == '2' || c == '3' || c == '4' || c == '5' || c == '6' || c == '7'
        || c == '8' || c == '9'
}

pub fn char_digit_val(c: char) -> (v: u32)
    requires
        is_digit(c),
    ensures
        v == digit_val(c),
{
    if c == '0' {
        0
    } else if c == '1' {
        1
    } else if c == '2' {
        2
    } else if c == '3' {
        3
    } else if c == '4' {
        4
    } else if c == '5' {
        5
    } else if c == '6' {
        6
    } else if c == '7' {
        7
    } else if c == '8' {
        8
    } else {
        9
    }
}

/// The ten-character `YYYY-MM-DD` form of a date.
pub open spec fn ser_date(d: Date) -> Seq<char> {
    seq![
        digit_char(d.year as int / 1000),
        digit_char((d.year as int / 100) % 10),
        digit_char((d.year as int / 10) % 10),
        digit_char(d.year as int % 10),
        '-',
        digit_char(d.month as int / 10),
        digit_char(d.month as int % 10),
        '-',
        digit_char(d.day as int / 10),
        digit_char(d.day as int % 10),
    ]
}

/// Appends the `YYYY-MM-DD` form of `d` to `out`.
pub fn push_date(out: &mut Vec<char>, d: &Date)
    requires
        d.valid(),
    ensures
        final(out)@ == old(out)@ + ser_date(*d),
{
    out.push(digit_to_char(d.year / 1000));
    out.push(digit_to_char((d.year / 100) % 10));
    out.push(digit_to_char((d.year / 10) % 10));
    out.push(digit_to_char(d.year % 10));
    out.push('-');
    out.push(digit_to_char(d.month / 10));
    out.push(digit_to_char(d.month % 10));
    out.push('-');
    out.push(digit_to_char(d.day / 10));
    out.push(digit_to_char(d.day % 10));
    proof {
        assert(out@ =~= old(out)@ + ser_date(*d));
    }
}

/// What parsing ten characters of `s` at `i` as `YYYY-MM-DD` yields:
/// the date and the position after it, or nothing if the shape or the
/// calendar check fails.
pub open spec fn spec_parse_date(s: Seq<char>, i: int) -> Option<(Date, int)> {
    if 0 <= i && i + 10 <= s.len() && is_digit(s[i]) && is_digit(s[i + 1]) && is_digit(s[i + 2])
        && is_digit(s[i + 3]) && s[i + 4] == '-' && is_digit(s[i + 5]) && is_digit(s[i + 6]) && s[i
        + 7] == '-' && is_digit(s[i + 8]) && is_digit(s[i + 9]) {
        let d = Date {
            year: (digit_val(s[i]) * 1000 + digit_val(s[i + 1]) * 100 + digit_val(s[i + 2]) * 10
                + digit_val(s[i + 3])) as u32,
            month: (digit_val(s[i + 5]) * 10 + digit_val(s[i + 6])) as u32,
            day: (digit_val(s[i + 8]) * 10 + digit_val(s[i + 9])) as u32,
        };
        if d.valid() {
            Some((d, i + 10))
        } else {
            None
        }
    } else {
        None
    }
}

/// Parses the `YYYY-MM-DD` form at position `i` of `v`.
pub fn parse_date(v: &Vec<char>, i: usize) -> (r: Option<(Date, usize)>)
    ensures
        match r {
            Some((d, j)) => spec_parse_date(v@, i as int) == Some((d, j as int)) && d.valid() && i
                < j <= v@.len(),
            None => spec_parse_date(v@, i as int) is None,
        },
{
    if v.len() < 10 || i > v.len() - 10 {
        return None;
    }
    let c0 = v[i];
    let c1 = v[i + 1];
    let c2 = v[i + 2];
    let c3 = v[i + 3];
    let c4 = v[i + 4];
    let c5 = v[i + 5];
    let c6 = v[i + 6];
    let c7 = v[i + 7];
    let c8 = v[i + 8];
    let c9 = v[i + 9];
    if char_is_digit(c0) && char_is_digit(c1) && char_is_digit(c2) && char_is_digit(c3) && c4 == '-'
        && char_is_digit(c5) && char_is_digit(c6) && c7 == '-' && char_is_digit(c8)
        && char_is_digit(c9) {
        let d = Date {
            year: char_digit_val(c0) * 1000 + char_digit_val(c1) * 100 + char_digit_val(c2) * 10
                + char_digit_val(c3),
            month: char_digit_val(c5) * 10 + char_digit_val(c6),
            day: char_digit_val(c8) * 10 + char_digit_val(c9),
        };
        if d.is_valid() {
            Some((d, i + 10))
        } else {
            None
        }
    } else {
        None
    }
}

/// Parsing the textual form of a valid date gives the date back.
pub proof fn lemma_date_round_trip(d: Date, s: Seq<char>, i: int)
    requires
        d.valid(),
        0 <= i,
        i + 10 <= s.len(),
        s.subrange(i, i + 10) == ser_date(d),
    ensures
        spec_parse_date(s, i) == Some((d, i + 10)),
{
    let t = s.subrange(i, i + 10);
    assert forall|k: int| 0 <= k < 10 implies s[i + k] == ser_date(d)[k] by {
        assert(t[k] == s[i + k]);
    }
    let y = d.year as int;
    let m = d.month as int;
    let dd = d.day as int;
    lemma_digit_round_trip(y / 1000);
    lemma_digit_round_trip((y / 100) % 10);
    lemma_digit_round_trip((y / 10) % 10);
    lemma_digit_round_trip(y % 10);
    lemma_digit_round_trip(m / 10);
    lemma_digit_round_trip(m % 10);
    lemma_digit_round_trip(dd / 10);
    lemma_digit_round_trip(dd % 10);
    assert((y / 1000) * 1000 + ((y / 100) % 10) * 100 + ((y / 10) % 10) * 10 + y % 10 == y);
    assert((m / 10) * 10 + m % 10 == m);
    assert((dd / 10) * 10 + dd % 10 == dd);
}

} // verus!
