//! Calendar dates: validity, the next day, and the `YYYY-MM-DD` form.
//!
//! The source snapshot is addressed by a nightly date, one day after the
//! compiler's commit date, so the pipeline needs to step a date forward and
//! to read and write the dashed decimal form.

use vstd::prelude::*;
use crate::strutil::push_char;

verus! {

/// A Gregorian calendar date.
#[derive(Clone, Copy, PartialEq, Eq, Structural, Debug)]
pub struct Date {
    pub year: u32,
    pub month: u32,
    pub day: u32,
}

pub open spec fn is_leap_year(y: int) -> bool {
    (y % 4 == 0 && y % 100 != 0) || y % 400 == 0
}

pub open spec fn days_in_month(y: int, m: int) -> int {
    if m == 2 {
        if is_leap_year(y) {
            29
        } else {
            28
        }
    } else if m == 4 || m == 6 || m == 9 || m == 11 {
        30
    } else {
        31
    }
}

impl Date {
    /// A real calendar date whose year has four digits.
    pub open spec fn well_formed(self) -> bool {
        &&& 1000 <= self.year <= 9999
        &&& 1 <= self.month <= 12
        &&& 1 <= self.day <= days_in_month(self.year as int, self.month as int)
    }

    /// The day after this one.
    pub open spec fn succ_spec(self) -> Date {
        if self.day < days_in_month(self.year as int, self.month as int) {
            Date { year: self.year, month: self.month, day: (self.day + 1) as u32 }
        } else if self.month < 12 {
            Date { year: self.year, month: (self.month + 1) as u32, day: 1 }
        } else {
            Date { year: (self.year + 1) as u32, month: 1, day: 1 }
        }
    }

    /// Steps the date one day forward.
    pub fn succ(&self) -> (r: Date)
        requires
            self.well_formed(),
            self.year < 9999 || self.month < 12 || self.day < 31,
        ensures
            r == self.succ_spec(),
            r.well_formed(),
    {
        let dim = days_in_month_exec(self.year, self.month);
        if self.day < dim {
            Date { year: self.year, month: self.month, day: self.day + 1 }
        } else if self.month < 12 {
            Date { year: self.year, month: self.month + 1, day: 1 }
        } else {
            Date { year: self.year + 1, month: 1, day: 1 }
        }
    }

    /// The `YYYY-MM-DD` form of this date.
    pub open spec fn ymd_seq(self) -> Seq<char> {
        dec4(self.year as int) + seq!['-'] + dec2(self.month as int) + seq!['-'] + dec2(
            self.day as int,
        )
    }

    /// Writes the date as `YYYY-MM-DD`.
    pub fn format_ymd(&self) -> (r: String)
        requires
            self.well_formed(),
        ensures
            r@ == self.ymd_seq(),
    {
        let mut out = four_digits(self.year);
        push_char(&mut out, '-');
        let m = two_digits(self.month);
        out.append(m.as_str());
        push_char(&mut out, '-');
        let d = two_digits(self.day);
        out.append(d.as_str());
        proof {
            assert(out@ =~= self.ymd_seq());
        }
        out
    }

    /// Reads a `YYYY-MM-DD` date; `None` unless the whole input is exactly
    /// that shape and names a well-formed date.
    pub fn parse_ymd(s: &str) -> (r: Option<Date>)
        ensures
            r == parse_ymd_spec(s@),
            r matches Some(d) ==> d.well_formed() && d.ymd_seq() == s@,
    {
        if s.unicode_len() != 10 {
            return None;
        }
        if s.get_char(4) != '-' || s.get_char(7) != '-' {
            return None;
        }
        let mut i: usize = 0;
        while i < 10
            invariant
                0 <= i <= 10,
                s@.len() == 10,
                forall|j: int| 0 <= j < i && j != 4 && j != 7 ==> is_digit(s@[j]),
            decreases 10 - i,
        {
            if i != 4 && i != 7 {
                let u = s.get_char(i) as u32;
                if u < 48 || u > 57 {
                    return None;
                }
            }
            i = i + 1;
        }
        let y = digit_at(s, 0) * 1000 + digit_at(s, 1) * 100 + digit_at(s, 2) * 10 + digit_at(
            s,
            3,
        );
        let m = digit_at(s, 5) * 10 + digit_at(s, 6);
        let d = digit_at(s, 8) * 10 + digit_at(s, 9);
        if !(1000 <= y && y <= 9999) || !(1 <= m && m <= 12) {
            return None;
        }
        let dim = days_in_month_exec(y, m);
        if !(1 <= d && d <= dim) {
            return None;
        }
        let date = Date { year: y, month: m, day: d };
        proof {
            lemma_parse_shape(s@, date);
        }
        Some(date)
    }
}

/// How many days the month has, as executable code.
pub fn days_in_month_exec(y: u32, m: u32) -> (r: u32)
    ensures
        r == days_in_month(y as int, m as int),
        28 <= r <= 31,
{
    if m == 2 {
        if (y % 4 == 0 && y % 100 != 0) || y % 400 == 0 {
            29
        } else {
            28
        }
    } else if m == 4 || m == 6 || m == 9 || m == 11 {
        30
    } else {
        31
    }
}

pub open spec fn is_digit(c: char) -> bool {
    48 <= (c as u32) <= 57
}

pub open spec fn digit_val(c: char) -> int {
    (c as u32) - 48
}

/// The decimal digit character for a value below ten.
pub open spec fn digit(d: int) -> char {
    if d == 0 {
        '0'
    } else if d == 1 {
        '1'
    } else if d == 2 {
        '2'
    } else if d == 3 {
        '3'
    } else if d == 4 {
        '4'
    } else if d == 5 {
        '5'
    } else if d == 6 {
        '6'
    } else if d == 7 {
        '7'
    } else if d == 8 {
        '8'
    } else {
        '9'
    }
}

pub open spec fn dec2(n: int) -> Seq<char> {
    seq![digit(n / 10), digit(n % 10)]
}

pub open spec fn dec4(n: int) -> Seq<char> {
    seq![digit(n / 1000), digit((n / 100) % 10), digit((n / 10) % 10), digit(n % 10)]
}

/// The digit character for `d`.
fn digit_char(d: u32) -> (c: char)
    requires
        d < 10,
    ensures
        c == digit(d as int),
{
    if d == 0 {
        '0'
    } else if d == 1 {
        '1'
    } else if d == 2 {
        '2'
    } else if d == 3 {
        '3'
    } else if d == 4 {
        '4'
    } else if d == 5 {
        '5'
    } else if d == 6 {
        '6'
    } else if d == 7 {
        '7'
    } else if d == 8 {
        '8'
    } else {
        '9'
    }
}

/// `n` as two decimal digits.
pub fn two_digits(n: u32) -> (r: String)
    requires
        n < 100,
    ensures
        r@ == dec2(n as int),
{
    let mut out = String::new();
    push_char(&mut out, digit_char(n / 10));
    push_char(&mut out, digit_char(n % 10));
    proof {
        assert(out@ =~= dec2(n as int));
    }
    out
}

/// `n` as four decimal digits.
pub fn four_digits(n: u32) -> (r: String)
    requires
        n < 10000,
    ensures
        r@ == dec4(n as int),
{
    let mut out = String::new();
    push_char(&mut out, digit_char(n / 1000));
    push_char(&mut out, digit_char((n / 100) % 10));
    push_char(&mut out, digit_char((n / 10) % 10));
    push_char(&mut out, digit_char(n % 10));
    proof {
        assert(out@ =~= dec4(n as int));
    }
    out
}

/// What `parse_ymd` returns, as a function of the characters alone.
pub open spec fn parse_ymd_spec(s: Seq<char>) -> Option<Date> {
    if s.len() == 10 && s[4] == '-' && s[7] == '-' && (forall|j: int|
        0 <= j < 10 && j != 4 && j != 7 ==> is_digit(#[trigger] s[j])) {
        let y = digit_val(s[0]) * 1000 + digit_val(s[1]) * 100 + digit_val(s[2]) * 10 + digit_val(
            s[3],
        );
        let m = digit_val(s[5]) * 10 + digit_val(s[6]);
        let d = digit_val(s[8]) * 10 + digit_val(s[9]);
        let date = Date { year: y as u32, month: m as u32, day: d as u32 };
        if date.well_formed() {
            Some(date)
        } else {
            None
        }
    } else {
        None
    }
}

/// Reads the digit at one position.
fn digit_at(s: &str, i: usize) -> (r: u32)
    requires
        i < s@.len(),
        is_digit(s@[i as int]),
    ensures
        r == digit_val(s@[i as int]),
        r < 10,
{
    let c = s.get_char(i);
    (c as u32) - 48
}

/// A ten-character input whose digits spell a well-formed date parses to it.
proof fn lemma_parse_shape(s: Seq<char>, date: Date)
    requires
        s.len() == 10,
        s[4] == '-',
        s[7] == '-',
        forall|j: int| 0 <= j < 10 && j != 4 && j != 7 ==> is_digit(#[trigger] s[j]),
        date.well_formed(),
        date.year == digit_val(s[0]) * 1000 + digit_val(s[1]) * 100 + digit_val(s[2]) * 10
            + digit_val(s[3]),
        date.month == digit_val(s[5]) * 10 + digit_val(s[6]),
        date.day == digit_val(s[8]) * 10 + digit_val(s[9]),
    ensures
        parse_ymd_spec(s) == Some(date),
        date.ymd_seq() == s,
{
    lemma_digit_roundtrip(s[0]);
    lemma_digit_roundtrip(s[1]);
    lemma_digit_roundtrip(s[2]);
    lemma_digit_roundtrip(s[3]);
    lemma_digit_roundtrip(s[5]);
    lemma_digit_roundtrip(s[6]);
    lemma_digit_roundtrip(s[8]);
    lemma_digit_roundtrip(s[9]);
    assert(digit_val(s[0]) == date.year as int / 1000) by (nonlinear_arith)
        requires
            date.year == digit_val(s[0]) * 1000 + digit_val(s[1]) * 100 + digit_val(s[2]) * 10
                + digit_val(s[3]),
            0 <= digit_val(s[1]) < 10,
            0 <= digit_val(s[2]) < 10,
            0 <= digit_val(s[3]) < 10,
            0 <= digit_val(s[0]) < 10,
    ;
    assert(digit_val(s[1]) == (date.year as int / 100) % 10) by (nonlinear_arith)
        requires
            date.year == digit_val(s[0]) * 1000 + digit_val(s[1]) * 100 + digit_val(s[2]) * 10
                + digit_val(s[3]),
            0 <= digit_val(s[1]) < 10,
            0 <= digit_val(s[2]) < 10,
            0 <= digit_val(s[3]) < 10,
            0 <= digit_val(s[0]) < 10,
    ;
    assert(digit_val(s[2]) == (date.year as int / 10) % 10) by (nonlinear_arith)
        requires
            date.year == digit_val(s[0]) * 1000 + digit_val(s[1]) * 100 + digit_val(s[2]) * 10
                + digit_val(s[3]),
            0 <= digit_val(s[1]) < 10,
            0 <= digit_val(s[2]) < 10,
            0 <= digit_val(s[3]) < 10,
            0 <= digit_val(s[0]) < 10,
    ;
    assert(digit_val(s[3]) == date.year as int % 10) by (nonlinear_arith)
        requires
            date.year == digit_val(s[0]) * 1000 + digit_val(s[1]) * 100 + digit_val(s[2]) * 10
                + digit_val(s[3]),
            0 <= digit_val(s[1]) < 10,
            0 <= digit_val(s[2]) < 10,
            0 <= digit_val(s[3]) < 10,
            0 <= digit_val(s[0]) < 10,
    ;
    assert(digit_val(s[5]) == date.month as int / 10) by (nonlinear_arith)
        requires
            date.month == digit_val(s[5]) * 10 + digit_val(s[6]),
            0 <= digit_val(s[5]) < 10,
            0 <= digit_val(s[6]) < 10,
    ;
    assert(digit_val(s[6]) == date.month as int % 10) by (nonlinear_arith)
        requires
            date.month == digit_val(s[5]) * 10 + digit_val(s[6]),
            0 <= digit_val(s[5]) < 10,
            0 <= digit_val(s[6]) < 10,
    ;
    assert(digit_val(s[8]) == date.day as int / 10) by (nonlinear_arith)
        requires
            date.day == digit_val(s[8]) * 10 + digit_val(s[9]),
            0 <= digit_val(s[8]) < 10,
            0 <= digit_val(s[9]) < 10,
    ;
    assert(digit_val(s[9]) == date.day as int % 10) by (nonlinear_arith)
        requires
            date.day == digit_val(s[8]) * 10 + digit_val(s[9]),
            0 <= digit_val(s[8]) < 10,
            0 <= digit_val(s[9]) < 10,
    ;
    assert(date.ymd_seq() =~= s);
}

/// A digit character read back from its value is itself.
proof fn lemma_digit_roundtrip(c: char)
    requires
        is_digit(c),
    ensures
        0 <= digit_val(c) < 10,
        digit(digit_val(c)) == c,
{
    broadcast use vstd::utf8::char_u32_cast;

    let u = c as u32;
    if u == 48 {
        assert(('0' as u32) == 48);
        assert(c == '0');
    } else if u == 49 {
        assert(('1' as u32) == 49);
        assert(c == '1');
    } else if u == 50 {
        assert(('2' as u32) == 50);
        assert(c == '2');
    } else if u == 51 {
        assert(('3' as u32) == 51);
        assert(c == '3');
    } else if u == 52 {
        assert(('4' as u32) == 52);
        assert(c == '4');
    } else if u == 53 {
        assert(('5' as u32) == 53);
        assert(c == '5');
    } else if u == 54 {
        assert(('6' as u32) == 54);
        assert(c == '6');
    } else if u == 55 {
        assert(('7' as u32) == 55);
        assert(c == '7');
    } else if u == 56 {
        assert(('8' as u32) == 56);
        assert(c == '8');
    } else {
        assert(('9' as u32) == 57);
        assert(c == '9');
    }
}

/// Writing a well-formed date and reading it back gives the date again.
pub proof fn lemma_format_parse_roundtrip(d: Date)
    requires
        d.well_formed(),
    ensures
        parse_ymd_spec(d.ymd_seq()) == Some(d),
{
    let s = d.ymd_seq();
    assert(s.len() == 10);
    assert(s[0] == digit(d.year as int / 1000));
    assert(s[1] == digit((d.year as int / 100) % 10));
    assert(s[2] == digit((d.year as int / 10) % 10));
    assert(s[3] == digit(d.year as int % 10));
    assert(s[4] == '-');
    assert(s[5] == digit(d.month as int / 10));
    assert(s[6] == digit(d.month as int % 10));
    assert(s[7] == '-');
    assert(s[8] == digit(d.day as int / 10));
    assert(s[9] == digit(d.day as int % 10));
    lemma_digit_value_roundtrip(d.year as int / 1000);
    lemma_digit_value_roundtrip((d.year as int / 100) % 10);
    lemma_digit_value_roundtrip((d.year as int / 10) % 10);
    lemma_digit_value_roundtrip(d.year as int % 10);
    lemma_digit_value_roundtrip(d.month as int / 10);
    lemma_digit_value_roundtrip(d.month as int % 10);
    lemma_digit_value_roundtrip(d.day as int / 10);
    lemma_digit_value_roundtrip(d.day as int % 10);
    assert(d.year as int == digit_val(s[0]) * 1000 + digit_val(s[1]) * 100 + digit_val(s[2]) * 10
        + digit_val(s[3])) by (nonlinear_arith)
        requires
            1000 <= d.year as int <= 9999,
            digit_val(s[0]) == d.year as int / 1000,
            digit_val(s[1]) == (d.year as int / 100) % 10,
            digit_val(s[2]) == (d.year as int / 10) % 10,
            digit_val(s[3]) == d.year as int % 10,
    ;
    assert(d.month as int == digit_val(s[5]) * 10 + digit_val(s[6])) by (nonlinear_arith)
        requires
            1 <= d.month as int <= 12,
            digit_val(s[5]) == d.month as int / 10,
            digit_val(s[6]) == d.month as int % 10,
    ;
    assert(d.day as int == digit_val(s[8]) * 10 + digit_val(s[9])) by (nonlinear_arith)
        requires
            1 <= d.day as int <= 31,
            digit_val(s[8]) == d.day as int / 10,
            digit_val(s[9]) == d.day as int % 10,
    ;
}

/// The value of a digit character written from a value below ten.
proof fn lemma_digit_value_roundtrip(v: int)
    requires
        0 <= v < 10,
    ensures
        is_digit(digit(v)),
        digit_val(digit(v)) == v,
{
    if v == 0 {
        assert(('0' as u32) == 48);
    } else if v == 1 {
        assert(('1' as u32) == 49);
    } else if v == 2 {
        assert(('2' as u32) == 50);
    } else if v == 3 {
        assert(('3' as u32) == 51);
    } else if v == 4 {
        assert(('4' as u32) == 52);
    } else if v == 5 {
        assert(('5' as u32) == 53);
    } else if v == 6 {
        assert(('6' as u32) == 54);
    } else if v == 7 {
        assert(('7' as u32) == 55);
    } else if v == 8 {
        assert(('8' as u32) == 56);
    } else {
        assert(('9' as u32) == 57);
    }
}

} // verus!
