//! Calendar date-times as plain values.
//!
//! A metadata date is accepted in exactly three layouts, tried in this
//! order: `YYYY-MM-DD HH:MM:SS`, `YYYY-MM-DDTHH:MM:SS`, and the
//! date-only `YYYY-MM-DD`, whose time of day defaults to midnight.
//! Validity follows the civil calendar, leap years included.
//!
//! The layouts are fixed-width on purpose: four-digit years, two-digit
//! months, days and time fields, no surrounding whitespace. An unpadded
//! field such as `2025-1-5` is rejected rather than guessed at; authors
//! write dates one way and documents stay portable.

use vstd::prelude::*;
use crate::text::chars_to_string;

verus! {

/// A point in civil time, to second precision.
#[derive(Clone, Copy, Debug, PartialEq, Eq, Structural)]
pub struct DateTime {
    pub year: u32,
    pub month: u8,
    pub day: u8,
    pub hour: u8,
    pub minute: u8,
    pub second: u8,
}

/// Leap years of the Gregorian calendar.
pub open spec fn is_leap_year(y: int) -> bool {
    y % 4 == 0 && (y % 100 != 0 || y % 400 == 0)
}

/// Days in a month of a given year.
pub open spec fn days_in_month(y: int, m: int) -> int {
    if m == 2 {
        if is_leap_year(y) {
            29
        } else {
            28
        }
    } else if m == 4 || m == 6 || m == 9 || m == 11 {
        30
    } else {
        31
    }
}

/// A well-formed date-time: a real calendar date with four-digit year and
/// a valid time of day.
pub open spec fn dt_valid(dt: DateTime) -> bool {
    &&& dt.year <= 9999
    &&& 1 <= dt.month <= 12
    &&& 1 <= dt.day <= days_in_month(dt.year as int, dt.month as int)
    &&& dt.hour < 24
    &&& dt.minute < 60
    &&& dt.second < 60
}

/// A single integer that orders date-times chronologically: the mixed-radix
/// encoding of the six fields.
pub open spec fn dt_key(dt: DateTime) -> int {
    dt.year as int * 35942400 + dt.month as int * 2764800 + dt.day as int * 86400 + dt.hour as int
        * 3600 + dt.minute as int * 60 + dt.second as int
}

/// Chronological order, field by field.
pub open spec fn dt_lt(a: DateTime, b: DateTime) -> bool {
    if a.year != b.year {
        a.year < b.year
    } else if a.month != b.month {
        a.month < b.month
    } else if a.day != b.day {
        a.day < b.day
    } else if a.hour != b.hour {
        a.hour < b.hour
    } else if a.minute != b.minute {
        a.minute < b.minute
    } else {
        a.second < b.second
    }
}

/// The key orders exactly as the fields do.
pub proof fn lemma_dt_key_orders(a: DateTime, b: DateTime)
    requires
        dt_valid(a),
        dt_valid(b),
    ensures
        dt_lt(a, b) <==> dt_key(a) < dt_key(b),
        (a == b) <==> dt_key(a) == dt_key(b),
{
    if a.year != b.year {
    } else if a.month != b.month {
    } else if a.day != b.day {
    } else if a.hour != b.hour {
    } else if a.minute != b.minute {
    } else {
    }
}

/// Computes the ordering key.
pub fn dt_key_of(dt: &DateTime) -> (r: u64)
    requires
        dt_valid(*dt),
    ensures
        r == dt_key(*dt),
{
    (dt.year as u64) * 35942400 + (dt.month as u64) * 2764800 + (dt.day as u64) * 86400 + (dt.hour
        as u64) * 3600 + (dt.minute as u64) * 60 + (dt.second as u64)
}

/// Executable leap-year test.
pub fn leap_year(y: u32) -> (r: bool)
    ensures
        r == is_leap_year(y as int),
{
    y % 4 == 0 && (y % 100 != 0 || y % 400 == 0)
}

/// Executable days-in-month.
pub fn month_days(y: u32, m: u8) -> (r: u8)
    ensures
        r as int == days_in_month(y as int, m as int),
{
    if m == 2 {
        if leap_year(y) {
            29
        } else {
            28
        }
    } else if m == 4 || m == 6 || m == 9 || m == 11 {
        30
    } else {
        31
    }
}

/// Checks that a date-time is a real calendar date-time.
pub fn dt_check(dt: &DateTime) -> (r: bool)
    ensures
        r == dt_valid(*dt),
{
    dt.year <= 9999 && 1 <= dt.month && dt.month <= 12 && 1 <= dt.day && dt.day <= month_days(
        dt.year,
        dt.month,
    ) && dt.hour < 24 && dt.minute < 60 && dt.second < 60
}

/// ASCII digits.
pub open spec fn is_digit(c: char) -> bool {
    48 <= c as u32 && c as u32 <= 57
}

/// The value of an ASCII digit.
pub open spec fn digit_val(c: char) -> int {
    c as u32 - 48
}

/// A two-digit number at position `i`.
pub open spec fn num2(s: Seq<char>, i: int) -> int {
    digit_val(s[i]) * 10 + digit_val(s[i + 1])
}

/// A four-digit number at position `i`.
pub open spec fn num4(s: Seq<char>, i: int) -> int {
    digit_val(s[i]) * 1000 + digit_val(s[i + 1]) * 100 + digit_val(s[i + 2]) * 10 + digit_val(
        s[i + 3],
    )
}

/// Positions `i..i+n` hold digits.
pub open spec fn digits_at(s: Seq<char>, i: int, n: int) -> bool {
    forall|k: int| i <= k < i + n ==> is_digit(#[trigger] s[k])
}

/// The first ten characters spell a date: `YYYY-MM-DD`.
pub open spec fn date_shape(s: Seq<char>) -> bool {
    &&& s.len() >= 10
    &&& digits_at(s, 0, 4)
    &&& s[4] == '-'
    &&& digits_at(s, 5, 2)
    &&& s[7] == '-'
    &&& digits_at(s, 8, 2)
}

/// Characters `11..19` spell a time: `HH:MM:SS`.
pub open spec fn time_shape(s: Seq<char>) -> bool {
    &&& s.len() >= 19
    &&& digits_at(s, 11, 2)
    &&& s[13] == ':'
    &&& digits_at(s, 14, 2)
    &&& s[16] == ':'
    &&& digits_at(s, 17, 2)
}

/// The date-time a text spells, before calendar validation.
pub open spec fn spec_raw_datetime(s: Seq<char>) -> Option<DateTime> {
    if s.len() == 19 && date_shape(s) && (s[10] == ' ' || s[10] == 'T') && time_shape(s) {
        Some(
            DateTime {
                year: num4(s, 0) as u32,
                month: num2(s, 5) as u8,
                day: num2(s, 8) as u8,
                hour: num2(s, 11) as u8,
                minute: num2(s, 14) as u8,
                second: num2(s, 17) as u8,
            },
        )
    } else if s.len() == 10 && date_shape(s) {
        Some(
            DateTime {
                year: num4(s, 0) as u32,
                month: num2(s, 5) as u8,
                day: num2(s, 8) as u8,
                hour: 0,
                minute: 0,
                second: 0,
            },
        )
    } else {
        None
    }
}

/// The date-time a text denotes: one of the three accepted layouts,
/// naming a real calendar date-time.
pub open spec fn spec_parse_datetime(s: Seq<char>) -> Option<DateTime> {
    match spec_raw_datetime(s) {
        Some(dt) => if dt_valid(dt) {
            Some(dt)
        } else {
            None
        },
        None => None,
    }
}

/// The date a text denotes in the date-only layout (used by the optional
/// `updated` field).
pub open spec fn spec_parse_date(s: Seq<char>) -> Option<DateTime> {
    if s.len() == 10 {
        spec_parse_datetime(s)
    } else {
        None
    }
}

/// Reads one ASCII digit.
fn read_digit(c: char) -> (r: Option<u32>)
    ensures
        r is Some <==> is_digit(c),
        r is Some ==> r->0 == digit_val(c) && r->0 <= 9,
{
    let u = c as u32;
    if 48 <= u && u <= 57 {
        Some(u - 48)
    } else {
        None
    }
}

/// Reads a two-digit number from two characters.
fn read_two(c0: char, c1: char) -> (r: Option<u32>)
    ensures
        r is Some <==> is_digit(c0) && is_digit(c1),
        r is Some ==> r->0 == digit_val(c0) * 10 + digit_val(c1) && r->0 <= 99,
{
    match (read_digit(c0), read_digit(c1)) {
        (Some(x), Some(y)) => Some(x * 10 + y),
        _ => None,
    }
}

/// Reads a four-digit number from four characters.
fn read_four(c0: char, c1: char, c2: char, c3: char) -> (r: Option<u32>)
    ensures
        r is Some <==> is_digit(c0) && is_digit(c1) && is_digit(c2) && is_digit(c3),
        r is Some ==> r->0 == digit_val(c0) * 1000 + digit_val(c1) * 100 + digit_val(c2) * 10
            + digit_val(c3) && r->0 <= 9999,
{
    match (read_digit(c0), read_digit(c1), read_digit(c2), read_digit(c3)) {
        (Some(x), Some(y), Some(z), Some(w)) => Some(x * 1000 + y * 100 + z * 10 + w),
        _ => None,
    }
}

/// Parses a date-time in one of the three accepted layouts.
pub fn parse_datetime(s: &Vec<char>) -> (r: Option<DateTime>)
    ensures
        r == spec_parse_datetime(s@),
{
    let n = s.len();
    if n != 10 && n != 19 {
        return None;
    }
    let year = match read_four(s[0], s[1], s[2], s[3]) {
        Some(v) => v,
        None => {
            proof {
                assert(!is_digit(s@[0]) || !is_digit(s@[1]) || !is_digit(s@[2]) || !is_digit(
                    s@[3],
                ));
            }
            return None;
        },
    };
    proof {
        assert(digits_at(s@, 0, 4)) by {
            assert forall|k: int| 0 <= k < 4 implies is_digit(#[trigger] s@[k]) by {
                assert(k == 0 || k == 1 || k == 2 || k == 3);
            }
        }
        assert(year == num4(s@, 0));
    }
    if s[4] != '-' || s[7] != '-' {
        return None;
    }
    let month = match read_two(s[5], s[6]) {
        Some(v) => v,
        None => {
            return None;
        },
    };
    let day = match read_two(s[8], s[9]) {
        Some(v) => v,
        None => {
            return None;
        },
    };
    proof {
        assert(digits_at(s@, 5, 2)) by {
            assert forall|k: int| 5 <= k < 7 implies is_digit(#[trigger] s@[k]) by {
                assert(k == 5 || k == 6);
            }
        }
        assert(digits_at(s@, 8, 2)) by {
            assert forall|k: int| 8 <= k < 10 implies is_digit(#[trigger] s@[k]) by {
                assert(k == 8 || k == 9);
            }
        }
        assert(month == num2(s@, 5));
        assert(day == num2(s@, 8));
        assert(date_shape(s@));
    }
    let (hour, minute, second): (u32, u32, u32) = if n == 19 {
        let sep = s[10];
        if sep != ' ' && sep != 'T' {
            return None;
        }
        if s[13] != ':' || s[16] != ':' {
            return None;
        }
        let h = match read_two(s[11], s[12]) {
            Some(v) => v,
            None => {
                return None;
            },
        };
        let mi = match read_two(s[14], s[15]) {
            Some(v) => v,
            None => {
                return None;
            },
        };
        let se = match read_two(s[17], s[18]) {
            Some(v) => v,
            None => {
                return None;
            },
        };
        proof {
            assert(digits_at(s@, 11, 2)) by {
                assert forall|k: int| 11 <= k < 13 implies is_digit(#[trigger] s@[k]) by {
                    assert(k == 11 || k == 12);
                }
            }
            assert(digits_at(s@, 14, 2)) by {
                assert forall|k: int| 14 <= k < 16 implies is_digit(#[trigger] s@[k]) by {
                    assert(k == 14 || k == 15);
                }
            }
            assert(digits_at(s@, 17, 2)) by {
                assert forall|k: int| 17 <= k < 19 implies is_digit(#[trigger] s@[k]) by {
                    assert(k == 17 || k == 18);
                }
            }
            assert(time_shape(s@));
        }
        (h, mi, se)
    } else {
        (0, 0, 0)
    };
    let dt = DateTime {
        year,
        month: month as u8,
        day: day as u8,
        hour: hour as u8,
        minute: minute as u8,
        second: second as u8,
    };
    if dt_check(&dt) {
        Some(dt)
    } else {
        None
    }
}

/// Parses a date in the date-only layout.
pub fn parse_date(s: &Vec<char>) -> (r: Option<DateTime>)
    ensures
        r == spec_parse_date(s@),
{
    if s.len() == 10 {
        parse_datetime(s)
    } else {
        None
    }
}

/// The character of one decimal digit.
pub open spec fn digit_char(d: int) -> char {
    ((48 + d) as u8) as char
}

/// A number written with two digits.
pub open spec fn two_digits(n: int) -> Seq<char> {
    seq![digit_char(n / 10), digit_char(n % 10)]
}

/// A number written with four digits.
pub open spec fn four_digits(n: int) -> Seq<char> {
    seq![
        digit_char(n / 1000),
        digit_char((n / 100) % 10),
        digit_char((n / 10) % 10),
        digit_char(n % 10),
    ]
}

/// The canonical text of a date-time: `YYYY-MM-DD HH:MM:SS`.
pub open spec fn spec_format_datetime(dt: DateTime) -> Seq<char> {
    four_digits(dt.year as int) + seq!['-'] + two_digits(dt.month as int) + seq!['-'] + two_digits(
        dt.day as int,
    ) + seq![' '] + two_digits(dt.hour as int) + seq![':'] + two_digits(dt.minute as int)
        + seq![':'] + two_digits(dt.second as int)
}

/// The canonical text of a date: `YYYY-MM-DD`.
pub open spec fn spec_format_date(dt: DateTime) -> Seq<char> {
    four_digits(dt.year as int) + seq!['-'] + two_digits(dt.month as int) + seq!['-'] + two_digits(
        dt.day as int,
    )
}

/// Writes one digit.
fn push_digit(out: &mut Vec<char>, d: u32)
    requires
        d <= 9,
    ensures
        final(out)@ == old(out)@.push(digit_char(d as int)),
{
    let c = ((48 + d) as u8) as char;
    out.push(c);
}

/// Writes a number with two digits.
fn push_two(out: &mut Vec<char>, n: u32)
    requires
        n <= 99,
    ensures
        final(out)@ == old(out)@ + two_digits(n as int),
{
    push_digit(out, n / 10);
    push_digit(out, n % 10);
    assert(out@ =~= old(out)@ + two_digits(n as int));
}

/// Formats a date-time as `YYYY-MM-DD HH:MM:SS`.
pub fn format_datetime(dt: &DateTime) -> (r: String)
    requires
        dt_valid(*dt),
    ensures
        r@ == spec_format_datetime(*dt),
{
    let mut out: Vec<char> = Vec::new();
    push_digit(&mut out, dt.year / 1000);
    push_digit(&mut out, (dt.year / 100) % 10);
    push_digit(&mut out, (dt.year / 10) % 10);
    push_digit(&mut out, dt.year % 10);
    out.push('-');
    push_two(&mut out, dt.month as u32);
    out.push('-');
    push_two(&mut out, dt.day as u32);
    out.push(' ');
    push_two(&mut out, dt.hour as u32);
    out.push(':');
    push_two(&mut out, dt.minute as u32);
    out.push(':');
    push_two(&mut out, dt.second as u32);
    assert(out@ =~= spec_format_datetime(*dt));
    chars_to_string(&out)
}

/// Formats a date as `YYYY-MM-DD`.
pub fn format_date(dt: &DateTime) -> (r: String)
    requires
        dt_valid(*dt),
    ensures
        r@ == spec_format_date(*dt),
{
    let mut out: Vec<char> = Vec::new();
    push_digit(&mut out, dt.year / 1000);
    push_digit(&mut out, (dt.year / 100) % 10);
    push_digit(&mut out, (dt.year / 10) % 10);
    push_digit(&mut out, dt.year % 10);
    out.push('-');
    push_two(&mut out, dt.month as u32);
    out.push('-');
    push_two(&mut out, dt.day as u32);
    assert(out@ =~= spec_format_date(*dt));
    chars_to_string(&out)
}

/// Formatting then parsing a valid date-time gives it back unchanged.
#[verifier::rlimit(50)]
pub proof fn lemma_datetime_round_trip(dt: DateTime)
    requires
        dt_valid(dt),
    ensures
        spec_parse_datetime(spec_format_datetime(dt)) == Some(dt),
{
    let s = spec_format_datetime(dt);
    assert(s.len() == 19);
    assert(digits_at(s, 0, 4)) by {
        assert forall|k: int| 0 <= k < 4 implies is_digit(#[trigger] s[k]) by {
            assert(k == 0 || k == 1 || k == 2 || k == 3);
        }
    }
    assert(digits_at(s, 5, 2)) by {
        assert forall|k: int| 5 <= k < 7 implies is_digit(#[trigger] s[k]) by {
            assert(k == 5 || k == 6);
        }
    }
    assert(digits_at(s, 8, 2)) by {
        assert forall|k: int| 8 <= k < 10 implies is_digit(#[trigger] s[k]) by {
            assert(k == 8 || k == 9);
        }
    }
    assert(digits_at(s, 11, 2)) by {
        assert forall|k: int| 11 <= k < 13 implies is_digit(#[trigger] s[k]) by {
            assert(k == 11 || k == 12);
        }
    }
    assert(digits_at(s, 14, 2)) by {
        assert forall|k: int| 14 <= k < 16 implies is_digit(#[trigger] s[k]) by {
            assert(k == 14 || k == 15);
        }
    }
    assert(digits_at(s, 17, 2)) by {
        assert forall|k: int| 17 <= k < 19 implies is_digit(#[trigger] s[k]) by {
            assert(k == 17 || k == 18);
        }
    }
    assert(num4(s, 0) == dt.year as int);
    assert(num2(s, 5) == dt.month as int);
    assert(num2(s, 8) == dt.day as int);
    assert(num2(s, 11) == dt.hour as int);
    assert(num2(s, 14) == dt.minute as int);
    assert(num2(s, 17) == dt.second as int);
    assert(spec_raw_datetime(s) == Some(dt));
}

/// The key of a valid date-time is nonnegative and fits in 64 bits.
pub proof fn lemma_dt_key_bounds(dt: DateTime)
    requires
        dt_valid(dt),
    ensures
        0 <= dt_key(dt) < 0x8000000000000000,
{
}

} // verus!
