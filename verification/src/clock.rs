//! Times of day: how they are read from the clock and from free-form text,
//! and the one way in which they are written.
//!
//! Every time that the store keeps is a text of the form `02:30:00 PM`:
//! twelve-hour clock, two digits for each field, seconds included.

use vstd::prelude::*;
use chrono::{DateTime, Datelike, NaiveDateTime, NaiveTime, Timelike, Utc};
use chrono_tz::America::Chicago;
use crate::text::string_of;

verus! {

/// A time of day. A leap second is held as second 59 with a billion
/// nanoseconds or more.
#[derive(Debug, Clone, Copy, PartialEq, Eq, Structural)]
pub struct ClockTime {
    pub hour: u32,
    pub minute: u32,
    pub second: u32,
    pub nanosecond: u32,
}

/// A date and a time of day in the local zone.
#[derive(Debug, Clone, Copy, PartialEq, Eq, Structural)]
pub struct LocalDateTime {
    pub year: i32,
    pub month: u32,
    pub day: u32,
    pub time: ClockTime,
}

impl ClockTime {
    /// Whether the fields are those of a time of day.
    pub open spec fn valid(self) -> bool {
        self.hour < 24 && self.minute < 60 && self.second < 60 && self.nanosecond < 2_000_000_000
    }

    /// The second as it is written: 60 within a leap second.
    pub open spec fn written_second(self) -> nat {
        (self.second + self.nanosecond / 1_000_000_000) as nat
    }

    /// The hour on the twelve-hour clock, from 1 to 12.
    pub open spec fn hour12(self) -> nat {
        if self.hour % 12 == 0 {
            12
        } else {
            (self.hour % 12) as nat
        }
    }
}

impl LocalDateTime {
    /// Whether the fields are those of a date and a time of day.
    pub open spec fn valid(self) -> bool {
        1 <= self.month <= 12 && 1 <= self.day <= 31 && self.time.valid()
    }
}

impl ClockTime {
    /// Whether the fields are those of a time of day.
    pub fn is_valid(&self) -> (ok: bool)
        ensures
            ok == self.valid(),
    {
        self.hour < 24 && self.minute < 60 && self.second < 60 && self.nanosecond < 2_000_000_000
    }
}

impl LocalDateTime {
    /// Whether the fields are those of a date and a time of day.
    pub fn is_valid(&self) -> (ok: bool)
        ensures
            ok == self.valid(),
    {
        1 <= self.month && self.month <= 12 && 1 <= self.day && self.day <= 31
            && self.time.is_valid()
    }
}

/// What `chrono::NaiveTime::parse_from_str` reads from `raw` under
/// `format`, if it accepts the text.
pub uninterp spec fn naive_time_parse(raw: Seq<char>, format: Seq<char>) -> Option<ClockTime>;

/// The time of day of what `chrono::NaiveDateTime::parse_from_str` reads
/// from `raw` under `format`, if it accepts the text.
pub uninterp spec fn naive_date_time_parse(raw: Seq<char>, format: Seq<char>) -> Option<
    ClockTime,
>;

/// The time of day in Chicago at the instant that
/// `chrono::DateTime::parse_from_rfc3339` reads from `raw`, if it accepts
/// the text.
pub uninterp spec fn rfc3339_chicago_parse(raw: Seq<char>) -> Option<ClockTime>;

/// The character of a decimal digit.
pub open spec fn digit_char(d: nat) -> char {
    ((48 + d) as u32) as char
}

/// A number below one hundred in two decimal digits.
pub open spec fn two_digits(n: nat) -> Seq<char> {
    seq![digit_char(n / 10), digit_char(n % 10)]
}

/// The decimal digits of `n`, at least `width` of them.
pub open spec fn padded_digits(n: nat, width: nat) -> Seq<char>
    decreases n, width,
{
    if n < 10 && width <= 1 {
        seq![digit_char(n)]
    } else {
        padded_digits(n / 10, if width > 0 {
            (width - 1) as nat
        } else {
            0
        }).push(digit_char(n % 10))
    }
}

/// A year as it is written: four digits from 0 to 9999, otherwise a sign
/// and at least four digits.
pub open spec fn year_text(year: int) -> Seq<char> {
    if 0 <= year <= 9999 {
        padded_digits(year as nat, 4)
    } else if year < 0 {
        seq!['-'] + padded_digits((-year) as nat, 4)
    } else {
        seq!['+'] + padded_digits(year as nat, 4)
    }
}

/// A time of day as the store keeps it: `hh:mm:ss AM` or `hh:mm:ss PM`.
pub open spec fn time_text(t: ClockTime) -> Seq<char> {
    two_digits(t.hour12()) + seq![':'] + two_digits(t.minute as nat) + seq![':'] + two_digits(
        t.written_second(),
    ) + seq![' ', if t.hour >= 12 {
        'P'
    } else {
        'A'
    }, 'M']
}

/// A date and time as a file name carries it: `yyyymmdd-hhmmss`, on the
/// twenty-four-hour clock.
pub open spec fn stamp_text(at: LocalDateTime) -> Seq<char> {
    year_text(at.year as int) + two_digits(at.month as nat) + two_digits(at.day as nat) + seq![
        '-',
    ] + two_digits(at.time.hour as nat) + two_digits(at.time.minute as nat) + two_digits(
        at.time.written_second(),
    )
}

/// Calls `chrono::NaiveTime::parse_from_str` and reads the fields of the
/// time it returns; `None` stands for its error. The fields are those of a
/// time of day, a leap second being held as `NaiveTime` holds it.
#[verifier::external_body]
pub(crate) fn parse_naive_time(raw: &str, format: &str) -> (out: Option<ClockTime>)
    ensures
        out == naive_time_parse(raw@, format@),
        out matches Some(t) ==> t.valid(),
{
    match NaiveTime::parse_from_str(raw, format) {
        Ok(t) => Some(
            ClockTime {
                hour: t.hour(),
                minute: t.minute(),
                second: t.second(),
                nanosecond: t.nanosecond(),
            },
        ),
        Err(_) => None,
    }
}

/// Calls `chrono::NaiveDateTime::parse_from_str` and reads the fields of
/// the time of day of what it returns; `None` stands for its error.
#[verifier::external_body]
pub(crate) fn parse_naive_date_time(raw: &str, format: &str) -> (out: Option<ClockTime>)
    ensures
        out == naive_date_time_parse(raw@, format@),
        out matches Some(t) ==> t.valid(),
{
    match NaiveDateTime::parse_from_str(raw, format) {
        Ok(t) => Some(
            ClockTime {
                hour: t.hour(),
                minute: t.minute(),
                second: t.second(),
                nanosecond: t.nanosecond(),
            },
        ),
        Err(_) => None,
    }
}

/// Calls `chrono::DateTime::parse_from_rfc3339`, moves the instant to the
/// zone `chrono_tz::America::Chicago` with `DateTime::with_timezone`, and
/// reads the fields of the local time of day; `None` stands for the
/// parser's error.
#[verifier::external_body]
pub(crate) fn parse_rfc3339_chicago(raw: &str) -> (out: Option<ClockTime>)
    ensures
        out == rfc3339_chicago_parse(raw@),
        out matches Some(t) ==> t.valid(),
{
    match DateTime::parse_from_rfc3339(raw) {
        Ok(at) => {
            let t = at.with_timezone(&Chicago);
            Some(
                ClockTime {
                    hour: t.hour(),
                    minute: t.minute(),
                    second: t.second(),
                    nanosecond: t.nanosecond(),
                },
            )
        },
        Err(_) => None,
    }
}

/// Calls `chrono::Utc::now`, moves the instant to the zone
/// `chrono_tz::America::Chicago` with `DateTime::with_timezone`, and reads
/// the fields of the local date and time. Nothing is known of the instant
/// but that its fields are those of a date and a time of day. (`Utc::now`
/// does not return on a machine whose clock stands before 1970.)
#[verifier::external_body]
pub(crate) fn central_now() -> (out: LocalDateTime)
    ensures
        out.valid(),
{
    let t = Utc::now().with_timezone(&Chicago);
    LocalDateTime {
        year: t.year(),
        month: t.month(),
        day: t.day(),
        time: ClockTime {
            hour: t.hour(),
            minute: t.minute(),
            second: t.second(),
            nanosecond: t.nanosecond(),
        },
    }
}

/// Appends the two decimal digits of `n` to `out`.
fn push_two_digits(out: &mut Vec<char>, n: u32)
    requires
        n < 100,
    ensures
        final(out)@ == old(out)@ + two_digits(n as nat),
{
    let tens: u8 = (n / 10) as u8;
    let ones: u8 = (n % 10) as u8;
    out.push((48 + tens) as char);
    out.push((48 + ones) as char);
    assert(out@ =~= old(out)@ + two_digits(n as nat));
}

/// Appends the decimal digits of `n`, at least `width` of them, to `out`.
fn push_padded_digits(out: &mut Vec<char>, n: u32, width: u32)
    ensures
        final(out)@ == old(out)@ + padded_digits(n as nat, width as nat),
    decreases n, width,
{
    if n < 10 && width <= 1 {
        let ones: u8 = n as u8;
        out.push((48 + ones) as char);
        assert(out@ =~= old(out)@ + padded_digits(n as nat, width as nat));
    } else {
        let rest: u32 = if width > 0 {
            width - 1
        } else {
            0
        };
        push_padded_digits(out, n / 10, rest);
        let ones: u8 = (n % 10) as u8;
        out.push((48 + ones) as char);
        assert(out@ =~= old(out)@ + padded_digits(n as nat, width as nat));
    }
}

/// Writes a time of day as the store keeps it.
pub fn time_string(t: ClockTime) -> (out: String)
    requires
        t.valid(),
    ensures
        out@ == time_text(t),
{
    let mut chars: Vec<char> = Vec::new();
    let hour12: u32 = if t.hour % 12 == 0 {
        12
    } else {
        t.hour % 12
    };
    push_two_digits(&mut chars, hour12);
    chars.push(':');
    push_two_digits(&mut chars, t.minute);
    chars.push(':');
    push_two_digits(&mut chars, t.second + t.nanosecond / 1_000_000_000);
    chars.push(' ');
    chars.push(if t.hour >= 12 {
        'P'
    } else {
        'A'
    });
    chars.push('M');
    assert(chars@ =~= time_text(t));
    string_of(&chars)
}

/// Writes a date and time as a file name carries it.
pub fn stamp_string(at: LocalDateTime) -> (out: String)
    requires
        at.valid(),
    ensures
        out@ == stamp_text(at),
{
    let mut chars: Vec<char> = Vec::new();
    let year: i64 = at.year as i64;
    if year < 0 {
        chars.push('-');
        push_padded_digits(&mut chars, (-year) as u32, 4);
    } else {
        if year > 9999 {
            chars.push('+');
        }
        push_padded_digits(&mut chars, year as u32, 4);
    }
    assert(chars@ =~= year_text(at.year as int));
    push_two_digits(&mut chars, at.month);
    push_two_digits(&mut chars, at.day);
    chars.push('-');
    push_two_digits(&mut chars, at.time.hour);
    push_two_digits(&mut chars, at.time.minute);
    push_two_digits(&mut chars, at.time.second + at.time.nanosecond / 1_000_000_000);
    assert(chars@ =~= stamp_text(at));
    string_of(&chars)
}

/// The time of day in Chicago at this moment, as the store keeps it.
///
/// Which time is read depends on the clock alone; whatever it is, the text
/// is the one that [`time_string`] writes for a time of day.
pub fn central_now_time_string() -> (out: String)
    ensures
        exists|t: ClockTime| t.valid() && out@ == time_text(t),
{
    let now = central_now();
    time_string(now.time)
}

} // verus!
