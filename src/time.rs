//! The `HH:MM:SS` timestamp of a log line.
use vstd::prelude::*;

use crate::error::ParseError;
use crate::text::{ascii_chars, ascii_string};

verus! {

pub const COLON: u8 = 58;

/// A time of day as written in a log line; the ranges of the fields are not
/// checked.
#[derive(Clone, Copy, Debug, PartialEq, Eq, Structural)]
pub struct HmsTime {
    pub hours: u8,
    pub minutes: u8,
    pub seconds: u8,
}

/// An ASCII decimal digit.
pub open spec fn is_digit(b: u8) -> bool {
    48 <= b <= 57
}

/// The value of two decimal digits.
pub open spec fn pair_value(tens: u8, ones: u8) -> u8 {
    ((tens - 48) * 10 + (ones - 48)) as u8
}

/// The time that `s` begins with: two digits each for hours, minutes and
/// seconds, separated by colons.
pub open spec fn spec_hms(s: Seq<u8>) -> Option<HmsTime> {
    if s.len() >= 8 && is_digit(s[0]) && is_digit(s[1]) && s[2] == COLON && is_digit(s[3])
        && is_digit(s[4]) && s[5] == COLON && is_digit(s[6]) && is_digit(s[7]) {
        Some(
            HmsTime {
                hours: pair_value(s[0], s[1]),
                minutes: pair_value(s[3], s[4]),
                seconds: pair_value(s[6], s[7]),
            },
        )
    } else {
        None
    }
}

/// The decimal digits of `v`, padded with a zero to at least two.
pub open spec fn padded_digits(v: u8) -> Seq<u8> {
    if v < 100 {
        seq![(48 + v / 10) as u8, (48 + v % 10) as u8]
    } else {
        seq![(48 + v / 100) as u8, (48 + (v / 10) % 10) as u8, (48 + v % 10) as u8]
    }
}

/// A time written `HH:MM:SS`.
pub open spec fn hms_text(t: HmsTime) -> Seq<u8> {
    padded_digits(t.hours) + seq![COLON] + padded_digits(t.minutes) + seq![COLON] + padded_digits(
        t.seconds,
    )
}

fn push_padded(out: &mut Vec<u8>, v: u8)
    ensures
        final(out)@ == old(out)@ + padded_digits(v),
{
    if v >= 100 {
        out.push(48 + v / 100);
    }
    out.push(48 + (v / 10) % 10);
    out.push(48 + v % 10);
    assert(out@ =~= old(out)@ + padded_digits(v));
}

fn digit_pair(tens: u8, ones: u8) -> (r: u8)
    requires
        is_digit(tens),
        is_digit(ones),
    ensures
        r == pair_value(tens, ones),
{
    (tens - 48) * 10 + (ones - 48)
}

impl HmsTime {
    /// The time written `HH:MM:SS`, each field with at least two digits.
    pub fn to_string(&self) -> (r: String)
        ensures
            r@ == ascii_chars(hms_text(*self)),
    {
        let mut out: Vec<u8> = Vec::new();
        push_padded(&mut out, self.hours);
        out.push(COLON);
        push_padded(&mut out, self.minutes);
        out.push(COLON);
        push_padded(&mut out, self.seconds);
        assert(out@ =~= hms_text(*self));
        ascii_string(out)
    }

    /// Reads the time from the first eight bytes of `input`.
    pub fn parser(input: &[u8]) -> (r: Result<HmsTime, ParseError>)
        ensures
            match r {
                Ok(t) => spec_hms(input@) == Some(t),
                Err(e) => spec_hms(input@) is None && e == ParseError::PrefixMalformed,
            },
    {
        if input.len() < 8 {
            return Err(ParseError::PrefixMalformed);
        }
        let ok = is_digit_exec(input[0]) && is_digit_exec(input[1]) && input[2] == COLON
            && is_digit_exec(input[3]) && is_digit_exec(input[4]) && input[5] == COLON
            && is_digit_exec(input[6]) && is_digit_exec(input[7]);
        if !ok {
            return Err(ParseError::PrefixMalformed);
        }
        Ok(
            HmsTime {
                hours: digit_pair(input[0], input[1]),
                minutes: digit_pair(input[3], input[4]),
                seconds: digit_pair(input[6], input[7]),
            },
        )
    }
}

fn is_digit_exec(b: u8) -> (r: bool)
    ensures
        r == is_digit(b),
{
    48 <= b && b <= 57
}

} // verus!
