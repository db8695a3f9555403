//! The `server-timing` header: the server's own delay, which it reports in
//! milliseconds as the header's last field.

use crate::providers::cloudflare::MeasureError;
use crate::text::{all_digits, decimal_value, is_number, parse_decimal, split, split_on, views};
use vstd::prelude::*;

verus! {

/// The last field of a timing header: what follows its last `=` or `,`.
pub open spec fn timing_field(header: Seq<u8>) -> Seq<u8> {
    split_on(split_on(header, 61).last(), 44).last()
}

/// A decimal number: digits, optionally with one point before, among or after
/// them, and at least one digit in all. Nothing else is a number here: a sign,
/// an exponent, a space, or a word such as `inf` or `nan` makes the field
/// malformed.
pub open spec fn is_decimal(text: Seq<u8>) -> bool {
    let parts = split_on(text, 46);
    &&& parts.len() <= 2
    &&& all_digits(parts[0])
    &&& parts.len() == 1 ==> parts[0].len() > 0
    &&& parts.len() == 2 ==> all_digits(parts[1]) && parts[0].len() + parts[1].len() > 0
}

/// The digit at place `i` of `s`, zero beyond its end.
pub open spec fn digit_or_zero(s: Seq<u8>, i: int) -> nat {
    if 0 <= i < s.len() {
        (s[i] - 48) as nat
    } else {
        0
    }
}

/// The first three digits after the point, as thousandths.
pub open spec fn thousandths(frac: Seq<u8>) -> nat {
    digit_or_zero(frac, 0) * 100 + digit_or_zero(frac, 1) * 10 + digit_or_zero(frac, 2)
}

/// A decimal number of milliseconds in whole microseconds, rounded down. No
/// digits before the point count as zero.
pub open spec fn micros_of_millis(text: Seq<u8>) -> nat {
    let parts = split_on(text, 46);
    decimal_value(parts[0]) * 1000 + if parts.len() == 2 {
        thousandths(parts[1])
    } else {
        0
    }
}

/// The server's delay in microseconds that a timing header reports.
pub open spec fn server_delay(header: Seq<u8>) -> Result<u64, MeasureError> {
    let field = timing_field(header);
    if !is_decimal(field) {
        Err(MeasureError::MalformedTiming)
    } else if micros_of_millis(field) > u64::MAX {
        Err(MeasureError::TimingOutOfRange)
    } else {
        Ok(micros_of_millis(field) as u64)
    }
}

/// The digit at place `i` of `s` as a number, zero beyond its end.
fn digit_at(s: &Vec<u8>, i: usize) -> (d: u64)
    requires
        all_digits(s@),
    ensures
        d == digit_or_zero(s@, i as int),
        d <= 9,
{
    if i < s.len() {
        (s[i] - 48) as u64
    } else {
        0
    }
}

/// Reads the server's delay from the value of a `server-timing` header: the
/// header's last field is a decimal number of milliseconds, written in digits
/// with at most one point. A field in any other form, signed or with an
/// exponent, is an error.
pub fn parse_server_time_from_response(header: &[u8]) -> (r: Result<u64, MeasureError>)
    ensures
        r == server_delay(header@),
{
    let by_equals = split(header, 61);
    let by_comma = split(by_equals[by_equals.len() - 1].as_slice(), 44);
    let parts = split(by_comma[by_comma.len() - 1].as_slice(), 46);
    proof {
        assert(views(by_equals@).last() == by_equals@[by_equals@.len() - 1]@);
        assert(views(by_comma@).last() == by_comma@[by_comma@.len() - 1]@);
        assert(views(parts@)[0] == parts@[0]@);
        if parts@.len() >= 2 {
            assert(views(parts@)[1] == parts@[1]@);
        }
    }
    if parts.len() > 2 || !is_number(parts[0].as_slice()) {
        return Err(MeasureError::MalformedTiming);
    }
    if parts.len() == 1 && parts[0].len() == 0 {
        return Err(MeasureError::MalformedTiming);
    }
    if parts.len() == 2 && (!is_number(parts[1].as_slice()) || (parts[0].len() == 0
        && parts[1].len() == 0)) {
        return Err(MeasureError::MalformedTiming);
    }
    let whole: u64 = match parse_decimal(parts[0].as_slice()) {
        Some(w) => w,
        None => {
            return Err(MeasureError::TimingOutOfRange);
        },
    };
    let fraction: u64 = if parts.len() == 2 {
        digit_at(&parts[1], 0) * 100 + digit_at(&parts[1], 1) * 10 + digit_at(&parts[1], 2)
    } else {
        0
    };
    let micros: u128 = whole as u128 * 1000 + fraction as u128;
    if micros > u64::MAX as u128 {
        return Err(MeasureError::TimingOutOfRange);
    }
    Ok(micros as u64)
}

} // verus!
