//! Frequency parsing for the sample-rate option: plain hertz, or a decimal
//! magnitude with a `khz`/`mhz`/`hz` suffix, computed with exact fixed-point
//! arithmetic.

pub mod decimal;

use vstd::prelude::*;
use crate::text::{cleaned_number, clean_number, parse_u64_spec, parse_u64_digits, pow10,
    pow10_checked};
use crate::util::decimal::{fixed_decimal_spec, last_dot, FixedDecimalU64};

verus! {

/// A decimal magnitude scaled by ten to the `k`: fixed-point when a
/// fractional separator is present, otherwise an integer multiplied by
/// `10^k`, overflow being a failure either way.
pub open spec fn scaled_spec(t: Seq<char>, k: nat) -> Option<u64> {
    if last_dot(t) >= 0 {
        fixed_decimal_spec(t, k)
    } else {
        match parse_u64_spec(t) {
            Some(v) => if pow10(k) <= u64::MAX && v * pow10(k) <= u64::MAX {
                Some((v * pow10(k)) as u64)
            } else {
                None
            },
            None => None,
        }
    }
}

/// What `parse_hertz` yields: the input is cleaned (white space and grouping
/// separators dropped, the rest lower-cased), a `khz` suffix scales by a
/// thousand, an `mhz` suffix by a million, a bare `hz` suffix or no suffix
/// leaves a plain integer hertz count.
pub open spec fn hertz_spec(s: Seq<char>) -> Option<u64> {
    let n = cleaned_number(s);
    if n.len() >= 3 && n[n.len() - 3] == 'k' && n[n.len() - 2] == 'h' && n[n.len() - 1] == 'z' {
        scaled_spec(n.take(n.len() - 3), 3)
    } else if n.len() >= 3 && n[n.len() - 3] == 'm' && n[n.len() - 2] == 'h' && n[n.len() - 1]
        == 'z' {
        scaled_spec(n.take(n.len() - 3), 6)
    } else if n.len() >= 2 && n[n.len() - 2] == 'h' && n[n.len() - 1] == 'z' {
        parse_u64_spec(n.take(n.len() - 2))
    } else {
        parse_u64_spec(n)
    }
}

/// A decimal magnitude with `K` fractional places, as `scaled_spec` states.
fn scaled_value<const K: u64>(t: &[char]) -> (r: Option<u64>)
    ensures
        r == scaled_spec(t@, K as nat),
{
    match crate::util::decimal::find_last_dot(t) {
        Some(_) => match FixedDecimalU64::<K>::from_chars(t) {
            Some(d) => Some(d.get()),
            None => None,
        },
        None => match parse_u64_digits(t) {
            Some(v) => match pow10_checked(K) {
                Some(m) => v.checked_mul(m),
                None => None,
            },
            None => None,
        },
    }
}

/// Parses a frequency given in hertz, exactly as `hertz_spec` states.
pub fn parse_hertz(input: &str) -> (r: Option<u64>)
    ensures
        r == hertz_spec(input@),
{
    let n = clean_number(input);
    let len = n.len();
    if len >= 3 && n[len - 3] == 'k' && n[len - 2] == 'h' && n[len - 1] == 'z' {
        scaled_value::<3>(vstd::slice::slice_subrange(n.as_slice(), 0, len - 3))
    } else if len >= 3 && n[len - 3] == 'm' && n[len - 2] == 'h' && n[len - 1] == 'z' {
        scaled_value::<6>(vstd::slice::slice_subrange(n.as_slice(), 0, len - 3))
    } else if len >= 2 && n[len - 2] == 'h' && n[len - 1] == 'z' {
        parse_u64_digits(vstd::slice::slice_subrange(n.as_slice(), 0, len - 2))
    } else {
        parse_u64_digits(n.as_slice())
    }
}

} // verus!
