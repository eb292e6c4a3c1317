//! Exact fixed-point decimal parsing: a decimal string is turned into an
//! unsigned integer scaled by a fixed power of ten, with every overflow a
//! parse failure rather than a silent wraparound.

use vstd::prelude::*;
use crate::text::{
    all_digits, dec_value, digit_value, is_digit_char, parse_u64_digits, pow10, pow10_checked,
};

verus! {

/// The index of the last `.` in `s`, or `-1` when there is none.
pub open spec fn last_dot(s: Seq<char>) -> int
    decreases s.len(),
{
    if s.len() == 0 {
        -1
    } else if s.last() == '.' {
        s.len() - 1
    } else {
        last_dot(s.drop_last())
    }
}

/// What fixed-point parsing of `s` with `k` fractional places yields.
///
/// The string must contain a fractional separator; the whole part before the
/// last `.` and the fractional part after it (truncated to `k` digits) must
/// both be non-empty digit strings; the scaled value
/// `whole * 10^k + frac * 10^(k - digits given)` must fit in 64 bits, as must
/// `10^k` itself. Anything else is a failure.
pub open spec fn fixed_decimal_spec(s: Seq<char>, k: nat) -> Option<u64> {
    let d = last_dot(s);
    if d >= 0 {
        let whole = s.take(d);
        let frac_all = s.skip(d + 1);
        let frac = if frac_all.len() > k {
            frac_all.take(k as int)
        } else {
            frac_all
        };
        let val = dec_value(whole) * pow10(k) + dec_value(frac) * pow10((k - frac.len()) as nat);
        if whole.len() > 0 && all_digits(whole) && frac.len() > 0 && all_digits(frac) && pow10(k)
            <= u64::MAX && val <= u64::MAX {
            Some(val as u64)
        } else {
            None
        }
    } else {
        None
    }
}

/// Finds the index of the last `.` in `s`, as `last_dot` states.
pub fn find_last_dot(s: &[char]) -> (r: Option<usize>)
    ensures
        match r {
            Some(d) => last_dot(s@) == d && d < s@.len(),
            None => last_dot(s@) == -1,
        },
{
    let ghost sq = s@;
    let mut dot: Option<usize> = None;
    let mut i: usize = 0;
    while i < s.len()
        invariant
            s@ == sq,
            i <= sq.len(),
            match dot {
                Some(d) => last_dot(sq.take(i as int)) == d && d < i,
                None => last_dot(sq.take(i as int)) == -1,
            },
        decreases sq.len() - i,
    {
        proof {
            assert(sq.take(i + 1).drop_last() =~= sq.take(i as int));
            assert(sq.take(i + 1).last() == sq[i as int]);
        }
        if s[i] == '.' {
            dot = Some(i);
        }
        i += 1;
    }
    proof {
        assert(sq.take(sq.len() as int) =~= sq);
    }
    dot
}

/// An unsigned value scaled by ten to a compile-time-fixed number of
/// fractional places.
pub struct FixedDecimalU64<const FRACTIONAL_PLACES: u64>(u64);

impl<const FRACTIONAL_PLACES: u64> View for FixedDecimalU64<FRACTIONAL_PLACES> {
    type V = u64;

    closed spec fn view(&self) -> u64 {
        self.0
    }
}

impl<const FRACTIONAL_PLACES: u64> FixedDecimalU64<FRACTIONAL_PLACES> {
    /// The scaled integer value.
    pub fn get(&self) -> (r: u64)
        ensures
            r == self@,
    {
        self.0
    }

    /// Parses a character slice as a fixed-point decimal, exactly as
    /// `fixed_decimal_spec` states.
    pub fn from_chars(s: &[char]) -> (r: Option<Self>)
        ensures
            match r {
                Some(d) => fixed_decimal_spec(s@, FRACTIONAL_PLACES as nat) == Some(d@),
                None => fixed_decimal_spec(s@, FRACTIONAL_PLACES as nat) is None,
            },
    {
        let ghost sq = s@;
        let ghost k = FRACTIONAL_PLACES as nat;

        let d = match find_last_dot(s) {
            Some(d) => d,
            None => {
                return None;
            },
        };

        let ghost whole = sq.take(d as int);
        let ghost frac_all = sq.skip(d + 1);
        let ghost frac = if frac_all.len() > k {
            frac_all.take(k as int)
        } else {
            frac_all
        };

        // The whole part, scaled by ten to the `k`.
        let wv = match parse_u64_digits(vstd::slice::slice_subrange(s, 0, d)) {
            Some(v) => v,
            None => {
                proof {
                    if whole.len() > 0 && all_digits(whole) {
                        assert(dec_value(whole) > u64::MAX);
                        assert(pow10(k) >= 1) by {
                            crate::text::lemma_pow10_increases(0, k);
                        }
                        assert(dec_value(whole) * pow10(k) >= dec_value(whole) * 1) by (
                        nonlinear_arith)
                            requires
                                pow10(k) >= 1,
                                dec_value(whole) >= 0,
                        ;
                    }
                }
                return None;
            },
        };
        let mult = match pow10_checked(FRACTIONAL_PLACES) {
            Some(m) => m,
            None => {
                return None;
            },
        };
        let whole_scaled = match wv.checked_mul(mult) {
            Some(v) => v,
            None => {
                return None;
            },
        };

        // The fractional part: at most `k` digits, the rest of the places
        // treated as zero-padded.
        let slen = s.len();
        assert(d < slen);
        let mut facc: u64 = 0;
        let mut cnt: u64 = 0;
        let mut j: usize = d + 1;
        while j < s.len() && cnt < FRACTIONAL_PLACES
            invariant
                s@ == sq,
                k == FRACTIONAL_PLACES as nat,
                last_dot(sq) == d,
                d < j <= sq.len(),
                cnt as int == j as int - d as int - 1,
                cnt <= FRACTIONAL_PLACES,
                frac_all == sq.skip(d + 1),
                frac == (if frac_all.len() > k {
                    frac_all.take(k as int)
                } else {
                    frac_all
                }),
                cnt <= frac.len(),
                all_digits(frac.take(cnt as int)),
                facc == dec_value(frac.take(cnt as int)),
                dec_value(frac.take(cnt as int)) <= u64::MAX,
            decreases sq.len() - j,
        {
            let c = s[j];
            proof {
                if frac_all.len() > k {
                    assert(frac.len() == k);
                } else {
                    assert(frac.len() == frac_all.len());
                }
                assert(cnt < frac.len());
                assert(frac[cnt as int] == frac_all[cnt as int]);
                assert(frac_all[cnt as int] == sq[j as int]);
                assert(frac.take(cnt as int + 1).drop_last() =~= frac.take(cnt as int));
                assert(frac.take(cnt as int + 1).last() == frac[cnt as int]);
            }
            if !is_digit_char(c) {
                assert(!all_digits(frac));
                return None;
            }
            let dv = digit_value(c);
            let grown = match facc.checked_mul(10) {
                Some(m) => m.checked_add(dv),
                None => None,
            };
            match grown {
                Some(v) => {
                    facc = v;
                },
                None => {
                    proof {
                        assert(dec_value(frac.take(cnt as int + 1)) > u64::MAX);
                        crate::text::lemma_dec_value_prefix(frac, cnt as int + 1);
                        assert(pow10((k - frac.len()) as nat) >= 1) by {
                            crate::text::lemma_pow10_increases(0, (k - frac.len()) as nat);
                        }
                        assert(dec_value(frac) * pow10((k - frac.len()) as nat) >= dec_value(frac)
                            * 1) by (nonlinear_arith)
                            requires
                                pow10((k - frac.len()) as nat) >= 1,
                                dec_value(frac) >= 0,
                        ;
                    }
                    return None;
                },
            }
            cnt += 1;
            j += 1;
        }
        proof {
            if j >= sq.len() {
                assert(frac_all.len() <= k);
                assert(frac.take(cnt as int) =~= frac);
            } else {
                assert(cnt == FRACTIONAL_PLACES);
                assert(frac_all.len() > k);
                assert(frac.take(cnt as int) =~= frac);
            }
        }
        if cnt == 0 {
            assert(frac.len() == 0);
            return None;
        }

        // `10^(k - cnt)` is at most `10^k`, which fit in 64 bits above, so
        // this power never overflows.
        let fscale = match pow10_checked(FRACTIONAL_PLACES - cnt) {
            Some(v) => v,
            None => {
                proof {
                    crate::text::lemma_pow10_increases((k - cnt) as nat, k);
                    assert(false);
                }
                return None;
            },
        };
        let frac_scaled = match facc.checked_mul(fscale) {
            Some(v) => v,
            None => {
                return None;
            },
        };
        match whole_scaled.checked_add(frac_scaled) {
            Some(total) => Some(FixedDecimalU64(total)),
            None => None,
        }
    }

    /// Parses a string slice as a fixed-point decimal, exactly as
    /// `fixed_decimal_spec` states.
    pub fn from_str(s: &str) -> (r: Option<Self>)
        ensures
            match r {
                Some(d) => fixed_decimal_spec(s@, FRACTIONAL_PLACES as nat) == Some(d@),
                None => fixed_decimal_spec(s@, FRACTIONAL_PLACES as nat) is None,
            },
    {
        let cs = crate::text::chars_of(s);
        Self::from_chars(cs.as_slice())
    }
}

} // verus!
