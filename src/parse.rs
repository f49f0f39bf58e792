//! Decimal integer parsing over bytes, with the rules of `u64::from_str` and
//! `i32::from_str`: an optional sign, then at least one ASCII digit, and a
//! value that fits the type.

use vstd::prelude::*;

verus! {

pub open spec fn is_digit(c: u8) -> bool {
    48 <= c <= 57
}

pub open spec fn all_digits(s: Seq<u8>) -> bool {
    forall|i: int| 0 <= i < s.len() ==> #[trigger] is_digit(s[i])
}

/// The value of a sequence of decimal digits, most significant first.
pub open spec fn digits_value(s: Seq<u8>) -> nat
    decreases s.len(),
{
    if s.len() == 0 {
        0
    } else {
        digits_value(s.drop_last()) * 10 + (s.last() - 48) as nat
    }
}

/// The magnitude that a run of digits spells, if it is a non-empty run of
/// digits whose value fits in a `u64`.
pub open spec fn magnitude(s: Seq<u8>) -> Option<u64> {
    if s.len() > 0 && all_digits(s) && digits_value(s) <= u64::MAX {
        Some(digits_value(s) as u64)
    } else {
        None
    }
}

/// What `u64::from_str` accepts: an optional `+`, then the digits.
pub open spec fn parse_u64_spec(s: Seq<u8>) -> Option<u64> {
    if s.len() > 0 && s[0] == 43 {
        magnitude(s.drop_first())
    } else {
        magnitude(s)
    }
}

/// What `i32::from_str` accepts: an optional `+` or `-`, then the digits.
pub open spec fn parse_i32_spec(s: Seq<u8>) -> Option<i32> {
    if s.len() > 0 && s[0] == 45 {
        match magnitude(s.drop_first()) {
            Some(m) => if m <= 0x8000_0000 {
                Some((-(m as int)) as i32)
            } else {
                None
            },
            None => None,
        }
    } else {
        let m = if s.len() > 0 && s[0] == 43 {
            magnitude(s.drop_first())
        } else {
            magnitude(s)
        };
        match m {
            Some(m) => if m <= 0x7fff_ffff {
                Some(m as i32)
            } else {
                None
            },
            None => None,
        }
    }
}

/// Reads the digits `b[lo..hi]` as a `u64`.
pub fn parse_magnitude(b: &[u8], lo: usize, hi: usize) -> (r: Option<u64>)
    requires
        lo <= hi <= b@.len(),
    ensures
        r == magnitude(b@.subrange(lo as int, hi as int)),
{
    let ghost s = b@.subrange(lo as int, hi as int);
    if lo == hi {
        return None;
    }
    let mut acc: u64 = 0;
    let mut overflow: bool = false;
    let mut i: usize = lo;
    while i < hi
        invariant
            lo <= i <= hi <= b@.len(),
            s == b@.subrange(lo as int, hi as int),
            all_digits(b@.subrange(lo as int, i as int)),
            !overflow ==> acc as nat == digits_value(b@.subrange(lo as int, i as int)),
            overflow ==> digits_value(b@.subrange(lo as int, i as int)) > u64::MAX,
        decreases hi - i,
    {
        let c = b[i];
        if c < 48 || c > 57 {
            assert(!is_digit(s[i - lo]));
            return None;
        }
        let ghost prev = b@.subrange(lo as int, i as int);
        let ghost next = b@.subrange(lo as int, i + 1);
        assert(next.drop_last() =~= prev);
        assert(digits_value(next) == digits_value(prev) * 10 + (c - 48) as nat);
        if !overflow {
            if acc > 1844674407370955161 || (acc == 1844674407370955161 && c > 53) {
                overflow = true;
            } else {
                acc = acc * 10 + (c - 48) as u64;
            }
        }
        assert(all_digits(next)) by {
            assert forall|j: int| 0 <= j < next.len() implies #[trigger] is_digit(next[j]) by {
                if j < prev.len() {
                    assert(next[j] == prev[j]);
                }
            }
        }
        i = i + 1;
    }
    assert(b@.subrange(lo as int, i as int) =~= s);
    if overflow {
        None
    } else {
        Some(acc)
    }
}

/// Reads `b[lo..hi]` as `u64::from_str` would.
pub fn parse_u64(b: &[u8], lo: usize, hi: usize) -> (r: Option<u64>)
    requires
        lo <= hi <= b@.len(),
    ensures
        r == parse_u64_spec(b@.subrange(lo as int, hi as int)),
{
    let ghost s = b@.subrange(lo as int, hi as int);
    if lo < hi && b[lo] == 43 {
        assert(s.drop_first() =~= b@.subrange(lo + 1, hi as int));
        parse_magnitude(b, lo + 1, hi)
    } else {
        parse_magnitude(b, lo, hi)
    }
}

/// Reads `b[lo..hi]` as `i32::from_str` would.
pub fn parse_i32(b: &[u8], lo: usize, hi: usize) -> (r: Option<i32>)
    requires
        lo <= hi <= b@.len(),
    ensures
        r == parse_i32_spec(b@.subrange(lo as int, hi as int)),
{
    let ghost s = b@.subrange(lo as int, hi as int);
    if lo < hi && b[lo] == 45 {
        assert(s.drop_first() =~= b@.subrange(lo + 1, hi as int));
        match parse_magnitude(b, lo + 1, hi) {
            Some(m) => if m <= 0x8000_0000 {
                Some((0 - (m as i64)) as i32)
            } else {
                None
            },
            None => None,
        }
    } else {
        let m = if lo < hi && b[lo] == 43 {
            assert(s.drop_first() =~= b@.subrange(lo + 1, hi as int));
            parse_magnitude(b, lo + 1, hi)
        } else {
            parse_magnitude(b, lo, hi)
        };
        match m {
            Some(m) => if m <= 0x7fff_ffff {
                Some(m as i32)
            } else {
                None
            },
            None => None,
        }
    }
}

} // verus!
