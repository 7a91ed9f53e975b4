//! Decimal integers written as text, read the way `str::parse` reads them.

use vstd::prelude::*;

verus! {

/// Whether the byte is an ASCII digit.
pub open spec fn is_digit(b: u8) -> bool {
    0x30 <= b <= 0x39
}

/// Whether every byte is an ASCII digit.
pub open spec fn all_digits(s: Seq<u8>) -> bool {
    forall|i: int| 0 <= i < s.len() ==> is_digit(#[trigger] s[i])
}

/// The number the decimal digits `s` write.
pub open spec fn digits_value(s: Seq<u8>) -> nat
    decreases s.len(),
{
    if s.len() == 0 {
        0
    } else {
        digits_value(s.drop_last()) * 10 + (s.last() - 0x30) as nat
    }
}

/// A sign byte `+` or `-` at the front, if there is one, and the rest.
pub open spec fn split_sign(s: Seq<u8>) -> (bool, Seq<u8>) {
    if s.len() > 0 && s[0] == 0x2d {
        (true, s.drop_first())
    } else if s.len() > 0 && s[0] == 0x2b {
        (false, s.drop_first())
    } else {
        (false, s)
    }
}

/// What `i64::from_str` gives for the bytes `s`: an optional sign, then at
/// least one digit, and a value within the range of `i64`.
pub open spec fn parse_i64_spec(s: Seq<u8>) -> Option<i64> {
    let (negative, digits) = split_sign(s);
    if digits.len() == 0 || !all_digits(digits) {
        None
    } else if negative {
        if digits_value(digits) <= 0x8000_0000_0000_0000 {
            Some((0 - digits_value(digits)) as i64)
        } else {
            None
        }
    } else {
        if digits_value(digits) <= 0x7fff_ffff_ffff_ffff {
            Some(digits_value(digits) as i64)
        } else {
            None
        }
    }
}

/// What `usize::from_str` gives for the bytes `s`: an optional `+`, then at
/// least one digit, and a value within the range of `usize`.
pub open spec fn parse_usize_spec(s: Seq<u8>) -> Option<usize> {
    let digits = if s.len() > 0 && s[0] == 0x2b { s.drop_first() } else { s };
    if digits.len() == 0 || !all_digits(digits) {
        None
    } else if digits_value(digits) <= usize::MAX {
        Some(digits_value(digits) as usize)
    } else {
        None
    }
}

proof fn lemma_digits_value_grows(s: Seq<u8>, k: int)
    requires
        all_digits(s),
        0 <= k <= s.len(),
    ensures
        digits_value(s.take(k)) <= digits_value(s),
    decreases s.len() - k,
{
    if k < s.len() {
        lemma_digits_value_grows(s, k + 1);
        assert(s.take(k + 1).drop_last() =~= s.take(k));
    } else {
        assert(s.take(k) =~= s);
    }
}

/// The value of the digits of `s` from `start` on, when they are all digits,
/// there is at least one, and the value is below 2^64.
fn digits_below_2_64(s: &[u8], start: usize) -> (r: Option<u128>)
    requires
        start <= s@.len(),
    ensures
        match r {
            Some(v) => {
                &&& s@.len() > start
                &&& all_digits(s@.skip(start as int))
                &&& v == digits_value(s@.skip(start as int))
                &&& v < 0x1_0000_0000_0000_0000
            },
            None => s@.len() == start || !all_digits(s@.skip(start as int))
                || digits_value(s@.skip(start as int)) >= 0x1_0000_0000_0000_0000,
        },
{
    let n = s.len();
    if start == n {
        return None;
    }
    let mut acc: u128 = 0;
    let mut i: usize = start;
    while i < n
        invariant
            n == s@.len(),
            start <= i <= n,
            all_digits(s@.subrange(start as int, i as int)),
            acc == digits_value(s@.subrange(start as int, i as int)),
            acc < 0x1_0000_0000_0000_0000,
        decreases n - i,
    {
        let b = s[i];
        if b < 0x30 || b > 0x39 {
            proof {
                assert(s@.skip(start as int)[i - start] == b);
            }
            return None;
        }
        let ghost prev = s@.subrange(start as int, i as int);
        acc = acc * 10 + (b - 0x30) as u128;
        proof {
            let next = s@.subrange(start as int, i + 1);
            assert(next.drop_last() =~= prev);
            assert(next.last() == b);
        }
        i = i + 1;
        if acc >= 0x1_0000_0000_0000_0000 {
            proof {
                let rest = s@.skip(start as int);
                assert(rest.take(i - start) =~= s@.subrange(start as int, i as int));
                if all_digits(rest) {
                    lemma_digits_value_grows(rest, i - start);
                }
            }
            return None;
        }
    }
    proof {
        assert(s@.subrange(start as int, n as int) =~= s@.skip(start as int));
    }
    Some(acc)
}

/// Reads a signed decimal number from `s` the way `i64::from_str` does.
pub fn parse_i64(s: &[u8]) -> (r: Option<i64>)
    ensures
        r == parse_i64_spec(s@),
{
    let n = s.len();
    let mut start: usize = 0;
    let mut negative = false;
    if n > 0 && s[0] == 0x2d {
        negative = true;
        start = 1;
    } else if n > 0 && s[0] == 0x2b {
        start = 1;
    }
    proof {
        assert(split_sign(s@).1 =~= s@.skip(start as int));
        assert(split_sign(s@).0 == negative);
    }
    match digits_below_2_64(s, start) {
        None => None,
        Some(v) => {
            if negative {
                if v <= 0x8000_0000_0000_0000 {
                    Some((0 - (v as i128)) as i64)
                } else {
                    None
                }
            } else if v <= 0x7fff_ffff_ffff_ffff {
                Some(v as i64)
            } else {
                None
            }
        },
    }
}

/// Reads an unsigned decimal number from `s` the way `usize::from_str` does.
pub fn parse_usize(s: &[u8]) -> (r: Option<usize>)
    ensures
        r == parse_usize_spec(s@),
{
    let n = s.len();
    let start: usize = if n > 0 && s[0] == 0x2b { 1 } else { 0 };
    proof {
        let digits = if s@.len() > 0 && s@[0] == 0x2b { s@.drop_first() } else { s@ };
        assert(digits =~= s@.skip(start as int));
    }
    match digits_below_2_64(s, start) {
        None => None,
        Some(v) => {
            if v <= usize::MAX as u128 {
                Some(v as usize)
            } else {
                None
            }
        },
    }
}

} // verus!
