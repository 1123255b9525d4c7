//! Decimal integers in command arguments, read as Rust's `FromStr` reads them.
use vstd::prelude::*;
use crate::text::{chars_of, decimal, digit, signed_decimal};

verus! {

/// An ASCII digit.
pub open spec fn is_digit(c: char) -> bool {
    '0' <= c <= '9'
}

/// Every character of `d` is an ASCII digit.
pub open spec fn all_digits(d: Seq<char>) -> bool {
    forall|i: int| 0 <= i < d.len() ==> is_digit(#[trigger] d[i])
}

/// The number that the decimal digits `d` write.
pub open spec fn digits_value(d: Seq<char>) -> nat
    decreases d.len(),
{
    if d.len() == 0 {
        0
    } else {
        10 * digits_value(d.drop_last()) + ((d.last() as u32 - '0' as u32) as nat)
    }
}

/// An unsigned integer as `u32::from_str` reads it: an optional `+`, then one or more
/// ASCII digits and nothing else (leading zeros allowed, no white space).
pub open spec fn unsigned_value(s: Seq<char>) -> Option<nat> {
    let d = if s.len() > 0 && s[0] == '+' {
        s.drop_first()
    } else {
        s
    };
    if d.len() > 0 && all_digits(d) {
        Some(digits_value(d))
    } else {
        None
    }
}

/// A signed integer as `i64::from_str` reads it: an optional `+` or `-`, then one or
/// more ASCII digits and nothing else.
pub open spec fn signed_value(s: Seq<char>) -> Option<int> {
    if s.len() > 0 && s[0] == '-' {
        let d = s.drop_first();
        if d.len() > 0 && all_digits(d) {
            Some(-(digits_value(d) as int))
        } else {
            None
        }
    } else {
        match unsigned_value(s) {
            Some(n) => Some(n as int),
            None => None,
        }
    }
}

/// `s.parse::<u32>()` as a value: `None` when `s` is not a number or too big.
pub open spec fn u32_of(s: Seq<char>) -> Option<u32> {
    match unsigned_value(s) {
        Some(n) => if n <= u32::MAX {
            Some(n as u32)
        } else {
            None
        },
        None => None,
    }
}

/// `s.parse::<usize>()` as a value.
pub open spec fn usize_of(s: Seq<char>) -> Option<usize> {
    match unsigned_value(s) {
        Some(n) => if n <= usize::MAX {
            Some(n as usize)
        } else {
            None
        },
        None => None,
    }
}

/// `s.parse::<i64>()` as a value.
pub open spec fn i64_of(s: Seq<char>) -> Option<i64> {
    match signed_value(s) {
        Some(n) => if i64::MIN <= n <= i64::MAX {
            Some(n as i64)
        } else {
            None
        },
        None => None,
    }
}

/// A longer run of digits never writes a smaller number.
pub proof fn lemma_value_prefix(d: Seq<char>, k: int)
    requires
        all_digits(d),
        0 <= k <= d.len(),
    ensures
        digits_value(d.take(k)) <= digits_value(d),
    decreases d.len(),
{
    if k == d.len() {
        assert(d.take(k) =~= d);
    } else {
        let p = d.drop_last();
        assert(all_digits(p)) by {
            assert forall|i: int| 0 <= i < p.len() implies is_digit(#[trigger] p[i]) by {
                assert(p[i] == d[i]);
            }
        }
        lemma_value_prefix(p, k);
        assert(p.take(k) =~= d.take(k));
    }
}

/// The value of the digits `v[start..]`, when they are all digits, at least one, and
/// the value is at most `max`.
fn digits_from(v: &[char], start: usize, max: u128) -> (r: Option<u128>)
    requires
        start <= v@.len(),
        max <= u64::MAX,
    ensures
        r == if v@.len() > start && all_digits(v@.skip(start as int)) && digits_value(
            v@.skip(start as int),
        ) <= max {
            Some(digits_value(v@.skip(start as int)) as u128)
        } else {
            None
        },
{
    let ghost d = v@.skip(start as int);
    if start == v.len() {
        return None;
    }
    let mut acc: u128 = 0;
    let mut i: usize = start;
    proof {
        assert(d.take(0) =~= Seq::<char>::empty());
    }
    while i < v.len()
        invariant
            start <= i <= v@.len(),
            d == v@.skip(start as int),
            max <= u64::MAX,
            acc <= max,
            all_digits(d.take(i - start)),
            acc == digits_value(d.take(i - start)),
        decreases v.len() - i,
    {
        let c = v[i];
        proof {
            assert(d[i - start] == c);
        }
        if !('0' <= c && c <= '9') {
            proof {
                assert(!all_digits(d)) by {
                    assert(!is_digit(d[i - start]));
                }
            }
            return None;
        }
        let dig = (c as u32 - '0' as u32) as u128;
        let next = acc * 10 + dig;
        proof {
            let t = d.take(i + 1 - start);
            assert(t.drop_last() =~= d.take(i - start));
            assert(t.last() == c);
            assert(digits_value(t) == next);
            assert(all_digits(t)) by {
                assert forall|k: int| 0 <= k < t.len() implies is_digit(#[trigger] t[k]) by {
                    if k < t.len() - 1 {
                        assert(t[k] == d.take(i - start)[k]);
                    }
                }
            }
        }
        if next > max {
            proof {
                if all_digits(d) {
                    lemma_value_prefix(d, i + 1 - start);
                }
            }
            return None;
        }
        acc = next;
        i = i + 1;
    }
    proof {
        assert(d.take(i - start) =~= d);
    }
    Some(acc)
}

/// `s.parse::<u64>()` with the value bounded by `max`: the number, or `None` when `s`
/// is not one or it exceeds `max`.
fn parse_bounded(s: &str, max: u64) -> (r: Option<u64>)
    ensures
        r == match unsigned_value(s@) {
            Some(n) => if n <= max {
                Some(n as u64)
            } else {
                None
            },
            None => None,
        },
{
    let v = chars_of(s);
    let start: usize = if v.len() > 0 && v[0] == '+' {
        1
    } else {
        0
    };
    proof {
        if start == 1 {
            assert(v@.skip(1) =~= s@.drop_first());
        } else {
            assert(v@.skip(0) =~= s@);
        }
    }
    match digits_from(v.as_slice(), start, max as u128) {
        Some(n) => Some(n as u64),
        None => None,
    }
}

/// `s.parse::<u32>()`.
pub fn parse_u32(s: &str) -> (r: Option<u32>)
    ensures
        r == u32_of(s@),
{
    match parse_bounded(s, 0xFFFF_FFFF) {
        Some(n) => Some(n as u32),
        None => None,
    }
}

/// `s.parse::<usize>()`.
pub fn parse_usize(s: &str) -> (r: Option<usize>)
    ensures
        r == usize_of(s@),
{
    match parse_bounded(s, usize::MAX as u64) {
        Some(n) => Some(n as usize),
        None => None,
    }
}

/// `s.parse::<i64>()`.
pub fn parse_i64(s: &str) -> (r: Option<i64>)
    ensures
        r == i64_of(s@),
{
    let v = chars_of(s);
    if v.len() > 0 && v[0] == '-' {
        proof {
            assert(v@.skip(1) =~= s@.drop_first());
        }
        match digits_from(v.as_slice(), 1, 0x8000_0000_0000_0000) {
            Some(n) => {
                let m = (0i128 - n as i128) as i64;
                Some(m)
            },
            None => None,
        }
    } else {
        match parse_bounded(s, 0x7FFF_FFFF_FFFF_FFFF) {
            Some(n) => Some(n as i64),
            None => None,
        }
    }
}

/// Numbers written in decimal read back as themselves: what [`decimal`] writes is all
/// digits, and its value is the number.
pub proof fn lemma_decimal_digits(n: nat)
    ensures
        decimal(n).len() > 0,
        all_digits(decimal(n)),
        digits_value(decimal(n)) == n,
    decreases n,
{
    if n >= 10 {
        lemma_decimal_digits(n / 10);
        let d = decimal(n);
        assert(d.drop_last() =~= decimal(n / 10));
        assert(d.last() == digit(n % 10));
        assert(digit(n % 10) as u32 == 48 + n % 10);
        assert(digits_value(d) == 10 * digits_value(d.drop_last()) + ((d.last() as u32 - '0' as u32) as nat));
        assert forall|i: int| 0 <= i < d.len() implies is_digit(#[trigger] d[i]) by {
            if i < d.len() - 1 {
                assert(d[i] == decimal(n / 10)[i]);
            }
        }
    } else {
        let d = decimal(n);
        assert(d == seq![digit(n)]);
        assert(digit(n) as u32 == 48 + n);
        assert(d.drop_last() =~= Seq::<char>::empty());
        assert(digits_value(d) == 10 * digits_value(d.drop_last()) + ((d.last() as u32 - '0' as u32) as nat));
    }
}

/// An id written into the tab list (or a pid into the process list) reads back as the
/// same number from a launcher message: parsing a signed decimal gives the number.
pub proof fn lemma_i64_roundtrip(n: i64)
    ensures
        i64_of(signed_decimal(n as int)) == Some(n),
{
    if n < 0 {
        let m = (-n) as nat;
        lemma_decimal_digits(m);
        let s = signed_decimal(n as int);
        assert(s == seq!['-'] + decimal(m));
        assert(s.drop_first() =~= decimal(m));
    } else {
        lemma_decimal_digits(n as nat);
        let s = decimal(n as nat);
        assert(is_digit(s[0]));
    }
}

/// The same for an unsigned 32-bit number.
pub proof fn lemma_u32_roundtrip(n: u32)
    ensures
        u32_of(decimal(n as nat)) == Some(n),
{
    lemma_decimal_digits(n as nat);
    assert(is_digit(decimal(n as nat)[0]));
}

} // verus!
