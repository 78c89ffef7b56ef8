//! Reading whole numbers from text.

use vstd::prelude::*;
use crate::text::chars_of;
use crate::tree::{all_digits, decimal_value, digit_value, is_digit, signed_decimal, unsigned_decimal};

verus! {

/// A prefix of a digit string never denotes more than the whole string.
pub proof fn lemma_decimal_prefix(s: Seq<char>, k: int)
    requires
        0 <= k <= s.len(),
    ensures
        decimal_value(s.take(k)) <= decimal_value(s),
    decreases s.len(),
{
    if k == s.len() {
        assert(s.take(k) == s);
    } else {
        assert(s.drop_last().take(k) == s.take(k));
        lemma_decimal_prefix(s.drop_last(), k);
    }
}

/// The number that the digit `c` stands for.
fn digit_of(c: char) -> (d: u128)
    requires
        is_digit(c),
    ensures
        d == digit_value(c),
        d <= 9,
{
    (c as u32 - '0' as u32) as u128
}

/// Reads `v[from..]` as a string of digits that denotes at most `limit`.
pub fn parse_digits(v: &Vec<char>, from: usize, limit: u128) -> (r: Option<u128>)
    requires
        from <= v@.len(),
    ensures
        r == (if from < v@.len() && all_digits(v@.skip(from as int)) && decimal_value(
            v@.skip(from as int),
        ) <= limit {
            Some(decimal_value(v@.skip(from as int)) as u128)
        } else {
            None
        }),
{
    if from == v.len() {
        return None;
    }
    let ghost digits = v@.skip(from as int);
    let mut acc: u128 = 0;
    let mut i: usize = from;
    assert(digits.take(0) == Seq::<char>::empty());
    while i < v.len()
        invariant
            from <= i <= v@.len(),
            digits == v@.skip(from as int),
            all_digits(digits.take(i - from)),
            acc == decimal_value(digits.take(i - from)),
            acc <= limit,
        decreases v@.len() - i,
    {
        let c = v[i];
        if !(c >= '0' && c <= '9') {
            assert(!is_digit(digits[i - from]));
            return None;
        }
        let d = digit_of(c);
        proof {
            let next = digits.take(i - from + 1);
            assert(next.drop_last() == digits.take(i - from));
            assert(next.last() == c);
            assert(decimal_value(next) == acc * 10 + d);
            assert(all_digits(next)) by {
                assert forall|j: int| 0 <= j < next.len() implies is_digit(#[trigger] next[j]) by {
                    if j < i - from {
                        assert(digits.take(i - from)[j] == next[j]);
                    }
                }
            }
            lemma_decimal_prefix(digits, i - from + 1);
        }
        if d > limit || acc > (limit - d) / 10 {
            return None;
        }
        acc = acc * 10 + d;
        i += 1;
    }
    assert(digits.take(digits.len() as int) == digits);
    Some(acc)
}

/// Reads `s` as a non-negative number of at most `limit`.
pub fn parse_unsigned(s: &str, limit: u128) -> (r: Option<u128>)
    ensures
        r == match unsigned_decimal(s@) {
            Some(n) => if n <= limit {
                Some(n as u128)
            } else {
                None
            },
            None => None,
        },
{
    let v = chars_of(s);
    if v.len() > 0 && v[0] == '+' {
        parse_digits(&v, 1, limit)
    } else {
        assert(v@.skip(0) == v@);
        parse_digits(&v, 0, limit)
    }
}

/// Reads `s` as a list index that fits the machine.
pub fn parse_index(s: &str) -> (r: Option<usize>)
    ensures
        r == match unsigned_decimal(s@) {
            Some(n) => if n <= usize::MAX {
                Some(n as usize)
            } else {
                None
            },
            None => None,
        },
{
    match parse_unsigned(s, usize::MAX as u128) {
        Some(n) => Some(n as usize),
        None => None,
    }
}

/// Reads `s` as a number between `lo` and `hi`.
pub fn parse_signed(s: &str, lo: i128, hi: i128) -> (r: Option<i128>)
    requires
        i128::MIN < lo,
    ensures
        r == match signed_decimal(s@) {
            Some(n) => if lo <= n <= hi {
                Some(n as i128)
            } else {
                None
            },
            None => None,
        },
{
    let v = chars_of(s);
    if v.len() > 0 && v[0] == '-' {
        let limit: u128 = if lo < 0 {
            (-lo) as u128
        } else {
            0
        };
        match parse_digits(&v, 1, limit) {
            Some(n) => {
                let value = -(n as i128);
                if lo <= value && value <= hi {
                    Some(value)
                } else {
                    None
                }
            },
            None => None,
        }
    } else {
        let limit: u128 = if hi > 0 {
            hi as u128
        } else {
            0
        };
        match parse_unsigned(s, limit) {
            Some(n) => {
                let value = n as i128;
                if lo <= value && value <= hi {
                    Some(value)
                } else {
                    None
                }
            },
            None => None,
        }
    }
}

} // verus!
