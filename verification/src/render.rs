//! Writing numbers and values as text.

use vstd::prelude::*;

verus! {

/// The character of the digit `d`.
pub open spec fn digit_char(d: nat) -> char {
    if d == 0 {
        '0'
    } else if d == 1 {
        '1'
    } else if d == 2 {
        '2'
    } else if d == 3 {
        '3'
    } else if d == 4 {
        '4'
    } else if d == 5 {
        '5'
    } else if d == 6 {
        '6'
    } else if d == 7 {
        '7'
    } else if d == 8 {
        '8'
    } else {
        '9'
    }
}

/// The digits of `n` in base ten, without leading zeros.
pub open spec fn digits(n: nat) -> Seq<char>
    decreases n,
{
    if n < 10 {
        seq![digit_char(n)]
    } else {
        digits(n / 10).push(digit_char(n % 10))
    }
}

/// `n` in base ten, with a `-` in front where it is negative.
pub open spec fn decimal(n: int) -> Seq<char> {
    if n < 0 {
        seq!['-'] + digits((-n) as nat)
    } else {
        digits(n as nat)
    }
}

/// The character of the digit `d`.
fn digit_to_char(d: u128) -> (c: char)
    requires
        d < 10,
    ensures
        c == digit_char(d as nat),
{
    if d == 0 {
        '0'
    } else if d == 1 {
        '1'
    } else if d == 2 {
        '2'
    } else if d == 3 {
        '3'
    } else if d == 4 {
        '4'
    } else if d == 5 {
        '5'
    } else if d == 6 {
        '6'
    } else if d == 7 {
        '7'
    } else if d == 8 {
        '8'
    } else {
        '9'
    }
}

/// Appends `n` in base ten to `out`.
pub fn push_decimal(out: &mut Vec<char>, n: i128)
    ensures
        final(out)@ == old(out)@ + decimal(n as int),
{
    let mut magnitude: u128 = if n >= 0 {
        n as u128
    } else {
        (-(n + 1)) as u128 + 1
    };
    let ghost whole = magnitude as nat;
    let mut tail: Vec<char> = Vec::new();
    assert(digits(whole) + tail@ == digits(whole));
    while magnitude >= 10
        invariant
            digits(whole) == digits(magnitude as nat) + tail@,
        decreases magnitude,
    {
        let c = digit_to_char(magnitude % 10);
        let ghost before = tail@;
        tail.insert(0, c);
        proof {
            assert(tail@ == seq![c] + before);
            assert(digits(magnitude as nat) == digits((magnitude / 10) as nat).push(c));
            assert(digits((magnitude / 10) as nat).push(c) + before == digits(
                (magnitude / 10) as nat,
            ) + (seq![c] + before));
        }
        magnitude = magnitude / 10;
    }
    let c = digit_to_char(magnitude);
    let ghost before = tail@;
    tail.insert(0, c);
    assert(tail@ == digits(whole)) by {
        assert(tail@ == seq![c] + before);
        assert(digits(magnitude as nat) == seq![c]);
    }
    let ghost start = out@;
    if n < 0 {
        out.push('-');
        assert(out@ == start + seq!['-']);
    }
    out.append(&mut tail);
    assert(out@ == start + decimal(n as int)) by {
        if n < 0 {
            assert((start + seq!['-']) + digits(whole) == start + (seq!['-'] + digits(whole)));
        }
    }
}

/// `n` in base ten.
pub fn decimal_string(n: i128) -> (s: String)
    ensures
        s@ == decimal(n as int),
{
    let mut out: Vec<char> = Vec::new();
    push_decimal(&mut out, n);
    assert(Seq::<char>::empty() + decimal(n as int) == decimal(n as int));
    crate::text::string_of(&out, 0, out.len())
}

} // verus!
