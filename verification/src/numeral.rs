//! Decimal numerals: one or more ASCII digits, read as an unsigned 64-bit
//! number.

use vstd::prelude::*;

verus! {

/// The digit `0`.
pub const ZERO: u8 = 0x30;

/// The digit `9`.
pub const NINE: u8 = 0x39;

/// An ASCII decimal digit, `0` to `9`.
pub open spec fn is_digit(b: u8) -> bool {
    ZERO <= b <= NINE
}

/// The number that a digit stands for; 0 for any other byte.
pub open spec fn digit_value(b: u8) -> nat {
    if is_digit(b) {
        (b - ZERO) as nat
    } else {
        0
    }
}

/// A numeral is one or more digits and nothing else.
pub open spec fn is_numeral(s: Seq<u8>) -> bool {
    &&& s.len() > 0
    &&& forall|i: int| 0 <= i < s.len() ==> is_digit(#[trigger] s[i])
}

/// The number that a row of digits writes in base ten, most significant
/// digit first. It has no upper bound.
pub open spec fn decimal_value(s: Seq<u8>) -> nat
    decreases s.len(),
{
    if s.len() == 0 {
        0
    } else {
        10 * decimal_value(s.drop_last()) + digit_value(s.last())
    }
}

/// The number that `s` writes, where `s` is a numeral and the number fits
/// in 64 bits.
pub open spec fn numeral_value(s: Seq<u8>) -> Option<u64> {
    if is_numeral(s) && decimal_value(s) <= u64::MAX {
        Some(decimal_value(s) as u64)
    } else {
        None
    }
}

/// Reads the numeral that `bytes` holds in `start..end`. Zeros at its start
/// are accepted. An empty text, a text with anything but digits in it, and
/// a number above `u64::MAX` give `None`.
pub fn parse_numeral(bytes: &[u8], start: usize, end: usize) -> (value: Option<u64>)
    requires
        start <= end <= bytes@.len(),
    ensures
        value == numeral_value(bytes@.subrange(start as int, end as int)),
{
    let ghost s = bytes@.subrange(start as int, end as int);
    if start == end {
        return None;
    }
    let mut value: u64 = 0;
    let mut at: usize = start;
    while at < end
        invariant
            start <= at <= end <= bytes@.len(),
            s == bytes@.subrange(start as int, end as int),
            forall|j: int| 0 <= j < at - start ==> is_digit(#[trigger] s[j]),
            value == decimal_value(s.take(at - start)),
        decreases end - at,
    {
        let b = bytes[at];
        if b < ZERO || b > NINE {
            assert(!is_digit(s[at - start]));
            return None;
        }
        let digit: u64 = (b - ZERO) as u64;
        proof {
            let next = s.take(at - start + 1);
            assert(next.drop_last() =~= s.take(at - start));
            lemma_decimal_value_grows(s, at - start + 1);
        }
        let scaled = match value.checked_mul(10) {
            Some(scaled) => scaled,
            None => { return None; },
        };
        value = match scaled.checked_add(digit) {
            Some(sum) => sum,
            None => { return None; },
        };
        at += 1;
    }
    proof {
        assert(s.take(at - start) =~= s);
    }
    Some(value)
}

/// A row of digits writes no smaller a number than any of its beginnings.
pub proof fn lemma_decimal_value_grows(s: Seq<u8>, n: int)
    requires
        0 <= n <= s.len(),
    ensures
        decimal_value(s.take(n)) <= decimal_value(s),
    decreases s.len() - n,
{
    if n < s.len() {
        lemma_decimal_value_grows(s.drop_last(), n);
        assert(s.drop_last().take(n) =~= s.take(n));
    } else {
        assert(s.take(n) =~= s);
    }
}

/// A zero before a row of digits does not change the number that it
/// writes.
pub proof fn lemma_decimal_value_leading_zero(s: Seq<u8>)
    ensures
        decimal_value(seq![ZERO] + s) == decimal_value(s),
    decreases s.len(),
{
    let longer = seq![ZERO] + s;
    if s.len() == 0 {
        assert(longer.drop_last() =~= s);
    } else {
        lemma_decimal_value_leading_zero(s.drop_last());
        assert(longer.drop_last() =~= seq![ZERO] + s.drop_last());
    }
}

} // verus!
