//! Runs of digits, and the unsigned identifiers of a catalog, which are
//! written in decimal or in hexadecimal.

use vstd::prelude::*;
use crate::ascii::{DIGIT_0, DIGIT_9, LOWER_A, LOWER_X, LOWER_Z, PLUS, UPPER_A, UPPER_Z};

verus! {

/// The value of the byte `b` as a digit in the given radix, if it is one.
/// Letters count in either case, as the digits from ten on.
pub open spec fn digit_in(b: u8, radix: int) -> Option<int> {
    let v: int = if DIGIT_0 <= b <= DIGIT_9 {
        b - DIGIT_0
    } else if LOWER_A <= b <= LOWER_Z {
        b - LOWER_A + 10
    } else if UPPER_A <= b <= UPPER_Z {
        b - UPPER_A + 10
    } else {
        36
    };
    if v < radix {
        Some(v)
    } else {
        None
    }
}

/// Every byte of `s` is a digit in the given radix.
pub open spec fn all_digits(s: Seq<u8>, radix: int) -> bool {
    forall|i: int| 0 <= i < s.len() ==> (#[trigger] digit_in(s[i], radix)).is_some()
}

/// The number that the digits `s` write in the given radix, most significant
/// digit first. The empty sequence writes zero.
pub open spec fn digits_value(s: Seq<u8>, radix: int) -> int
    decreases s.len(),
{
    if s.len() == 0 {
        0
    } else {
        digits_value(s.drop_last(), radix) * radix + digit_in(s.last(), radix).unwrap()
    }
}

/// What a run of digits denotes as a `u64`: its value, unless a byte is no
/// digit or the value does not fit.
pub open spec fn digits_u64(s: Seq<u8>, radix: int) -> Option<u64> {
    if all_digits(s, radix) && digits_value(s, radix) <= u64::MAX {
        Some(digits_value(s, radix) as u64)
    } else {
        None
    }
}

/// What an unsigned number denotes: an optional plus sign, then at least one
/// digit in the given radix, with a value that fits in a `u64`.
pub open spec fn unsigned_value(s: Seq<u8>, radix: int) -> Option<u64> {
    let digits = if s.len() > 0 && s[0] == PLUS {
        s.skip(1)
    } else {
        s
    };
    if digits.len() > 0 {
        digits_u64(digits, radix)
    } else {
        None
    }
}

/// Whether `s` begins with the hexadecimal prefix `0x`.
pub open spec fn has_hex_prefix(s: Seq<u8>) -> bool {
    s.len() >= 2 && s[0] == DIGIT_0 && s[1] == LOWER_X
}

/// What an identifier field denotes. After the prefix `0x` the number is read
/// in hexadecimal, otherwise in decimal.
pub open spec fn id_value(s: Seq<u8>) -> Option<u64> {
    if has_hex_prefix(s) {
        unsigned_value(s.skip(2), 16)
    } else {
        unsigned_value(s, 10)
    }
}

/// The digits of a number are worth at least as much as any of its prefixes.
pub proof fn lemma_digits_value_prefix(s: Seq<u8>, radix: int, n: int)
    requires
        2 <= radix <= 36,
        all_digits(s, radix),
        0 <= n <= s.len(),
    ensures
        0 <= digits_value(s.take(n), radix) <= digits_value(s, radix),
    decreases s.len(),
{
    if n == s.len() {
        assert(s.take(n) =~= s);
        if s.len() > 0 {
            lemma_digits_value_prefix(s.drop_last(), radix, n - 1);
            assert(digits_value(s.drop_last(), radix) * radix >= 0) by (nonlinear_arith)
                requires
                    digits_value(s.drop_last(), radix) >= 0,
                    radix >= 2,
            ;
        }
    } else {
        lemma_digits_value_prefix(s.drop_last(), radix, n);
        assert(s.drop_last().take(n) =~= s.take(n));
        assert(digits_value(s.drop_last(), radix) * radix >= digits_value(s.drop_last(), radix))
            by (nonlinear_arith)
            requires
                digits_value(s.drop_last(), radix) >= 0,
                radix >= 2,
        ;
    }
}

/// Appending a digit multiplies the value by the radix and adds the digit.
pub proof fn lemma_digits_value_push(s: Seq<u8>, radix: int, n: int)
    requires
        0 <= n < s.len(),
    ensures
        digits_value(s.take(n + 1), radix) == digits_value(s.take(n), radix) * radix + digit_in(
            s[n],
            radix,
        ).unwrap(),
{
    assert(s.take(n + 1).drop_last() =~= s.take(n));
}

/// Reads one digit.
pub fn read_digit(b: u8, radix: u8) -> (r: Option<u8>)
    requires
        2 <= radix <= 36,
    ensures
        r.is_some() == digit_in(b, radix as int).is_some(),
        r.is_some() ==> r.unwrap() as int == digit_in(b, radix as int).unwrap(),
{
    let v: u8 = if DIGIT_0 <= b && b <= DIGIT_9 {
        b - DIGIT_0
    } else if LOWER_A <= b && b <= LOWER_Z {
        b - LOWER_A + 10
    } else if UPPER_A <= b && b <= UPPER_Z {
        b - UPPER_A + 10
    } else {
        36
    };
    if v < radix {
        Some(v)
    } else {
        None
    }
}

/// Reads the bytes of `text` from `from` up to `to` as a run of digits.
pub fn read_digits(text: &[u8], from: usize, to: usize, radix: u8) -> (r: Option<u64>)
    requires
        from <= to <= text@.len(),
        2 <= radix <= 36,
    ensures
        r == digits_u64(text@.subrange(from as int, to as int), radix as int),
{
    let ghost run = text@.subrange(from as int, to as int);
    let mut acc: u64 = 0;
    let mut i: usize = from;
    while i < to
        invariant
            from <= i <= to <= text@.len(),
            2 <= radix <= 36,
            run == text@.subrange(from as int, to as int),
            all_digits(run.take(i - from), radix as int),
            acc == digits_value(run.take(i - from), radix as int),
        decreases to - i,
    {
        let digit = read_digit(text[i], radix);
        if digit.is_none() {
            assert(run[i - from] == text@[i as int]);
            return None;
        }
        let d: u8 = digit.unwrap();
        proof {
            lemma_digits_value_push(run, radix as int, i - from);
            assert(all_digits(run.take(i - from + 1), radix as int)) by {
                assert forall|j: int| 0 <= j < i - from + 1 implies (#[trigger] digit_in(
                    run.take(i - from + 1)[j],
                    radix as int,
                )).is_some() by {
                    if j < i - from {
                        assert(run.take(i - from)[j] == run[j]);
                    }
                }
            }
            if all_digits(run, radix as int) {
                lemma_digits_value_prefix(run, radix as int, i - from + 1);
            }
        }
        let scaled = acc.checked_mul(radix as u64);
        if scaled.is_none() {
            return None;
        }
        let next = scaled.unwrap().checked_add(d as u64);
        if next.is_none() {
            return None;
        }
        acc = next.unwrap();
        i += 1;
    }
    assert(run.take(to - from) =~= run);
    Some(acc)
}

/// Reads an unsigned number in the given radix from the bytes of `text` at
/// and after `from`.
pub fn read_unsigned(text: &[u8], from: usize, radix: u8) -> (r: Option<u64>)
    requires
        from <= text@.len(),
        2 <= radix <= 36,
    ensures
        r == unsigned_value(text@.skip(from as int), radix as int),
{
    let ghost s = text@.skip(from as int);
    let start: usize = if from < text.len() && text[from] == PLUS {
        from + 1
    } else {
        from
    };
    if start == text.len() {
        return None;
    }
    proof {
        if start != from {
            assert(text@.subrange(start as int, text@.len() as int) =~= s.skip(1));
        }
    }
    read_digits(text, start, text.len(), radix)
}

/// Reads an identifier.
pub fn parse_id(text: &[u8]) -> (r: Option<u64>)
    ensures
        r == id_value(text@),
{
    if text.len() >= 2 && text[0] == DIGIT_0 && text[1] == LOWER_X {
        read_unsigned(text, 2, 16)
    } else {
        assert(text@.skip(0) =~= text@);
        read_unsigned(text, 0, 10)
    }
}

/// Whether the bytes of `text` from `from` up to `to` are all digits.
pub fn are_digits(text: &[u8], from: usize, to: usize, radix: u8) -> (r: bool)
    requires
        from <= to <= text@.len(),
        2 <= radix <= 36,
    ensures
        r == all_digits(text@.subrange(from as int, to as int), radix as int),
{
    let ghost run = text@.subrange(from as int, to as int);
    let mut i: usize = from;
    while i < to
        invariant
            from <= i <= to <= text@.len(),
            2 <= radix <= 36,
            run == text@.subrange(from as int, to as int),
            forall|j: int|
                0 <= j < i - from ==> (#[trigger] digit_in(run[j], radix as int)).is_some(),
        decreases to - i,
    {
        if read_digit(text[i], radix).is_none() {
            assert(run[i - from] == text@[i as int]);
            return false;
        }
        i += 1;
    }
    true
}

} // verus!
