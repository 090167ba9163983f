//! Decimal numbers, held in fixed point as counts of millionths.

use vstd::prelude::*;
use crate::ascii::{DIGIT_0, DIGIT_5, DOT, LOWER_E, MINUS, PLUS, UPPER_E};
use crate::bytes::find_byte;
use crate::number::{
    all_digits, are_digits, digit_in, digits_u64, digits_value, lemma_digits_value_prefix,
    lemma_digits_value_push, read_digits,
};
use crate::seqs::first_index_of;

verus! {

/// Fixed-point units per whole: a coordinate or magnitude is held as a count
/// of millionths.
pub const SCALE: i64 = 1_000_000;

/// Number of fraction digits that a fixed-point value keeps.
pub const FRACTION_DIGITS: usize = 6;

/// Whether `s` begins with a sign.
pub open spec fn is_signed(s: Seq<u8>) -> bool {
    s.len() > 0 && (s[0] == PLUS || s[0] == MINUS)
}

/// Whether `s` begins with a minus sign.
pub open spec fn is_negative(s: Seq<u8>) -> bool {
    s.len() > 0 && s[0] == MINUS
}

/// What follows the sign of `s`, or `s` where it has no sign.
pub open spec fn unsigned_part(s: Seq<u8>) -> Seq<u8> {
    if is_signed(s) {
        s.skip(1)
    } else {
        s
    }
}

/// An integer: an optional sign, then at least one digit.
pub open spec fn is_integer(s: Seq<u8>) -> bool {
    unsigned_part(s).len() > 0 && all_digits(unsigned_part(s), 10)
}

/// The value of an integer, however large.
pub open spec fn integer_value(s: Seq<u8>) -> int {
    if is_negative(s) {
        -digits_value(unsigned_part(s), 10)
    } else {
        digits_value(unsigned_part(s), 10)
    }
}

/// Where the exponent of an unsigned decimal is marked: the position of its
/// first `e`, of either case, or its length where it has none.
pub open spec fn mark_of(body: Seq<u8>) -> int {
    let lower = first_index_of(body, LOWER_E);
    let upper = first_index_of(body, UPPER_E);
    if lower < upper {
        lower
    } else {
        upper
    }
}

/// Whether an unsigned decimal has an exponent.
pub open spec fn has_exponent(body: Seq<u8>) -> bool {
    mark_of(body) < body.len()
}

/// What stands before the exponent mark.
pub open spec fn mantissa(body: Seq<u8>) -> Seq<u8> {
    body.take(mark_of(body))
}

/// What stands after the exponent mark.
pub open spec fn exponent_text(body: Seq<u8>) -> Seq<u8> {
    body.skip(mark_of(body) + 1)
}

/// The exponent of an unsigned decimal: zero where it has none.
pub open spec fn exponent(body: Seq<u8>) -> int {
    if has_exponent(body) {
        integer_value(exponent_text(body))
    } else {
        0
    }
}

/// The digits before the decimal point.
pub open spec fn whole_part(body: Seq<u8>) -> Seq<u8> {
    mantissa(body).take(first_index_of(mantissa(body), DOT))
}

/// The digits after the decimal point; none where there is no point.
pub open spec fn fraction_part(body: Seq<u8>) -> Seq<u8> {
    let dot = first_index_of(mantissa(body), DOT);
    if dot < mantissa(body).len() {
        mantissa(body).skip(dot + 1)
    } else {
        Seq::empty()
    }
}

/// The digits of the mantissa, without the point.
pub open spec fn digits_of(body: Seq<u8>) -> Seq<u8> {
    whole_part(body) + fraction_part(body)
}

/// An unsigned decimal: at least one digit, with or without a point among the
/// digits, before them or after them; then, if anything, an exponent mark and
/// an integer.
pub open spec fn is_decimal(body: Seq<u8>) -> bool {
    &&& digits_of(body).len() > 0
    &&& all_digits(whole_part(body), 10)
    &&& all_digits(fraction_part(body), 10)
    &&& has_exponent(body) ==> is_integer(exponent_text(body))
}

/// How many digits stand before the seventh place after the point, once the
/// exponent has moved the point. Not positive where the number has no digit
/// there.
pub open spec fn kept(body: Seq<u8>) -> int {
    whole_part(body).len() + exponent(body) + FRACTION_DIGITS
}

/// The first `kept` of `digits`, with zeros appended where there are fewer;
/// none where `kept` is not positive.
pub open spec fn digits_before(digits: Seq<u8>, kept: int) -> Seq<u8> {
    if kept <= 0 {
        Seq::empty()
    } else {
        Seq::new(
            kept as nat,
            |i: int|
                if i < digits.len() {
                    digits[i]
                } else {
                    DIGIT_0
                },
        )
    }
}

/// Whether what follows the first `kept` of `digits` amounts to half a unit
/// or more, which is so where the next digit is five or more.
pub open spec fn rounds_up(digits: Seq<u8>, kept: int) -> bool {
    0 <= kept < digits.len() && digits[kept] >= DIGIT_5
}

/// The number that the first `kept` of `digits` write, rounded to the nearest
/// by what follows them, a half upwards.
pub open spec fn rounded(digits: Seq<u8>, kept: int) -> int {
    digits_value(digits_before(digits, kept), 10) + if rounds_up(digits, kept) {
        1int
    } else {
        0int
    }
}

/// The count of millionths that an unsigned decimal denotes, rounded to the
/// nearest, a half upwards.
pub open spec fn magnitude(body: Seq<u8>) -> int {
    rounded(digits_of(body), kept(body))
}

/// What a decimal field denotes in fixed point: an optional sign and an
/// unsigned decimal whose count of millionths, rounded to the nearest, fits
/// in an `i64`.
pub open spec fn fixed_value(s: Seq<u8>) -> Option<i64> {
    let body = unsigned_part(s);
    if is_decimal(body) && magnitude(body) <= i64::MAX {
        if is_negative(s) {
            Some((-magnitude(body)) as i64)
        } else {
            Some(magnitude(body) as i64)
        }
    } else {
        None
    }
}

/// Ten to the power `n`.
pub open spec fn pow10(n: nat) -> int
    decreases n,
{
    if n == 0 {
        1
    } else {
        10 * pow10((n - 1) as nat)
    }
}

/// `m` zeros.
pub open spec fn zeros(m: nat) -> Seq<u8> {
    Seq::new(m, |i: int| DIGIT_0)
}

/// Powers of ten are positive and grow with the exponent.
pub proof fn lemma_pow10_grows(m: nat, n: nat)
    requires
        m <= n,
    ensures
        0 < pow10(m) <= pow10(n),
    decreases n,
{
    if n == 0 {
    } else if m == n {
        lemma_pow10_grows((m - 1) as nat, (n - 1) as nat);
    } else {
        lemma_pow10_grows(m, (n - 1) as nat);
    }
}

/// Ten to the nineteenth is more than an `i64` holds, and no more than a
/// `u64` holds.
pub proof fn lemma_pow10_19()
    ensures
        pow10(19) == 10_000_000_000_000_000_000,
        i64::MAX < pow10(19) <= u64::MAX,
{
    reveal_with_fuel(pow10, 20);
}

/// Digits followed by `m` zeros are worth ten to the `m` times the digits.
pub proof fn lemma_digits_value_zeros(s: Seq<u8>, m: nat)
    ensures
        digits_value(s + zeros(m), 10) == digits_value(s, 10) * pow10(m),
    decreases m,
{
    if m > 0 {
        let longer = s + zeros(m);
        assert(longer.drop_last() =~= s + zeros((m - 1) as nat));
        lemma_digits_value_zeros(s, (m - 1) as nat);
        let v = digits_value(s, 10);
        let p = pow10((m - 1) as nat);
        assert(v * p * 10 == v * (10 * p)) by (nonlinear_arith);
    }
}

/// A run of `n` decimal digits is worth less than ten to the `n`.
pub proof fn lemma_digits_value_below(s: Seq<u8>)
    requires
        all_digits(s, 10),
    ensures
        0 <= digits_value(s, 10) < pow10(s.len()),
    decreases s.len(),
{
    if s.len() > 0 {
        lemma_digits_value_below(s.drop_last());
    }
}

/// An exponent as it is held while a decimal is read: its sign, and its size
/// unless that is more than a `u64` holds.
#[derive(Clone, Copy, Debug, PartialEq, Eq, Structural)]
pub struct Shift {
    pub negative: bool,
    pub size: Option<u64>,
}

impl Shift {
    /// Whether the shift stands for the exponent `e`.
    pub open spec fn holds(self, e: int) -> bool {
        match self.size {
            Some(n) => e == if self.negative {
                -(n as int)
            } else {
                n as int
            },
            None => if self.negative {
                e < -(u64::MAX as int)
            } else {
                e > u64::MAX
            },
        }
    }
}

/// Reads the integer that `text` holds at and after `from`.
pub fn read_shift(text: &[u8], from: usize) -> (r: Option<Shift>)
    requires
        from <= text@.len(),
    ensures
        match r {
            Some(shift) => {
                &&& is_integer(text@.skip(from as int))
                &&& shift.negative == is_negative(text@.skip(from as int))
                &&& shift.holds(integer_value(text@.skip(from as int)))
            },
            None => !is_integer(text@.skip(from as int)),
        },
{
    let n: usize = text.len();
    let signed: bool = from < n && (text[from] == PLUS || text[from] == MINUS);
    let negative: bool = from < n && text[from] == MINUS;
    let start: usize = if signed {
        from + 1
    } else {
        from
    };
    proof {
        let s = text@.skip(from as int);
        assert(unsigned_part(s) =~= text@.subrange(start as int, n as int));
        if all_digits(unsigned_part(s), 10) {
            lemma_digits_value_prefix(unsigned_part(s), 10, 0);
        }
    }
    if start == n || !are_digits(text, start, n, 10) {
        return None;
    }
    Some(Shift { negative, size: read_digits(text, start, n, 10) })
}

/// Where the digits of a mantissa stand in a text: the whole part from
/// `start` up to `dot`, the fraction from `frac_from` up to `end`.
#[derive(Clone, Copy, Debug, PartialEq, Eq, Structural)]
pub struct Mantissa {
    pub start: usize,
    pub dot: usize,
    pub frac_from: usize,
    pub end: usize,
}

impl Mantissa {
    /// The four positions are in order.
    pub open spec fn ordered(self) -> bool {
        self.start <= self.dot <= self.frac_from <= self.end
    }

    /// The digits of the mantissa in `text`.
    pub open spec fn digits(self, text: Seq<u8>) -> Seq<u8> {
        text.subrange(self.start as int, self.dot as int) + text.subrange(
            self.frac_from as int,
            self.end as int,
        )
    }

    /// The number of digits before the point.
    pub fn whole_len(&self) -> (n: usize)
        requires
            self.ordered(),
        ensures
            n == self.dot - self.start,
    {
        self.dot - self.start
    }

    /// The number of digits.
    pub fn count(&self) -> (n: usize)
        requires
            self.ordered(),
        ensures
            n == (self.dot - self.start) + (self.end - self.frac_from),
    {
        (self.dot - self.start) + (self.end - self.frac_from)
    }

    /// The digit at position `i` of the mantissa.
    pub fn digit(&self, text: &[u8], i: usize) -> (b: u8)
        requires
            self.ordered(),
            self.end <= text@.len(),
            i < self.digits(text@).len(),
        ensures
            b == self.digits(text@)[i as int],
    {
        let whole: usize = self.dot - self.start;
        if i < whole {
            text[self.start + i]
        } else {
            text[self.frac_from + (i - whole)]
        }
    }

    /// Reads the first `take` digits of the mantissa as a number.
    pub fn read_first(&self, text: &[u8], take: usize) -> (r: Option<u64>)
        requires
            self.ordered(),
            self.end <= text@.len(),
            take <= self.digits(text@).len(),
            all_digits(self.digits(text@), 10),
        ensures
            r == digits_u64(self.digits(text@).take(take as int), 10),
    {
        let ghost run = self.digits(text@).take(take as int);
        let mut acc: u64 = 0;
        let mut i: usize = 0;
        while i < take
            invariant
                0 <= i <= take <= self.digits(text@).len(),
                self.ordered(),
                self.end <= text@.len(),
                all_digits(self.digits(text@), 10),
                run == self.digits(text@).take(take as int),
                all_digits(run, 10),
                acc == digits_value(run.take(i as int), 10),
            decreases take - i,
        {
            let b: u8 = self.digit(text, i);
            proof {
                lemma_digits_value_push(run, 10, i as int);
                lemma_digits_value_prefix(run, 10, i + 1);
            }
            let scaled = acc.checked_mul(10);
            if scaled.is_none() {
                return None;
            }
            let next = scaled.unwrap().checked_add((b - DIGIT_0) as u64);
            if next.is_none() {
                return None;
            }
            acc = next.unwrap();
            i += 1;
        }
        assert(run.take(take as int) =~= run);
        Some(acc)
    }
}

/// The largest number of zeros that it can matter to append: a number that is
/// not zero, followed by as many, is more than an `i64` holds.
pub const PAD_MAX: u8 = 19;

/// Multiplies `value` by ten to the power `pad`.
pub fn times_pow10(value: u64, pad: u8) -> (r: Option<u64>)
    ensures
        match r {
            Some(v) => v == value * pow10(pad as nat),
            None => value * pow10(pad as nat) > u64::MAX,
        },
{
    let mut acc: u64 = value;
    let mut k: u8 = 0;
    while k < pad
        invariant
            0 <= k <= pad,
            acc == value * pow10(k as nat),
        decreases pad - k,
    {
        let next = acc.checked_mul(10);
        proof {
            let p = pow10(k as nat);
            assert(value * p * 10 == value * (10 * p)) by (nonlinear_arith);
        }
        if next.is_none() {
            proof {
                lemma_pow10_grows((k + 1) as nat, pad as nat);
                let low = pow10((k + 1) as nat);
                let high = pow10(pad as nat);
                assert(value * low <= value * high) by (nonlinear_arith)
                    requires
                        0 <= value,
                        low <= high,
                ;
            }
            return None;
        }
        acc = next.unwrap();
        k += 1;
    }
    Some(acc)
}

/// How the kept digits of a decimal are made of the digits of its mantissa:
/// the first `take` of them, then `pad` zeros; and where the digit stands
/// that decides the rounding, if there is one.
#[derive(Clone, Copy, Debug, PartialEq, Eq, Structural)]
pub struct Plan {
    pub take: usize,
    pub pad: u8,
    pub round_at: Option<usize>,
}

impl Plan {
    /// Whether this is the plan for `kept` digits out of a mantissa of
    /// `count` digits. Zeros past `PAD_MAX` are not counted.
    pub open spec fn fits(self, kept: int, count: int) -> bool {
        &&& self.take == if kept <= 0 {
            0
        } else if kept < count {
            kept
        } else {
            count
        }
        &&& self.pad == if kept - count <= 0 {
            0
        } else if kept - count < PAD_MAX {
            kept - count
        } else {
            PAD_MAX as int
        }
        &&& self.round_at == if 0 <= kept < count {
            Some(kept as usize)
        } else {
            None
        }
    }
}

/// Makes the plan for a mantissa of `count` digits, `whole` of them before
/// the point, and an exponent.
pub fn plan(whole: usize, count: usize, shift: Shift) -> (p: Plan)
    requires
        whole <= count,
        shift.size.is_none() ==> count + 21 <= u64::MAX,
    ensures
        forall|e: int| shift.holds(e) ==> p.fits(whole + e + FRACTION_DIGITS, count as int),
{
    match shift.size {
        Some(size) => {
            let moved: i128 = if shift.negative {
                -(size as i128)
            } else {
                size as i128
            };
            let kept: i128 = whole as i128 + moved + FRACTION_DIGITS as i128;
            if kept <= 0 {
                Plan {
                    take: 0,
                    pad: 0,
                    round_at: if kept == 0 && count > 0 {
                        Some(0)
                    } else {
                        None
                    },
                }
            } else if kept < count as i128 {
                Plan { take: kept as usize, pad: 0, round_at: Some(kept as usize) }
            } else if kept - (count as i128) < PAD_MAX as i128 {
                Plan { take: count, pad: (kept - count as i128) as u8, round_at: None }
            } else {
                Plan { take: count, pad: PAD_MAX, round_at: None }
            }
        },
        None => {
            if shift.negative {
                Plan { take: 0, pad: 0, round_at: None }
            } else {
                Plan { take: count, pad: PAD_MAX, round_at: None }
            }
        },
    }
}

/// Reads the digits of a mantissa by a plan: the number that the kept digits
/// write, rounded, unless it is more than an `i64` holds.
fn read_rounded(m: &Mantissa, text: &[u8], p: Plan, Ghost(kept): Ghost<int>) -> (r: Option<u64>)
    requires
        m.ordered(),
        m.end <= text@.len(),
        all_digits(m.digits(text@), 10),
        p.fits(kept, m.digits(text@).len() as int),
    ensures
        match r {
            Some(v) => v == rounded(m.digits(text@), kept) && v <= i64::MAX,
            None => rounded(m.digits(text@), kept) > i64::MAX,
        },
{
    let ghost digits = m.digits(text@);
    let ghost before = digits_before(digits, kept);
    let ghost more: nat = if kept > digits.len() {
        (kept - digits.len()) as nat
    } else {
        0
    };
    proof {
        assert(all_digits(before, 10));
        assert(before.take(p.take as int) =~= digits.take(p.take as int));
        lemma_digits_value_prefix(before, 10, p.take as int);
        if kept > digits.len() {
            assert(digits.take(p.take as int) =~= digits);
            assert(before =~= digits + zeros(more));
            lemma_digits_value_zeros(digits, more);
        } else {
            assert(before.take(p.take as int) =~= before);
        }
        lemma_pow10_19();
    }
    let first: u64 = match m.read_first(text, p.take) {
        Some(v) => v,
        None => { return None; },
    };
    let scaled: u64 = if first == 0 || p.pad == 0 {
        assert(first * pow10(more) == first);
        first
    } else if p.pad == PAD_MAX {
        proof {
            lemma_pow10_grows(19, more);
            let big = pow10(more);
            assert(first * big >= big) by (nonlinear_arith)
                requires
                    first >= 1,
                    big > 0,
            ;
        }
        return None;
    } else {
        match times_pow10(first, p.pad) {
            Some(v) => v,
            None => { return None; },
        }
    };
    if scaled > i64::MAX as u64 {
        return None;
    }
    let up: bool = match p.round_at {
        Some(i) => m.digit(text, i) >= DIGIT_5,
        None => false,
    };
    let v: u64 = if up {
        scaled + 1
    } else {
        scaled
    };
    if v > i64::MAX as u64 {
        None
    } else {
        Some(v)
    }
}

/// Finds the parts of the unsigned decimal that `text` holds at and after
/// `start`: its mantissa, and the position of its exponent mark, which is the
/// length of `text` where it has none.
pub fn find_parts(text: &[u8], start: usize) -> (parts: (Mantissa, usize))
    requires
        start <= text@.len(),
    ensures
        ({
            let body = text@.skip(start as int);
            let (m, mark) = parts;
            &&& m.ordered()
            &&& m.start == start
            &&& m.end == mark <= text@.len()
            &&& mark - start == mark_of(body)
            &&& m.dot - start == first_index_of(mantissa(body), DOT)
            &&& m.frac_from == if m.dot < mark {
                m.dot + 1
            } else {
                mark as int
            }
            &&& text@.subrange(m.start as int, m.dot as int) == whole_part(body)
            &&& text@.subrange(m.frac_from as int, m.end as int) == fraction_part(body)
            &&& m.digits(text@) == digits_of(body)
            &&& mark < text@.len() ==> text@.skip(mark + 1) == exponent_text(body)
        }),
{
    let n: usize = text.len();
    let ghost body = text@.skip(start as int);
    let lower: usize = find_byte(text, start, n, LOWER_E);
    let upper: usize = find_byte(text, start, n, UPPER_E);
    let mark: usize = if lower < upper {
        lower
    } else {
        upper
    };
    let dot: usize = find_byte(text, start, mark, DOT);
    let frac_from: usize = if dot < mark {
        dot + 1
    } else {
        mark
    };
    assert(mantissa(body) =~= text@.subrange(start as int, mark as int));
    (Mantissa { start, dot, frac_from, end: mark }, mark)
}

/// The digits of a decimal are digits.
proof fn lemma_digits_of(body: Seq<u8>)
    requires
        all_digits(whole_part(body), 10),
        all_digits(fraction_part(body), 10),
    ensures
        all_digits(digits_of(body), 10),
{
    assert forall|i: int| 0 <= i < digits_of(body).len() implies (#[trigger] digit_in(
        digits_of(body)[i],
        10,
    )).is_some() by {
        if i < whole_part(body).len() {
            assert(digits_of(body)[i] == whole_part(body)[i]);
        }
    }
}

/// An integer that is more than a `u64` holds, or less than the negative of
/// that, has twenty digits or more.
proof fn lemma_long_integer(s: Seq<u8>)
    requires
        is_integer(s),
        integer_value(s) > u64::MAX || integer_value(s) < -(u64::MAX as int),
    ensures
        s.len() >= 20,
{
    let size = unsigned_part(s);
    lemma_digits_value_below(size);
    lemma_pow10_19();
    if size.len() <= 19 {
        lemma_pow10_grows(size.len(), 19);
    }
}

/// Reads a decimal field into fixed point.
pub fn parse_fixed(text: &[u8]) -> (r: Option<i64>)
    ensures
        r == fixed_value(text@),
{
    let n: usize = text.len();
    let signed: bool = n > 0 && (text[0] == PLUS || text[0] == MINUS);
    let negative: bool = n > 0 && text[0] == MINUS;
    let start: usize = if signed {
        1
    } else {
        0
    };
    let ghost body = unsigned_part(text@);
    assert(body =~= text@.skip(start as int));
    let (m, mark) = find_parts(text, start);
    if m.count() == 0 || !are_digits(text, m.start, m.dot, 10) || !are_digits(
        text,
        m.frac_from,
        m.end,
        10,
    ) {
        return None;
    }
    let shift = if mark < n {
        match read_shift(text, mark + 1) {
            Some(shift) => shift,
            None => { return None; },
        }
    } else {
        Shift { negative: false, size: Some(0) }
    };
    proof {
        lemma_digits_of(body);
        if shift.size.is_none() {
            lemma_long_integer(exponent_text(body));
        }
    }
    let p = plan(m.whole_len(), m.count(), shift);
    proof {
        assert(shift.holds(exponent(body)));
    }
    match read_rounded(&m, text, p, Ghost(kept(body))) {
        Some(v) => {
            if negative {
                Some(-(v as i64))
            } else {
                Some(v as i64)
            }
        },
        None => None,
    }
}

} // verus!
