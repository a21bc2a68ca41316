//! Unsigned numbers written as ASCII digits, read and rendered.

use vstd::prelude::*;

verus! {

/// The digit `0`.
pub const DIGIT_0: u8 = 0x30;

/// The digit `9`.
pub const DIGIT_9: u8 = 0x39;

/// The letter `A`.
pub const UPPER_A: u8 = 0x41;

/// The letter `F`.
pub const UPPER_F: u8 = 0x46;

/// The letter `Z`.
pub const UPPER_Z: u8 = 0x5A;

/// The letter `a`.
pub const LOWER_A: u8 = 0x61;

/// The letter `z`.
pub const LOWER_Z: u8 = 0x7A;

/// The plus sign.
pub const PLUS: u8 = 0x2B;

/// The value of `b` read as a digit of the given radix: `0`-`9` count from
/// zero, the letters of either case from ten. `None` where `b` is no digit or
/// its value does not fit the radix.
pub open spec fn digit_of(b: u8, radix: nat) -> Option<nat> {
    let v: nat = if DIGIT_0 <= b && b <= DIGIT_9 {
        (b - DIGIT_0) as nat
    } else if LOWER_A <= b && b <= LOWER_Z {
        (b - LOWER_A + 10) as nat
    } else if UPPER_A <= b && b <= UPPER_Z {
        (b - UPPER_A + 10) as nat
    } else {
        36
    };
    if v < radix {
        Some(v)
    } else {
        None
    }
}

/// Whether every byte of `s` is a digit of the given radix.
pub open spec fn all_digits(s: Seq<u8>, radix: nat) -> bool {
    forall|i: int| 0 <= i < s.len() ==> (#[trigger] digit_of(s[i], radix)) is Some
}

/// The number that the digits of `s` write, most significant digit first.
pub open spec fn digits_value(s: Seq<u8>, radix: nat) -> nat
    decreases s.len(),
{
    if s.len() == 0 {
        0
    } else {
        radix * digits_value(s.drop_last(), radix) + digit_of(s.last(), radix)->0
    }
}

/// The number that `s` writes, where `s` is one or more digits of the given
/// radix and the number is at most `max`.
pub open spec fn parse_number(s: Seq<u8>, radix: nat, max: nat) -> Option<nat> {
    if s.len() > 0 && all_digits(s, radix) && digits_value(s, radix) <= max {
        Some(digits_value(s, radix))
    } else {
        None
    }
}

/// What is left of `s` once one leading plus sign, if there is any, is taken
/// away.
pub open spec fn without_plus(s: Seq<u8>) -> Seq<u8> {
    if s.len() > 0 && s[0] == PLUS {
        s.skip(1)
    } else {
        s
    }
}

/// The decimal number that `s` writes: an optional plus sign, then one or
/// more decimal digits, the number at most `max`.
pub open spec fn parse_decimal(s: Seq<u8>, max: nat) -> Option<nat> {
    parse_number(without_plus(s), 10, max)
}

/// The number written by a prefix of digits is at most the number written by
/// all of them.
pub proof fn lemma_digits_value_prefix(s: Seq<u8>, radix: nat, k: int)
    requires
        0 <= k <= s.len(),
        all_digits(s, radix),
    ensures
        digits_value(s.take(k), radix) <= digits_value(s, radix),
    decreases s.len(),
{
    if k == s.len() {
        assert(s.take(k) =~= s);
    } else {
        let front = s.drop_last();
        assert(all_digits(front, radix));
        lemma_digits_value_prefix(front, radix, k);
        assert(front.take(k) =~= s.take(k));
        assert(digit_of(s.last(), radix) is Some);
        let v = digits_value(front, radix);
        assert(v <= radix * v) by (nonlinear_arith)
            requires
                radix >= 1,
        {
        }
    }
}

/// The value of `b` as a digit of the given radix.
pub fn digit(b: u8, radix: u8) -> (r: Option<u8>)
    requires
        radix <= 36,
    ensures
        r == match digit_of(b, radix as nat) {
            Some(v) => Some(v as u8),
            None => None,
        },
{
    let v: u8 = if DIGIT_0 <= b && b <= DIGIT_9 {
        b - DIGIT_0
    } else if LOWER_A <= b && b <= LOWER_Z {
        b - LOWER_A + 10
    } else if UPPER_A <= b && b <= UPPER_Z {
        b - UPPER_A + 10
    } else {
        36
    };
    if v < radix {
        Some(v)
    } else {
        None
    }
}

/// Reads `s` as a number of the given radix that is at most `max`.
pub fn parse_digits(s: &[u8], radix: u8, max: u64) -> (r: Option<u64>)
    requires
        1 <= radix <= 36,
    ensures
        r == match parse_number(s@, radix as nat, max as nat) {
            Some(v) => Some(v as u64),
            None => None,
        },
{
    if s.len() == 0 {
        return None;
    }
    let mut acc: u64 = 0;
    let mut i: usize = 0;
    while i < s.len()
        invariant
            i <= s.len(),
            1 <= radix <= 36,
            all_digits(s@.take(i as int), radix as nat),
            acc == digits_value(s@.take(i as int), radix as nat),
            acc <= max,
        decreases s.len() - i,
    {
        let ghost prefix = s@.take(i as int);
        let ghost next = s@.take(i + 1);
        assert(next.drop_last() =~= prefix);
        match digit(s[i], radix) {
            None => {
                return None;
            },
            Some(d) => {
                assert(all_digits(next, radix as nat));
                assert(acc * radix <= u64::MAX * 36) by (nonlinear_arith)
                    requires
                        acc <= u64::MAX,
                        radix <= 36,
                {
                }
                let wide: u128 = acc as u128 * radix as u128 + d as u128;
                assert(wide == digits_value(next, radix as nat)) by {
                    assert(radix as nat * digits_value(prefix, radix as nat) == acc * radix)
                        by (nonlinear_arith)
                        requires
                            acc == digits_value(prefix, radix as nat),
                    {
                    }
                }
                if wide > max as u128 {
                    proof {
                        if all_digits(s@, radix as nat) {
                            lemma_digits_value_prefix(s@, radix as nat, i + 1);
                        }
                    }
                    return None;
                }
                acc = wide as u64;
                i += 1;
            },
        }
    }
    assert(s@.take(i as int) =~= s@);
    Some(acc)
}

/// Reads `s` as a decimal number that is at most `max`, with an optional plus
/// sign before the digits.
pub fn parse_decimal_bytes(s: &[u8], max: u64) -> (r: Option<u64>)
    ensures
        r == match parse_decimal(s@, max as nat) {
            Some(v) => Some(v as u64),
            None => None,
        },
{
    if s.len() > 0 && s[0] == PLUS {
        let rest = vstd::slice::slice_subrange(s, 1, s.len());
        parse_digits(rest, 10, max)
    } else {
        parse_digits(s, 10, max)
    }
}

/// Reads `s` as a decimal number that fits sixteen bits.
pub fn parse_u16(s: &[u8]) -> (r: Option<u16>)
    ensures
        r == match parse_decimal(s@, u16::MAX as nat) {
            Some(v) => Some(v as u16),
            None => None,
        },
{
    match parse_decimal_bytes(s, 0xFFFF) {
        Some(v) => Some(v as u16),
        None => None,
    }
}

/// Reads `s` as a decimal number that fits sixty-four bits.
pub fn parse_u64(s: &[u8]) -> (r: Option<u64>)
    ensures
        r == match parse_decimal(s@, u64::MAX as nat) {
            Some(v) => Some(v as u64),
            None => None,
        },
{
    parse_decimal_bytes(s, u64::MAX)
}

/// The decimal digits of `n` as ASCII bytes, without leading zeros.
pub open spec fn decimal_bytes(n: nat) -> Seq<u8>
    decreases n,
{
    if n < 10 {
        seq![(DIGIT_0 + n) as u8]
    } else {
        decimal_bytes(n / 10).push((DIGIT_0 + n % 10) as u8)
    }
}

/// Renders `n` in decimal.
pub fn render_decimal(n: u64) -> (r: Vec<u8>)
    ensures
        r@ == decimal_bytes(n as nat),
    decreases n,
{
    if n < 10 {
        let mut r: Vec<u8> = Vec::new();
        r.push(DIGIT_0 + n as u8);
        r
    } else {
        let mut r = render_decimal(n / 10);
        r.push(DIGIT_0 + (n % 10) as u8);
        r
    }
}

/// A number in decimal is made of the digits `0`-`9`.
pub proof fn lemma_decimal_bytes_are_digits(n: nat)
    ensures
        decimal_bytes(n).len() >= 1,
        forall|i: int|
            0 <= i < decimal_bytes(n).len() ==> DIGIT_0 <= #[trigger] decimal_bytes(n)[i]
                <= DIGIT_9,
    decreases n,
{
    if n >= 10 {
        lemma_decimal_bytes_are_digits(n / 10);
    }
}

/// Reading what was rendered gives the number back: the decimal digits of `n`
/// write `n`, and are read so under any bound that `n` does not pass.
pub proof fn lemma_decimal_round_trip(n: nat, max: nat)
    requires
        n <= max,
    ensures
        all_digits(decimal_bytes(n), 10),
        digits_value(decimal_bytes(n), 10) == n,
        parse_decimal(decimal_bytes(n), max) == Some(n),
    decreases n,
{
    let text = decimal_bytes(n);
    lemma_decimal_bytes_are_digits(n);
    assert(all_digits(text, 10));
    if n < 10 {
        assert(text.drop_last() =~= Seq::<u8>::empty());
        assert(digits_value(Seq::<u8>::empty(), 10) == 0);
    } else {
        lemma_decimal_round_trip(n / 10, max);
        assert(text.drop_last() =~= decimal_bytes(n / 10));
    }
}

} // verus!
