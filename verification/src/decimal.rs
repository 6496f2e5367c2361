//! Natural numbers written in decimal digits.

use vstd::prelude::*;

verus! {

/// Whether `c` is one of the ten ASCII digits.
pub open spec fn is_digit(c: char) -> bool {
    0x30 <= c as u32 <= 0x39
}

/// The number that the digit `c` stands for; 0 for any other character.
pub open spec fn digit_value(c: char) -> nat {
    if is_digit(c) {
        (c as u32 - 0x30) as nat
    } else {
        0
    }
}

/// The digit that stands for `d`, for `d` below ten.
pub open spec fn digit_char(d: nat) -> char {
    (0x30 + d) as u8 as char
}

/// Whether every character of `s` is a digit.
pub open spec fn all_digits(s: Seq<char>) -> bool {
    forall|i: int| 0 <= i < s.len() ==> is_digit(#[trigger] s[i])
}

/// The number that the digits of `s` spell, most significant digit first.
pub open spec fn decimal_value(s: Seq<char>) -> nat
    decreases s.len(),
{
    if s.len() == 0 {
        0
    } else {
        decimal_value(s.drop_last()) * 10 + digit_value(s.last())
    }
}

/// The number that `s` spells: `s` is then one or more digits, and nothing else.
pub open spec fn number(s: Seq<char>) -> Option<nat> {
    if s.len() > 0 && all_digits(s) {
        Some(decimal_value(s))
    } else {
        None
    }
}

/// `n` in decimal digits, without leading zeros.
pub open spec fn decimal(n: nat) -> Seq<char>
    decreases n,
{
    if n < 10 {
        seq![digit_char(n)]
    } else {
        decimal(n / 10).push(digit_char(n % 10))
    }
}

/// The digits of a number are digits, and there is at least one.
pub proof fn lemma_decimal_is_digits(n: nat)
    ensures
        decimal(n).len() > 0,
        all_digits(decimal(n)),
    decreases n,
{
    if n >= 10 {
        lemma_decimal_is_digits(n / 10);
    }
}

/// Reading the digits of a number gives the number back.
pub proof fn lemma_decimal_round_trip(n: nat)
    ensures
        number(decimal(n)) == Some(n),
    decreases n,
{
    lemma_decimal_is_digits(n);
    let digits = decimal(n);
    assert(digits.last() == digit_char(n % 10));
    assert(digit_value(digit_char(n % 10)) == n % 10);
    if n >= 10 {
        lemma_decimal_round_trip(n / 10);
        assert(digits.drop_last() == decimal(n / 10));
    } else {
        assert(digits.drop_last() == Seq::<char>::empty());
        assert(decimal_value(digits.drop_last()) == 0);
    }
}

/// A number is at least what any beginning of its digits spells.
pub proof fn lemma_value_grows(s: Seq<char>, k: int)
    requires
        0 <= k <= s.len(),
    ensures
        decimal_value(s.take(k)) <= decimal_value(s),
    decreases s.len() - k,
{
    if k < s.len() {
        lemma_value_grows(s.drop_last(), k);
        assert(s.drop_last().take(k) == s.take(k));
    } else {
        assert(s.take(k) == s);
    }
}

/// Reads `s` as a number no greater than `max`.
pub fn parse_decimal(s: &Vec<char>, max: u64) -> (parsed: Option<u64>)
    ensures
        parsed == match number(s@) {
            Some(n) => if n <= max { Some(n as u64) } else { None },
            None => None,
        },
{
    if s.len() == 0 {
        return None;
    }
    let mut value: u64 = 0;
    let mut i: usize = 0;
    while i < s.len()
        invariant
            i <= s.len(),
            all_digits(s@.take(i as int)),
            value == decimal_value(s@.take(i as int)),
            value <= max,
        decreases s.len() - i,
    {
        let code: u32 = s[i] as u32;
        if code < 0x30 || code > 0x39 {
            assert(!is_digit(s@[i as int]));
            return None;
        }
        let digit: u64 = (code - 0x30) as u64;
        proof {
            assert(s@.take(i + 1).drop_last() == s@.take(i as int));
            assert(s@.take(i + 1).last() == s@[i as int]);
        }
        let next: u128 = value as u128 * 10 + digit as u128;
        if next > max as u128 {
            proof {
                lemma_value_grows(s@, i + 1);
            }
            return None;
        }
        value = next as u64;
        i += 1;
    }
    assert(s@.take(s.len() as int) == s@);
    Some(value)
}

/// Appends `n` in decimal digits to `out`.
pub fn push_decimal(out: &mut Vec<char>, n: u32)
    ensures
        final(out)@ == old(out)@ + decimal(n as nat),
    decreases n,
{
    if n >= 10 {
        push_decimal(out, n / 10);
    }
    let digit: u8 = (n % 10) as u8;
    out.push((0x30 + digit) as char);
}

} // verus!
