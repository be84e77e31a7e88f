//! Tolerant decimal numbers: a field that does not hold a number in range is
//! read as zero, never rejected.

use vstd::prelude::*;

verus! {

/// Whether `c` is one of the ASCII digits `0` to `9`.
pub open spec fn is_digit(c: char) -> bool {
    0x30 <= c as u32 <= 0x39
}

/// The value of the digit `c`; zero for any other character.
pub open spec fn digit_value(c: char) -> nat {
    if is_digit(c) {
        (c as u32 - 0x30) as nat
    } else {
        0
    }
}

/// Whether `s` holds ASCII digits only.
pub open spec fn all_digits(s: Seq<char>) -> bool {
    forall|i: int| 0 <= i < s.len() ==> is_digit(#[trigger] s[i])
}

/// The number that the digits of `s` write in base ten.
pub open spec fn decimal_value(s: Seq<char>) -> nat
    decreases s.len(),
{
    if s.len() == 0 {
        0
    } else {
        10 * decimal_value(s.drop_last()) + digit_value(s.last())
    }
}

/// `s` without the one `+` that may stand in front of the digits.
pub open spec fn unsigned_part(s: Seq<char>) -> Seq<char> {
    if s.len() > 0 && s[0] == '+' {
        s.drop_first()
    } else {
        s
    }
}

/// Whether `s` writes a number that is at most `max`: an optional `+`, then
/// one or more ASCII digits and nothing else.
pub open spec fn is_number(s: Seq<char>, max: nat) -> bool {
    let digits = unsigned_part(s);
    digits.len() > 0 && all_digits(digits) && decimal_value(digits) <= max
}

/// The number that `s` writes, or zero where `s` writes no number up to `max`.
pub open spec fn number_or_zero(s: Seq<char>, max: nat) -> nat {
    if is_number(s, max) {
        decimal_value(unsigned_part(s))
    } else {
        0
    }
}

/// Digits that follow never make a number smaller.
pub proof fn lemma_decimal_value_monotonic(s: Seq<char>, k: int)
    requires
        0 <= k <= s.len(),
    ensures
        decimal_value(s.take(k)) <= decimal_value(s),
    decreases s.len() - k,
{
    if k < s.len() {
        lemma_decimal_value_monotonic(s, k + 1);
        assert(s.take(k + 1).drop_last() == s.take(k));
    } else {
        assert(s.take(k) == s);
    }
}

/// Reads `chars` as a number up to `max`, giving zero where it is none.
pub fn decimal_or_zero(chars: &[char], max: u64) -> (n: u64)
    ensures
        n == number_or_zero(chars@, max as nat),
        n <= max,
{
    let len: usize = chars.len();
    let start: usize = if len > 0 && chars[0] == '+' {
        1
    } else {
        0
    };
    let ghost digits = unsigned_part(chars@);
    assert(digits == chars@.skip(start as int));
    if start == len {
        return 0;
    }
    let mut acc: u64 = 0;
    let mut i: usize = start;
    while i < len
        invariant
            len == chars@.len(),
            start <= i <= len,
            digits == chars@.skip(start as int),
            digits == unsigned_part(chars@),
            all_digits(digits.take(i - start)),
            acc == decimal_value(digits.take(i - start)),
            acc <= max,
        decreases len - i,
    {
        let c: char = chars[i];
        let u: u32 = c as u32;
        assert(digits[i - start] == c);
        if u < 0x30 || u > 0x39 {
            return 0;
        }
        let d: u64 = (u - 0x30) as u64;
        proof {
            let next = digits.take(i - start + 1);
            assert(next.drop_last() == digits.take(i - start));
            assert(next.last() == c);
            assert(decimal_value(next) == 10 * acc + d);
            lemma_decimal_value_monotonic(digits, i - start + 1);
        }
        if d > max || acc > (max - d) / 10 {
            assert(10 * acc + d > max) by (nonlinear_arith)
                requires
                    d > max || acc > (max - d) / 10,
                    0 <= d,
                    0 <= acc,
            ;
            return 0;
        }
        assert(10 * acc + d <= max) by (nonlinear_arith)
            requires
                d <= max,
                acc <= (max - d) / 10,
        ;
        acc = 10 * acc + d;
        i = i + 1;
    }
    assert(digits.take(i - start) == digits);
    acc
}

/// Reads `chars` as a line number, giving zero where it is none.
pub fn line_number_or_zero(chars: &[char]) -> (n: usize)
    ensures
        n == number_or_zero(chars@, usize::MAX as nat),
{
    decimal_or_zero(chars, usize::MAX as u64) as usize
}

/// Reads `chars` as a time in seconds, giving zero where it is none.
pub fn seconds_or_zero(chars: &[char]) -> (n: u64)
    ensures
        n == number_or_zero(chars@, u64::MAX as nat),
{
    decimal_or_zero(chars, u64::MAX)
}

} // verus!
