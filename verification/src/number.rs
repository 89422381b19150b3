//! Decimal numbers: rendering and reading.
use crate::text::chars_of;
use vstd::prelude::*;

verus! {

/// The character of a decimal digit.
pub open spec fn digit_char(digit: int) -> char {
    (('0' as u32 + digit) as u8) as char
}

/// The decimal digits of a natural number, without leading zeros.
pub open spec fn decimal(n: nat) -> Seq<char>
    decreases n,
{
    if n < 10 {
        seq![digit_char(n as int)]
    } else {
        decimal(n / 10).push(digit_char((n % 10) as int))
    }
}

/// The decimal digits of an integer, with a minus sign before a negative one.
pub open spec fn signed_decimal(n: int) -> Seq<char> {
    if n < 0 {
        seq!['-'] + decimal((-n) as nat)
    } else {
        decimal(n as nat)
    }
}

/// A decimal digit.
pub open spec fn is_digit(c: char) -> bool {
    '0' <= c <= '9'
}

/// All characters are decimal digits.
pub open spec fn all_digits(s: Seq<char>) -> bool {
    forall|i: int| 0 <= i < s.len() ==> is_digit(#[trigger] s[i])
}

/// The number that a row of decimal digits stands for.
pub open spec fn digits_value(s: Seq<char>) -> nat
    decreases s.len(),
{
    if s.len() == 0 {
        0
    } else {
        digits_value(s.drop_last()) * 10 + (s.last() as u32 - '0' as u32) as nat
    }
}

/// The text without one plus sign at its start.
pub open spec fn without_plus(s: Seq<char>) -> Seq<char> {
    if s.len() > 0 && s[0] == '+' {
        s.skip(1)
    } else {
        s
    }
}

/// The natural number up to `max` that a text stands for: decimal digits, at least
/// one, after an optional plus sign.
pub open spec fn read_decimal(s: Seq<char>, max: nat) -> Option<nat> {
    let digits = without_plus(s);
    if digits.len() > 0 && all_digits(digits) && digits_value(digits) <= max {
        Some(digits_value(digits))
    } else {
        None
    }
}

/// The decimal digits of a number.
pub fn decimal_text(n: u64) -> (text: String)
    ensures
        text@ == decimal(n as nat),
    decreases n,
{
    if n < 10 {
        let mut text = String::new();
        text.push(((48 + n as u32) as u8) as char);
        assert(text@ =~= decimal(n as nat));
        text
    } else {
        let mut text = decimal_text(n / 10);
        text.push(((48 + (n % 10) as u32) as u8) as char);
        text
    }
}

/// The decimal digits of a number, with a minus sign before a negative one.
pub fn signed_decimal_text(n: i64) -> (text: String)
    ensures
        text@ == signed_decimal(n as int),
{
    if n < 0 {
        let mut text = String::new();
        text.push('-');
        let magnitude: u64 = (-(n as i128)) as u64;
        let digits = decimal_text(magnitude);
        text.append(&digits);
        assert(text@ =~= seq!['-'] + decimal(magnitude as nat));
        text
    } else {
        decimal_text(n as u64)
    }
}

proof fn lemma_value_grows(s: Seq<char>, n: int)
    requires
        0 <= n <= s.len(),
        all_digits(s),
    ensures
        digits_value(s.take(n)) <= digits_value(s),
    decreases s.len(),
{
    if n == s.len() {
        assert(s.take(n) =~= s);
    } else {
        assert(s.drop_last().take(n) =~= s.take(n));
        assert(all_digits(s.drop_last()));
        lemma_value_grows(s.drop_last(), n);
    }
}

/// Reads a natural number up to `max`, as `read_decimal` defines it.
pub fn parse_decimal(text: &str, max: u64) -> (value: Option<u64>)
    ensures
        value is Some == read_decimal(text@, max as nat) is Some,
        value matches Some(v) ==> v == read_decimal(text@, max as nat)->0,
{
    let chars = chars_of(text);
    let start: usize = if chars.len() > 0 && chars[0] == '+' {
        1
    } else {
        0
    };
    let ghost digits = without_plus(text@);
    assert(digits =~= text@.skip(start as int));
    if start == chars.len() {
        return None;
    }
    let mut value: u64 = 0;
    let mut at: usize = start;
    assert(digits.take(0) =~= seq![]);
    while at < chars.len()
        invariant
            chars@ == text@,
            start <= at <= chars@.len(),
            digits == text@.skip(start as int),
            digits == without_plus(text@),
            start < chars@.len(),
            all_digits(digits.take(at - start)),
            value == digits_value(digits.take(at - start)),
            value <= max,
        decreases chars@.len() - at,
    {
        let c = chars[at];
        let ghost next = digits.take(at - start + 1);
        assert(next.drop_last() =~= digits.take(at - start));
        assert(next.last() == c);
        if c < '0' || c > '9' {
            assert(digits[at - start] == c);
            return None;
        }
        let grown: u128 = (value as u128) * 10 + (c as u32 - 48) as u128;
        assert(grown == digits_value(next));
        assert(all_digits(next)) by {
            assert forall|i: int| 0 <= i < next.len() implies is_digit(#[trigger] next[i]) by {
                if i < at - start {
                    assert(next[i] == digits.take(at - start)[i]);
                }
            }
        }
        if grown > max as u128 {
            proof {
                if all_digits(digits) {
                    lemma_value_grows(digits, at - start + 1);
                }
            }
            return None;
        }
        value = grown as u64;
        at = at + 1;
    }
    assert(digits.take(at - start) =~= digits);
    Some(value)
}

/// Reads a 32-bit number.
pub fn parse_u32(text: &str) -> (value: Option<u32>)
    ensures
        value is Some == read_decimal(text@, u32::MAX as nat) is Some,
        value matches Some(v) ==> v == read_decimal(text@, u32::MAX as nat)->0,
{
    match parse_decimal(text, u32::MAX as u64) {
        Some(v) => Some(v as u32),
        None => None,
    }
}

/// Reads a number that can be an index.
pub fn parse_usize(text: &str) -> (value: Option<usize>)
    ensures
        value is Some == read_decimal(text@, usize::MAX as nat) is Some,
        value matches Some(v) ==> v == read_decimal(text@, usize::MAX as nat)->0,
{
    match parse_decimal(text, usize::MAX as u64) {
        Some(v) => Some(v as usize),
        None => None,
    }
}

// ---------------------------------------------------------------------------
// Laws
// ---------------------------------------------------------------------------
/// Every number renders to at least one character, and to decimal digits alone.
pub proof fn decimal_is_digits(n: nat)
    ensures
        decimal(n).len() > 0,
        all_digits(decimal(n)),
    decreases n,
{
    if n >= 10 {
        decimal_is_digits(n / 10);
        assert forall|i: int| 0 <= i < decimal(n).len() implies is_digit(
            #[trigger] decimal(n)[i],
        ) by {
            if i < decimal(n / 10).len() {
                assert(decimal(n)[i] == decimal(n / 10)[i]);
            }
        }
    }
}

/// Reading back a rendered number gives the number.
pub proof fn decimal_reads_back(n: nat, max: nat)
    requires
        n <= max,
    ensures
        digits_value(decimal(n)) == n,
        read_decimal(decimal(n), max) == Some(n),
    decreases n,
{
    decimal_is_digits(n);
    if n >= 10 {
        decimal_reads_back(n / 10, max);
        assert(decimal(n).drop_last() =~= decimal(n / 10));
    } else {
        assert(decimal(n).drop_last() =~= seq![]);
        assert(digits_value(seq![]) == 0);
    }
    assert(is_digit(decimal(n)[0]));
    assert(without_plus(decimal(n)) == decimal(n));
}

/// Two numbers with the same digits are the same number.
pub proof fn decimal_is_injective(a: nat, b: nat)
    requires
        decimal(a) == decimal(b),
    ensures
        a == b,
{
    decimal_reads_back(a, a + b);
    decimal_reads_back(b, a + b);
}

/// A number is written with the ten digits, the last of which stands for what is left of it
/// after its tens; a negative one is written with a minus sign before it.
pub proof fn numbers_are_written_in_tens(tens: nat, digit: nat)
    requires
        digit < 10,
    ensures
        decimal(digit) == seq!["0123456789"@[digit as int]],
        tens > 0 ==> decimal(tens * 10 + digit) == decimal(tens).push(
            "0123456789"@[digit as int],
        ),
        tens > 0 ==> signed_decimal(-(tens as int)) == seq!['-'] + decimal(tens),
        signed_decimal(tens as int) == decimal(tens),
{
    reveal_strlit("0123456789");
    let n = tens * 10 + digit;
    assert(n / 10 == tens);
    assert(n % 10 == digit);
    assert(digit_char(digit as int) == "0123456789"@[digit as int]);
}

/// A number is read from digits alone, with a plus sign before them or none, as long as it is
/// not too large; anything else is no number.
pub proof fn only_digits_are_numbers(s: Seq<char>, max: nat)
    ensures
        read_decimal(s, max) is Some ==> s.len() > 0 && forall|i: int|
            0 <= i < s.len() ==> '0' <= #[trigger] s[i] <= '9' || (i == 0 && s[i] == '+'),
        read_decimal(s, max) matches Some(n) ==> n <= max,
        s.len() > 0 && s[0] != '+' ==> read_decimal(seq!['+'] + s, max) == read_decimal(s, max),
{
    if read_decimal(s, max) is Some {
        let digits = without_plus(s);
        assert forall|i: int| 0 <= i < s.len() implies '0' <= #[trigger] s[i] <= '9' || (i == 0
            && s[i] == '+') by {
            if s[0] == '+' {
                if i > 0 {
                    assert(is_digit(digits[i - 1]));
                }
            } else {
                assert(is_digit(digits[i]));
            }
        }
    }
    if s.len() > 0 && s[0] != '+' {
        assert((seq!['+'] + s).skip(1) =~= s);
    }
}

} // verus!
