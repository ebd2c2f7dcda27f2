//! Decimal numbers in text.
use crate::text::{chars_of, digit, is_digit, text_of};
use vstd::prelude::*;
use vstd::slice::slice_subrange;

verus! {

/// The digit `d`.
pub open spec fn digit_char(d: nat) -> char {
    (0x30 + d) as char
}

/// The decimal form of `n`, without leading zeros.
pub open spec fn decimal(n: nat) -> Seq<char>
    decreases n,
{
    if n < 10 {
        seq![digit_char(n)]
    } else {
        decimal(n / 10).push(digit_char(n % 10))
    }
}

/// The value of a sequence of digits.
pub open spec fn value(s: Seq<char>) -> nat
    decreases s.len(),
{
    if s.len() == 0 {
        0
    } else {
        value(s.drop_last()) * 10 + (s.last() as u32 - 0x30) as nat
    }
}

/// Only digits.
pub open spec fn all_digits(s: Seq<char>) -> bool {
    forall|i: int| 0 <= i < s.len() ==> is_digit(#[trigger] s[i])
}

/// The decimal form of a number consists of digits, has no leading zero, and
/// its value is the number.
pub proof fn lemma_decimal(n: nat)
    ensures
        decimal(n).len() > 0,
        all_digits(decimal(n)),
        value(decimal(n)) == n,
        n > 0 ==> decimal(n)[0] != '0',
    decreases n,
{
    if n < 10 {
        assert(decimal(n).drop_last() =~= Seq::<char>::empty());
        assert(value(decimal(n).drop_last()) == 0);
    } else {
        lemma_decimal(n / 10);
        assert(decimal(n).drop_last() =~= decimal(n / 10));
        assert forall|i: int| 0 <= i < decimal(n).len() implies is_digit(
            #[trigger] decimal(n)[i],
        ) by {
            if i < decimal(n / 10).len() {
                assert(is_digit(decimal(n / 10)[i]));
            }
        }
    }
}

fn digit_of(d: u64) -> (c: char)
    requires
        d < 10,
    ensures
        c == digit_char(d as nat),
{
    let b: u8 = 0x30 + d as u8;
    b as char
}

/// The decimal form of `n`.
pub fn decimal_text(n: u64) -> (out: String)
    ensures
        out@ == decimal(n as nat),
{
    let chars = decimal_chars(n);
    text_of(chars.as_slice())
}

pub fn decimal_chars(n: u64) -> (out: Vec<char>)
    ensures
        out@ == decimal(n as nat),
    decreases n,
{
    if n < 10 {
        let mut out: Vec<char> = Vec::new();
        out.push(digit_of(n));
        assert(out@ =~= decimal(n as nat));
        out
    } else {
        let mut out = decimal_chars(n / 10);
        out.push(digit_of(n % 10));
        out
    }
}

/// What `str::parse` reads as an unsigned number of at most `max`: digits,
/// after at most one plus sign.
pub open spec fn parse_spec(s: Seq<char>, max: nat) -> Option<nat> {
    let digits = if s.len() > 0 && s[0] == '+' {
        s.drop_first()
    } else {
        s
    };
    if digits.len() > 0 && all_digits(digits) && value(digits) <= max {
        Some(value(digits))
    } else {
        None
    }
}

proof fn lemma_value_prefix(s: Seq<char>, i: int)
    requires
        0 <= i <= s.len(),
        all_digits(s),
    ensures
        value(s.take(i)) <= value(s),
    decreases s.len(),
{
    if i < s.len() {
        lemma_value_prefix(s.drop_last(), i);
        assert(s.drop_last().take(i) =~= s.take(i));
    } else {
        assert(s.take(i) =~= s);
    }
}

/// The value of some digits, where it is at most `max`.
fn digits_value(s: &[char], max: u64) -> (r: Option<u64>)
    ensures
        r matches Some(n) ==> all_digits(s@) && value(s@) == n && n <= max,
        r is None ==> !(all_digits(s@) && value(s@) <= max),
{
    let mut n: u64 = 0;
    let mut i: usize = 0;
    assert(value(s@.take(0)) == 0);
    while i < s.len()
        invariant
            i <= s@.len(),
            n <= max,
            forall|j: int| 0 <= j < i ==> is_digit(#[trigger] s@[j]),
            value(s@.take(i as int)) == n,
        decreases s@.len() - i,
    {
        if !digit(s[i]) {
            return None;
        }
        let d: u64 = (s[i] as u32 - 0x30) as u64;
        proof {
            assert(s@.take(i + 1).drop_last() =~= s@.take(i as int));
            assert(s@.take(i + 1).last() == s@[i as int]);
            if all_digits(s@) {
                lemma_value_prefix(s@, i + 1);
            }
        }
        if n > max / 10 || (n == max / 10 && d > max % 10) {
            assert(n * 10 + d > max);
            return None;
        }
        assert(n * 10 + d <= max);
        n = n * 10 + d;
        i = i + 1;
    }
    assert(s@.take(i as int) =~= s@);
    Some(n)
}

pub fn parse_chars(s: &[char], max: u64) -> (r: Option<u64>)
    ensures
        r matches Some(n) ==> parse_spec(s@, max as nat) == Some(n as nat) && n <= max,
        r is None ==> parse_spec(s@, max as nat) is None,
{
    let digits = if s.len() > 0 && s[0] == '+' {
        slice_subrange(s, 1, s.len())
    } else {
        s
    };
    proof {
        if s@.len() > 0 && s@[0] == '+' {
            assert(digits@ =~= s@.drop_first());
        }
    }
    if digits.len() == 0 {
        return None;
    }
    digits_value(digits, max)
}

/// What `str::parse` reads as a `usize`.
pub open spec fn parse_usize(s: Seq<char>) -> Option<nat> {
    parse_spec(s, usize::MAX as nat)
}

pub fn parse_index(s: &[char]) -> (r: Option<usize>)
    ensures
        r matches Some(n) ==> parse_usize(s@) == Some(n as nat),
        r is None ==> parse_usize(s@) is None,
{
    match parse_chars(s, usize::MAX as u64) {
        Some(n) => Some(n as usize),
        None => None,
    }
}

/// The number that a text holds, where it holds one.
pub fn parse_text(text: &str, max: u64) -> (r: Option<u64>)
    ensures
        r matches Some(n) ==> parse_spec(text@, max as nat) == Some(n as nat) && n <= max,
        r is None ==> parse_spec(text@, max as nat) is None,
{
    let chars = chars_of(text);
    parse_chars(chars.as_slice(), max)
}

/// The decimal form of a number reads back as the number.
pub proof fn law_numbers_read_back(n: nat, max: nat)
    requires
        n <= max,
    ensures
        parse_spec(decimal(n), max) == Some(n),
{
    lemma_decimal(n);
}

/// What reads as a number is a number that may be, and has only digits, but
/// for a sign in front.
pub proof fn law_only_digits_are_numbers(s: Seq<char>, max: nat)
    requires
        parse_spec(s, max) is Some,
    ensures
        parse_spec(s, max)->0 <= max,
        s.len() > 0,
        forall|i: int| 1 <= i < s.len() ==> is_digit(#[trigger] s[i]),
        is_digit(s[0]) || s[0] == '+',
{
    let body = if s[0] == '+' {
        s.skip(1)
    } else {
        s
    };
    assert forall|i: int| 1 <= i < s.len() implies is_digit(#[trigger] s[i]) by {
        if s[0] == '+' {
            assert(body[i - 1] == s[i]);
        }
    }
}

}
