//! Decimal numbers: reading them from text and writing them out.
use vstd::prelude::*;

use crate::text::{chars_of, next_char};

verus! {

/// Whether `c` is an ASCII digit.
pub open spec fn is_digit(c: char) -> bool {
    '0' <= c <= '9'
}

/// The value of a decimal digit.
pub open spec fn digit_value(c: char) -> int {
    c as int - '0' as int
}

/// Whether a text consists of decimal digits.
pub open spec fn all_digits(s: Seq<char>) -> bool {
    forall|i: int| 0 <= i < s.len() ==> is_digit(#[trigger] s[i])
}

/// The number that a sequence of digits denotes.
pub open spec fn digits_value(s: Seq<char>) -> int
    decreases s.len(),
{
    if s.len() == 0 {
        0
    } else {
        digits_value(s.drop_last()) * 10 + digit_value(s.last())
    }
}

/// The digits of a numeral, without the `+` that may precede them.
pub open spec fn unsigned_part(s: Seq<char>) -> Seq<char> {
    if s.len() > 0 && s[0] == '+' {
        s.drop_first()
    } else {
        s
    }
}

/// The number that `s` denotes, where `s` is digits with at most a leading
/// `+`, and the number is at most `max`.
pub open spec fn parse_number(s: Seq<char>, max: int) -> Option<int> {
    let d = unsigned_part(s);
    if d.len() > 0 && all_digits(d) && digits_value(d) <= max {
        Some(digits_value(d))
    } else {
        None
    }
}

proof fn lemma_digits_value_prefix(s: Seq<char>, k: int)
    requires
        all_digits(s),
        0 <= k <= s.len(),
    ensures
        0 <= digits_value(s.take(k)) <= digits_value(s),
    decreases s.len(),
{
    if s.len() == 0 {
        assert(s.take(k) =~= s);
    } else {
        assert(is_digit(s.last()));
        if k == s.len() {
            assert(s.take(k) =~= s);
            lemma_digits_value_prefix(s.drop_last(), 0);
            assert(s.drop_last().take(0) =~= Seq::<char>::empty());
        } else {
            assert(s.drop_last().take(k) =~= s.take(k));
            lemma_digits_value_prefix(s.drop_last(), k);
        }
    }
}

pub proof fn lemma_digits_value_positive(s: Seq<char>)
    requires
        all_digits(s),
    ensures
        digits_value(s) >= 0,
{
    lemma_digits_value_prefix(s, 0);
    assert(s.take(0) =~= Seq::<char>::empty());
}

/// Read a decimal number of at most `max`.
pub fn parse_u32(s: &str, max: u32) -> (r: Option<u32>)
    ensures
        (match r {
            Some(n) => parse_number(s@, max as int) == Some(n as int),
            None => parse_number(s@, max as int) is None,
        }),
{
    let mut rest: &str = s;
    if let Some((c, tail)) = next_char(s) {
        if c == '+' {
            rest = tail;
        }
    }
    let ghost d = unsigned_part(s@);
    let digits = chars_of(rest);
    if digits.len() == 0 {
        return None;
    }
    let mut value: u64 = 0;
    let mut i: usize = 0;
    while i < digits.len()
        invariant
            digits@ == d,
            d == unsigned_part(s@),
            d.len() > 0,
            i <= d.len(),
            value <= max,
            value == digits_value(d.take(i as int)),
            all_digits(d.take(i as int)),
        decreases d.len() - i,
    {
        let c = digits[i];
        if c < '0' || c > '9' {
            proof {
                assert(!is_digit(d[i as int]));
            }
            return None;
        }
        value = value * 10 + (c as u64 - 48);
        i = i + 1;
        proof {
            let t = d.take(i as int);
            assert(t.drop_last() =~= d.take(i - 1));
            assert(t.last() == c);
            assert forall|k: int| 0 <= k < t.len() implies is_digit(#[trigger] t[k]) by {
                if k < i - 1 {
                    assert(d.take(i - 1)[k] == t[k]);
                }
            }
        }
        if value > max as u64 {
            proof {
                if all_digits(d) {
                    lemma_digits_value_prefix(d, i as int);
                }
            }
            return None;
        }
    }
    proof {
        assert(d.take(i as int) =~= d);
    }
    Some(value as u32)
}

/// The decimal digits of `n`, without leading zeros.
pub open spec fn decimal(n: nat) -> Seq<char>
    decreases n,
{
    if n < 10 {
        seq![digit_char(n)]
    } else {
        decimal(n / 10).push(digit_char(n % 10))
    }
}

/// The digit of a value below ten.
pub open spec fn digit_char(n: nat) -> char {
    ('0' as u32 + n) as char
}

fn digit_to_char(n: u64) -> (c: char)
    requires
        n < 10,
    ensures
        c == digit_char(n as nat),
{
    match n {
        0 => '0',
        1 => '1',
        2 => '2',
        3 => '3',
        4 => '4',
        5 => '5',
        6 => '6',
        7 => '7',
        8 => '8',
        _ => '9',
    }
}

/// Append `n` in decimal to `out`.
pub fn push_decimal(out: &mut String, n: u64)
    ensures
        final(out)@ == old(out)@ + decimal(n as nat),
    decreases n,
{
    if n < 10 {
        out.push(digit_to_char(n));
        proof {
            assert(out@ =~= old(out)@ + decimal(n as nat));
        }
    } else {
        push_decimal(out, n / 10);
        out.push(digit_to_char(n % 10));
        proof {
            assert(out@ =~= old(out)@ + decimal(n as nat));
        }
    }
}

/// A signed number in decimal.
pub open spec fn signed_decimal(n: int) -> Seq<char> {
    if n < 0 {
        seq!['-'] + decimal((-n) as nat)
    } else {
        decimal(n as nat)
    }
}

/// Append `n` in decimal to `out`, with a `-` when it is negative.
pub fn push_signed(out: &mut String, n: i32)
    ensures
        final(out)@ == old(out)@ + signed_decimal(n as int),
{
    let wide: i64 = n as i64;
    if wide < 0 {
        out.push('-');
        push_decimal(out, (-wide) as u64);
        proof {
            assert(out@ =~= old(out)@ + signed_decimal(n as int));
        }
    } else {
        push_decimal(out, wide as u64);
    }
}

} // verus!
