//! Writing numbers as text and reading them back.
use vstd::prelude::*;

use crate::text;

verus! {

broadcast use vstd::string::group_string_axioms;

/// The digit character for a value below sixteen, lower case beyond nine.
pub open spec fn digit_char(d: nat) -> char {
    if d < 10 {
        ('0' as u32 + d) as char
    } else {
        ('a' as u32 + d - 10) as char
    }
}

/// `n` written in base `base`, without leading zeros.
pub open spec fn digits(n: nat, base: nat) -> Seq<char>
    decreases n,
{
    if base < 2 || n < base {
        seq![digit_char(n)]
    } else {
        proof {
            assert(n / base < n) by (nonlinear_arith)
                requires
                    n >= base,
                    base >= 2,
            ;
        }
        digits(n / base, base).push(digit_char(n % base))
    }
}

/// `n` in decimal.
pub open spec fn decimal(n: nat) -> Seq<char> {
    digits(n, 10)
}

/// `n` in lower-case hexadecimal.
pub open spec fn hex(n: nat) -> Seq<char> {
    digits(n, 16)
}

fn to_digit_char(d: u64) -> (c: char)
    requires
        d < 16,
    ensures
        c == digit_char(d as nat),
{
    let b: u8 = d as u8;
    if b < 10 {
        (48u8 + b) as char
    } else {
        (87u8 + b) as char
    }
}

fn write_digits(n: u64, base: u64) -> (s: String)
    requires
        2 <= base <= 16,
    ensures
        s@ == digits(n as nat, base as nat),
    decreases n,
{
    if n < base {
        let mut s = String::new();
        s.push(to_digit_char(n));
        assert(s@ =~= seq![digit_char(n as nat)]);
        s
    } else {
        assert(n / base < n) by (nonlinear_arith)
            requires
                n > 0,
                base >= 2,
        ;
        let mut s = write_digits(n / base, base);
        assert(n % base < base) by (nonlinear_arith)
            requires
                base >= 2,
        ;
        s.push(to_digit_char(n % base));
        s
    }
}

/// Write `n` in decimal.
pub fn to_decimal(n: u64) -> (s: String)
    ensures
        s@ == decimal(n as nat),
{
    write_digits(n, 10)
}

/// Write `n` in lower-case hexadecimal.
pub fn to_hex(n: u64) -> (s: String)
    ensures
        s@ == hex(n as nat),
{
    write_digits(n, 16)
}

/// Whether `c` is a decimal digit.
pub open spec fn is_digit(c: char) -> bool {
    '0' <= c <= '9'
}

/// Whether every character is a decimal digit and there is at least one.
pub open spec fn all_digits(s: Seq<char>) -> bool {
    s.len() > 0 && forall|i: int| 0 <= i < s.len() ==> is_digit(#[trigger] s[i])
}

/// The number that a string of decimal digits denotes.
pub open spec fn value(s: Seq<char>) -> nat
    decreases s.len(),
{
    if s.len() == 0 {
        0
    } else {
        value(s.drop_last()) * 10 + (s.last() as nat - '0' as nat) as nat
    }
}

/// The number written in decimal digits and nothing else, not above `max`.
pub open spec fn parse_digits(s: Seq<char>, max: nat) -> Option<nat> {
    if all_digits(s) && value(s) <= max {
        Some(value(s))
    } else {
        None
    }
}

proof fn lemma_value_monotone(s: Seq<char>, k: int)
    requires
        0 <= k <= s.len(),
        all_digits(s),
    ensures
        value(s.take(k)) <= value(s),
    decreases s.len() - k,
{
    if k < s.len() {
        lemma_value_monotone(s, k + 1);
        assert(s.take(k + 1).drop_last() =~= s.take(k));
        assert(is_digit(s[k]));
    } else {
        assert(s.take(k) =~= s);
    }
}

/// Read a number of decimal digits, not above `max`.
pub fn read_digits(s: &str, max: u64) -> (n: Option<u64>)
    ensures
        match n {
            Some(v) => parse_digits(s@, max as nat) == Some(v as nat),
            None => parse_digits(s@, max as nat) is None,
        },
{
    let chars = text::to_chars(s);
    let ghost d = s@;
    if chars.len() == 0 {
        return None;
    }
    let mut i: usize = 0;
    let mut n: u64 = 0;
    assert(d.take(0) =~= Seq::<char>::empty());
    while i < chars.len()
        invariant
            i <= chars.len(),
            chars@ == d,
            d == s@,
            d.len() > 0,
            forall|j: int| 0 <= j < i ==> is_digit(#[trigger] d[j]),
            n == value(d.take(i as int)),
            n <= max,
        decreases chars.len() - i,
    {
        let c = chars[i];
        assert(c == d[i as int]);
        if !('0' <= c && c <= '9') {
            return None;
        }
        let add: u64 = (c as u8 - 48) as u64;
        proof {
            assert(d.take(i + 1).drop_last() =~= d.take(i as int));
            assert(value(d.take(i + 1)) == n * 10 + add);
            if all_digits(d) {
                lemma_value_monotone(d, i + 1);
            }
        }
        let scaled = match n.checked_mul(10) {
            Some(v) => v,
            None => return None,
        };
        let next = match scaled.checked_add(add) {
            Some(v) => v,
            None => return None,
        };
        if next > max {
            return None;
        }
        n = next;
        i += 1;
    }
    assert(d.take(i as int) =~= d);
    Some(n)
}

/// The digits of a number are decimal digits that denote it.
pub proof fn lemma_decimal(n: nat)
    ensures
        all_digits(decimal(n)),
        value(decimal(n)) == n,
    decreases n,
{
    if n < 10 {
        let s = decimal(n);
        assert(s.drop_last() =~= Seq::<char>::empty());
        assert(value(s) == value(s.drop_last()) * 10 + (s.last() as nat - '0' as nat));
    } else {
        lemma_decimal(n / 10);
        let s = decimal(n);
        assert(s.drop_last() =~= decimal(n / 10));
        assert(s.last() == digit_char(n % 10));
        assert forall|i: int| 0 <= i < s.len() implies is_digit(#[trigger] s[i]) by {
            if i < s.len() - 1 {
                assert(s[i] == decimal(n / 10)[i]);
            }
        }
    }
}

/// Reading back a written number gives the number.
pub proof fn decimal_round_trip(n: nat, max: nat)
    requires
        n <= max,
    ensures
        parse_digits(decimal(n), max) == Some(n),
{
    lemma_decimal(n);
}

} // verus!
