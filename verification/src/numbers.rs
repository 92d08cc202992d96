//! Integers as bytes and as text: little-endian encoding, decimal formatting and
//! decimal parsing with the grammar of Rust's `FromStr` for integers.

use vstd::prelude::*;
use crate::text::push_char;

verus! {

/// The `k` low bytes of `x`, least significant first.
pub open spec fn le_bytes(x: nat, k: nat) -> Seq<u8>
    decreases k,
{
    if k == 0 {
        seq![]
    } else {
        seq![(x % 256) as u8] + le_bytes(x / 256, (k - 1) as nat)
    }
}

/// `n` in 128-bit two's complement, as a natural number.
pub open spec fn twos_complement(n: int) -> nat {
    if n < 0 {
        (n + 0x1_0000_0000_0000_0000_0000_0000_0000_0000) as nat
    } else {
        n as nat
    }
}

/// The `k` low bytes of `x`, least significant first (`to_le_bytes` of `x` truncated to `k` bytes).
pub fn le_bytes_of(x: u128, k: usize) -> (r: Vec<u8>)
    ensures
        r@ == le_bytes(x as nat, k as nat),
{
    let mut out: Vec<u8> = Vec::new();
    let mut v = x;
    let mut i: usize = 0;
    while i < k
        invariant
            i <= k,
            le_bytes(x as nat, k as nat) == out@ + le_bytes(v as nat, (k - i) as nat),
        decreases k - i,
    {
        let ghost before = out@;
        out.push((v % 256) as u8);
        proof {
            assert(le_bytes(v as nat, (k - i) as nat) == seq![(v % 256) as u8] + le_bytes(
                (v / 256) as nat,
                (k - i - 1) as nat,
            ));
            assert(before + le_bytes(v as nat, (k - i) as nat) =~= out@ + le_bytes(
                (v / 256) as nat,
                (k - i - 1) as nat,
            ));
        }
        v = v / 256;
        i += 1;
    }
    assert(out@ + le_bytes(v as nat, 0) =~= out@);
    out
}

/// The 128-bit two's complement of `n`.
pub fn twos_complement_of(n: i128) -> (r: u128)
    ensures
        r as nat == twos_complement(n as int),
{
    if n >= 0 {
        n as u128
    } else {
        let shifted = ((n + i128::MAX) + 1) as u128;
        shifted + (i128::MAX as u128) + 1
    }
}

/// The character of the decimal digit `d`.
pub open spec fn digit_char(d: nat) -> char {
    (48 + d) as char
}

/// `n` written in decimal, without leading zeros.
pub open spec fn decimal(n: nat) -> Seq<char>
    decreases n,
{
    if n < 10 {
        seq![digit_char(n)]
    } else {
        decimal(n / 10).push(digit_char(n % 10))
    }
}

/// `n` written in decimal with a leading `-` when negative.
pub open spec fn signed_decimal(n: int) -> Seq<char> {
    if n < 0 {
        seq!['-'] + decimal((-n) as nat)
    } else {
        decimal(n as nat)
    }
}

fn digit_of(d: u128) -> (c: char)
    requires
        d < 10,
    ensures
        c == digit_char(d as nat),
{
    let b: u8 = 48 + (d as u8);
    b as char
}

/// `n` in decimal (`u128::to_string`).
pub fn decimal_of(n: u128) -> (r: String)
    ensures
        r@ == decimal(n as nat),
    decreases n,
{
    if n < 10 {
        let mut s = String::new();
        push_char(&mut s, digit_of(n));
        assert(s@ =~= decimal(n as nat));
        s
    } else {
        let mut s = decimal_of(n / 10);
        push_char(&mut s, digit_of(n % 10));
        s
    }
}

/// `n` in decimal, with a `-` when negative (`i128::to_string`).
pub fn signed_decimal_of(n: i128) -> (r: String)
    ensures
        r@ == signed_decimal(n as int),
{
    if n < 0 {
        let magnitude: u128 = if n == i128::MIN {
            (i128::MAX as u128) + 1
        } else {
            (-n) as u128
        };
        let mut s = String::new();
        push_char(&mut s, '-');
        let digits = decimal_of(magnitude);
        s.append(digits.as_str());
        assert(s@ =~= signed_decimal(n as int));
        s
    } else {
        decimal_of(n as u128)
    }
}

pub open spec fn is_digit(c: char) -> bool {
    48 <= (c as u32) <= 57
}

pub open spec fn digit_value(c: char) -> nat {
    ((c as u32) - 48) as nat
}

pub open spec fn all_digits(s: Seq<char>) -> bool {
    forall|i: int| 0 <= i < s.len() ==> is_digit(#[trigger] s[i])
}

/// The number that the decimal digits `s` spell.
pub open spec fn digits_value(s: Seq<char>) -> nat
    decreases s.len(),
{
    if s.len() == 0 {
        0
    } else {
        digits_value(s.drop_last()) * 10 + digit_value(s.last())
    }
}

/// How Rust's `FromStr` for an integer type whose values run from `min` to `max`
/// reads `s`: an optional `+` (or, for a signed type, `-`), then one or more
/// decimal digits, and the value must be in range.
pub open spec fn parse_integer(s: Seq<char>, signed: bool, min: int, max: int) -> Option<int> {
    if s.len() == 0 {
        None
    } else {
        let neg = signed && s[0] == '-';
        let body = if s[0] == '+' || neg {
            s.drop_first()
        } else {
            s
        };
        if body.len() == 0 || !all_digits(body) {
            None
        } else {
            let v = if neg {
                -(digits_value(body) as int)
            } else {
                digits_value(body) as int
            };
            if min <= v <= max {
                Some(v)
            } else {
                None
            }
        }
    }
}

proof fn lemma_digits_value_prefix(s: Seq<char>, k: int)
    requires
        0 <= k <= s.len(),
    ensures
        digits_value(s.take(k)) <= digits_value(s),
    decreases s.len() - k,
{
    if k < s.len() {
        lemma_digits_value_prefix(s.drop_last(), k);
        assert(s.drop_last().take(k) =~= s.take(k));
    } else {
        assert(s.take(k) =~= s);
    }
}

/// The value of the digits `cs[start..]`, when they are one or more decimal digits
/// whose value fits in a `u128`.
fn parse_magnitude(cs: &Vec<char>, start: usize) -> (r: Option<u128>)
    requires
        start <= cs@.len(),
    ensures
        ({
            let body = cs@.skip(start as int);
            match r {
                Some(v) => body.len() > 0 && all_digits(body) && v as nat == digits_value(body),
                None => body.len() == 0 || !all_digits(body) || digits_value(body) > u128::MAX,
            }
        }),
{
    let ghost body = cs@.skip(start as int);
    let n = cs.len();
    if start == n {
        return None;
    }
    let mut acc: u128 = 0;
    let mut i = start;
    while i < n
        invariant
            start <= i <= n,
            n == cs@.len(),
            body == cs@.skip(start as int),
            all_digits(body.take(i - start)),
            acc as nat == digits_value(body.take(i - start)),
        decreases n - i,
    {
        let c = cs[i];
        let u = c as u32;
        if u < 48 || u > 57 {
            assert(!is_digit(body[i - start]));
            return None;
        }
        let d = (u - 48) as u128;
        proof {
            assert(body.take(i + 1 - start).drop_last() =~= body.take(i - start));
            assert(body.take(i + 1 - start).last() == c);
        }
        let step = acc.checked_mul(10);
        match step {
            None => {
                proof {
                    lemma_all_digits_or_not(body, (i + 1 - start) as int);
                }
                return None;
            },
            Some(t) => match t.checked_add(d) {
                None => {
                    proof {
                        lemma_all_digits_or_not(body, (i + 1 - start) as int);
                    }
                    return None;
                },
                Some(next) => {
                    acc = next;
                },
            },
        }
        i += 1;
        assert(all_digits(body.take(i - start)));
    }
    assert(body.take(n - start) =~= body);
    Some(acc)
}

proof fn lemma_all_digits_or_not(body: Seq<char>, k: int)
    requires
        0 <= k <= body.len(),
        digits_value(body.take(k)) > u128::MAX,
    ensures
        body.len() == 0 || !all_digits(body) || digits_value(body) > u128::MAX,
{
    lemma_digits_value_prefix(body, k);
}

/// Reads an optional sign, then the digits; `None` where Rust's `FromStr` would
/// fail for any integer type up to 128 bits because of the text itself or a magnitude
/// beyond `u128`.
fn parse_signed_magnitude(s: &str, signed: bool) -> (r: Option<(bool, u128)>)
    ensures
        ({
            let t = s@;
            let neg = t.len() > 0 && signed && t[0] == '-';
            let body = if t.len() > 0 && (t[0] == '+' || neg) {
                t.drop_first()
            } else {
                t
            };
            match r {
                Some((ng, m)) => t.len() > 0 && ng == neg && body.len() > 0 && all_digits(body)
                    && m as nat == digits_value(body),
                None => t.len() == 0 || body.len() == 0 || !all_digits(body) || digits_value(body)
                    > u128::MAX,
            }
        }),
{
    let cs = crate::text::chars_of(s);
    if cs.len() == 0 {
        return None;
    }
    let neg = signed && cs[0] == '-';
    let start: usize = if cs[0] == '+' || neg {
        1
    } else {
        0
    };
    assert(cs@.skip(1) =~= s@.drop_first());
    assert(cs@.skip(0) =~= s@);
    match parse_magnitude(&cs, start) {
        Some(m) => Some((neg, m)),
        None => None,
    }
}

/// `s.parse::<u64>()`.
pub fn parse_u64(s: &str) -> (r: Option<u64>)
    ensures
        match r {
            Some(v) => parse_integer(s@, false, 0, u64::MAX as int) == Some(v as int),
            None => parse_integer(s@, false, 0, u64::MAX as int) is None,
        },
{
    match parse_signed_magnitude(s, false) {
        Some((_, m)) => if m <= u64::MAX as u128 {
            Some(m as u64)
        } else {
            None
        },
        None => None,
    }
}

/// `s.parse::<u128>()`.
pub fn parse_u128(s: &str) -> (r: Option<u128>)
    ensures
        match r {
            Some(v) => parse_integer(s@, false, 0, u128::MAX as int) == Some(v as int),
            None => parse_integer(s@, false, 0, u128::MAX as int) is None,
        },
{
    match parse_signed_magnitude(s, false) {
        Some((_, m)) => Some(m),
        None => None,
    }
}

/// `s.parse::<i64>()`.
pub fn parse_i64(s: &str) -> (r: Option<i64>)
    ensures
        match r {
            Some(v) => parse_integer(s@, true, i64::MIN as int, i64::MAX as int) == Some(v as int),
            None => parse_integer(s@, true, i64::MIN as int, i64::MAX as int) is None,
        },
{
    match parse_signed_magnitude(s, true) {
        Some((neg, m)) => {
            if neg {
                if m <= (i64::MAX as u128) + 1 {
                    if m == (i64::MAX as u128) + 1 {
                        Some(i64::MIN)
                    } else {
                        Some(-(m as i64))
                    }
                } else {
                    None
                }
            } else if m <= i64::MAX as u128 {
                Some(m as i64)
            } else {
                None
            }
        },
        None => None,
    }
}

/// `s.parse::<i128>()`.
pub fn parse_i128(s: &str) -> (r: Option<i128>)
    ensures
        match r {
            Some(v) => parse_integer(s@, true, i128::MIN as int, i128::MAX as int) == Some(
                v as int,
            ),
            None => parse_integer(s@, true, i128::MIN as int, i128::MAX as int) is None,
        },
{
    match parse_signed_magnitude(s, true) {
        Some((neg, m)) => {
            if neg {
                if m <= (i128::MAX as u128) + 1 {
                    if m == (i128::MAX as u128) + 1 {
                        Some(i128::MIN)
                    } else {
                        Some(-(m as i128))
                    }
                } else {
                    None
                }
            } else if m <= i128::MAX as u128 {
                Some(m as i128)
            } else {
                None
            }
        },
        None => None,
    }
}

} // verus!
