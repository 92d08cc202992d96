//! Argument values as the command line collects them (the JSON values that
//! instruction arguments and PDA seeds are encoded from).

use vstd::prelude::*;
use crate::codecs::{lowercase, to_lowercase};
use crate::numbers::{decimal, decimal_of, parse_i128, parse_i64, parse_integer, parse_u128, parse_u64, signed_decimal, signed_decimal_of};
use crate::text::str_eq;

verus! {

/// A JSON value as the encoders read it.
#[derive(Debug, Clone, PartialEq, Eq)]
pub enum ArgValue {
    /// A JSON boolean.
    Bool(bool),
    /// A JSON integer that is zero or more.
    UInt(u64),
    /// A JSON integer below zero.
    NegInt(i64),
    /// A JSON string.
    Text(String),
    /// Any other JSON value (null, a fractional number, an array, an object), kept as its JSON text.
    Other(String),
}

impl ArgValue {
    /// The value that `serde_json` makes of an `i64`: zero and above are unsigned.
    pub fn from_i64(n: i64) -> (r: ArgValue)
        ensures
            n >= 0 ==> r == ArgValue::UInt(n as u64),
            n < 0 ==> r == ArgValue::NegInt(n),
    {
        if n >= 0 {
            ArgValue::UInt(n as u64)
        } else {
            ArgValue::NegInt(n)
        }
    }
}

/// The JSON text of a value that is not a string (`Value::to_string`).
pub open spec fn json_text(v: ArgValue) -> Seq<char> {
    match v {
        ArgValue::Bool(b) => if b {
            "true"@
        } else {
            "false"@
        },
        ArgValue::UInt(n) => decimal(n as nat),
        ArgValue::NegInt(n) => signed_decimal(n as int),
        ArgValue::Text(s) => s@,
        ArgValue::Other(s) => s@,
    }
}

/// `Value::as_u64` for numbers, `str::parse::<u64>` for strings, nothing otherwise.
pub open spec fn value_as_u64(v: ArgValue) -> Option<int> {
    match v {
        ArgValue::UInt(n) => Some(n as int),
        ArgValue::Text(s) => parse_integer(s@, false, 0, u64::MAX as int),
        _ => None,
    }
}

/// `Value::as_i64` for numbers, `str::parse::<i64>` for strings, nothing otherwise.
pub open spec fn value_as_i64(v: ArgValue) -> Option<int> {
    match v {
        ArgValue::UInt(n) => if n <= i64::MAX {
            Some(n as int)
        } else {
            None
        },
        ArgValue::NegInt(n) => Some(n as int),
        ArgValue::Text(s) => parse_integer(s@, true, i64::MIN as int, i64::MAX as int),
        _ => None,
    }
}

/// `str::parse::<u128>` for strings, `Value::as_u64` widened for numbers.
pub open spec fn value_as_u128(v: ArgValue) -> Option<int> {
    match v {
        ArgValue::Text(s) => parse_integer(s@, false, 0, u128::MAX as int),
        ArgValue::UInt(n) => Some(n as int),
        _ => None,
    }
}

/// `str::parse::<i128>` for strings, `Value::as_i64` widened for numbers.
pub open spec fn value_as_i128(v: ArgValue) -> Option<int> {
    match v {
        ArgValue::Text(s) => parse_integer(s@, true, i128::MIN as int, i128::MAX as int),
        ArgValue::UInt(n) => if n <= i64::MAX {
            Some(n as int)
        } else {
            None
        },
        ArgValue::NegInt(n) => Some(n as int),
        _ => None,
    }
}

/// The words that count as true: `true`, `yes`, `1`.
pub open spec fn is_true_word(s: Seq<char>) -> bool {
    s == "true"@ || s == "yes"@ || s == "1"@
}

/// How a value reads as a Borsh `bool`.
pub open spec fn value_truth(v: ArgValue) -> bool {
    match v {
        ArgValue::Bool(b) => b,
        ArgValue::Text(s) => is_true_word(lowercase(s@)),
        ArgValue::UInt(n) => n != 0,
        _ => false,
    }
}

/// The JSON text of a value that is not a string.
pub fn json_text_of(v: &ArgValue) -> (r: String)
    ensures
        r@ == json_text(*v),
{
    match v {
        ArgValue::Bool(b) => if *b {
            String::from_str("true")
        } else {
            String::from_str("false")
        },
        ArgValue::UInt(n) => decimal_of(*n as u128),
        ArgValue::NegInt(n) => signed_decimal_of(*n as i128),
        ArgValue::Text(s) => s.clone(),
        ArgValue::Other(s) => s.clone(),
    }
}

pub fn as_u64(v: &ArgValue) -> (r: Option<u64>)
    ensures
        match r {
            Some(n) => value_as_u64(*v) == Some(n as int),
            None => value_as_u64(*v) is None,
        },
{
    match v {
        ArgValue::UInt(n) => Some(*n),
        ArgValue::Text(s) => parse_u64(s.as_str()),
        _ => None,
    }
}

pub fn as_i64(v: &ArgValue) -> (r: Option<i64>)
    ensures
        match r {
            Some(n) => value_as_i64(*v) == Some(n as int),
            None => value_as_i64(*v) is None,
        },
{
    match v {
        ArgValue::UInt(n) => if *n <= i64::MAX as u64 {
            Some(*n as i64)
        } else {
            None
        },
        ArgValue::NegInt(n) => Some(*n),
        ArgValue::Text(s) => parse_i64(s.as_str()),
        _ => None,
    }
}

pub fn as_u128(v: &ArgValue) -> (r: Option<u128>)
    ensures
        match r {
            Some(n) => value_as_u128(*v) == Some(n as int),
            None => value_as_u128(*v) is None,
        },
{
    match v {
        ArgValue::Text(s) => parse_u128(s.as_str()),
        ArgValue::UInt(n) => Some(*n as u128),
        _ => None,
    }
}

pub fn as_i128(v: &ArgValue) -> (r: Option<i128>)
    ensures
        match r {
            Some(n) => value_as_i128(*v) == Some(n as int),
            None => value_as_i128(*v) is None,
        },
{
    match v {
        ArgValue::Text(s) => parse_i128(s.as_str()),
        ArgValue::UInt(n) => if *n <= i64::MAX as u64 {
            Some(*n as i128)
        } else {
            None
        },
        ArgValue::NegInt(n) => Some(*n as i128),
        _ => None,
    }
}

/// Whether `s` is one of the words `true`, `yes`, `1`.
pub fn true_word(s: &str) -> (r: bool)
    ensures
        r == is_true_word(s@),
{
    str_eq(s, "true") || str_eq(s, "yes") || str_eq(s, "1")
}

pub fn truth(v: &ArgValue) -> (r: bool)
    ensures
        r == value_truth(*v),
{
    match v {
        ArgValue::Bool(b) => *b,
        ArgValue::Text(s) => {
            let lower = to_lowercase(s.as_str());
            true_word(lower.as_str())
        },
        ArgValue::UInt(n) => *n != 0,
        _ => false,
    }
}

} // verus!
