//! Encoding argument values: Borsh for instruction data, raw bytes for PDA seeds.

use vstd::prelude::*;
use vstd::utf8::encode_utf8;
use crate::api::IdlType;
use crate::codecs::{base58_decode, base58_decoded, lowercase, to_lowercase};
use crate::idl::IdlArg;
use crate::numbers::{le_bytes, le_bytes_of, twos_complement, twos_complement_of};
use crate::strmap::StrMap;
use crate::text::str_eq;
use crate::values::{
    as_i128, as_i64, as_u128, as_u64, json_text, json_text_of, truth, value_as_i128, value_as_i64,
    value_as_u128, value_as_u64, value_truth, ArgValue,
};

verus! {

/// Why a single value could not be encoded.
#[derive(Debug, Clone, PartialEq, Eq)]
pub enum ValueError {
    /// The value does not read as the named type ("Expected u64").
    Expected(String),
    /// A public key must be given as a string.
    ExpectedPubkeyString,
    /// The text is not base58.
    InvalidPubkey(String),
    /// The text decodes, but not to 32 bytes.
    PubkeyLength(String),
    /// The Borsh type is not one that the local encoder knows.
    UnsupportedType(String),
    /// The seed type is not one that seeds can be encoded from.
    UnknownSeedType(String),
}

pub enum ValueErrorView {
    Expected(Seq<char>),
    ExpectedPubkeyString,
    InvalidPubkey(Seq<char>),
    PubkeyLength(Seq<char>),
    UnsupportedType(Seq<char>),
    UnknownSeedType(Seq<char>),
}

impl View for ValueError {
    type V = ValueErrorView;

    open spec fn view(&self) -> ValueErrorView {
        match *self {
            ValueError::Expected(s) => ValueErrorView::Expected(s@),
            ValueError::ExpectedPubkeyString => ValueErrorView::ExpectedPubkeyString,
            ValueError::InvalidPubkey(s) => ValueErrorView::InvalidPubkey(s@),
            ValueError::PubkeyLength(s) => ValueErrorView::PubkeyLength(s@),
            ValueError::UnsupportedType(s) => ValueErrorView::UnsupportedType(s@),
            ValueError::UnknownSeedType(s) => ValueErrorView::UnknownSeedType(s@),
        }
    }
}

/// `r` is the outcome `s` describes.
pub open spec fn bytes_outcome(r: Result<Vec<u8>, ValueError>, s: Result<Seq<u8>, ValueErrorView>) -> bool {
    match r {
        Ok(b) => s == Ok::<Seq<u8>, ValueErrorView>(b@),
        Err(e) => s == Err::<Seq<u8>, ValueErrorView>(e@),
    }
}

/// The 32 bytes of a public key given as base58 text.
pub open spec fn pubkey_encoding(v: ArgValue) -> Result<Seq<u8>, ValueErrorView> {
    match v {
        ArgValue::Text(s) => match base58_decoded(s@) {
            Some(b) => if b.len() == 32 {
                Ok(b)
            } else {
                Err(ValueErrorView::PubkeyLength(s@))
            },
            None => Err(ValueErrorView::InvalidPubkey(s@)),
        },
        _ => Err(ValueErrorView::ExpectedPubkeyString),
    }
}

/// The `k` little-endian bytes of an integer read as `what`, two's complement when negative.
pub open spec fn int_encoding(n: Option<int>, k: nat, what: Seq<char>) -> Result<Seq<u8>, ValueErrorView> {
    match n {
        Some(x) => Ok(le_bytes(twos_complement(x), k)),
        None => Err(ValueErrorView::Expected(what)),
    }
}

/// The text that a Borsh `string` holds: the string itself, or the JSON text of any other value.
pub open spec fn string_text(v: ArgValue) -> Seq<char> {
    match v {
        ArgValue::Text(s) => s@,
        _ => json_text(v),
    }
}

/// The Borsh encoding of `v` as the type `t` (already lowercased), `ty` being the type as written.
pub open spec fn borsh_encoding(v: ArgValue, t: Seq<char>, ty: Seq<char>) -> Result<Seq<u8>, ValueErrorView> {
    if t == "string"@ {
        let b = encode_utf8(string_text(v));
        Ok(le_bytes(b.len(), 4) + b)
    } else if t == "u128"@ {
        int_encoding(value_as_u128(v), 16, "u128"@)
    } else if t == "u64"@ {
        int_encoding(value_as_u64(v), 8, "u64"@)
    } else if t == "u32"@ {
        int_encoding(value_as_u64(v), 4, "u32"@)
    } else if t == "u16"@ {
        int_encoding(value_as_u64(v), 2, "u16"@)
    } else if t == "u8"@ {
        int_encoding(value_as_u64(v), 1, "u8"@)
    } else if t == "i128"@ {
        int_encoding(value_as_i128(v), 16, "i128"@)
    } else if t == "i64"@ {
        int_encoding(value_as_i64(v), 8, "i64"@)
    } else if t == "i32"@ {
        int_encoding(value_as_i64(v), 4, "i32"@)
    } else if t == "i16"@ {
        int_encoding(value_as_i64(v), 2, "i16"@)
    } else if t == "i8"@ {
        int_encoding(value_as_i64(v), 1, "i8"@)
    } else if t == "bool"@ {
        Ok(seq![if value_truth(v) { 1u8 } else { 0u8 }])
    } else if t == "pubkey"@ || t == "publickey"@ {
        pubkey_encoding(v)
    } else {
        Err(ValueErrorView::UnsupportedType(ty))
    }
}

/// The raw seed bytes of `v` as the type `t` (already lowercased): strings unprefixed,
/// integers little-endian, public keys as their 32 bytes.
pub open spec fn seed_encoding(v: ArgValue, t: Seq<char>, ty: Seq<char>) -> Result<Seq<u8>, ValueErrorView> {
    if t == "string"@ {
        Ok(
            encode_utf8(
                match v {
                    ArgValue::Text(s) => s@,
                    _ => Seq::<char>::empty(),
                },
            ),
        )
    } else if t == "u128"@ {
        int_encoding(value_as_u128(v), 16, "u128"@)
    } else if t == "u64"@ {
        int_encoding(value_as_u64(v), 8, "u64"@)
    } else if t == "u32"@ {
        int_encoding(value_as_u64(v), 4, "u32"@)
    } else if t == "u16"@ {
        int_encoding(value_as_u64(v), 2, "u16"@)
    } else if t == "u8"@ {
        int_encoding(value_as_u64(v), 1, "u8"@)
    } else if t == "i128"@ {
        int_encoding(value_as_i128(v), 16, "i128"@)
    } else if t == "i64"@ {
        int_encoding(value_as_i64(v), 8, "i64"@)
    } else if t == "i32"@ {
        int_encoding(value_as_i64(v), 4, "i32"@)
    } else if t == "i16"@ {
        int_encoding(value_as_i64(v), 2, "i16"@)
    } else if t == "i8"@ {
        int_encoding(value_as_i64(v), 1, "i8"@)
    } else if t == "pubkey"@ || t == "publickey"@ {
        pubkey_encoding(v)
    } else {
        Err(ValueErrorView::UnknownSeedType(ty))
    }
}

/// Appends `b` to `out`.
pub fn append_bytes(out: &mut Vec<u8>, b: &[u8])
    ensures
        final(out)@ == old(out)@ + b@,
{
    let ghost start = out@;
    let mut i: usize = 0;
    while i < b.len()
        invariant
            i <= b@.len(),
            out@ == start + b@.take(i as int),
        decreases b@.len() - i,
    {
        out.push(b[i]);
        i += 1;
        assert(out@ =~= start + b@.take(i as int));
    }
    assert(b@.take(b@.len() as int) =~= b@);
}

fn pubkey_bytes(v: &ArgValue) -> (r: Result<Vec<u8>, ValueError>)
    ensures
        bytes_outcome(r, pubkey_encoding(*v)),
{
    match v {
        ArgValue::Text(s) => match base58_decode(s.as_str()) {
            Some(b) => if b.len() == 32 {
                Ok(b)
            } else {
                Err(ValueError::PubkeyLength(s.clone()))
            },
            None => Err(ValueError::InvalidPubkey(s.clone())),
        },
        _ => Err(ValueError::ExpectedPubkeyString),
    }
}

fn unsigned_bytes(n: Option<u64>, k: usize, what: &str) -> (r: Result<Vec<u8>, ValueError>)
    ensures
        bytes_outcome(
            r,
            int_encoding(
                match n {
                    Some(x) => Some(x as int),
                    None => None,
                },
                k as nat,
                what@,
            ),
        ),
{
    match n {
        Some(x) => Ok(le_bytes_of(x as u128, k)),
        None => Err(ValueError::Expected(what.to_owned())),
    }
}

fn wide_unsigned_bytes(n: Option<u128>, k: usize, what: &str) -> (r: Result<Vec<u8>, ValueError>)
    ensures
        bytes_outcome(
            r,
            int_encoding(
                match n {
                    Some(x) => Some(x as int),
                    None => None,
                },
                k as nat,
                what@,
            ),
        ),
{
    match n {
        Some(x) => Ok(le_bytes_of(x, k)),
        None => Err(ValueError::Expected(what.to_owned())),
    }
}

fn signed_bytes(n: Option<i128>, k: usize, what: &str) -> (r: Result<Vec<u8>, ValueError>)
    ensures
        bytes_outcome(
            r,
            int_encoding(
                match n {
                    Some(x) => Some(x as int),
                    None => None,
                },
                k as nat,
                what@,
            ),
        ),
{
    match n {
        Some(x) => Ok(le_bytes_of(twos_complement_of(x), k)),
        None => Err(ValueError::Expected(what.to_owned())),
    }
}

fn widen(n: Option<i64>) -> (r: Option<i128>)
    ensures
        match n {
            Some(x) => r == Some(x as i128),
            None => r is None,
        },
{
    match n {
        Some(x) => Some(x as i128),
        None => None,
    }
}

/// Borsh-encodes `val` as the type `lowered`, the lowercase form of the type `ty`
/// as written: strings with a 4-byte little-endian length prefix, integers
/// little-endian (narrowed to the type's width), `bool` as one byte, public keys as
/// their 32 bytes.
pub fn borsh_encode_typed(val: &ArgValue, lowered: &str, ty: &str) -> (r: Result<Vec<u8>, ValueError>)
    ensures
        bytes_outcome(r, borsh_encoding(*val, lowered@, ty@)),
{
    if str_eq(lowered, "string") {
        let s: String = match val {
            ArgValue::Text(s) => s.clone(),
            v => json_text_of(v),
        };
        let b = s.as_str().as_bytes();
        let mut out = le_bytes_of(b.len() as u128, 4);
        append_bytes(&mut out, b);
        Ok(out)
    } else if str_eq(lowered, "u128") {
        wide_unsigned_bytes(as_u128(val), 16, "u128")
    } else if str_eq(lowered, "u64") {
        unsigned_bytes(as_u64(val), 8, "u64")
    } else if str_eq(lowered, "u32") {
        unsigned_bytes(as_u64(val), 4, "u32")
    } else if str_eq(lowered, "u16") {
        unsigned_bytes(as_u64(val), 2, "u16")
    } else if str_eq(lowered, "u8") {
        unsigned_bytes(as_u64(val), 1, "u8")
    } else if str_eq(lowered, "i128") {
        signed_bytes(as_i128(val), 16, "i128")
    } else if str_eq(lowered, "i64") {
        signed_bytes(widen(as_i64(val)), 8, "i64")
    } else if str_eq(lowered, "i32") {
        signed_bytes(widen(as_i64(val)), 4, "i32")
    } else if str_eq(lowered, "i16") {
        signed_bytes(widen(as_i64(val)), 2, "i16")
    } else if str_eq(lowered, "i8") {
        signed_bytes(widen(as_i64(val)), 1, "i8")
    } else if str_eq(lowered, "bool") {
        let mut out: Vec<u8> = Vec::new();
        out.push(if truth(val) { 1u8 } else { 0u8 });
        assert(out@ =~= seq![if value_truth(*val) { 1u8 } else { 0u8 }]);
        Ok(out)
    } else if str_eq(lowered, "pubkey") || str_eq(lowered, "publickey") {
        pubkey_bytes(val)
    } else {
        Err(ValueError::UnsupportedType(ty.to_owned()))
    }
}

/// Borsh-encodes a single value according to its IDL type string, the type
/// compared in lowercase (see `borsh_encode_typed`).
pub fn borsh_encode_value(val: &ArgValue, ty: &str) -> (r: Result<Vec<u8>, ValueError>)
    ensures
        bytes_outcome(r, borsh_encoding(*val, lowercase(ty@), ty@)),
{
    let lowered = to_lowercase(ty);
    borsh_encode_typed(val, lowered.as_str(), ty)
}

/// Encodes `val` as raw PDA seed bytes for the type `lowered`, the lowercase form of
/// `ty`: strings as their UTF-8 bytes without prefix (non-strings as nothing),
/// integers little-endian, public keys as their 32 bytes.
pub fn seed_bytes_typed(val: &ArgValue, lowered: &str, ty: &str) -> (r: Result<Vec<u8>, ValueError>)
    ensures
        bytes_outcome(r, seed_encoding(*val, lowered@, ty@)),
{
    if str_eq(lowered, "string") {
        match val {
            ArgValue::Text(s) => Ok(crate::idl::copy_bytes(s.as_str().as_bytes())),
            _ => {
                let e = String::new();
                Ok(crate::idl::copy_bytes(e.as_str().as_bytes()))
            },
        }
    } else if str_eq(lowered, "u128") {
        wide_unsigned_bytes(as_u128(val), 16, "u128")
    } else if str_eq(lowered, "u64") {
        unsigned_bytes(as_u64(val), 8, "u64")
    } else if str_eq(lowered, "u32") {
        unsigned_bytes(as_u64(val), 4, "u32")
    } else if str_eq(lowered, "u16") {
        unsigned_bytes(as_u64(val), 2, "u16")
    } else if str_eq(lowered, "u8") {
        unsigned_bytes(as_u64(val), 1, "u8")
    } else if str_eq(lowered, "i128") {
        signed_bytes(as_i128(val), 16, "i128")
    } else if str_eq(lowered, "i64") {
        signed_bytes(widen(as_i64(val)), 8, "i64")
    } else if str_eq(lowered, "i32") {
        signed_bytes(widen(as_i64(val)), 4, "i32")
    } else if str_eq(lowered, "i16") {
        signed_bytes(widen(as_i64(val)), 2, "i16")
    } else if str_eq(lowered, "i8") {
        signed_bytes(widen(as_i64(val)), 1, "i8")
    } else if str_eq(lowered, "pubkey") || str_eq(lowered, "publickey") {
        pubkey_bytes(val)
    } else {
        Err(ValueError::UnknownSeedType(ty.to_owned()))
    }
}

/// Encodes a single value as raw PDA seed bytes (not Borsh-prefixed for strings),
/// the type compared in lowercase (see `seed_bytes_typed`).
pub fn seed_bytes_from_value(val: &ArgValue, ty: &str) -> (r: Result<Vec<u8>, ValueError>)
    ensures
        bytes_outcome(r, seed_encoding(*val, lowercase(ty@), ty@)),
{
    let lowered = to_lowercase(ty);
    seed_bytes_typed(val, lowered.as_str(), ty)
}

/// Why the arguments of an instruction could not be encoded.
#[derive(Debug, Clone, PartialEq, Eq)]
pub enum ArgsError {
    /// An argument's type is not a plain type name (its JSON text).
    ComplexType(String),
    /// No value was given for the named argument.
    MissingValue(String),
    /// The named argument of the given type could not be encoded.
    Encoding { arg: String, ty: String, cause: ValueError },
}

pub enum ArgsErrorView {
    ComplexType(Seq<char>),
    MissingValue(Seq<char>),
    Encoding(Seq<char>, Seq<char>, ValueErrorView),
}

impl View for ArgsError {
    type V = ArgsErrorView;

    open spec fn view(&self) -> ArgsErrorView {
        match *self {
            ArgsError::ComplexType(s) => ArgsErrorView::ComplexType(s@),
            ArgsError::MissingValue(s) => ArgsErrorView::MissingValue(s@),
            ArgsError::Encoding { arg, ty, cause } => ArgsErrorView::Encoding(arg@, ty@, cause@),
        }
    }
}

/// The Borsh encoding of all arguments, in IDL order, from the values by name.
pub open spec fn args_encoding(defs: Seq<IdlArg>, values: Map<Seq<char>, ArgValue>) -> Result<Seq<u8>, ArgsErrorView>
    decreases defs.len(),
{
    if defs.len() == 0 {
        Ok(Seq::<u8>::empty())
    } else {
        let a = defs[0];
        match a.ty {
            IdlType::Complex(j) => Err(ArgsErrorView::ComplexType(j@)),
            IdlType::Simple(t) => if !values.contains_key(a.name@) {
                Err(ArgsErrorView::MissingValue(a.name@))
            } else {
                match borsh_encoding(values[a.name@], lowercase(t@), t@) {
                    Err(e) => Err(ArgsErrorView::Encoding(a.name@, t@, e)),
                    Ok(b) => match args_encoding(defs.drop_first(), values) {
                        Ok(rest) => Ok(b + rest),
                        Err(e) => Err(e),
                    },
                }
            },
        }
    }
}

/// Borsh-encodes all instruction args in IDL order.
pub fn borsh_encode_args(arg_defs: &[IdlArg], values: &StrMap<ArgValue>) -> (r: Result<Vec<u8>, ArgsError>)
    requires
        values.wf(),
    ensures
        match r {
            Ok(b) => args_encoding(arg_defs@, values.view()) == Ok::<Seq<u8>, ArgsErrorView>(b@),
            Err(e) => args_encoding(arg_defs@, values.view()) == Err::<Seq<u8>, ArgsErrorView>(e@),
        },
{
    let mut out: Vec<u8> = Vec::new();
    let mut i: usize = 0;
    let n = arg_defs.len();
    proof {
        assert(arg_defs@.skip(0) =~= arg_defs@);
        match args_encoding(arg_defs@, values.view()) {
            Ok(rest) => {
                assert(out@ + rest =~= rest);
            },
            Err(_) => {},
        }
    }
    while i < n
        invariant
            n == arg_defs@.len(),
            i <= n,
            values.wf(),
            args_encoding(arg_defs@, values.view()) == match args_encoding(
                arg_defs@.skip(i as int),
                values.view(),
            ) {
                Ok(rest) => Ok(out@ + rest),
                Err(e) => Err::<Seq<u8>, ArgsErrorView>(e),
            },
        decreases n - i,
    {
        let arg = &arg_defs[i];
        let ghost defs = arg_defs@.skip(i as int);
        assert(defs[0] == *arg);
        assert(defs.drop_first() =~= arg_defs@.skip(i + 1));
        let ty_str = match &arg.ty {
            IdlType::Simple(s) => s.clone(),
            IdlType::Complex(v) => {
                return Err(ArgsError::ComplexType(v.clone()));
            },
        };
        let val = match values.get(arg.name.as_str()) {
            Some(v) => v,
            None => {
                return Err(ArgsError::MissingValue(arg.name.clone()));
            },
        };
        match borsh_encode_value(val, ty_str.as_str()) {
            Ok(encoded) => {
                let ghost before = out@;
                append_bytes(&mut out, encoded.as_slice());
                proof {
                    match args_encoding(arg_defs@.skip(i + 1), values.view()) {
                        Ok(rest) => {
                            assert(before + (encoded@ + rest) =~= out@ + rest);
                        },
                        Err(_) => {},
                    }
                }
            },
            Err(e) => {
                return Err(ArgsError::Encoding { arg: arg.name.clone(), ty: ty_str, cause: e });
            },
        }
        i += 1;
    }
    assert(arg_defs@.skip(n as int) =~= Seq::<IdlArg>::empty());
    assert(out@ + Seq::<u8>::empty() =~= out@);
    Ok(out)
}

/// Prepends the discriminator to the Borsh-encoded arg bytes.
pub fn build_instruction_data(discriminator: &[u8], arg_bytes: &[u8]) -> (r: Vec<u8>)
    ensures
        r@ == discriminator@ + arg_bytes@,
{
    let mut data = crate::idl::copy_bytes(discriminator);
    append_bytes(&mut data, arg_bytes);
    data
}

} // verus!
