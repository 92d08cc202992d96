//! Calls into the outside encoders and decoders (base58, base64, JSON, Unicode case
//! mapping, UTF-8 validation), each with the contract that its source documents.

use vstd::prelude::*;
use vstd::utf8::*;
use base64::Engine;

verus! {

/// The bytes that `bs58::decode(s).into_vec()` gives back for the text `s`
/// (Bitcoin alphabet), or `None` where it reports an error.
pub uninterp spec fn base58_decoded(s: Seq<char>) -> Option<Seq<u8>>;

/// The text that `bs58::encode(bytes).into_string()` gives back (Bitcoin alphabet).
pub uninterp spec fn base58_encoded(bytes: Seq<u8>) -> Seq<char>;

/// The bytes that `base64::Engine::decode` gives back for `s`, or `None` where it
/// reports an error; `url_safe_no_pad` tells which engine: `URL_SAFE_NO_PAD` when
/// true, `STANDARD` when false.
pub uninterp spec fn base64_decoded(url_safe_no_pad: bool, s: Seq<char>) -> Option<Seq<u8>>;

/// The byte array that `serde_json::from_str::<Vec<u8>>` reads from `text`, or
/// `None` where it reports an error.
pub uninterp spec fn json_byte_array(text: Seq<char>) -> Option<Seq<u8>>;

/// The characters that `str::to_lowercase` gives back for `s` (Unicode lowercase mapping).
pub uninterp spec fn lowercase(s: Seq<char>) -> Seq<char>;

/// `bs58::decode(s).into_vec()`: the contract names its outcome `base58_decoded(s)`;
/// nothing more of the decoding is claimed.
#[verifier::external_body]
pub(crate) fn base58_decode(s: &str) -> (r: Option<Vec<u8>>)
    ensures
        match r {
            Some(v) => base58_decoded(s@) == Some(v@),
            None => base58_decoded(s@) is None,
        },
{
    bs58::decode(s).into_vec().ok()
}

/// `bs58::encode(bytes).into_string()`: the contract names the text
/// `base58_encoded(bytes)` and claims the property that makes it an encoding, that
/// `bs58::decode` reads the same bytes back from it.
#[verifier::external_body]
pub(crate) fn base58_encode(bytes: &[u8]) -> (r: String)
    ensures
        r@ == base58_encoded(bytes@),
        base58_decoded(r@) == Some(bytes@),
{
    bs58::encode(bytes).into_string()
}

/// `base64::engine::general_purpose::STANDARD.decode(s)`, with its outcome named.
#[verifier::external_body]
pub(crate) fn base64_standard_decode(s: &str) -> (r: Option<Vec<u8>>)
    ensures
        match r {
            Some(v) => base64_decoded(false, s@) == Some(v@),
            None => base64_decoded(false, s@) is None,
        },
{
    base64::engine::general_purpose::STANDARD.decode(s).ok()
}

/// `base64::engine::general_purpose::URL_SAFE_NO_PAD.decode(s)`, with its outcome named.
#[verifier::external_body]
pub(crate) fn base64_url_safe_no_pad_decode(s: &str) -> (r: Option<Vec<u8>>)
    ensures
        match r {
            Some(v) => base64_decoded(true, s@) == Some(v@),
            None => base64_decoded(true, s@) is None,
        },
{
    base64::engine::general_purpose::URL_SAFE_NO_PAD.decode(s).ok()
}

/// `serde_json::from_str::<Vec<u8>>(text)`, with its outcome named.
#[verifier::external_body]
pub(crate) fn parse_json_byte_array(text: &str) -> (r: Option<Vec<u8>>)
    ensures
        match r {
            Some(v) => json_byte_array(text@) == Some(v@),
            None => json_byte_array(text@) is None,
        },
{
    serde_json::from_str::<Vec<u8>>(text).ok()
}

/// `str::to_lowercase`, with its result named.
#[verifier::external_body]
pub(crate) fn to_lowercase(s: &str) -> (r: String)
    ensures
        r@ == lowercase(s@),
{
    s.to_lowercase()
}

/// `String::from_utf8`: succeeds exactly on valid UTF-8, and then holds the decoded
/// characters, as the standard library documents.
#[verifier::external_body]
pub(crate) fn string_from_utf8(bytes: Vec<u8>) -> (r: Option<String>)
    ensures
        r is Some <==> valid_utf8(bytes@),
        r matches Some(s) ==> s@ == decode_utf8(bytes@),
{
    String::from_utf8(bytes).ok()
}

} // verus!
