//! Calls into the outside cryptography crates (SHA-256, Edwards-curve point
//! decompression, Ed25519 signing), with their results named.

use vstd::prelude::*;
use sha2::Digest;
use ed25519_dalek::Signer;

verus! {

/// The SHA-256 digest of `data` (`sha2::Sha256`).
pub uninterp spec fn sha256_digest(data: Seq<u8>) -> Seq<u8>;

/// Whether `curve25519_dalek::edwards::CompressedEdwardsY(bytes).decompress()` finds a
/// curve point.
pub uninterp spec fn decompresses_to_point(bytes: Seq<u8>) -> bool;

/// The 64 signature bytes that `ed25519_dalek::SigningKey::from_bytes(seed).sign(message)`
/// gives (Ed25519 signing is deterministic).
pub uninterp spec fn ed25519_signature(seed: Seq<u8>, message: Seq<u8>) -> Seq<u8>;

/// `sha2::Sha256::digest(data)`: the 32 digest bytes, named.
#[verifier::external_body]
pub(crate) fn sha256(data: &[u8]) -> (r: [u8; 32])
    ensures
        r@ == sha256_digest(data@),
{
    sha2::Sha256::digest(data).into()
}

/// `CompressedEdwardsY(*bytes).decompress().is_some()`: whether the 32 bytes name a
/// point on the Ed25519 curve; the answer is named, not stated.
#[verifier::external_body]
pub(crate) fn is_on_curve(bytes: &[u8; 32]) -> (r: bool)
    ensures
        r == decompresses_to_point(bytes@),
{
    curve25519_dalek::edwards::CompressedEdwardsY(*bytes).decompress().is_some()
}

/// `SigningKey::from_bytes(seed).sign(message).to_bytes()`: the signature, named.
#[verifier::external_body]
pub(crate) fn ed25519_sign(seed: &[u8; 32], message: &[u8]) -> (r: [u8; 64])
    ensures
        r@ == ed25519_signature(seed@, message@),
{
    ed25519_dalek::SigningKey::from_bytes(seed).sign(message).to_bytes()
}

} // verus!
