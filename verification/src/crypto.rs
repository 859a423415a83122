//! Ed25519 operations, provided by `ed25519-dalek`.
//!
//! Keys and signatures travel through the library as plain byte arrays:
//! a public key is the 32-byte compressed Edwards point, a secret key is
//! the 32-byte seed, and a signature is the 64-byte `R || s` encoding.

use ed25519_dalek::Signer;
use vstd::prelude::*;

verus! {

/// Whether Ed25519 strict verification accepts `signature` over `message`
/// under the public key whose compressed encoding is `public_key`.
pub uninterp spec fn strict_signature_valid(
    public_key: Seq<u8>,
    message: Seq<u8>,
    signature: Seq<u8>,
) -> bool;

/// The compressed public key that Ed25519 derives from the secret seed.
pub uninterp spec fn ed25519_public_key(secret_key: Seq<u8>) -> Seq<u8>;

/// The (deterministic) Ed25519 signature of `message` under the secret seed.
pub uninterp spec fn ed25519_signature(secret_key: Seq<u8>, message: Seq<u8>) -> Seq<u8>;

/// Calls `ed25519_dalek::VerifyingKey::verify_strict`.
///
/// The public key bytes are first decompressed with
/// `VerifyingKey::from_bytes`; bytes that are not a point on the curve give
/// `false`, as no key exists for them. The claim is only that the answer is
/// the (pure) function `strict_signature_valid` of the three byte strings;
/// nothing is stated about which inputs that function accepts.
#[verifier::external_body]
pub(crate) fn verify_strict(public_key: &[u8; 32], message: &[u8], signature: &[u8; 64]) -> (ok:
    bool)
    ensures
        ok == strict_signature_valid(public_key@, message@, signature@),
{
    match ed25519_dalek::VerifyingKey::from_bytes(public_key) {
        Ok(key) => key.verify_strict(message, &ed25519_dalek::Signature::from_bytes(signature)).is_ok(),
        Err(_) => false,
    }
}

/// Calls `ed25519_dalek::SigningKey::verifying_key` on the signing key built
/// from the seed by `SigningKey::from_bytes`, and returns the key's 32-byte
/// encoding. The claim is that the result is the function
/// `ed25519_public_key` of the seed.
#[verifier::external_body]
pub(crate) fn public_key_of(secret_key: &[u8; 32]) -> (public_key: [u8; 32])
    ensures
        public_key@ == ed25519_public_key(secret_key@),
{
    ed25519_dalek::SigningKey::from_bytes(secret_key).verifying_key().to_bytes()
}

/// Calls `Signer::sign` of `ed25519_dalek::SigningKey` (built from the seed
/// by `SigningKey::from_bytes`) and returns the 64-byte signature. Ed25519
/// signing is deterministic, so the claim is that the result is the function
/// `ed25519_signature` of the seed and the message.
#[verifier::external_body]
pub(crate) fn sign(secret_key: &[u8; 32], message: &[u8]) -> (signature: [u8; 64])
    ensures
        signature@ == ed25519_signature(secret_key@, message@),
{
    ed25519_dalek::SigningKey::from_bytes(secret_key).sign(message).to_bytes()
}

} // verus!
