//! Digests, keys and signatures.
use ed25519_dalek::Signer;
use ed25519_dalek::Verifier;
use rand::RngCore;
use vstd::prelude::*;

verus! {

/// The BLAKE3 digest of a byte string.
pub uninterp spec fn blake3_digest(data: Seq<u8>) -> Seq<u8>;

/// Whether thirty-two bytes are an Ed25519 public key.
pub uninterp spec fn ed25519_is_key(key: Seq<u8>) -> bool;

/// The Ed25519 public key of a secret key.
pub uninterp spec fn ed25519_public(secret: Seq<u8>) -> Seq<u8>;

/// The Ed25519 signature of a message under a secret key.
pub uninterp spec fn ed25519_signature(secret: Seq<u8>, message: Seq<u8>) -> Seq<u8>;

/// Whether a signature of a message is valid under an Ed25519 public key.
pub uninterp spec fn ed25519_verifies(key: Seq<u8>, message: Seq<u8>, signature: Seq<u8>) -> bool;

/// Whether bytes are a public key under which a signature of a message is valid.
pub open spec fn verifies_under_key(key: Seq<u8>, message: Seq<u8>, signature: Seq<u8>) -> bool {
    &&& key.len() == 32
    &&& ed25519_is_key(key)
    &&& ed25519_verifies(key, message, signature)
}

/// `blake3::hash` gives the BLAKE3 digest of its input, thirty-two bytes.
#[verifier::external_body]
pub(crate) fn blake3(data: &[u8]) -> (r: [u8; 32])
    ensures
        r@ == blake3_digest(data@),
{
    *blake3::hash(data).as_bytes()
}

/// `VerifyingKey::from_bytes` accepts thirty-two bytes that are a compressed
/// point of the curve, and refuses others. Of the error's text nothing is known.
#[verifier::external_body]
pub(crate) fn check_public_key(key: &[u8; 32]) -> (r: Result<(), String>)
    ensures
        r is Ok == ed25519_is_key(key@),
{
    ed25519_dalek::VerifyingKey::from_bytes(key).map(|_| ()).map_err(|e| e.to_string())
}

/// `Signature::from_slice` takes sixty-four bytes as a signature, and refuses
/// any other number. Of the error's text nothing is known.
#[verifier::external_body]
pub(crate) fn parse_signature(data: &[u8]) -> (r: Result<[u8; 64], String>)
    ensures
        match r {
            Ok(signature) => signature@ == data@,
            Err(_) => data@.len() != 64,
        },
{
    ed25519_dalek::Signature::from_slice(data).map(|s| s.to_bytes()).map_err(|e| e.to_string())
}

/// `SigningKey::verifying_key` derives the public key of a secret key, which is
/// a key that `VerifyingKey::from_bytes` accepts.
#[verifier::external_body]
pub(crate) fn public_key(secret: &[u8; 32]) -> (r: [u8; 32])
    ensures
        r@ == ed25519_public(secret@),
        ed25519_is_key(r@),
{
    ed25519_dalek::SigningKey::from_bytes(secret).verifying_key().to_bytes()
}

/// `SigningKey::sign` signs a message. The signature depends on the secret key
/// and the message alone, and is valid under the public key of the secret key.
#[verifier::external_body]
pub(crate) fn sign(secret: &[u8; 32], message: &[u8]) -> (r: [u8; 64])
    ensures
        r@ == ed25519_signature(secret@, message@),
        verifies_under_key(ed25519_public(secret@), message@, r@),
{
    ed25519_dalek::SigningKey::from_bytes(secret).sign(message).to_bytes()
}

/// `VerifyingKey::verify` tells whether a signature of a message is valid under
/// a public key; bytes that are no key verify nothing. Of the error's text
/// nothing is known.
#[verifier::external_body]
pub(crate) fn verify(key: &[u8; 32], message: &[u8], signature: &[u8; 64]) -> (r: Result<
    (),
    String,
>)
    ensures
        r is Ok == (ed25519_is_key(key@) && ed25519_verifies(key@, message@, signature@)),
{
    let key = ed25519_dalek::VerifyingKey::from_bytes(key).map_err(|e| e.to_string())?;
    let signature = ed25519_dalek::Signature::from_bytes(signature);
    key.verify(message, &signature).map_err(|e| e.to_string())
}

/// `RngCore::fill_bytes` fills an array with random bytes. Nothing is known of
/// them beforehand.
#[verifier::external_body]
pub(crate) fn random_bytes() -> (r: [u8; 32]) {
    let mut bytes = [0u8; 32];
    rand::rng().fill_bytes(&mut bytes);
    bytes
}

/// `iroh::SecretKey::generate` makes the secret key of a node at random, and
/// `SecretKey::to_bytes` gives its bytes. Nothing is known of them beforehand.
#[verifier::external_body]
pub(crate) fn generate_secret_key() -> (r: [u8; 32]) {
    iroh::SecretKey::generate().to_bytes()
}

} // verus!
