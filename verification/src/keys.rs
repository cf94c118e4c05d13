//! Ed25519 keys and signatures, as bytes.
use vstd::prelude::*;

use ed25519_dalek::Signer;

verus! {

/// Whether 32 bytes are the encoding of a point, and so of a public key.
pub uninterp spec fn ed25519_decodes(key: Seq<u8>) -> bool;

/// Whether a public key has small order, so that signatures under it mean nothing.
pub uninterp spec fn ed25519_weak(key: Seq<u8>) -> bool;

/// Whether a signature is good for a message under a public key, by the strict rules.
pub uninterp spec fn ed25519_verifies(key: Seq<u8>, message: Seq<u8>, signature: Seq<u8>) -> bool;

/// The signature of a message by a secret key.
pub uninterp spec fn ed25519_signature(secret: Seq<u8>, message: Seq<u8>) -> Seq<u8>;

/// The public key of a secret key.
pub uninterp spec fn ed25519_public(secret: Seq<u8>) -> Seq<u8>;

/// Calls `ed25519_dalek::VerifyingKey::from_bytes`, which fails where the bytes are
/// not the encoding of a point.
#[verifier::external_body]
pub(crate) fn key_decodes(key: &[u8]) -> (ok: bool)
    requires
        key@.len() == 32,
    ensures
        ok == ed25519_decodes(key@),
{
    ed25519_dalek::VerifyingKey::from_bytes(key.try_into().unwrap()).is_ok()
}

/// Calls `ed25519_dalek::VerifyingKey::is_weak` on a key that decodes.
#[verifier::external_body]
pub(crate) fn key_is_weak(key: &[u8]) -> (weak: bool)
    requires
        key@.len() == 32,
        ed25519_decodes(key@),
    ensures
        weak == ed25519_weak(key@),
{
    ed25519_dalek::VerifyingKey::from_bytes(key.try_into().unwrap()).unwrap().is_weak()
}

/// Calls `ed25519_dalek::VerifyingKey::verify_strict` with a key that decodes. Under
/// a weak key no signature is good.
#[verifier::external_body]
pub(crate) fn signature_verifies(key: &[u8], message: &[u8], signature: &[u8]) -> (good: bool)
    requires
        key@.len() == 32,
        ed25519_decodes(key@),
        signature@.len() == 64,
    ensures
        good == ed25519_verifies(key@, message@, signature@),
        ed25519_weak(key@) ==> !good,
{
    let public = ed25519_dalek::VerifyingKey::from_bytes(key.try_into().unwrap()).unwrap();
    let signature = ed25519_dalek::Signature::from_bytes(signature.try_into().unwrap());
    public.verify_strict(message, &signature).is_ok()
}

/// Calls `ed25519_dalek::SigningKey::sign`, which always gives the same 64 bytes for
/// the same key and message.
#[verifier::external_body]
pub(crate) fn signature_of(secret: &[u8], message: &[u8]) -> (signature: Vec<u8>)
    requires
        secret@.len() == 32,
    ensures
        signature@ == ed25519_signature(secret@, message@),
        signature@.len() == 64,
{
    let key = ed25519_dalek::SigningKey::from_bytes(secret.try_into().unwrap());
    key.sign(message).to_bytes().to_vec()
}

/// Calls `ed25519_dalek::SigningKey::verifying_key`: 32 bytes that decode.
#[verifier::external_body]
pub(crate) fn public_of(secret: &[u8]) -> (key: Vec<u8>)
    requires
        secret@.len() == 32,
    ensures
        key@ == ed25519_public(secret@),
        key@.len() == 32,
        ed25519_decodes(key@),
{
    let key = ed25519_dalek::SigningKey::from_bytes(secret.try_into().unwrap());
    key.verifying_key().to_bytes().to_vec()
}

} // verus!
