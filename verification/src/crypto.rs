//! Digests and signatures.

use vstd::prelude::*;
use ed25519_dalek::{Signature, Signer, SigningKey, VerifyingKey};
use sha2::{Digest, Sha256};

verus! {

/// The SHA-256 digest of `bytes`.
pub uninterp spec fn sha256_of(bytes: Seq<u8>) -> Seq<u8>;

/// Whether `bytes` are the encoding of a point that can be an Ed25519 public key.
pub uninterp spec fn decodes_as_key(bytes: Seq<u8>) -> bool;

/// Whether `signature` is a valid Ed25519 signature of `message` under `public_key` by strict
/// verification.
pub uninterp spec fn signature_holds(
    public_key: Seq<u8>,
    message: Seq<u8>,
    signature: Seq<u8>,
) -> bool;

/// The Ed25519 public key that belongs to a secret key.
pub uninterp spec fn public_key_for(secret_key: Seq<u8>) -> Seq<u8>;

/// The Ed25519 signature of `message` by a secret key.
pub uninterp spec fn signature_by(secret_key: Seq<u8>, message: Seq<u8>) -> Seq<u8>;

/// The first half of the signature is the encoding of the neutral point, which strict verification
/// refuses.
pub open spec fn starts_neutral(signature: Seq<u8>) -> bool {
    signature[0] == 1 && forall|i: int| 1 <= i < 32 ==> #[trigger] signature[i] == 0
}

/// `sha2::Sha256::digest`: the digest is a function of the bytes. What function it is, is left to that
/// crate.
#[verifier::external_body]
pub(crate) fn sha256(bytes: &[u8]) -> (digest: [u8; 32])
    ensures
        digest@ == sha256_of(bytes@),
{
    Sha256::digest(bytes).into()
}

/// `ed25519_dalek::VerifyingKey::from_bytes`: whether it accepts the bytes depends on them alone.
#[verifier::external_body]
pub(crate) fn is_public_key(bytes: &[u8; 32]) -> (accepted: bool)
    ensures
        accepted == decodes_as_key(bytes@),
{
    VerifyingKey::from_bytes(bytes).is_ok()
}

/// `ed25519_dalek::VerifyingKey::verify_strict`, of a key that decodes: whether it accepts the
/// signature depends on the key, the message and the signature alone.
#[verifier::external_body]
pub(crate) fn verify_signature(public_key: &[u8; 32], message: &[u8], signature: &[u8; 64]) -> (
accepted: bool)
    requires
        decodes_as_key(public_key@),
    ensures
        accepted == signature_holds(public_key@, message@, signature@),
{
    match VerifyingKey::from_bytes(public_key) {
        Ok(key) => key.verify_strict(message, &Signature::from_bytes(signature)).is_ok(),
        Err(_) => false,
    }
}

/// `ed25519_dalek::SigningKey::verifying_key`: the public key is a function of the secret key, and it is
/// the encoding of a point, which `VerifyingKey::from_bytes` accepts.
#[verifier::external_body]
pub(crate) fn derive_public_key(secret_key: &[u8; 32]) -> (public_key: [u8; 32])
    ensures
        public_key@ == public_key_for(secret_key@),
        decodes_as_key(public_key@),
{
    SigningKey::from_bytes(secret_key).verifying_key().to_bytes()
}

/// `ed25519_dalek::SigningKey::sign`: the signature is a function of the secret key and the message, and
/// `VerifyingKey::verify_strict` accepts it under the public key that belongs to the secret key, unless
/// the point in its first half is the neutral one. That no message leads to that point is not stated.
#[verifier::external_body]
pub(crate) fn sign_message(secret_key: &[u8; 32], message: &[u8]) -> (signature: [u8; 64])
    ensures
        signature@ == signature_by(secret_key@, message@),
        !starts_neutral(signature@) ==> signature_holds(
            public_key_for(secret_key@),
            message@,
            signature@,
        ),
{
    SigningKey::from_bytes(secret_key).sign(message).to_bytes()
}

} // verus!
