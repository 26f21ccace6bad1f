//! Signed releases of the kernel.

use vstd::arithmetic::div_mod::lemma_fundamental_div_mod_converse;
use vstd::prelude::*;
use crate::bytes::{
    array_at, bytes_equal, le16, le16_bytes, le32, le32_bytes, le64, le64_bytes, zero_between,
};
use crate::crypto::{
    decodes_as_key, derive_public_key, is_public_key, public_key_for, sha256, sha256_of,
    sign_message, signature_by, signature_holds, starts_neutral, verify_signature,
};
use crate::update_format::{
    ManifestError, UpdateManifest, KEY_ID_BYTES, LEGACY_MANIFEST_BYTES,
    LEGACY_MANIFEST_FORMAT_VERSION, MANIFEST_BYTES, MANIFEST_FORMAT_VERSION, MANIFEST_MAGIC,
    PUBLIC_KEY_BYTES, SHA256_BYTES, SIGNING_BYTES,
};

verus! {

/// Why a release is not accepted.
#[derive(Debug, Clone, Copy, PartialEq, Eq, Structural)]
pub enum ReleaseError {
    Manifest(ManifestError),
    KernelSizeMismatch,
    KernelHashMismatch,
    KeyIdMismatch,
    NextTrustKeyInvalid,
    NextTrustKeyIdMismatch,
    SigningKeyInvalid,
    SignatureInvalid,
}

/// What a public key is known by: the start of its digest.
pub open spec fn key_id_of(public_key: Seq<u8>) -> Seq<u8> {
    sha256_of(public_key).take(KEY_ID_BYTES as int)
}

/// What a public key with this digest is known by.
pub fn key_id_from_digest(digest: &[u8; SHA256_BYTES]) -> (key_id: [u8; KEY_ID_BYTES])
    ensures
        key_id@ == digest@.take(KEY_ID_BYTES as int),
{
    let key_id: [u8; KEY_ID_BYTES] = array_at(digest.as_slice(), 0);
    assert(key_id@ =~= digest@.take(KEY_ID_BYTES as int));
    key_id
}

/// What a public key is known by.
pub fn key_id_for_public_key(public_key: &[u8; PUBLIC_KEY_BYTES]) -> (key_id: [u8; KEY_ID_BYTES])
    ensures
        key_id@ == key_id_of(public_key@),
{
    key_id_from_digest(&sha256(public_key.as_slice()))
}

/// The bytes of a manifest that its signature is of.
pub open spec fn signed_message(manifest: UpdateManifest) -> Seq<u8> {
    let legacy = manifest.legacy();
    let head = MANIFEST_MAGIC@ + le32_bytes(
        if legacy {
            LEGACY_MANIFEST_FORMAT_VERSION as int
        } else {
            MANIFEST_FORMAT_VERSION as int
        },
    ) + le32_bytes(
        if legacy {
            LEGACY_MANIFEST_BYTES as int
        } else {
            MANIFEST_BYTES as int
        },
    ) + le64_bytes(manifest.release_version as int) + le64_bytes(manifest.kernel_size as int)
        + manifest.kernel_sha256@ + manifest.key_id@;
    if legacy {
        head
    } else {
        head + manifest.next_trust_public_key@ + manifest.next_trust_key_id@ + Seq::new(
            32,
            |i: int| 0u8,
        )
    }
}

proof fn lemma_le16_at(s: Seq<u8>, at: int)
    requires
        0 <= at,
        at + 2 <= s.len(),
    ensures
        0 <= le16(s, at) < 0x1_0000,
        le16_bytes(le16(s, at)) == s.subrange(at, at + 2),
{
    lemma_fundamental_div_mod_converse(le16(s, at), 0x100, s[at + 1] as int, s[at] as int);
    assert(le16_bytes(le16(s, at)) =~= s.subrange(at, at + 2));
}

proof fn lemma_le32_at(s: Seq<u8>, at: int)
    requires
        0 <= at,
        at + 4 <= s.len(),
    ensures
        0 <= le32(s, at) < 0x1_0000_0000,
        le32_bytes(le32(s, at)) == s.subrange(at, at + 4),
{
    lemma_le16_at(s, at);
    lemma_le16_at(s, at + 2);
    lemma_fundamental_div_mod_converse(le32(s, at), 0x1_0000, le16(s, at + 2), le16(s, at));
    assert(s.subrange(at, at + 4) =~= s.subrange(at, at + 2) + s.subrange(at + 2, at + 4));
}

proof fn lemma_le64_at(s: Seq<u8>, at: int)
    requires
        0 <= at,
        at + 8 <= s.len(),
    ensures
        le64_bytes(le64(s, at)) == s.subrange(at, at + 8),
{
    lemma_le32_at(s, at);
    lemma_le32_at(s, at + 4);
    lemma_fundamental_div_mod_converse(le64(s, at), 0x1_0000_0000, le32(s, at + 4), le32(s, at));
    assert(s.subrange(at, at + 8) =~= s.subrange(at, at + 4) + s.subrange(at + 4, at + 8));
}

/// The parts of a signing image that come before the next key.
proof fn lemma_head_parts(image: Seq<u8>)
    requires
        image.len() == SIGNING_BYTES,
    ensures
        image.take(80) == image.subrange(0, 8) + image.subrange(8, 12) + image.subrange(12, 16)
            + image.subrange(16, 24) + image.subrange(24, 32) + image.subrange(32, 64)
            + image.subrange(64, 80),
{
    assert(image.take(80) =~= image.subrange(0, 8) + image.subrange(8, 12) + image.subrange(12, 16)
        + image.subrange(16, 24) + image.subrange(24, 32) + image.subrange(32, 64)
        + image.subrange(64, 80));
}

/// The parts of a signing image that come from the next key on.
proof fn lemma_tail_parts(image: Seq<u8>)
    requires
        image.len() == SIGNING_BYTES,
        zero_between(image, 128, 160),
    ensures
        image.take(160) == image.take(80) + image.subrange(80, 112) + image.subrange(112, 128)
            + Seq::new(32, |i: int| 0u8),
{
    assert(image.take(160) =~= image.take(80) + image.subrange(80, 112) + image.subrange(112, 128)
        + Seq::new(32, |i: int| 0u8));
}

/// The signed part of a signing image.
pub proof fn lemma_signed_message(manifest: UpdateManifest, image: Seq<u8>)
    requires
        manifest.signing_image(image),
    ensures
        image.take(manifest.signed_length()) == signed_message(manifest),
{
    lemma_le32_at(image, 8);
    lemma_le32_at(image, 12);
    lemma_le64_at(image, 16);
    lemma_le64_at(image, 24);
    lemma_head_parts(image);
    if !manifest.legacy() {
        lemma_tail_parts(image);
    }
}

/// The bytes of a manifest that its signature is of.
pub fn message_to_sign(manifest: &UpdateManifest) -> (message: Vec<u8>)
    ensures
        message@ == signed_message(*manifest),
{
    let image = manifest.signing_bytes();
    let message = crate::bytes::copy_range(image.as_slice(), 0, manifest.signing_len());
    proof {
        lemma_signed_message(*manifest, image@);
        assert(message@ =~= image@.take(manifest.signed_length()));
    }
    message
}

/// What has been found out about a release and the key that it is checked with.
#[derive(Debug, Clone, Copy)]
pub struct ReleaseFacts {
    pub kernel_size: u64,
    pub kernel_sha256: [u8; SHA256_BYTES],
    pub key_id: [u8; KEY_ID_BYTES],
    /// Whether the next key of the manifest can be a public key.
    pub next_key_decodes: bool,
    /// What the next key of the manifest is known by.
    pub next_key_id: [u8; KEY_ID_BYTES],
    pub signature_holds: bool,
}

/// Why a next key that a manifest names is not accepted.
pub open spec fn next_key_verdict(manifest: UpdateManifest, decodes: bool, key_id: Seq<u8>) -> Option<
    ReleaseError,
> {
    if !manifest.names_next_trust_key() {
        None
    } else if !decodes {
        Some(ReleaseError::NextTrustKeyInvalid)
    } else if key_id != manifest.next_trust_key_id@ {
        Some(ReleaseError::NextTrustKeyIdMismatch)
    } else {
        None
    }
}

/// Why a release is not accepted, by what has been found out about it.
pub open spec fn verdict(manifest: UpdateManifest, facts: ReleaseFacts) -> Option<ReleaseError> {
    if facts.kernel_size != manifest.kernel_size {
        Some(ReleaseError::KernelSizeMismatch)
    } else if facts.kernel_sha256@ != manifest.kernel_sha256@ {
        Some(ReleaseError::KernelHashMismatch)
    } else if facts.key_id@ != manifest.key_id@ {
        Some(ReleaseError::KeyIdMismatch)
    } else if next_key_verdict(manifest, facts.next_key_decodes, facts.next_key_id@) is Some {
        next_key_verdict(manifest, facts.next_key_decodes, facts.next_key_id@)
    } else if !facts.signature_holds {
        Some(ReleaseError::SignatureInvalid)
    } else {
        None
    }
}

/// Why a release is not accepted, by what has been found out about it.
pub fn judge_release(manifest: &UpdateManifest, facts: &ReleaseFacts) -> (error: Option<ReleaseError>)
    ensures
        error == verdict(*manifest, *facts),
{
    if facts.kernel_size != manifest.kernel_size {
        return Some(ReleaseError::KernelSizeMismatch);
    }
    if !bytes_equal(facts.kernel_sha256.as_slice(), manifest.kernel_sha256.as_slice()) {
        return Some(ReleaseError::KernelHashMismatch);
    }
    if !bytes_equal(facts.key_id.as_slice(), manifest.key_id.as_slice()) {
        return Some(ReleaseError::KeyIdMismatch);
    }
    if manifest.has_next_trust_key() {
        if !facts.next_key_decodes {
            return Some(ReleaseError::NextTrustKeyInvalid);
        }
        if !bytes_equal(facts.next_key_id.as_slice(), manifest.next_trust_key_id.as_slice()) {
            return Some(ReleaseError::NextTrustKeyIdMismatch);
        }
    }
    if !facts.signature_holds {
        return Some(ReleaseError::SignatureInvalid);
    }
    None
}

/// Why a next key that a manifest names is not accepted.
pub open spec fn next_key_fault(manifest: UpdateManifest) -> Option<ReleaseError> {
    next_key_verdict(
        manifest,
        decodes_as_key(manifest.next_trust_public_key@),
        key_id_of(manifest.next_trust_public_key@),
    )
}

/// Checks the next key that a manifest names.
pub fn validate_manifest_next_trust_key(manifest: &UpdateManifest) -> (result: Result<
    (),
    ReleaseError,
>)
    ensures
        result == match next_key_fault(*manifest) {
            Some(error) => Err::<(), ReleaseError>(error),
            None => Ok(()),
        },
{
    if !manifest.has_next_trust_key() {
        return Ok(());
    }
    if !is_public_key(&manifest.next_trust_public_key) {
        return Err(ReleaseError::NextTrustKeyInvalid);
    }
    let next_key_id = key_id_for_public_key(&manifest.next_trust_public_key);
    if !bytes_equal(next_key_id.as_slice(), manifest.next_trust_key_id.as_slice()) {
        return Err(ReleaseError::NextTrustKeyIdMismatch);
    }
    Ok(())
}

/// Why a release is not accepted under a key that can be a public key.
pub open spec fn release_fault(kernel: Seq<u8>, manifest: UpdateManifest, public_key: Seq<u8>) -> Option<
    ReleaseError,
> {
    if kernel.len() != manifest.kernel_size {
        Some(ReleaseError::KernelSizeMismatch)
    } else if sha256_of(kernel) != manifest.kernel_sha256@ {
        Some(ReleaseError::KernelHashMismatch)
    } else if key_id_of(public_key) != manifest.key_id@ {
        Some(ReleaseError::KeyIdMismatch)
    } else if next_key_fault(manifest) is Some {
        next_key_fault(manifest)
    } else if !signature_holds(public_key, signed_message(manifest), manifest.signature@) {
        Some(ReleaseError::SignatureInvalid)
    } else {
        None
    }
}

/// Checks a release with a key.
pub fn verify_signed_release_with_key(
    kernel: &[u8],
    encoded_manifest: &[u8],
    public_key: &[u8; PUBLIC_KEY_BYTES],
) -> (result: Result<UpdateManifest, ReleaseError>)
    ensures
        if !decodes_as_key(public_key@) {
            result == Err::<UpdateManifest, ReleaseError>(ReleaseError::SigningKeyInvalid)
        } else {
            match UpdateManifest::fault(encoded_manifest@) {
                Some(error) => result == Err::<UpdateManifest, ReleaseError>(
                    ReleaseError::Manifest(error),
                ),
                None => match result {
                    Ok(manifest) => {
                        &&& manifest.read_from(encoded_manifest@)
                        &&& release_fault(kernel@, manifest, public_key@) is None
                    },
                    Err(error) => forall|manifest: UpdateManifest| #[trigger]
                        manifest.read_from(encoded_manifest@) ==> release_fault(
                            kernel@,
                            manifest,
                            public_key@,
                        ) == Some(error),
                },
            }
        },
{
    if !is_public_key(public_key) {
        return Err(ReleaseError::SigningKeyInvalid);
    }
    let manifest = match UpdateManifest::decode(encoded_manifest) {
        Ok(manifest) => manifest,
        Err(error) => return Err(ReleaseError::Manifest(error)),
    };
    let message = message_to_sign(&manifest);
    let facts = ReleaseFacts {
        kernel_size: kernel.len() as u64,
        kernel_sha256: sha256(kernel),
        key_id: key_id_for_public_key(public_key),
        next_key_decodes: is_public_key(&manifest.next_trust_public_key),
        next_key_id: key_id_for_public_key(&manifest.next_trust_public_key),
        signature_holds: verify_signature(public_key, message.as_slice(), &manifest.signature),
    };
    match judge_release(&manifest, &facts) {
        Some(error) => {
            proof {
                assert forall|other: UpdateManifest| #[trigger]
                    other.read_from(encoded_manifest@) implies release_fault(
                    kernel@,
                    other,
                    public_key@,
                ) == Some(error) by {
                    lemma_same_fault(kernel@, encoded_manifest@, public_key@, manifest, other);
                }
            }
            Err(error)
        },
        None => Ok(manifest),
    }
}

/// What is read from the same bytes has the same fault.
proof fn lemma_same_fault(
    kernel: Seq<u8>,
    encoded: Seq<u8>,
    public_key: Seq<u8>,
    a: UpdateManifest,
    b: UpdateManifest,
)
    requires
        a.read_from(encoded),
        b.read_from(encoded),
    ensures
        release_fault(kernel, a, public_key) == release_fault(kernel, b, public_key),
{
    if a.legacy() {
        assert(a.next_trust_public_key@ =~= b.next_trust_public_key@);
        assert(a.next_trust_key_id@ =~= b.next_trust_key_id@);
    }
    assert(signed_message(a) =~= signed_message(b));
}

/// Whether a manifest is of this release, signed with this secret key.
pub open spec fn signs(
    manifest: UpdateManifest,
    kernel: Seq<u8>,
    release_version: u64,
    secret_key: Seq<u8>,
    next_trust_key: Option<Seq<u8>>,
) -> bool {
    &&& manifest.format_version == MANIFEST_FORMAT_VERSION
    &&& manifest.release_version == release_version
    &&& manifest.kernel_size == kernel.len()
    &&& manifest.kernel_sha256@ == sha256_of(kernel)
    &&& manifest.key_id@ == key_id_of(public_key_for(secret_key))
    &&& match next_trust_key {
        Some(key) => manifest.next_trust_public_key@ == key && manifest.next_trust_key_id@
            == key_id_of(key),
        None => zero_between(manifest.next_trust_public_key@, 0, 32) && zero_between(
            manifest.next_trust_key_id@,
            0,
            16,
        ),
    }
    &&& manifest.signature@ == signature_by(secret_key, signed_message(manifest))
    &&& !starts_neutral(manifest.signature@) ==> signature_holds(
        public_key_for(secret_key),
        signed_message(manifest),
        manifest.signature@,
    )
    &&& decodes_as_key(public_key_for(secret_key))
}

/// The manifest of a release before it is signed.
pub fn unsigned_release(
    release_version: u64,
    kernel_size: u64,
    kernel_sha256: [u8; SHA256_BYTES],
    key_id: [u8; KEY_ID_BYTES],
    next_trust_key: Option<([u8; PUBLIC_KEY_BYTES], [u8; KEY_ID_BYTES])>,
) -> (manifest: UpdateManifest)
    ensures
        manifest.format_version == MANIFEST_FORMAT_VERSION,
        manifest.release_version == release_version,
        manifest.kernel_size == kernel_size,
        manifest.kernel_sha256@ == kernel_sha256@,
        manifest.key_id@ == key_id@,
        match next_trust_key {
            Some(next) => manifest.next_trust_public_key@ == next.0@ && manifest.next_trust_key_id@
                == next.1@,
            None => zero_between(manifest.next_trust_public_key@, 0, 32) && zero_between(
                manifest.next_trust_key_id@,
                0,
                16,
            ),
        },
        zero_between(manifest.signature@, 0, 64),
{
    match next_trust_key {
        Some(next) => UpdateManifest::unsigned_with_next_trust_key(
            release_version,
            kernel_size,
            kernel_sha256,
            key_id,
            next.0,
            next.1,
        ),
        None => UpdateManifest::unsigned(release_version, kernel_size, kernel_sha256, key_id),
    }
}

/// Signs a release: its stored manifest, which names the next key where there is one.
pub fn sign_kernel_release_with_identity(
    kernel: &[u8],
    release_version: u64,
    secret_key: &[u8; 32],
    next_trust_key: Option<[u8; PUBLIC_KEY_BYTES]>,
) -> (encoded: [u8; MANIFEST_BYTES])
    ensures
        exists|manifest: UpdateManifest| #[trigger]
            manifest.encoded_as(encoded@) && signs(
                manifest,
                kernel@,
                release_version,
                secret_key@,
                match next_trust_key {
                    Some(key) => Some(key@),
                    None => None,
                },
            ),
{
    let public_key = derive_public_key(secret_key);
    let key_id = key_id_for_public_key(&public_key);
    let next = match next_trust_key {
        Some(key) => Some((key, key_id_for_public_key(&key))),
        None => None,
    };
    let mut manifest = unsigned_release(
        release_version,
        kernel.len() as u64,
        sha256(kernel),
        key_id,
        next,
    );
    let message = message_to_sign(&manifest);
    manifest.signature = sign_message(secret_key, message.as_slice());
    let encoded = manifest.encode();
    assert(manifest.encoded_as(encoded@));
    encoded
}

/// A release that was signed is accepted under the key that it was signed with, where its manifest can
/// be stored and the signature does not start with the neutral point.
pub proof fn a_signed_release_is_accepted(
    manifest: UpdateManifest,
    encoded: Seq<u8>,
    kernel: Seq<u8>,
    release_version: u64,
    secret_key: Seq<u8>,
    next_trust_key: Option<Seq<u8>>,
    read: UpdateManifest,
)
    requires
        manifest.encoded_as(encoded),
        signs(manifest, kernel, release_version, secret_key, next_trust_key),
        manifest.valid(),
        next_trust_key is Some ==> decodes_as_key(next_trust_key.unwrap()),
        !starts_neutral(manifest.signature@),
        read.read_from(encoded),
    ensures
        decodes_as_key(public_key_for(secret_key)),
        UpdateManifest::fault(encoded) is None,
        release_fault(kernel, read, public_key_for(secret_key)) is None,
        read.release_version == release_version,
{
    crate::update_format::manifest_round_trip(manifest, encoded);
    assert(read.format_version == MANIFEST_FORMAT_VERSION);
    lemma_signed_message(manifest, encoded.subrange(0, 160));
    assert(signed_message(read) =~= signed_message(manifest));
}

/// A release whose kernel was changed is not accepted, unless the changed kernel has the same digest.
pub proof fn a_changed_kernel_is_refused(
    kernel: Seq<u8>,
    changed: Seq<u8>,
    manifest: UpdateManifest,
    public_key: Seq<u8>,
)
    requires
        release_fault(kernel, manifest, public_key) is None,
        sha256_of(changed) != sha256_of(kernel),
    ensures
        release_fault(changed, manifest, public_key) is Some,
{
}

/// A release is accepted if and only if size and digest of the kernel, the number of the key and the
/// signature all agree with the manifest, and the key to come, if one is named, decodes and has the
/// number that is given.
pub proof fn a_release_is_accepted_for_every_reason(
    kernel: Seq<u8>,
    manifest: UpdateManifest,
    public_key: Seq<u8>,
    facts: ReleaseFacts,
)
    ensures
        ({
            let named = exists|i: int|
                0 <= i < 32 && #[trigger] manifest.next_trust_public_key@[i] != 0;
            &&& release_fault(kernel, manifest, public_key) is None <==> {
                &&& kernel.len() == manifest.kernel_size
                &&& sha256_of(kernel) == manifest.kernel_sha256@
                &&& sha256_of(public_key).take(16) == manifest.key_id@
                &&& named ==> decodes_as_key(manifest.next_trust_public_key@) && sha256_of(
                    manifest.next_trust_public_key@,
                ).take(16) == manifest.next_trust_key_id@
                &&& signature_holds(public_key, signed_message(manifest), manifest.signature@)
            }
            &&& verdict(manifest, facts) is None <==> {
                &&& facts.kernel_size == manifest.kernel_size
                &&& facts.kernel_sha256@ == manifest.kernel_sha256@
                &&& facts.key_id@ == manifest.key_id@
                &&& named ==> facts.next_key_decodes && facts.next_key_id@
                    == manifest.next_trust_key_id@
                &&& facts.signature_holds
            }
        }),
{
}

} // verus!
