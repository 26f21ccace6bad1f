//! Which key releases are checked with, and which releases are accepted.

use vstd::prelude::*;
use vstd::utf8::encode_utf8;
use crate::bytes::{bytes_equal, get_le_u64, le64, put_le_u64};
use crate::crypto::{
    decodes_as_key, is_public_key, public_key_for, sha256, sha256_of, signature_holds, starts_neutral,
    verify_signature,
};
use crate::hex::{decode_hex_public_key, hex_fault, spelled};
use crate::release::{
    a_signed_release_is_accepted, key_id_for_public_key, key_id_of, message_to_sign, signed_message, signs,
};
use crate::update_format::{
    ManifestError, TrustRootState, UpdateManifest, KEY_ID_BYTES, PUBLIC_KEY_BYTES, SHA256_BYTES,
};

verus! {

/// The variable that the trust root is kept in.
pub const TRUST_ROOT_VARIABLE: &'static str = "CodexOsTrustRoot";

/// The variable that the highest release so far is kept in.
pub const HIGHEST_RELEASE_VARIABLE: &'static str = "CodexOsHighestRelease";

/// Why a kernel is not loaded.
#[derive(Debug, Clone, Copy, PartialEq, Eq, Structural)]
pub enum KernelLoadError {
    FileSystemUnavailable,
    BootStateUnavailable,
    BootStateRepairFailed,
    BootStateGenerationExhausted,
    InvalidPath,
    KernelReadFailed,
    ManifestReadFailed,
    ManifestInvalid(ManifestError),
    KernelSizeMismatch,
    KernelHashMismatch,
    TrustedKeyUnavailable,
    PersistedTrustRootInvalid,
    PersistedTrustRootUnavailable,
    NextTrustKeyInvalid,
    NextTrustKeyIdMismatch,
    TrustRootUpdateFailed,
    KeyIdMismatch,
    SignatureInvalid,
    RollbackStateUnavailable,
    RollbackDetected { candidate: u64, minimum: u64 },
    BootStateReleaseMismatch,
    BothSystemSlotsUnavailable,
    InvalidElf,
    StagingFailed,
}

/// Where a trust root comes from.
#[derive(Debug, Clone, Copy, PartialEq, Eq, Structural)]
pub enum TrustRootSource {
    Embedded,
    Persisted,
}

impl TrustRootSource {
    pub fn as_str(self) -> (name: &'static str)
        ensures
            name@ == match self {
                TrustRootSource::Embedded => "embedded"@,
                TrustRootSource::Persisted => "persisted"@,
            },
    {
        match self {
            TrustRootSource::Embedded => "embedded",
            TrustRootSource::Persisted => "persisted",
        }
    }
}

/// The key that releases are checked with.
#[derive(Debug, Clone, Copy)]
pub struct TrustRoot {
    pub public_key: [u8; PUBLIC_KEY_BYTES],
    pub key_id: [u8; KEY_ID_BYTES],
    pub source: TrustRootSource,
    pub activation_release_version: u64,
}

/// What the firmware says of a variable.
#[derive(Debug)]
pub enum Variable {
    Missing,
    Unreadable,
    Value(Vec<u8>),
}

/// The key that the loader was built with.
pub fn embedded_trusted_public_key(encoded: Option<&str>) -> (key: Option<[u8; PUBLIC_KEY_BYTES]>)
    ensures
        match encoded {
            None => key is None,
            Some(text) => {
                &&& key is Some == hex_fault(encode_utf8(text@)) is None
                &&& key is Some ==> spelled(encode_utf8(text@), key.unwrap()@)
            },
        },
{
    match encoded {
        None => None,
        Some(text) => match decode_hex_public_key(text) {
            Ok(key) => Some(key),
            Err(_) => None,
        },
    }
}

/// The trust root that a stored state gives, by whether its key can be a public key and what that key
/// is known by.
pub fn trust_root_from_state(state: TrustRootState, decodes: bool, key_id: [u8; KEY_ID_BYTES]) -> (root:
    Result<TrustRoot, KernelLoadError>)
    ensures
        match root {
            Ok(root) => {
                &&& decodes
                &&& key_id@ == state.key_id@
                &&& root == (TrustRoot {
                    public_key: state.public_key,
                    key_id: state.key_id,
                    source: TrustRootSource::Persisted,
                    activation_release_version: state.activation_release_version,
                })
            },
            Err(error) => error == KernelLoadError::PersistedTrustRootInvalid && !(decodes && key_id@
                == state.key_id@),
        },
{
    if !decodes || !bytes_equal(key_id.as_slice(), state.key_id.as_slice()) {
        return Err(KernelLoadError::PersistedTrustRootInvalid);
    }
    Ok(
        TrustRoot {
            public_key: state.public_key,
            key_id: state.key_id,
            source: TrustRootSource::Persisted,
            activation_release_version: state.activation_release_version,
        },
    )
}

/// Whether a stored trust root can be used.
pub open spec fn usable_root(value: Seq<u8>) -> bool {
    &&& TrustRootState::fault(value) is None
    &&& decodes_as_key(value.subrange(24, 56))
    &&& key_id_of(value.subrange(24, 56)) == value.subrange(56, 72)
}

/// Why there is no trust root.
pub open spec fn trust_root_fault(encoded: Option<&str>, stored: Variable) -> Option<KernelLoadError> {
    if encoded is None || hex_fault(encode_utf8(encoded.unwrap()@)) is Some {
        Some(KernelLoadError::TrustedKeyUnavailable)
    } else {
        match stored {
            Variable::Missing => None,
            Variable::Unreadable => Some(KernelLoadError::PersistedTrustRootUnavailable),
            Variable::Value(value) => if usable_root(value@) {
                None
            } else {
                Some(KernelLoadError::PersistedTrustRootInvalid)
            },
        }
    }
}

/// Whether this is the trust root.
pub open spec fn is_trust_root(encoded: Option<&str>, stored: Variable, root: TrustRoot) -> bool {
    match stored {
        Variable::Value(value) => {
            &&& root.public_key@ == value@.subrange(24, 56)
            &&& root.key_id@ == value@.subrange(56, 72)
            &&& root.source == TrustRootSource::Persisted
            &&& root.activation_release_version == le64(value@, 16)
        },
        _ => {
            &&& spelled(encode_utf8(encoded.unwrap()@), root.public_key@)
            &&& root.key_id@ == key_id_of(root.public_key@)
            &&& root.source == TrustRootSource::Embedded
            &&& root.activation_release_version == 0
        },
    }
}

/// The key that releases are checked with: the stored one, or else the one that the loader was built
/// with.
pub fn active_trust_root(encoded: Option<&str>, stored: &Variable) -> (root: Result<
    TrustRoot,
    KernelLoadError,
>)
    ensures
        match root {
            Ok(root) => trust_root_fault(encoded, *stored) is None && is_trust_root(
                encoded,
                *stored,
                root,
            ),
            Err(error) => trust_root_fault(encoded, *stored) == Some(error),
        },
{
    let embedded_key = match embedded_trusted_public_key(encoded) {
        Some(key) => key,
        None => return Err(KernelLoadError::TrustedKeyUnavailable),
    };
    match stored {
        Variable::Missing => Ok(
            TrustRoot {
                public_key: embedded_key,
                key_id: key_id_for_public_key(&embedded_key),
                source: TrustRootSource::Embedded,
                activation_release_version: 0,
            },
        ),
        Variable::Unreadable => Err(KernelLoadError::PersistedTrustRootUnavailable),
        Variable::Value(value) => {
            let state = match TrustRootState::decode(value.as_slice()) {
                Ok(state) => state,
                Err(_) => return Err(KernelLoadError::PersistedTrustRootInvalid),
            };
            let decodes = is_public_key(&state.public_key);
            let key_id = key_id_for_public_key(&state.public_key);
            trust_root_from_state(state, decodes, key_id)
        },
    }
}

/// What has been found out about a kernel.
#[derive(Debug, Clone, Copy)]
pub struct KernelFacts {
    pub kernel_size: u64,
    pub kernel_sha256: [u8; SHA256_BYTES],
    pub root: Result<TrustRoot, KernelLoadError>,
    /// Whether the key of the trust root can be a public key.
    pub root_decodes: bool,
    pub signature_holds: bool,
}

/// Why a kernel is not accepted, by what has been found out about it.
pub open spec fn kernel_verdict(manifest: UpdateManifest, facts: KernelFacts) -> Option<
    KernelLoadError,
> {
    if facts.kernel_size != manifest.kernel_size {
        Some(KernelLoadError::KernelSizeMismatch)
    } else if facts.kernel_sha256@ != manifest.kernel_sha256@ {
        Some(KernelLoadError::KernelHashMismatch)
    } else {
        match facts.root {
            Err(error) => Some(error),
            Ok(root) => if !facts.root_decodes {
                Some(KernelLoadError::TrustedKeyUnavailable)
            } else if root.key_id@ != manifest.key_id@ {
                Some(KernelLoadError::KeyIdMismatch)
            } else if !facts.signature_holds {
                Some(KernelLoadError::SignatureInvalid)
            } else {
                None
            },
        }
    }
}

/// Judges a kernel by what has been found out about it.
pub fn judge_kernel(manifest: &UpdateManifest, facts: &KernelFacts) -> (result: Result<
    TrustRoot,
    KernelLoadError,
>)
    ensures
        match kernel_verdict(*manifest, *facts) {
            Some(error) => result == Err::<TrustRoot, KernelLoadError>(error),
            None => result == facts.root && result is Ok,
        },
{
    if facts.kernel_size != manifest.kernel_size {
        return Err(KernelLoadError::KernelSizeMismatch);
    }
    if !bytes_equal(facts.kernel_sha256.as_slice(), manifest.kernel_sha256.as_slice()) {
        return Err(KernelLoadError::KernelHashMismatch);
    }
    match facts.root {
        Err(error) => Err(error),
        Ok(root) => {
            if !facts.root_decodes {
                return Err(KernelLoadError::TrustedKeyUnavailable);
            }
            if !bytes_equal(root.key_id.as_slice(), manifest.key_id.as_slice()) {
                return Err(KernelLoadError::KeyIdMismatch);
            }
            if !facts.signature_holds {
                return Err(KernelLoadError::SignatureInvalid);
            }
            Ok(root)
        },
    }
}

/// Why a kernel is not accepted under a trust root.
pub open spec fn root_refuses(manifest: UpdateManifest, root: TrustRoot) -> Option<KernelLoadError> {
    if !decodes_as_key(root.public_key@) {
        Some(KernelLoadError::TrustedKeyUnavailable)
    } else if root.key_id@ != manifest.key_id@ {
        Some(KernelLoadError::KeyIdMismatch)
    } else if !signature_holds(root.public_key@, signed_message(manifest), manifest.signature@) {
        Some(KernelLoadError::SignatureInvalid)
    } else {
        None
    }
}

/// Checks a kernel against its manifest and the manifest against the trust root, which is handed on.
pub fn verify_kernel_release(
    kernel: &[u8],
    manifest: &UpdateManifest,
    encoded: Option<&str>,
    stored: &Variable,
) -> (result: Result<TrustRoot, KernelLoadError>)
    ensures
        if kernel@.len() != manifest.kernel_size {
            result == Err::<TrustRoot, KernelLoadError>(KernelLoadError::KernelSizeMismatch)
        } else if sha256_of(kernel@) != manifest.kernel_sha256@ {
            result == Err::<TrustRoot, KernelLoadError>(KernelLoadError::KernelHashMismatch)
        } else {
            match trust_root_fault(encoded, *stored) {
                Some(error) => result == Err::<TrustRoot, KernelLoadError>(error),
                None => match result {
                    Ok(root) => is_trust_root(encoded, *stored, root) && root_refuses(
                        *manifest,
                        root,
                    ) is None,
                    Err(error) => exists|root: TrustRoot| #[trigger]
                        is_trust_root(encoded, *stored, root) && root_refuses(*manifest, root)
                            == Some(error),
                },
            }
        },
{
    let root = active_trust_root(encoded, stored);
    let mut root_decodes = false;
    let mut holds = false;
    if let Ok(found) = &root {
        root_decodes = is_public_key(&found.public_key);
        if root_decodes {
            let message = message_to_sign(manifest);
            holds = verify_signature(&found.public_key, message.as_slice(), &manifest.signature);
        }
    }
    let facts = KernelFacts {
        kernel_size: kernel.len() as u64,
        kernel_sha256: sha256(kernel),
        root,
        root_decodes,
        signature_holds: holds,
    };
    let result = judge_kernel(manifest, &facts);
    proof {
        if let Ok(found) = root {
            assert(is_trust_root(encoded, *stored, found));
            assert(result is Err ==> kernel@.len() == manifest.kernel_size && sha256_of(kernel@)
                == manifest.kernel_sha256@ ==> root_refuses(*manifest, found) == Some(result->Err_0));
        }
    }
    result
}

/// Why a trust root is not handed over.
pub open spec fn hand_over_fault(manifest: UpdateManifest) -> Option<KernelLoadError> {
    if !manifest.names_next_trust_key() {
        None
    } else if !decodes_as_key(manifest.next_trust_public_key@) {
        Some(KernelLoadError::NextTrustKeyInvalid)
    } else if key_id_of(manifest.next_trust_public_key@) != manifest.next_trust_key_id@ {
        Some(KernelLoadError::NextTrustKeyIdMismatch)
    } else {
        None
    }
}

/// Whether a manifest hands trust over to another key than the current one.
pub open spec fn hands_over(manifest: UpdateManifest, current: TrustRoot) -> bool {
    manifest.names_next_trust_key() && manifest.next_trust_public_key@ != current.public_key@
}

/// The trust root that a manifest hands over to, by whether its next key can be a public key and what
/// that key is known by.
pub fn next_trust_root(
    manifest: &UpdateManifest,
    current: &TrustRoot,
    decodes: bool,
    key_id: [u8; KEY_ID_BYTES],
) -> (next: Result<Option<TrustRootState>, KernelLoadError>)
    ensures
        if !manifest.names_next_trust_key() {
            next == Ok::<Option<TrustRootState>, KernelLoadError>(None)
        } else if !decodes {
            next == Err::<Option<TrustRootState>, KernelLoadError>(
                KernelLoadError::NextTrustKeyInvalid,
            )
        } else if key_id@ != manifest.next_trust_key_id@ {
            next == Err::<Option<TrustRootState>, KernelLoadError>(
                KernelLoadError::NextTrustKeyIdMismatch,
            )
        } else if manifest.next_trust_public_key@ == current.public_key@ {
            next == Ok::<Option<TrustRootState>, KernelLoadError>(None)
        } else {
            next == Ok::<Option<TrustRootState>, KernelLoadError>(
                Some(
                    TrustRootState {
                        activation_release_version: manifest.release_version,
                        public_key: manifest.next_trust_public_key,
                        key_id,
                    },
                ),
            )
        },
{
    if !manifest.has_next_trust_key() {
        return Ok(None);
    }
    if !decodes {
        return Err(KernelLoadError::NextTrustKeyInvalid);
    }
    if !bytes_equal(key_id.as_slice(), manifest.next_trust_key_id.as_slice()) {
        return Err(KernelLoadError::NextTrustKeyIdMismatch);
    }
    if bytes_equal(manifest.next_trust_public_key.as_slice(), current.public_key.as_slice()) {
        return Ok(None);
    }
    Ok(
        Some(
            TrustRootState {
                activation_release_version: manifest.release_version,
                public_key: manifest.next_trust_public_key,
                key_id,
            },
        ),
    )
}

/// What is to be stored as the trust root because of a manifest.
pub fn plan_trust_root_update(manifest: &UpdateManifest, current: &TrustRoot) -> (next: Result<
    Option<TrustRootState>,
    KernelLoadError,
>)
    ensures
        match hand_over_fault(*manifest) {
            Some(error) => next == Err::<Option<TrustRootState>, KernelLoadError>(error),
            None => match next {
                Ok(Some(state)) => {
                    &&& hands_over(*manifest, *current)
                    &&& state.activation_release_version == manifest.release_version
                    &&& state.public_key@ == manifest.next_trust_public_key@
                    &&& state.key_id@ == manifest.next_trust_key_id@
                },
                Ok(None) => !hands_over(*manifest, *current),
                Err(_) => false,
            },
        },
{
    let decodes = is_public_key(&manifest.next_trust_public_key);
    let key_id = key_id_for_public_key(&manifest.next_trust_public_key);
    next_trust_root(manifest, current, decodes, key_id)
}

/// Whether what was read back is the trust root that was written.
pub open spec fn root_confirmed(state: TrustRootState, stored: Variable) -> bool {
    stored is Value && TrustRootState::fault(stored->Value_0@) is None && state.encoded_as(
        stored->Value_0@,
    )
}

/// Checks that a trust root was stored, by what was read back.
pub fn confirm_trust_root(state: &TrustRootState, stored: &Variable) -> (result: Result<
    (),
    KernelLoadError,
>)
    ensures
        result == if root_confirmed(*state, *stored) {
            Ok::<(), KernelLoadError>(())
        } else {
            Err(KernelLoadError::TrustRootUpdateFailed)
        },
{
    match stored {
        Variable::Value(value) => match TrustRootState::decode(value.as_slice()) {
            Ok(read) => if read.same_as(state) {
                Ok(())
            } else {
                Err(KernelLoadError::TrustRootUpdateFailed)
            },
            Err(_) => Err(KernelLoadError::TrustRootUpdateFailed),
        },
        _ => Err(KernelLoadError::TrustRootUpdateFailed),
    }
}

/// The lowest release that may be loaded.
pub open spec fn lowest_release(stored: Variable) -> Option<int> {
    match stored {
        Variable::Missing => Some(0),
        Variable::Unreadable => None,
        Variable::Value(value) => if value@.len() == 8 {
            Some(le64(value@, 0))
        } else {
            None
        },
    }
}

/// Refuses a release that is older than one that was loaded. `Some` is the release to store.
pub fn enforce_release_version(candidate: u64, stored: &Variable) -> (result: Result<
    Option<u64>,
    KernelLoadError,
>)
    ensures
        match lowest_release(*stored) {
            None => result == Err::<Option<u64>, KernelLoadError>(
                KernelLoadError::RollbackStateUnavailable,
            ),
            Some(minimum) => if candidate < minimum {
                result == Err::<Option<u64>, KernelLoadError>(
                    KernelLoadError::RollbackDetected { candidate, minimum: minimum as u64 },
                )
            } else if candidate > minimum {
                result == Ok::<Option<u64>, KernelLoadError>(Some(candidate))
            } else {
                result == Ok::<Option<u64>, KernelLoadError>(None)
            },
        },
{
    let minimum: u64 = match stored {
        Variable::Missing => 0,
        Variable::Unreadable => return Err(KernelLoadError::RollbackStateUnavailable),
        Variable::Value(value) => {
            if value.len() != 8 {
                return Err(KernelLoadError::RollbackStateUnavailable);
            }
            get_le_u64(value.as_slice(), 0)
        },
    };
    if candidate < minimum {
        return Err(KernelLoadError::RollbackDetected { candidate, minimum });
    }
    if candidate > minimum {
        Ok(Some(candidate))
    } else {
        Ok(None)
    }
}

/// What a release is stored as.
pub fn encode_release_version(version: u64) -> (bytes: [u8; 8])
    ensures
        le64(bytes@, 0) == version,
{
    let mut bytes: [u8; 8] = [0u8; 8];
    put_le_u64(&mut bytes, 0, version);
    bytes
}

/// Once a release was stored, no older one is loaded.
pub proof fn no_older_release_is_loaded(loaded: u64, candidate: u64, value: Vec<u8>)
    requires
        value@.len() == 8,
        le64(value@, 0) == loaded,
        candidate < loaded,
    ensures
        lowest_release(Variable::Value(value)) == Some(loaded as int),
        candidate < lowest_release(Variable::Value(value)).unwrap(),
{
}

/// A trust root that was handed over is the one that the next release is checked with.
pub proof fn a_handed_over_root_is_used(
    manifest: UpdateManifest,
    state: TrustRootState,
    encoded: Option<&str>,
    value: Vec<u8>,
    root: TrustRoot,
)
    requires
        manifest.valid(),
        manifest.names_next_trust_key(),
        hand_over_fault(manifest) is None,
        state.activation_release_version == manifest.release_version,
        state.public_key@ == manifest.next_trust_public_key@,
        state.key_id@ == manifest.next_trust_key_id@,
        state.encoded_as(value@),
        encoded is Some,
        hex_fault(encode_utf8(encoded.unwrap()@)) is None,
        is_trust_root(encoded, Variable::Value(value), root),
    ensures
        root_confirmed(state, Variable::Value(value)),
        trust_root_fault(encoded, Variable::Value(value)) is None,
        root.public_key@ == manifest.next_trust_public_key@,
        root.key_id@ == manifest.next_trust_key_id@,
        root.source == TrustRootSource::Persisted,
        root.activation_release_version == manifest.release_version,
{
    crate::update_format::trust_root_round_trip(state, value@);
}

/// A release that was signed with the trust root's key is trusted, where its manifest can be stored and
/// the signature does not start with the neutral point.
pub proof fn a_signed_release_is_trusted(
    manifest: UpdateManifest,
    encoded: Seq<u8>,
    kernel: Seq<u8>,
    release_version: u64,
    secret_key: Seq<u8>,
    next_trust_key: Option<Seq<u8>>,
    read: UpdateManifest,
    root: TrustRoot,
)
    requires
        manifest.encoded_as(encoded),
        signs(manifest, kernel, release_version, secret_key, next_trust_key),
        manifest.valid(),
        next_trust_key is Some ==> decodes_as_key(next_trust_key.unwrap()),
        !starts_neutral(manifest.signature@),
        read.read_from(encoded),
        root.public_key@ == public_key_for(secret_key),
        root.key_id@ == key_id_of(root.public_key@),
    ensures
        read.kernel_size == kernel.len(),
        read.kernel_sha256@ == sha256_of(kernel),
        root_refuses(read, root) is None,
{
    a_signed_release_is_accepted(
        manifest,
        encoded,
        kernel,
        release_version,
        secret_key,
        next_trust_key,
        read,
    );
}

} // verus!
