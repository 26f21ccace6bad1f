//! The three records that a signed system image carries: the release manifest,
//! the A/B boot state and the persisted trust root.

use vstd::prelude::*;
use crate::bytes::{
    all_zero, array_at, bytes_equal, copy_into, get_le_u32, get_le_u64, le32, le64,
    lemma_le_injective, put_le_u32, put_le_u64, zero_between,
};
use crate::checksum::{checksum_without, crc32, crc32_of, lemma_checksum_notices, without_checksum};

verus! {

/// `"CDXUPD1\0"`.
pub const MANIFEST_MAGIC: [u8; 8] = [0x43, 0x44, 0x58, 0x55, 0x50, 0x44, 0x31, 0x00];

pub const LEGACY_MANIFEST_FORMAT_VERSION: u32 = 1;

pub const MANIFEST_FORMAT_VERSION: u32 = 2;

pub const LEGACY_MANIFEST_BYTES: usize = 160;

pub const MANIFEST_BYTES: usize = 224;

pub const LEGACY_SIGNING_BYTES: usize = 80;

pub const SIGNING_BYTES: usize = 160;

pub const SHA256_BYTES: usize = 32;

pub const PUBLIC_KEY_BYTES: usize = 32;

pub const KEY_ID_BYTES: usize = 16;

pub const ED25519_SIGNATURE_BYTES: usize = 64;

/// `"CDXBOOT1"`.
pub const BOOT_STATE_MAGIC: [u8; 8] = [0x43, 0x44, 0x58, 0x42, 0x4f, 0x4f, 0x54, 0x31];

pub const BOOT_STATE_FORMAT_VERSION: u32 = 1;

pub const BOOT_STATE_BYTES: usize = 64;

/// `"CDXTRST1"`.
pub const TRUST_ROOT_STATE_MAGIC: [u8; 8] = [0x43, 0x44, 0x58, 0x54, 0x52, 0x53, 0x54, 0x31];

pub const TRUST_ROOT_STATE_FORMAT_VERSION: u32 = 1;

pub const TRUST_ROOT_STATE_BYTES: usize = 80;

/// Why a manifest was refused.
#[derive(Debug, Clone, Copy, PartialEq, Eq, Structural)]
pub enum ManifestError {
    InvalidLength,
    InvalidMagic,
    UnsupportedFormat,
    InvalidHeaderSize,
    InvalidReleaseVersion,
    InvalidKernelSize,
    InvalidKeyId,
    InvalidNextTrustKey,
    InvalidSignature,
    NonzeroReservedBytes,
}

/// Why a boot-state record was refused.
#[derive(Debug, Clone, Copy, PartialEq, Eq, Structural)]
pub enum BootStateError {
    InvalidLength,
    InvalidMagic,
    UnsupportedFormat,
    InvalidHeaderSize,
    InvalidGeneration,
    InvalidSlot,
    InvalidReleaseVersion,
    InvalidChecksum,
    NonzeroReservedBytes,
}

/// Why a trust-root record was refused.
#[derive(Debug, Clone, Copy, PartialEq, Eq, Structural)]
pub enum TrustRootStateError {
    InvalidLength,
    InvalidMagic,
    UnsupportedFormat,
    InvalidHeaderSize,
    InvalidActivationRelease,
    InvalidPublicKey,
    InvalidKeyId,
    InvalidChecksum,
    NonzeroReservedBytes,
}

/// One of the two places a system image holds a kernel in.
#[derive(Debug, Clone, Copy, PartialEq, Eq, Structural)]
pub enum SystemSlot {
    A,
    B,
}

impl SystemSlot {
    /// The byte that stands for the slot in a boot-state record.
    pub open spec fn code(self) -> u8 {
        match self {
            SystemSlot::A => 0,
            SystemSlot::B => 1,
        }
    }

    /// The slot that is not this one.
    pub open spec fn opposite(self) -> SystemSlot {
        match self {
            SystemSlot::A => SystemSlot::B,
            SystemSlot::B => SystemSlot::A,
        }
    }

    pub fn as_u8(self) -> (code: u8)
        ensures
            code == self.code(),
    {
        match self {
            Self::A => 0,
            Self::B => 1,
        }
    }

    pub fn from_u8(value: u8) -> (slot: Option<Self>)
        ensures
            value == 0 ==> slot == Some(SystemSlot::A),
            value == 1 ==> slot == Some(SystemSlot::B),
            value > 1 ==> slot is None,
    {
        match value {
            0 => Some(Self::A),
            1 => Some(Self::B),
            _ => None,
        }
    }

    pub fn other(self) -> (slot: Self)
        ensures
            slot == self.opposite(),
    {
        match self {
            Self::A => Self::B,
            Self::B => Self::A,
        }
    }

    pub fn as_str(self) -> (name: &'static str)
        ensures
            self is A ==> name@ == "A"@,
            self is B ==> name@ == "B"@,
    {
        match self {
            Self::A => "A",
            Self::B => "B",
        }
    }
}

/// Switching slots twice leads back.
pub proof fn other_slot_is_an_involution(slot: SystemSlot)
    ensures
        slot.opposite() != slot,
        slot.opposite().opposite() == slot,
{
}

/// A slot's code names that slot alone.
pub proof fn slot_codes_are_distinct(a: SystemSlot, b: SystemSlot)
    ensures
        a.code() == b.code() ==> a == b,
{
}

/// Which slot boots, at which release, and how recent that decision is.
#[derive(Debug, Clone, Copy, PartialEq, Eq, Structural)]
pub struct BootState {
    pub generation: u64,
    pub active_slot: SystemSlot,
    pub active_release_version: u64,
}

impl BootState {
    /// `bytes` is the record of this state.
    pub open spec fn encoded_as(self, bytes: Seq<u8>) -> bool {
        &&& bytes.len() == BOOT_STATE_BYTES
        &&& bytes.subrange(0, 8) == BOOT_STATE_MAGIC@
        &&& le32(bytes, 8) == BOOT_STATE_FORMAT_VERSION
        &&& le32(bytes, 12) == BOOT_STATE_BYTES
        &&& le64(bytes, 16) == self.generation
        &&& bytes[24] == self.active_slot.code()
        &&& zero_between(bytes, 25, 32)
        &&& le64(bytes, 32) == self.active_release_version
        &&& le32(bytes, 40) == crc32_of(without_checksum(bytes, 40))
        &&& zero_between(bytes, 44, 64)
    }

    /// A state that a record may hold.
    pub open spec fn valid(self) -> bool {
        self.generation != 0 && self.active_release_version != 0
    }

    /// The first fault of `input` as a boot-state record, if it has one.
    pub open spec fn fault(input: Seq<u8>) -> Option<BootStateError> {
        if input.len() != BOOT_STATE_BYTES {
            Some(BootStateError::InvalidLength)
        } else if input.subrange(0, 8) != BOOT_STATE_MAGIC@ {
            Some(BootStateError::InvalidMagic)
        } else if le32(input, 8) != BOOT_STATE_FORMAT_VERSION {
            Some(BootStateError::UnsupportedFormat)
        } else if le32(input, 12) != BOOT_STATE_BYTES {
            Some(BootStateError::InvalidHeaderSize)
        } else if le64(input, 16) == 0 {
            Some(BootStateError::InvalidGeneration)
        } else if input[24] > 1 {
            Some(BootStateError::InvalidSlot)
        } else if le64(input, 32) == 0 {
            Some(BootStateError::InvalidReleaseVersion)
        } else if !zero_between(input, 25, 32) || !zero_between(input, 44, 64) {
            Some(BootStateError::NonzeroReservedBytes)
        } else if le32(input, 40) != crc32_of(without_checksum(input, 40)) {
            Some(BootStateError::InvalidChecksum)
        } else {
            None
        }
    }

    /// The record of this state.
    pub fn encode(self) -> (output: [u8; BOOT_STATE_BYTES])
        ensures
            self.encoded_as(output@),
    {
        let mut output: [u8; BOOT_STATE_BYTES] = [0u8; BOOT_STATE_BYTES];
        copy_into(&mut output, 0, &BOOT_STATE_MAGIC);
        put_le_u32(&mut output, 8, BOOT_STATE_FORMAT_VERSION);
        put_le_u32(&mut output, 12, BOOT_STATE_BYTES as u32);
        put_le_u64(&mut output, 16, self.generation);
        output[24] = self.active_slot.as_u8();
        put_le_u64(&mut output, 32, self.active_release_version);
        let ghost plain = output@;
        let checksum: u32 = crc32(&output);
        put_le_u32(&mut output, 40, checksum);
        assert(without_checksum(output@, 40) =~= plain);
        assert(output@.subrange(0, 8) =~= BOOT_STATE_MAGIC@);
        output
    }

    /// Reads a boot-state record back.
    pub fn decode(input: &[u8]) -> (state: Result<Self, BootStateError>)
        ensures
            match state {
                Ok(state) => Self::fault(input@) is None && state.encoded_as(input@) && state.valid(),
                Err(error) => Self::fault(input@) == Some(error),
            },
    {
        if input.len() != BOOT_STATE_BYTES {
            return Err(BootStateError::InvalidLength);
        }
        if !bytes_equal(&input[0..8], &BOOT_STATE_MAGIC) {
            return Err(BootStateError::InvalidMagic);
        }
        if get_le_u32(input, 8) != BOOT_STATE_FORMAT_VERSION {
            return Err(BootStateError::UnsupportedFormat);
        }
        if get_le_u32(input, 12) as usize != BOOT_STATE_BYTES {
            return Err(BootStateError::InvalidHeaderSize);
        }
        let generation: u64 = get_le_u64(input, 16);
        if generation == 0 {
            return Err(BootStateError::InvalidGeneration);
        }
        let active_slot = match SystemSlot::from_u8(input[24]) {
            Some(slot) => slot,
            None => return Err(BootStateError::InvalidSlot),
        };
        let active_release_version: u64 = get_le_u64(input, 32);
        if active_release_version == 0 {
            return Err(BootStateError::InvalidReleaseVersion);
        }
        if !zeros_in(input, 25, 32) || !zeros_in(input, 44, 64) {
            return Err(BootStateError::NonzeroReservedBytes);
        }
        if checksum_without(input, 40) != get_le_u32(input, 40) {
            return Err(BootStateError::InvalidChecksum);
        }
        Ok(Self { generation, active_slot, active_release_version })
    }
}

/// Whether the bytes from `from` up to `to` are all zero.
fn zeros_in(input: &[u8], from: usize, to: usize) -> (zero: bool)
    requires
        from <= to <= input.len(),
    ensures
        zero == zero_between(input@, from as int, to as int),
{
    let part = &input[from..to];
    let zero = all_zero(part);
    proof {
        if zero {
            assert forall|i: int| from <= i < to implies #[trigger] input@[i] == 0u8 by {
                assert(part@[i - from] == 0u8);
            }
        } else if zero_between(input@, from as int, to as int) {
            assert forall|i: int| 0 <= i < part@.len() implies #[trigger] part@[i] == 0u8 by {
                assert(input@[from + i] == 0u8);
            }
        }
    }
    zero
}

/// Reading back the record of a valid state gives no fault, and that state alone.
pub proof fn boot_state_round_trip(state: BootState, bytes: Seq<u8>)
    requires
        state.valid(),
        state.encoded_as(bytes),
    ensures
        BootState::fault(bytes) is None,
        forall|read: BootState| #[trigger] read.encoded_as(bytes) ==> read == state,
{
}

/// A state has one record only: whatever reads back as it is what it was written as.
pub proof fn boot_state_record_is_canonical(state: BootState, a: Seq<u8>, b: Seq<u8>)
    requires
        state.encoded_as(a),
        state.encoded_as(b),
    ensures
        a == b,
{
    lemma_le_injective(a, b, 8);
    lemma_le_injective(a, b, 12);
    lemma_le_injective(a, b, 16);
    lemma_le_injective(a, b, 32);
    assert forall|i: int| 0 <= i < 8 implies a[i] == b[i] by {
        assert(a[i] == a.subrange(0, 8)[i] && b[i] == b.subrange(0, 8)[i]);
    }
    assert(without_checksum(a, 40) =~= without_checksum(b, 40));
    lemma_le_injective(a, b, 40);
    assert(a =~= b);
}

/// Damage to any one byte of a boot-state record is noticed.
pub proof fn boot_state_damage_is_noticed(bytes: Seq<u8>, at: int, byte: u8)
    requires
        BootState::fault(bytes) is None,
        0 <= at < bytes.len(),
        byte != bytes[at],
    ensures
        BootState::fault(bytes.update(at, byte)) is Some,
{
    lemma_checksum_notices(bytes, 40, at, byte);
}

/// What a signer vouches for: one kernel, one release, and possibly the next trust root.
#[derive(Debug, Clone, Copy, PartialEq, Eq)]
pub struct UpdateManifest {
    pub format_version: u32,
    pub release_version: u64,
    pub kernel_size: u64,
    pub kernel_sha256: [u8; SHA256_BYTES],
    pub key_id: [u8; KEY_ID_BYTES],
    pub next_trust_public_key: [u8; PUBLIC_KEY_BYTES],
    pub next_trust_key_id: [u8; KEY_ID_BYTES],
    pub signature: [u8; ED25519_SIGNATURE_BYTES],
}

impl UpdateManifest {
    /// Whether the manifest is of the legacy format.
    pub open spec fn legacy(self) -> bool {
        self.format_version == LEGACY_MANIFEST_FORMAT_VERSION
    }

    /// How many bytes of the signing image the signature covers.
    pub open spec fn signed_length(self) -> int {
        if self.legacy() {
            LEGACY_SIGNING_BYTES as int
        } else {
            SIGNING_BYTES as int
        }
    }

    /// `bytes` is the signing image of this manifest.
    pub open spec fn signing_image(self, bytes: Seq<u8>) -> bool {
        &&& bytes.len() == SIGNING_BYTES
        &&& bytes.subrange(0, 8) == MANIFEST_MAGIC@
        &&& le32(bytes, 8) == if self.legacy() {
            LEGACY_MANIFEST_FORMAT_VERSION
        } else {
            MANIFEST_FORMAT_VERSION
        }
        &&& le32(bytes, 12) == if self.legacy() {
            LEGACY_MANIFEST_BYTES
        } else {
            MANIFEST_BYTES
        }
        &&& le64(bytes, 16) == self.release_version
        &&& le64(bytes, 24) == self.kernel_size
        &&& bytes.subrange(32, 64) == self.kernel_sha256@
        &&& bytes.subrange(64, 80) == self.key_id@
        &&& if self.legacy() {
            zero_between(bytes, 80, 160)
        } else {
            &&& bytes.subrange(80, 112) == self.next_trust_public_key@
            &&& bytes.subrange(112, 128) == self.next_trust_key_id@
            &&& zero_between(bytes, 128, 160)
        }
    }

    /// `bytes` is the stored form of this manifest: the signing image, then the signature.
    pub open spec fn encoded_as(self, bytes: Seq<u8>) -> bool {
        &&& bytes.len() == MANIFEST_BYTES
        &&& self.signing_image(bytes.subrange(0, 160))
        &&& bytes.subrange(160, 224) == self.signature@
    }

    /// Whether the manifest names a next trust root.
    pub open spec fn names_next_trust_key(self) -> bool {
        !zero_between(self.next_trust_public_key@, 0, 32)
    }

    /// A manifest that a stored form may hold.
    pub open spec fn valid(self) -> bool {
        &&& self.release_version != 0
        &&& self.kernel_size != 0
        &&& !zero_between(self.key_id@, 0, 16)
        &&& !zero_between(self.signature@, 0, 64)
        &&& zero_between(self.next_trust_public_key@, 0, 32) == zero_between(
            self.next_trust_key_id@,
            0,
            16,
        )
    }

    /// The first fault of `input` as a stored manifest, if it has one.
    pub open spec fn fault(input: Seq<u8>) -> Option<ManifestError> {
        if input.len() != LEGACY_MANIFEST_BYTES && input.len() != MANIFEST_BYTES {
            Some(ManifestError::InvalidLength)
        } else if input.subrange(0, 8) != MANIFEST_MAGIC@ {
            Some(ManifestError::InvalidMagic)
        } else if le64(input, 16) == 0 {
            Some(ManifestError::InvalidReleaseVersion)
        } else if le64(input, 24) == 0 {
            Some(ManifestError::InvalidKernelSize)
        } else if zero_between(input, 64, 80) {
            Some(ManifestError::InvalidKeyId)
        } else if le32(input, 8) == LEGACY_MANIFEST_FORMAT_VERSION {
            if input.len() != LEGACY_MANIFEST_BYTES || le32(input, 12) != LEGACY_MANIFEST_BYTES {
                Some(ManifestError::InvalidHeaderSize)
            } else if !zero_between(input, 144, 160) {
                Some(ManifestError::NonzeroReservedBytes)
            } else if zero_between(input, 80, 144) {
                Some(ManifestError::InvalidSignature)
            } else {
                None
            }
        } else if le32(input, 8) == MANIFEST_FORMAT_VERSION {
            if input.len() != MANIFEST_BYTES || le32(input, 12) != MANIFEST_BYTES {
                Some(ManifestError::InvalidHeaderSize)
            } else if zero_between(input, 80, 112) != zero_between(input, 112, 128) {
                Some(ManifestError::InvalidNextTrustKey)
            } else if !zero_between(input, 128, 160) {
                Some(ManifestError::NonzeroReservedBytes)
            } else if zero_between(input, 160, 224) {
                Some(ManifestError::InvalidSignature)
            } else {
                None
            }
        } else {
            Some(ManifestError::UnsupportedFormat)
        }
    }

    /// The fields that a faultless `input` holds.
    pub open spec fn read_from(self, input: Seq<u8>) -> bool {
        &&& self.format_version == le32(input, 8)
        &&& self.release_version == le64(input, 16)
        &&& self.kernel_size == le64(input, 24)
        &&& self.kernel_sha256@ == input.subrange(32, 64)
        &&& self.key_id@ == input.subrange(64, 80)
        &&& if self.legacy() {
            &&& zero_between(self.next_trust_public_key@, 0, 32)
            &&& zero_between(self.next_trust_key_id@, 0, 16)
            &&& self.signature@ == input.subrange(80, 144)
        } else {
            &&& self.next_trust_public_key@ == input.subrange(80, 112)
            &&& self.next_trust_key_id@ == input.subrange(112, 128)
            &&& self.signature@ == input.subrange(160, 224)
        }
    }

    /// A manifest without a signature and without a next trust root.
    pub fn unsigned(
        release_version: u64,
        kernel_size: u64,
        kernel_sha256: [u8; SHA256_BYTES],
        key_id: [u8; KEY_ID_BYTES],
    ) -> (manifest: Self)
        ensures
            manifest.format_version == MANIFEST_FORMAT_VERSION,
            manifest.release_version == release_version,
            manifest.kernel_size == kernel_size,
            manifest.kernel_sha256 == kernel_sha256,
            manifest.key_id == key_id,
            zero_between(manifest.next_trust_public_key@, 0, 32),
            zero_between(manifest.next_trust_key_id@, 0, 16),
            zero_between(manifest.signature@, 0, 64),
    {
        Self {
            format_version: MANIFEST_FORMAT_VERSION,
            release_version,
            kernel_size,
            kernel_sha256,
            key_id,
            next_trust_public_key: [0; PUBLIC_KEY_BYTES],
            next_trust_key_id: [0; KEY_ID_BYTES],
            signature: [0; ED25519_SIGNATURE_BYTES],
        }
    }

    /// A manifest without a signature that hands trust over to another key.
    pub fn unsigned_with_next_trust_key(
        release_version: u64,
        kernel_size: u64,
        kernel_sha256: [u8; SHA256_BYTES],
        key_id: [u8; KEY_ID_BYTES],
        next_trust_public_key: [u8; PUBLIC_KEY_BYTES],
        next_trust_key_id: [u8; KEY_ID_BYTES],
    ) -> (manifest: Self)
        ensures
            manifest.format_version == MANIFEST_FORMAT_VERSION,
            manifest.release_version == release_version,
            manifest.kernel_size == kernel_size,
            manifest.kernel_sha256 == kernel_sha256,
            manifest.key_id == key_id,
            manifest.next_trust_public_key == next_trust_public_key,
            manifest.next_trust_key_id == next_trust_key_id,
            zero_between(manifest.signature@, 0, 64),
    {
        Self {
            format_version: MANIFEST_FORMAT_VERSION,
            release_version,
            kernel_size,
            kernel_sha256,
            key_id,
            next_trust_public_key,
            next_trust_key_id,
            signature: [0; ED25519_SIGNATURE_BYTES],
        }
    }

    pub fn has_next_trust_key(&self) -> (present: bool)
        ensures
            present == self.names_next_trust_key(),
    {
        !all_zero(&self.next_trust_public_key)
    }

    pub fn signing_len(&self) -> (length: usize)
        ensures
            length == self.signed_length(),
    {
        match self.format_version {
            LEGACY_MANIFEST_FORMAT_VERSION => LEGACY_SIGNING_BYTES,
            _ => SIGNING_BYTES,
        }
    }

    /// The signing image; the signature covers its first `signing_len()` bytes.
    pub fn signing_bytes(&self) -> (signing: [u8; SIGNING_BYTES])
        ensures
            self.signing_image(signing@),
    {
        let mut signing: [u8; SIGNING_BYTES] = [0u8; SIGNING_BYTES];
        let legacy = self.format_version == LEGACY_MANIFEST_FORMAT_VERSION;
        copy_into(&mut signing, 0, &MANIFEST_MAGIC);
        if legacy {
            put_le_u32(&mut signing, 8, LEGACY_MANIFEST_FORMAT_VERSION);
            put_le_u32(&mut signing, 12, LEGACY_MANIFEST_BYTES as u32);
        } else {
            put_le_u32(&mut signing, 8, MANIFEST_FORMAT_VERSION);
            put_le_u32(&mut signing, 12, MANIFEST_BYTES as u32);
        }
        put_le_u64(&mut signing, 16, self.release_version);
        put_le_u64(&mut signing, 24, self.kernel_size);
        copy_into(&mut signing, 32, &self.kernel_sha256);
        copy_into(&mut signing, 64, &self.key_id);
        if !legacy {
            copy_into(&mut signing, 80, &self.next_trust_public_key);
            copy_into(&mut signing, 112, &self.next_trust_key_id);
        }
        assert(signing@.subrange(0, 8) =~= MANIFEST_MAGIC@);
        assert(signing@.subrange(32, 64) =~= self.kernel_sha256@);
        assert(signing@.subrange(64, 80) =~= self.key_id@);
        if !legacy {
            assert(signing@.subrange(80, 112) =~= self.next_trust_public_key@);
            assert(signing@.subrange(112, 128) =~= self.next_trust_key_id@);
        }
        signing
    }

    /// The stored form of this manifest.
    pub fn encode(&self) -> (output: [u8; MANIFEST_BYTES])
        ensures
            self.encoded_as(output@),
    {
        let mut output: [u8; MANIFEST_BYTES] = [0u8; MANIFEST_BYTES];
        let signing = self.signing_bytes();
        copy_into(&mut output, 0, &signing);
        copy_into(&mut output, 160, &self.signature);
        assert(output@.subrange(0, 160) =~= signing@);
        assert(output@.subrange(160, 224) =~= self.signature@);
        output
    }

    /// Reads a stored manifest back, of the current or of the legacy format.
    pub fn decode(input: &[u8]) -> (manifest: Result<Self, ManifestError>)
        ensures
            match manifest {
                Ok(manifest) => {
                    &&& Self::fault(input@) is None
                    &&& manifest.read_from(input@)
                },
                Err(error) => Self::fault(input@) == Some(error),
            },
    {
        if input.len() != LEGACY_MANIFEST_BYTES && input.len() != MANIFEST_BYTES {
            return Err(ManifestError::InvalidLength);
        }
        if !bytes_equal(&input[0..8], &MANIFEST_MAGIC) {
            return Err(ManifestError::InvalidMagic);
        }
        let format_version: u32 = get_le_u32(input, 8);
        let header_size: u32 = get_le_u32(input, 12);
        let release_version: u64 = get_le_u64(input, 16);
        if release_version == 0 {
            return Err(ManifestError::InvalidReleaseVersion);
        }
        let kernel_size: u64 = get_le_u64(input, 24);
        if kernel_size == 0 {
            return Err(ManifestError::InvalidKernelSize);
        }
        let kernel_sha256: [u8; SHA256_BYTES] = array_at(input, 32);
        let key_id: [u8; KEY_ID_BYTES] = array_at(input, 64);
        if zeros_in(input, 64, 80) {
            return Err(ManifestError::InvalidKeyId);
        }
        let mut signature: [u8; ED25519_SIGNATURE_BYTES] = [0u8; ED25519_SIGNATURE_BYTES];
        let mut next_trust_public_key: [u8; PUBLIC_KEY_BYTES] = [0u8; PUBLIC_KEY_BYTES];
        let mut next_trust_key_id: [u8; KEY_ID_BYTES] = [0u8; KEY_ID_BYTES];
        match format_version {
            LEGACY_MANIFEST_FORMAT_VERSION => {
                if input.len() != LEGACY_MANIFEST_BYTES || header_size as usize
                    != LEGACY_MANIFEST_BYTES {
                    return Err(ManifestError::InvalidHeaderSize);
                }
                signature = array_at(input, 80);
                if !zeros_in(input, 144, 160) {
                    return Err(ManifestError::NonzeroReservedBytes);
                }
                if zeros_in(input, 80, 144) {
                    return Err(ManifestError::InvalidSignature);
                }
            },
            MANIFEST_FORMAT_VERSION => {
                if input.len() != MANIFEST_BYTES || header_size as usize != MANIFEST_BYTES {
                    return Err(ManifestError::InvalidHeaderSize);
                }
                next_trust_public_key = array_at(input, 80);
                next_trust_key_id = array_at(input, 112);
                if zeros_in(input, 80, 112) != zeros_in(input, 112, 128) {
                    return Err(ManifestError::InvalidNextTrustKey);
                }
                if !zeros_in(input, 128, 160) {
                    return Err(ManifestError::NonzeroReservedBytes);
                }
                signature = array_at(input, 160);
                if zeros_in(input, 160, 224) {
                    return Err(ManifestError::InvalidSignature);
                }
            },
            _ => return Err(ManifestError::UnsupportedFormat),
        }
        Ok(
            Self {
                format_version,
                release_version,
                kernel_size,
                kernel_sha256,
                key_id,
                next_trust_public_key,
                next_trust_key_id,
                signature,
            },
        )
    }
}

proof fn lemma_zero_between_shift(s: Seq<u8>, from: int, to: int)
    requires
        0 <= from <= to <= s.len(),
    ensures
        zero_between(s.subrange(from, to), 0, to - from) == zero_between(s, from, to),
{
    let part = s.subrange(from, to);
    if zero_between(part, 0, to - from) {
        assert forall|i: int| from <= i < to implies #[trigger] s[i] == 0u8 by {
            assert(part[i - from] == 0u8);
        }
    }
    if zero_between(s, from, to) {
        assert forall|i: int| 0 <= i < to - from implies #[trigger] part[i] == 0u8 by {
            assert(s[from + i] == 0u8);
        }
    }
}

/// A valid manifest of the current format reads back from its stored form, field by field.
pub proof fn manifest_round_trip(manifest: UpdateManifest, bytes: Seq<u8>)
    requires
        manifest.format_version == MANIFEST_FORMAT_VERSION,
        manifest.valid(),
        manifest.encoded_as(bytes),
    ensures
        UpdateManifest::fault(bytes) is None,
        manifest.read_from(bytes),
{
    let signing = bytes.subrange(0, 160);
    assert(signing.subrange(0, 8) =~= bytes.subrange(0, 8));
    assert(signing.subrange(32, 64) =~= bytes.subrange(32, 64));
    assert(signing.subrange(64, 80) =~= bytes.subrange(64, 80));
    assert(signing.subrange(80, 112) =~= bytes.subrange(80, 112));
    assert(signing.subrange(112, 128) =~= bytes.subrange(112, 128));
    crate::bytes::lemma_numbers_agree(bytes, signing, 8, 4);
    crate::bytes::lemma_numbers_agree(bytes, signing, 12, 4);
    crate::bytes::lemma_numbers_agree(bytes, signing, 16, 8);
    crate::bytes::lemma_numbers_agree(bytes, signing, 24, 8);
    lemma_zero_between_shift(bytes, 64, 80);
    lemma_zero_between_shift(bytes, 80, 112);
    lemma_zero_between_shift(bytes, 112, 128);
    lemma_zero_between_shift(bytes, 160, 224);
    assert forall|i: int| 128 <= i < 160 implies #[trigger] bytes[i] == 0u8 by {
        assert(signing[i] == 0u8);
    }
}

/// A manifest that was read verifies against exactly the bytes that were signed: its signing
/// image, up to the signed length, is the start of the input, in either format.
pub proof fn signing_image_is_the_signed_span(
    manifest: UpdateManifest,
    input: Seq<u8>,
    signing: Seq<u8>,
)
    requires
        UpdateManifest::fault(input) is None,
        manifest.read_from(input),
        manifest.signing_image(signing),
    ensures
        signing.take(manifest.signed_length()) == input.take(manifest.signed_length()),
{
    lemma_le_injective(signing, input, 8);
    lemma_le_injective(signing, input, 12);
    lemma_le_injective(signing, input, 16);
    lemma_le_injective(signing, input, 24);
    assert forall|i: int| 0 <= i < manifest.signed_length() implies signing[i] == input[i] by {
        if i < 8 {
            assert(signing.subrange(0, 8)[i] == input.subrange(0, 8)[i]);
        } else if 32 <= i < 64 {
            assert(signing.subrange(32, 64)[i - 32] == input.subrange(32, 64)[i - 32]);
        } else if 64 <= i < 80 {
            assert(signing.subrange(64, 80)[i - 64] == input.subrange(64, 80)[i - 64]);
        } else if 80 <= i < 112 {
            assert(signing.subrange(80, 112)[i - 80] == input.subrange(80, 112)[i - 80]);
        } else if 112 <= i < 128 {
            assert(signing.subrange(112, 128)[i - 112] == input.subrange(112, 128)[i - 112]);
        }
    }
    assert(signing.take(manifest.signed_length()) =~= input.take(manifest.signed_length()));
}

/// The key that verifies releases once a trust hand-over has been accepted.
#[derive(Debug, Clone, Copy, PartialEq, Eq)]
pub struct TrustRootState {
    pub activation_release_version: u64,
    pub public_key: [u8; PUBLIC_KEY_BYTES],
    pub key_id: [u8; KEY_ID_BYTES],
}

impl TrustRootState {
    /// `bytes` is the record of this trust root.
    pub open spec fn encoded_as(self, bytes: Seq<u8>) -> bool {
        &&& bytes.len() == TRUST_ROOT_STATE_BYTES
        &&& bytes.subrange(0, 8) == TRUST_ROOT_STATE_MAGIC@
        &&& le32(bytes, 8) == TRUST_ROOT_STATE_FORMAT_VERSION
        &&& le32(bytes, 12) == TRUST_ROOT_STATE_BYTES
        &&& le64(bytes, 16) == self.activation_release_version
        &&& bytes.subrange(24, 56) == self.public_key@
        &&& bytes.subrange(56, 72) == self.key_id@
        &&& le32(bytes, 72) == crc32_of(without_checksum(bytes, 72))
        &&& zero_between(bytes, 76, 80)
    }

    /// A trust root that a record may hold.
    pub open spec fn valid(self) -> bool {
        &&& self.activation_release_version != 0
        &&& !zero_between(self.public_key@, 0, 32)
        &&& !zero_between(self.key_id@, 0, 16)
    }

    /// The first fault of `input` as a trust-root record, if it has one.
    pub open spec fn fault(input: Seq<u8>) -> Option<TrustRootStateError> {
        if input.len() != TRUST_ROOT_STATE_BYTES {
            Some(TrustRootStateError::InvalidLength)
        } else if input.subrange(0, 8) != TRUST_ROOT_STATE_MAGIC@ {
            Some(TrustRootStateError::InvalidMagic)
        } else if le32(input, 8) != TRUST_ROOT_STATE_FORMAT_VERSION {
            Some(TrustRootStateError::UnsupportedFormat)
        } else if le32(input, 12) != TRUST_ROOT_STATE_BYTES {
            Some(TrustRootStateError::InvalidHeaderSize)
        } else if le64(input, 16) == 0 {
            Some(TrustRootStateError::InvalidActivationRelease)
        } else if zero_between(input, 24, 56) {
            Some(TrustRootStateError::InvalidPublicKey)
        } else if zero_between(input, 56, 72) {
            Some(TrustRootStateError::InvalidKeyId)
        } else if !zero_between(input, 76, 80) {
            Some(TrustRootStateError::NonzeroReservedBytes)
        } else if le32(input, 72) != crc32_of(without_checksum(input, 72)) {
            Some(TrustRootStateError::InvalidChecksum)
        } else {
            None
        }
    }

    /// The record of this trust root.
    pub fn encode(self) -> (output: [u8; TRUST_ROOT_STATE_BYTES])
        ensures
            self.encoded_as(output@),
    {
        let mut output: [u8; TRUST_ROOT_STATE_BYTES] = [0u8; TRUST_ROOT_STATE_BYTES];
        copy_into(&mut output, 0, &TRUST_ROOT_STATE_MAGIC);
        put_le_u32(&mut output, 8, TRUST_ROOT_STATE_FORMAT_VERSION);
        put_le_u32(&mut output, 12, TRUST_ROOT_STATE_BYTES as u32);
        put_le_u64(&mut output, 16, self.activation_release_version);
        copy_into(&mut output, 24, &self.public_key);
        copy_into(&mut output, 56, &self.key_id);
        let ghost plain = output@;
        let checksum: u32 = crc32(&output);
        put_le_u32(&mut output, 72, checksum);
        assert(without_checksum(output@, 72) =~= plain);
        assert(output@.subrange(0, 8) =~= TRUST_ROOT_STATE_MAGIC@);
        assert(output@.subrange(24, 56) =~= self.public_key@);
        assert(output@.subrange(56, 72) =~= self.key_id@);
        output
    }

    /// Reads a trust-root record back.
    pub fn decode(input: &[u8]) -> (state: Result<Self, TrustRootStateError>)
        ensures
            match state {
                Ok(state) => Self::fault(input@) is None && state.encoded_as(input@) && state.valid(),
                Err(error) => Self::fault(input@) == Some(error),
            },
    {
        if input.len() != TRUST_ROOT_STATE_BYTES {
            return Err(TrustRootStateError::InvalidLength);
        }
        if !bytes_equal(&input[0..8], &TRUST_ROOT_STATE_MAGIC) {
            return Err(TrustRootStateError::InvalidMagic);
        }
        if get_le_u32(input, 8) != TRUST_ROOT_STATE_FORMAT_VERSION {
            return Err(TrustRootStateError::UnsupportedFormat);
        }
        if get_le_u32(input, 12) as usize != TRUST_ROOT_STATE_BYTES {
            return Err(TrustRootStateError::InvalidHeaderSize);
        }
        let activation_release_version: u64 = get_le_u64(input, 16);
        if activation_release_version == 0 {
            return Err(TrustRootStateError::InvalidActivationRelease);
        }
        let public_key: [u8; PUBLIC_KEY_BYTES] = array_at(input, 24);
        if zeros_in(input, 24, 56) {
            return Err(TrustRootStateError::InvalidPublicKey);
        }
        let key_id: [u8; KEY_ID_BYTES] = array_at(input, 56);
        if zeros_in(input, 56, 72) {
            return Err(TrustRootStateError::InvalidKeyId);
        }
        if !zeros_in(input, 76, 80) {
            return Err(TrustRootStateError::NonzeroReservedBytes);
        }
        if checksum_without(input, 72) != get_le_u32(input, 72) {
            return Err(TrustRootStateError::InvalidChecksum);
        }
        proof {
            lemma_zero_between_shift(input@, 24, 56);
            lemma_zero_between_shift(input@, 56, 72);
        }
        Ok(Self { activation_release_version, public_key, key_id })
    }

    /// Whether two trust roots hold the same values.
    pub fn same_as(&self, other: &Self) -> (same: bool)
        ensures
            same == (self.activation_release_version == other.activation_release_version
                && self.public_key@ == other.public_key@ && self.key_id@ == other.key_id@),
    {
        self.activation_release_version == other.activation_release_version && bytes_equal(
            &self.public_key,
            &other.public_key,
        ) && bytes_equal(&self.key_id, &other.key_id)
    }
}

/// Reading back the record of a valid trust root gives no fault, and that trust root alone.
pub proof fn trust_root_round_trip(state: TrustRootState, bytes: Seq<u8>)
    requires
        state.valid(),
        state.encoded_as(bytes),
    ensures
        TrustRootState::fault(bytes) is None,
        forall|read: TrustRootState| #[trigger]
            read.encoded_as(bytes) ==> read.activation_release_version
                == state.activation_release_version && read.public_key@ == state.public_key@
                && read.key_id@ == state.key_id@,
{
    lemma_zero_between_shift(bytes, 24, 56);
    lemma_zero_between_shift(bytes, 56, 72);
}

/// Damage to any one byte of a trust-root record is noticed.
pub proof fn trust_root_damage_is_noticed(bytes: Seq<u8>, at: int, byte: u8)
    requires
        TrustRootState::fault(bytes) is None,
        0 <= at < bytes.len(),
        byte != bytes[at],
    ensures
        TrustRootState::fault(bytes.update(at, byte)) is Some,
{
    lemma_checksum_notices(bytes, 72, at, byte);
}

} // verus!
