use codexos::bytes::{put_le_u32, put_le_u64};
use codexos::update_format::{
    BootState, BootStateError, ManifestError, SystemSlot, TrustRootState, TrustRootStateError,
    UpdateManifest, ED25519_SIGNATURE_BYTES, KEY_ID_BYTES, LEGACY_MANIFEST_BYTES,
    LEGACY_MANIFEST_FORMAT_VERSION, LEGACY_SIGNING_BYTES, MANIFEST_BYTES, MANIFEST_MAGIC,
    PUBLIC_KEY_BYTES, SHA256_BYTES, SIGNING_BYTES,
};

fn valid_manifest() -> UpdateManifest {
    let mut manifest =
        UpdateManifest::unsigned(7, 123_456, [0x5a; SHA256_BYTES], [0xa5; KEY_ID_BYTES]);
    manifest.signature = [0x3c; ED25519_SIGNATURE_BYTES];
    manifest
}

#[test]
fn manifest_round_trip_is_canonical() {
    let manifest = valid_manifest();
    let encoded = manifest.encode();
    assert_eq!(encoded.len(), MANIFEST_BYTES);
    assert_eq!(UpdateManifest::decode(&encoded), Ok(manifest));
    assert_eq!(manifest.signing_len(), SIGNING_BYTES);
    assert_eq!(manifest.signing_bytes(), encoded[..SIGNING_BYTES]);
}

#[test]
fn manifest_signs_next_trust_root() {
    let mut manifest = UpdateManifest::unsigned_with_next_trust_key(
        8,
        65_536,
        [0x11; SHA256_BYTES],
        [0x22; KEY_ID_BYTES],
        [0x33; PUBLIC_KEY_BYTES],
        [0x44; KEY_ID_BYTES],
    );
    manifest.signature = [0x55; ED25519_SIGNATURE_BYTES];
    let encoded = manifest.encode();
    assert_eq!(encoded[80..112], [0x33; PUBLIC_KEY_BYTES]);
    assert_eq!(encoded[112..128], [0x44; KEY_ID_BYTES]);
    assert_eq!(encoded[160..224], [0x55; ED25519_SIGNATURE_BYTES]);
    assert_eq!(UpdateManifest::decode(&encoded), Ok(manifest));
    assert!(manifest.has_next_trust_key());
}

#[test]
fn legacy_manifest_decode_preserves_original_signing_span() {
    let mut encoded = [0_u8; LEGACY_MANIFEST_BYTES];
    encoded[0..8].copy_from_slice(&MANIFEST_MAGIC);
    put_le_u32(&mut encoded, 8, LEGACY_MANIFEST_FORMAT_VERSION);
    put_le_u32(&mut encoded, 12, LEGACY_MANIFEST_BYTES as u32);
    put_le_u64(&mut encoded, 16, 3);
    put_le_u64(&mut encoded, 24, 4096);
    encoded[32..64].fill(0x21);
    encoded[64..80].fill(0x43);
    encoded[80..144].fill(0x65);

    let manifest = UpdateManifest::decode(&encoded).unwrap();
    assert_eq!(manifest.format_version, LEGACY_MANIFEST_FORMAT_VERSION);
    assert_eq!(manifest.signing_len(), LEGACY_SIGNING_BYTES);
    assert_eq!(
        &manifest.signing_bytes()[..LEGACY_SIGNING_BYTES],
        &encoded[..LEGACY_SIGNING_BYTES]
    );
    assert!(!manifest.has_next_trust_key());
}

#[test]
fn rejects_unsigned_or_extended_manifests() {
    let mut unsigned = valid_manifest().encode();
    unsigned[160..224].fill(0);
    assert_eq!(
        UpdateManifest::decode(&unsigned),
        Err(ManifestError::InvalidSignature)
    );
    let mut extended = valid_manifest().encode();
    extended[159] = 1;
    assert_eq!(
        UpdateManifest::decode(&extended),
        Err(ManifestError::NonzeroReservedBytes)
    );
}

#[test]
fn rejects_partial_next_trust_root() {
    let mut encoded = valid_manifest().encode();
    encoded[80] = 1;
    assert_eq!(
        UpdateManifest::decode(&encoded),
        Err(ManifestError::InvalidNextTrustKey)
    );
}

#[test]
fn boot_state_round_trip_and_slot_switch_are_canonical() {
    let state = BootState {
        generation: 42,
        active_slot: SystemSlot::B,
        active_release_version: 9,
    };
    let encoded = state.encode();
    assert_eq!(BootState::decode(&encoded), Ok(state));
    assert_eq!(state.active_slot.other(), SystemSlot::A);
}

#[test]
fn boot_state_checksum_detects_active_slot_corruption() {
    let mut encoded = BootState {
        generation: 1,
        active_slot: SystemSlot::A,
        active_release_version: 1,
    }
    .encode();
    encoded[24] = 1;
    assert_eq!(
        BootState::decode(&encoded),
        Err(BootStateError::InvalidChecksum)
    );
}

#[test]
fn trust_root_state_round_trip_is_checksummed() {
    let state = TrustRootState {
        activation_release_version: 12,
        public_key: [0x7b; PUBLIC_KEY_BYTES],
        key_id: [0xb7; KEY_ID_BYTES],
    };
    let encoded = state.encode();
    assert_eq!(TrustRootState::decode(&encoded), Ok(state));

    let mut damaged = encoded;
    damaged[24] ^= 1;
    assert_eq!(
        TrustRootState::decode(&damaged),
        Err(TrustRootStateError::InvalidChecksum)
    );
}
