use codexos::hex::{decode_hex_public_key, hex_encode, hex_nibble, HexError};
use codexos::release::{
    judge_release, key_id_for_public_key, sign_kernel_release_with_identity,
    validate_manifest_next_trust_key, verify_signed_release_with_key, ReleaseError, ReleaseFacts,
};
use codexos::update::{
    check_readback, check_state, generate_signing_identity, identity_of, image_digest,
    initial_states, load_signing_identity, next_trust_key, plan_update, release_version,
    same_digest, NextKeyError, NextKeySource, UpdateError, UpdateRun, UpdateStep, VersionError,
};
use codexos::update_format::{BootState, ManifestError, SystemSlot, UpdateManifest};

const SECRET_HEX: &str = "9d61b19deffd5a60ba844af492ec2cc44449c5697b326919703bac031cae7f60";

const PUBLIC_HEX: &str = "d75a980182b10ab7d54bfed3c964073a0ee172f3daa62325af021a68f707511a";

fn secret() -> [u8; 32] {
    decode_hex_public_key(SECRET_HEX).unwrap()
}

fn public() -> [u8; 32] {
    decode_hex_public_key(PUBLIC_HEX).unwrap()
}

fn other_identity() -> [u8; 32] {
    [0x42; 32]
}

fn no_key() -> [u8; 32] {
    let mut candidate = [0u8; 32];
    for first in 0..=255 {
        candidate[0] = first;
        if next_trust_key(NextKeySource::File(&candidate)).is_err() {
            return candidate;
        }
    }
    unreachable!()
}

#[test]
fn digests_are_those_of_the_standard() {
    assert_eq!(
        hex_encode(&image_digest(b"abc")),
        "ba7816bf8f01cfea414140de5dae2223b00361a396177a9cb410ff61f20015ad"
    );
    assert!(same_digest(&image_digest(b"abc"), &image_digest(b"abc")));
    assert!(!same_digest(&image_digest(b"abc"), &image_digest(b"abd")));
}

#[test]
fn key_identifiers_are_the_start_of_a_digest() {
    assert_eq!(
        hex_encode(&key_id_for_public_key(&[0; 32])),
        "66687aadf862bd776c8fc18b8e9f8e20"
    );
}

#[test]
fn public_keys_belong_to_secret_keys() {
    assert_eq!(identity_of(secret()).public_key, public());
    assert_eq!(
        load_signing_identity(&secret()).unwrap().public_key,
        public()
    );
    assert_eq!(load_signing_identity(&[0; 31]).unwrap_err(), 31);
}

#[test]
fn new_identities_sign() {
    let identity = generate_signing_identity().unwrap();
    let manifest = sign_kernel_release_with_identity(b"kernel", 1, &identity.secret_key, None);
    assert!(verify_signed_release_with_key(b"kernel", &manifest, &identity.public_key).is_ok());
    let another = generate_signing_identity().unwrap();
    assert_ne!(identity.secret_key, another.secret_key);
}

#[test]
fn a_signed_release_is_accepted() {
    let next = identity_of(other_identity()).public_key;
    let encoded = sign_kernel_release_with_identity(b"kernel", 7, &secret(), Some(next));
    let manifest = verify_signed_release_with_key(b"kernel", &encoded, &public()).unwrap();
    assert_eq!(manifest.release_version, 7);
    assert_eq!(manifest.kernel_size, 6);
    assert_eq!(manifest.kernel_sha256, image_digest(b"kernel"));
    assert_eq!(manifest.key_id, key_id_for_public_key(&public()));
    assert_eq!(manifest.next_trust_public_key, next);
    assert_eq!(manifest.next_trust_key_id, key_id_for_public_key(&next));
}

#[test]
fn changed_releases_are_refused() {
    let encoded = sign_kernel_release_with_identity(b"kernel", 7, &secret(), None);
    let verify = |kernel: &[u8], manifest: &[u8], key: &[u8; 32]| {
        verify_signed_release_with_key(kernel, manifest, key).unwrap_err()
    };
    assert_eq!(
        verify(b"kernels", &encoded, &public()),
        ReleaseError::KernelSizeMismatch
    );
    assert_eq!(
        verify(b"kernal", &encoded, &public()),
        ReleaseError::KernelHashMismatch
    );
    assert_eq!(
        verify(b"kernel", &encoded, &identity_of(other_identity()).public_key),
        ReleaseError::KeyIdMismatch
    );
    assert_eq!(
        verify(b"kernel", &encoded, &no_key()),
        ReleaseError::SigningKeyInvalid
    );
    assert_eq!(
        verify(b"kernel", &encoded[..100], &public()),
        ReleaseError::Manifest(ManifestError::InvalidLength)
    );
    let mut signature = encoded;
    signature[160] ^= 0x80;
    assert_eq!(
        verify(b"kernel", &signature, &public()),
        ReleaseError::SignatureInvalid
    );
}

#[test]
fn next_keys_are_checked() {
    let unusable = sign_kernel_release_with_identity(b"kernel", 7, &secret(), Some(no_key()));
    assert_eq!(
        verify_signed_release_with_key(b"kernel", &unusable, &public()).unwrap_err(),
        ReleaseError::NextTrustKeyInvalid
    );
    let next = identity_of(other_identity()).public_key;
    let encoded = sign_kernel_release_with_identity(b"kernel", 7, &secret(), Some(next));
    let mut manifest = UpdateManifest::decode(&encoded).unwrap();
    assert_eq!(validate_manifest_next_trust_key(&manifest), Ok(()));
    manifest.next_trust_key_id[0] ^= 1;
    assert_eq!(
        validate_manifest_next_trust_key(&manifest),
        Err(ReleaseError::NextTrustKeyIdMismatch)
    );
}

#[test]
fn releases_are_judged_by_the_facts() {
    let manifest = UpdateManifest::unsigned(3, 10, [1; 32], [2; 16]);
    let facts = ReleaseFacts {
        kernel_size: 10,
        kernel_sha256: [1; 32],
        key_id: [2; 16],
        next_key_decodes: false,
        next_key_id: [0; 16],
        signature_holds: true,
    };
    assert_eq!(judge_release(&manifest, &facts), None);
    assert_eq!(
        judge_release(&manifest, &ReleaseFacts { signature_holds: false, ..facts }),
        Some(ReleaseError::SignatureInvalid)
    );
    assert_eq!(
        judge_release(&manifest, &ReleaseFacts { key_id: [3; 16], ..facts }),
        Some(ReleaseError::KeyIdMismatch)
    );
}

#[test]
fn hexadecimal_keys_round_trip() {
    assert_eq!(hex_encode(&public()), PUBLIC_HEX);
    assert_eq!(
        decode_hex_public_key(&PUBLIC_HEX.to_ascii_uppercase()),
        Ok(public())
    );
    assert_eq!(decode_hex_public_key("00"), Err(HexError::Length(2)));
    let high = PUBLIC_HEX.replacen("d7", "g7", 1);
    assert_eq!(decode_hex_public_key(&high), Err(HexError::HighNibble(0)));
    let low = PUBLIC_HEX.replacen("5a", "5 ", 1);
    assert_eq!(decode_hex_public_key(&low), Err(HexError::LowNibble(1)));
    assert_eq!(hex_nibble(b'f'), Some(15));
    assert_eq!(hex_nibble(b'A'), Some(10));
    assert_eq!(hex_nibble(b'/'), None);
}

#[test]
fn next_keys_come_from_digits_or_a_file() {
    assert_eq!(next_trust_key(NextKeySource::Missing), Ok(None));
    assert_eq!(
        next_trust_key(NextKeySource::Hex(PUBLIC_HEX)),
        Ok(Some(public()))
    );
    assert_eq!(
        next_trust_key(NextKeySource::File(&public())),
        Ok(Some(public()))
    );
    assert_eq!(
        next_trust_key(NextKeySource::File(&[0; 3])),
        Err(NextKeyError::Length(3))
    );
    assert_eq!(
        next_trust_key(NextKeySource::File(&no_key())),
        Err(NextKeyError::Invalid)
    );
    assert_eq!(
        next_trust_key(NextKeySource::Hex("")),
        Err(NextKeyError::Hex(HexError::Length(0)))
    );
}

#[test]
fn release_numbers_are_positive() {
    assert_eq!(release_version(None), Ok(1));
    assert_eq!(release_version(Some("12")), Ok(12));
    assert_eq!(release_version(Some("+12")), Ok(12));
    assert_eq!(release_version(Some("0")), Err(VersionError::Zero));
    assert_eq!(release_version(Some("")), Err(VersionError::Invalid));
    assert_eq!(release_version(Some("-1")), Err(VersionError::Invalid));
    assert_eq!(
        release_version(Some("18446744073709551615")),
        Ok(18446744073709551615)
    );
    assert_eq!(
        release_version(Some("18446744073709551616")),
        Err(VersionError::Invalid)
    );
}

#[test]
fn updates_go_to_the_slot_that_is_not_in_use() {
    let (first, second) = initial_states(1);
    let (a, b) = (first.encode(), second.encode());
    let plan = plan_update(Some(&a), Some(&b), 2).unwrap();
    assert_eq!(plan.current, second);
    assert_eq!(plan.inactive, SystemSlot::B);
    let (next, in_first) = plan.next_state().unwrap();
    assert_eq!(
        next,
        BootState { generation: 3, active_slot: SystemSlot::B, active_release_version: 2 }
    );
    assert!(in_first);
    let written = next.encode();
    assert_eq!(check_state(next, Some(&written), Some(&b)), Ok(()));
    assert_eq!(
        check_state(next, Some(&a), Some(&b)),
        Err(UpdateError::StateNotInEffect)
    );
    assert_eq!(check_state(next, None, None), Err(UpdateError::NoBootState));
}

#[test]
fn updates_that_are_not_newer_are_refused() {
    let (first, second) = initial_states(4);
    let (a, b) = (first.encode(), second.encode());
    assert_eq!(
        plan_update(Some(&a), Some(&b), 4),
        Err(UpdateError::NotNewer { version: 4, installed: 4 })
    );
    assert_eq!(plan_update(Some(&a), None, 0), Err(UpdateError::VersionZero));
    assert_eq!(plan_update(None, None, 5), Err(UpdateError::NoBootState));
    let exhausted = BootState { generation: u64::MAX, ..first }.encode();
    assert_eq!(
        plan_update(Some(&exhausted), None, 5).unwrap().next_state(),
        Err(UpdateError::GenerationExhausted)
    );
}

#[test]
fn what_was_written_is_read_back() {
    let manifest = sign_kernel_release_with_identity(b"kernel", 2, &secret(), None);
    let another = sign_kernel_release_with_identity(b"kernel", 3, &secret(), None);
    assert_eq!(
        check_readback(b"kernel", &manifest, b"kernel", &manifest, &public()),
        Ok(())
    );
    assert_eq!(
        check_readback(b"kernel", &manifest, b"kernel", &another, &public()),
        Err(UpdateError::ReadbackDiffers)
    );
    assert_eq!(
        check_readback(b"kernel", &manifest, b"kernal", &manifest, &public()),
        Err(UpdateError::Release(ReleaseError::KernelHashMismatch))
    );
}

#[test]
fn the_slot_in_use_is_written_last() {
    let (first, second) = initial_states(1);
    let (a, b) = (first.encode(), second.encode());
    let mut run = UpdateRun::new(plan_update(Some(&a), Some(&b), 2).unwrap());
    assert_eq!(run.step, UpdateStep::WriteInactive(SystemSlot::B));
    run.written();
    run.checked(Ok(()));
    let state = BootState { generation: 3, active_slot: SystemSlot::B, active_release_version: 2 };
    assert_eq!(run.step, UpdateStep::WriteState { state, in_first: true });
    run.written();
    assert_eq!(run.step, UpdateStep::CheckState(state));
    run.checked(Ok(()));
    assert_eq!(run.step, UpdateStep::WriteRedundant { slot: SystemSlot::A, state });
    run.written();
    run.checked(Ok(()));
    assert_eq!(run.step, UpdateStep::Committed(state));

    let mut refused = UpdateRun::new(plan_update(Some(&a), Some(&b), 2).unwrap());
    refused.written();
    refused.checked(Err(UpdateError::ReadbackDiffers));
    assert_eq!(refused.step, UpdateStep::Failed(UpdateError::ReadbackDiffers));
}
