//! Updates of an installed system, and the identities that sign them.

use vstd::prelude::*;
use crate::fs::format::low_first_8;
use crate::bytes::{array_at, bytes_equal};
use crate::crypto::{decodes_as_key, derive_public_key, is_public_key, public_key_for, sha256, sha256_of};
use crate::hex::{decode_hex_public_key, hex_fault, spelled, HexError};
use crate::loader::slots::{in_first_record, keeps_in_first_record, load_boot_state, newer, recorded};
use crate::release::{
    release_fault, verify_signed_release_with_key, ReleaseError,
};
use crate::text::{characters, parse_unsigned, unsigned_value};
use crate::update_format::{
    BootState, SystemSlot, UpdateManifest, PUBLIC_KEY_BYTES, SHA256_BYTES,
};
use vstd::utf8::encode_utf8;

verus! {

/// Why the number of a release cannot be used.
#[derive(Debug, Clone, Copy, PartialEq, Eq, Structural)]
pub enum VersionError {
    Invalid,
    Zero,
}

/// The number of a release: the first one unless another is named.
pub fn release_version(raw: Option<&str>) -> (version: Result<u64, VersionError>)
    ensures
        match raw {
            None => version == Ok::<u64, VersionError>(1),
            Some(text) => match unsigned_value(text@, u64::MAX as nat) {
                None => version == Err::<u64, VersionError>(VersionError::Invalid),
                Some(value) => if value == 0 {
                    version == Err::<u64, VersionError>(VersionError::Zero)
                } else {
                    version == Ok::<u64, VersionError>(value as u64)
                },
            },
        },
{
    match raw {
        None => Ok(1),
        Some(text) => {
            let text = characters(text);
            match parse_unsigned(text.as_slice(), u64::MAX) {
                None => Err(VersionError::Invalid),
                Some(version) => if version == 0 {
                    Err(VersionError::Zero)
                } else {
                    Ok(version)
                },
            }
        },
    }
}

/// Why an update is not applied.
#[derive(Debug, Clone, Copy, PartialEq, Eq, Structural)]
pub enum UpdateError {
    VersionZero,
    NoBootState,
    NotNewer { version: u64, installed: u64 },
    Release(ReleaseError),
    ReadbackDiffers,
    GenerationExhausted,
    StateNotInEffect,
}

/// An update that can be applied: the state that is in effect, and the slot that is not in use.
#[derive(Debug, Clone, Copy, PartialEq, Eq, Structural)]
pub struct UpdatePlan {
    pub current: BootState,
    pub inactive: SystemSlot,
    pub version: u64,
}

/// Plans an update: only a newer release is applied, and to the slot that is not in use.
pub fn plan_update(first: Option<&[u8]>, second: Option<&[u8]>, version: u64) -> (plan: Result<
    UpdatePlan,
    UpdateError,
>)
    ensures
        plan == if version == 0 {
            Err::<UpdatePlan, UpdateError>(UpdateError::VersionZero)
        } else {
            match newer(recorded(first), recorded(second)) {
                None => Err(UpdateError::NoBootState),
                Some(current) => if version <= current.active_release_version {
                    Err(
                        UpdateError::NotNewer {
                            version,
                            installed: current.active_release_version,
                        },
                    )
                } else {
                    Ok(
                        UpdatePlan {
                            current,
                            inactive: current.active_slot.opposite(),
                            version,
                        },
                    )
                },
            }
        },
{
    if version == 0 {
        return Err(UpdateError::VersionZero);
    }
    match load_boot_state(first, second) {
        Ok(current) => {
            if version <= current.active_release_version {
                return Err(
                    UpdateError::NotNewer { version, installed: current.active_release_version },
                );
            }
            Ok(UpdatePlan { current, inactive: current.active_slot.other(), version })
        },
        Err(_) => Err(UpdateError::NoBootState),
    }
}

/// Why a release is not accepted from its stored form.
pub open spec fn stored_release_fault(
    kernel: Seq<u8>,
    manifest: Seq<u8>,
    public_key: Seq<u8>,
    error: ReleaseError,
) -> bool {
    if !decodes_as_key(public_key) {
        error == ReleaseError::SigningKeyInvalid
    } else {
        match UpdateManifest::fault(manifest) {
            Some(fault) => error == ReleaseError::Manifest(fault),
            None => forall|read: UpdateManifest| #[trigger]
                read.read_from(manifest) ==> release_fault(kernel, read, public_key) == Some(error),
        }
    }
}

/// Whether a release is accepted from its stored form.
pub open spec fn stored_release_holds(kernel: Seq<u8>, manifest: Seq<u8>, public_key: Seq<u8>) -> bool {
    &&& decodes_as_key(public_key)
    &&& UpdateManifest::fault(manifest) is None
    &&& exists|read: UpdateManifest| #[trigger]
        read.read_from(manifest) && release_fault(kernel, read, public_key) is None
}

/// Checks what was read back of a slot: it is a release that is accepted, and the one that was
/// written.
pub fn check_readback(
    kernel: &[u8],
    manifest: &[u8],
    kernel_read: &[u8],
    manifest_read: &[u8],
    public_key: &[u8; PUBLIC_KEY_BYTES],
) -> (result: Result<(), UpdateError>)
    ensures
        match result {
            Ok(_) => kernel_read@ == kernel@ && manifest_read@ == manifest@ && stored_release_holds(
                kernel@,
                manifest@,
                public_key@,
            ),
            Err(UpdateError::Release(error)) => stored_release_fault(
                kernel_read@,
                manifest_read@,
                public_key@,
                error,
            ),
            Err(UpdateError::ReadbackDiffers) => stored_release_holds(
                kernel_read@,
                manifest_read@,
                public_key@,
            ) && (kernel_read@ != kernel@ || manifest_read@ != manifest@),
            Err(_) => false,
        },
{
    match verify_signed_release_with_key(kernel_read, manifest_read, public_key) {
        Ok(read) => {
            assert(read.read_from(manifest_read@));
        },
        Err(error) => return Err(UpdateError::Release(error)),
    }
    if !bytes_equal(kernel_read, kernel) || !bytes_equal(manifest_read, manifest) {
        return Err(UpdateError::ReadbackDiffers);
    }
    Ok(())
}

impl UpdatePlan {
    /// The boot state that puts the update into effect, and whether it goes to the first of the two
    /// records.
    pub fn next_state(&self) -> (next: Result<(BootState, bool), UpdateError>)
        ensures
            next == if self.current.generation == u64::MAX {
                Err::<(BootState, bool), UpdateError>(UpdateError::GenerationExhausted)
            } else {
                let generation = (self.current.generation + 1) as u64;
                Ok(
                    (
                        BootState {
                            generation,
                            active_slot: self.inactive,
                            active_release_version: self.version,
                        },
                        in_first_record(generation),
                    ),
                )
            },
    {
        match self.current.generation.checked_add(1) {
            None => Err(UpdateError::GenerationExhausted),
            Some(generation) => Ok(
                (
                    BootState {
                        generation,
                        active_slot: self.inactive,
                        active_release_version: self.version,
                    },
                    keeps_in_first_record(generation),
                ),
            ),
        }
    }
}

/// Checks that a boot state is in effect.
pub fn check_state(next: BootState, first: Option<&[u8]>, second: Option<&[u8]>) -> (result: Result<
    (),
    UpdateError,
>)
    ensures
        result == match newer(recorded(first), recorded(second)) {
            None => Err::<(), UpdateError>(UpdateError::NoBootState),
            Some(state) => if state == next {
                Ok(())
            } else {
                Err(UpdateError::StateNotInEffect)
            },
        },
{
    match load_boot_state(first, second) {
        Err(_) => Err(UpdateError::NoBootState),
        Ok(state) => if state == next {
            Ok(())
        } else {
            Err(UpdateError::StateNotInEffect)
        },
    }
}

/// The boot states of a system that is installed anew: both name the first slot, and the second is
/// newer.
pub fn initial_states(release_version: u64) -> (states: (BootState, BootState))
    ensures
        states.0 == (BootState {
            generation: 1,
            active_slot: SystemSlot::A,
            active_release_version: release_version,
        }),
        states.1 == (BootState { generation: 2, ..states.0 }),
{
    let first = BootState {
        generation: 1,
        active_slot: SystemSlot::A,
        active_release_version: release_version,
    };
    (first, BootState { generation: 2, ..first })
}

/// What is to be done next for an update.
#[derive(Debug, Clone, Copy, PartialEq, Eq, Structural)]
pub enum UpdateStep {
    /// Write the release to the slot that is not in use.
    WriteInactive(SystemSlot),
    /// Read it back and check it.
    CheckInactive(SystemSlot),
    /// Write the boot state that puts the release into effect.
    WriteState { state: BootState, in_first: bool },
    /// Check that it is in effect.
    CheckState(BootState),
    /// Write the release to the slot that was in use.
    WriteRedundant { slot: SystemSlot, state: BootState },
    /// Read it back and check it.
    CheckRedundant { slot: SystemSlot, state: BootState },
    Committed(BootState),
    Failed(UpdateError),
}

/// An update that is being applied.
#[derive(Debug, Clone, Copy, PartialEq, Eq, Structural)]
pub struct UpdateRun {
    pub plan: UpdatePlan,
    pub step: UpdateStep,
}

/// What comes after something was written.
pub open spec fn after_written(step: UpdateStep) -> UpdateStep {
    match step {
        UpdateStep::WriteInactive(slot) => UpdateStep::CheckInactive(slot),
        UpdateStep::WriteState { state, in_first } => UpdateStep::CheckState(state),
        UpdateStep::WriteRedundant { slot, state } => UpdateStep::CheckRedundant { slot, state },
        _ => step,
    }
}

/// What comes after what was written was checked.
pub open spec fn after_checked(run: UpdateRun, checked: Result<(), UpdateError>) -> UpdateStep {
    let current = run.plan.current;
    match (run.step, checked) {
        (UpdateStep::CheckInactive(slot), Ok(_)) => if current.generation == u64::MAX {
            UpdateStep::Failed(UpdateError::GenerationExhausted)
        } else {
            UpdateStep::WriteState {
                state: BootState {
                    generation: (current.generation + 1) as u64,
                    active_slot: run.plan.inactive,
                    active_release_version: run.plan.version,
                },
                in_first: in_first_record((current.generation + 1) as u64),
            }
        },
        (UpdateStep::CheckState(state), Ok(_)) => UpdateStep::WriteRedundant {
            slot: current.active_slot,
            state,
        },
        (UpdateStep::CheckRedundant { slot, state }, Ok(_)) => UpdateStep::Committed(state),
        (UpdateStep::CheckInactive(_), Err(error)) => UpdateStep::Failed(error),
        (UpdateStep::CheckState(_), Err(error)) => UpdateStep::Failed(error),
        (UpdateStep::CheckRedundant { .. }, Err(error)) => UpdateStep::Failed(error),
        (step, _) => step,
    }
}

impl UpdateRun {
    /// The boot state is the one that puts the update into effect.
    pub open spec fn names_update(self, state: BootState) -> bool {
        &&& state.generation == self.plan.current.generation + 1
        &&& state.active_slot == self.plan.inactive
        &&& state.active_release_version == self.plan.version
    }

    /// The slot that is not in use is written first, the one that is in use only once another boot
    /// state is in effect.
    pub open spec fn well_formed(self) -> bool {
        &&& self.plan.inactive == self.plan.current.active_slot.opposite()
        &&& match self.step {
            UpdateStep::WriteInactive(slot) => slot == self.plan.inactive,
            UpdateStep::CheckInactive(slot) => slot == self.plan.inactive,
            UpdateStep::WriteState { state, in_first } => self.names_update(state),
            UpdateStep::CheckState(state) => self.names_update(state),
            UpdateStep::WriteRedundant { slot, state } => slot == self.plan.current.active_slot
                && self.names_update(state),
            UpdateStep::CheckRedundant { slot, state } => slot == self.plan.current.active_slot
                && self.names_update(state),
            UpdateStep::Committed(state) => self.names_update(state),
            UpdateStep::Failed(_) => true,
        }
    }

    /// Starts to apply an update that was planned.
    pub fn new(plan: UpdatePlan) -> (run: UpdateRun)
        requires
            plan.inactive == plan.current.active_slot.opposite(),
        ensures
            run == (UpdateRun { plan, step: UpdateStep::WriteInactive(plan.inactive) }),
            run.well_formed(),
    {
        UpdateRun { plan, step: UpdateStep::WriteInactive(plan.inactive) }
    }

    /// Takes that something was written.
    pub fn written(&mut self)
        ensures
            *final(self) == (UpdateRun { step: after_written(old(self).step), ..*old(self) }),
            old(self).well_formed() ==> final(self).well_formed(),
    {
        self.step = match self.step {
            UpdateStep::WriteInactive(slot) => UpdateStep::CheckInactive(slot),
            UpdateStep::WriteState { state, in_first: _ } => UpdateStep::CheckState(state),
            UpdateStep::WriteRedundant { slot, state } => {
                UpdateStep::CheckRedundant { slot, state }
            },
            step => step,
        };
    }

    /// Takes what the check of what was written came to.
    pub fn checked(&mut self, checked: Result<(), UpdateError>)
        ensures
            *final(self) == (UpdateRun { step: after_checked(*old(self), checked), ..*old(self) }),
            old(self).well_formed() ==> final(self).well_formed(),
    {
        self.step = match (self.step, checked) {
            (UpdateStep::CheckInactive(_), Ok(_)) => match self.plan.next_state() {
                Ok((state, in_first)) => UpdateStep::WriteState { state, in_first },
                Err(error) => UpdateStep::Failed(error),
            },
            (UpdateStep::CheckState(state), Ok(_)) => UpdateStep::WriteRedundant {
                slot: self.plan.current.active_slot,
                state,
            },
            (UpdateStep::CheckRedundant { slot: _, state }, Ok(_)) => UpdateStep::Committed(state),
            (UpdateStep::CheckInactive(_), Err(error)) => UpdateStep::Failed(error),
            (UpdateStep::CheckState(_), Err(error)) => UpdateStep::Failed(error),
            (UpdateStep::CheckRedundant { slot: _, state: _ }, Err(error)) => {
                UpdateStep::Failed(error)
            },
            (step, _) => step,
        };
    }
}

/// The slot that is in use is written only after a check that another boot state is in effect, and
/// that boot state only after a check of the slot that it names.
pub proof fn an_update_spares_the_slot_in_use(run: UpdateRun, checked: Result<(), UpdateError>)
    requires
        !(run.step is WriteRedundant),
        !(run.step is WriteState),
    ensures
        !(after_written(run.step) is WriteRedundant),
        after_checked(run, checked) is WriteRedundant ==> run.step is CheckState && checked is Ok,
        after_checked(run, checked) is WriteState ==> run.step is CheckInactive && checked is Ok,
        run.well_formed() && run.step is WriteInactive ==> run.step->WriteInactive_0
            != run.plan.current.active_slot,
{
}

/// A key pair that signs releases.
#[derive(Debug, Clone, Copy)]
pub struct SigningIdentity {
    pub secret_key: [u8; 32],
    pub public_key: [u8; PUBLIC_KEY_BYTES],
}

impl SigningIdentity {
    /// The keys belong together, and signatures can be checked with the public one.
    pub open spec fn well_formed(self) -> bool {
        self.public_key@ == public_key_for(self.secret_key@) && decodes_as_key(self.public_key@)
    }
}

/// The identity of a secret key.
pub fn identity_of(secret_key: [u8; 32]) -> (identity: SigningIdentity)
    ensures
        identity.well_formed(),
        identity.secret_key@ == secret_key@,
{
    let public_key = derive_public_key(&secret_key);
    SigningIdentity { secret_key, public_key }
}

/// The identity whose secret key is in a file, which must have just its bytes.
pub fn load_signing_identity(bytes: &[u8]) -> (identity: Result<SigningIdentity, usize>)
    ensures
        match identity {
            Ok(identity) => identity.well_formed() && identity.secret_key@ == bytes@,
            Err(length) => length == bytes@.len() && length != 32,
        },
{
    if bytes.len() != 32 {
        return Err(bytes.len());
    }
    let secret_key: [u8; 32] = array_at(bytes, 0);
    assert(secret_key@ =~= bytes@);
    Ok(identity_of(secret_key))
}

/// `getrandom::fill`: random bytes, or nothing where the system has none to give. Nothing is known of
/// the bytes.
#[verifier::external_body]
fn random_seed() -> (seed: Option<[u8; 32]>)
{
    let mut seed = [0u8; 32];
    getrandom::fill(&mut seed).ok()?;
    Some(seed)
}

/// A new identity, from random bytes.
pub fn generate_signing_identity() -> (identity: Option<SigningIdentity>)
    ensures
        identity is Some ==> identity.unwrap().well_formed(),
{
    match random_seed() {
        Some(seed) => Some(identity_of(seed)),
        None => None,
    }
}

/// Why a next key cannot be used.
#[derive(Debug, Clone, Copy, PartialEq, Eq, Structural)]
pub enum NextKeyError {
    Hex(HexError),
    Length(usize),
    Invalid,
}

/// Where the next key comes from.
#[derive(Debug, Clone, Copy)]
pub enum NextKeySource<'a> {
    Missing,
    Hex(&'a str),
    File(&'a [u8]),
}

/// Checks a next key, by whether it can be a public key.
pub fn accept_next_key(key: [u8; PUBLIC_KEY_BYTES], decodes: bool) -> (accepted: Result<
    Option<[u8; PUBLIC_KEY_BYTES]>,
    NextKeyError,
>)
    ensures
        accepted == if decodes {
            Ok::<Option<[u8; PUBLIC_KEY_BYTES]>, NextKeyError>(Some(key))
        } else {
            Err(NextKeyError::Invalid)
        },
{
    if decodes {
        Ok(Some(key))
    } else {
        Err(NextKeyError::Invalid)
    }
}

/// The next key, where one is given: in digits, or in a file that has just its bytes.
pub fn next_trust_key(source: NextKeySource) -> (key: Result<
    Option<[u8; PUBLIC_KEY_BYTES]>,
    NextKeyError,
>)
    ensures
        match source {
            NextKeySource::Missing => key is Ok && key->Ok_0 is None,
            NextKeySource::Hex(text) => match hex_fault(encode_utf8(text@)) {
                Some(error) => key is Err && key->Err_0 == NextKeyError::Hex(error),
                None => match key {
                    Ok(Some(bytes)) => spelled(encode_utf8(text@), bytes@) && decodes_as_key(bytes@),
                    Ok(None) => false,
                    Err(error) => error == NextKeyError::Invalid && exists|bytes: Seq<u8>|
                        bytes.len() == PUBLIC_KEY_BYTES && #[trigger] spelled(
                            encode_utf8(text@),
                            bytes,
                        ) && !decodes_as_key(bytes),
                },
            },
            NextKeySource::File(file) => if file@.len() != PUBLIC_KEY_BYTES {
                key is Err && key->Err_0 == NextKeyError::Length(file@.len() as usize)
            } else if !decodes_as_key(file@) {
                key is Err && key->Err_0 == NextKeyError::Invalid
            } else {
                key is Ok && key->Ok_0 is Some && key->Ok_0.unwrap()@ == file@
            },
        },
{
    match source {
        NextKeySource::Missing => Ok(None),
        NextKeySource::Hex(text) => match decode_hex_public_key(text) {
            Ok(key) => {
                assert(spelled(encode_utf8(text@), key@));
                let decodes = is_public_key(&key);
                accept_next_key(key, decodes)
            },
            Err(error) => Err(NextKeyError::Hex(error)),
        },
        NextKeySource::File(file) => {
            if file.len() != PUBLIC_KEY_BYTES {
                return Err(NextKeyError::Length(file.len()));
            }
            let key: [u8; PUBLIC_KEY_BYTES] = array_at(file, 0);
            assert(key@ =~= file@);
            let decodes = is_public_key(&key);
            accept_next_key(key, decodes)
        },
    }
}

/// The digest of an image.
pub fn image_digest(image: &[u8]) -> (digest: [u8; SHA256_BYTES])
    ensures
        digest@ == sha256_of(image@),
{
    sha256(image)
}

/// Whether what was installed is what was to be installed, by their digests.
pub fn same_digest(expected: &[u8; SHA256_BYTES], installed: &[u8; SHA256_BYTES]) -> (same: bool)
    ensures
        same == (expected@ == installed@),
{
    bytes_equal(expected.as_slice(), installed.as_slice())
}

/// An update that passes every check writes the slot that is not in use, makes it the active one in the
/// next generation with the new release, writes the other slot too, and is then committed; a check that
/// fails ends it with that error.
pub proof fn an_update_goes_through_every_step(plan: UpdatePlan, error: UpdateError)
    requires
        plan.current.generation < u64::MAX,
    ensures
        ({
            let next = BootState {
                generation: (plan.current.generation + 1) as u64,
                active_slot: plan.inactive,
                active_release_version: plan.version,
            };
            let in_first = (plan.current.generation + 1) % 2 == 1;
            let slot = plan.current.active_slot;
            let checking = UpdateRun { plan, step: after_written(UpdateStep::WriteInactive(plan.inactive)) };
            let state_written = UpdateRun {
                plan,
                step: after_written(UpdateStep::WriteState { state: next, in_first }),
            };
            let both_written = UpdateRun {
                plan,
                step: after_written(UpdateStep::WriteRedundant { slot, state: next }),
            };
            &&& after_checked(checking, Ok(())) == (UpdateStep::WriteState { state: next, in_first })
            &&& after_checked(state_written, Ok(())) == (UpdateStep::WriteRedundant {
                slot,
                state: next,
            })
            &&& after_checked(both_written, Ok(())) == UpdateStep::Committed(next)
            &&& after_checked(checking, Err(error)) == UpdateStep::Failed(error)
            &&& after_checked(state_written, Err(error)) == UpdateStep::Failed(error)
            &&& after_checked(both_written, Err(error)) == UpdateStep::Failed(error)
        }),
{
}

/// What is stored is a release if and only if the key decodes, the manifest is sound, and kernel, key and
/// signature are what it says.
pub proof fn a_stored_release_is_what_its_manifest_says(
    kernel: Seq<u8>,
    manifest: Seq<u8>,
    public_key: Seq<u8>,
)
    requires
        stored_release_holds(kernel, manifest, public_key),
    ensures
        decodes_as_key(public_key),
        UpdateManifest::fault(manifest) is None,
        kernel.len() == low_first_8(manifest, 24),
        sha256_of(kernel) == manifest.subrange(32, 64),
        sha256_of(public_key).take(16) == manifest.subrange(64, 80),
{
    let read = choose|read: UpdateManifest| #[trigger]
        read.read_from(manifest) && release_fault(kernel, read, public_key) is None;
    assert(read.read_from(manifest));
}

} // verus!
