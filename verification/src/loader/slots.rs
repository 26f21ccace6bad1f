//! The choice between the two system slots.

use vstd::prelude::*;
use crate::bootinfo::{KernelImageInfo, MAX_KERNEL_IMAGE_SEGMENTS};
use crate::elf::{
    header_in, programs_in_reach, programs_readable, sections_in_reach, sections_readable,
};
use crate::loader::image::{
    copies, describes, image_span, notes_staging, parse_kernel_image, segments_copy, span_of,
    stage_kernel_segments, stageable, staged_image, ImageSpan,
};
use crate::loader::trust::{
    confirm_trust_root, enforce_release_version, hand_over_fault, hands_over, is_trust_root,
    lowest_release, plan_trust_root_update, root_confirmed, root_refuses, trust_root_fault,
    verify_kernel_release, KernelLoadError, TrustRoot, Variable,
};
use crate::crypto::sha256_of;
use crate::release::signed_message;
use crate::update_format::{
    boot_state_round_trip, BootState, SystemSlot, TrustRootState, UpdateManifest,
};

verus! {

/// The boot state whose record this is.
pub open spec fn recorded(record: Option<&[u8]>) -> Option<BootState> {
    match record {
        Some(bytes) => if BootState::fault(bytes@) is None {
            Some(
                BootState {
                    generation: crate::bytes::le64(bytes@, 16) as u64,
                    active_slot: if bytes@[24] == 0 {
                        SystemSlot::A
                    } else {
                        SystemSlot::B
                    },
                    active_release_version: crate::bytes::le64(bytes@, 32) as u64,
                },
            )
        } else {
            None
        },
        None => None,
    }
}

/// The newer of two boot states; of two equally new ones, the first.
pub open spec fn newer(first: Option<BootState>, second: Option<BootState>) -> Option<BootState> {
    match (first, second) {
        (Some(a), Some(b)) => if b.generation > a.generation {
            Some(b)
        } else {
            Some(a)
        },
        (Some(a), None) => Some(a),
        (None, second) => second,
    }
}

/// The boot state whose record this is.
fn read_record(record: Option<&[u8]>) -> (state: Option<BootState>)
    ensures
        state == recorded(record),
{
    match record {
        Some(bytes) => match BootState::decode(bytes) {
            Ok(state) => Some(state),
            Err(_) => None,
        },
        None => None,
    }
}

/// The boot state that is in effect: the newest of those that can be read.
pub fn load_boot_state(first: Option<&[u8]>, second: Option<&[u8]>) -> (state: Result<
    BootState,
    KernelLoadError,
>)
    ensures
        state == match newer(recorded(first), recorded(second)) {
            Some(state) => Ok::<BootState, KernelLoadError>(state),
            None => Err(KernelLoadError::BootStateUnavailable),
        },
{
    match (read_record(first), read_record(second)) {
        (Some(a), Some(b)) => if b.generation > a.generation {
            Ok(b)
        } else {
            Ok(a)
        },
        (Some(a), None) => Ok(a),
        (None, Some(b)) => Ok(b),
        (None, None) => Err(KernelLoadError::BootStateUnavailable),
    }
}

/// Whether a generation is kept in the first of the two records.
pub open spec fn in_first_record(generation: u64) -> bool {
    generation % 2 == 1
}

/// Whether a generation is kept in the first of the two records.
pub fn keeps_in_first_record(generation: u64) -> (first: bool)
    ensures
        first == in_first_record(generation),
{
    generation % 2 == 1
}

/// The file of one of the two records.
pub fn boot_state_file(first: bool) -> (name: &'static str)
    ensures
        name@ == if first {
            "BOOTSTA0.BIN"@
        } else {
            "BOOTSTA1.BIN"@
        },
{
    if first {
        "BOOTSTA0.BIN"
    } else {
        "BOOTSTA1.BIN"
    }
}

/// The files of the kernel and of the manifest in a slot.
pub fn slot_files(slot: SystemSlot) -> (names: (&'static str, &'static str))
    ensures
        match slot {
            SystemSlot::A => names.0@ == "SYSTEM/A/KERNEL.ELF"@ && names.1@ == "SYSTEM/A/KERNEL.SIG"@,
            SystemSlot::B => names.0@ == "SYSTEM/B/KERNEL.ELF"@ && names.1@ == "SYSTEM/B/KERNEL.SIG"@,
        },
{
    match slot {
        SystemSlot::A => ("SYSTEM/A/KERNEL.ELF", "SYSTEM/A/KERNEL.SIG"),
        SystemSlot::B => ("SYSTEM/B/KERNEL.ELF", "SYSTEM/B/KERNEL.SIG"),
    }
}

/// Checks that a boot state was written, by the record that was read back.
pub fn confirm_boot_state(state: BootState, read_back: Option<&[u8]>) -> (result: Result<
    (),
    KernelLoadError,
>)
    ensures
        result == if recorded(read_back) == Some(state) {
            Ok::<(), KernelLoadError>(())
        } else {
            Err(KernelLoadError::BootStateRepairFailed)
        },
{
    match read_record(read_back) {
        Some(read) => if read == state {
            Ok(())
        } else {
            Err(KernelLoadError::BootStateRepairFailed)
        },
        None => Err(KernelLoadError::BootStateRepairFailed),
    }
}

/// The record of a valid boot state is read as that state.
pub proof fn a_written_boot_state_is_read(state: BootState, record: &[u8])
    requires
        state.valid(),
        state.encoded_as(record@),
    ensures
        recorded(Some(record)) == Some(state),
{
    boot_state_round_trip(state, record@);
    let read = recorded(Some(record)).unwrap();
    assert(read.encoded_as(record@));
}

/// A boot state of the next generation is in effect once it is written, whatever the other record is.
pub proof fn the_next_generation_takes_effect(
    first: Option<&[u8]>,
    second: Option<&[u8]>,
    next: BootState,
    record: &[u8],
)
    requires
        newer(recorded(first), recorded(second)) is Some,
        next.generation == newer(recorded(first), recorded(second)).unwrap().generation + 1,
        recorded(Some(record)) == Some(next),
    ensures
        newer(recorded(Some(record)), recorded(second)) == Some(next),
        newer(recorded(first), recorded(Some(record))) == Some(next),
{
}

/// While the next generation is being written, the current one can still be read: where the current
/// one is kept in its own record, the next one is written to the other.
pub proof fn the_current_generation_is_spared(generation: u64)
    requires
        generation < u64::MAX,
    ensures
        in_first_record((generation + 1) as u64) != in_first_record(generation),
{
}

/// Writing the next generation may be interrupted: where the current one is kept in its own record, and
/// the record that is being written cannot be read or is the next one's, either the current boot state
/// or the next one is in effect.
pub proof fn an_interrupted_switch_keeps_a_boot_state(
    first: Option<&[u8]>,
    second: Option<&[u8]>,
    current: BootState,
    next: BootState,
    written: Option<&[u8]>,
)
    requires
        newer(recorded(first), recorded(second)) == Some(current),
        recorded(
            if in_first_record(current.generation) {
                first
            } else {
                second
            },
        ) == Some(current),
        next.generation == current.generation + 1,
        recorded(written) is None || recorded(written) == Some(next),
    ensures
        ({
            let after = if in_first_record(next.generation) {
                newer(recorded(written), recorded(second))
            } else {
                newer(recorded(first), recorded(written))
            };
            after == if recorded(written) is None {
                Some(current)
            } else {
                Some(next)
            }
        }),
{
    the_current_generation_is_spared(current.generation);
}

/// What is left to do for a kernel that was admitted.
#[derive(Debug, Clone, Copy)]
pub enum SlotStep {
    /// Stage the kernel in memory.
    Stage,
    /// Read the highest release so far.
    ReadHighestRelease,
    /// Store the release as the highest so far.
    WriteHighestRelease(u64),
    /// Store the trust root.
    WriteTrustRoot(TrustRootState),
    /// Read the trust root back.
    ReadTrustRoot(TrustRootState),
    Loaded,
    Rejected(KernelLoadError),
}

/// A kernel that was admitted.
#[derive(Debug, Clone, Copy)]
pub struct SlotLoad {
    pub info: KernelImageInfo,
    pub manifest: UpdateManifest,
    pub root: TrustRoot,
    pub step: SlotStep,
}

/// Why a kernel is not admitted.
pub open spec fn admission_fault(
    kernel: Option<&[u8]>,
    manifest: Option<&[u8]>,
    encoded: Option<&str>,
    stored: Variable,
    error: KernelLoadError,
) -> bool {
    if kernel is None {
        error == KernelLoadError::KernelReadFailed
    } else if manifest is None {
        error == KernelLoadError::ManifestReadFailed
    } else if UpdateManifest::fault(manifest.unwrap()@) is Some {
        error == KernelLoadError::ManifestInvalid(
            UpdateManifest::fault(manifest.unwrap()@).unwrap(),
        )
    } else {
        refused(kernel.unwrap()@, manifest.unwrap()@, encoded, stored, error)
    }
}

/// Whether a kernel is refused for its manifest, or is no kernel.
pub open spec fn refused(
    kernel: Seq<u8>,
    encoded_manifest: Seq<u8>,
    encoded: Option<&str>,
    stored: Variable,
    error: KernelLoadError,
) -> bool {
    exists|manifest: UpdateManifest| #[trigger]
        manifest.read_from(encoded_manifest) && {
            if kernel.len() != manifest.kernel_size {
                error == KernelLoadError::KernelSizeMismatch
            } else if sha256_of(kernel) != manifest.kernel_sha256@ {
                error == KernelLoadError::KernelHashMismatch
            } else {
                match trust_root_fault(encoded, stored) {
                    Some(fault) => error == fault,
                    None => under_root(kernel, manifest, encoded, stored, error),
                }
            }
        }
}

/// Whether a kernel is refused under the trust root, or is no kernel.
pub open spec fn under_root(
    kernel: Seq<u8>,
    manifest: UpdateManifest,
    encoded: Option<&str>,
    stored: Variable,
    error: KernelLoadError,
) -> bool {
    exists|root: TrustRoot| #[trigger]
        is_trust_root(encoded, stored, root) && match root_refuses(manifest, root) {
            Some(fault) => error == fault,
            None => error == KernelLoadError::InvalidElf && header_in(kernel) is None,
        }
}

/// What is known of a kernel that was admitted.
pub open spec fn admitted(
    load: SlotLoad,
    kernel: Seq<u8>,
    encoded_manifest: Seq<u8>,
    encoded: Option<&str>,
    stored: Variable,
) -> bool {
    &&& UpdateManifest::fault(encoded_manifest) is None
    &&& load.manifest.read_from(encoded_manifest)
    &&& kernel.len() == load.manifest.kernel_size
    &&& sha256_of(kernel) == load.manifest.kernel_sha256@
    &&& trust_root_fault(encoded, stored) is None
    &&& is_trust_root(encoded, stored, load.root)
    &&& root_refuses(load.manifest, load.root) is None
    &&& header_in(kernel) is Some
    &&& exists|plain: KernelImageInfo| #[trigger]
        describes(plain, kernel, header_in(kernel).unwrap()) && load.info == (KernelImageInfo {
            release_version: load.manifest.release_version,
            signature_verified: 1,
            verification_key_id: load.manifest.key_id,
            kernel_sha256: load.manifest.kernel_sha256,
            ..plain
        })
    &&& load.step is Stage
}

/// A kernel is vouched for: its manifest can be read, is of this kernel, and is signed by the trust
/// root.
pub open spec fn vouched_for(
    kernel: Option<&[u8]>,
    manifest: Option<&[u8]>,
    encoded: Option<&str>,
    stored: Variable,
) -> bool {
    &&& kernel is Some && manifest is Some
    &&& UpdateManifest::fault(manifest.unwrap()@) is None
    &&& exists|read: UpdateManifest, root: TrustRoot| #[trigger]
        vouches(kernel.unwrap()@, manifest.unwrap()@, read, encoded, stored, root)
}

/// A manifest vouches for a kernel under a trust root.
pub open spec fn vouches(
    kernel: Seq<u8>,
    encoded_manifest: Seq<u8>,
    manifest: UpdateManifest,
    encoded: Option<&str>,
    stored: Variable,
    root: TrustRoot,
) -> bool {
    &&& manifest.read_from(encoded_manifest)
    &&& kernel.len() == manifest.kernel_size
    &&& sha256_of(kernel) == manifest.kernel_sha256@
    &&& trust_root_fault(encoded, stored) is None
    &&& is_trust_root(encoded, stored, root)
    &&& root_refuses(manifest, root) is None
}

/// There is one trust root.
proof fn lemma_one_root(encoded: Option<&str>, stored: Variable, a: TrustRoot, b: TrustRoot)
    requires
        is_trust_root(encoded, stored, a),
        is_trust_root(encoded, stored, b),
    ensures
        a.public_key@ == b.public_key@,
        a.key_id@ == b.key_id@,
{
    if !(stored is Value) {
        assert forall|i: int| 0 <= i < a.public_key@.len() implies a.public_key@[i]
            == b.public_key@[i] by {
            let _ = b.public_key@[i];
        }
        assert(a.public_key@ =~= b.public_key@);
    }
}

/// Manifests that are read from the same bytes are refused alike.
proof fn lemma_one_manifest(
    encoded_manifest: Seq<u8>,
    a: UpdateManifest,
    b: UpdateManifest,
    root: TrustRoot,
    other: TrustRoot,
)
    requires
        a.read_from(encoded_manifest),
        b.read_from(encoded_manifest),
        root.public_key@ == other.public_key@,
        root.key_id@ == other.key_id@,
    ensures
        root_refuses(a, root) == root_refuses(b, other),
        a.kernel_size == b.kernel_size,
        a.kernel_sha256@ == b.kernel_sha256@,
{
    assert(a.legacy() == b.legacy());
    assert(signed_message(a) == signed_message(b));
}

/// A kernel that is refused for its manifest is not vouched for.
#[verifier::spinoff_prover]
proof fn lemma_refused(
    kernel: &[u8],
    manifest: &[u8],
    read: UpdateManifest,
    encoded: Option<&str>,
    stored: Variable,
)
    requires
        read.read_from(manifest@),
        kernel@.len() != read.kernel_size || sha256_of(kernel@) != read.kernel_sha256@
            || trust_root_fault(encoded, stored) is Some || exists|root: TrustRoot| #[trigger]
            is_trust_root(encoded, stored, root) && root_refuses(read, root) is Some,
    ensures
        !vouched_for(Some(kernel), Some(manifest), encoded, stored),
{
    if vouched_for(Some(kernel), Some(manifest), encoded, stored) {
        let (other, root) = choose|other: UpdateManifest, root: TrustRoot| #[trigger]
            vouches(kernel@, manifest@, other, encoded, stored, root);
        lemma_one_manifest(manifest@, read, other, root, root);
        let refusing = choose|refusing: TrustRoot| #[trigger]
            is_trust_root(encoded, stored, refusing) && root_refuses(read, refusing) is Some;
        lemma_one_root(encoded, stored, refusing, root);
        lemma_one_manifest(manifest@, read, other, refusing, root);
    }
}

/// What vouches for a kernel: its manifest and the trust root.
#[verifier::spinoff_prover]
#[verifier::rlimit(40)]
fn verify_slot<'a>(
    kernel: Option<&'a [u8]>,
    manifest: Option<&[u8]>,
    encoded: Option<&str>,
    stored: &Variable,
) -> (verified: Result<(&'a [u8], UpdateManifest, TrustRoot), KernelLoadError>)
    ensures
        match verified {
            Ok(found) => {
                &&& kernel == Some(found.0)
                &&& manifest is Some
                &&& UpdateManifest::fault(manifest.unwrap()@) is None
                &&& vouches(found.0@, manifest.unwrap()@, found.1, encoded, *stored, found.2)
                &&& vouched_for(kernel, manifest, encoded, *stored)
            },
            Err(error) => {
                &&& admission_fault(kernel, manifest, encoded, *stored, error)
                &&& !vouched_for(kernel, manifest, encoded, *stored)
            },
        },
{
    let bytes = match kernel {
        Some(bytes) => bytes,
        None => return Err(KernelLoadError::KernelReadFailed),
    };
    let manifest_bytes = match manifest {
        Some(bytes) => bytes,
        None => return Err(KernelLoadError::ManifestReadFailed),
    };
    let manifest = match UpdateManifest::decode(manifest_bytes) {
        Ok(manifest) => manifest,
        Err(error) => return Err(KernelLoadError::ManifestInvalid(error)),
    };
    match verify_kernel_release(bytes, &manifest, encoded, stored) {
        Ok(root) => {
            assert(vouches(bytes@, manifest_bytes@, manifest, encoded, *stored, root));
            Ok((bytes, manifest, root))
        },
        Err(error) => {
            proof {
                assert(manifest.read_from(manifest_bytes@));
                if kernel.unwrap()@.len() == manifest.kernel_size && sha256_of(bytes@)
                    == manifest.kernel_sha256@ && trust_root_fault(encoded, *stored) is None {
                    let root = choose|root: TrustRoot| #[trigger]
                        is_trust_root(encoded, *stored, root) && root_refuses(manifest, root)
                            == Some(error);
                    assert(is_trust_root(encoded, *stored, root));
                    assert(under_root(bytes@, manifest, encoded, *stored, error));
                }
                lemma_refused(bytes, manifest_bytes, manifest, encoded, *stored);
                assert(refused(bytes@, manifest_bytes@, encoded, *stored, error));
            }
            Err(error)
        },
    }
}

/// Reads the kernel that a manifest vouches for.
fn described(kernel: &[u8], manifest: UpdateManifest, root: TrustRoot) -> (load: Option<SlotLoad>)
    requires
        programs_in_reach(kernel@),
    ensures
        load is None == header_in(kernel@) is None,
        load matches Some(load) ==> {
            &&& load.manifest == manifest
            &&& load.root == root
            &&& load.step is Stage
            &&& exists|plain: KernelImageInfo| #[trigger]
                describes(plain, kernel@, header_in(kernel@).unwrap()) && load.info == (
                KernelImageInfo {
                    release_version: manifest.release_version,
                    signature_verified: 1,
                    verification_key_id: manifest.key_id,
                    kernel_sha256: manifest.kernel_sha256,
                    ..plain
                })
        },
{
    let mut info = match parse_kernel_image(kernel) {
        Some(info) => info,
        None => return None,
    };
    let ghost plain = info;
    info.release_version = manifest.release_version;
    info.signature_verified = 1;
    info.verification_key_id = manifest.key_id;
    info.kernel_sha256 = manifest.kernel_sha256;
    assert(describes(plain, kernel@, header_in(kernel@).unwrap()));
    Some(SlotLoad { info, manifest, root, step: SlotStep::Stage })
}

/// What comes of loading a slot.
pub open spec fn slot_admitted(
    kernel: Option<&[u8]>,
    manifest: Option<&[u8]>,
    encoded: Option<&str>,
    stored: Variable,
    load: Result<SlotLoad, KernelLoadError>,
) -> bool {
    match load {
        Ok(load) => kernel is Some && manifest is Some && admitted(
            load,
            kernel.unwrap()@,
            manifest.unwrap()@,
            encoded,
            stored,
        ),
        Err(error) => admission_fault(kernel, manifest, encoded, stored, error),
    }
}

/// Admits the kernel of a slot: its manifest can be read, is of this kernel and is signed by the trust
/// root, and the kernel can be read.
pub fn load_system_slot(
    kernel: Option<&[u8]>,
    manifest: Option<&[u8]>,
    encoded: Option<&str>,
    stored: &Variable,
) -> (load: Result<SlotLoad, KernelLoadError>)
    requires
        vouched_for(kernel, manifest, encoded, *stored) ==> programs_in_reach(kernel.unwrap()@),
    ensures
        slot_admitted(kernel, manifest, encoded, *stored, load),
{
    let (bytes, read, root) = match verify_slot(kernel, manifest, encoded, stored) {
        Ok(found) => found,
        Err(error) => return Err(error),
    };
    match described(bytes, read, root) {
        Some(load) => Ok(load),
        None => {
            assert(is_trust_root(encoded, *stored, root));
            assert(under_root(bytes@, read, encoded, *stored, KernelLoadError::InvalidElf));
            assert(read.read_from(manifest.unwrap()@));
            Err(KernelLoadError::InvalidElf)
        },
    }
}

/// Admits the kernel of a slot unless it is vouched for and yet has program headers that are out of
/// reach.
pub fn try_load_system_slot(
    kernel: Option<&[u8]>,
    manifest: Option<&[u8]>,
    encoded: Option<&str>,
    stored: &Variable,
) -> (load: Option<Result<SlotLoad, KernelLoadError>>)
    ensures
        load is None == (vouched_for(kernel, manifest, encoded, *stored) && !programs_in_reach(
            kernel.unwrap()@,
        )),
        load matches Some(load) ==> slot_admitted(kernel, manifest, encoded, *stored, load),
{
    let readable = match kernel {
        Some(bytes) => programs_readable(bytes),
        None => true,
    };
    if readable {
        return Some(load_system_slot(kernel, manifest, encoded, stored));
    }
    match verify_slot(kernel, manifest, encoded, stored) {
        Ok(_) => None,
        Err(error) => Some(Err(error)),
    }
}

impl SlotLoad {
    /// The pages that the kernel needs; without any it is rejected.
    pub fn wanted_pages(&mut self) -> (span: Option<ImageSpan>)
        requires
            old(self).step is Stage,
        ensures
            span == span_of(old(self).info.listed()),
            *final(self) == (SlotLoad {
                step: if span is Some {
                    old(self).step
                } else {
                    SlotStep::Rejected(KernelLoadError::StagingFailed)
                },
                ..*old(self)
            }),
    {
        let span = image_span(self.info.segments());
        if span.is_none() {
            self.step = SlotStep::Rejected(KernelLoadError::StagingFailed);
        }
        span
    }

    /// No pages could be had.
    pub fn pages_refused(&mut self)
        requires
            old(self).step is Stage,
        ensures
            *final(self) == (SlotLoad {
                step: SlotStep::Rejected(KernelLoadError::StagingFailed),
                ..*old(self)
            }),
    {
        self.step = SlotStep::Rejected(KernelLoadError::StagingFailed);
    }

    /// `after` is this kernel staged in pages that are at `allocation`, or rejected where it cannot be.
    pub open spec fn stages(
        self,
        after: SlotLoad,
        kernel: Seq<u8>,
        allocation: u64,
        memory: Seq<u8>,
        memory_after: Seq<u8>,
    ) -> bool {
        let segments = self.info.listed();
        &&& after.manifest == self.manifest
        &&& after.root == self.root
        &&& if stageable(segments, kernel, allocation, memory.len()) {
            &&& after.step is ReadHighestRelease
            &&& memory_after == staged_image(segments, kernel, memory.len())
            &&& notes_staging(self.info, after.info, kernel, allocation)
        } else {
            &&& after.info == self.info
            &&& after.step == SlotStep::Rejected(KernelLoadError::StagingFailed)
        }
    }

    /// Stages the kernel in pages that are at `allocation`.
    pub fn stage(&mut self, kernel: &[u8], allocation: u64, memory: &mut [u8])
        requires
            old(self).step is Stage,
            copies(old(self).info.listed(), kernel@, old(memory)@.len()) ==> sections_in_reach(kernel@),
            old(self).info.load_segment_count <= MAX_KERNEL_IMAGE_SEGMENTS,
            old(self).info.loaded_segment_count == 0,
        ensures
            final(memory)@.len() == old(memory)@.len(),
            old(self).stages(*final(self), kernel@, allocation, old(memory)@, final(memory)@),
    {
        if stage_kernel_segments(&mut self.info, kernel, allocation, memory) {
            self.step = SlotStep::ReadHighestRelease;
        } else {
            self.step = SlotStep::Rejected(KernelLoadError::StagingFailed);
        }
    }

    /// Stages the kernel, unless all of its segments can be copied and yet its sections are out of
    /// reach, and says whether it tried.
    pub fn try_stage(&mut self, kernel: &[u8], allocation: u64, memory: &mut [u8]) -> (tried: bool)
        requires
            old(self).step is Stage,
            old(self).info.load_segment_count <= MAX_KERNEL_IMAGE_SEGMENTS,
            old(self).info.loaded_segment_count == 0,
        ensures
            tried == (copies(old(self).info.listed(), kernel@, old(memory)@.len())
                ==> sections_in_reach(kernel@)),
            final(memory)@.len() == old(memory)@.len(),
            if tried {
                old(self).stages(*final(self), kernel@, allocation, old(memory)@, final(memory)@)
            } else {
                *final(self) == *old(self) && final(memory)@ == old(memory)@
            },
    {
        if segments_copy(self.info.segments(), kernel, memory.len()) && !sections_readable(kernel) {
            return false;
        }
        self.stage(kernel, allocation, memory);
        true
    }

    /// What comes after the release was found to be new enough.
    pub open spec fn after_release(self, next: SlotStep) -> bool {
        match hand_over_fault(self.manifest) {
            Some(error) => next == SlotStep::Rejected(error),
            None => if hands_over(self.manifest, self.root) {
                &&& next is WriteTrustRoot
                &&& next->WriteTrustRoot_0.activation_release_version == self.manifest.release_version
                &&& next->WriteTrustRoot_0.public_key@ == self.manifest.next_trust_public_key@
                &&& next->WriteTrustRoot_0.key_id@ == self.manifest.next_trust_key_id@
            } else {
                next is Loaded
            },
        }
    }

    fn update_trust_root(&mut self)
        ensures
            old(self).after_release(final(self).step),
            *final(self) == (SlotLoad { step: final(self).step, ..*old(self) }),
    {
        let step = match plan_trust_root_update(&self.manifest, &self.root) {
            Ok(None) => SlotStep::Loaded,
            Ok(Some(state)) => SlotStep::WriteTrustRoot(state),
            Err(error) => SlotStep::Rejected(error),
        };
        self.step = step;
    }

    /// Takes the highest release so far.
    pub fn highest_release(&mut self, stored: &Variable)
        requires
            old(self).step is ReadHighestRelease,
        ensures
            *final(self) == (SlotLoad { step: final(self).step, ..*old(self) }),
            match lowest_release(*stored) {
                None => final(self).step == SlotStep::Rejected(
                    KernelLoadError::RollbackStateUnavailable,
                ),
                Some(minimum) => {
                    let candidate = old(self).manifest.release_version;
                    if candidate < minimum {
                        final(self).step == SlotStep::Rejected(
                            KernelLoadError::RollbackDetected { candidate, minimum: minimum as u64 },
                        )
                    } else if candidate > minimum {
                        final(self).step == SlotStep::WriteHighestRelease(candidate)
                    } else {
                        old(self).after_release(final(self).step)
                    }
                },
            },
    {
        match enforce_release_version(self.manifest.release_version, stored) {
            Ok(None) => self.update_trust_root(),
            Ok(Some(version)) => {
                self.step = SlotStep::WriteHighestRelease(version);
            },
            Err(error) => {
                self.step = SlotStep::Rejected(error);
            },
        }
    }

    /// Takes whether a variable was stored.
    pub fn written(&mut self, stored: bool)
        requires
            old(self).step is WriteHighestRelease || old(self).step is WriteTrustRoot,
        ensures
            *final(self) == (SlotLoad { step: final(self).step, ..*old(self) }),
            match old(self).step {
                SlotStep::WriteHighestRelease(_) => if stored {
                    old(self).after_release(final(self).step)
                } else {
                    final(self).step == SlotStep::Rejected(KernelLoadError::RollbackStateUnavailable)
                },
                SlotStep::WriteTrustRoot(state) => final(self).step == if stored {
                    SlotStep::ReadTrustRoot(state)
                } else {
                    SlotStep::Rejected(KernelLoadError::TrustRootUpdateFailed)
                },
                _ => true,
            },
    {
        match self.step {
            SlotStep::WriteHighestRelease(_) => if stored {
                self.update_trust_root();
            } else {
                self.step = SlotStep::Rejected(KernelLoadError::RollbackStateUnavailable);
            },
            SlotStep::WriteTrustRoot(state) => if stored {
                self.step = SlotStep::ReadTrustRoot(state);
            } else {
                self.step = SlotStep::Rejected(KernelLoadError::TrustRootUpdateFailed);
            },
            _ => {},
        }
    }

    /// Takes the trust root that was read back.
    pub fn trust_root(&mut self, stored: &Variable)
        requires
            old(self).step is ReadTrustRoot,
        ensures
            *final(self) == (SlotLoad {
                step: if root_confirmed(old(self).step->ReadTrustRoot_0, *stored) {
                    SlotStep::Loaded
                } else {
                    SlotStep::Rejected(KernelLoadError::TrustRootUpdateFailed)
                },
                ..*old(self)
            }),
    {
        if let SlotStep::ReadTrustRoot(state) = self.step {
            match confirm_trust_root(&state, stored) {
                Ok(_) => {
                    self.step = SlotStep::Loaded;
                },
                Err(error) => {
                    self.step = SlotStep::Rejected(error);
                },
            }
        }
    }
}

/// Where the choice of a kernel stands.
#[derive(Debug, Clone, Copy)]
pub enum BootChoice {
    /// Load the active slot.
    LoadActive { state: BootState },
    /// Load the other slot, the active one having been rejected.
    LoadFallback { state: BootState },
    /// Write the boot state that makes the other slot the active one.
    WriteFallback { state: BootState, image: KernelImageInfo, repaired: BootState },
    /// Load the first slot, no boot state being there.
    ScanFirst,
    /// Load the second slot.
    ScanSecond { first: Option<KernelImageInfo> },
    /// Write the first of two new boot states.
    RepairFirst { image: KernelImageInfo, state: BootState },
    /// Write the second of two new boot states.
    RepairSecond { image: KernelImageInfo, state: BootState },
    Chosen(KernelImageInfo),
    Failed(KernelLoadError),
}

/// An image that was taken from a slot.
pub open spec fn from_slot(image: KernelImageInfo, slot: SystemSlot, recovery: u8, generation: u64) -> KernelImageInfo {
    KernelImageInfo {
        system_slot: slot.code(),
        recovery_fallback: recovery,
        boot_state_generation: generation,
        ..image
    }
}

/// The choice goes on with the image of a slot that was found without a boot state.
pub open spec fn repair(image: KernelImageInfo, slot: SystemSlot) -> BootChoice {
    BootChoice::RepairFirst {
        image: from_slot(image, slot, 1, image.boot_state_generation),
        state: BootState {
            generation: 1,
            active_slot: slot,
            active_release_version: image.release_version,
        },
    }
}

/// Where the choice stands after a slot was loaded or rejected.
pub open spec fn after_load(choice: BootChoice, loaded: Result<KernelImageInfo, KernelLoadError>) -> BootChoice {
    match choice {
        BootChoice::LoadActive { state } => match loaded {
            Ok(image) => if image.release_version == state.active_release_version {
                BootChoice::Chosen(
                    from_slot(image, state.active_slot, image.recovery_fallback, state.generation),
                )
            } else {
                BootChoice::LoadFallback { state }
            },
            Err(_) => BootChoice::LoadFallback { state },
        },
        BootChoice::LoadFallback { state } => match loaded {
            Ok(image) => {
                let fallback = state.active_slot.opposite();
                let taken = from_slot(image, fallback, 1, state.generation);
                if state.generation == u64::MAX {
                    BootChoice::Chosen(taken)
                } else {
                    BootChoice::WriteFallback {
                        state,
                        image: taken,
                        repaired: BootState {
                            generation: (state.generation + 1) as u64,
                            active_slot: fallback,
                            active_release_version: image.release_version,
                        },
                    }
                }
            },
            Err(_) => BootChoice::Failed(KernelLoadError::BothSystemSlotsUnavailable),
        },
        BootChoice::ScanFirst => BootChoice::ScanSecond {
            first: match loaded {
                Ok(image) => Some(image),
                Err(_) => None,
            },
        },
        BootChoice::ScanSecond { first } => match (first, loaded) {
            (Some(a), Ok(b)) => if b.release_version > a.release_version {
                repair(b, SystemSlot::B)
            } else {
                repair(a, SystemSlot::A)
            },
            (Some(a), Err(_)) => repair(a, SystemSlot::A),
            (None, Ok(b)) => repair(b, SystemSlot::B),
            (None, Err(_)) => BootChoice::Failed(KernelLoadError::BothSystemSlotsUnavailable),
        },
        _ => choice,
    }
}

/// Where the choice stands after a boot state was written, or was not.
pub open spec fn after_write(choice: BootChoice, written: bool) -> BootChoice {
    match choice {
        BootChoice::WriteFallback { state, image, repaired } => if written {
            BootChoice::Chosen(
                KernelImageInfo { boot_state_generation: repaired.generation, ..image },
            )
        } else {
            BootChoice::Chosen(image)
        },
        BootChoice::RepairFirst { image, state } => if written {
            BootChoice::RepairSecond { image, state: BootState { generation: 2, ..state } }
        } else {
            BootChoice::Chosen(KernelImageInfo { boot_state_generation: 0, ..image })
        },
        BootChoice::RepairSecond { image, state } => BootChoice::Chosen(
            KernelImageInfo {
                boot_state_generation: if written {
                    state.generation
                } else {
                    0
                },
                ..image
            },
        ),
        _ => choice,
    }
}

/// An image that was taken from a slot.
fn taken_from(image: KernelImageInfo, slot: SystemSlot, recovery: u8, generation: u64) -> (taken:
    KernelImageInfo)
    ensures
        taken == from_slot(image, slot, recovery, generation),
{
    KernelImageInfo {
        system_slot: slot.as_u8(),
        recovery_fallback: recovery,
        boot_state_generation: generation,
        ..image
    }
}

/// Starts to repair the boot state.
pub fn repair_boot_state(image: KernelImageInfo, slot: SystemSlot) -> (choice: BootChoice)
    ensures
        choice == repair(image, slot),
{
    BootChoice::RepairFirst {
        image: taken_from(image, slot, 1, image.boot_state_generation),
        state: BootState {
            generation: 1,
            active_slot: slot,
            active_release_version: image.release_version,
        },
    }
}

/// The boot state that makes the other slot the active one.
pub fn persist_fallback_boot_state(current: BootState, fallback: SystemSlot, release_version: u64) -> (repaired:
    Result<BootState, KernelLoadError>)
    ensures
        repaired == if current.generation == u64::MAX {
            Err::<BootState, KernelLoadError>(KernelLoadError::BootStateGenerationExhausted)
        } else {
            Ok(
                BootState {
                    generation: (current.generation + 1) as u64,
                    active_slot: fallback,
                    active_release_version: release_version,
                },
            )
        },
{
    match current.generation.checked_add(1) {
        Some(generation) => Ok(
            BootState { generation, active_slot: fallback, active_release_version: release_version },
        ),
        None => Err(KernelLoadError::BootStateGenerationExhausted),
    }
}

impl BootChoice {
    /// Where the choice starts, by the boot state.
    pub fn load_kernel_image(state: Result<BootState, KernelLoadError>) -> (choice: BootChoice)
        ensures
            choice == match state {
                Ok(state) => BootChoice::LoadActive { state },
                Err(KernelLoadError::BootStateUnavailable) => BootChoice::ScanFirst,
                Err(error) => BootChoice::Failed(error),
            },
    {
        match state {
            Ok(state) => BootChoice::LoadActive { state },
            Err(KernelLoadError::BootStateUnavailable) => BootChoice::ScanFirst,
            Err(error) => BootChoice::Failed(error),
        }
    }

    /// The slot to load next.
    pub open spec fn wants_slot(self) -> Option<SystemSlot> {
        match self {
            BootChoice::LoadActive { state } => Some(state.active_slot),
            BootChoice::LoadFallback { state } => Some(state.active_slot.opposite()),
            BootChoice::ScanFirst => Some(SystemSlot::A),
            BootChoice::ScanSecond { first } => Some(SystemSlot::B),
            _ => None,
        }
    }

    /// The slot to load next.
    pub fn slot(&self) -> (slot: Option<SystemSlot>)
        ensures
            slot == self.wants_slot(),
    {
        match self {
            BootChoice::LoadActive { state } => Some(state.active_slot),
            BootChoice::LoadFallback { state } => Some(state.active_slot.other()),
            BootChoice::ScanFirst => Some(SystemSlot::A),
            BootChoice::ScanSecond { first: _ } => Some(SystemSlot::B),
            _ => None,
        }
    }

    /// The boot state to write next, and whether it goes to the first of the two records.
    pub open spec fn wants_write(self) -> Option<(BootState, bool)> {
        match self {
            BootChoice::WriteFallback { state, image, repaired } => Some(
                (repaired, in_first_record(repaired.generation)),
            ),
            BootChoice::RepairFirst { image, state } => Some((state, true)),
            BootChoice::RepairSecond { image, state } => Some((state, false)),
            _ => None,
        }
    }

    /// The boot state to write next, and whether it goes to the first of the two records.
    pub fn record_to_write(&self) -> (record: Option<(BootState, bool)>)
        ensures
            record == self.wants_write(),
    {
        match self {
            BootChoice::WriteFallback { state: _, image: _, repaired } => Some(
                (*repaired, keeps_in_first_record(repaired.generation)),
            ),
            BootChoice::RepairFirst { image: _, state } => Some((*state, true)),
            BootChoice::RepairSecond { image: _, state } => Some((*state, false)),
            _ => None,
        }
    }

    /// Takes what became of the slot.
    pub fn slot_loaded(&mut self, loaded: Result<KernelImageInfo, KernelLoadError>)
        ensures
            *final(self) == after_load(*old(self), loaded),
    {
        let next = match *self {
            BootChoice::LoadActive { state } => match loaded {
                Ok(image) => if image.release_version == state.active_release_version {
                    BootChoice::Chosen(
                        taken_from(
                            image,
                            state.active_slot,
                            image.recovery_fallback,
                            state.generation,
                        ),
                    )
                } else {
                    BootChoice::LoadFallback { state }
                },
                Err(_) => BootChoice::LoadFallback { state },
            },
            BootChoice::LoadFallback { state } => match loaded {
                Ok(image) => {
                    let fallback = state.active_slot.other();
                    let taken = taken_from(image, fallback, 1, state.generation);
                    match persist_fallback_boot_state(state, fallback, image.release_version) {
                        Ok(repaired) => BootChoice::WriteFallback { state, image: taken, repaired },
                        Err(_) => BootChoice::Chosen(taken),
                    }
                },
                Err(_) => BootChoice::Failed(KernelLoadError::BothSystemSlotsUnavailable),
            },
            BootChoice::ScanFirst => BootChoice::ScanSecond {
                first: match loaded {
                    Ok(image) => Some(image),
                    Err(_) => None,
                },
            },
            BootChoice::ScanSecond { first } => match (first, loaded) {
                (Some(a), Ok(b)) => if b.release_version > a.release_version {
                    repair_boot_state(b, SystemSlot::B)
                } else {
                    repair_boot_state(a, SystemSlot::A)
                },
                (Some(a), Err(_)) => repair_boot_state(a, SystemSlot::A),
                (None, Ok(b)) => repair_boot_state(b, SystemSlot::B),
                (None, Err(_)) => BootChoice::Failed(KernelLoadError::BothSystemSlotsUnavailable),
            },
            other => other,
        };
        *self = next;
    }

    /// Takes whether the boot state was written and read back.
    pub fn state_written(&mut self, written: bool)
        ensures
            *final(self) == after_write(*old(self), written),
    {
        let next = match *self {
            BootChoice::WriteFallback { state: _, image, repaired } => if written {
                BootChoice::Chosen(
                    KernelImageInfo { boot_state_generation: repaired.generation, ..image },
                )
            } else {
                BootChoice::Chosen(image)
            },
            BootChoice::RepairFirst { image, state } => if written {
                BootChoice::RepairSecond { image, state: BootState { generation: 2, ..state } }
            } else {
                BootChoice::Chosen(KernelImageInfo { boot_state_generation: 0, ..image })
            },
            BootChoice::RepairSecond { image, state } => {
                let generation: u64 = if written {
                    state.generation
                } else {
                    0
                };
                BootChoice::Chosen(KernelImageInfo { boot_state_generation: generation, ..image })
            },
            other => other,
        };
        *self = next;
    }
}

/// The first slot that loads with the release that the boot state names is booted, and no boot state
/// is written.
pub proof fn a_sound_active_slot_is_booted(state: BootState, image: KernelImageInfo)
    requires
        image.release_version == state.active_release_version,
    ensures
        after_load(BootChoice::LoadActive { state }, Ok(image)) == BootChoice::Chosen(
            from_slot(image, state.active_slot, image.recovery_fallback, state.generation),
        ),
{
}

/// When the active slot is rejected and the other one loads, the other one is booted as a recovery,
/// whether or not the boot state can be written.
pub proof fn the_other_slot_is_a_fallback(
    state: BootState,
    error: KernelLoadError,
    image: KernelImageInfo,
    written: bool,
)
    ensures
        ({
            let rejected = after_load(BootChoice::LoadActive { state }, Err(error));
            let last = after_write(after_load(rejected, Ok(image)), written);
            &&& rejected.wants_slot() == Some(state.active_slot.opposite())
            &&& last is Chosen
            &&& last->Chosen_0.release_version == image.release_version
            &&& last->Chosen_0.system_slot == state.active_slot.opposite().code()
            &&& last->Chosen_0.recovery_fallback == 1
            &&& last->Chosen_0.boot_state_generation == if written && state.generation < u64::MAX {
                state.generation + 1
            } else {
                state.generation as int
            }
        }),
{
}

/// When both slots are rejected, nothing is booted.
pub proof fn no_slot_is_booted_unverified(
    state: BootState,
    first: KernelLoadError,
    second: KernelLoadError,
)
    ensures
        after_load(after_load(BootChoice::LoadActive { state }, Err(first)), Err(second))
            == BootChoice::Failed(KernelLoadError::BothSystemSlotsUnavailable),
        after_load(after_load(BootChoice::ScanFirst, Err(first)), Err(second))
            == BootChoice::Failed(KernelLoadError::BothSystemSlotsUnavailable),
{
}

/// Without a boot state, the newest release of the slots that load is booted.
pub proof fn without_a_state_the_newest_release_is_booted(
    first: Result<KernelImageInfo, KernelLoadError>,
    second: Result<KernelImageInfo, KernelLoadError>,
    written: bool,
    written_again: bool,
)
    requires
        first is Ok || second is Ok,
    ensures
        ({
            let found = after_load(after_load(BootChoice::ScanFirst, first), second);
            let last = after_write(after_write(found, written), written_again);
            &&& last is Chosen
            &&& first is Ok ==> last->Chosen_0.release_version >= first->Ok_0.release_version
            &&& second is Ok ==> last->Chosen_0.release_version >= second->Ok_0.release_version
            &&& last->Chosen_0.recovery_fallback == 1
            &&& last->Chosen_0.boot_state_generation == if written && written_again {
                2int
            } else {
                0
            }
        }),
{
}

} // verus!
