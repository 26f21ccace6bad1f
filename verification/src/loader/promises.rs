//! What the loader promises: which records it takes, which release it boots, and what it hands over.

use vstd::prelude::*;
use crate::bootinfo::{
    BootInfo, KernelImageInfo, KernelImageSegment, MemoryRegion, MemoryRegionKind, ReservedMemoryKind,
    ReservedMemoryRange,
};
use crate::bytes::{le64, zero_between};
use crate::checksum::crc32_of;
use crate::elf::{
    program_at, program_start, relocations_of, section_present, ElfHeader, Relocation,
};
use crate::fs::format::{low_first_4, low_first_8};
use crate::input::DesktopInput;
use crate::loader::handoff::{
    kind_of, listed_regions, printable_input, reserved_ranges, scaled, MemoryDescriptor,
};
use crate::loader::image::{
    file_relocations, highest_end, load_segments, lowest_page, notes_staging, relocations_from,
    segment_flags, segment_of, span_of, stageable, staged_image, staged_segment,
};
use crate::loader::slots::{
    after_load, after_write, in_first_record, newer, recorded, slot_admitted, vouched_for,
    BootChoice, SlotLoad, SlotStep,
};
use crate::loader::trust::{
    hand_over_fault, hands_over, kernel_verdict, lowest_release, root_refuses, trust_root_fault,
    usable_root, KernelFacts, KernelLoadError, TrustRoot, Variable,
};
use crate::update_format::{BootState, SystemSlot, TrustRootState, UpdateManifest};

verus! {

/// A boot state on the disk: its mark and version, the generation, the slot and the release.
pub proof fn a_boot_state_on_the_disk(state: BootState, bytes: Seq<u8>)
    requires
        state.encoded_as(bytes),
    ensures
        bytes.len() == 64,
        bytes.subrange(0, 8) == seq![0x43u8, 0x44, 0x58, 0x42, 0x4f, 0x4f, 0x54, 0x31],
        low_first_4(bytes, 8) == 1,
        low_first_4(bytes, 12) == 64,
        low_first_8(bytes, 16) == state.generation,
        bytes[24] == match state.active_slot {
            SystemSlot::A => 0u8,
            SystemSlot::B => 1u8,
        },
        low_first_8(bytes, 32) == state.active_release_version,
        zero_between(bytes, 25, 32),
        zero_between(bytes, 44, 64),
{
    assert(crate::update_format::BOOT_STATE_MAGIC@ =~= seq![
        0x43u8, 0x44, 0x58, 0x42, 0x4f, 0x4f, 0x54, 0x31,
    ]);
}

/// A record is a boot state if and only if mark, version and length are right, generation and release
/// are not zero, the slot is one of two, nothing stands in between and the checksum holds; it is then
/// read as it stands.
pub proof fn a_sound_record_is_a_boot_state(record: &[u8])
    ensures
        ({
            let bytes = record@;
            &&& recorded(Some(record)) is Some <==> {
                &&& bytes.len() == 64
                &&& bytes.subrange(0, 8) == seq![0x43u8, 0x44, 0x58, 0x42, 0x4f, 0x4f, 0x54, 0x31]
                &&& low_first_4(bytes, 8) == 1
                &&& low_first_4(bytes, 12) == 64
                &&& low_first_8(bytes, 16) != 0
                &&& bytes[24] == 0 || bytes[24] == 1
                &&& low_first_8(bytes, 32) != 0
                &&& zero_between(bytes, 25, 32)
                &&& zero_between(bytes, 44, 64)
                &&& low_first_4(bytes, 40) == crc32_of(crate::checksum::without_checksum(bytes, 40))
            }
            &&& recorded(Some(record)) matches Some(state) ==> state.generation == low_first_8(bytes, 16)
                && state.active_release_version == low_first_8(bytes, 32) && state.active_slot == if bytes[24]
                == 0 {
                SystemSlot::A
            } else {
                SystemSlot::B
            }
        }),
        recorded(None) is None,
{
    assert(crate::update_format::BOOT_STATE_MAGIC@ =~= seq![
        0x43u8, 0x44, 0x58, 0x42, 0x4f, 0x4f, 0x54, 0x31,
    ]);
}

/// Of two boot states the one of the higher generation counts, of one that one.
pub proof fn the_higher_boot_state_counts(first: Option<BootState>, second: Option<BootState>)
    ensures
        newer(first, second) is None <==> first is None && second is None,
        newer(first, second) is Some ==> newer(first, second) == first || newer(first, second) == second,
        newer(first, second) matches Some(state) ==> {
            &&& first matches Some(other) ==> other.generation <= state.generation
            &&& second matches Some(other) ==> other.generation <= state.generation
        },
{
}

/// A manifest on the disk: release, size and digest of the kernel, the key that signed, the key to come,
/// and the signature.
pub proof fn a_manifest_on_the_disk(manifest: UpdateManifest, bytes: Seq<u8>)
    requires
        manifest.encoded_as(bytes),
        manifest.format_version == 2,
    ensures
        bytes.len() == 224,
        bytes.subrange(0, 8) == seq![0x43u8, 0x44, 0x58, 0x55, 0x50, 0x44, 0x31, 0x00],
        low_first_4(bytes, 8) == 2,
        low_first_4(bytes, 12) == 224,
        low_first_8(bytes, 16) == manifest.release_version,
        low_first_8(bytes, 24) == manifest.kernel_size,
        bytes.subrange(32, 64) == manifest.kernel_sha256@,
        bytes.subrange(64, 80) == manifest.key_id@,
        bytes.subrange(80, 112) == manifest.next_trust_public_key@,
        bytes.subrange(112, 128) == manifest.next_trust_key_id@,
        zero_between(bytes, 128, 160),
        bytes.subrange(160, 224) == manifest.signature@,
{
    let head = bytes.subrange(0, 160);
    assert(crate::update_format::MANIFEST_MAGIC@ =~= seq![
        0x43u8, 0x44, 0x58, 0x55, 0x50, 0x44, 0x31, 0x00,
    ]);
    assert(bytes.subrange(0, 8) =~= head.subrange(0, 8));
    assert(bytes.subrange(32, 64) =~= head.subrange(32, 64));
    assert(bytes.subrange(64, 80) =~= head.subrange(64, 80));
    assert(bytes.subrange(80, 112) =~= head.subrange(80, 112));
    assert(bytes.subrange(112, 128) =~= head.subrange(112, 128));
    assert forall|i: int| 128 <= i < 160 implies #[trigger] bytes[i] == 0u8 by {
        assert(head[i] == 0u8);
    }
}

/// Bytes are a manifest if and only if they are one of the two formats, whole, with a release, a size, a
/// key and a signature, and with both parts of the key to come or neither.
pub proof fn a_sound_manifest_is_read(input: Seq<u8>)
    ensures
        UpdateManifest::fault(input) is None <==> {
            &&& input.len() == 160 || input.len() == 224
            &&& input.subrange(0, 8) == seq![0x43u8, 0x44, 0x58, 0x55, 0x50, 0x44, 0x31, 0x00]
            &&& low_first_8(input, 16) != 0
            &&& low_first_8(input, 24) != 0
            &&& !zero_between(input, 64, 80)
            &&& {
                ||| {
                    &&& low_first_4(input, 8) == 1
                    &&& input.len() == 160 && low_first_4(input, 12) == 160
                    &&& zero_between(input, 144, 160)
                    &&& !zero_between(input, 80, 144)
                }
                ||| {
                    &&& low_first_4(input, 8) == 2
                    &&& input.len() == 224 && low_first_4(input, 12) == 224
                    &&& zero_between(input, 80, 112) <==> zero_between(input, 112, 128)
                    &&& zero_between(input, 128, 160)
                    &&& !zero_between(input, 160, 224)
                }
            }
        },
{
    assert(crate::update_format::MANIFEST_MAGIC@ =~= seq![
        0x43u8, 0x44, 0x58, 0x55, 0x50, 0x44, 0x31, 0x00,
    ]);
}

/// What is read from the bytes of a manifest is what stands in them.
pub proof fn a_manifest_is_read_as_it_stands(manifest: UpdateManifest, input: Seq<u8>)
    requires
        UpdateManifest::fault(input) is None,
        manifest.read_from(input),
    ensures
        manifest.format_version == low_first_4(input, 8),
        manifest.release_version == low_first_8(input, 16),
        manifest.kernel_size == low_first_8(input, 24),
        manifest.kernel_sha256@ == input.subrange(32, 64),
        manifest.key_id@ == input.subrange(64, 80),
        input.len() == 160 ==> manifest.signature@ == input.subrange(80, 144) && zero_between(
            manifest.next_trust_public_key@,
            0,
            32,
        ),
        input.len() == 224 ==> manifest.signature@ == input.subrange(160, 224)
            && manifest.next_trust_public_key@ == input.subrange(80, 112) && manifest.next_trust_key_id@
            == input.subrange(112, 128),
{
}

/// The signature covers all of a manifest that stands before it.
pub proof fn a_signature_covers_the_manifest(manifest: UpdateManifest, input: Seq<u8>)
    requires
        UpdateManifest::fault(input) is None,
        manifest.read_from(input),
    ensures
        crate::release::signed_message(manifest) == input.take(
            if input.len() == 160 {
                80
            } else {
                160
            },
        ),
{
    let image = if input.len() == 160 {
        input.take(80) + Seq::new(80, |i: int| 0u8)
    } else {
        input.take(160)
    };
    assert(image.subrange(0, 8) =~= input.subrange(0, 8));
    assert(image.subrange(32, 64) =~= input.subrange(32, 64));
    assert(image.subrange(64, 80) =~= input.subrange(64, 80));
    if input.len() == 224 {
        assert(image.subrange(80, 112) =~= input.subrange(80, 112));
        assert(image.subrange(112, 128) =~= input.subrange(112, 128));
        assert(zero_between(image, 128, 160));
        assert(image.take(160) =~= input.take(160));
    } else {
        assert(zero_between(image, 80, 160));
        assert(image.take(80) =~= input.take(80));
    }
    assert(manifest.signing_image(image));
    crate::release::lemma_signed_message(manifest, image);
}

/// A trust root on the disk, and which bytes are one.
pub proof fn a_trust_root_on_the_disk(state: TrustRootState, bytes: Seq<u8>, input: Seq<u8>)
    requires
        state.encoded_as(bytes),
    ensures
        bytes.len() == 80,
        bytes.subrange(0, 8) == seq![0x43u8, 0x44, 0x58, 0x54, 0x52, 0x53, 0x54, 0x31],
        low_first_4(bytes, 8) == 1,
        low_first_4(bytes, 12) == 80,
        low_first_8(bytes, 16) == state.activation_release_version,
        bytes.subrange(24, 56) == state.public_key@,
        bytes.subrange(56, 72) == state.key_id@,
        TrustRootState::fault(input) is None <==> {
            &&& input.len() == 80
            &&& input.subrange(0, 8) == seq![0x43u8, 0x44, 0x58, 0x54, 0x52, 0x53, 0x54, 0x31]
            &&& low_first_4(input, 8) == 1
            &&& low_first_4(input, 12) == 80
            &&& low_first_8(input, 16) != 0
            &&& !zero_between(input, 24, 56)
            &&& !zero_between(input, 56, 72)
            &&& zero_between(input, 76, 80)
            &&& low_first_4(input, 72) == crc32_of(crate::checksum::without_checksum(input, 72))
        },
{
    assert(crate::update_format::TRUST_ROOT_STATE_MAGIC@ =~= seq![
        0x43u8, 0x44, 0x58, 0x54, 0x52, 0x53, 0x54, 0x31,
    ]);
}

/// The slot that is active is tried first, the other one if that fails or holds another release; without
/// a boot state both are tried, the first one first.
pub proof fn slots_are_tried_in_order(state: BootState, loaded: Result<KernelImageInfo, KernelLoadError>)
    ensures
        ({
            let first = BootChoice::LoadActive { state };
            let next = after_load(first, loaded);
            &&& first.wants_slot() == Some(state.active_slot)
            &&& if loaded matches Ok(image) && image.release_version == state.active_release_version {
                next is Chosen
            } else {
                next.wants_slot() == Some(
                    match state.active_slot {
                        SystemSlot::A => SystemSlot::B,
                        SystemSlot::B => SystemSlot::A,
                    },
                )
            }
        }),
        BootChoice::ScanFirst.wants_slot() == Some(SystemSlot::A),
        after_load(BootChoice::ScanFirst, loaded).wants_slot() == Some(SystemSlot::B),
{
}

/// The image that is booted says from which slot it is, of which generation, and whether it is a
/// fallback; all else is as it was loaded.
pub proof fn a_booted_image_says_where_it_is_from(state: BootState, image: KernelImageInfo)
    requires
        image.release_version == state.active_release_version,
    ensures
        ({
            let slot = match state.active_slot {
                SystemSlot::A => 0u8,
                SystemSlot::B => 1u8,
            };
            let noted = KernelImageInfo {
                system_slot: slot,
                boot_state_generation: state.generation,
                ..image
            };
            after_load(BootChoice::LoadActive { state }, Ok(image)) == BootChoice::Chosen(noted)
        }),
{
}

/// A fallback becomes the active slot, of the next generation and with its own release, in the record
/// that the generation before is not in.
pub proof fn a_fallback_becomes_active(state: BootState, image: KernelImageInfo)
    requires
        state.generation < u64::MAX,
    ensures
        after_load(BootChoice::LoadFallback { state }, Ok(image)).wants_write() matches Some(
            (repaired, in_first),
        ) && repaired.generation == state.generation + 1 && repaired.active_slot == (match state.active_slot {
            SystemSlot::A => SystemSlot::B,
            SystemSlot::B => SystemSlot::A,
        }) && repaired.active_release_version == image.release_version && in_first == ((state.generation
            + 1) % 2 == 1),
{
}

/// Without a boot state both records are written anew, for the slot with the newer release.
pub proof fn a_lost_boot_state_is_written_anew(
    first: Result<KernelImageInfo, KernelLoadError>,
    second: Result<KernelImageInfo, KernelLoadError>,
)
    requires
        first is Ok || second is Ok,
    ensures
        ({
            let from_second = second is Ok && (first is Err || second->Ok_0.release_version
                > first->Ok_0.release_version);
            let image = if from_second {
                second->Ok_0
            } else {
                first->Ok_0
            };
            let found = after_load(after_load(BootChoice::ScanFirst, first), second);
            let state = BootState {
                generation: 1,
                active_slot: if from_second {
                    SystemSlot::B
                } else {
                    SystemSlot::A
                },
                active_release_version: image.release_version,
            };
            &&& found.wants_write() == Some((state, true))
            &&& after_write(found, true).wants_write() == Some(
                (BootState { generation: 2, ..state }, false),
            )
            &&& after_write(after_write(found, true), true) matches BootChoice::Chosen(chosen)
                && chosen.release_version == image.release_version && chosen.system_slot == (if from_second {
                1u8
            } else {
                0u8
            })
        }),
{
}

/// A kernel is trusted if and only if its size and its digest are those of the manifest, there is a root
/// of trust that decodes, it is the one that the manifest names, and the signature holds under it.
pub proof fn a_kernel_is_trusted_for_every_reason(manifest: UpdateManifest, facts: KernelFacts)
    ensures
        kernel_verdict(manifest, facts) is None <==> {
            &&& facts.kernel_size == manifest.kernel_size
            &&& facts.kernel_sha256@ == manifest.kernel_sha256@
            &&& facts.root matches Ok(root) && root.key_id@ == manifest.key_id@
            &&& facts.root_decodes
            &&& facts.signature_holds
        },
{
}

/// A root of trust admits a manifest if and only if its key decodes, is the one that the manifest names,
/// and the signature over the manifest holds under it.
pub proof fn a_root_admits_what_it_signed(manifest: UpdateManifest, root: TrustRoot)
    ensures
        root_refuses(manifest, root) is None <==> {
            &&& crate::crypto::decodes_as_key(root.public_key@)
            &&& root.key_id@ == manifest.key_id@
            &&& crate::crypto::signature_holds(
                root.public_key@,
                crate::release::signed_message(manifest),
                manifest.signature@,
            )
        },
{
}

/// There is a root of trust if and only if one is built in and none is stored, or the stored one is
/// usable: sound, with a key that decodes and that its number belongs to.
pub proof fn a_stored_root_must_be_usable(encoded: Option<&str>, stored: Variable)
    requires
        encoded is Some,
        crate::hex::hex_fault(vstd::utf8::encode_utf8(encoded.unwrap()@)) is None,
    ensures
        trust_root_fault(encoded, stored) is None <==> match stored {
            Variable::Missing => true,
            Variable::Unreadable => false,
            Variable::Value(value) => {
                &&& TrustRootState::fault(value@) is None
                &&& crate::crypto::decodes_as_key(value@.subrange(24, 56))
                &&& crate::crypto::sha256_of(value@.subrange(24, 56)).take(16) == value@.subrange(56, 72)
            },
        },
{
}

/// Trust is handed over if and only if the manifest names a key to come and it is another one; the key
/// must decode and have the number that the manifest gives.
pub proof fn trust_is_handed_over_to_another_key(manifest: UpdateManifest, current: TrustRoot)
    ensures
        ({
            let named = exists|i: int|
                0 <= i < 32 && #[trigger] manifest.next_trust_public_key@[i] != 0;
            &&& hands_over(manifest, current) <==> named && manifest.next_trust_public_key@
                != current.public_key@
            &&& hand_over_fault(manifest) is None <==> (named ==> crate::crypto::decodes_as_key(
                manifest.next_trust_public_key@,
            ) && crate::crypto::sha256_of(manifest.next_trust_public_key@).take(16)
                == manifest.next_trust_key_id@)
        }),
{
}

/// The lowest release that may be loaded is zero where none was noted, and else the number that was.
pub proof fn the_lowest_release_is_what_was_noted(value: Vec<u8>)
    ensures
        lowest_release(Variable::Missing) == Some(0int),
        lowest_release(Variable::Unreadable) is None,
        value@.len() == 8 ==> lowest_release(Variable::Value(value)) == Some(low_first_8(value@, 0)),
        value@.len() != 8 ==> lowest_release(Variable::Value(value)) is None,
{
}

/// Every program header that asks to be loaded is listed, and nothing else is.
pub proof fn every_loadable_segment_is_listed(bytes: Seq<u8>, header: ElfHeader, n: nat)
    requires
        n <= u16::MAX,
    ensures
        ({
            let listed = load_segments(bytes, header, n);
            &&& listed.len() <= n
            &&& forall|i: int|
                0 <= i < n && program_at(
                    bytes,
                    header.wide,
                    #[trigger] program_start(header, i as u16),
                ).loads ==> listed.contains(
                    segment_of(program_at(bytes, header.wide, program_start(header, i as u16))),
                )
            &&& forall|k: int| 0 <= k < listed.len() ==> #[trigger] asked_for(bytes, header, n, listed[k])
        }),
    decreases n,
{
    if n > 0 {
        let m = (n - 1) as nat;
        every_loadable_segment_is_listed(bytes, header, m);
        let before = load_segments(bytes, header, m);
        let listed = load_segments(bytes, header, n);
        let last = program_at(bytes, header.wide, program_start(header, m as u16));
        assert forall|i: int|
            0 <= i < n && program_at(
                bytes,
                header.wide,
                #[trigger] program_start(header, i as u16),
            ).loads implies listed.contains(
            segment_of(program_at(bytes, header.wide, program_start(header, i as u16))),
        ) by {
            let segment = segment_of(program_at(bytes, header.wide, program_start(header, i as u16)));
            if i < m {
                assert(before.contains(segment));
                let k = choose|k: int| 0 <= k < before.len() && before[k] == segment;
                assert(listed[k] == segment);
            } else {
                assert(listed.last() == segment);
            }
        }
        assert forall|k: int| 0 <= k < listed.len() implies #[trigger] asked_for(
            bytes,
            header,
            n,
            listed[k],
        ) by {
            if k < before.len() {
                assert(asked_for(bytes, header, m, before[k]));
                let i = choose|i: int|
                    0 <= i < m && program_at(
                        bytes,
                        header.wide,
                        #[trigger] program_start(header, i as u16),
                    ).loads && before[k] == segment_of(
                        program_at(bytes, header.wide, program_start(header, i as u16)),
                    );
                assert(program_start(header, i as u16) == program_start(header, i as u16));
            } else {
                assert(program_start(header, m as u16) == program_start(header, m as u16));
            }
        }
    }
}

/// Whether one of the first `n` program headers asks for a segment.
pub open spec fn asked_for(
    bytes: Seq<u8>,
    header: ElfHeader,
    n: nat,
    segment: KernelImageSegment,
) -> bool {
    exists|i: int|
        0 <= i < n && program_at(bytes, header.wide, #[trigger] program_start(header, i as u16)).loads
            && segment == segment_of(
            program_at(bytes, header.wide, program_start(header, i as u16)),
        )
}

/// A segment says what its program header says: where it is in the file and in memory, how long it is,
/// and what may be done with it.
pub proof fn a_segment_says_what_its_header_says(program: crate::elf::ProgramHeader)
    ensures
        ({
            let segment = segment_of(program);
            &&& segment.virtual_address == program.virtual_addr
            &&& segment.physical_address == program.physical_addr
            &&& segment.file_offset == program.offset
            &&& segment.file_size == program.file_size
            &&& segment.memory_size == program.mem_size
            &&& segment.flags as int % 2 == 1 <==> program.flags & 4 == 4
            &&& segment.flags as int / 2 % 2 == 1 <==> program.flags & 2 == 2
            &&& segment.flags as int / 4 % 2 == 1 <==> program.flags & 1 == 1
            &&& segment.flags < 8
        }),
{
}

/// The pages of an image are the fewest that hold all of its segments.
pub proof fn an_image_spans_its_segments(segments: Seq<KernelImageSegment>)
    ensures
        span_of(segments) matches Some(span) ==> {
            let end = span.base + span.page_count * 4096;
            &&& span.base as int % 4096 == 0
            &&& forall|i: int|
                0 <= i < segments.len() && #[trigger] segments[i].memory_size != 0
                    && segments[i].virtual_address + segments[i].memory_size <= u64::MAX - 4095 ==> {
                    &&& span.base <= segments[i].virtual_address
                    &&& segments[i].virtual_address + segments[i].memory_size <= end
                }
            &&& exists|i: int|
                0 <= i < segments.len() && #[trigger] segments[i].memory_size != 0
                    && segments[i].virtual_address < span.base + 4096
        },
{
    if span_of(segments) is Some {
        lemma_lowest_page(segments, segments.len());
        lemma_highest_end(segments, segments.len());
    }
}

proof fn lemma_lowest_page(segments: Seq<KernelImageSegment>, n: nat)
    requires
        n <= segments.len(),
    ensures
        ({
            let low = lowest_page(segments, n);
            &&& forall|i: int|
                0 <= i < n && #[trigger] segments[i].memory_size != 0 ==> low
                    <= segments[i].virtual_address
            &&& low != u64::MAX ==> low as int % 4096 == 0 && exists|i: int|
                0 <= i < n && #[trigger] segments[i].memory_size != 0 && low
                    <= segments[i].virtual_address < low + 4096
        }),
    decreases n,
{
    if n > 0 {
        lemma_lowest_page(segments, (n - 1) as nat);
        let last = segments[n - 1];
        assert(segments[n - 1].memory_size == last.memory_size);
        if lowest_page(segments, n) == lowest_page(segments, (n - 1) as nat) && lowest_page(
            segments,
            n,
        ) != u64::MAX {
            let low = lowest_page(segments, n);
            let i = choose|i: int|
                0 <= i < n - 1 && #[trigger] segments[i].memory_size != 0 && low
                    <= segments[i].virtual_address < low + 4096;
            assert(segments[i].memory_size != 0);
        }
    }
}

proof fn lemma_highest_end(segments: Seq<KernelImageSegment>, n: nat)
    requires
        n <= segments.len(),
    ensures
        ({
            let high = highest_end(segments, n);
            &&& high as int % 4096 == 0
            &&& forall|i: int|
                0 <= i < n && #[trigger] segments[i].memory_size != 0 && segments[i].virtual_address
                    + segments[i].memory_size <= u64::MAX - 4095 ==> segments[i].virtual_address
                    + segments[i].memory_size <= high
        }),
    decreases n,
{
    if n > 0 {
        lemma_highest_end(segments, (n - 1) as nat);
        let _ = segments[n - 1].memory_size;
    }
}

/// Every relocation of every relocation section is on the list, up to the first section that is not in
/// the file.
pub proof fn every_relocation_is_listed(bytes: Seq<u8>, header: ElfHeader, from: int, index: int, k: int)
    requires
        0 <= from <= index < header.sh_count,
        forall|i: int|
            from <= i <= index ==> #[trigger] section_present(header, i as u16, bytes.len()),
        relocations_from(bytes, header, from) is Some,
        0 <= k < relocations_of(bytes, header, index as u16).len(),
    ensures
        relocations_from(bytes, header, from).unwrap().contains(
            relocations_of(bytes, header, index as u16)[k],
        ),
    decreases index - from,
{
    assert(section_present(header, from as u16, bytes.len()));
    let own = relocations_of(bytes, header, from as u16);
    let rest = relocations_from(bytes, header, from + 1).unwrap();
    let all = relocations_from(bytes, header, from).unwrap();
    assert(all == own + rest);
    let wanted = relocations_of(bytes, header, index as u16)[k];
    if from == index {
        assert(all[k] == wanted);
    } else {
        every_relocation_is_listed(bytes, header, from + 1, index, k);
        let j = choose|j: int| 0 <= j < rest.len() && rest[j] == wanted;
        assert(all[own.len() + j] == wanted);
    }
}

/// An image that was staged is entered and laid out as far behind its pages as it asked to be behind its
/// first page.
pub proof fn a_staged_image_keeps_its_distances(
    before: KernelImageInfo,
    after: KernelImageInfo,
    bytes: Seq<u8>,
    allocation: u64,
    i: int,
)
    requires
        notes_staging(before, after, bytes, allocation),
        span_of(before.listed()) is Some,
        0 <= i < before.load_segment_count <= before.segments@.len(),
        before.segments@.len() == crate::bootinfo::MAX_KERNEL_IMAGE_SEGMENTS,
    ensures
        ({
            let base = span_of(before.listed()).unwrap().base;
            let segment = before.segments@[i];
            &&& after.load_base == allocation
            &&& base <= before.entry_point && allocation + (before.entry_point - base) <= u64::MAX
                ==> after.loaded_entry_point - allocation == before.entry_point - base
            &&& base <= segment.virtual_address && allocation + (segment.virtual_address - base)
                <= u64::MAX ==> after.segments@[i].load_address - allocation == segment.virtual_address
                - base
            &&& segment.memory_size <= u64::MAX - 8192 ==> segment.virtual_address as int % 4096
                + segment.memory_size <= after.segments@[i].load_page_count * 4096
                < segment.virtual_address as int % 4096 + segment.memory_size + 4096
            &&& after.segments@[i].flags == segment.flags
        }),
{
}

/// The kinds of memory that the firmware tells apart, by their numbers.
pub proof fn memory_kinds_go_by_their_numbers(memory_type: u32)
    ensures
        kind_of(memory_type) == if memory_type < 16 {
            seq![
                MemoryRegionKind::Reserved,
                MemoryRegionKind::LoaderCode,
                MemoryRegionKind::LoaderData,
                MemoryRegionKind::BootServicesCode,
                MemoryRegionKind::BootServicesData,
                MemoryRegionKind::RuntimeServicesCode,
                MemoryRegionKind::RuntimeServicesData,
                MemoryRegionKind::Conventional,
                MemoryRegionKind::Unusable,
                MemoryRegionKind::AcpiReclaim,
                MemoryRegionKind::AcpiNonVolatile,
                MemoryRegionKind::Mmio,
                MemoryRegionKind::MmioPortSpace,
                MemoryRegionKind::PalCode,
                MemoryRegionKind::PersistentMemory,
                MemoryRegionKind::Unaccepted,
            ][memory_type as int]
        } else {
            MemoryRegionKind::Unknown
        },
{
}

/// The memory map is handed over region by region, in order, as far as the table goes.
pub proof fn the_memory_map_is_handed_over(
    before: Seq<MemoryRegion>,
    map: Seq<MemoryDescriptor>,
    i: int,
)
    requires
        before.len() <= 128,
        0 <= i < map.len(),
    ensures
        ({
            let listed = listed_regions(before, map);
            &&& listed.len() == if before.len() + map.len() <= 128 {
                before.len() + map.len()
            } else {
                128
            }
            &&& before.len() + i < 128 ==> listed[before.len() + i] == (MemoryRegion {
                start: map[i].physical_start,
                page_count: map[i].page_count,
                kind: kind_of(map[i].memory_type),
                attributes: map[i].attributes,
            })
            &&& forall|k: int| 0 <= k < before.len() ==> #[trigger] listed[k] == before[k]
        }),
{
}

/// Whether a range that is not empty is among the reserved ones.
pub open spec fn reserves(
    ranges: Seq<ReservedMemoryRange>,
    range: Option<(u64, u64)>,
    kind: ReservedMemoryKind,
) -> bool {
    range matches Some((start, length)) && length != 0 ==> ranges.contains(
        ReservedMemoryRange { start: range.unwrap().0, length: range.unwrap().1, kind },
    )
}

/// Everything that the kernel must not hand out is among the reserved ranges: the first megabyte, the
/// loader, the heaps, the screen, the memory map and the image of the kernel.
#[verifier::spinoff_prover]
pub proof fn everything_in_use_is_reserved(
    info: BootInfo,
    loader_image: Option<(u64, u64)>,
    runtime_heap: Option<(u64, u64)>,
    kernel_heap: Option<(u64, u64)>,
    memory_map: Option<(u64, u64)>,
)
    requires
        info.ranges().len() <= 9,
    ensures
        ({
            let ranges = reserved_ranges(info, loader_image, runtime_heap, kernel_heap, memory_map);
            &&& reserves(ranges, Some((0, 1048576)), ReservedMemoryKind::LowMemory)
            &&& reserves(ranges, loader_image, ReservedMemoryKind::LoaderImage)
            &&& reserves(ranges, runtime_heap, ReservedMemoryKind::RuntimeHeap)
            &&& reserves(ranges, kernel_heap, ReservedMemoryKind::KernelHeap)
            &&& reserves(
                ranges,
                Some((info.framebuffer.base, info.framebuffer.size as u64)),
                ReservedMemoryKind::FrameBuffer,
            )
            &&& reserves(ranges, memory_map, ReservedMemoryKind::MemoryMap)
            &&& info.kernel_image.load_page_count != 0 && info.kernel_image.load_page_count
                < 0x1_0000_0000 && info.kernel_image.load_base as int % 4096 == 0 ==> reserves(
                ranges,
                Some(
                    (
                        info.kernel_image.load_base,
                        (info.kernel_image.load_page_count * 4096) as u64,
                    ),
                ),
                ReservedMemoryKind::KernelImageLoad,
            )
            &&& forall|i: int| 0 <= i < info.ranges().len() ==> ranges.contains(#[trigger] info.ranges()[i])
        }),
{
    let start = info.ranges();
    let low = crate::loader::handoff::with_range(start, 0, 1048576, ReservedMemoryKind::LowMemory);
    lemma_with_range(start, 0, 1048576, ReservedMemoryKind::LowMemory);
    let image = crate::loader::handoff::with_optional_range(
        low,
        loader_image,
        ReservedMemoryKind::LoaderImage,
    );
    lemma_with_optional_range(low, loader_image, ReservedMemoryKind::LoaderImage);
    let heap = crate::loader::handoff::with_optional_range(
        image,
        runtime_heap,
        ReservedMemoryKind::RuntimeHeap,
    );
    lemma_with_optional_range(image, runtime_heap, ReservedMemoryKind::RuntimeHeap);
    let other = crate::loader::handoff::with_optional_range(
        heap,
        kernel_heap,
        ReservedMemoryKind::KernelHeap,
    );
    lemma_with_optional_range(heap, kernel_heap, ReservedMemoryKind::KernelHeap);
    let screen = crate::loader::handoff::with_range(
        other,
        info.framebuffer.base,
        info.framebuffer.size as u64,
        ReservedMemoryKind::FrameBuffer,
    );
    lemma_with_range(
        other,
        info.framebuffer.base,
        info.framebuffer.size as u64,
        ReservedMemoryKind::FrameBuffer,
    );
    let map = crate::loader::handoff::with_optional_range(
        screen,
        memory_map,
        ReservedMemoryKind::MemoryMap,
    );
    lemma_with_optional_range(screen, memory_map, ReservedMemoryKind::MemoryMap);
    lemma_with_range(
        map,
        crate::memory::page_floor(info.kernel_image.load_base as int) as u64,
        crate::bootinfo::capped(info.kernel_image.load_page_count * crate::bootinfo::PAGE_SIZE),
        ReservedMemoryKind::KernelImageLoad,
    );
    let ranges = reserved_ranges(info, loader_image, runtime_heap, kernel_heap, memory_map);
    assert forall|i: int| 0 <= i < start.len() implies ranges.contains(#[trigger] start[i]) by {
        assert(start.contains(start[i]));
    }
}

/// One range at most comes to the reserved ones, and none is lost.
proof fn lemma_with_range(
    ranges: Seq<ReservedMemoryRange>,
    start: u64,
    length: u64,
    kind: ReservedMemoryKind,
)
    requires
        ranges.len() < 16,
    ensures
        ({
            let next = crate::loader::handoff::with_range(ranges, start, length, kind);
            &&& next.len() <= ranges.len() + 1
            &&& forall|r: ReservedMemoryRange| #[trigger] ranges.contains(r) ==> next.contains(r)
            &&& length != 0 ==> next.contains(ReservedMemoryRange { start, length, kind })
        }),
{
    let next = crate::loader::handoff::with_range(ranges, start, length, kind);
    assert forall|r: ReservedMemoryRange| #[trigger] ranges.contains(r) implies next.contains(r) by {
        let i = choose|i: int| 0 <= i < ranges.len() && ranges[i] == r;
        assert(next[i] == r);
    }
    if length != 0 {
        assert(next.last() == (ReservedMemoryRange { start, length, kind }));
    }
}

proof fn lemma_with_optional_range(
    ranges: Seq<ReservedMemoryRange>,
    range: Option<(u64, u64)>,
    kind: ReservedMemoryKind,
)
    requires
        ranges.len() < 16,
    ensures
        ({
            let next = crate::loader::handoff::with_optional_range(ranges, range, kind);
            &&& next.len() <= ranges.len() + 1
            &&& forall|r: ReservedMemoryRange| #[trigger] ranges.contains(r) ==> next.contains(r)
            &&& reserves(next, range, kind)
        }),
{
    if range is Some {
        lemma_with_range(ranges, range.unwrap().0, range.unwrap().1, kind);
    }
}

/// A key of the firmware's keyboard stands for itself, except for the three that mean something else and
/// for halves of a character.
pub proof fn a_key_stands_for_itself(value: u16)
    ensures
        value == 8 ==> printable_input(value) == Some(DesktopInput::Backspace),
        value == 9 ==> printable_input(value) == Some(DesktopInput::CycleFocus),
        value == 13 ==> printable_input(value) == Some(DesktopInput::Submit),
        0xd800 <= value < 0xe000 ==> printable_input(value) is None,
        value != 8 && value != 9 && value != 13 && !(0xd800 <= value < 0xe000) ==> (printable_input(
            value,
        ) matches Some(DesktopInput::Character(c)) && c as int == value),
{
}

/// A movement of the firmware's pointer is one step for each 250, at least one and at most 24, in its own
/// direction.
pub proof fn a_movement_is_scaled(delta: int)
    ensures
        scaled(0) == 0,
        scaled(-delta) == -scaled(delta),
        delta > 0 ==> 1 <= scaled(delta) <= 24,
        250 <= delta < 6250 ==> scaled(delta) * 250 <= delta < scaled(delta) * 250 + 250,
        delta >= 6000 ==> scaled(delta) == 24,
        0 < delta < 500 ==> scaled(delta) == 1,
{
}

/// A kernel is admitted only if its manifest is sound and was written for these bytes, under the root
/// that is trusted; what is then said of it is what the manifest says.
pub proof fn an_admitted_kernel_was_vouched_for(
    kernel: Option<&[u8]>,
    manifest: Option<&[u8]>,
    encoded: Option<&str>,
    stored: Variable,
    load: SlotLoad,
)
    requires
        slot_admitted(kernel, manifest, encoded, stored, Ok(load)),
    ensures
        kernel is Some,
        manifest is Some,
        UpdateManifest::fault(manifest.unwrap()@) is None,
        load.manifest.read_from(manifest.unwrap()@),
        load.manifest.kernel_size == kernel.unwrap()@.len(),
        load.manifest.kernel_sha256@ == crate::crypto::sha256_of(kernel.unwrap()@),
        trust_root_fault(encoded, stored) is None,
        root_refuses(load.manifest, load.root) is None,
        load.info.release_version == load.manifest.release_version,
        load.info.signature_verified == 1,
        load.info.verification_key_id == load.manifest.key_id,
        load.info.kernel_sha256 == load.manifest.kernel_sha256,
        load.step is Stage,
{
}

/// A kernel that is refused was missing, or its manifest was, or did not vouch for it, or it is no ELF
/// file; a missing kernel and a missing manifest are named.
pub proof fn a_refused_kernel_was_not_vouched_for(
    kernel: Option<&[u8]>,
    manifest: Option<&[u8]>,
    encoded: Option<&str>,
    stored: Variable,
    error: KernelLoadError,
)
    requires
        slot_admitted(kernel, manifest, encoded, stored, Err(error)),
    ensures
        kernel is None <==> error == KernelLoadError::KernelReadFailed,
        kernel is Some && manifest is None <==> error == KernelLoadError::ManifestReadFailed,
        kernel is Some && manifest is Some && UpdateManifest::fault(manifest.unwrap()@) is Some ==> error
            == KernelLoadError::ManifestInvalid(UpdateManifest::fault(manifest.unwrap()@).unwrap()),
        error == KernelLoadError::KernelSizeMismatch ==> exists|read: UpdateManifest| #[trigger]
            read.read_from(manifest.unwrap()@) && read.kernel_size != kernel.unwrap()@.len(),
        error == KernelLoadError::KernelHashMismatch ==> exists|read: UpdateManifest| #[trigger]
            read.read_from(manifest.unwrap()@) && read.kernel_size == kernel.unwrap()@.len()
                && read.kernel_sha256@ != crate::crypto::sha256_of(kernel.unwrap()@),
        error == KernelLoadError::InvalidElf ==> crate::elf::header_in(kernel.unwrap()@) is None,
{
}

/// Nothing vouches for a kernel without a manifest, or where there is no root to trust.
#[verifier::spinoff_prover]
pub proof fn nothing_vouches_without_trust(
    kernel: Option<&[u8]>,
    manifest: Option<&[u8]>,
    encoded: Option<&str>,
    stored: Variable,
)
    requires
        kernel is None || manifest is None || trust_root_fault(encoded, stored) is Some,
    ensures
        !vouched_for(kernel, manifest, encoded, stored),
{
}

/// An admitted kernel that can be staged is staged and then asked for its release; one that cannot be is
/// rejected, and nothing that was said of it changes.
pub proof fn an_admitted_kernel_is_staged_or_rejected(
    before: SlotLoad,
    after: SlotLoad,
    kernel: Seq<u8>,
    allocation: u64,
    memory: Seq<u8>,
    memory_after: Seq<u8>,
)
    requires
        before.stages(after, kernel, allocation, memory, memory_after),
    ensures
        after.manifest == before.manifest,
        after.root == before.root,
        after.step is ReadHighestRelease || after.step == SlotStep::Rejected(
            KernelLoadError::StagingFailed,
        ),
        after.step is ReadHighestRelease <==> stageable(
            before.info.listed(),
            kernel,
            allocation,
            memory.len(),
        ),
        after.step is ReadHighestRelease ==> after.info.load_base == allocation && memory_after
            == staged_image(before.info.listed(), kernel, memory.len()) && after.info.release_version
            == before.info.release_version && after.info.signature_verified
            == before.info.signature_verified,
        !(after.step is ReadHighestRelease) ==> after.info == before.info,
{
}

/// When the release counts, a manifest that hands trust over has its next key written, under its own
/// release; any other kernel is loaded.
pub proof fn trust_is_written_before_a_kernel_is_loaded(load: SlotLoad, next: SlotStep)
    requires
        load.after_release(next),
    ensures
        hand_over_fault(load.manifest) matches Some(error) ==> next == SlotStep::Rejected(error),
        hand_over_fault(load.manifest) is None ==> (next is WriteTrustRoot <==> hands_over(
            load.manifest,
            load.root,
        )) && (next is Loaded <==> !hands_over(load.manifest, load.root)),
        next matches SlotStep::WriteTrustRoot(state) ==> state.activation_release_version
            == load.manifest.release_version && state.public_key@
            == load.manifest.next_trust_public_key@ && state.key_id@
            == load.manifest.next_trust_key_id@,
{
}

} // verus!
