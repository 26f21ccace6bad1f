use codexos::bootinfo::{
    FirmwareMode, FrameBufferInfo, KernelImageInfo, MemoryRegionKind, PixelFormat,
    ReservedMemoryKind, KERNEL_SEGMENT_FLAG_EXECUTE, KERNEL_SEGMENT_FLAG_READ, MAX_MEMORY_REGIONS,
};
use codexos::bytes::{get_le_u64, put_le_u16, put_le_u32, put_le_u64};
use codexos::elf::{programs_readable, sections_readable};
use codexos::hex::hex_encode;
use codexos::input::DesktopInput;
use codexos::loader::handoff::{
    collect_memory_regions, collect_reserved_ranges, heap_pages, idle_delay_ms, map_memory_type,
    map_pixel_format, new_boot_info, scale_pointer_delta, translate_key, translate_printable,
    ConsoleKey, MemoryDescriptor, RUNTIME_HEAP_BYTES,
};
use codexos::loader::image::{
    encode_segment_flags, image_span, parse_kernel_image, stage_kernel_segments, wants_own_address,
};
use codexos::loader::slots::{
    boot_state_file, confirm_boot_state, load_boot_state, load_system_slot, slot_files,
    try_load_system_slot, BootChoice,
    SlotStep,
};
use codexos::loader::trust::{
    active_trust_root, confirm_trust_root, embedded_trusted_public_key, encode_release_version,
    enforce_release_version, judge_kernel, plan_trust_root_update, KernelFacts, KernelLoadError,
    TrustRootSource, Variable,
};
use codexos::release::{key_id_for_public_key, sign_kernel_release_with_identity};
use codexos::update::identity_of;
use codexos::update_format::{
    BootState, ManifestError, SystemSlot, TrustRootState, UpdateManifest,
};

const BASE: u64 = 0x20_0000;

const ADDEND: u64 = 0x1122_3344_5566_7788;

const SECRET: [u8; 32] = [0x17; 32];

const NEXT_SECRET: [u8; 32] = [0x18; 32];

/// A file of 64 bits with one segment and one relocation.
fn kernel_file() -> Vec<u8> {
    let mut file = vec![0u8; 272];
    file[0..7].copy_from_slice(&[0x7f, b'E', b'L', b'F', 2, 1, 1]);
    put_le_u16(&mut file, 16, 3);
    put_le_u16(&mut file, 18, 62);
    put_le_u32(&mut file, 20, 1);
    put_le_u64(&mut file, 24, BASE + 0x10);
    put_le_u64(&mut file, 32, 64);
    put_le_u64(&mut file, 40, 144);
    put_le_u16(&mut file, 52, 64);
    put_le_u16(&mut file, 54, 56);
    put_le_u16(&mut file, 56, 1);
    put_le_u16(&mut file, 58, 64);
    put_le_u16(&mut file, 60, 2);
    put_le_u32(&mut file, 64, 1);
    put_le_u32(&mut file, 68, 5);
    put_le_u64(&mut file, 80, BASE);
    put_le_u64(&mut file, 88, BASE);
    put_le_u64(&mut file, 96, 272);
    put_le_u64(&mut file, 104, 0x2000);
    put_le_u64(&mut file, 120, BASE + 0x1000);
    put_le_u64(&mut file, 128, 8);
    put_le_u64(&mut file, 136, ADDEND);
    put_le_u32(&mut file, 208 + 4, 4);
    put_le_u64(&mut file, 208 + 24, 120);
    put_le_u64(&mut file, 208 + 32, 24);
    file
}

fn embedded() -> String {
    hex_encode(&identity_of(SECRET).public_key)
}

fn stored_root(secret: [u8; 32], version: u64) -> TrustRootState {
    let public_key = identity_of(secret).public_key;
    TrustRootState {
        activation_release_version: version,
        public_key,
        key_id: key_id_for_public_key(&public_key),
    }
}

#[test]
fn kernel_files_are_read() {
    let file = kernel_file();
    assert!(programs_readable(&file) && sections_readable(&file));
    let info = parse_kernel_image(&file).unwrap();
    assert_eq!(info.image_size, 272);
    assert_eq!(info.entry_point, BASE + 0x10);
    assert_eq!(info.program_header_count, 1);
    assert_eq!(info.load_segment_count, 1);
    assert_eq!(info.load_segment_total, 1);
    assert_eq!(info.segments[0].virtual_address, BASE);
    assert_eq!(info.segments[0].file_size, 272);
    assert_eq!(info.segments[0].memory_size, 0x2000);
    assert_eq!(
        info.segments[0].flags,
        KERNEL_SEGMENT_FLAG_READ | KERNEL_SEGMENT_FLAG_EXECUTE
    );
    assert!(parse_kernel_image(b"no kernel").is_none());
    assert_eq!(encode_segment_flags(7), 7);
    assert_eq!(encode_segment_flags(4), 1);
}

#[test]
fn unaligned_bytes_are_read_too() {
    let mut padded = vec![0u8];
    padded.extend_from_slice(&kernel_file());
    assert_eq!(parse_kernel_image(&padded[1..]).unwrap().entry_point, BASE + 0x10);
}

#[test]
fn headers_out_of_reach_are_noticed() {
    let mut file = kernel_file();
    put_le_u64(&mut file, 32, 1000);
    assert!(!programs_readable(&file));
    let mut file = kernel_file();
    put_le_u64(&mut file, 208 + 32, 25);
    assert!(!sections_readable(&file));
    let mut file = kernel_file();
    put_le_u64(&mut file, 40, 1000);
    assert!(sections_readable(&file));
}

#[test]
fn kernels_are_staged_and_relocated() {
    let file = kernel_file();
    let mut info = parse_kernel_image(&file).unwrap();
    let span = image_span(info.segments()).unwrap();
    assert_eq!((span.base, span.page_count), (BASE, 2));
    assert!(wants_own_address(span));
    let mut memory = vec![0xaa; 0x2000];
    assert!(stage_kernel_segments(&mut info, &file, 0x50_0000, &mut memory));
    assert_eq!(&memory[..272], &file[..]);
    assert!(memory[272..0x1000].iter().all(|byte| *byte == 0));
    assert_eq!(get_le_u64(&memory, 0x1000), ADDEND);
    assert_eq!(info.load_base, 0x50_0000);
    assert_eq!(info.load_page_count, 2);
    assert_eq!(info.loaded_entry_point, 0x50_0010);
    assert_eq!(info.loaded_segment_count, 1);
    assert_eq!(info.relocation_count, 1);
    assert_eq!(info.segments[0].load_address, 0x50_0000);
    assert_eq!(info.segments[0].load_page_count, 2);
}

#[test]
fn other_relocations_are_refused() {
    let stages = |file: &[u8]| {
        let mut info = parse_kernel_image(file).unwrap();
        let mut memory = vec![0; 0x2000];
        stage_kernel_segments(&mut info, file, 0x50_0000, &mut memory)
    };
    let mut kind = kernel_file();
    put_le_u64(&mut kind, 128, 7);
    assert!(!stages(&kind));
    let mut outside = kernel_file();
    put_le_u64(&mut outside, 120, BASE + 0x1ffc);
    assert!(!stages(&outside));
    let mut unknown = kernel_file();
    put_le_u32(&mut unknown, 208 + 4, 12);
    assert!(!stages(&unknown));
    let mut longer = kernel_file();
    put_le_u64(&mut longer, 96, 273);
    assert!(!stages(&longer));
}

#[test]
fn images_without_memory_are_refused() {
    let mut file = kernel_file();
    put_le_u64(&mut file, 104, 0);
    let info = parse_kernel_image(&file).unwrap();
    assert_eq!(image_span(info.segments()), None);
}

#[test]
fn the_stored_trust_root_comes_first() {
    let text = embedded();
    let root = active_trust_root(Some(&text), &Variable::Missing).unwrap();
    assert_eq!(root.source, TrustRootSource::Embedded);
    assert_eq!(root.public_key, identity_of(SECRET).public_key);
    assert_eq!(root.activation_release_version, 0);

    let state = stored_root(NEXT_SECRET, 9);
    let stored = Variable::Value(state.encode().to_vec());
    let root = active_trust_root(Some(&text), &stored).unwrap();
    assert_eq!(root.source, TrustRootSource::Persisted);
    assert_eq!(root.source.as_str(), "persisted");
    assert_eq!(root.public_key, state.public_key);
    assert_eq!(root.activation_release_version, 9);
}

#[test]
fn trust_roots_that_cannot_be_used_are_refused() {
    let text = embedded();
    assert_eq!(
        active_trust_root(None, &Variable::Missing).unwrap_err(),
        KernelLoadError::TrustedKeyUnavailable
    );
    assert_eq!(
        active_trust_root(Some("zz"), &Variable::Missing).unwrap_err(),
        KernelLoadError::TrustedKeyUnavailable
    );
    assert_eq!(embedded_trusted_public_key(None), None);
    assert_eq!(
        active_trust_root(Some(&text), &Variable::Unreadable).unwrap_err(),
        KernelLoadError::PersistedTrustRootUnavailable
    );
    assert_eq!(
        active_trust_root(Some(&text), &Variable::Value(vec![0; 3])).unwrap_err(),
        KernelLoadError::PersistedTrustRootInvalid
    );
    let mut state = stored_root(NEXT_SECRET, 9);
    state.key_id[0] ^= 1;
    assert_eq!(
        active_trust_root(Some(&text), &Variable::Value(state.encode().to_vec())).unwrap_err(),
        KernelLoadError::PersistedTrustRootInvalid
    );
}

#[test]
fn trust_is_handed_over_once() {
    let text = embedded();
    let root = active_trust_root(Some(&text), &Variable::Missing).unwrap();
    let next = identity_of(NEXT_SECRET).public_key;
    let plain = sign_kernel_release_with_identity(b"kernel", 2, &SECRET, None);
    let manifest = UpdateManifest::decode(&plain).unwrap();
    assert_eq!(plan_trust_root_update(&manifest, &root), Ok(None));

    let rotating = sign_kernel_release_with_identity(b"kernel", 2, &SECRET, Some(next));
    let manifest = UpdateManifest::decode(&rotating).unwrap();
    let state = plan_trust_root_update(&manifest, &root).unwrap().unwrap();
    assert_eq!(state, stored_root(NEXT_SECRET, 2));
    let stored = Variable::Value(state.encode().to_vec());
    assert_eq!(confirm_trust_root(&state, &stored), Ok(()));
    assert_eq!(
        confirm_trust_root(&state, &Variable::Missing),
        Err(KernelLoadError::TrustRootUpdateFailed)
    );
    let rotated = active_trust_root(Some(&text), &stored).unwrap();
    assert_eq!(rotated.public_key, next);
    assert_eq!(plan_trust_root_update(&manifest, &rotated), Ok(None));

    let mut wrong = manifest;
    wrong.next_trust_key_id[0] ^= 1;
    assert_eq!(
        plan_trust_root_update(&wrong, &root),
        Err(KernelLoadError::NextTrustKeyIdMismatch)
    );
}

#[test]
fn older_releases_are_refused() {
    assert_eq!(enforce_release_version(3, &Variable::Missing), Ok(Some(3)));
    let stored = Variable::Value(encode_release_version(3).to_vec());
    assert_eq!(enforce_release_version(3, &stored), Ok(None));
    assert_eq!(enforce_release_version(4, &stored), Ok(Some(4)));
    assert_eq!(
        enforce_release_version(2, &stored),
        Err(KernelLoadError::RollbackDetected { candidate: 2, minimum: 3 })
    );
    assert_eq!(
        enforce_release_version(2, &Variable::Unreadable),
        Err(KernelLoadError::RollbackStateUnavailable)
    );
    assert_eq!(
        enforce_release_version(2, &Variable::Value(vec![1])),
        Err(KernelLoadError::RollbackStateUnavailable)
    );
}

#[test]
fn kernels_are_judged_by_the_facts() {
    let manifest = UpdateManifest::unsigned(3, 10, [1; 32], [2; 16]);
    let facts = KernelFacts {
        kernel_size: 10,
        kernel_sha256: [1; 32],
        root: Err(KernelLoadError::PersistedTrustRootInvalid),
        root_decodes: true,
        signature_holds: true,
    };
    assert_eq!(
        judge_kernel(&manifest, &facts).unwrap_err(),
        KernelLoadError::PersistedTrustRootInvalid
    );
    assert_eq!(
        judge_kernel(&manifest, &KernelFacts { kernel_size: 9, ..facts }).unwrap_err(),
        KernelLoadError::KernelSizeMismatch
    );
    assert_eq!(
        judge_kernel(&manifest, &KernelFacts { kernel_sha256: [0; 32], ..facts }).unwrap_err(),
        KernelLoadError::KernelHashMismatch
    );
}

#[test]
fn signed_slots_are_loaded() {
    let file = kernel_file();
    let text = embedded();
    let manifest = sign_kernel_release_with_identity(&file, 5, &SECRET, None);
    let mut load =
        load_system_slot(Some(&file), Some(&manifest), Some(&text), &Variable::Missing).unwrap();
    assert_eq!(load.info.release_version, 5);
    assert_eq!(load.info.signature_verified, 1);
    let span = load.wanted_pages().unwrap();
    let mut memory = vec![0; span.page_count as usize * 4096];
    load.stage(&file, 0x50_0000, &mut memory);
    assert!(matches!(load.step, SlotStep::ReadHighestRelease));
    load.highest_release(&Variable::Missing);
    assert!(matches!(load.step, SlotStep::WriteHighestRelease(5)));
    load.written(true);
    assert!(matches!(load.step, SlotStep::Loaded));
}

#[test]
fn sections_matter_only_once_the_segments_are_copied() {
    let mut file = kernel_file();
    put_le_u64(&mut file, 208 + 32, 25);
    let text = embedded();
    let manifest = sign_kernel_release_with_identity(&file, 5, &SECRET, None);
    let admitted =
        load_system_slot(Some(&file), Some(&manifest), Some(&text), &Variable::Missing).unwrap();
    let mut load = admitted;
    let mut memory = vec![0; 0x2000];
    assert!(!load.try_stage(&file, 0x50_0000, &mut memory));
    assert!(matches!(load.step, SlotStep::Stage));
    let mut short = vec![0; 16];
    assert!(load.try_stage(&file, 0x50_0000, &mut short));
    assert!(matches!(load.step, SlotStep::Rejected(KernelLoadError::StagingFailed)));

    let file = kernel_file();
    let manifest = sign_kernel_release_with_identity(&file, 5, &SECRET, None);
    let mut load =
        load_system_slot(Some(&file), Some(&manifest), Some(&text), &Variable::Missing).unwrap();
    assert!(load.try_stage(&file, 0x50_0000, &mut memory));
    assert!(matches!(load.step, SlotStep::ReadHighestRelease));
}

#[test]
fn slots_that_hand_trust_over_store_it() {
    let file = kernel_file();
    let text = embedded();
    let next = identity_of(NEXT_SECRET).public_key;
    let manifest = sign_kernel_release_with_identity(&file, 5, &SECRET, Some(next));
    let mut load =
        load_system_slot(Some(&file), Some(&manifest), Some(&text), &Variable::Missing).unwrap();
    let mut memory = vec![0; 0x2000];
    load.stage(&file, 0x50_0000, &mut memory);
    load.highest_release(&Variable::Value(encode_release_version(5).to_vec()));
    assert!(matches!(load.step, SlotStep::WriteTrustRoot(_)));
    load.written(true);
    assert!(matches!(load.step, SlotStep::ReadTrustRoot(_)));
    load.trust_root(&Variable::Value(stored_root(NEXT_SECRET, 5).encode().to_vec()));
    assert!(matches!(load.step, SlotStep::Loaded));

    let mut older =
        load_system_slot(Some(&file), Some(&manifest), Some(&text), &Variable::Missing).unwrap();
    older.stage(&file, 0x50_0000, &mut memory);
    older.highest_release(&Variable::Value(encode_release_version(6).to_vec()));
    assert!(matches!(
        older.step,
        SlotStep::Rejected(KernelLoadError::RollbackDetected { candidate: 5, minimum: 6 })
    ));
}

#[test]
fn only_a_signed_kernel_is_looked_into() {
    let mut file = kernel_file();
    put_le_u64(&mut file, 32, 1000);
    let text = embedded();
    let manifest = sign_kernel_release_with_identity(&kernel_file(), 5, &SECRET, None);
    assert_eq!(
        try_load_system_slot(Some(&file), Some(&manifest), Some(&text), &Variable::Missing)
            .unwrap()
            .unwrap_err(),
        KernelLoadError::KernelHashMismatch
    );
    let manifest = sign_kernel_release_with_identity(&file, 5, &SECRET, None);
    assert!(
        try_load_system_slot(Some(&file), Some(&manifest), Some(&text), &Variable::Missing)
            .is_none()
    );
    let file = kernel_file();
    let manifest = sign_kernel_release_with_identity(&file, 5, &SECRET, None);
    assert!(
        try_load_system_slot(Some(&file), Some(&manifest), Some(&text), &Variable::Missing)
            .unwrap()
            .is_ok()
    );
}

#[test]
fn slots_that_are_not_signed_are_rejected() {
    let file = kernel_file();
    let text = embedded();
    let manifest = sign_kernel_release_with_identity(&file, 5, &SECRET, None);
    let error = |kernel: Option<&[u8]>, manifest: Option<&[u8]>| {
        load_system_slot(kernel, manifest, Some(&text), &Variable::Missing).unwrap_err()
    };
    assert_eq!(error(None, Some(&manifest)), KernelLoadError::KernelReadFailed);
    assert_eq!(error(Some(&file), None), KernelLoadError::ManifestReadFailed);
    assert_eq!(
        error(Some(&file), Some(&manifest[..9])),
        KernelLoadError::ManifestInvalid(ManifestError::InvalidLength)
    );
    let mut changed = file.clone();
    changed[270] ^= 0x80;
    assert_eq!(
        error(Some(&changed), Some(&manifest)),
        KernelLoadError::KernelHashMismatch
    );
    assert_eq!(
        error(Some(&file[..200]), Some(&manifest)),
        KernelLoadError::KernelSizeMismatch
    );
    let mut signature = manifest;
    signature[160] ^= 0x80;
    assert_eq!(
        error(Some(&file), Some(&signature)),
        KernelLoadError::SignatureInvalid
    );
    let foreign = sign_kernel_release_with_identity(&file, 5, &NEXT_SECRET, None);
    assert_eq!(error(Some(&file), Some(&foreign)), KernelLoadError::KeyIdMismatch);
    let nothing = sign_kernel_release_with_identity(b"nothing", 5, &SECRET, None);
    assert_eq!(
        error(Some(b"nothing"), Some(&nothing)),
        KernelLoadError::InvalidElf
    );
}

fn state(generation: u64, active_slot: SystemSlot, version: u64) -> BootState {
    BootState { generation, active_slot, active_release_version: version }
}

fn image(version: u64) -> KernelImageInfo {
    KernelImageInfo { release_version: version, ..KernelImageInfo::empty() }
}

#[test]
fn the_newest_boot_state_is_in_effect() {
    let old = state(3, SystemSlot::A, 1).encode();
    let new = state(4, SystemSlot::B, 2).encode();
    assert_eq!(
        load_boot_state(Some(&old), Some(&new)),
        Ok(state(4, SystemSlot::B, 2))
    );
    assert_eq!(load_boot_state(Some(&old), None), Ok(state(3, SystemSlot::A, 1)));
    let mut damaged = new;
    damaged[0] ^= 0x80;
    assert_eq!(
        load_boot_state(Some(&old), Some(&damaged)),
        Ok(state(3, SystemSlot::A, 1))
    );
    assert_eq!(
        load_boot_state(None, Some(&damaged)),
        Err(KernelLoadError::BootStateUnavailable)
    );
    assert_eq!(confirm_boot_state(state(4, SystemSlot::B, 2), Some(&new)), Ok(()));
    assert_eq!(
        confirm_boot_state(state(4, SystemSlot::B, 2), Some(&old)),
        Err(KernelLoadError::BootStateRepairFailed)
    );
}

#[test]
fn an_interrupted_switch_leaves_the_current_state() {
    let first = state(1, SystemSlot::A, 1).encode();
    let second = state(2, SystemSlot::A, 1).encode();
    let next = state(3, SystemSlot::B, 2).encode();
    let mut torn = first;
    torn[..20].copy_from_slice(&next[..20]);
    assert_eq!(load_boot_state(Some(&torn), Some(&second)), Ok(state(2, SystemSlot::A, 1)));
    assert_eq!(load_boot_state(Some(&next), Some(&second)), Ok(state(3, SystemSlot::B, 2)));
}

#[test]
fn the_active_slot_is_booted() {
    let mut choice = BootChoice::load_kernel_image(Ok(state(3, SystemSlot::B, 2)));
    assert_eq!(choice.slot(), Some(SystemSlot::B));
    choice.slot_loaded(Ok(image(2)));
    match choice {
        BootChoice::Chosen(image) => {
            assert_eq!(image.system_slot, 1);
            assert_eq!(image.boot_state_generation, 3);
            assert_eq!(image.recovery_fallback, 0);
        }
        _ => panic!("not chosen"),
    }
}

#[test]
fn the_other_slot_is_a_fallback() {
    let mut choice = BootChoice::load_kernel_image(Ok(state(3, SystemSlot::B, 2)));
    choice.slot_loaded(Err(KernelLoadError::KernelHashMismatch));
    assert_eq!(choice.slot(), Some(SystemSlot::A));
    choice.slot_loaded(Ok(image(2)));
    let (written, in_first) = choice.record_to_write().unwrap();
    assert_eq!(written, state(4, SystemSlot::A, 2));
    assert!(!in_first);
    choice.state_written(true);
    match choice {
        BootChoice::Chosen(image) => {
            assert_eq!(image.system_slot, 0);
            assert_eq!(image.boot_state_generation, 4);
            assert_eq!(image.recovery_fallback, 1);
        }
        _ => panic!("not chosen"),
    }
}

#[test]
fn a_slot_with_another_release_is_passed_over() {
    let mut choice = BootChoice::load_kernel_image(Ok(state(3, SystemSlot::A, 2)));
    choice.slot_loaded(Ok(image(1)));
    assert_eq!(choice.slot(), Some(SystemSlot::B));
    choice.slot_loaded(Err(KernelLoadError::SignatureInvalid));
    assert!(matches!(
        choice,
        BootChoice::Failed(KernelLoadError::BothSystemSlotsUnavailable)
    ));
}

#[test]
fn without_a_boot_state_the_newest_release_is_booted() {
    let mut choice = BootChoice::load_kernel_image(Err(KernelLoadError::BootStateUnavailable));
    assert_eq!(choice.slot(), Some(SystemSlot::A));
    choice.slot_loaded(Ok(image(1)));
    assert_eq!(choice.slot(), Some(SystemSlot::B));
    choice.slot_loaded(Ok(image(2)));
    assert_eq!(choice.record_to_write(), Some((state(1, SystemSlot::B, 2), true)));
    choice.state_written(true);
    assert_eq!(choice.record_to_write(), Some((state(2, SystemSlot::B, 2), false)));
    choice.state_written(true);
    match choice {
        BootChoice::Chosen(image) => assert_eq!(image.boot_state_generation, 2),
        _ => panic!("not chosen"),
    }
}

#[test]
fn files_have_their_names() {
    assert_eq!(boot_state_file(true), "BOOTSTA0.BIN");
    assert_eq!(boot_state_file(false), "BOOTSTA1.BIN");
    assert_eq!(
        slot_files(SystemSlot::B),
        ("SYSTEM/B/KERNEL.ELF", "SYSTEM/B/KERNEL.SIG")
    );
}

#[test]
fn the_machine_is_described_to_the_kernel() {
    let framebuffer = FrameBufferInfo {
        base: 0x8000_0000,
        size: 4096,
        width: 32,
        height: 32,
        stride: 32,
        bytes_per_pixel: 4,
        pixel_format: map_pixel_format(1),
    };
    assert_eq!(framebuffer.pixel_format, PixelFormat::Bgr);
    let kernel = KernelImageInfo {
        load_base: 0x20_0010,
        load_page_count: 2,
        ..KernelImageInfo::empty()
    };
    let mut info = new_boot_info(framebuffer, FirmwareMode::UefiBootServices, kernel);
    let entry = MemoryDescriptor {
        memory_type: 7,
        physical_start: 0x10_0000,
        page_count: 3,
        attributes: 15,
    };
    let map = vec![entry; MAX_MEMORY_REGIONS + 2];
    collect_memory_regions(&mut info, &map);
    assert_eq!(info.memory_region_count, MAX_MEMORY_REGIONS);
    assert_eq!(info.memory_region_total, MAX_MEMORY_REGIONS + 2);
    assert_eq!(info.memory_regions[0].kind, MemoryRegionKind::Conventional);
    collect_reserved_ranges(
        &mut info,
        Some((0x1000, 0)),
        Some((0x40_0000, 0x1000)),
        None,
        Some((0x50_0000, 0x2000)),
    );
    let kinds: Vec<ReservedMemoryKind> =
        info.reserved_memory().iter().map(|range| range.kind).collect();
    assert_eq!(
        kinds,
        [
            ReservedMemoryKind::LowMemory,
            ReservedMemoryKind::RuntimeHeap,
            ReservedMemoryKind::FrameBuffer,
            ReservedMemoryKind::MemoryMap,
            ReservedMemoryKind::KernelImageLoad,
        ]
    );
    assert_eq!(info.reserved_memory()[4].start, 0x20_0000);
    assert_eq!(info.reserved_memory()[4].length, 0x2000);
    assert_eq!(map_memory_type(15), MemoryRegionKind::Unaccepted);
    assert_eq!(map_memory_type(16), MemoryRegionKind::Unknown);
    assert_eq!(heap_pages(RUNTIME_HEAP_BYTES), Some((16384, 64 * 1024 * 1024)));
    assert_eq!(heap_pages(1), Some((1, 4096)));
}

#[test]
fn console_keys_move_the_desktop() {
    assert_eq!(translate_key(ConsoleKey::Special(1)), Some(DesktopInput::MoveUp));
    assert_eq!(translate_key(ConsoleKey::Special(4)), Some(DesktopInput::MoveLeft));
    assert_eq!(translate_key(ConsoleKey::Special(0x17)), Some(DesktopInput::Exit));
    assert_eq!(translate_key(ConsoleKey::Special(9)), None);
    assert_eq!(
        translate_key(ConsoleKey::Printable(0x41)),
        Some(DesktopInput::Character('A'))
    );
    assert_eq!(translate_printable(13), Some(DesktopInput::Submit));
    assert_eq!(translate_printable(0xd800), None);
}

#[test]
fn pointer_movements_are_scaled() {
    assert_eq!(scale_pointer_delta(0), 0);
    assert_eq!(scale_pointer_delta(1), 1);
    assert_eq!(scale_pointer_delta(-1), -1);
    assert_eq!(scale_pointer_delta(1000), 4);
    assert_eq!(scale_pointer_delta(-100_000), -24);
    assert_eq!(idle_delay_ms(true, false), 1);
    assert_eq!(idle_delay_ms(false, true), 4);
    assert_eq!(idle_delay_ms(false, false), 8);
}
