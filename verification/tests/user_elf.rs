use codexos::bytes::{put_le_u32, put_le_u64};
use codexos::user_elf::{
    build_flat_rx_executable, parse, UserElfError, ELF64_HEADER_BYTES, PF_R, PF_W, PF_X,
};

#[test]
fn parses_a_single_segment_executable() {
    let image = build_flat_rx_executable(0x2000_0000_0000, &[0xcc, 0xc3]).unwrap();
    let parsed = parse(&image).unwrap();
    assert_eq!(parsed.entry, 0x2000_0000_0000);
    assert_eq!(parsed.segments.len(), 1);
    assert_eq!(parsed.segments[0].data, &[0xcc, 0xc3]);
    assert!(parsed.segments[0].executable);
    assert!(!parsed.segments[0].writable);
}

#[test]
fn rejects_segments_that_are_writable_and_executable() {
    let mut image = build_flat_rx_executable(0x2000_0000_0000, &[0x90]).unwrap();
    put_le_u32(&mut image, ELF64_HEADER_BYTES + 4, PF_R | PF_W | PF_X);
    assert_eq!(parse(&image), Err(UserElfError::WritableExecutableSegment));
}

#[test]
fn rejects_entry_outside_executable_bytes() {
    let mut image = build_flat_rx_executable(0x2000_0000_0000, &[0x90]).unwrap();
    put_le_u64(&mut image, 24, 0x2000_0000_0100);
    assert_eq!(parse(&image), Err(UserElfError::EntryNotExecutable));
}
