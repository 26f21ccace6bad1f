use codexos::process::{
    user_buffer_within, ERR_INVALID_ARGUMENT, ERR_NOT_IMPLEMENTED, KERNEL_WRITE_PROBE_ADDRESS,
};

#[test]
fn syscall_error_values_follow_negative_errno_convention() {
    assert_eq!(ERR_INVALID_ARGUMENT as i64, -22);
    assert_eq!(ERR_NOT_IMPLEMENTED as i64, -38);
}

#[test]
fn kernel_probe_targets_the_loaded_text_page() {
    assert_eq!(KERNEL_WRITE_PROBE_ADDRESS, 0x20_0000);
}

#[test]
fn user_buffer_validation_rejects_escape_and_overflow() {
    assert!(user_buffer_within(0x1000, 0x2000, 0x1800, 16, 256));
    assert!(!user_buffer_within(0x1000, 0x2000, 0x0fff, 16, 256));
    assert!(!user_buffer_within(0x1000, 0x2000, 0x1ff8, 16, 256));
    assert!(!user_buffer_within(0x1000, 0x2000, u64::MAX - 3, 8, 256));
    assert!(!user_buffer_within(0x1000, 0x2000, 0x1800, 257, 256));
}
