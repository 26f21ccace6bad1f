use codexos::interrupts::{
    exception_has_error_code, exception_name, mask_pic, program_pit, remap_pic, send_eoi,
    set_user_stack, tss_descriptor, user_stack, IdtEntry, TaskStateSegment, TrapFrame, UserFrame, KERNEL_CODE_SELECTOR, TIMER_VECTOR, USER_CODE_SELECTOR,
    USER_DATA_SELECTOR,
};

#[test]
fn classifies_all_architectural_error_code_exceptions() {
    let vectors: Vec<u8> =
        (0..32).filter(|&v| exception_has_error_code(v)).collect();
    assert_eq!(vectors, [8, 10, 11, 12, 13, 14, 17, 21, 29, 30]);
}

#[test]
fn names_every_architectural_exception() {
    for vector in 0..32 {
        assert!(!exception_name(vector).is_empty());
    }
}

#[test]
fn builds_a_valid_64_bit_tss_descriptor() {
    assert_eq!(core::mem::size_of::<TaskStateSegment>(), 104);
    let base = 0x1234_5678_9abc_def0;
    let (low, high) = tss_descriptor(base);
    let decoded_base =
        ((low >> 16) & 0x00ff_ffff) | (((low >> 56) & 0xff) << 24) | (high << 32);
    assert_eq!(decoded_base, base);
    assert_eq!((low >> 40) & 0xff, 0x89);
    assert_eq!(low & 0xffff, 103);
}

#[test]
fn exposes_only_the_syscall_gate_to_ring_three() {
    let gate = IdtEntry::from_addr(0x1234, KERNEL_CODE_SELECTOR).with_dpl(3);
    assert_eq!((gate.type_attr >> 5) & 3, 3);
    let selector = gate.selector;
    assert_eq!(selector, KERNEL_CODE_SELECTOR);
}

#[test]
fn trap_frame_prefix_ends_before_the_hardware_user_stack_fields() {
    assert_eq!(core::mem::size_of::<TrapFrame>(), 160);
}

#[test]
fn reads_and_rewrites_hardware_user_stack_fields() {
    let mut complete = UserFrame {
        frame: TrapFrame {
            r15: 0,
            r14: 0,
            r13: 0,
            r12: 0,
            r11: 0,
            r10: 0,
            r9: 0,
            r8: 0,
            rbp: 0,
            rdi: 0,
            rsi: 0,
            rdx: 0,
            rcx: 0,
            rbx: 0,
            rax: 0,
            vector: u64::from(TIMER_VECTOR),
            error_code: 0,
            rip: 0x2000,
            cs: u64::from(USER_CODE_SELECTOR),
            rflags: 0x202,
        },
        user_rsp: 0x8000,
        user_ss: u64::from(USER_DATA_SELECTOR),
    };

    assert_eq!(
        user_stack(&complete),
        Some((0x8000, u64::from(USER_DATA_SELECTOR)))
    );
    assert!(set_user_stack(&mut complete, 0x9000, 0x2b));
    assert_eq!(complete.user_rsp, 0x9000);
    assert_eq!(complete.user_ss, 0x2b);
}

#[test]
fn controllers_and_timer_are_programmed() {
    let remap: Vec<(u16, u8, bool)> =
        remap_pic(0xb8, 0x8e).iter().map(|write| (write.port, write.value, write.wait)).collect();
    assert_eq!(
        remap,
        [
            (0x20, 0x11, true),
            (0xa0, 0x11, true),
            (0x21, 32, true),
            (0xa1, 40, true),
            (0x21, 4, true),
            (0xa1, 2, true),
            (0x21, 1, true),
            (0xa1, 1, true),
            (0x21, 0xb8, false),
            (0xa1, 0x8e, false),
        ]
    );
    let masks: Vec<(u16, u8)> =
        mask_pic(0xfe, 0xff).iter().map(|write| (write.port, write.value)).collect();
    assert_eq!(masks, [(0x21, 0xfe), (0xa1, 0xff)]);
    let timer: Vec<(u16, u8)> =
        program_pit(100).iter().map(|write| (write.port, write.value)).collect();
    assert_eq!(timer, [(0x43, 0x36), (0x40, 0x9b), (0x40, 0x2e)]);
    assert_eq!(send_eoi(32).len(), 1);
    let both: Vec<u16> = send_eoi(40).iter().map(|write| write.port).collect();
    assert_eq!(both, [0xa0, 0x20]);
}
