//! Interrupts: the tables that the processor is given, what is saved when one comes, and what is done
//! about it.

use vstd::prelude::*;
use crate::bytes::{le16, le32, le64, lemma_numbers_agree, put_le_u16, put_le_u32, put_le_u64, same_outside, zero_between};

verus! {

pub const IDT_ENTRIES: usize = 256;

pub const INTERRUPT_GATE: u8 = 0x8e;

pub const PIT_BASE_HZ: u32 = 1_193_182;

pub const TIMER_VECTOR: u8 = 32;

pub const TIMER_HZ: u32 = 100;

pub const KERNEL_CODE_SELECTOR: u16 = 0x08;

pub const KERNEL_DATA_SELECTOR: u16 = 0x10;

pub const TSS_SELECTOR: u16 = 0x18;

pub const USER_DATA_SELECTOR: u16 = 0x2b;

pub const USER_CODE_SELECTOR: u16 = 0x33;

pub const USER_SYSCALL_VECTOR: u8 = 0x80;

pub const DOUBLE_FAULT_IST: u8 = 1;

pub const DOUBLE_FAULT_STACK_BYTES: usize = 65536;

pub const PIC1_COMMAND: u16 = 0x20;

pub const PIC1_DATA: u16 = 0x21;

pub const PIC2_COMMAND: u16 = 0xa0;

pub const PIC2_DATA: u16 = 0xa1;

/// What tells a controller that an interrupt was served.
pub const PIC_EOI: u8 = 0x20;

/// All interrupts of the first controller but the timer's are masked.
pub const FIRST_MASK: u8 = 0xfe;

/// All interrupts of the second controller are masked.
pub const SECOND_MASK: u8 = 0xff;

pub const PIT_CHANNEL: u16 = 0x40;

pub const PIT_COMMAND: u16 = 0x43;

/// The first vector of the second interrupt controller.
pub const SECOND_PIC_VECTOR: u8 = 40;

pub const TSS_BYTES: usize = 104;

/// What is known of interrupts.
#[derive(Debug, Clone, Copy, PartialEq, Eq, Structural)]
pub struct InterruptStatus {
    pub gdt_loaded: bool,
    pub task_register: u16,
    pub idt_loaded: bool,
    pub hardware_enabled: bool,
    pub ticks: u64,
    pub timer_hz: u32,
    pub breakpoint_hits: u64,
}

/// A gate: where the processor goes on an interrupt.
#[derive(Debug, Clone, Copy, PartialEq, Eq, Structural)]
pub struct IdtEntry {
    pub offset_low: u16,
    pub selector: u16,
    pub ist: u8,
    pub type_attr: u8,
    pub offset_mid: u16,
    pub offset_high: u32,
    pub reserved: u32,
}

/// Where a gate leads.
pub open spec fn gate_address(entry: IdtEntry) -> int {
    entry.offset_low + 0x1_0000 * entry.offset_mid + 0x1_0000_0000 * entry.offset_high
}

/// A gate to `addr` that only the kernel may use.
pub open spec fn kernel_gate(addr: u64, selector: u16) -> IdtEntry {
    IdtEntry {
        offset_low: (addr % 0x1_0000) as u16,
        selector,
        ist: 0,
        type_attr: INTERRUPT_GATE,
        offset_mid: (addr / 0x1_0000 % 0x1_0000) as u16,
        offset_high: (addr / 0x1_0000_0000) as u32,
        reserved: 0,
    }
}

/// The bits of `type_attr` with the privilege level `dpl`.
pub open spec fn with_privilege(type_attr: u8, dpl: u8) -> u8 {
    (type_attr & 0x9f) | ((dpl & 3) << 5)
}

impl IdtEntry {
    /// A gate that leads nowhere.
    pub fn missing() -> (entry: IdtEntry)
        ensures
            entry == (IdtEntry {
                offset_low: 0,
                selector: 0,
                ist: 0,
                type_attr: 0,
                offset_mid: 0,
                offset_high: 0,
                reserved: 0,
            }),
    {
        IdtEntry {
            offset_low: 0,
            selector: 0,
            ist: 0,
            type_attr: 0,
            offset_mid: 0,
            offset_high: 0,
            reserved: 0,
        }
    }

    /// A gate to `addr` that only the kernel may use.
    pub fn from_addr(addr: u64, selector: u16) -> (entry: IdtEntry)
        ensures
            entry == kernel_gate(addr, selector),
            gate_address(entry) == addr,
    {
        IdtEntry {
            offset_low: (addr % 0x1_0000) as u16,
            selector,
            ist: 0,
            type_attr: INTERRUPT_GATE,
            offset_mid: (addr / 0x1_0000 % 0x1_0000) as u16,
            offset_high: (addr / 0x1_0000_0000) as u32,
            reserved: 0,
        }
    }

    /// This gate with a stack of its own.
    pub fn with_ist(self, ist: u8) -> (entry: IdtEntry)
        ensures
            entry == (IdtEntry { ist: ist & 7, ..self }),
    {
        IdtEntry {
            offset_low: self.offset_low,
            selector: self.selector,
            ist: ist & 7,
            type_attr: self.type_attr,
            offset_mid: self.offset_mid,
            offset_high: self.offset_high,
            reserved: self.reserved,
        }
    }

    /// This gate for whoever has the privilege level `dpl`.
    pub fn with_dpl(self, dpl: u8) -> (entry: IdtEntry)
        ensures
            entry == (IdtEntry { type_attr: with_privilege(self.type_attr, dpl), ..self }),
    {
        IdtEntry {
            offset_low: self.offset_low,
            selector: self.selector,
            ist: self.ist,
            type_attr: (self.type_attr & 0x9f) | ((dpl & 3) << 5),
            offset_mid: self.offset_mid,
            offset_high: self.offset_high,
            reserved: self.reserved,
        }
    }

    /// The bytes that the processor reads.
    pub fn encode(&self) -> (bytes: [u8; 16])
        ensures
            le16(bytes@, 0) == self.offset_low,
            le16(bytes@, 2) == self.selector,
            bytes@[4] == self.ist,
            bytes@[5] == self.type_attr,
            le16(bytes@, 6) == self.offset_mid,
            le32(bytes@, 8) == self.offset_high,
            le32(bytes@, 12) == self.reserved,
    {
        let mut bytes: [u8; 16] = [0u8; 16];
        put_le_u16(&mut bytes, 0, self.offset_low);
        put_le_u16(&mut bytes, 2, self.selector);
        bytes[4] = self.ist;
        bytes[5] = self.type_attr;
        put_le_u16(&mut bytes, 6, self.offset_mid);
        put_le_u32(&mut bytes, 8, self.offset_high);
        put_le_u32(&mut bytes, 12, self.reserved);
        bytes
    }
}

/// The privilege level that a gate asks for.
pub open spec fn gate_privilege(entry: IdtEntry) -> u8 {
    (entry.type_attr >> 5) & 3
}

/// What each vector leads to: one of its own for every exception, the timer and system calls, and a
/// common one for the rest.
pub open spec fn gate_of(
    vector: int,
    exceptions: Seq<u64>,
    timer: u64,
    syscall: u64,
    other: u64,
    selector: u16,
) -> IdtEntry {
    if vector == 8 {
        IdtEntry { ist: DOUBLE_FAULT_IST & 7, ..kernel_gate(exceptions[vector], selector) }
    } else if vector < 32 {
        kernel_gate(exceptions[vector], selector)
    } else if vector == TIMER_VECTOR {
        kernel_gate(timer, selector)
    } else if vector == USER_SYSCALL_VECTOR {
        IdtEntry {
            type_attr: with_privilege(INTERRUPT_GATE, 3),
            ..kernel_gate(syscall, selector)
        }
    } else {
        kernel_gate(other, selector)
    }
}

/// The table of all gates.
pub fn build_idt(exceptions: &[u64; 32], timer: u64, syscall: u64, other: u64, selector: u16) -> (table:
    Vec<IdtEntry>)
    ensures
        table@ == Seq::new(
            IDT_ENTRIES as nat,
            |vector: int| gate_of(vector, exceptions@, timer, syscall, other, selector),
        ),
{
    let mut table: Vec<IdtEntry> = Vec::new();
    let mut vector: usize = 0;
    while vector < IDT_ENTRIES
        invariant
            vector <= IDT_ENTRIES,
            table@.len() == vector,
            forall|i: int|
                0 <= i < vector ==> #[trigger] table@[i] == gate_of(
                    i,
                    exceptions@,
                    timer,
                    syscall,
                    other,
                    selector,
                ),
        decreases IDT_ENTRIES - vector,
    {
        let entry: IdtEntry = if vector == 8 {
            IdtEntry::from_addr(exceptions[vector], selector).with_ist(DOUBLE_FAULT_IST)
        } else if vector < 32 {
            IdtEntry::from_addr(exceptions[vector], selector)
        } else if vector == TIMER_VECTOR as usize {
            IdtEntry::from_addr(timer, selector)
        } else if vector == USER_SYSCALL_VECTOR as usize {
            IdtEntry::from_addr(syscall, selector).with_dpl(3)
        } else {
            IdtEntry::from_addr(other, selector)
        };
        table.push(entry);
        vector += 1;
    }
    assert(table@ =~= Seq::new(
        IDT_ENTRIES as nat,
        |vector: int| gate_of(vector, exceptions@, timer, syscall, other, selector),
    ));
    table
}

/// Of all gates only that for system calls is open to user programs.
pub proof fn only_system_calls_are_open_to_users(
    vector: int,
    exceptions: Seq<u64>,
    timer: u64,
    syscall: u64,
    other: u64,
    selector: u16,
)
    requires
        0 <= vector < IDT_ENTRIES,
    ensures
        gate_privilege(gate_of(vector, exceptions, timer, syscall, other, selector)) == if vector
            == USER_SYSCALL_VECTOR {
            3u8
        } else {
            0u8
        },
{
    assert((0x8eu8 >> 5) & 3 == 0) by (bit_vector);
    assert((((0x8eu8 & 0x9f) | ((3u8 & 3) << 5)) >> 5) & 3 == 3) by (bit_vector);
}

/// The task state: where the processor finds the stacks it changes to.
#[derive(Debug, Clone, Copy)]
pub struct TaskStateSegment {
    pub bytes: [u8; TSS_BYTES],
}

impl TaskStateSegment {
    /// The task state with a stack for double faults and no table of ports.
    pub fn new(double_fault_stack: u64) -> (tss: TaskStateSegment)
        ensures
            le64(tss.bytes@, 36) == double_fault_stack,
            le16(tss.bytes@, 102) == TSS_BYTES,
            zero_between(tss.bytes@, 0, 36),
            zero_between(tss.bytes@, 44, 102),
    {
        let mut bytes: [u8; TSS_BYTES] = [0u8; TSS_BYTES];
        put_le_u64(&mut bytes, 36, double_fault_stack);
        let ghost stacked = bytes@;
        put_le_u16(&mut bytes, 102, TSS_BYTES as u16);
        proof {
            lemma_numbers_agree(stacked, bytes@, 36, 8);
        }
        TaskStateSegment { bytes }
    }

    /// Sets the stack for interrupts that come while a user program runs.
    pub fn set_privilege_stack(&mut self, stack_top: u64)
        ensures
            same_outside(old(self).bytes@, final(self).bytes@, 4, 8),
            le64(final(self).bytes@, 4) == stack_top,
    {
        put_le_u64(&mut self.bytes, 4, stack_top);
    }
}

/// The end of the stack of `size` bytes at `base`, at a multiple of sixteen.
pub fn stack_top(base: u64, size: u64) -> (top: u64)
    requires
        base + size <= u64::MAX,
    ensures
        top == (base + size) / 16 * 16,
{
    (base + size) / 16 * 16
}

/// The two halves of the descriptor of a task state at `base`.
pub open spec fn descriptor_halves(base: u64) -> (u64, u64) {
    (103u64 | ((base & 0x00ff_ffff) << 16) | (0x89u64 << 40) | (((base >> 24) & 0xff) << 56), base >> 32)
}

/// The two halves of the descriptor of a task state at `base`.
pub fn tss_descriptor(base: u64) -> (halves: (u64, u64))
    ensures
        halves == descriptor_halves(base),
{
    (103u64 | ((base & 0x00ff_ffff) << 16) | (0x89u64 << 40) | (((base >> 24) & 0xff) << 56), base >> 32)
}

/// The descriptor of a task state gives its address back, its type and its limit.
pub proof fn a_descriptor_gives_its_base(base: u64)
    ensures
        ({
            let (low, high) = descriptor_halves(base);
            &&& ((low >> 16) & 0x00ff_ffff) | (((low >> 56) & 0xff) << 24) | (high << 32) == base
            &&& (low >> 40) & 0xff == 0x89
            &&& low & 0xffff == 103
        }),
{
    let low = 103u64 | ((base & 0x00ff_ffff) << 16) | (0x89u64 << 40) | (((base >> 24) & 0xff) << 56);
    let high = base >> 32;
    assert(((low >> 16) & 0x00ff_ffff) | (((low >> 56) & 0xff) << 24) | (high << 32) == base && (low >> 40)
        & 0xff == 0x89 && low & 0xffff == 103) by (bit_vector)
        requires
            low == 103u64 | ((base & 0x00ff_ffff) << 16) | (0x89u64 << 40) | (((base >> 24) & 0xff) << 56),
            high == base >> 32,
    ;
}

/// The table of segments: the kernel's, the task state at `tss_base` and the user's.
pub fn build_gdt(tss_base: u64) -> (table: [u64; 7])
    ensures
        table@ == seq![
            0u64,
            0x00af_9a00_0000_ffffu64,
            0x00cf_9200_0000_ffffu64,
            descriptor_halves(tss_base).0,
            descriptor_halves(tss_base).1,
            0x00cf_f200_0000_ffffu64,
            0x00af_fa00_0000_ffffu64,
        ],
{
    let (low, high) = tss_descriptor(tss_base);
    let table: [u64; 7] = [
        0,
        0x00af_9a00_0000_ffff,
        0x00cf_9200_0000_ffff,
        low,
        high,
        0x00cf_f200_0000_ffff,
        0x00af_fa00_0000_ffff,
    ];
    assert(table@ =~= seq![
        0u64,
        0x00af_9a00_0000_ffffu64,
        0x00cf_9200_0000_ffffu64,
        low,
        high,
        0x00cf_f200_0000_ffffu64,
        0x00af_fa00_0000_ffffu64,
    ]);
    table
}

/// What is saved of the processor's state when an interrupt comes.
#[derive(Debug, Clone, Copy, PartialEq, Eq, Structural)]
pub struct TrapFrame {
    pub r15: u64,
    pub r14: u64,
    pub r13: u64,
    pub r12: u64,
    pub r11: u64,
    pub r10: u64,
    pub r9: u64,
    pub r8: u64,
    pub rbp: u64,
    pub rdi: u64,
    pub rsi: u64,
    pub rdx: u64,
    pub rcx: u64,
    pub rbx: u64,
    pub rax: u64,
    pub vector: u64,
    pub error_code: u64,
    pub rip: u64,
    pub cs: u64,
    pub rflags: u64,
}

/// The saved state with the stack that the processor saves behind it; for an interrupt that came while
/// the kernel ran it means nothing.
#[derive(Debug, Clone, Copy, PartialEq, Eq, Structural)]
pub struct UserFrame {
    pub frame: TrapFrame,
    pub user_rsp: u64,
    pub user_ss: u64,
}

/// Whether the interrupt came while a user program ran.
pub open spec fn from_user(frame: TrapFrame) -> bool {
    frame.cs & 3 == 3
}

/// The stack of the user program that was interrupted.
pub fn user_stack(frame: &UserFrame) -> (stack: Option<(u64, u64)>)
    ensures
        stack == if from_user(frame.frame) {
            Some((frame.user_rsp, frame.user_ss))
        } else {
            None
        },
{
    if frame.frame.cs & 3 != 3 {
        return None;
    }
    Some((frame.user_rsp, frame.user_ss))
}

/// Changes the stack of the user program that goes on.
pub fn set_user_stack(frame: &mut UserFrame, user_rsp: u64, user_ss: u64) -> (changed: bool)
    ensures
        changed == from_user(old(frame).frame),
        *final(frame) == if changed {
            UserFrame { user_rsp, user_ss, ..*old(frame) }
        } else {
            *old(frame)
        },
{
    if frame.frame.cs & 3 != 3 {
        return false;
    }
    frame.user_rsp = user_rsp;
    frame.user_ss = user_ss;
    true
}

/// Whether the processor gives an error code with this exception.
pub open spec fn gives_error_code(vector: u8) -> bool {
    vector == 8 || 10 <= vector <= 14 || vector == 17 || vector == 21 || vector == 29 || vector == 30
}

/// Whether the processor gives an error code with this exception.
pub fn exception_has_error_code(vector: u8) -> (result: bool)
    ensures
        result == gives_error_code(vector),
{
    matches!(vector, 8 | 10 | 11 | 12 | 13 | 14 | 17 | 21 | 29 | 30)
}

/// The name of an exception.
pub fn exception_name(vector: u8) -> (name: &'static str)
    ensures
        name@ == match vector {
            0 => "divide error"@,
            1 => "debug exception"@,
            2 => "non-maskable interrupt"@,
            3 => "breakpoint"@,
            4 => "overflow"@,
            5 => "bound range exceeded"@,
            6 => "invalid opcode"@,
            7 => "device not available"@,
            8 => "double fault"@,
            9 => "coprocessor segment overrun"@,
            10 => "invalid tss"@,
            11 => "segment not present"@,
            12 => "stack-segment fault"@,
            13 => "general protection fault"@,
            14 => "page fault"@,
            16 => "x87 floating-point exception"@,
            17 => "alignment check"@,
            18 => "machine check"@,
            19 => "simd floating-point exception"@,
            20 => "virtualization exception"@,
            21 => "control protection exception"@,
            28 => "hypervisor injection exception"@,
            29 => "vmm communication exception"@,
            30 => "security exception"@,
            _ => "reserved exception"@,
        },
{
    match vector {
        0 => "divide error",
        1 => "debug exception",
        2 => "non-maskable interrupt",
        3 => "breakpoint",
        4 => "overflow",
        5 => "bound range exceeded",
        6 => "invalid opcode",
        7 => "device not available",
        8 => "double fault",
        9 => "coprocessor segment overrun",
        10 => "invalid tss",
        11 => "segment not present",
        12 => "stack-segment fault",
        13 => "general protection fault",
        14 => "page fault",
        16 => "x87 floating-point exception",
        17 => "alignment check",
        18 => "machine check",
        19 => "simd floating-point exception",
        20 => "virtualization exception",
        21 => "control protection exception",
        28 => "hypervisor injection exception",
        29 => "vmm communication exception",
        30 => "security exception",
        _ => "reserved exception",
    }
}

/// The divisor that the timer is programmed with for `hz` ticks a second, as far as it has room.
pub fn timer_divisor(hz: u32) -> (divisor: u16)
    ensures
        divisor == (PIT_BASE_HZ / if hz > 1 {
            hz
        } else {
            1
        }) as u16,
{
    let rate: u32 = if hz > 1 {
        hz
    } else {
        1
    };
    #[verifier::truncate] ((PIT_BASE_HZ / rate) as u16)
}

/// A byte that is written to a port.
#[derive(Debug, Clone, Copy, PartialEq, Eq, Structural)]
pub struct PortWrite {
    pub port: u16,
    pub value: u8,
    /// Whether the device is given time afterwards.
    pub wait: bool,
}

/// A byte that is written to a port, after which the device is given time.
pub open spec fn slowly(port: u16, value: u8) -> PortWrite {
    PortWrite { port, value, wait: true }
}

/// A byte that is written to a port.
pub open spec fn at_once(port: u16, value: u8) -> PortWrite {
    PortWrite { port, value, wait: false }
}

/// How the two interrupt controllers are told to use the vectors from the timer's on, each to know of
/// the other, and to keep the masks that they had.
pub open spec fn remapping(first_mask: u8, second_mask: u8) -> Seq<PortWrite> {
    seq![
        slowly(PIC1_COMMAND, 0x11),
        slowly(PIC2_COMMAND, 0x11),
        slowly(PIC1_DATA, TIMER_VECTOR),
        slowly(PIC2_DATA, SECOND_PIC_VECTOR),
        slowly(PIC1_DATA, 0x04),
        slowly(PIC2_DATA, 0x02),
        slowly(PIC1_DATA, 0x01),
        slowly(PIC2_DATA, 0x01),
        at_once(PIC1_DATA, first_mask),
        at_once(PIC2_DATA, second_mask),
    ]
}

/// How interrupts are masked.
pub open spec fn masking(first_mask: u8, second_mask: u8) -> Seq<PortWrite> {
    seq![at_once(PIC1_DATA, first_mask), at_once(PIC2_DATA, second_mask)]
}

/// How the timer is told its divisor, low byte first.
pub open spec fn timing(divisor: u16) -> Seq<PortWrite> {
    seq![
        at_once(PIT_COMMAND, 0x36),
        at_once(PIT_CHANNEL, (divisor % 256) as u8),
        at_once(PIT_CHANNEL, (divisor / 256) as u8),
    ]
}

/// The writes that make the two interrupt controllers use the vectors from the timer's on. They keep
/// the masks that were read from them.
pub fn remap_pic(first_mask: u8, second_mask: u8) -> (writes: [PortWrite; 10])
    ensures
        writes@ == remapping(first_mask, second_mask),
{
    let writes = [
        PortWrite { port: PIC1_COMMAND, value: 0x11, wait: true },
        PortWrite { port: PIC2_COMMAND, value: 0x11, wait: true },
        PortWrite { port: PIC1_DATA, value: TIMER_VECTOR, wait: true },
        PortWrite { port: PIC2_DATA, value: SECOND_PIC_VECTOR, wait: true },
        PortWrite { port: PIC1_DATA, value: 0x04, wait: true },
        PortWrite { port: PIC2_DATA, value: 0x02, wait: true },
        PortWrite { port: PIC1_DATA, value: 0x01, wait: true },
        PortWrite { port: PIC2_DATA, value: 0x01, wait: true },
        PortWrite { port: PIC1_DATA, value: first_mask, wait: false },
        PortWrite { port: PIC2_DATA, value: second_mask, wait: false },
    ];
    assert(writes@ =~= remapping(first_mask, second_mask));
    writes
}

/// The writes that mask interrupts.
pub fn mask_pic(first_mask: u8, second_mask: u8) -> (writes: [PortWrite; 2])
    ensures
        writes@ == masking(first_mask, second_mask),
{
    let writes = [
        PortWrite { port: PIC1_DATA, value: first_mask, wait: false },
        PortWrite { port: PIC2_DATA, value: second_mask, wait: false },
    ];
    assert(writes@ =~= masking(first_mask, second_mask));
    writes
}

/// The writes that make the timer tick `hz` times a second.
pub fn program_pit(hz: u32) -> (writes: [PortWrite; 3])
    ensures
        writes@ == timing(
            (PIT_BASE_HZ / if hz > 1 {
                hz
            } else {
                1
            }) as u16,
        ),
{
    let divisor: u16 = timer_divisor(hz);
    let writes = [
        PortWrite { port: PIT_COMMAND, value: 0x36, wait: false },
        PortWrite { port: PIT_CHANNEL, value: (divisor % 256) as u8, wait: false },
        PortWrite { port: PIT_CHANNEL, value: (divisor / 256) as u8, wait: false },
    ];
    assert(writes@ =~= timing(divisor));
    writes
}

/// How the controllers are told that an interrupt was served: the second one only of its own.
pub open spec fn serving(vector: u8) -> Seq<PortWrite> {
    if vector >= SECOND_PIC_VECTOR {
        seq![at_once(PIC2_COMMAND, PIC_EOI), at_once(PIC1_COMMAND, PIC_EOI)]
    } else {
        seq![at_once(PIC1_COMMAND, PIC_EOI)]
    }
}

/// The writes that tell the controllers that an interrupt was served.
pub fn send_eoi(vector: u8) -> (writes: Vec<PortWrite>)
    ensures
        writes@ == serving(vector),
{
    let mut writes: Vec<PortWrite> = Vec::new();
    if vector >= SECOND_PIC_VECTOR {
        writes.push(PortWrite { port: PIC2_COMMAND, value: PIC_EOI, wait: false });
    }
    writes.push(PortWrite { port: PIC1_COMMAND, value: PIC_EOI, wait: false });
    assert(writes@ =~= serving(vector));
    writes
}

/// What is done about an interrupt.
#[derive(Debug, Clone, Copy, PartialEq, Eq, Structural)]
pub enum Dispatch {
    /// Go on: by the saved state, or by a jump to its address where `jump` is set.
    Resume { jump: bool },
    /// As `Resume`, after the controllers are told; `first` is set for the first tick of all.
    Tick { first: bool, jump: bool },
    /// Report a breakpoint, then go on.
    Breakpoint,
    /// Report a page fault and halt.
    PageFault,
    /// Report an exception, with its error code if it has one, and halt.
    Exception { vector: u8, error_code: Option<u64> },
    /// Report an interrupt that nobody waits for, and halt.
    Unexpected(u64),
}

/// What is known of interrupts between them.
#[derive(Debug, Clone, Copy, PartialEq, Eq, Structural)]
pub struct Interrupts {
    pub gdt_loaded: bool,
    pub idt_loaded: bool,
    pub hardware_enabled: bool,
    pub ticks: u64,
    pub timer_seen: bool,
    pub breakpoint_hits: u64,
    pub privilege_stack: u64,
}

/// What is done about an interrupt that a user program's handler has seen or not.
pub open spec fn dispatched(state: Interrupts, frame: TrapFrame, user_handled: bool) -> (
    Interrupts,
    Dispatch,
) {
    let vector = frame.vector as u8;
    let jump = user_handled && frame.cs & 3 == 0;
    if vector == TIMER_VECTOR {
        (
            Interrupts { ticks: state.ticks.wrapping_add(1), timer_seen: true, ..state },
            Dispatch::Tick { first: !state.timer_seen, jump },
        )
    } else if user_handled {
        (state, Dispatch::Resume { jump })
    } else if vector == 3 {
        (
            Interrupts { breakpoint_hits: state.breakpoint_hits.wrapping_add(1), ..state },
            Dispatch::Breakpoint,
        )
    } else if vector == 14 {
        (state, Dispatch::PageFault)
    } else if vector < 32 {
        (
            state,
            Dispatch::Exception {
                vector,
                error_code: if gives_error_code(vector) {
                    Some(frame.error_code)
                } else {
                    None
                },
            },
        )
    } else {
        (state, Dispatch::Unexpected(frame.error_code))
    }
}

impl Interrupts {
    /// Nothing has been set up.
    pub fn new() -> (state: Interrupts)
        ensures
            state == (Interrupts {
                gdt_loaded: false,
                idt_loaded: false,
                hardware_enabled: false,
                ticks: 0,
                timer_seen: false,
                breakpoint_hits: 0,
                privilege_stack: 0,
            }),
    {
        Interrupts {
            gdt_loaded: false,
            idt_loaded: false,
            hardware_enabled: false,
            ticks: 0,
            timer_seen: false,
            breakpoint_hits: 0,
            privilege_stack: 0,
        }
    }

    /// Whether the tables are to be loaded now, which happens once.
    pub fn init_idt(&mut self) -> (load: bool)
        ensures
            load == !old(self).idt_loaded,
            *final(self) == if load {
                Interrupts { gdt_loaded: true, idt_loaded: true, ..*old(self) }
            } else {
                *old(self)
            },
    {
        if self.idt_loaded {
            return false;
        }
        self.gdt_loaded = true;
        self.idt_loaded = true;
        true
    }

    /// Whether the timer is to be started now, which happens once and not before the tables are loaded.
    pub fn activate_hardware(&mut self) -> (start: bool)
        ensures
            start == (old(self).idt_loaded && !old(self).hardware_enabled),
            *final(self) == if start {
                Interrupts { hardware_enabled: true, ..*old(self) }
            } else {
                *old(self)
            },
    {
        if !self.idt_loaded || self.hardware_enabled {
            return false;
        }
        self.hardware_enabled = true;
        true
    }

    /// Sets the stack for interrupts that come while a user program runs.
    pub fn set_privilege_stack(&mut self, stack_top: u64) -> (set: bool)
        ensures
            set == (old(self).gdt_loaded && stack_top != 0),
            *final(self) == if set {
                Interrupts { privilege_stack: stack_top, ..*old(self) }
            } else {
                *old(self)
            },
    {
        if !self.gdt_loaded || stack_top == 0 {
            return false;
        }
        self.privilege_stack = stack_top;
        true
    }

    /// Whether waiting for an interrupt may halt the processor.
    pub fn wait_for_interrupt(&self) -> (halt: bool)
        ensures
            halt == self.hardware_enabled,
    {
        self.hardware_enabled
    }

    /// Whether a breakpoint that was raised has come, given the count before; without tables none can.
    pub fn verify_exception_path(&self, before: u64) -> (verified: bool)
        ensures
            verified == (self.idt_loaded && self.breakpoint_hits == before.wrapping_add(1)),
    {
        self.idt_loaded && self.breakpoint_hits == before.wrapping_add(1)
    }

    /// What is known of interrupts.
    pub fn status(&self, task_register: u16) -> (status: InterruptStatus)
        ensures
            status == (InterruptStatus {
                gdt_loaded: self.gdt_loaded,
                task_register,
                idt_loaded: self.idt_loaded,
                hardware_enabled: self.hardware_enabled,
                ticks: self.ticks,
                timer_hz: TIMER_HZ,
                breakpoint_hits: self.breakpoint_hits,
            }),
    {
        InterruptStatus {
            gdt_loaded: self.gdt_loaded,
            task_register,
            idt_loaded: self.idt_loaded,
            hardware_enabled: self.hardware_enabled,
            ticks: self.ticks,
            timer_hz: TIMER_HZ,
            breakpoint_hits: self.breakpoint_hits,
        }
    }

    /// Whether the handler of user programs is to see an interrupt first, and with which address: that
    /// of the fault for a page fault, else none.
    pub fn offers_to_user_handler(frame: &TrapFrame, page_fault_address: u64) -> (offer: Option<u64>)
        ensures
            offer == if !from_user(*frame) {
                None
            } else if frame.vector as u8 == 14 {
                Some(page_fault_address)
            } else {
                Some(0)
            },
    {
        if frame.cs & 3 != 3 {
            return None;
        }
        if #[verifier::truncate] (frame.vector as u8) == 14 {
            Some(page_fault_address)
        } else {
            Some(0)
        }
    }

    /// Decides about an interrupt that a user program's handler has seen or not.
    pub fn interrupt_dispatch(&mut self, frame: &TrapFrame, user_handled: bool) -> (dispatch: Dispatch)
        ensures
            (*final(self), dispatch) == dispatched(*old(self), *frame, user_handled),
    {
        let vector: u8 = #[verifier::truncate] (frame.vector as u8);
        let jump: bool = user_handled && frame.cs & 3 == 0;
        if vector == TIMER_VECTOR {
            let first: bool = !self.timer_seen;
            self.ticks = self.ticks.wrapping_add(1);
            self.timer_seen = true;
            return Dispatch::Tick { first, jump };
        }
        if user_handled {
            return Dispatch::Resume { jump };
        }
        if vector == 3 {
            self.breakpoint_hits = self.breakpoint_hits.wrapping_add(1);
            return Dispatch::Breakpoint;
        }
        if vector == 14 {
            return Dispatch::PageFault;
        }
        if vector < 32 {
            let error_code: Option<u64> = if exception_has_error_code(vector) {
                Some(frame.error_code)
            } else {
                None
            };
            return Dispatch::Exception { vector, error_code };
        }
        Dispatch::Unexpected(frame.error_code)
    }
}

/// Every gate leads to the handler of its vector, through the kernel's code selector; double faults have a
/// stack of their own, and only system calls may be asked for by users.
pub proof fn a_gate_leads_to_its_handler(
    vector: int,
    exceptions: Seq<u64>,
    timer: u64,
    syscall: u64,
    other: u64,
    selector: u16,
)
    requires
        0 <= vector < 256,
    ensures
        ({
            let gate = gate_of(vector, exceptions, timer, syscall, other, selector);
            &&& gate_address(gate) == if vector < 32 {
                exceptions[vector]
            } else if vector == 32 {
                timer
            } else if vector == 128 {
                syscall
            } else {
                other
            }
            &&& gate.selector == selector
            &&& gate.ist == if vector == 8 {
                1u8
            } else {
                0u8
            }
            &&& gate.type_attr == if vector == 128 {
                0xeeu8
            } else {
                0x8eu8
            }
            &&& gate.reserved == 0
        }),
{
    assert((0x8eu8 & 0x9f) | ((3u8 & 3) << 5) == 0xee && 1u8 & 7 == 1) by (bit_vector);
}

/// The exceptions that come with an error code.
pub proof fn some_exceptions_have_an_error_code(vector: u8)
    ensures
        gives_error_code(vector) <==> seq![8u8, 10, 11, 12, 13, 14, 17, 21, 29, 30].contains(vector),
{
    let coded = seq![8u8, 10, 11, 12, 13, 14, 17, 21, 29, 30];
    if gives_error_code(vector) {
        let i: int = if vector == 8 {
            0
        } else if vector <= 14 {
            vector - 9
        } else if vector == 17 {
            6
        } else if vector == 21 {
            7
        } else if vector == 29 {
            8
        } else {
            9
        };
        assert(coded[i] == vector);
    }
}

/// The interrupt controllers are set up to give the vectors from 32 and from 40 on, the second behind line
/// two of the first, and end with the masks that were asked for.
pub proof fn the_controllers_are_set_up(first_mask: u8, second_mask: u8, divisor: u16)
    ensures
        remapping(first_mask, second_mask) == seq![
            (PortWrite { port: 0x20, value: 0x11, wait: true }),
            (PortWrite { port: 0xa0, value: 0x11, wait: true }),
            (PortWrite { port: 0x21, value: 32, wait: true }),
            (PortWrite { port: 0xa1, value: 40, wait: true }),
            (PortWrite { port: 0x21, value: 4, wait: true }),
            (PortWrite { port: 0xa1, value: 2, wait: true }),
            (PortWrite { port: 0x21, value: 1, wait: true }),
            (PortWrite { port: 0xa1, value: 1, wait: true }),
            (PortWrite { port: 0x21, value: first_mask, wait: false }),
            (PortWrite { port: 0xa1, value: second_mask, wait: false }),
        ],
        masking(first_mask, second_mask) == seq![
            (PortWrite { port: 0x21, value: first_mask, wait: false }),
            (PortWrite { port: 0xa1, value: second_mask, wait: false }),
        ],
        timing(divisor).len() == 3,
        timing(divisor)[0] == (PortWrite { port: 0x43, value: 0x36, wait: false }),
        timing(divisor)[1].port == 0x40 && timing(divisor)[2].port == 0x40,
        timing(divisor)[1].value + 256 * timing(divisor)[2].value == divisor,
{
}

/// The first controller is told of every interrupt that was served, and the second, before it, of its own.
pub proof fn served_interrupts_are_reported(vector: u8)
    ensures
        ({
            let writes = serving(vector);
            &&& writes.last() == (PortWrite { port: 0x20, value: 0x20, wait: false })
            &&& writes.len() == if vector >= 40 {
                2int
            } else {
                1
            }
            &&& vector >= 40 ==> writes[0] == (PortWrite { port: 0xa0, value: 0x20, wait: false })
        }),
{
}

/// What becomes of an interrupt: the timer is counted, whoever is interrupted; what a user's handler has
/// taken goes on; a breakpoint is counted and goes on; every other exception ends the kernel.
pub proof fn every_interrupt_is_dispatched(state: Interrupts, frame: TrapFrame, user_handled: bool)
    ensures
        ({
            let vector = frame.vector as u8;
            let (next, what) = dispatched(state, frame, user_handled);
            let jump = user_handled && frame.cs & 3 == 0;
            &&& vector == 32 ==> next == (Interrupts {
                ticks: ((state.ticks + 1) % 0x1_0000_0000_0000_0000) as u64,
                timer_seen: true,
                ..state
            }) && what == (Dispatch::Tick { first: !state.timer_seen, jump })
            &&& vector != 32 && user_handled ==> next == state && what == (Dispatch::Resume { jump })
            &&& vector == 3 && !user_handled ==> next == (Interrupts {
                breakpoint_hits: ((state.breakpoint_hits + 1) % 0x1_0000_0000_0000_0000) as u64,
                ..state
            }) && what == Dispatch::Breakpoint
            &&& vector != 32 && vector != 3 && !user_handled ==> next == state && what == if vector == 14 {
                Dispatch::PageFault
            } else if vector < 32 {
                Dispatch::Exception {
                    vector,
                    error_code: if gives_error_code(vector) {
                        Some(frame.error_code)
                    } else {
                        None
                    },
                }
            } else {
                Dispatch::Unexpected(frame.error_code)
            }
        }),
{
}

} // verus!
