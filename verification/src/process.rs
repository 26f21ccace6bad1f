//! The isolation probe: a user program that may log, and must not write the kernel's memory.

pub mod syscall;

use vstd::prelude::*;
use vstd::utf8::{encode_utf8, valid_utf8};
use crate::bootinfo::PAGE_SIZE;
use crate::fs::record::text_of;
use crate::interrupts::{TrapFrame, KERNEL_CODE_SELECTOR};
use crate::vm::entry::VmError;

verus! {

pub const PROCESS_ID: u64 = 1;

pub const SYSCALL_ABI_VERSION: u32 = 2;

/// The complement of 22.
pub const ERR_INVALID_ARGUMENT: u64 = 0xffff_ffff_ffff_ffea;

/// The complement of 38.
pub const ERR_NOT_IMPLEMENTED: u64 = 0xffff_ffff_ffff_ffda;

/// What the probe tries to write.
pub const KERNEL_WRITE_PROBE_ADDRESS: u64 = 0x20_0000;

pub const MAX_USER_LOG_BYTES: usize = 256;

/// The bits of an error code that say: a user program wrote a page that is there.
pub const USER_WRITE_DENIED: u64 = 0x07;

/// What the probe found.
#[derive(Debug, Clone, Copy, PartialEq, Eq, Structural)]
pub struct IsolationReport {
    pub syscall_abi_version: u32,
    pub process_id: u64,
    pub kernel_root: u64,
    pub user_root: u64,
    pub entry: u64,
    pub stack_top: u64,
    pub syscall_count: u64,
    pub denied_address: u64,
    pub page_fault_error: u64,
    pub kernel_mapping_supervisor_only: bool,
    pub code_read_execute: bool,
    pub stack_read_write_no_execute: bool,
}

/// Why the probe failed.
#[derive(Debug, Clone, Copy, PartialEq, Eq, Structural)]
pub enum ProcessError {
    VirtualMemory(VmError),
    KernelMappingExposed,
    InvalidCodePermissions,
    InvalidStackPermissions,
    ProgramImageInvalid,
    ProbeReturnedWithoutFault,
    UnexpectedExit(u64),
    UnexpectedFault { vector: u8, address: u64, error_code: u64 },
    KernelRootRestoreFailed,
}

impl vstd::std_specs::convert::FromSpecImpl<VmError> for ProcessError {
    open spec fn obeys_from_spec() -> bool {
        true
    }

    open spec fn from_spec(error: VmError) -> ProcessError {
        ProcessError::VirtualMemory(error)
    }
}

impl From<VmError> for ProcessError {
    fn from(error: VmError) -> (wrapped: ProcessError) {
        ProcessError::VirtualMemory(error)
    }
}

/// The address space of a user program, as far as it matters here.
#[derive(Debug, Clone, Copy, PartialEq, Eq, Structural)]
pub struct UserAddressSpace {
    pub root_phys: u64,
    pub kernel_root_phys: u64,
    pub entry: u64,
    pub stack_top: u64,
    pub code_bytes: u64,
    pub kernel_mapping_supervisor_only: bool,
    pub code_user_read_execute: bool,
    pub stack_user_read_write: bool,
}

/// How the probe ended.
#[derive(Debug, Clone, Copy, PartialEq, Eq, Structural)]
pub enum ProcessOutcome {
    NotStarted,
    Running,
    IsolationEnforced { address: u64, error_code: u64 },
    Exited(u64),
    Fault { vector: u8, address: u64, error_code: u64 },
    RootRestoreFailed,
}

/// The probe.
#[derive(Debug, Clone, Copy, PartialEq, Eq, Structural)]
pub struct ProbeState {
    pub active: bool,
    pub kernel_root: u64,
    pub code_start: u64,
    pub code_end: u64,
    pub syscall_count: u64,
    pub outcome: ProcessOutcome,
}

/// What is done about an interrupt of the probe.
#[derive(Debug, Clone, Copy, PartialEq, Eq, Structural)]
pub enum ProbeAction {
    /// It is none of the probe's.
    Unhandled,
    /// The probe goes on.
    Resume,
    /// Read this text of the probe's, and hand it to `finish_log`.
    ReadLog { address: u64, length: usize },
    /// Switch to the kernel's root, and end the probe.
    Terminate,
}

/// Whether a program's image is not empty and fits a page.
pub open spec fn image_length(start: usize, end: usize) -> Option<usize> {
    if start < end && end - start <= PAGE_SIZE {
        Some((end - start) as usize)
    } else {
        None
    }
}

/// The length of a program's image: not empty, and no longer than a page.
pub fn program_length(start: usize, end: usize) -> (result: Result<usize, ProcessError>)
    ensures
        match image_length(start, end) {
            Some(length) => result == Ok::<usize, ProcessError>(length),
            None => result == Err::<usize, ProcessError>(ProcessError::ProgramImageInvalid),
        },
{
    match end.checked_sub(start) {
        Some(length) => if length != 0 && length <= PAGE_SIZE as usize {
            Ok(length)
        } else {
            Err(ProcessError::ProgramImageInvalid)
        },
        None => Err(ProcessError::ProgramImageInvalid),
    }
}

/// The bytes from `address` on lie between `region_start` and `region_end`, and are not too many.
pub open spec fn buffer_within(
    region_start: u64,
    region_end: u64,
    address: u64,
    length: int,
    maximum_length: int,
) -> bool {
    length <= maximum_length && region_start <= address && address + length <= region_end
}

/// Whether a buffer of a user program lies in its region.
pub fn user_buffer_within(
    region_start: u64,
    region_end: u64,
    address: u64,
    length: usize,
    maximum_length: usize,
) -> (result: bool)
    ensures
        result == buffer_within(
            region_start,
            region_end,
            address,
            length as int,
            maximum_length as int,
        ),
{
    if length > maximum_length || address < region_start {
        return false;
    }
    match address.checked_add(length as u64) {
        Some(end) => end <= region_end,
        None => false,
    }
}

/// Why a program must not run in an address space.
pub open spec fn space_fault(space: UserAddressSpace) -> Option<ProcessError> {
    if !space.kernel_mapping_supervisor_only {
        Some(ProcessError::KernelMappingExposed)
    } else if !space.code_user_read_execute {
        Some(ProcessError::InvalidCodePermissions)
    } else if !space.stack_user_read_write {
        Some(ProcessError::InvalidStackPermissions)
    } else {
        None
    }
}

/// Why a program must not run in an address space.
pub fn check_space(space: &UserAddressSpace) -> (result: Result<(), ProcessError>)
    ensures
        match space_fault(*space) {
            Some(error) => result == Err::<(), ProcessError>(error),
            None => result is Ok,
        },
{
    if !space.kernel_mapping_supervisor_only {
        return Err(ProcessError::KernelMappingExposed);
    }
    if !space.code_user_read_execute {
        return Err(ProcessError::InvalidCodePermissions);
    }
    if !space.stack_user_read_write {
        return Err(ProcessError::InvalidStackPermissions);
    }
    Ok(())
}

/// The saved state by which the kernel goes on at `resume`.
pub open spec fn kernel_frame(frame: TrapFrame, resume: u64) -> TrapFrame {
    TrapFrame {
        rip: resume,
        cs: KERNEL_CODE_SELECTOR as u64,
        rflags: (frame.rflags | 0x02) & 0xffff_ffff_ffff_fbff,
        ..frame
    }
}

/// Makes the kernel go on at `resume`.
pub fn resume_kernel(frame: &mut TrapFrame, resume: u64)
    ensures
        *final(frame) == kernel_frame(*old(frame), resume),
{
    frame.rip = resume;
    frame.cs = KERNEL_CODE_SELECTOR as u64;
    frame.rflags = (frame.rflags | 0x02) & 0xffff_ffff_ffff_fbff;
}

/// What a system call of the probe comes to.
pub open spec fn probe_syscall(state: ProbeState, frame: TrapFrame) -> (ProbeState, TrapFrame, ProbeAction) {
    let counted = ProbeState {
        syscall_count: if state.syscall_count == u64::MAX {
            u64::MAX
        } else {
            (state.syscall_count + 1) as u64
        },
        ..state
    };
    if frame.rax == syscall::LOG {
        if frame.rsi <= usize::MAX && buffer_within(
            state.code_start,
            state.code_end,
            frame.rdi,
            frame.rsi as int,
            MAX_USER_LOG_BYTES as int,
        ) {
            (
                counted,
                frame,
                ProbeAction::ReadLog { address: frame.rdi, length: frame.rsi as usize },
            )
        } else {
            (counted, TrapFrame { rax: ERR_INVALID_ARGUMENT, ..frame }, ProbeAction::Resume)
        }
    } else if frame.rax == syscall::EXIT {
        (
            ProbeState { outcome: ProcessOutcome::Exited(frame.rdi), ..counted },
            frame,
            ProbeAction::Terminate,
        )
    } else {
        (counted, TrapFrame { rax: ERR_NOT_IMPLEMENTED, ..frame }, ProbeAction::Resume)
    }
}

/// What an interrupt of the probe comes to.
pub open spec fn probe_trap(state: ProbeState, frame: TrapFrame, fault_address: u64) -> (
    ProbeState,
    TrapFrame,
    ProbeAction,
) {
    let vector = frame.vector as u8;
    if !state.active {
        (state, frame, ProbeAction::Unhandled)
    } else if vector == 0x80 {
        probe_syscall(state, frame)
    } else if vector == 14 && fault_address == KERNEL_WRITE_PROBE_ADDRESS && frame.error_code
        & USER_WRITE_DENIED == USER_WRITE_DENIED {
        (
            ProbeState {
                outcome: ProcessOutcome::IsolationEnforced {
                    address: fault_address,
                    error_code: frame.error_code,
                },
                ..state
            },
            frame,
            ProbeAction::Terminate,
        )
    } else if vector <= 31 {
        (
            ProbeState {
                outcome: ProcessOutcome::Fault {
                    vector,
                    address: fault_address,
                    error_code: frame.error_code,
                },
                ..state
            },
            frame,
            ProbeAction::Terminate,
        )
    } else {
        (state, frame, ProbeAction::Unhandled)
    }
}

/// What the probe's end means.
pub open spec fn probe_result(
    state: ProbeState,
    space: UserAddressSpace,
    current_root: u64,
) -> Result<IsolationReport, ProcessError> {
    if current_root != space.kernel_root_phys {
        Err(ProcessError::KernelRootRestoreFailed)
    } else {
        match state.outcome {
            ProcessOutcome::IsolationEnforced { address, error_code } => Ok(
                IsolationReport {
                    syscall_abi_version: SYSCALL_ABI_VERSION,
                    process_id: PROCESS_ID,
                    kernel_root: space.kernel_root_phys,
                    user_root: space.root_phys,
                    entry: space.entry,
                    stack_top: space.stack_top,
                    syscall_count: state.syscall_count,
                    denied_address: address,
                    page_fault_error: error_code,
                    kernel_mapping_supervisor_only: space.kernel_mapping_supervisor_only,
                    code_read_execute: space.code_user_read_execute,
                    stack_read_write_no_execute: space.stack_user_read_write,
                },
            ),
            ProcessOutcome::Exited(status) => Err(ProcessError::UnexpectedExit(status)),
            ProcessOutcome::Fault { vector, address, error_code } => Err(
                ProcessError::UnexpectedFault { vector, address, error_code },
            ),
            ProcessOutcome::RootRestoreFailed => Err(ProcessError::KernelRootRestoreFailed),
            _ => Err(ProcessError::ProbeReturnedWithoutFault),
        }
    }
}

/// The probe passes only if the kernel's memory was what the program tried to write, and the processor
/// refused that as a write of a user program.
pub proof fn the_probe_passes_only_by_a_refused_write(
    state: ProbeState,
    frame: TrapFrame,
    fault_address: u64,
    space: UserAddressSpace,
    current_root: u64,
)
    requires
        state.active,
        state.outcome == ProcessOutcome::Running,
    ensures
        probe_result(probe_trap(state, frame, fault_address).0, space, current_root) matches Ok(
            report,
        ) ==> {
            &&& frame.vector as u8 == 14
            &&& report.denied_address == KERNEL_WRITE_PROBE_ADDRESS
            &&& report.page_fault_error & USER_WRITE_DENIED == USER_WRITE_DENIED
        },
{
}

impl ProbeState {
    /// The probe before it starts.
    pub fn new() -> (state: ProbeState)
        ensures
            state == (ProbeState {
                active: false,
                kernel_root: 0,
                code_start: 0,
                code_end: 0,
                syscall_count: 0,
                outcome: ProcessOutcome::NotStarted,
            }),
    {
        ProbeState {
            active: false,
            kernel_root: 0,
            code_start: 0,
            code_end: 0,
            syscall_count: 0,
            outcome: ProcessOutcome::NotStarted,
        }
    }

    /// Starts the probe in an address space. A space whose code has no end cannot be probed; the probe
    /// has then been marked as active already.
    pub fn start(&mut self, space: &UserAddressSpace) -> (result: Result<(), ProcessError>)
        ensures
            if space.entry + space.code_bytes > u64::MAX {
                result == Err::<(), ProcessError>(ProcessError::ProgramImageInvalid) && *final(self)
                    == (ProbeState {
                    active: true,
                    kernel_root: space.kernel_root_phys,
                    code_start: space.entry,
                    ..*old(self)
                })
            } else {
                result is Ok && *final(self) == (ProbeState {
                    active: true,
                    kernel_root: space.kernel_root_phys,
                    code_start: space.entry,
                    code_end: (space.entry + space.code_bytes) as u64,
                    syscall_count: 0,
                    outcome: ProcessOutcome::Running,
                })
            },
    {
        self.active = true;
        self.kernel_root = space.kernel_root_phys;
        self.code_start = space.entry;
        self.code_end = match space.entry.checked_add(space.code_bytes) {
            Some(end) => end,
            None => return Err(ProcessError::ProgramImageInvalid),
        };
        self.syscall_count = 0;
        self.outcome = ProcessOutcome::Running;
        Ok(())
    }

    /// Decides about an interrupt.
    pub fn handle_user_trap(&mut self, frame: &mut TrapFrame, fault_address: u64) -> (action:
        ProbeAction)
        ensures
            (*final(self), *final(frame), action) == probe_trap(
                *old(self),
                *old(frame),
                fault_address,
            ),
    {
        if !self.active {
            return ProbeAction::Unhandled;
        }
        let vector: u8 = #[verifier::truncate] (frame.vector as u8);
        if vector == 0x80 {
            return self.handle_syscall(frame);
        }
        if vector == 14 && fault_address == KERNEL_WRITE_PROBE_ADDRESS && frame.error_code
            & USER_WRITE_DENIED == USER_WRITE_DENIED {
            self.outcome = ProcessOutcome::IsolationEnforced {
                address: fault_address,
                error_code: frame.error_code,
            };
            return ProbeAction::Terminate;
        }
        if vector <= 31 {
            self.outcome = ProcessOutcome::Fault {
                vector,
                address: fault_address,
                error_code: frame.error_code,
            };
            return ProbeAction::Terminate;
        }
        ProbeAction::Unhandled
    }

    fn handle_syscall(&mut self, frame: &mut TrapFrame) -> (action: ProbeAction)
        ensures
            (*final(self), *final(frame), action) == probe_syscall(*old(self), *old(frame)),
    {
        self.syscall_count = self.syscall_count.saturating_add(1);
        if frame.rax == syscall::LOG {
            if frame.rsi > usize::MAX as u64 || !user_buffer_within(
                self.code_start,
                self.code_end,
                frame.rdi,
                frame.rsi as usize,
                MAX_USER_LOG_BYTES,
            ) {
                frame.rax = ERR_INVALID_ARGUMENT;
                return ProbeAction::Resume;
            }
            return ProbeAction::ReadLog { address: frame.rdi, length: frame.rsi as usize };
        }
        if frame.rax == syscall::EXIT {
            self.outcome = ProcessOutcome::Exited(frame.rdi);
            return ProbeAction::Terminate;
        }
        frame.rax = ERR_NOT_IMPLEMENTED;
        ProbeAction::Resume
    }

    /// Answers the system call by which the probe logs `bytes`, and gives the text to log. What is no
    /// text is refused.
    pub fn finish_log<'a>(frame: &mut TrapFrame, bytes: &'a [u8]) -> (text: Option<&'a str>)
        ensures
            match text {
                Some(text) => encode_utf8(text@) == bytes@ && *final(frame) == (TrapFrame {
                    rax: bytes@.len() as u64,
                    ..*old(frame)
                }),
                None => !valid_utf8(bytes@) && *final(frame) == (TrapFrame {
                    rax: ERR_INVALID_ARGUMENT,
                    ..*old(frame)
                }),
            },
    {
        match text_of(bytes) {
            Some(text) => {
                frame.rax = bytes.len() as u64;
                Some(text)
            },
            None => {
                frame.rax = ERR_INVALID_ARGUMENT;
                None
            },
        }
    }

    /// Ends the probe; `switched` says whether the kernel's root could be switched to.
    pub fn terminate_user_process(&mut self, frame: &mut TrapFrame, switched: bool, resume: u64)
        ensures
            *final(self) == (ProbeState {
                active: false,
                outcome: if switched {
                    old(self).outcome
                } else {
                    ProcessOutcome::RootRestoreFailed
                },
                ..*old(self)
            }),
            *final(frame) == kernel_frame(*old(frame), resume),
    {
        if !switched {
            self.outcome = ProcessOutcome::RootRestoreFailed;
        }
        self.active = false;
        resume_kernel(frame, resume);
    }

    /// What the probe's end means, given the root that is in use then.
    pub fn run_isolation_probe(&self, space: &UserAddressSpace, current_root: u64) -> (result: Result<
        IsolationReport,
        ProcessError,
    >)
        ensures
            result == probe_result(*self, *space, current_root),
    {
        if current_root != space.kernel_root_phys {
            return Err(ProcessError::KernelRootRestoreFailed);
        }
        match self.outcome {
            ProcessOutcome::IsolationEnforced { address, error_code } => Ok(
                IsolationReport {
                    syscall_abi_version: SYSCALL_ABI_VERSION,
                    process_id: PROCESS_ID,
                    kernel_root: space.kernel_root_phys,
                    user_root: space.root_phys,
                    entry: space.entry,
                    stack_top: space.stack_top,
                    syscall_count: self.syscall_count,
                    denied_address: address,
                    page_fault_error: error_code,
                    kernel_mapping_supervisor_only: space.kernel_mapping_supervisor_only,
                    code_read_execute: space.code_user_read_execute,
                    stack_read_write_no_execute: space.stack_user_read_write,
                },
            ),
            ProcessOutcome::Exited(status) => Err(ProcessError::UnexpectedExit(status)),
            ProcessOutcome::Fault { vector, address, error_code } => Err(
                ProcessError::UnexpectedFault { vector, address, error_code },
            ),
            ProcessOutcome::RootRestoreFailed => Err(ProcessError::KernelRootRestoreFailed),
            ProcessOutcome::NotStarted | ProcessOutcome::Running => {
                Err(ProcessError::ProbeReturnedWithoutFault)
            },
        }
    }
}

/// A buffer is the user's own if it is not too long and its first and last byte are in the region, and
/// only if it is not too long and every byte of it is.
pub proof fn every_byte_of_a_buffer_is_in_the_region(
    region_start: u64,
    region_end: u64,
    address: u64,
    length: int,
    maximum_length: int,
    byte: int,
)
    requires
        0 < length,
        address <= byte < address + length,
    ensures
        buffer_within(region_start, region_end, address, length, maximum_length) ==> length
            <= maximum_length && region_start <= byte < region_end,
        length <= maximum_length && region_start <= address && address + length - 1 < region_end
            ==> buffer_within(region_start, region_end, address, length, maximum_length),
{
}

/// A frame that goes back to the kernel goes to the address that was given, with the kernel's selector,
/// and counts upwards; all else is as it was.
pub proof fn a_kernel_frame_resumes_the_kernel(frame: TrapFrame, resume: u64)
    ensures
        ({
            let next = kernel_frame(frame, resume);
            &&& next == (TrapFrame { rip: resume, cs: 8, rflags: next.rflags, ..frame })
            &&& next.rflags & 2 == 2
            &&& next.rflags & 0x400 == 0
            &&& next.rflags | 0x402 == frame.rflags | 0x402
        }),
{
    let flags = frame.rflags;
    let changed = (flags | 0x02) & 0xffff_ffff_ffff_fbff;
    assert(changed & 2 == 2 && changed & 0x400 == 0 && changed | 0x402 == flags | 0x402) by (bit_vector)
        requires
            changed == (flags | 0x02) & 0xffff_ffff_ffff_fbff,
    ;
}

/// What the probe's program may ask for: to log bytes of its own code, at most 256 of them, and to exit;
/// all else is refused, and every request is counted.
pub proof fn the_probe_serves_two_requests(state: ProbeState, frame: TrapFrame, fault_address: u64)
    requires
        state.active,
        frame.vector as u8 == 0x80,
        state.syscall_count < u64::MAX,
    ensures
        ({
            let (next, answer, action) = probe_trap(state, frame, fault_address);
            let own = frame.rsi <= 256 && state.code_start <= frame.rdi && frame.rdi + frame.rsi
                <= state.code_end;
            &&& next.syscall_count == state.syscall_count + 1
            &&& frame.rax == 1 && own ==> action == (ProbeAction::ReadLog {
                address: frame.rdi,
                length: frame.rsi as usize,
            }) && answer == frame && next.outcome == state.outcome
            &&& frame.rax == 1 && !own ==> action == ProbeAction::Resume && answer == (TrapFrame {
                rax: 0xffff_ffff_ffff_ffea,
                ..frame
            }) && next.outcome == state.outcome
            &&& frame.rax == 2 ==> action == ProbeAction::Terminate && next.outcome
                == ProcessOutcome::Exited(frame.rdi)
            &&& frame.rax != 1 && frame.rax != 2 ==> action == ProbeAction::Resume && answer == (
            TrapFrame { rax: 0xffff_ffff_ffff_ffda, ..frame }) && next.outcome == state.outcome
        }),
{
}

/// An exception ends the probe: a refused write at the address that is the kernel's shows that it is kept
/// apart, and any other is a fault.
pub proof fn an_exception_ends_the_probe(state: ProbeState, frame: TrapFrame, fault_address: u64)
    requires
        state.active,
        frame.vector as u8 <= 31,
    ensures
        ({
            let vector = frame.vector as u8;
            let (next, answer, action) = probe_trap(state, frame, fault_address);
            &&& action == ProbeAction::Terminate
            &&& answer == frame
            &&& next.outcome == if vector == 14 && fault_address == 0x20_0000 && frame.error_code & 7
                == 7 {
                ProcessOutcome::IsolationEnforced {
                    address: fault_address,
                    error_code: frame.error_code,
                }
            } else {
                ProcessOutcome::Fault { vector, address: fault_address, error_code: frame.error_code }
            }
        }),
{
}

/// An address space is sound if and only if the kernel is out of the user's reach, code may be executed
/// and the stack written.
pub proof fn a_sound_space_keeps_the_kernel_apart(space: UserAddressSpace)
    ensures
        space_fault(space) is None <==> space.kernel_mapping_supervisor_only
            && space.code_user_read_execute && space.stack_user_read_write,
        !space.kernel_mapping_supervisor_only ==> space_fault(space) == Some(
            ProcessError::KernelMappingExposed,
        ),
{
}

/// A program of at least one byte and at most a page is taken, with its length.
pub proof fn a_program_fits_in_a_page(start: usize, end: usize)
    ensures
        image_length(start, end) is Some <==> start < end <= start + 4096,
        image_length(start, end) matches Some(length) ==> start + length == end,
{
}

/// What is neither a request nor an exception is not for the probe, and nothing is while it does not run.
pub proof fn the_probe_leaves_interrupts_alone(state: ProbeState, frame: TrapFrame, fault_address: u64)
    requires
        !state.active || 32 <= frame.vector <= 255 && frame.vector != 0x80,
    ensures
        probe_trap(state, frame, fault_address) == (state, frame, ProbeAction::Unhandled),
{
}

} // verus!
