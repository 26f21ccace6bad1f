//! What runs of the scheduler have to show: that turns end by the timer, that a program that faults
//! harms no other, and that no memory is lost.

use vstd::prelude::*;
use crate::fs::entry::FsError;
use crate::process::{image_length, UserAddressSpace};
use crate::bootinfo::PAGE_SIZE;
use crate::scheduler::state::{
    Process, ProcessState, RuntimeFailure, SchedulerModel, SchedulerState,
};
use crate::user_elf::UserElfError;
use crate::vm::entry::VmError;

verus! {

pub const KERNEL_STACK_BYTES: usize = 65536;

pub const FIRST_PID: u64 = 1001;

pub const PERSISTENT_PID: u64 = 2001;

/// What the program that is to fault tries to write.
pub const ISOLATION_FAULT_ADDRESS: u64 = 0x20_0000;

/// What a run of three programs showed.
#[derive(Debug, Clone, Copy, PartialEq, Eq, Structural)]
pub struct SchedulerReport {
    pub process_count: usize,
    pub timer_ticks: u64,
    pub timer_preemptions: u64,
    pub context_switches: u64,
    pub minimum_dispatches: u64,
    pub idle_halts: u64,
    pub reclaimed_pages: u64,
    pub faulted_pid: u64,
    pub fault_address: u64,
    pub fault_error: u64,
}

/// What the run of a program from the filesystem showed.
#[derive(Debug, Clone, Copy, PartialEq, Eq)]
pub struct PersistentExecutableReport {
    pub path: &'static str,
    pub bytes: usize,
    pub sha256: [u8; 32],
    pub entry: u64,
    pub load_segments: usize,
    pub exit_status: u64,
    pub timer_ticks: u64,
    pub idle_halts: u64,
    pub reclaimed_pages: u64,
    pub generation: u64,
    pub installed: bool,
}

/// Why a run failed.
#[derive(Debug, Clone, Copy, PartialEq, Eq, Structural)]
pub enum SchedulerError {
    VirtualMemory(VmError),
    Filesystem(FsError),
    UserExecutable(UserElfError),
    ProgramImageInvalid,
    PersistentProgramMissing,
    PersistentProgramHashMismatch,
    PersistentProgramPermissions,
    TimerInactive,
    PrivilegeStackUnavailable,
    RuntimeRootSwitch,
    ProcessDidNotExit(u64),
    FaultIsolationFailed,
    PreemptionNotObserved,
    IdleNotObserved,
    FairnessViolation(u64),
    PhysicalPageLeak { before: u64, after: u64 },
}

impl vstd::std_specs::convert::FromSpecImpl<VmError> for SchedulerError {
    open spec fn obeys_from_spec() -> bool {
        true
    }

    open spec fn from_spec(error: VmError) -> SchedulerError {
        SchedulerError::VirtualMemory(error)
    }
}

impl From<VmError> for SchedulerError {
    fn from(error: VmError) -> (wrapped: SchedulerError) {
        SchedulerError::VirtualMemory(error)
    }
}

impl vstd::std_specs::convert::FromSpecImpl<FsError> for SchedulerError {
    open spec fn obeys_from_spec() -> bool {
        true
    }

    open spec fn from_spec(error: FsError) -> SchedulerError {
        SchedulerError::Filesystem(error)
    }
}

impl From<FsError> for SchedulerError {
    fn from(error: FsError) -> (wrapped: SchedulerError) {
        SchedulerError::Filesystem(error)
    }
}

impl vstd::std_specs::convert::FromSpecImpl<UserElfError> for SchedulerError {
    open spec fn obeys_from_spec() -> bool {
        true
    }

    open spec fn from_spec(error: UserElfError) -> SchedulerError {
        SchedulerError::UserExecutable(error)
    }
}

impl From<UserElfError> for SchedulerError {
    fn from(error: UserElfError) -> (wrapped: SchedulerError) {
        SchedulerError::UserExecutable(error)
    }
}

/// What was measured of a run.
#[derive(Debug, Clone, Copy, PartialEq, Eq, Structural)]
pub struct SchedulerRunMetrics {
    pub runtime_failure: Option<RuntimeFailure>,
    pub ticks_before: u64,
    pub ticks_after: u64,
    pub timer_preemptions: u64,
    pub context_switches: u64,
    pub idle_halts: u64,
    pub minimum_dispatches: u64,
    pub pages_before: u64,
    pub pages_allocated: u64,
}

/// The length of a program's image: not empty, and no longer than a page.
pub fn task_image(start: usize, end: usize) -> (result: Result<usize, SchedulerError>)
    ensures
        match image_length(start, end) {
            Some(length) => result == Ok::<usize, SchedulerError>(length),
            None => result == Err::<usize, SchedulerError>(SchedulerError::ProgramImageInvalid),
        },
{
    match end.checked_sub(start) {
        Some(length) => if length != 0 && length <= PAGE_SIZE as usize {
            Ok(length)
        } else {
            Err(SchedulerError::ProgramImageInvalid)
        },
        None => Err(SchedulerError::ProgramImageInvalid),
    }
}

/// Whether a program may run in an address space: the kernel is out of its reach, its code can be
/// executed and its stack written.
pub fn accepts_space(space: &UserAddressSpace) -> (accepted: bool)
    ensures
        accepted == (space.kernel_mapping_supervisor_only && space.code_user_read_execute
            && space.stack_user_read_write),
{
    space.kernel_mapping_supervisor_only && space.code_user_read_execute
        && space.stack_user_read_write
}

/// Why no run can start.
pub fn check_run(hardware_enabled: bool, process_count: usize) -> (result: Result<(), SchedulerError>)
    ensures
        result == if !hardware_enabled {
            Err::<(), SchedulerError>(SchedulerError::TimerInactive)
        } else if process_count == 0 {
            Err(SchedulerError::ProgramImageInvalid)
        } else {
            Ok(())
        },
{
    if !hardware_enabled {
        return Err(SchedulerError::TimerInactive);
    }
    if process_count == 0 {
        return Err(SchedulerError::ProgramImageInvalid);
    }
    Ok(())
}

/// The least number of turns that one of the first `n` programs had.
pub open spec fn least_turns(processes: Seq<Process>, n: nat) -> u64
    decreases n,
{
    if n == 0 {
        0
    } else if n == 1 || processes[n - 1].dispatches < least_turns(processes, (n - 1) as nat) {
        processes[n - 1].dispatches
    } else {
        least_turns(processes, (n - 1) as nat)
    }
}

/// What is measured of a run that has ended.
pub open spec fn measured(
    scheduler: SchedulerModel,
    ticks_before: u64,
    ticks_after: u64,
    pages_before: u64,
    pages_allocated: u64,
) -> SchedulerRunMetrics {
    SchedulerRunMetrics {
        runtime_failure: scheduler.failure,
        ticks_before,
        ticks_after,
        timer_preemptions: scheduler.timer_preemptions,
        context_switches: scheduler.context_switches,
        idle_halts: scheduler.idle_halts,
        minimum_dispatches: least_turns(scheduler.processes, scheduler.processes.len()),
        pages_before,
        pages_allocated,
    }
}

/// What was measured of a run that has ended.
pub fn run_metrics(
    scheduler: &SchedulerState,
    ticks_before: u64,
    ticks_after: u64,
    pages_before: u64,
    pages_allocated: u64,
) -> (metrics: SchedulerRunMetrics)
    ensures
        metrics == measured(
            scheduler@,
            ticks_before,
            ticks_after,
            pages_before,
            pages_allocated,
        ),
{
    let mut least: u64 = 0;
    let mut i: usize = 0;
    while i < scheduler.processes.len()
        invariant
            i <= scheduler.processes@.len(),
            least == least_turns(scheduler.processes@, i as nat),
        decreases scheduler.processes.len() - i,
    {
        let turns: u64 = scheduler.processes[i].dispatches;
        if i == 0 || turns < least {
            least = turns;
        }
        i += 1;
    }
    SchedulerRunMetrics {
        runtime_failure: scheduler.failure,
        ticks_before,
        ticks_after,
        timer_preemptions: scheduler.timer_preemptions,
        context_switches: scheduler.context_switches,
        idle_halts: scheduler.idle_halts,
        minimum_dispatches: least,
        pages_before,
        pages_allocated,
    }
}

/// A run that has ended: the programs, whose memory is still to be taken back, and what was measured.
pub struct EndedRun {
    pub processes: Vec<Process>,
    pub metrics: SchedulerRunMetrics,
}

impl EndedRun {
    /// What was measured is of these programs.
    pub open spec fn well_formed(&self) -> bool {
        &&& self.metrics.minimum_dispatches == least_turns(self.processes@, self.processes@.len())
        &&& self.metrics.timer_preemptions <= self.metrics.context_switches
    }
}

/// Where the first program is entered, and the stack that interrupts then use.
#[derive(Debug, Clone, Copy, PartialEq, Eq, Structural)]
pub struct FirstTurn {
    pub root: u64,
    pub entry: u64,
    pub user_stack: u64,
    pub kernel_stack_top: u64,
}

/// Starts a run of programs: the first is entered. Where no run can start, the scheduler stays as it
/// is, and the programs are handed back.
pub fn begin_run(
    scheduler: &mut SchedulerState,
    processes: Vec<Process>,
    kernel_root: u64,
    hardware_enabled: bool,
) -> (turn: Result<FirstTurn, (SchedulerError, Vec<Process>)>)
    ensures
        if !hardware_enabled || processes@.len() == 0 {
            &&& turn == Err::<FirstTurn, (SchedulerError, Vec<Process>)>(
                (
                    if !hardware_enabled {
                        SchedulerError::TimerInactive
                    } else {
                        SchedulerError::ProgramImageInvalid
                    },
                    processes,
                ),
            )
            &&& final(scheduler)@ == old(scheduler)@
        } else {
            &&& turn == Ok::<FirstTurn, (SchedulerError, Vec<Process>)>(
                FirstTurn {
                    root: processes@[0].root,
                    entry: processes@[0].context.frame.rip,
                    user_stack: processes@[0].context.stack_pointer,
                    kernel_stack_top: processes@[0].kernel_stack_top,
                },
            )
            &&& final(scheduler).well_formed()
            &&& final(scheduler)@ == (SchedulerModel {
                active: true,
                kernel_root,
                current: Some(0),
                processes: processes@.update(0, Process { dispatches: 1, ..processes@[0] }),
                timer_preemptions: 0,
                context_switches: 0,
                failure: None,
                idle_halts: 0,
            })
        },
{
    match check_run(hardware_enabled, processes.len()) {
        Ok(_) => {},
        Err(error) => return Err((error, processes)),
    }
    let first = processes[0];
    scheduler.start(processes, kernel_root);
    Ok(
        FirstTurn {
            root: first.root,
            entry: first.context.frame.rip,
            user_stack: first.context.stack_pointer,
            kernel_stack_top: first.kernel_stack_top,
        },
    )
}

/// The scheduler after a run: the programs are handed out, and none has its turn.
pub open spec fn at_rest(scheduler: SchedulerModel) -> SchedulerModel {
    SchedulerModel { active: false, current: None, processes: Seq::empty(), ..scheduler }
}

/// Ends a run before it has begun: there is no stack for interrupts.
pub fn abandon_run(scheduler: &mut SchedulerState) -> (left: (Vec<Process>, SchedulerError))
    requires
        old(scheduler).well_formed(),
    ensures
        left.0@ == old(scheduler)@.processes,
        left.1 == SchedulerError::PrivilegeStackUnavailable,
        final(scheduler).well_formed(),
        final(scheduler)@ == at_rest(old(scheduler)@),
{
    (hand_out(scheduler), SchedulerError::PrivilegeStackUnavailable)
}

fn hand_out(scheduler: &mut SchedulerState) -> (processes: Vec<Process>)
    requires
        old(scheduler).well_formed(),
    ensures
        processes@ == old(scheduler)@.processes,
        final(scheduler).well_formed(),
        final(scheduler)@ == at_rest(old(scheduler)@),
{
    let mut processes: Vec<Process> = Vec::new();
    processes.append(&mut scheduler.processes);
    scheduler.active = false;
    scheduler.current = None;
    assert(processes@ =~= old(scheduler)@.processes);
    assert(scheduler@.processes =~= Seq::<Process>::empty());
    processes
}

/// Ends a run: the programs, whose memory is still to be taken back, and what was measured.
pub fn run_loaded_processes(
    scheduler: &mut SchedulerState,
    ticks_before: u64,
    ticks_after: u64,
    pages_before: u64,
    pages_allocated: u64,
) -> (ended: EndedRun)
    requires
        old(scheduler).well_formed(),
    ensures
        ended.well_formed(),
        ended.processes@ == old(scheduler)@.processes,
        ended.metrics == measured(
            old(scheduler)@,
            ticks_before,
            ticks_after,
            pages_before,
            pages_allocated,
        ),
        final(scheduler).well_formed(),
        final(scheduler)@ == at_rest(old(scheduler)@),
{
    let metrics = run_metrics(scheduler, ticks_before, ticks_after, pages_before, pages_allocated);
    EndedRun { processes: hand_out(scheduler), metrics }
}

/// The first program from `i` on that had fewer than two turns.
pub open spec fn neglected(processes: Seq<Process>, i: int) -> Option<u64>
    decreases processes.len() - i,
{
    if i < 0 || i >= processes.len() {
        None
    } else if processes[i].dispatches < 2 {
        Some(processes[i].pid)
    } else {
        neglected(processes, i + 1)
    }
}

/// Whether a program faulted where and as it was to.
pub open spec fn faulted_as_expected(process: Process) -> bool {
    process.state matches ProcessState::Faulted { vector, address, error_code } && vector == 14
        && address == ISOLATION_FAULT_ADDRESS && error_code & 0x07 == 0x07
}

/// Why a run of programs, of which the second was to fault, has not shown what it was to.
pub open spec fn outcome_fault(processes: Seq<Process>, metrics: SchedulerRunMetrics) -> Option<
    SchedulerError,
> {
    if metrics.runtime_failure is Some {
        Some(SchedulerError::RuntimeRootSwitch)
    } else if processes.len() > 0 && processes[0].state != ProcessState::Exited(processes[0].pid) {
        Some(SchedulerError::ProcessDidNotExit(processes[0].pid))
    } else if processes.len() > 2 && processes[2].state != ProcessState::Exited(processes[2].pid) {
        Some(SchedulerError::ProcessDidNotExit(processes[2].pid))
    } else if processes.len() < 2 || !faulted_as_expected(processes[1]) {
        Some(SchedulerError::FaultIsolationFailed)
    } else if metrics.ticks_after <= metrics.ticks_before || metrics.timer_preemptions < 2 {
        Some(SchedulerError::PreemptionNotObserved)
    } else if metrics.idle_halts == 0 {
        Some(SchedulerError::IdleNotObserved)
    } else {
        match neglected(processes, 0) {
            Some(pid) => Some(SchedulerError::FairnessViolation(pid)),
            None => None,
        }
    }
}

/// Whether a run of programs, of which the second was to fault, has shown what it was to.
pub fn validate_outcomes(processes: &Vec<Process>, metrics: SchedulerRunMetrics) -> (result: Result<
    (),
    SchedulerError,
>)
    ensures
        match outcome_fault(processes@, metrics) {
            Some(error) => result == Err::<(), SchedulerError>(error),
            None => result is Ok,
        },
{
    if metrics.runtime_failure.is_some() {
        return Err(SchedulerError::RuntimeRootSwitch);
    }
    if processes.len() > 0 {
        let process = processes[0];
        if process.state != ProcessState::Exited(process.pid) {
            return Err(SchedulerError::ProcessDidNotExit(process.pid));
        }
    }
    if processes.len() > 2 {
        let process = processes[2];
        if process.state != ProcessState::Exited(process.pid) {
            return Err(SchedulerError::ProcessDidNotExit(process.pid));
        }
    }
    if processes.len() < 2 {
        return Err(SchedulerError::FaultIsolationFailed);
    }
    let isolated: bool = match processes[1].state {
        ProcessState::Faulted { vector, address, error_code } => vector == 14 && address
            == ISOLATION_FAULT_ADDRESS && error_code & 0x07 == 0x07,
        _ => false,
    };
    if !isolated {
        return Err(SchedulerError::FaultIsolationFailed);
    }
    if metrics.ticks_after <= metrics.ticks_before || metrics.timer_preemptions < 2 {
        return Err(SchedulerError::PreemptionNotObserved);
    }
    if metrics.idle_halts == 0 {
        return Err(SchedulerError::IdleNotObserved);
    }
    let mut i: usize = 0;
    while i < processes.len()
        invariant
            i <= processes.len(),
            neglected(processes@, 0) == neglected(processes@, i as int),
            outcome_fault(processes@, metrics) == match neglected(processes@, 0) {
                Some(pid) => Some(SchedulerError::FairnessViolation(pid)),
                None => None,
            },
        decreases processes.len() - i,
    {
        if processes[i].dispatches < 2 {
            return Err(SchedulerError::FairnessViolation(processes[i].pid));
        }
        i += 1;
    }
    Ok(())
}

/// Why the run of a program from the filesystem has not shown what it was to.
pub open spec fn persistent_fault(processes: Seq<Process>, metrics: SchedulerRunMetrics) -> Option<
    SchedulerError,
> {
    if metrics.runtime_failure is Some {
        Some(SchedulerError::RuntimeRootSwitch)
    } else if processes.len() == 0 {
        Some(SchedulerError::ProcessDidNotExit(PERSISTENT_PID))
    } else if processes[0].pid != PERSISTENT_PID || processes[0].state != ProcessState::Exited(
        PERSISTENT_PID,
    ) {
        Some(SchedulerError::ProcessDidNotExit(processes[0].pid))
    } else if metrics.ticks_after <= metrics.ticks_before {
        Some(SchedulerError::PreemptionNotObserved)
    } else if metrics.idle_halts == 0 {
        Some(SchedulerError::IdleNotObserved)
    } else if processes[0].dispatches < 2 {
        Some(SchedulerError::FairnessViolation(processes[0].pid))
    } else {
        None
    }
}

/// The status that a program from the filesystem exited with: its own number.
pub fn validate_persistent_outcome(processes: &Vec<Process>, metrics: SchedulerRunMetrics) -> (result:
    Result<u64, SchedulerError>)
    ensures
        match persistent_fault(processes@, metrics) {
            Some(error) => result == Err::<u64, SchedulerError>(error),
            None => result == Ok::<u64, SchedulerError>(PERSISTENT_PID),
        },
{
    if metrics.runtime_failure.is_some() {
        return Err(SchedulerError::RuntimeRootSwitch);
    }
    if processes.len() == 0 {
        return Err(SchedulerError::ProcessDidNotExit(PERSISTENT_PID));
    }
    let process = processes[0];
    let status: u64 = match process.state {
        ProcessState::Exited(status) => status,
        _ => return Err(SchedulerError::ProcessDidNotExit(process.pid)),
    };
    if process.pid != PERSISTENT_PID || status != PERSISTENT_PID {
        return Err(SchedulerError::ProcessDidNotExit(process.pid));
    }
    if metrics.ticks_after <= metrics.ticks_before {
        return Err(SchedulerError::PreemptionNotObserved);
    }
    if metrics.idle_halts == 0 {
        return Err(SchedulerError::IdleNotObserved);
    }
    if process.dispatches < 2 {
        return Err(SchedulerError::FairnessViolation(process.pid));
    }
    Ok(status)
}

/// The difference, or zero if there is none.
pub open spec fn difference(a: u64, b: u64) -> u64 {
    if a < b {
        0
    } else {
        (a - b) as u64
    }
}

/// What a run of three programs showed, once their memory has been taken back and `pages_after` pages
/// are allocated. Memory that was lost counts for more than anything else.
pub open spec fn gate_result(
    processes: Seq<Process>,
    metrics: SchedulerRunMetrics,
    pages_after: u64,
) -> Result<SchedulerReport, SchedulerError> {
    if pages_after != metrics.pages_before {
        Err(
            SchedulerError::PhysicalPageLeak { before: metrics.pages_before, after: pages_after },
        )
    } else {
        match outcome_fault(processes, metrics) {
            Some(error) => Err(error),
            None => match processes[1].state {
                ProcessState::Faulted { vector, address, error_code } => Ok(
                    SchedulerReport {
                        process_count: 3,
                        timer_ticks: difference(metrics.ticks_after, metrics.ticks_before),
                        timer_preemptions: metrics.timer_preemptions,
                        context_switches: metrics.context_switches,
                        minimum_dispatches: metrics.minimum_dispatches,
                        idle_halts: metrics.idle_halts,
                        reclaimed_pages: difference(metrics.pages_allocated, pages_after),
                        faulted_pid: 1002,
                        fault_address: address,
                        fault_error: error_code,
                    },
                ),
                _ => Err(SchedulerError::FaultIsolationFailed),
            },
        }
    }
}

/// What a run of three programs showed, once their memory has been taken back and `pages_after` pages
/// are allocated.
pub fn run_preemption_gate(run: &EndedRun, pages_after: u64) -> (result: Result<
    SchedulerReport,
    SchedulerError,
>)
    requires
        run.well_formed(),
        run.processes@.len() >= 2,
    ensures
        result == gate_result(run.processes@, run.metrics, pages_after),
        result matches Ok(report) ==> {
            &&& report.process_count == 3
            &&& report.faulted_pid == 1002
            &&& report.fault_address == ISOLATION_FAULT_ADDRESS
            &&& report.fault_error & 7 == 7
            &&& report.timer_ticks >= 1
            &&& report.timer_preemptions >= 2
            &&& report.context_switches >= report.timer_preemptions
            &&& report.minimum_dispatches == least_turns(run.processes@, run.processes@.len())
            &&& report.minimum_dispatches >= 2
            &&& report.idle_halts >= 1
            &&& pages_after == run.metrics.pages_before
        },
{
    let processes: &Vec<Process> = &run.processes;
    let metrics: SchedulerRunMetrics = run.metrics;
    proof {
        if outcome_fault(processes@, metrics) is None {
            lemma_least_turns(processes@, processes@.len());
        }
    }
    if pages_after != metrics.pages_before {
        return Err(
            SchedulerError::PhysicalPageLeak { before: metrics.pages_before, after: pages_after },
        );
    }
    match validate_outcomes(processes, metrics) {
        Ok(_) => {},
        Err(error) => return Err(error),
    }
    match processes[1].state {
        ProcessState::Faulted { vector, address, error_code } => Ok(
            SchedulerReport {
                process_count: 3,
                timer_ticks: metrics.ticks_after.saturating_sub(metrics.ticks_before),
                timer_preemptions: metrics.timer_preemptions,
                context_switches: metrics.context_switches,
                minimum_dispatches: metrics.minimum_dispatches,
                idle_halts: metrics.idle_halts,
                reclaimed_pages: metrics.pages_allocated.saturating_sub(pages_after),
                faulted_pid: FIRST_PID + 1,
                fault_address: address,
                fault_error: error_code,
            },
        ),
        _ => Err(SchedulerError::FaultIsolationFailed),
    }
}

/// A run that passes lost no memory, ended turns by the timer, let every program have two turns, and
/// kept the fault of one from the others.
pub proof fn a_run_that_passes_has_shown_it(
    processes: Seq<Process>,
    metrics: SchedulerRunMetrics,
    pages_after: u64,
    i: int,
)
    requires
        gate_result(processes, metrics, pages_after) is Ok,
        0 <= i < processes.len(),
    ensures
        pages_after == metrics.pages_before,
        metrics.timer_preemptions >= 2,
        metrics.idle_halts > 0,
        processes[i].dispatches >= 2,
        faulted_as_expected(processes[1]),
{
    lemma_nobody_neglected(processes, 0, i);
}

/// Where nobody was neglected, the least number of turns is two or more.
proof fn lemma_least_turns(processes: Seq<Process>, n: nat)
    requires
        0 < n <= processes.len(),
        neglected(processes, 0) is None,
    ensures
        least_turns(processes, n) >= 2,
    decreases n,
{
    lemma_nobody_neglected(processes, 0, n - 1);
    if n > 1 {
        lemma_least_turns(processes, (n - 1) as nat);
    }
}

proof fn lemma_nobody_neglected(processes: Seq<Process>, from: int, i: int)
    requires
        0 <= from <= i < processes.len(),
        neglected(processes, from) is None,
    ensures
        processes[i].dispatches >= 2,
    decreases i - from,
{
    if from < i {
        lemma_nobody_neglected(processes, from + 1, i);
    }
}

/// The least number of turns is that of one of the programs, and no program had fewer.
pub proof fn no_program_had_fewer_turns(processes: Seq<Process>, n: nat, i: int)
    requires
        0 <= i < n <= processes.len(),
    ensures
        least_turns(processes, n) <= processes[i].dispatches,
        exists|k: int| 0 <= k < n && (#[trigger] processes[k]).dispatches == least_turns(processes, n),
    decreases n,
{
    if n > 1 {
        let m = (n - 1) as nat;
        no_program_had_fewer_turns(processes, m, if i < m {
            i
        } else {
            0
        });
        if least_turns(processes, n) == processes[n - 1].dispatches {
            assert(processes[n - 1].dispatches == least_turns(processes, n));
        } else {
            let k = choose|k: int|
                0 <= k < m && (#[trigger] processes[k]).dispatches == least_turns(processes, m);
            assert(processes[k].dispatches == least_turns(processes, n));
        }
    } else {
        assert(processes[0].dispatches == least_turns(processes, n));
    }
}

/// A run of three programs passes if and only if the first and the third ended with their own numbers,
/// the second was stopped at the kernel's page, the clock went on and took turns away at least twice, the
/// processor rested, and every program had at least two turns.
pub proof fn a_run_of_three_passes_for_every_reason(
    processes: Seq<Process>,
    metrics: SchedulerRunMetrics,
)
    requires
        processes.len() == 3,
    ensures
        outcome_fault(processes, metrics) is None <==> {
            &&& metrics.runtime_failure is None
            &&& processes[0].state == ProcessState::Exited(processes[0].pid)
            &&& processes[2].state == ProcessState::Exited(processes[2].pid)
            &&& processes[1].state matches ProcessState::Faulted { vector, address, error_code } && vector
                == 14 && address == 0x20_0000 && error_code & 7 == 7
            &&& metrics.ticks_before < metrics.ticks_after
            &&& metrics.timer_preemptions >= 2
            &&& metrics.idle_halts > 0
            &&& processes[0].dispatches >= 2 && processes[1].dispatches >= 2 && processes[2].dispatches
                >= 2
        },
{
    reveal_with_fuel(neglected, 4);
}

/// The program of the filesystem passes if and only if it ended with its own number, the clock went on,
/// the processor rested, and it had at least two turns.
pub proof fn the_stored_program_passes_for_every_reason(
    processes: Seq<Process>,
    metrics: SchedulerRunMetrics,
)
    requires
        processes.len() > 0,
    ensures
        persistent_fault(processes, metrics) is None <==> {
            &&& metrics.runtime_failure is None
            &&& processes[0].pid == 2001
            &&& processes[0].state == ProcessState::Exited(2001)
            &&& metrics.ticks_before < metrics.ticks_after
            &&& metrics.idle_halts > 0
            &&& processes[0].dispatches >= 2
        },
{
}

/// What a run reports is what was measured: how far the clock went, how many turns there were, and how
/// many pages came back; and no page may be missing.
pub proof fn a_report_says_what_was_measured(
    processes: Seq<Process>,
    metrics: SchedulerRunMetrics,
    pages_after: u64,
)
    ensures
        pages_after != metrics.pages_before ==> gate_result(processes, metrics, pages_after) is Err,
        pages_after == metrics.pages_before && outcome_fault(processes, metrics) is None ==> (
        gate_result(processes, metrics, pages_after) matches Ok(report) && report.timer_ticks
            == metrics.ticks_after - metrics.ticks_before && report.timer_preemptions
            == metrics.timer_preemptions && report.context_switches == metrics.context_switches
            && report.minimum_dispatches == metrics.minimum_dispatches && report.idle_halts
            == metrics.idle_halts && report.process_count == 3 && report.faulted_pid == 1002
            && report.fault_address == 0x20_0000 && (metrics.pages_allocated >= pages_after
            ==> report.reclaimed_pages == metrics.pages_allocated - pages_after)),
{
}

/// A scheduler at rest has no program and no turn, and keeps its counts.
pub proof fn a_scheduler_at_rest_keeps_its_counts(scheduler: SchedulerModel)
    ensures
        ({
            let rest = at_rest(scheduler);
            &&& !rest.active
            &&& rest.current is None
            &&& rest.processes.len() == 0
            &&& rest == (SchedulerModel {
                active: rest.active,
                current: rest.current,
                processes: rest.processes,
                ..scheduler
            })
        }),
{
}

} // verus!
