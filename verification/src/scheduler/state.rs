//! Whose turn it is.

use vstd::prelude::*;
use crate::interrupts::{
    from_user, set_user_stack, user_stack, TrapFrame, UserFrame, TIMER_VECTOR, USER_CODE_SELECTOR,
    USER_DATA_SELECTOR, USER_SYSCALL_VECTOR,
};
use crate::process::{kernel_frame, resume_kernel, syscall, UserAddressSpace, ERR_NOT_IMPLEMENTED};

verus! {

/// What a program is doing.
#[derive(Debug, Clone, Copy, PartialEq, Eq, Structural)]
pub enum ProcessState {
    Runnable,
    Sleeping { wake_tick: u64 },
    Exited(u64),
    Faulted { vector: u8, address: u64, error_code: u64 },
}

/// Where a program goes on.
#[derive(Debug, Clone, Copy, PartialEq, Eq, Structural)]
pub struct UserContext {
    pub frame: TrapFrame,
    pub stack_pointer: u64,
    pub stack_selector: u64,
}

/// A program.
#[derive(Debug, Clone, Copy, PartialEq, Eq, Structural)]
pub struct Process {
    pub pid: u64,
    pub root: u64,
    pub kernel_stack_top: u64,
    pub context: UserContext,
    pub state: ProcessState,
    pub dispatches: u64,
    pub syscalls: u64,
}

/// Why the programs could not go on.
#[derive(Debug, Clone, Copy, PartialEq, Eq, Structural)]
pub enum RuntimeFailure {
    MissingUserStack,
    RootSwitch,
    PrivilegeStack,
}

/// The scheduler.
pub struct SchedulerState {
    pub active: bool,
    pub kernel_root: u64,
    pub current: Option<usize>,
    pub processes: Vec<Process>,
    pub timer_preemptions: u64,
    pub context_switches: u64,
    pub failure: Option<RuntimeFailure>,
    pub idle_halts: u64,
}

/// What the scheduler stands for.
#[verifier::ext_equal]
pub ghost struct SchedulerModel {
    pub active: bool,
    pub kernel_root: u64,
    pub current: Option<usize>,
    pub processes: Seq<Process>,
    pub timer_preemptions: u64,
    pub context_switches: u64,
    pub failure: Option<RuntimeFailure>,
    pub idle_halts: u64,
}

impl View for SchedulerState {
    type V = SchedulerModel;

    open spec fn view(&self) -> SchedulerModel {
        SchedulerModel {
            active: self.active,
            kernel_root: self.kernel_root,
            current: self.current,
            processes: self.processes@,
            timer_preemptions: self.timer_preemptions,
            context_switches: self.context_switches,
            failure: self.failure,
            idle_halts: self.idle_halts,
        }
    }
}

/// One more, as far as it can be counted.
pub open spec fn one_more(count: u64) -> u64 {
    if count == u64::MAX {
        count
    } else {
        (count + 1) as u64
    }
}

/// The state of the processor in which a program starts.
pub open spec fn initial_frame(entry: u64) -> TrapFrame {
    TrapFrame {
        r15: 0,
        r14: 0,
        r13: 0,
        r12: 0,
        r11: 0,
        r10: 0,
        r9: 0,
        r8: 0,
        rbp: 0,
        rdi: 0,
        rsi: 0,
        rdx: 0,
        rcx: 0,
        rbx: 0,
        rax: 0,
        vector: 0,
        error_code: 0,
        rip: entry,
        cs: USER_CODE_SELECTOR as u64,
        rflags: 0x202,
    }
}

/// Where the program goes on that an interrupt came to, if it came to one.
pub open spec fn captured(frame: UserFrame) -> Option<UserContext> {
    if from_user(frame.frame) {
        Some(
            UserContext {
                frame: frame.frame,
                stack_pointer: frame.user_rsp,
                stack_selector: frame.user_ss,
            },
        )
    } else {
        None
    }
}

/// The saved state by which a program goes on, if it is one of a user program.
pub open spec fn restored(context: UserContext, frame: UserFrame) -> UserFrame {
    if from_user(context.frame) {
        UserFrame {
            frame: context.frame,
            user_rsp: context.stack_pointer,
            user_ss: context.stack_selector,
        }
    } else {
        UserFrame { frame: context.frame, ..frame }
    }
}

impl UserContext {
    /// Where a program starts.
    pub fn initial(entry: u64, stack_pointer: u64) -> (context: UserContext)
        ensures
            context == (UserContext {
                frame: initial_frame(entry),
                stack_pointer,
                stack_selector: USER_DATA_SELECTOR as u64,
            }),
    {
        UserContext {
            frame: TrapFrame {
                r15: 0,
                r14: 0,
                r13: 0,
                r12: 0,
                r11: 0,
                r10: 0,
                r9: 0,
                r8: 0,
                rbp: 0,
                rdi: 0,
                rsi: 0,
                rdx: 0,
                rcx: 0,
                rbx: 0,
                rax: 0,
                vector: 0,
                error_code: 0,
                rip: entry,
                cs: USER_CODE_SELECTOR as u64,
                rflags: 0x202,
            },
            stack_pointer,
            stack_selector: USER_DATA_SELECTOR as u64,
        }
    }

    /// Where the program goes on that an interrupt came to.
    pub fn capture(frame: &UserFrame) -> (context: Option<UserContext>)
        ensures
            context == captured(*frame),
    {
        match user_stack(frame) {
            Some((stack_pointer, stack_selector)) => Some(
                UserContext { frame: frame.frame, stack_pointer, stack_selector },
            ),
            None => None,
        }
    }

    /// Makes the program go on.
    pub fn restore(self, frame: &mut UserFrame) -> (done: bool)
        ensures
            done == from_user(self.frame),
            *final(frame) == restored(self, *old(frame)),
    {
        frame.frame = self.frame;
        set_user_stack(frame, self.stack_pointer, self.stack_selector)
    }
}

impl Process {
    /// A program that waits for its first turn in an address space.
    pub fn from_space(pid: u64, space: &UserAddressSpace, kernel_stack_top: u64) -> (process: Process)
        ensures
            process == (Process {
                pid,
                root: space.root_phys,
                kernel_stack_top,
                context: UserContext {
                    frame: initial_frame(space.entry),
                    stack_pointer: space.stack_top,
                    stack_selector: USER_DATA_SELECTOR as u64,
                },
                state: ProcessState::Runnable,
                dispatches: 0,
                syscalls: 0,
            }),
    {
        Process {
            pid,
            root: space.root_phys,
            kernel_stack_top,
            context: UserContext::initial(space.entry, space.stack_top),
            state: ProcessState::Runnable,
            dispatches: 0,
            syscalls: 0,
        }
    }
}

/// The program once `ticks` ticks have passed: one whose sleep is over can run.
pub open spec fn awake(process: Process, ticks: u64) -> Process {
    match process.state {
        ProcessState::Sleeping { wake_tick } => if ticks >= wake_tick {
            Process { state: ProcessState::Runnable, ..process }
        } else {
            process
        },
        _ => process,
    }
}

/// The programs once `ticks` ticks have passed.
pub open spec fn all_awake(processes: Seq<Process>, ticks: u64) -> Seq<Process> {
    processes.map_values(|process: Process| awake(process, ticks))
}

/// Whether a program sleeps.
pub open spec fn some_sleep(processes: Seq<Process>) -> bool {
    exists|i: int| 0 <= i < processes.len() && (#[trigger] processes[i]).state is Sleeping
}

/// The program `offset` places behind `current`, in a circle.
pub open spec fn place_behind(current: int, offset: int, count: int) -> int {
    if current + offset < count {
        current + offset
    } else {
        current + offset - count
    }
}

/// The first program that can run, from `offset` places behind `current` on; `current` itself is the
/// last to be asked.
pub open spec fn next_from(processes: Seq<Process>, current: int, offset: int) -> Option<usize>
    decreases processes.len() + 1 - offset,
{
    if offset < 1 || offset > processes.len() {
        None
    } else if processes[place_behind(current, offset, processes.len() as int)].state
        == ProcessState::Runnable {
        Some(place_behind(current, offset, processes.len() as int) as usize)
    } else {
        next_from(processes, current, offset + 1)
    }
}

/// What is to be done next.
#[derive(Debug, Clone, Copy, PartialEq, Eq, Structural)]
pub enum ScheduleAction {
    /// Nothing.
    Nothing,
    /// Return to the kernel.
    ReturnToKernel,
    /// Switch to the kernel's root if that is not in use, then wait for an interrupt.
    Idle,
    /// Let this program run.
    Enter(usize),
}

/// What is to be done once `ticks` ticks have passed.
pub open spec fn chosen(model: SchedulerModel, current: int, ticks: u64) -> (
    SchedulerModel,
    ScheduleAction,
) {
    let processes = all_awake(model.processes, ticks);
    let next = SchedulerModel { processes, ..model };
    match next_from(processes, current, 1) {
        Some(index) => (next, ScheduleAction::Enter(index)),
        None => if some_sleep(processes) {
            (next, ScheduleAction::Idle)
        } else {
            (next, ScheduleAction::ReturnToKernel)
        },
    }
}

/// What is to be done when the current program's turn is over.
pub open spec fn scheduled(model: SchedulerModel, frame: UserFrame, ticks: u64) -> (
    SchedulerModel,
    ScheduleAction,
) {
    match model.current {
        None => (model, ScheduleAction::Nothing),
        Some(current) => {
            let process = model.processes[current as int];
            let kept = process.state is Runnable || process.state is Sleeping;
            if kept && captured(frame) is None {
                (
                    SchedulerModel { failure: Some(RuntimeFailure::MissingUserStack), ..model },
                    ScheduleAction::ReturnToKernel,
                )
            } else {
                chosen(
                    if kept {
                        SchedulerModel {
                            processes: model.processes.update(
                                current as int,
                                Process { context: captured(frame).unwrap(), ..process },
                            ),
                            ..model
                        }
                    } else {
                        model
                    },
                    current as int,
                    ticks,
                )
            }
        },
    }
}

/// The scheduler once program `next` has its turn; `timer` says whether the last turn ended by the
/// timer.
pub open spec fn entered(model: SchedulerModel, next: usize, timer: bool) -> SchedulerModel {
    let changes = model.current != Some(next);
    SchedulerModel {
        current: Some(next),
        context_switches: if changes {
            one_more(model.context_switches)
        } else {
            model.context_switches
        },
        timer_preemptions: if changes && timer {
            one_more(model.timer_preemptions)
        } else {
            model.timer_preemptions
        },
        processes: model.processes.update(
            next as int,
            Process {
                dispatches: one_more(model.processes[next as int].dispatches),
                ..model.processes[next as int]
            },
        ),
        ..model
    }
}

/// What an interrupt comes to.
#[derive(Debug, Clone, Copy, PartialEq, Eq, Structural)]
pub enum TrapOutcome {
    /// It is none of the scheduler's.
    Unhandled,
    /// The program goes on.
    Resume,
    /// The program's turn is over; `timer` says whether by the timer.
    Schedule { timer: bool },
}

/// The scheduler with program `current` as `process`.
pub open spec fn with_process(model: SchedulerModel, current: usize, process: Process) -> SchedulerModel {
    SchedulerModel { processes: model.processes.update(current as int, process), ..model }
}

/// What a system call of program `current` comes to.
pub open spec fn called(model: SchedulerModel, current: usize, frame: TrapFrame, ticks: u64) -> (
    SchedulerModel,
    TrapFrame,
    TrapOutcome,
) {
    let process = Process {
        syscalls: one_more(model.processes[current as int].syscalls),
        ..model.processes[current as int]
    };
    let next = with_process(model, current, process);
    if frame.rax == syscall::EXIT {
        (
            with_process(
                model,
                current,
                Process { state: ProcessState::Exited(frame.rdi), ..process },
            ),
            frame,
            TrapOutcome::Schedule { timer: false },
        )
    } else if frame.rax == syscall::YIELD {
        (next, TrapFrame { rax: 0, ..frame }, TrapOutcome::Schedule { timer: false })
    } else if frame.rax == syscall::GETPID {
        (next, TrapFrame { rax: process.pid, ..frame }, TrapOutcome::Resume)
    } else if frame.rax == syscall::GETTICKS {
        (next, TrapFrame { rax: ticks, ..frame }, TrapOutcome::Resume)
    } else if frame.rax == syscall::SLEEP {
        (
            with_process(
                model,
                current,
                Process {
                    state: ProcessState::Sleeping {
                        wake_tick: if ticks + frame.rdi > u64::MAX {
                            u64::MAX
                        } else {
                            (ticks + frame.rdi) as u64
                        },
                    },
                    ..process
                },
            ),
            TrapFrame { rax: 0, ..frame },
            TrapOutcome::Schedule { timer: false },
        )
    } else {
        (next, TrapFrame { rax: ERR_NOT_IMPLEMENTED, ..frame }, TrapOutcome::Resume)
    }
}

/// What an interrupt comes to.
pub open spec fn trapped(
    model: SchedulerModel,
    frame: TrapFrame,
    fault_address: u64,
    ticks: u64,
) -> (SchedulerModel, TrapFrame, TrapOutcome) {
    let vector = frame.vector as u8;
    if !model.active || model.current is None {
        (model, frame, TrapOutcome::Unhandled)
    } else {
        let current = model.current.unwrap();
        if vector == TIMER_VECTOR {
            (model, frame, TrapOutcome::Schedule { timer: true })
        } else if vector == USER_SYSCALL_VECTOR {
            called(model, current, frame, ticks)
        } else if vector <= 31 {
            (
                with_process(
                    model,
                    current,
                    Process {
                        state: ProcessState::Faulted {
                            vector,
                            address: fault_address,
                            error_code: frame.error_code,
                        },
                        ..model.processes[current as int]
                    },
                ),
                frame,
                TrapOutcome::Schedule { timer: false },
            )
        } else {
            (model, frame, TrapOutcome::Unhandled)
        }
    }
}

impl SchedulerState {
    /// The program whose turn it is is one of the programs, and every turn that the timer ended led to
    /// another program.
    pub open spec fn well_formed(&self) -> bool {
        &&& self.current matches Some(current) ==> current < self.processes@.len()
        &&& self.timer_preemptions <= self.context_switches
    }

    /// A scheduler without programs.
    pub fn new() -> (state: SchedulerState)
        ensures
            state.well_formed(),
            state@ == (SchedulerModel {
                active: false,
                kernel_root: 0,
                current: None,
                processes: seq![],
                timer_preemptions: 0,
                context_switches: 0,
                failure: None,
                idle_halts: 0,
            }),
    {
        SchedulerState {
            active: false,
            kernel_root: 0,
            current: None,
            processes: Vec::new(),
            timer_preemptions: 0,
            context_switches: 0,
            failure: None,
            idle_halts: 0,
        }
    }

    /// Starts with these programs, of which the first has its turn.
    pub fn start(&mut self, processes: Vec<Process>, kernel_root: u64)
        requires
            processes@.len() > 0,
        ensures
            final(self).well_formed(),
            final(self)@ == (SchedulerModel {
                active: true,
                kernel_root,
                current: Some(0),
                processes: processes@.update(0, Process { dispatches: 1, ..processes@[0] }),
                timer_preemptions: 0,
                context_switches: 0,
                failure: None,
                idle_halts: 0,
            }),
    {
        let mut first = processes[0];
        first.dispatches = 1;
        self.processes = processes;
        self.processes.set(0, first);
        self.active = true;
        self.kernel_root = kernel_root;
        self.current = Some(0);
        self.timer_preemptions = 0;
        self.context_switches = 0;
        self.failure = None;
        self.idle_halts = 0;
    }

    /// Lets the programs run whose sleep is over.
    pub fn wake_sleepers(&mut self, ticks: u64)
        requires
            old(self).well_formed(),
        ensures
            final(self).well_formed(),
            final(self)@ == (SchedulerModel {
                processes: all_awake(old(self)@.processes, ticks),
                ..old(self)@
            }),
    {
        let mut i: usize = 0;
        while i < self.processes.len()
            invariant
                i <= self.processes@.len(),
                self.processes@.len() == old(self).processes@.len(),
                forall|j: int|
                    0 <= j < i ==> #[trigger] self.processes@[j] == awake(
                        old(self).processes@[j],
                        ticks,
                    ),
                forall|j: int|
                    i <= j < self.processes@.len() ==> #[trigger] self.processes@[j] == old(
                        self,
                    ).processes@[j],
                self@ == (SchedulerModel { processes: self.processes@, ..old(self)@ }),
            decreases self.processes.len() - i,
        {
            let mut process = self.processes[i];
            match process.state {
                ProcessState::Sleeping { wake_tick } => {
                    if ticks >= wake_tick {
                        process.state = ProcessState::Runnable;
                        self.processes.set(i, process);
                    }
                },
                _ => {},
            }
            i += 1;
        }
        assert(self.processes@ =~= all_awake(old(self).processes@, ticks));
    }

    /// Whether a program sleeps.
    pub fn has_sleepers(&self) -> (result: bool)
        ensures
            result == some_sleep(self@.processes),
    {
        let mut i: usize = 0;
        while i < self.processes.len()
            invariant
                i <= self.processes@.len(),
                forall|j: int| 0 <= j < i ==> !((#[trigger] self.processes@[j]).state is Sleeping),
            decreases self.processes.len() - i,
        {
            match self.processes[i].state {
                ProcessState::Sleeping { .. } => {
                    assert(self@.processes[i as int].state is Sleeping);
                    return true;
                },
                _ => {},
            }
            i += 1;
        }
        false
    }

    /// The next program behind `current` that can run.
    pub fn next_runnable(&self, current: usize) -> (next: Option<usize>)
        requires
            current < self.processes@.len(),
        ensures
            next == next_from(self@.processes, current as int, 1),
            next matches Some(index) ==> index < self.processes@.len(),
    {
        let count: usize = self.processes.len();
        let mut left: usize = count;
        while left > 0
            invariant
                left <= count,
                count == self.processes@.len(),
                current < count,
                next_from(self@.processes, current as int, 1) == next_from(
                    self@.processes,
                    current as int,
                    count - left + 1,
                ),
            decreases left,
        {
            let offset: usize = count - left + 1;
            let index: usize = if offset < count - current {
                current + offset
            } else {
                offset - (count - current)
            };
            assert(index == place_behind(current as int, offset as int, count as int));
            if self.processes[index].state == ProcessState::Runnable {
                return Some(index);
            }
            left -= 1;
        }
        None
    }

    /// Decides what is to be done once `ticks` ticks have passed.
    fn choose_next(&mut self, current: usize, ticks: u64) -> (action: ScheduleAction)
        requires
            old(self).well_formed(),
            current < old(self).processes@.len(),
        ensures
            final(self).well_formed(),
            (final(self)@, action) == chosen(old(self)@, current as int, ticks),
    {
        self.wake_sleepers(ticks);
        match self.next_runnable(current) {
            Some(index) => ScheduleAction::Enter(index),
            None => if self.has_sleepers() {
                ScheduleAction::Idle
            } else {
                ScheduleAction::ReturnToKernel
            },
        }
    }

    /// Decides what is to be done when the current program's turn is over. Where the program goes on
    /// is kept, unless it does not.
    pub fn schedule(&mut self, frame: &UserFrame, ticks: u64) -> (action: ScheduleAction)
        requires
            old(self).well_formed(),
        ensures
            final(self).well_formed(),
            (final(self)@, action) == scheduled(old(self)@, *frame, ticks),
    {
        let current: usize = match self.current {
            Some(current) => current,
            None => return ScheduleAction::Nothing,
        };
        let mut process = self.processes[current];
        let kept: bool = match process.state {
            ProcessState::Runnable => true,
            ProcessState::Sleeping { .. } => true,
            _ => false,
        };
        if kept {
            match UserContext::capture(frame) {
                Some(context) => {
                    process.context = context;
                    self.processes.set(current, process);
                },
                None => {
                    self.failure = Some(RuntimeFailure::MissingUserStack);
                    assert(self@ =~= scheduled(old(self)@, *frame, ticks).0);
                    return ScheduleAction::ReturnToKernel;
                },
            }
        }
        self.choose_next(current, ticks)
    }

    /// Counts that the processor was halted, and decides again once `ticks` ticks have passed.
    pub fn idle(&mut self, ticks: u64) -> (action: ScheduleAction)
        requires
            old(self).well_formed(),
            old(self)@.current is Some,
        ensures
            final(self).well_formed(),
            (final(self)@, action) == chosen(
                SchedulerModel { idle_halts: one_more(old(self)@.idle_halts), ..old(self)@ },
                old(self)@.current.unwrap() as int,
                ticks,
            ),
    {
        self.idle_halts = self.idle_halts.saturating_add(1);
        match self.current {
            Some(current) => self.choose_next(current, ticks),
            None => ScheduleAction::Nothing,
        }
    }

    /// Gives program `next` its turn, and says which root and stack it needs and where it goes on.
    pub fn enter(&mut self, next: usize, timer: bool) -> (process: Process)
        requires
            old(self).well_formed(),
            next < old(self).processes@.len(),
        ensures
            final(self).well_formed(),
            final(self)@ == entered(old(self)@, next, timer),
            process == final(self)@.processes[next as int],
    {
        let changes: bool = match self.current {
            Some(current) => current != next,
            None => true,
        };
        if changes {
            self.context_switches = self.context_switches.saturating_add(1);
            if timer {
                self.timer_preemptions = self.timer_preemptions.saturating_add(1);
            }
        }
        self.current = Some(next);
        let mut process = self.processes[next];
        process.dispatches = process.dispatches.saturating_add(1);
        self.processes.set(next, process);
        assert(self@ =~= entered(old(self)@, next, timer));
        process
    }

    /// Notes why the programs could not go on.
    pub fn fail(&mut self, failure: RuntimeFailure)
        requires
            old(self).well_formed(),
        ensures
            final(self).well_formed(),
            final(self)@ == (SchedulerModel { failure: Some(failure), ..old(self)@ }),
    {
        self.failure = Some(failure);
        assert(self@ =~= (SchedulerModel { failure: Some(failure), ..old(self)@ }));
    }

    /// Ends scheduling and makes the kernel go on at `resume`; `switched` says whether the kernel's
    /// root could be switched to.
    pub fn return_to_kernel(&mut self, frame: &mut TrapFrame, switched: bool, resume: u64)
        requires
            old(self).well_formed(),
        ensures
            final(self).well_formed(),
            final(self)@ == (SchedulerModel {
                active: false,
                current: None,
                failure: if switched {
                    old(self)@.failure
                } else {
                    Some(RuntimeFailure::RootSwitch)
                },
                ..old(self)@
            }),
            *final(frame) == kernel_frame(*old(frame), resume),
    {
        if !switched {
            self.failure = Some(RuntimeFailure::RootSwitch);
        }
        self.active = false;
        self.current = None;
        resume_kernel(frame, resume);
    }

    /// Decides about an interrupt that came at tick `ticks`.
    pub fn handle_user_trap(&mut self, frame: &mut TrapFrame, fault_address: u64, ticks: u64) -> (
    outcome: TrapOutcome)
        requires
            old(self).well_formed(),
        ensures
            final(self).well_formed(),
            (final(self)@, *final(frame), outcome) == trapped(
                old(self)@,
                *old(frame),
                fault_address,
                ticks,
            ),
    {
        if !self.active {
            return TrapOutcome::Unhandled;
        }
        let current: usize = match self.current {
            Some(current) => current,
            None => return TrapOutcome::Unhandled,
        };
        let vector: u8 = #[verifier::truncate] (frame.vector as u8);
        if vector == TIMER_VECTOR {
            return TrapOutcome::Schedule { timer: true };
        }
        if vector == USER_SYSCALL_VECTOR {
            return self.handle_syscall(current, frame, ticks);
        }
        if vector <= 31 {
            let mut process = self.processes[current];
            process.state = ProcessState::Faulted {
                vector,
                address: fault_address,
                error_code: frame.error_code,
            };
            self.processes.set(current, process);
            return TrapOutcome::Schedule { timer: false };
        }
        TrapOutcome::Unhandled
    }

    fn handle_syscall(&mut self, current: usize, frame: &mut TrapFrame, ticks: u64) -> (outcome:
        TrapOutcome)
        requires
            old(self).well_formed(),
            current < old(self).processes@.len(),
        ensures
            final(self).well_formed(),
            (final(self)@, *final(frame), outcome) == called(
                old(self)@,
                current,
                *old(frame),
                ticks,
            ),
    {
        let mut process = self.processes[current];
        process.syscalls = process.syscalls.saturating_add(1);
        let mut outcome = TrapOutcome::Resume;
        if frame.rax == syscall::EXIT {
            process.state = ProcessState::Exited(frame.rdi);
            outcome = TrapOutcome::Schedule { timer: false };
        } else if frame.rax == syscall::YIELD {
            frame.rax = 0;
            outcome = TrapOutcome::Schedule { timer: false };
        } else if frame.rax == syscall::GETPID {
            frame.rax = process.pid;
        } else if frame.rax == syscall::GETTICKS {
            frame.rax = ticks;
        } else if frame.rax == syscall::SLEEP {
            process.state = ProcessState::Sleeping { wake_tick: ticks.saturating_add(frame.rdi) };
            frame.rax = 0;
            outcome = TrapOutcome::Schedule { timer: false };
        } else {
            frame.rax = ERR_NOT_IMPLEMENTED;
        }
        self.processes.set(current, process);
        outcome
    }
}

/// The program that is chosen can run, and every program between the current one and it cannot; none
/// is chosen only where none can run.
pub proof fn the_nearest_runnable_program_is_next(processes: Seq<Process>, current: int, from: int)
    requires
        0 <= current < processes.len() <= usize::MAX,
        1 <= from <= processes.len() + 1,
    ensures
        match next_from(processes, current, from) {
            Some(index) => {
                &&& index < processes.len()
                &&& processes[index as int].state == ProcessState::Runnable
                &&& exists|offset: int|
                    {
                        &&& from <= offset <= processes.len()
                        &&& index == #[trigger] place_behind(current, offset, processes.len() as int)
                        &&& forall|nearer: int|
                            from <= nearer < offset ==> processes[#[trigger] place_behind(
                                current,
                                nearer,
                                processes.len() as int,
                            )].state != ProcessState::Runnable
                    }
            },
            None => forall|offset: int|
                from <= offset <= processes.len() ==> processes[#[trigger] place_behind(
                    current,
                    offset,
                    processes.len() as int,
                )].state != ProcessState::Runnable,
        },
    decreases processes.len() + 1 - from,
{
    let count = processes.len() as int;
    if from <= count {
        if processes[place_behind(current, from, count)].state == ProcessState::Runnable {
            assert(place_behind(current, from, count) == next_from(
                processes,
                current,
                from,
            ).unwrap());
        } else {
            the_nearest_runnable_program_is_next(processes, current, from + 1);
        }
    }
}

/// A program that can run is found, wherever it stands.
pub proof fn a_runnable_program_gets_its_turn(processes: Seq<Process>, current: int, i: int)
    requires
        0 <= current < processes.len() <= usize::MAX,
        0 <= i < processes.len(),
        processes[i].state == ProcessState::Runnable,
    ensures
        next_from(processes, current, 1) is Some,
{
    the_nearest_runnable_program_is_next(processes, current, 1);
    let count = processes.len() as int;
    let offset = if i > current {
        i - current
    } else {
        i - current + count
    };
    assert(place_behind(current, offset, count) == i);
}

/// A program that has exited or faulted never runs again, whatever tick it is: waking changes nothing
/// about it, and it is not chosen.
pub proof fn a_program_that_ended_stays_so(
    model: SchedulerModel,
    current: int,
    ticks: u64,
    i: int,
)
    requires
        0 <= current < model.processes.len() <= usize::MAX,
        0 <= i < model.processes.len(),
        model.processes[i].state is Exited || model.processes[i].state is Faulted,
    ensures
        chosen(model, current, ticks).0.processes[i] == model.processes[i],
        chosen(model, current, ticks).1 != ScheduleAction::Enter(i as usize),
{
    let processes = all_awake(model.processes, ticks);
    the_nearest_runnable_program_is_next(processes, current, 1);
}

/// An interrupt changes no program but the one whose turn it is.
pub proof fn a_trap_leaves_other_programs_alone(
    model: SchedulerModel,
    frame: TrapFrame,
    fault_address: u64,
    ticks: u64,
    i: int,
)
    requires
        model.current matches Some(current) ==> current < model.processes.len() && i != current,
        0 <= i < model.processes.len(),
    ensures
        trapped(model, frame, fault_address, ticks).0.processes.len() == model.processes.len(),
        trapped(model, frame, fault_address, ticks).0.processes[i] == model.processes[i],
{
}

/// A program that lost its turn goes on where it was: what is kept of it is what is restored.
pub proof fn a_program_goes_on_where_it_was(frame: UserFrame, other: UserFrame)
    requires
        from_user(frame.frame),
    ensures
        captured(frame) matches Some(context) && restored(context, other) == frame,
{
}

/// Whether a program that is current makes a system call.
pub open spec fn calls(model: SchedulerModel, frame: TrapFrame, current: usize) -> bool {
    &&& model.active
    &&& model.current == Some(current)
    &&& current < model.processes.len()
    &&& frame.vector == 0x80
}

/// A program that yields stays runnable, gets zero, and its turn is over: where another program can run,
/// the next that is entered is not the one that yielded.
pub proof fn a_yield_passes_the_turn(
    model: SchedulerModel,
    frame: TrapFrame,
    saved: UserFrame,
    fault_address: u64,
    ticks: u64,
    current: usize,
    other: int,
)
    requires
        calls(model, frame, current),
        frame.rax == 3,
        model.processes.len() <= usize::MAX,
        model.processes[current as int].state == ProcessState::Runnable,
        from_user(saved.frame),
        0 <= other < model.processes.len(),
        other != current,
        model.processes[other].state == ProcessState::Runnable,
    ensures
        ({
            let (next, after, outcome) = trapped(model, frame, fault_address, ticks);
            &&& outcome == TrapOutcome::Schedule { timer: false }
            &&& after == (TrapFrame { rax: 0, ..frame })
            &&& next.processes[current as int].state == ProcessState::Runnable
            &&& scheduled(next, saved, ticks).1 matches ScheduleAction::Enter(chosen) && chosen
                != current && scheduled(next, saved, ticks).0.processes[chosen as int].state
                == ProcessState::Runnable
        }),
{
    let (next, after, outcome) = trapped(model, frame, fault_address, ticks);
    let process = next.processes[current as int];
    let kept = SchedulerModel {
        processes: next.processes.update(
            current as int,
            Process { context: captured(saved).unwrap(), ..process },
        ),
        ..next
    };
    let processes = all_awake(kept.processes, ticks);
    assert(processes[other].state == ProcessState::Runnable);
    a_runnable_program_gets_its_turn(processes, current as int, other);
    the_nearest_runnable_program_is_next(processes, current as int, 1);
    let count = processes.len() as int;
    let offset = if other > current {
        other - current
    } else {
        other - current + count
    };
    assert(place_behind(current as int, offset, count) == other);
    assert(1 <= offset < count);
}

/// A program that exits ends with the status that it gave, never runs again, and its turn is over.
pub proof fn an_exit_ends_the_program(
    model: SchedulerModel,
    frame: TrapFrame,
    saved: UserFrame,
    fault_address: u64,
    ticks: u64,
    later: u64,
    current: usize,
)
    requires
        calls(model, frame, current),
        frame.rax == 2,
        model.processes.len() <= usize::MAX,
    ensures
        ({
            let (next, after, outcome) = trapped(model, frame, fault_address, ticks);
            &&& outcome == TrapOutcome::Schedule { timer: false }
            &&& next.processes[current as int].state == ProcessState::Exited(frame.rdi)
            &&& scheduled(next, saved, later).0.processes[current as int].state
                == ProcessState::Exited(frame.rdi)
            &&& scheduled(next, saved, later).1 != ScheduleAction::Enter(current)
        }),
{
    let (next, after, outcome) = trapped(model, frame, fault_address, ticks);
    a_program_that_ended_stays_so(next, current as int, later, current as int);
}

/// A program that asks for its number or for the ticks gets them and goes on.
pub proof fn a_question_is_answered_at_once(
    model: SchedulerModel,
    frame: TrapFrame,
    fault_address: u64,
    ticks: u64,
    current: usize,
)
    requires
        calls(model, frame, current),
    ensures
        ({
            let (next, after, outcome) = trapped(model, frame, fault_address, ticks);
            let before = model.processes[current as int];
            &&& frame.rax == 4 ==> outcome == TrapOutcome::Resume && after == (TrapFrame {
                rax: before.pid,
                ..frame
            }) && next.processes[current as int].state == before.state
            &&& frame.rax == 5 ==> outcome == TrapOutcome::Resume && after == (TrapFrame {
                rax: ticks,
                ..frame
            }) && next.processes[current as int].state == before.state
            &&& !(2 <= frame.rax <= 6) ==> outcome == TrapOutcome::Resume && after == (TrapFrame {
                rax: 0xffff_ffff_ffff_ffda,
                ..frame
            }) && next.processes[current as int].state == before.state
            &&& next.current == Some(current) && next.active
            &&& next.processes[current as int].pid == before.pid
            &&& next.processes[current as int].root == before.root
            &&& next.processes[current as int].context == before.context
            &&& next.processes[current as int].dispatches == before.dispatches
            &&& next.processes[current as int].syscalls == if before.syscalls == u64::MAX {
                before.syscalls
            } else {
                (before.syscalls + 1) as u64
            }
        }),
{
}

/// A program that sleeps gets zero, its turn is over, and it is not entered before the ticks that it
/// asked for have passed; once they have, it can run again.
pub proof fn a_sleeper_wakes_in_time(
    model: SchedulerModel,
    frame: TrapFrame,
    saved: UserFrame,
    fault_address: u64,
    ticks: u64,
    later: u64,
    current: usize,
)
    requires
        calls(model, frame, current),
        frame.rax == 6,
        ticks + frame.rdi <= u64::MAX,
        model.processes.len() <= usize::MAX,
        from_user(saved.frame),
    ensures
        ({
            let (next, after, outcome) = trapped(model, frame, fault_address, ticks);
            let (done, action) = scheduled(next, saved, later);
            &&& outcome == TrapOutcome::Schedule { timer: false }
            &&& after == (TrapFrame { rax: 0, ..frame })
            &&& later < ticks + frame.rdi ==> done.processes[current as int].state is Sleeping
                && action != ScheduleAction::Enter(current)
                && action != ScheduleAction::ReturnToKernel
            &&& later >= ticks + frame.rdi ==> done.processes[current as int].state
                == ProcessState::Runnable && action is Enter
        }),
{
    let (next, after, outcome) = trapped(model, frame, fault_address, ticks);
    let process = next.processes[current as int];
    let kept = SchedulerModel {
        processes: next.processes.update(
            current as int,
            Process { context: captured(saved).unwrap(), ..process },
        ),
        ..next
    };
    let processes = all_awake(kept.processes, later);
    the_nearest_runnable_program_is_next(processes, current as int, 1);
    if later >= ticks + frame.rdi {
        assert(processes[current as int].state == ProcessState::Runnable);
        a_runnable_program_gets_its_turn(processes, current as int, current as int);
    } else {
        assert(processes[current as int].state is Sleeping);
        assert(some_sleep(processes));
    }
}

/// The timer ends the turn of a program that can run on, which stays runnable and comes after all others
/// that can run.
pub proof fn the_timer_passes_the_turn(
    model: SchedulerModel,
    saved: UserFrame,
    fault_address: u64,
    ticks: u64,
    current: usize,
    other: int,
)
    requires
        model.active,
        model.current == Some(current),
        current < model.processes.len() <= usize::MAX,
        saved.frame.vector == 32,
        from_user(saved.frame),
        model.processes[current as int].state == ProcessState::Runnable,
    ensures
        trapped(model, saved.frame, fault_address, ticks) == (
            model,
            saved.frame,
            TrapOutcome::Schedule { timer: true },
        ),
        scheduled(model, saved, ticks).1 is Enter,
        0 <= other < model.processes.len() && other != current && model.processes[other].state
            == ProcessState::Runnable ==> scheduled(model, saved, ticks).1 != ScheduleAction::Enter(
            current,
        ),
        ({
            let kept = scheduled(model, saved, ticks).0.processes[current as int];
            &&& kept.state == ProcessState::Runnable
            &&& kept.context.frame == saved.frame
            &&& kept.context.stack_pointer == saved.user_rsp
            &&& kept.context.stack_selector == saved.user_ss
        }),
{
    let process = model.processes[current as int];
    let kept = SchedulerModel {
        processes: model.processes.update(
            current as int,
            Process { context: captured(saved).unwrap(), ..process },
        ),
        ..model
    };
    let processes = all_awake(kept.processes, ticks);
    assert(processes[current as int].state == ProcessState::Runnable);
    a_runnable_program_gets_its_turn(processes, current as int, current as int);
    the_nearest_runnable_program_is_next(processes, current as int, 1);
    if 0 <= other < model.processes.len() && other != current && model.processes[other].state
        == ProcessState::Runnable {
        let count = processes.len() as int;
        let offset = if other > current {
            other - current
        } else {
            other - current + count
        };
        assert(processes[other].state == ProcessState::Runnable);
        assert(place_behind(current as int, offset, count) == other);
    }
}

/// An exception ends the program that it came to, with what the processor said of it.
pub proof fn an_exception_ends_the_program(
    model: SchedulerModel,
    frame: TrapFrame,
    saved: UserFrame,
    fault_address: u64,
    ticks: u64,
    later: u64,
    current: usize,
)
    requires
        model.active,
        model.current == Some(current),
        current < model.processes.len() <= usize::MAX,
        frame.vector <= 31,
    ensures
        ({
            let (next, after, outcome) = trapped(model, frame, fault_address, ticks);
            &&& outcome == TrapOutcome::Schedule { timer: false }
            &&& after == frame
            &&& next.processes[current as int].state == (ProcessState::Faulted {
                vector: frame.vector as u8,
                address: fault_address,
                error_code: frame.error_code,
            })
            &&& scheduled(next, saved, later).1 != ScheduleAction::Enter(current)
        }),
{
    let (next, after, outcome) = trapped(model, frame, fault_address, ticks);
    a_program_that_ended_stays_so(next, current as int, later, current as int);
}

/// A scheduler that is not active, or has no program whose turn it is, takes no interrupt.
pub proof fn an_idle_scheduler_takes_no_interrupt(
    model: SchedulerModel,
    frame: TrapFrame,
    fault_address: u64,
    ticks: u64,
)
    requires
        !model.active || model.current is None || frame.vector % 256 > 32 && frame.vector % 256
            != 0x80,
    ensures
        trapped(model, frame, fault_address, ticks) == (model, frame, TrapOutcome::Unhandled),
{
    let vector = frame.vector;
    assert(vector as u8 == vector % 256) by (bit_vector);
}

/// What comes next when no turn goes on: a program that can run, else waiting while one sleeps, else
/// the kernel.
pub proof fn the_kernel_goes_on_when_all_have_ended(
    model: SchedulerModel,
    current: int,
    ticks: u64,
)
    requires
        0 <= current < model.processes.len() <= usize::MAX,
    ensures
        ({
            let (next, action) = chosen(model, current, ticks);
            &&& next.processes.len() == model.processes.len()
            &&& action is ReturnToKernel <==> forall|i: int|
                0 <= i < model.processes.len() ==> (#[trigger] model.processes[i]).state is Exited
                    || model.processes[i].state is Faulted
            &&& action is Idle <==> (exists|i: int|
                0 <= i < model.processes.len() && (#[trigger] model.processes[i]).state is Sleeping)
                && forall|i: int|
                0 <= i < model.processes.len() ==> ((#[trigger] model.processes[i]).state
                    != ProcessState::Runnable && (model.processes[i].state matches
                    ProcessState::Sleeping { wake_tick } ==> ticks < wake_tick))
            &&& !(action is Nothing)
        }),
{
    let processes = all_awake(model.processes, ticks);
    the_nearest_runnable_program_is_next(processes, current, 1);
    assert forall|i: int| 0 <= i < processes.len() implies #[trigger] processes[i] == awake(
        model.processes[i],
        ticks,
    ) by {}
    if next_from(processes, current, 1) is Some {
        let index = next_from(processes, current, 1).unwrap() as int;
        assert(processes[index] == awake(model.processes[index], ticks));
        let _ = model.processes[index];
    } else {
        assert forall|i: int| 0 <= i < processes.len() implies (#[trigger] processes[i]).state
            != ProcessState::Runnable by {
            let offset = if i > current {
                i - current
            } else {
                i - current + processes.len()
            };
            assert(place_behind(current, offset, processes.len() as int) == i);
        }
        assert forall|i: int| 0 <= i < model.processes.len() implies (
        #[trigger] model.processes[i]).state != ProcessState::Runnable && (model.processes[i].state
            matches ProcessState::Sleeping { wake_tick } ==> ticks < wake_tick) by {
            assert(processes[i].state != ProcessState::Runnable);
        }
        if some_sleep(processes) {
            let i = choose|i: int|
                0 <= i < processes.len() && (#[trigger] processes[i]).state is Sleeping;
            assert(model.processes[i].state is Sleeping);
        } else {
            assert forall|i: int| 0 <= i < model.processes.len() implies (
            #[trigger] model.processes[i]).state is Exited || model.processes[i].state is Faulted by {
                assert(!(processes[i].state is Sleeping));
            }
        }
    }
}

/// A turn that is given counts for the program, and for the switches where another had the turn before.
pub proof fn a_turn_is_counted(model: SchedulerModel, next: usize, timer: bool, i: int)
    requires
        next < model.processes.len(),
        0 <= i < model.processes.len(),
    ensures
        ({
            let after = entered(model, next, timer);
            let one = |count: u64|
                if count == u64::MAX {
                    count
                } else {
                    (count + 1) as u64
                };
            let changes = model.current != Some(next);
            &&& after.current == Some(next)
            &&& after.active == model.active && after.kernel_root == model.kernel_root
            &&& after.failure == model.failure && after.idle_halts == model.idle_halts
            &&& after.processes.len() == model.processes.len()
            &&& i != next ==> after.processes[i] == model.processes[i]
            &&& after.processes[next as int] == (Process {
                dispatches: one(model.processes[next as int].dispatches),
                ..model.processes[next as int]
            })
            &&& after.context_switches == if changes {
                one(model.context_switches)
            } else {
                model.context_switches
            }
            &&& after.timer_preemptions == if changes && timer {
                one(model.timer_preemptions)
            } else {
                model.timer_preemptions
            }
        }),
{
}

/// A program starts at its entry with empty registers, at the lowest privilege and with interrupts on.
pub proof fn a_program_starts_at_its_entry(entry: u64)
    ensures
        ({
            let frame = initial_frame(entry);
            &&& frame.rip == entry
            &&& frame.cs == 0x33
            &&& frame.cs as int % 4 == 3
            &&& frame.rflags == 0x202
            &&& frame.rax == 0 && frame.rbx == 0 && frame.rcx == 0 && frame.rdx == 0
            &&& frame.rsi == 0 && frame.rdi == 0 && frame.rbp == 0
            &&& frame.r8 == 0 && frame.r9 == 0 && frame.r10 == 0 && frame.r11 == 0
            &&& frame.r12 == 0 && frame.r13 == 0 && frame.r14 == 0 && frame.r15 == 0
            &&& frame.vector == 0 && frame.error_code == 0
        }),
{
}

} // verus!
