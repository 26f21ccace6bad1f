use codexos::interrupts::{TrapFrame, UserFrame, TIMER_VECTOR, USER_SYSCALL_VECTOR};
use codexos::process::{
    syscall, ProbeAction, ProbeState, ProcessError, UserAddressSpace, ERR_INVALID_ARGUMENT,
    ERR_NOT_IMPLEMENTED, KERNEL_WRITE_PROBE_ADDRESS,
};
use codexos::scheduler::gate::{
    abandon_run, begin_run, check_run, run_loaded_processes, run_metrics, run_preemption_gate,
    task_image, EndedRun, FirstTurn, SchedulerRunMetrics, ISOLATION_FAULT_ADDRESS,
};
use codexos::scheduler::state::{
    Process, ProcessState, ScheduleAction, SchedulerState, TrapOutcome, UserContext,
};
use codexos::scheduler::SchedulerError;
use codexos::vm::VmError;

fn space(root: u64) -> UserAddressSpace {
    UserAddressSpace {
        root_phys: root,
        kernel_root_phys: 0x1000,
        entry: 0x4000,
        stack_top: 0x8000,
        code_bytes: 0x100,
        kernel_mapping_supervisor_only: true,
        code_user_read_execute: true,
        stack_user_read_write: true,
    }
}

fn running(count: u64) -> SchedulerState {
    let processes = (0..count)
        .map(|index| Process::from_space(1001 + index, &space(0x2000 + index), 0x9000))
        .collect();
    let mut state = SchedulerState::new();
    state.start(processes, 0x1000);
    state
}

fn frame(vector: u8) -> TrapFrame {
    TrapFrame {
        vector: u64::from(vector),
        ..UserContext::initial(0x4000, 0x8000).frame
    }
}

fn user_frame(frame: TrapFrame) -> UserFrame {
    UserFrame { frame, user_rsp: 0x7ff0, user_ss: 0x2b }
}

#[test]
fn programs_take_turns() {
    let mut state = running(3);
    assert_eq!(state.current, Some(0));
    let mut trap = frame(TIMER_VECTOR);
    assert_eq!(
        state.handle_user_trap(&mut trap, 0, 1),
        TrapOutcome::Schedule { timer: true }
    );
    assert_eq!(state.schedule(&user_frame(trap), 1), ScheduleAction::Enter(1));
    let next = state.enter(1, true);
    assert_eq!(next.pid, 1002);
    assert_eq!(state.timer_preemptions, 1);
    assert_eq!(state.context_switches, 1);
    assert_eq!(state.processes[0].context.stack_pointer, 0x7ff0);
    assert_eq!(state.processes[1].dispatches, 1);
}

#[test]
fn a_fault_ends_only_one_program() {
    let mut state = running(2);
    let mut trap = frame(14);
    trap.error_code = 7;
    assert_eq!(
        state.handle_user_trap(&mut trap, 0xdead, 1),
        TrapOutcome::Schedule { timer: false }
    );
    assert_eq!(
        state.processes[0].state,
        ProcessState::Faulted { vector: 14, address: 0xdead, error_code: 7 }
    );
    assert_eq!(state.processes[1].state, ProcessState::Runnable);
    assert_eq!(state.schedule(&user_frame(trap), 1), ScheduleAction::Enter(1));
}

#[test]
fn sleepers_are_woken() {
    let mut state = running(1);
    let mut trap = frame(USER_SYSCALL_VECTOR);
    trap.rax = syscall::SLEEP;
    trap.rdi = 5;
    state.handle_user_trap(&mut trap, 0, 10);
    assert_eq!(state.processes[0].state, ProcessState::Sleeping { wake_tick: 15 });
    assert!(state.has_sleepers());
    assert_eq!(state.schedule(&user_frame(trap), 11), ScheduleAction::Idle);
    assert_eq!(state.idle(14), ScheduleAction::Idle);
    assert_eq!(state.idle(15), ScheduleAction::Enter(0));
    assert_eq!(state.idle_halts, 2);
}

#[test]
fn system_calls_are_answered() {
    let mut state = running(1);
    let mut call = |number: u64| {
        let mut trap = frame(USER_SYSCALL_VECTOR);
        trap.rax = number;
        state.handle_user_trap(&mut trap, 0, 42);
        trap.rax
    };
    assert_eq!(call(syscall::GETPID), 1001);
    assert_eq!(call(syscall::GETTICKS), 42);
    assert_eq!(call(99), ERR_NOT_IMPLEMENTED);
    let mut trap = frame(USER_SYSCALL_VECTOR);
    trap.rax = syscall::EXIT;
    trap.rdi = 3;
    state.handle_user_trap(&mut trap, 0, 43);
    assert_eq!(state.processes[0].state, ProcessState::Exited(3));
    assert_eq!(state.processes[0].syscalls, 4);
    assert_eq!(state.schedule(&user_frame(trap), 44), ScheduleAction::ReturnToKernel);
}

#[test]
fn contexts_are_kept() {
    let kept = UserContext::capture(&user_frame(frame(TIMER_VECTOR))).unwrap();
    let mut other = user_frame(frame(14));
    other.user_rsp = 1;
    assert!(kept.restore(&mut other));
    assert_eq!(other, user_frame(frame(TIMER_VECTOR)));
    let mut kernel = frame(TIMER_VECTOR);
    kernel.cs = 8;
    assert_eq!(UserContext::capture(&user_frame(kernel)), None);
}

fn ended(processes: &[Process], metrics: SchedulerRunMetrics) -> EndedRun {
    EndedRun { processes: processes.to_vec(), metrics }
}

fn passing() -> (Vec<Process>, SchedulerRunMetrics) {
    let mut state = running(3);
    for (index, process) in state.processes.iter_mut().enumerate() {
        process.dispatches = 2;
        process.state = if index == 1 {
            ProcessState::Faulted {
                vector: 14,
                address: ISOLATION_FAULT_ADDRESS,
                error_code: 7,
            }
        } else {
            ProcessState::Exited(process.pid)
        };
    }
    state.timer_preemptions = 4;
    state.context_switches = 6;
    state.idle_halts = 1;
    let metrics = run_metrics(&state, 100, 130, 50, 68);
    (state.processes, metrics)
}

#[test]
fn a_run_shows_what_it_must() {
    let (processes, metrics) = passing();
    assert_eq!(metrics.minimum_dispatches, 2);
    let report = run_preemption_gate(&ended(&processes, metrics), 50).unwrap();
    assert_eq!(report.process_count, 3);
    assert_eq!(report.timer_ticks, 30);
    assert_eq!(report.reclaimed_pages, 18);
    assert_eq!(report.faulted_pid, 1002);
    assert_eq!(report.fault_address, ISOLATION_FAULT_ADDRESS);
    assert_eq!(
        run_preemption_gate(&ended(&processes, metrics), 51),
        Err(SchedulerError::PhysicalPageLeak { before: 50, after: 51 })
    );
    let mut unfinished = processes.clone();
    unfinished[2].state = ProcessState::Runnable;
    assert_eq!(
        run_preemption_gate(&ended(&unfinished, metrics), 50),
        Err(SchedulerError::ProcessDidNotExit(1003))
    );
    let mut neglected = processes.clone();
    neglected[0].dispatches = 1;
    assert_eq!(
        run_preemption_gate(&ended(&neglected, metrics), 50),
        Err(SchedulerError::FairnessViolation(1001))
    );
    let idle = SchedulerRunMetrics { idle_halts: 0, ..metrics };
    assert_eq!(
        run_preemption_gate(&ended(&processes, idle), 50),
        Err(SchedulerError::IdleNotObserved)
    );
}

#[test]
fn runs_begin_with_the_first_program_and_end_at_rest() {
    let processes = running(2).processes;
    let mut scheduler = SchedulerState::new();
    let refused = begin_run(&mut scheduler, processes.clone(), 0x9000, false).unwrap_err();
    assert_eq!(refused.0, SchedulerError::TimerInactive);
    assert_eq!(refused.1.len(), 2);
    assert!(!scheduler.active);
    let refused = begin_run(&mut scheduler, Vec::new(), 0x9000, true).unwrap_err();
    assert_eq!(refused.0, SchedulerError::ProgramImageInvalid);
    let turn = begin_run(&mut scheduler, processes.clone(), 0x9000, true).unwrap();
    assert_eq!(
        turn,
        FirstTurn {
            root: processes[0].root,
            entry: processes[0].context.frame.rip,
            user_stack: processes[0].context.stack_pointer,
            kernel_stack_top: processes[0].kernel_stack_top,
        }
    );
    assert!(scheduler.active);
    assert_eq!(scheduler.current, Some(0));
    let run = run_loaded_processes(&mut scheduler, 5, 9, 40, 44);
    assert_eq!(run.processes.len(), 2);
    let metrics = run.metrics;
    assert_eq!(metrics.minimum_dispatches, 0);
    assert_eq!((metrics.ticks_before, metrics.ticks_after, metrics.pages_allocated), (5, 9, 44));
    assert!(!scheduler.active && scheduler.current.is_none() && scheduler.processes.is_empty());
    begin_run(&mut scheduler, processes, 0x9000, true).unwrap();
    let (left, error) = abandon_run(&mut scheduler);
    assert_eq!((left.len(), error), (2, SchedulerError::PrivilegeStackUnavailable));
    assert!(!scheduler.active);
}

#[test]
fn runs_need_a_timer_and_programs() {
    assert_eq!(check_run(false, 1), Err(SchedulerError::TimerInactive));
    assert_eq!(check_run(true, 0), Err(SchedulerError::ProgramImageInvalid));
    assert_eq!(check_run(true, 1), Ok(()));
    assert_eq!(task_image(0x1000, 0x1010), Ok(16));
    assert_eq!(task_image(0x1000, 0x1000), Err(SchedulerError::ProgramImageInvalid));
    assert_eq!(task_image(0, 4097), Err(SchedulerError::ProgramImageInvalid));
    assert_eq!(
        SchedulerError::from(VmError::NotInitialized),
        SchedulerError::VirtualMemory(VmError::NotInitialized)
    );
}

#[test]
fn the_probe_passes_by_a_refused_write() {
    let mut probe = ProbeState::new();
    probe.start(&space(0x2000)).unwrap();
    let mut trap = frame(USER_SYSCALL_VECTOR);
    trap.rax = syscall::LOG;
    trap.rdi = 0x4010;
    trap.rsi = 5;
    assert_eq!(
        probe.handle_user_trap(&mut trap, 0),
        ProbeAction::ReadLog { address: 0x4010, length: 5 }
    );
    assert_eq!(ProbeState::finish_log(&mut trap, b"hello"), Some("hello"));
    assert_eq!(trap.rax, 5);
    assert_eq!(ProbeState::finish_log(&mut trap, &[0xff]), None);
    assert_eq!(trap.rax, ERR_INVALID_ARGUMENT);
    let mut fault = frame(14);
    fault.error_code = 7;
    assert_eq!(
        probe.handle_user_trap(&mut fault, KERNEL_WRITE_PROBE_ADDRESS),
        ProbeAction::Terminate
    );
    probe.terminate_user_process(&mut fault, true, 0x1234);
    assert_eq!(fault.rip, 0x1234);
    let report = probe.run_isolation_probe(&space(0x2000), 0x1000).unwrap();
    assert_eq!(report.denied_address, KERNEL_WRITE_PROBE_ADDRESS);
    assert_eq!(report.syscall_count, 1);
    assert_eq!(
        probe.run_isolation_probe(&space(0x2000), 0x2000),
        Err(ProcessError::KernelRootRestoreFailed)
    );
}

#[test]
fn a_probe_that_exits_fails() {
    let mut probe = ProbeState::new();
    probe.start(&space(0x2000)).unwrap();
    let mut trap = frame(USER_SYSCALL_VECTOR);
    trap.rax = syscall::EXIT;
    trap.rdi = 9;
    assert_eq!(probe.handle_user_trap(&mut trap, 0), ProbeAction::Terminate);
    assert_eq!(
        probe.run_isolation_probe(&space(0x2000), 0x1000),
        Err(ProcessError::UnexpectedExit(9))
    );
    let endless = UserAddressSpace { code_bytes: u64::MAX, ..space(0x2000) };
    assert_eq!(
        ProbeState::new().start(&endless),
        Err(ProcessError::ProgramImageInvalid)
    );
}
