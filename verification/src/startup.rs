//! The order in which the kernel starts, and the loop in which it then serves its devices.
//!
//! Both say what is to be done next. Who does it hands back what came of it.

use vstd::prelude::*;
use crate::hardware::{HardwareSummary, PciAddress};
use crate::input::{DesktopInput, PointerSample, Ps2Event};
use crate::kernel_image::{
    binding_matches, check_inventory, reports_pointer_event, InventoryFault, POINTER_EVENT_REPORTS,
};

verus! {

/// Why the kernel halts.
#[derive(Debug, Clone, Copy, PartialEq, Eq, Structural)]
pub enum HaltReason {
    BootInfoMissing,
    Runtime,
    Isolation,
    Inventory(InventoryFault),
    Disk,
    DiskBinding,
    Filesystem,
    Network,
    NetworkBinding,
    Interrupts,
    Scheduler,
    PersistentExecutable,
    NetworkRuntime,
    DesktopExit,
}

/// What is done while the kernel starts.
#[derive(Debug, Clone, Copy, PartialEq, Eq, Structural)]
pub enum StartupStep {
    InitializeRuntime,
    RenderDesktop,
    ProbeIsolation,
    ScanHardware,
    DiscoverDisk,
    StartFilesystem,
    ConfigureNetwork,
    ActivateInterrupts,
    VerifyScheduler,
    RunPersistentExecutable,
    InitializeInput,
    Serve,
    Halt(HaltReason),
}

/// What came of a step.
#[derive(Debug, Clone, Copy, PartialEq, Eq, Structural)]
pub enum StartupOutcome {
    Done,
    Failed,
    /// What is on the bus.
    Scanned(HardwareSummary),
    /// Where a driver has found its device.
    Found { bus: u8, device: u8, function: u8 },
}

/// A kernel that starts.
#[derive(Debug, Clone, Copy, PartialEq, Eq, Structural)]
pub struct Startup {
    pub step: StartupStep,
    /// Whether this machine runs user programs.
    pub programs: bool,
    /// Where the inventory has the disk.
    pub block: Option<PciAddress>,
    /// Where the inventory has the network.
    pub network: Option<PciAddress>,
}

impl StartupStep {
    /// How far a step is from the end.
    pub open spec fn remaining(self) -> nat {
        match self {
            StartupStep::InitializeRuntime => 12,
            StartupStep::RenderDesktop => 11,
            StartupStep::ProbeIsolation => 10,
            StartupStep::ScanHardware => 9,
            StartupStep::DiscoverDisk => 8,
            StartupStep::StartFilesystem => 7,
            StartupStep::ConfigureNetwork => 6,
            StartupStep::ActivateInterrupts => 5,
            StartupStep::VerifyScheduler => 4,
            StartupStep::RunPersistentExecutable => 3,
            StartupStep::InitializeInput => 2,
            StartupStep::Serve => 0,
            StartupStep::Halt(_) => 0,
        }
    }

    /// The start is over.
    pub open spec fn over(self) -> bool {
        self is Serve || self is Halt
    }
}

/// The step that follows one that went well.
pub open spec fn following(step: StartupStep, programs: bool) -> StartupStep {
    match step {
        StartupStep::InitializeRuntime => StartupStep::RenderDesktop,
        StartupStep::RenderDesktop => if programs {
            StartupStep::ProbeIsolation
        } else {
            StartupStep::ScanHardware
        },
        StartupStep::ProbeIsolation => StartupStep::ScanHardware,
        StartupStep::ScanHardware => StartupStep::DiscoverDisk,
        StartupStep::DiscoverDisk => StartupStep::StartFilesystem,
        StartupStep::StartFilesystem => StartupStep::ConfigureNetwork,
        StartupStep::ConfigureNetwork => StartupStep::ActivateInterrupts,
        StartupStep::ActivateInterrupts => if programs {
            StartupStep::VerifyScheduler
        } else {
            StartupStep::InitializeInput
        },
        StartupStep::VerifyScheduler => StartupStep::RunPersistentExecutable,
        StartupStep::RunPersistentExecutable => StartupStep::InitializeInput,
        StartupStep::InitializeInput => StartupStep::Serve,
        StartupStep::Serve => StartupStep::Serve,
        StartupStep::Halt(reason) => StartupStep::Halt(reason),
    }
}

/// A driver has found the device that the inventory has.
pub open spec fn found_at(outcome: StartupOutcome, expected: Option<PciAddress>) -> bool {
    outcome matches StartupOutcome::Found { bus, device, function } && expected == Some(
        PciAddress { bus, device, function },
    )
}

/// Why the kernel halts after a step, if it does: the runtime, a check, a driver or the filesystem
/// has failed, a device is missing, or a driver runs another device than the inventory has.
pub open spec fn halted_by(startup: Startup, outcome: StartupOutcome) -> Option<HaltReason> {
    let failed = outcome == StartupOutcome::Failed;
    match startup.step {
        StartupStep::InitializeRuntime if failed => Some(HaltReason::Runtime),
        StartupStep::ProbeIsolation if failed => Some(HaltReason::Isolation),
        StartupStep::ScanHardware => match outcome {
            StartupOutcome::Scanned(summary) => if summary.virtio_block is None {
                Some(
                    HaltReason::Inventory(
                        InventoryFault::NoBlockDevice { network: summary.virtio_net is Some },
                    ),
                )
            } else if summary.virtio_net is None {
                Some(HaltReason::Inventory(InventoryFault::NoNetworkDevice))
            } else {
                None
            },
            _ => Some(HaltReason::Inventory(InventoryFault::NoBlockDevice { network: false })),
        },
        StartupStep::DiscoverDisk => if !(outcome is Found) {
            Some(HaltReason::Disk)
        } else if !found_at(outcome, startup.block) {
            Some(HaltReason::DiskBinding)
        } else {
            None
        },
        StartupStep::StartFilesystem if failed => Some(HaltReason::Filesystem),
        StartupStep::ConfigureNetwork => if !(outcome is Found) {
            Some(HaltReason::Network)
        } else if !found_at(outcome, startup.network) {
            Some(HaltReason::NetworkBinding)
        } else {
            None
        },
        StartupStep::ActivateInterrupts if failed => Some(HaltReason::Interrupts),
        StartupStep::VerifyScheduler if failed => Some(HaltReason::Scheduler),
        StartupStep::RunPersistentExecutable if failed => Some(HaltReason::PersistentExecutable),
        _ => None,
    }
}

/// The kernel after a step.
pub open spec fn after_step(startup: Startup, outcome: StartupOutcome) -> Startup {
    match halted_by(startup, outcome) {
        Some(reason) => Startup { step: StartupStep::Halt(reason), ..startup },
        None => {
            let next = Startup { step: following(startup.step, startup.programs), ..startup };
            match (startup.step, outcome) {
                (StartupStep::ScanHardware, StartupOutcome::Scanned(summary)) => Startup {
                    block: summary.virtio_block,
                    network: summary.virtio_net,
                    ..next
                },
                _ => next,
            }
        },
    }
}

impl Startup {
    /// Once the hardware was looked through, it is known where the disk and the network are.
    pub open spec fn well_formed(self) -> bool {
        !(self.step is Halt) && self.step.remaining() < StartupStep::ScanHardware.remaining()
            ==> self.block is Some && self.network is Some
    }

    /// The kernel was entered, with or without a description of the machine.
    pub fn new(boot_info: bool, programs: bool) -> (startup: Startup)
        ensures
            startup.well_formed(),
            startup.step == if boot_info {
                StartupStep::InitializeRuntime
            } else {
                StartupStep::Halt(HaltReason::BootInfoMissing)
            },
            startup.programs == programs,
            startup.block is None && startup.network is None,
    {
        Startup {
            step: if boot_info {
                StartupStep::InitializeRuntime
            } else {
                StartupStep::Halt(HaltReason::BootInfoMissing)
            },
            programs,
            block: None,
            network: None,
        }
    }

    fn next(&self) -> (step: StartupStep)
        ensures
            step == following(self.step, self.programs),
    {
        match self.step {
            StartupStep::InitializeRuntime => StartupStep::RenderDesktop,
            StartupStep::RenderDesktop => if self.programs {
                StartupStep::ProbeIsolation
            } else {
                StartupStep::ScanHardware
            },
            StartupStep::ProbeIsolation => StartupStep::ScanHardware,
            StartupStep::ScanHardware => StartupStep::DiscoverDisk,
            StartupStep::DiscoverDisk => StartupStep::StartFilesystem,
            StartupStep::StartFilesystem => StartupStep::ConfigureNetwork,
            StartupStep::ConfigureNetwork => StartupStep::ActivateInterrupts,
            StartupStep::ActivateInterrupts => if self.programs {
                StartupStep::VerifyScheduler
            } else {
                StartupStep::InitializeInput
            },
            StartupStep::VerifyScheduler => StartupStep::RunPersistentExecutable,
            StartupStep::RunPersistentExecutable => StartupStep::InitializeInput,
            StartupStep::InitializeInput => StartupStep::Serve,
            StartupStep::Serve => StartupStep::Serve,
            StartupStep::Halt(reason) => StartupStep::Halt(reason),
        }
    }

    fn failure(&self) -> (reason: Option<HaltReason>)
        ensures
            !(self.step is ScanHardware) ==> reason == halted_by(*self, StartupOutcome::Failed),
    {
        match self.step {
            StartupStep::InitializeRuntime => Some(HaltReason::Runtime),
            StartupStep::ProbeIsolation => Some(HaltReason::Isolation),
            StartupStep::DiscoverDisk => Some(HaltReason::Disk),
            StartupStep::StartFilesystem => Some(HaltReason::Filesystem),
            StartupStep::ConfigureNetwork => Some(HaltReason::Network),
            StartupStep::ActivateInterrupts => Some(HaltReason::Interrupts),
            StartupStep::VerifyScheduler => Some(HaltReason::Scheduler),
            StartupStep::RunPersistentExecutable => Some(HaltReason::PersistentExecutable),
            _ => None,
        }
    }

    /// Takes what came of the step.
    pub fn finish_step(&mut self, outcome: StartupOutcome)
        requires
            old(self).well_formed(),
        ensures
            *final(self) == after_step(*old(self), outcome),
            final(self).well_formed(),
    {
        let halt: Option<HaltReason> = match (self.step, outcome) {
            (StartupStep::ScanHardware, StartupOutcome::Scanned(summary)) => {
                match check_inventory(&summary) {
                    Ok(found) => {
                        self.block = Some(found.0);
                        self.network = Some(found.1);
                        None
                    },
                    Err(fault) => Some(HaltReason::Inventory(fault)),
                }
            },
            (StartupStep::ScanHardware, _) => Some(
                HaltReason::Inventory(InventoryFault::NoBlockDevice { network: false }),
            ),
            (StartupStep::DiscoverDisk, StartupOutcome::Found { bus, device, function }) => {
                if binding_matches(self.block, bus, device, function) {
                    None
                } else {
                    Some(HaltReason::DiskBinding)
                }
            },
            (StartupStep::ConfigureNetwork, StartupOutcome::Found { bus, device, function }) => {
                if binding_matches(self.network, bus, device, function) {
                    None
                } else {
                    Some(HaltReason::NetworkBinding)
                }
            },
            (StartupStep::DiscoverDisk, _) => Some(HaltReason::Disk),
            (StartupStep::ConfigureNetwork, _) => Some(HaltReason::Network),
            (_, StartupOutcome::Failed) => self.failure(),
            _ => None,
        };
        self.step = match halt {
            Some(reason) => StartupStep::Halt(reason),
            None => self.next(),
        };
    }
}

/// The kernel after the first `n` outcomes.
pub open spec fn after_steps(startup: Startup, outcomes: Seq<StartupOutcome>, n: nat) -> Startup
    decreases n,
{
    if n == 0 {
        startup
    } else {
        after_step(after_steps(startup, outcomes, (n - 1) as nat), outcomes[n - 1])
    }
}

/// Starting goes forward: every step brings the kernel nearer to serving or to a halt, and from there it
/// goes nowhere else.
pub proof fn a_start_goes_forward(startup: Startup, outcome: StartupOutcome)
    ensures
        ({
            let next = after_step(startup, outcome);
            if startup.step.over() {
                next == startup
            } else {
                next.step.remaining() < startup.step.remaining()
            }
        }),
{
}

/// What a kernel that serves has gone through.
pub open spec fn passed(
    startup: Startup,
    outcomes: Seq<StartupOutcome>,
    step: StartupStep,
    at: nat,
) -> bool {
    &&& after_steps(startup, outcomes, at).step == step
    &&& halted_by(after_steps(startup, outcomes, at), outcomes[at as int]) is None
}

/// A step that lies behind the kernel was passed.
proof fn lemma_passed(
    startup: Startup,
    outcomes: Seq<StartupOutcome>,
    n: nat,
    step: StartupStep,
) -> (at: nat)
    requires
        startup.step == StartupStep::InitializeRuntime,
        n <= outcomes.len(),
        !(after_steps(startup, outcomes, n).step is Halt),
        after_steps(startup, outcomes, n).step.remaining() < step.remaining(),
        !(step is Halt) && !(step is Serve),
        startup.programs || !(step is ProbeIsolation || step is VerifyScheduler
            || step is RunPersistentExecutable),
    ensures
        at < n,
        passed(startup, outcomes, step, at),
    decreases n,
{
    let before = after_steps(startup, outcomes, (n - 1) as nat);
    lemma_programs_stay(startup, outcomes, (n - 1) as nat);
    if before.step == step {
        (n - 1) as nat
    } else {
        lemma_passed(startup, outcomes, (n - 1) as nat, step)
    }
}

proof fn lemma_programs_stay(startup: Startup, outcomes: Seq<StartupOutcome>, n: nat)
    ensures
        after_steps(startup, outcomes, n).programs == startup.programs,
    decreases n,
{
    if n > 0 {
        lemma_programs_stay(startup, outcomes, (n - 1) as nat);
    }
}

/// A kernel serves only after every step that its machine asks for, in particular every check, was
/// taken and passed.
pub proof fn a_serving_kernel_has_passed_every_check(
    startup: Startup,
    outcomes: Seq<StartupOutcome>,
    n: nat,
    step: StartupStep,
)
    requires
        startup.step == StartupStep::InitializeRuntime,
        n <= outcomes.len(),
        after_steps(startup, outcomes, n).step == StartupStep::Serve,
        !step.over(),
        startup.programs || !(step is ProbeIsolation || step is VerifyScheduler
            || step is RunPersistentExecutable),
    ensures
        exists|at: nat| at < n && #[trigger] passed(startup, outcomes, step, at),
{
    let at = lemma_passed(startup, outcomes, n, step);
    assert(passed(startup, outcomes, step, at));
}

/// What is done while the kernel serves its devices.
#[derive(Debug, Clone, Copy, PartialEq, Eq, Structural)]
pub enum ServeStep {
    /// Asks for an event of the keyboard or the mouse.
    PollInput,
    HandleKey(DesktopInput),
    /// Moves the pointer, and reports it or not.
    HandlePointer { sample: PointerSample, report: bool },
    PollNetwork,
    /// Asks whether the desktop is to be drawn again.
    AskRedraw,
    Redraw,
    /// Asks whether the desktop is to be left.
    AskExit,
    WaitForInterrupt,
    Halt(HaltReason),
}

/// What came of it.
#[derive(Debug, Clone, Copy, PartialEq, Eq, Structural)]
pub enum ServeOutcome {
    Done,
    Failed,
    Input(Option<Ps2Event>),
    /// The network was polled: whether a frame came.
    Polled { received_frame: bool },
    Answer(bool),
}

/// A kernel that serves its devices.
#[derive(Debug, Clone, Copy, PartialEq, Eq, Structural)]
pub struct Service {
    pub step: ServeStep,
    /// Whether anything came in since the last wait or round.
    pub received: bool,
    /// How many events of the mouse were reported.
    pub reported: u8,
}

/// The kernel after a step of serving. Input is taken until there is no more, then the network is
/// polled once, the desktop is drawn where it has changed, and the kernel waits if nothing came.
pub open spec fn after_service(service: Service, outcome: ServeOutcome) -> Service {
    match (service.step, outcome) {
        (ServeStep::PollInput, ServeOutcome::Input(Some(Ps2Event::Keyboard(input)))) => Service {
            step: ServeStep::HandleKey(input),
            received: true,
            ..service
        },
        (ServeStep::PollInput, ServeOutcome::Input(Some(Ps2Event::Pointer(sample)))) => {
            let report = service.reported < POINTER_EVENT_REPORTS;
            Service {
                step: ServeStep::HandlePointer { sample, report },
                received: true,
                reported: if report {
                    (service.reported + 1) as u8
                } else {
                    service.reported
                },
            }
        },
        (ServeStep::PollInput, _) => Service { step: ServeStep::PollNetwork, ..service },
        (ServeStep::HandleKey(_), _) => Service { step: ServeStep::PollInput, ..service },
        (ServeStep::HandlePointer { .. }, _) => Service { step: ServeStep::PollInput, ..service },
        (ServeStep::PollNetwork, ServeOutcome::Polled { received_frame }) => Service {
            step: ServeStep::AskRedraw,
            received: service.received || received_frame,
            ..service
        },
        (ServeStep::PollNetwork, _) => Service {
            step: ServeStep::Halt(HaltReason::NetworkRuntime),
            ..service
        },
        (ServeStep::AskRedraw, outcome) => Service {
            step: if outcome == ServeOutcome::Answer(true) {
                ServeStep::Redraw
            } else {
                ServeStep::AskExit
            },
            ..service
        },
        (ServeStep::Redraw, _) => Service { step: ServeStep::AskExit, ..service },
        (ServeStep::AskExit, outcome) => if outcome == ServeOutcome::Answer(true) {
            Service { step: ServeStep::Halt(HaltReason::DesktopExit), ..service }
        } else if service.received {
            Service { step: ServeStep::PollInput, received: false, ..service }
        } else {
            Service { step: ServeStep::WaitForInterrupt, ..service }
        },
        (ServeStep::WaitForInterrupt, _) => Service {
            step: ServeStep::PollInput,
            received: false,
            ..service
        },
        (ServeStep::Halt(_), _) => service,
    }
}

impl Service {
    pub fn new() -> (service: Service)
        ensures
            service == (Service { step: ServeStep::PollInput, received: false, reported: 0 }),
    {
        Service { step: ServeStep::PollInput, received: false, reported: 0 }
    }

    /// Takes what came of the step.
    pub fn finish_step(&mut self, outcome: ServeOutcome)
        ensures
            *final(self) == after_service(*old(self), outcome),
    {
        self.step = match (self.step, outcome) {
            (ServeStep::PollInput, ServeOutcome::Input(Some(event))) => {
                self.received = true;
                match event {
                    Ps2Event::Keyboard(input) => ServeStep::HandleKey(input),
                    Ps2Event::Pointer(sample) => {
                        let report = reports_pointer_event(&mut self.reported);
                        ServeStep::HandlePointer { sample, report }
                    },
                }
            },
            (ServeStep::PollInput, _) => ServeStep::PollNetwork,
            (ServeStep::HandleKey(_), _) => ServeStep::PollInput,
            (ServeStep::HandlePointer { .. }, _) => ServeStep::PollInput,
            (ServeStep::PollNetwork, ServeOutcome::Polled { received_frame }) => {
                if received_frame {
                    self.received = true;
                }
                ServeStep::AskRedraw
            },
            (ServeStep::PollNetwork, _) => ServeStep::Halt(HaltReason::NetworkRuntime),
            (ServeStep::AskRedraw, ServeOutcome::Answer(true)) => ServeStep::Redraw,
            (ServeStep::AskRedraw, _) => ServeStep::AskExit,
            (ServeStep::Redraw, _) => ServeStep::AskExit,
            (ServeStep::AskExit, ServeOutcome::Answer(true)) => ServeStep::Halt(
                HaltReason::DesktopExit,
            ),
            (ServeStep::AskExit, _) => if self.received {
                self.received = false;
                ServeStep::PollInput
            } else {
                ServeStep::WaitForInterrupt
            },
            (ServeStep::WaitForInterrupt, _) => {
                self.received = false;
                ServeStep::PollInput
            },
            (ServeStep::Halt(reason), _) => ServeStep::Halt(reason),
        };
    }
}

/// The kernel after the first `n` outcomes.
pub open spec fn after_services(service: Service, outcomes: Seq<ServeOutcome>, n: nat) -> Service
    decreases n,
{
    if n == 0 {
        service
    } else {
        after_service(after_services(service, outcomes, (n - 1) as nat), outcomes[n - 1])
    }
}

/// Something came in: an event, or a frame.
pub open spec fn brought_something(service: Service, outcome: ServeOutcome) -> bool {
    ||| service.step is PollInput && outcome matches ServeOutcome::Input(Some(_))
    ||| service.step is PollNetwork && outcome == ServeOutcome::Polled { received_frame: true }
}

/// A round of serving starts.
pub open spec fn starts_a_round(service: Service) -> bool {
    service.step is PollInput && !service.received
}

/// A kernel waits for an interrupt only at the end of a round in which neither an event nor a frame came.
pub proof fn a_kernel_waits_only_when_idle(service: Service, outcomes: Seq<ServeOutcome>, n: nat)
    requires
        starts_a_round(service),
        after_services(service, outcomes, n).step is WaitForInterrupt,
        forall|i: nat|
            0 < i < n ==> !starts_a_round(#[trigger] after_services(service, outcomes, i)),
    ensures
        forall|i: nat|
            i < n ==> !brought_something(
                #[trigger] after_services(service, outcomes, i),
                outcomes[i as int],
            ),
{
    lemma_nothing_received(service, outcomes, n);
}

proof fn lemma_nothing_received(service: Service, outcomes: Seq<ServeOutcome>, n: nat)
    requires
        forall|i: nat|
            0 < i < n ==> !starts_a_round(#[trigger] after_services(service, outcomes, i)),
        !after_services(service, outcomes, n).received,
        !(after_services(service, outcomes, n).step is PollInput) || n == 0,
    ensures
        forall|i: nat|
            i < n ==> !brought_something(
                #[trigger] after_services(service, outcomes, i),
                outcomes[i as int],
            ),
    decreases n,
{
    if n > 0 {
        let m = (n - 1) as nat;
        let before = after_services(service, outcomes, m);
        assert(after_services(service, outcomes, n) == after_service(before, outcomes[m as int]));
        assert(m > 0 ==> !starts_a_round(before));
        assert(!before.received);
        assert(m == 0 || !(before.step is PollInput));
        lemma_nothing_received(service, outcomes, m);
    }
}

/// A start in which every step succeeds takes all of them, in order, those for user programs only where
/// there are any.
pub proof fn a_start_takes_every_step_in_order(programs: bool)
    ensures
        ({
            let next = |step: StartupStep| following(step, programs);
            &&& next(StartupStep::InitializeRuntime) == StartupStep::RenderDesktop
            &&& next(StartupStep::RenderDesktop) == if programs {
                StartupStep::ProbeIsolation
            } else {
                StartupStep::ScanHardware
            }
            &&& next(StartupStep::ProbeIsolation) == StartupStep::ScanHardware
            &&& next(StartupStep::ScanHardware) == StartupStep::DiscoverDisk
            &&& next(StartupStep::DiscoverDisk) == StartupStep::StartFilesystem
            &&& next(StartupStep::StartFilesystem) == StartupStep::ConfigureNetwork
            &&& next(StartupStep::ConfigureNetwork) == StartupStep::ActivateInterrupts
            &&& next(StartupStep::ActivateInterrupts) == if programs {
                StartupStep::VerifyScheduler
            } else {
                StartupStep::InitializeInput
            }
            &&& next(StartupStep::VerifyScheduler) == StartupStep::RunPersistentExecutable
            &&& next(StartupStep::RunPersistentExecutable) == StartupStep::InitializeInput
            &&& next(StartupStep::InitializeInput) == StartupStep::Serve
        }),
{
}

/// A step that fails halts the kernel and says which it was, except for the desktop and the input, without
/// which it goes on.
pub proof fn a_failed_step_halts_the_kernel(startup: Startup)
    ensures
        ({
            let halt = |reason: HaltReason|
                after_step(startup, StartupOutcome::Failed) == (Startup {
                    step: StartupStep::Halt(reason),
                    ..startup
                });
            &&& startup.step is InitializeRuntime ==> halt(HaltReason::Runtime)
            &&& startup.step is ProbeIsolation ==> halt(HaltReason::Isolation)
            &&& startup.step is ScanHardware ==> halt(
                HaltReason::Inventory(InventoryFault::NoBlockDevice { network: false }),
            )
            &&& startup.step is DiscoverDisk ==> halt(HaltReason::Disk)
            &&& startup.step is StartFilesystem ==> halt(HaltReason::Filesystem)
            &&& startup.step is ConfigureNetwork ==> halt(HaltReason::Network)
            &&& startup.step is ActivateInterrupts ==> halt(HaltReason::Interrupts)
            &&& startup.step is VerifyScheduler ==> halt(HaltReason::Scheduler)
            &&& startup.step is RunPersistentExecutable ==> halt(HaltReason::PersistentExecutable)
            &&& startup.step is RenderDesktop || startup.step is InitializeInput ==> !(after_step(
                startup,
                StartupOutcome::Failed,
            ).step is Halt)
        }),
{
}

/// The kernel needs a disk and a network on the bus, and the drivers must find those that the inventory
/// has.
pub proof fn drivers_find_what_the_inventory_has(
    startup: Startup,
    summary: HardwareSummary,
    bus: u8,
    device: u8,
    function: u8,
)
    ensures
        startup.step is ScanHardware ==> ({
            let next = after_step(startup, StartupOutcome::Scanned(summary));
            if summary.virtio_block is Some && summary.virtio_net is Some {
                next.step is DiscoverDisk && next.block == summary.virtio_block && next.network
                    == summary.virtio_net
            } else {
                next.step is Halt
            }
        }),
        startup.step is DiscoverDisk ==> ({
            let next = after_step(startup, StartupOutcome::Found { bus, device, function });
            next.step == if startup.block == Some(PciAddress { bus, device, function }) {
                StartupStep::StartFilesystem
            } else {
                StartupStep::Halt(HaltReason::DiskBinding)
            }
        }),
        startup.step is ConfigureNetwork ==> ({
            let next = after_step(startup, StartupOutcome::Found { bus, device, function });
            next.step == if startup.network == Some(PciAddress { bus, device, function }) {
                StartupStep::ActivateInterrupts
            } else {
                StartupStep::Halt(HaltReason::NetworkBinding)
            }
        }),
{
}

/// A round of the kernel: whatever came in is handled, the network is polled, the desktop is drawn if it
/// asks for it and left if it asks for that, and the kernel waits only if nothing came.
pub proof fn a_round_serves_everyone(service: Service, input: DesktopInput, sample: PointerSample)
    ensures
        ({
            let at = |step: ServeStep| Service { step, ..service };
            let nothing = ServeOutcome::Input(None);
            &&& after_service(at(ServeStep::PollInput), ServeOutcome::Input(Some(Ps2Event::Keyboard(input))))
                == (Service { step: ServeStep::HandleKey(input), received: true, ..service })
            &&& after_service(
                at(ServeStep::PollInput),
                ServeOutcome::Input(Some(Ps2Event::Pointer(sample))),
            ).step == (ServeStep::HandlePointer { sample, report: service.reported < 4 })
            &&& after_service(at(ServeStep::PollInput), nothing) == at(ServeStep::PollNetwork)
            &&& after_service(at(ServeStep::HandleKey(input)), ServeOutcome::Done) == at(
                ServeStep::PollInput,
            )
            &&& after_service(
                at(ServeStep::PollNetwork),
                ServeOutcome::Polled { received_frame: true },
            ) == (Service { step: ServeStep::AskRedraw, received: true, ..service })
            &&& after_service(
                at(ServeStep::PollNetwork),
                ServeOutcome::Polled { received_frame: false },
            ) == at(ServeStep::AskRedraw)
            &&& after_service(at(ServeStep::PollNetwork), ServeOutcome::Failed) == at(
                ServeStep::Halt(HaltReason::NetworkRuntime),
            )
            &&& after_service(at(ServeStep::AskRedraw), ServeOutcome::Answer(true)) == at(
                ServeStep::Redraw,
            )
            &&& after_service(at(ServeStep::AskRedraw), ServeOutcome::Answer(false)) == at(
                ServeStep::AskExit,
            )
            &&& after_service(at(ServeStep::Redraw), ServeOutcome::Done) == at(ServeStep::AskExit)
            &&& after_service(at(ServeStep::AskExit), ServeOutcome::Answer(true)) == at(
                ServeStep::Halt(HaltReason::DesktopExit),
            )
            &&& after_service(at(ServeStep::AskExit), ServeOutcome::Answer(false)) == if service.received {
                Service { step: ServeStep::PollInput, received: false, ..service }
            } else {
                at(ServeStep::WaitForInterrupt)
            }
            &&& after_service(at(ServeStep::WaitForInterrupt), ServeOutcome::Done) == (Service {
                step: ServeStep::PollInput,
                received: false,
                ..service
            })
        }),
{
}

} // verus!
