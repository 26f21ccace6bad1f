use codexos::hardware::{HardwareSummary, PciAddress};
use codexos::input::{DesktopInput, PointerSample, Ps2Event};
use codexos::kernel_image::InventoryFault;
use codexos::startup::{
    HaltReason, ServeOutcome, ServeStep, Service, Startup, StartupOutcome, StartupStep,
};

fn summary(block: Option<PciAddress>, net: Option<PciAddress>) -> HardwareSummary {
    HardwareSummary {
        pci_devices: 4,
        overflow: false,
        bridge_devices: 1,
        storage_controllers: 1,
        network_controllers: 1,
        display_controllers: 1,
        usb_controllers: 0,
        input_controllers: 0,
        io_bar_devices: 2,
        virtio_legacy_devices: 2,
        virtio_block: block,
        virtio_net: net,
    }
}

fn address(device: u8) -> PciAddress {
    PciAddress { bus: 0, device, function: 0 }
}

fn found(device: u8) -> StartupOutcome {
    StartupOutcome::Found { bus: 0, device, function: 0 }
}

fn scanned() -> StartupOutcome {
    StartupOutcome::Scanned(summary(Some(address(3)), Some(address(4))))
}

#[test]
fn a_kernel_takes_every_step_before_it_serves() {
    let mut startup = Startup::new(true, true);
    let run = [
        (StartupStep::InitializeRuntime, StartupOutcome::Done),
        (StartupStep::RenderDesktop, StartupOutcome::Done),
        (StartupStep::ProbeIsolation, StartupOutcome::Done),
        (StartupStep::ScanHardware, scanned()),
        (StartupStep::DiscoverDisk, found(3)),
        (StartupStep::StartFilesystem, StartupOutcome::Done),
        (StartupStep::ConfigureNetwork, found(4)),
        (StartupStep::ActivateInterrupts, StartupOutcome::Done),
        (StartupStep::VerifyScheduler, StartupOutcome::Done),
        (StartupStep::RunPersistentExecutable, StartupOutcome::Done),
        (StartupStep::InitializeInput, StartupOutcome::Done),
    ];
    for (step, outcome) in run {
        assert_eq!(startup.step, step);
        startup.finish_step(outcome);
    }
    assert_eq!(startup.step, StartupStep::Serve);
    startup.finish_step(StartupOutcome::Failed);
    assert_eq!(startup.step, StartupStep::Serve);
}

fn halted(outcomes: &[StartupOutcome]) -> HaltReason {
    let mut startup = Startup::new(true, true);
    for outcome in outcomes {
        startup.finish_step(*outcome);
    }
    match startup.step {
        StartupStep::Halt(reason) => reason,
        step => panic!("not halted at {step:?}"),
    }
}

#[test]
fn a_kernel_halts_on_the_first_failure() {
    assert_eq!(Startup::new(false, true).step, StartupStep::Halt(HaltReason::BootInfoMissing));
    let (done, failed) = (StartupOutcome::Done, StartupOutcome::Failed);
    assert_eq!(halted(&[failed]), HaltReason::Runtime);
    assert_eq!(halted(&[done, done, failed]), HaltReason::Isolation);
    assert_eq!(
        halted(&[done, done, done, StartupOutcome::Scanned(summary(None, Some(address(4))))]),
        HaltReason::Inventory(InventoryFault::NoBlockDevice { network: true })
    );
    assert_eq!(
        halted(&[done, done, done, StartupOutcome::Scanned(summary(Some(address(3)), None))]),
        HaltReason::Inventory(InventoryFault::NoNetworkDevice)
    );
    let ready = [done, done, done, scanned()];
    assert_eq!(halted(&[&ready[..], &[failed]].concat()), HaltReason::Disk);
    assert_eq!(halted(&[&ready[..], &[found(4)]].concat()), HaltReason::DiskBinding);
    assert_eq!(halted(&[&ready[..], &[found(3), failed]].concat()), HaltReason::Filesystem);
    let stored = [&ready[..], &[found(3), done]].concat();
    assert_eq!(halted(&[&stored[..], &[failed]].concat()), HaltReason::Network);
    assert_eq!(halted(&[&stored[..], &[found(3)]].concat()), HaltReason::NetworkBinding);
    let connected = [&stored[..], &[found(4)]].concat();
    assert_eq!(halted(&[&connected[..], &[failed]].concat()), HaltReason::Interrupts);
    assert_eq!(halted(&[&connected[..], &[done, failed]].concat()), HaltReason::Scheduler);
    assert_eq!(
        halted(&[&connected[..], &[done, done, failed]].concat()),
        HaltReason::PersistentExecutable
    );
}

#[test]
fn a_machine_without_user_programs_leaves_their_checks_out() {
    let mut startup = Startup::new(true, false);
    startup.finish_step(StartupOutcome::Done);
    startup.finish_step(StartupOutcome::Done);
    assert_eq!(startup.step, StartupStep::ScanHardware);
    startup.finish_step(scanned());
    startup.finish_step(found(3));
    startup.finish_step(StartupOutcome::Done);
    startup.finish_step(found(4));
    startup.finish_step(StartupOutcome::Done);
    assert_eq!(startup.step, StartupStep::InitializeInput);
}

#[test]
fn an_idle_kernel_waits() {
    let mut service = Service::new();
    service.finish_step(ServeOutcome::Input(None));
    assert_eq!(service.step, ServeStep::PollNetwork);
    service.finish_step(ServeOutcome::Polled { received_frame: false });
    service.finish_step(ServeOutcome::Answer(false));
    service.finish_step(ServeOutcome::Answer(false));
    assert_eq!(service.step, ServeStep::WaitForInterrupt);
    service.finish_step(ServeOutcome::Done);
    assert_eq!(service, Service::new());
}

#[test]
fn a_busy_kernel_goes_on() {
    let sample = PointerSample { delta_x: 1, delta_y: -1, left_button: true, right_button: false };
    let mut service = Service::new();
    for count in 0..6 {
        service.finish_step(ServeOutcome::Input(Some(Ps2Event::Pointer(sample))));
        assert_eq!(service.step, ServeStep::HandlePointer { sample, report: count < 4 });
        service.finish_step(ServeOutcome::Done);
    }
    service.finish_step(ServeOutcome::Input(Some(Ps2Event::Keyboard(DesktopInput::Submit))));
    assert_eq!(service.step, ServeStep::HandleKey(DesktopInput::Submit));
    service.finish_step(ServeOutcome::Done);
    service.finish_step(ServeOutcome::Input(None));
    service.finish_step(ServeOutcome::Polled { received_frame: false });
    assert_eq!(service.step, ServeStep::AskRedraw);
    service.finish_step(ServeOutcome::Answer(true));
    assert_eq!(service.step, ServeStep::Redraw);
    service.finish_step(ServeOutcome::Done);
    service.finish_step(ServeOutcome::Answer(false));
    assert_eq!(service, Service { step: ServeStep::PollInput, received: false, reported: 4 });

    service.finish_step(ServeOutcome::Input(None));
    let mut broken = service;
    broken.finish_step(ServeOutcome::Failed);
    assert_eq!(broken.step, ServeStep::Halt(HaltReason::NetworkRuntime));
    service.finish_step(ServeOutcome::Polled { received_frame: true });
    service.finish_step(ServeOutcome::Answer(false));
    let mut left = service;
    left.finish_step(ServeOutcome::Answer(true));
    assert_eq!(left.step, ServeStep::Halt(HaltReason::DesktopExit));
    service.finish_step(ServeOutcome::Answer(false));
    assert_eq!(service.step, ServeStep::PollInput);
}
