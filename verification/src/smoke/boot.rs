//! What the log of a boot must say, by what was booted.

use vstd::prelude::*;
use crate::smoke::fields::LogFault;
use crate::smoke::reports::{
    counter_report, filesystem_fault, hardware_fault, has_applied_kernel_relocations, network_fault,
    persistence_counter, persistent_executable_fault, pointer_driver_fault, relocations_applied,
    validate_filesystem_log, validate_hardware_log, validate_network_log,
    validate_persistent_executable_log, validate_pointer_driver_log,
};
use crate::text::{characters, contains, first_missing, missing_part, occurs, texts};

verus! {

/// What the loader was built to do.
#[derive(Debug, Clone, Copy, PartialEq, Eq, Structural)]
pub enum LoaderMode {
    Interactive,
    Handoff,
    Chainload,
}

/// Why the log of a boot does not show what it must.
#[derive(Debug, Clone, Copy, PartialEq, Eq, Structural)]
pub enum BootLogFault {
    TargetNotReached,
    /// One of the parts that every log must have is missing.
    Kernel(usize),
    Panicked,
    /// One of the parts that the log of a hand-over must have is missing.
    Handoff(usize),
    /// One of the parts that the log must have after the firmware was left is missing.
    PostExit(usize),
    /// One of the parts that the log of the standalone kernel must have is missing.
    Chainload(usize),
    PersistentExecutable(LogFault),
    NoRelocations,
    Hardware(LogFault),
    Filesystem(LogFault),
    Network(LogFault),
    Pointer(LogFault),
    NotMounted,
    Counter(LogFault),
    CounterExhausted,
    CounterNotContinuous,
}

pub open spec fn kernel_parts() -> Seq<Seq<char>> {
    seq!["kernel image:"@, "kernel signature: verified=true version="@]
}

pub open spec fn handoff_parts() -> Seq<Seq<char>> {
    seq![
        "boot mode: post-exit-boot-services"@,
        "vm switched to kernel page tables"@,
        "vm hhdm probe:"@,
        "vm framebuffer hhdm:"@,
        "vm reserved hhdm:"@,
    ]
}

pub open spec fn post_exit_parts() -> Seq<Seq<char>> {
    seq![
        "vm kernel permissions:"@,
        " wx=0"@,
        "interrupts: exception path verified"@,
        "interrupts: gdt=loaded tr=0x0018 idt=loaded"@,
    ]
}

pub open spec fn chainload_parts() -> Seq<Seq<char>> {
    seq![
        "standalone boot info present"@,
        "standalone desktop rendered"@,
        "process[1]: user log: ring3 syscall boundary active"@,
        "process[1]: kernel write denied addr=0x0000000000200000 err=0x7"@,
        "process isolation verified: pid=1"@,
        "standalone vm adopted current page tables"@,
        "standalone heap: capacity="@,
        "standalone exception path verified"@,
        "standalone descriptor tables: gdt=true tr=0x0018 idt=true"@,
        "standalone timer interrupts active"@,
        "scheduler verified: processes=3"@,
    ]
}

/// Whether the log says that something went wrong after the kernel was entered.
pub open spec fn panicked(log: Seq<char>) -> bool {
    occurs(log, "[PANIC]"@) || occurs(log, "panicked at"@)
}

/// Whether the log says that what was booted was reached.
pub open spec fn reached(log: Seq<char>, mode: LoaderMode) -> bool {
    match mode {
        LoaderMode::Chainload => occurs(log, "codexOS standalone kernel entered"@),
        _ => occurs(log, "codexOS kernel entered"@),
    }
}

/// Why the log of the standalone kernel does not show that its devices work.
pub open spec fn devices_fault(log: Seq<char>) -> Option<BootLogFault> {
    match hardware_fault(log) {
        Some(fault) => Some(BootLogFault::Hardware(fault)),
        None => match filesystem_fault(log) {
            Some(fault) => Some(BootLogFault::Filesystem(fault)),
            None => match network_fault(log) {
                Some(fault) => Some(BootLogFault::Network(fault)),
                None => match pointer_driver_fault(log) {
                    Some(fault) => Some(BootLogFault::Pointer(fault)),
                    None => None,
                },
            },
        },
    }
}

/// Why the log of the standalone kernel does not show what it must.
pub open spec fn chainload_fault(log: Seq<char>) -> Option<BootLogFault> {
    match first_missing(log, chainload_parts(), 0) {
        Some(i) => Some(BootLogFault::Chainload(i)),
        None => match persistent_executable_fault(log) {
            Some(fault) => Some(BootLogFault::PersistentExecutable(fault)),
            None => if !relocations_applied(log) {
                Some(BootLogFault::NoRelocations)
            } else if devices_fault(log) is Some {
                devices_fault(log)
            } else if !occurs(log, "virtio-blk: pci="@) || !occurs(
                log,
                "codexfs: mounted state="@,
            ) {
                Some(BootLogFault::NotMounted)
            } else {
                None
            },
        },
    }
}

/// Why the log does not show what it must after the firmware was left.
pub open spec fn post_exit_fault(log: Seq<char>, mode: LoaderMode) -> Option<BootLogFault> {
    if mode == LoaderMode::Handoff && first_missing(log, handoff_parts(), 0) is Some {
        Some(BootLogFault::Handoff(first_missing(log, handoff_parts(), 0).unwrap()))
    } else if mode != LoaderMode::Interactive && first_missing(log, post_exit_parts(), 0) is Some {
        Some(BootLogFault::PostExit(first_missing(log, post_exit_parts(), 0).unwrap()))
    } else if mode == LoaderMode::Chainload {
        chainload_fault(log)
    } else {
        None
    }
}

/// Why the log of a boot does not show what it must.
pub open spec fn boot_log_fault(log: Seq<char>, mode: LoaderMode) -> Option<BootLogFault> {
    if !reached(log, mode) {
        Some(BootLogFault::TargetNotReached)
    } else if first_missing(log, kernel_parts(), 0) is Some {
        Some(BootLogFault::Kernel(first_missing(log, kernel_parts(), 0).unwrap()))
    } else if panicked(log) {
        Some(BootLogFault::Panicked)
    } else {
        post_exit_fault(log, mode)
    }
}

/// The result of a check.
pub open spec fn passed(fault: Option<BootLogFault>) -> Result<(), BootLogFault> {
    match fault {
        Some(fault) => Err(fault),
        None => Ok(()),
    }
}

fn check_devices(log: &str) -> (result: Result<(), BootLogFault>)
    ensures
        result == passed(devices_fault(log@)),
{
    match validate_hardware_log(log) {
        Ok(_) => {},
        Err(fault) => return Err(BootLogFault::Hardware(fault)),
    }
    match validate_filesystem_log(log) {
        Ok(_) => {},
        Err(fault) => return Err(BootLogFault::Filesystem(fault)),
    }
    match validate_network_log(log) {
        Ok(_) => {},
        Err(fault) => return Err(BootLogFault::Network(fault)),
    }
    match validate_pointer_driver_log(log) {
        Ok(_) => Ok(()),
        Err(fault) => Err(BootLogFault::Pointer(fault)),
    }
}

fn check_chainload(log: &str, text: &[char]) -> (result: Result<(), BootLogFault>)
    requires
        text@ == log@,
    ensures
        result == passed(chainload_fault(log@)),
{
    let parts: [&str; 11] = [
        "standalone boot info present",
        "standalone desktop rendered",
        "process[1]: user log: ring3 syscall boundary active",
        "process[1]: kernel write denied addr=0x0000000000200000 err=0x7",
        "process isolation verified: pid=1",
        "standalone vm adopted current page tables",
        "standalone heap: capacity=",
        "standalone exception path verified",
        "standalone descriptor tables: gdt=true tr=0x0018 idt=true",
        "standalone timer interrupts active",
        "scheduler verified: processes=3",
    ];
    assert(texts(parts@) =~= chainload_parts());
    if let Some(i) = missing_part(text, parts.as_slice()) {
        return Err(BootLogFault::Chainload(i));
    }
    match validate_persistent_executable_log(log) {
        Ok(_) => {},
        Err(fault) => return Err(BootLogFault::PersistentExecutable(fault)),
    }
    if !has_applied_kernel_relocations(log) {
        return Err(BootLogFault::NoRelocations);
    }
    match check_devices(log) {
        Ok(_) => {},
        Err(fault) => return Err(fault),
    }
    if !contains(text, "virtio-blk: pci=") || !contains(text, "codexfs: mounted state=") {
        return Err(BootLogFault::NotMounted);
    }
    Ok(())
}

/// Checks the log of a boot.
pub fn smoke_qemu(log: &str, mode: LoaderMode) -> (result: Result<(), BootLogFault>)
    ensures
        result == passed(boot_log_fault(log@, mode)),
{
    let text = characters(log);
    let reached_target = match mode {
        LoaderMode::Chainload => contains(text.as_slice(), "codexOS standalone kernel entered"),
        _ => contains(text.as_slice(), "codexOS kernel entered"),
    };
    if !reached_target {
        return Err(BootLogFault::TargetNotReached);
    }
    let kernel: [&str; 2] = ["kernel image:", "kernel signature: verified=true version="];
    assert(texts(kernel@) =~= kernel_parts());
    if let Some(i) = missing_part(text.as_slice(), kernel.as_slice()) {
        return Err(BootLogFault::Kernel(i));
    }
    if contains(text.as_slice(), "[PANIC]") || contains(text.as_slice(), "panicked at") {
        return Err(BootLogFault::Panicked);
    }
    if mode == LoaderMode::Handoff {
        let handoff: [&str; 5] = [
            "boot mode: post-exit-boot-services",
            "vm switched to kernel page tables",
            "vm hhdm probe:",
            "vm framebuffer hhdm:",
            "vm reserved hhdm:",
        ];
        assert(texts(handoff@) =~= handoff_parts());
        if let Some(i) = missing_part(text.as_slice(), handoff.as_slice()) {
            return Err(BootLogFault::Handoff(i));
        }
    }
    if mode != LoaderMode::Interactive {
        let post_exit: [&str; 4] = [
            "vm kernel permissions:",
            " wx=0",
            "interrupts: exception path verified",
            "interrupts: gdt=loaded tr=0x0018 idt=loaded",
        ];
        assert(texts(post_exit@) =~= post_exit_parts());
        if let Some(i) = missing_part(text.as_slice(), post_exit.as_slice()) {
            return Err(BootLogFault::PostExit(i));
        }
    }
    if mode == LoaderMode::Chainload {
        return check_chainload(log, text.as_slice());
    }
    Ok(())
}

/// Why the logs of two boots one after the other do not show that the filesystem was kept.
pub open spec fn reboot_fault(first: Seq<char>, second: Seq<char>) -> Option<BootLogFault> {
    match counter_report(first) {
        Err(fault) => Some(BootLogFault::Counter(fault)),
        Ok(before) => if devices_fault(second) is Some {
            devices_fault(second)
        } else {
            match persistent_executable_fault(second) {
                Some(fault) => Some(BootLogFault::PersistentExecutable(fault)),
                None => if panicked(second) {
                    Some(BootLogFault::Panicked)
                } else if !occurs(second, "codexfs: mounted state=existing"@) {
                    Some(BootLogFault::NotMounted)
                } else {
                    match counter_report(second) {
                        Err(fault) => Some(BootLogFault::Counter(fault)),
                        Ok(after) => if before.0 == u64::MAX || after.0 == u64::MAX {
                            Some(BootLogFault::CounterExhausted)
                        } else if before.1 != before.0 + 1 || after.0 != before.1 || after.1
                            != after.0 + 1 {
                            Some(BootLogFault::CounterNotContinuous)
                        } else {
                            None
                        },
                    }
                },
            }
        },
    }
}

/// Checks that the filesystem was kept from one boot to the next.
pub fn check_reboot(first: &str, second: &str) -> (result: Result<(), BootLogFault>)
    ensures
        result == passed(reboot_fault(first@, second@)),
{
    let before: (u64, u64) = match persistence_counter(first) {
        Ok(counter) => counter,
        Err(fault) => return Err(BootLogFault::Counter(fault)),
    };
    match check_devices(second) {
        Ok(_) => {},
        Err(fault) => return Err(fault),
    }
    match validate_persistent_executable_log(second) {
        Ok(_) => {},
        Err(fault) => return Err(BootLogFault::PersistentExecutable(fault)),
    }
    let text = characters(second);
    if contains(text.as_slice(), "[PANIC]") || contains(text.as_slice(), "panicked at") {
        return Err(BootLogFault::Panicked);
    }
    if !contains(text.as_slice(), "codexfs: mounted state=existing") {
        return Err(BootLogFault::NotMounted);
    }
    let after: (u64, u64) = match persistence_counter(second) {
        Ok(counter) => counter,
        Err(fault) => return Err(BootLogFault::Counter(fault)),
    };
    if before.0 == u64::MAX || after.0 == u64::MAX {
        return Err(BootLogFault::CounterExhausted);
    }
    if before.1 != before.0 + 1 || after.0 != before.1 || after.1 != after.0 + 1 {
        return Err(BootLogFault::CounterNotContinuous);
    }
    Ok(())
}

} // verus!
