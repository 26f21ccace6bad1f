use codexos::smoke::boot::{check_reboot, smoke_qemu, BootLogFault, LoaderMode};
use codexos::smoke::fields::{
    parse_log_i32_field, parse_log_usize_field, FieldFault, LogFault,
};
use codexos::smoke::monitor::{command_refused, has_prompt};
use codexos::smoke::reports::{
    format_checksum, has_applied_kernel_relocations, large_file_proof_checksum,
    persistence_counter, validate_filesystem_log, validate_hardware_log,
    validate_network_listener_log, validate_network_log, validate_persistent_executable_log,
    validate_pointer_driver_log, validate_pointer_event_log,
};
use codexos::smoke::scenarios::{
    listener_answered, require_security_rejection, rotated_missing, rotation_missing,
    scenario_missing, RejectionFault, Scenario,
};
use codexos::text::{characters, contains, fields, lines, parse_signed, parse_unsigned};

fn filesystem_log() -> String {
    format!(
        "codexfs: mounted state=existing slot-sectors=4096 active-sectors=64 max-record-bytes=2097152\nfilesystem large-file verified: path=/system/large-proof.bin bytes=98304 {} record-sectors=200 slot-sectors=4096 written=true\n",
        format_checksum(large_file_proof_checksum())
    )
}

const HARDWARE_LOG: &str = "hardware inventory: pci-devices=4 overflow=false storage=1 network=1 io-bars=2 virtio-legacy=2 virtio-blk=00:02.0 virtio-net=00:03.0\nhardware driver binding: device=virtio-blk pci=00:02.0 driver=ready inventory-match=true\nhardware driver binding: device=virtio-net pci=00:03.0 driver=ready inventory-match=true\n";

const NETWORK_LOG: &str = "virtio-net: pci=00:03.0\nnetwork configured: ipv4=10.0.2.15 mask=255.255.255.0 gateway=10.0.2.2 dhcp=10.0.2.2 dns=10.0.2.3 lease=86400s tx=8 rx=7\narp gateway verified: ip=10.0.2.2 mac=52:55:0a:00:02:02\nicmp echo verified: destination=10.0.2.2 sequence=1 tx=8 rx=7\ndns resolved: name=example.com server=10.0.2.3 answer=93.184.216.34 query-id=0x4344\ntcp http verified: host=example.com remote=93.184.216.34 port=80 status=200 bytes=1256 source-port=49153\nnetwork tcp listener ready: port=8080 protocol=http\n";

const POINTER_LOG: &str =
    "standalone pointer polling active: device=ps2 enabled=true id=0x00 acknowledgements=3\n";

const EXECUTABLE_LOG: &str = "persistent executable verified: path=/system/bin/scheduler-gate.elf bytes=4200 segments=1 exit=2001 idle-halts=1 reclaimed-pages=6 sha256-prefix=0011223344556677\n";

const CHAINLOAD_LOG: &str = "kernel image: 100 bytes relocs=3\nkernel signature: verified=true version=1\ncodexOS standalone kernel entered\nvm kernel permissions: rx=1 wx=0\ninterrupts: exception path verified\ninterrupts: gdt=loaded tr=0x0018 idt=loaded\nstandalone boot info present\nstandalone desktop rendered\nprocess[1]: user log: ring3 syscall boundary active\nprocess[1]: kernel write denied addr=0x0000000000200000 err=0x7\nprocess isolation verified: pid=1\nstandalone vm adopted current page tables\nstandalone heap: capacity=64 MiB\nstandalone exception path verified\nstandalone descriptor tables: gdt=true tr=0x0018 idt=true\nstandalone timer interrupts active\nscheduler verified: processes=3\nvirtio-blk: pci=00:02.0\n";

fn chainload_log(previous: u64) -> String {
    format!(
        "{CHAINLOAD_LOG}{HARDWARE_LOG}{}{NETWORK_LOG}{POINTER_LOG}{EXECUTABLE_LOG}filesystem persistence: previous={previous} current={} directories=2 verified=true\n",
        filesystem_log(),
        previous + 1
    )
}

#[test]
fn texts_have_lines_and_fields() {
    let text = characters("a b\r\n\nc\u{a0}d\n");
    let found: Vec<String> = lines(&text).iter().map(|line| line.iter().collect()).collect();
    assert_eq!(found, ["a b", "", "c\u{a0}d"]);
    let split: Vec<String> = fields(&text).iter().map(|field| field.iter().collect()).collect();
    assert_eq!(split, ["a", "b", "c", "d"]);
    assert!(lines(&characters("")).is_empty());
    assert!(contains(&text, "b\r\n"));
    assert!(!contains(&text, "bc"));
    assert!(contains(&text, ""));
}

#[test]
fn numbers_are_read_like_the_language_does() {
    for text in ["", "+", "-", "0", "+7", "-7", "007", "4294967295", "4294967296", "1x", " 1"] {
        let found = characters(text);
        assert_eq!(parse_unsigned(&found, u32::MAX as u64), text.parse::<u32>().ok().map(u64::from));
        assert_eq!(parse_signed(&found), text.parse::<i32>().ok());
    }
    for text in ["2147483647", "2147483648", "-2147483648", "-2147483649", "-+1", "+-1"] {
        assert_eq!(parse_signed(&characters(text)), text.parse::<i32>().ok());
    }
}

#[test]
fn fields_of_a_report_are_found() {
    let line = characters("report: a=1 b=-2 a=3 c=x");
    assert_eq!(parse_log_usize_field(&line, "a="), Ok(1));
    assert_eq!(parse_log_i32_field(&line, "b="), Ok(-2));
    assert_eq!(parse_log_usize_field(&line, "c="), Err(FieldFault::Invalid));
    assert_eq!(parse_log_usize_field(&line, "d="), Err(FieldFault::Omitted));
}

#[test]
fn filesystem_reports_are_checked() {
    let log = filesystem_log();
    assert_eq!(validate_filesystem_log(&log), Ok(()));
    assert_eq!(validate_filesystem_log(""), Err(LogFault::ReportOmitted));
    assert_eq!(
        validate_filesystem_log(&log.replace("active-sectors", "active")),
        Err(LogFault::PartOmitted(1))
    );
    assert_eq!(
        validate_filesystem_log(&log.replace("max-record-bytes=2097152", "max-record-bytes=x")),
        Err(LogFault::Field(1, FieldFault::Invalid))
    );
    assert_eq!(
        validate_filesystem_log(&log.replace("record-sectors=200", "record-sectors=64")),
        Err(LogFault::Insufficient)
    );
    assert_eq!(
        validate_filesystem_log(&log.replace("checksum=0x", "checksum=1x")),
        Err(LogFault::ChecksumMismatch)
    );
}

#[test]
fn hardware_reports_are_checked() {
    assert_eq!(validate_hardware_log(HARDWARE_LOG), Ok(()));
    assert_eq!(
        validate_hardware_log(&HARDWARE_LOG.replace("storage=1", "storage=0")),
        Err(LogFault::Insufficient)
    );
    assert_eq!(
        validate_hardware_log(&HARDWARE_LOG.replace("device=virtio-net pci", "device=other pci")),
        Err(LogFault::DriverUnbound(1))
    );
}

#[test]
fn network_reports_are_checked() {
    assert_eq!(validate_network_log(NETWORK_LOG), Ok(()));
    assert_eq!(
        validate_network_log(&NETWORK_LOG.replace("lease=86400s tx=8", "lease=86400s tx=7")),
        Err(LogFault::Insufficient)
    );
    assert_eq!(
        validate_network_log(&NETWORK_LOG.replace("lease=86400s", "lease=86400")),
        Err(LogFault::Insufficient)
    );
    assert_eq!(
        validate_network_log(&NETWORK_LOG.replace("answer=93.184.216.34", "answer=0.0.0.0")),
        Err(LogFault::UnusableAddress)
    );
    assert_eq!(
        validate_network_log(&NETWORK_LOG.replace("status=200", "status=600")),
        Err(LogFault::Insufficient)
    );
    assert_eq!(
        validate_network_log(&NETWORK_LOG.replace("arp gateway", "gateway")),
        Err(LogFault::PartOmitted(2))
    );
}

#[test]
fn listener_and_pointer_reports_are_checked() {
    let served = "network tcp listener ready: port=8080 protocol=http\ntcp listener served: port=8080 remote=10.0.2.2:5 request-bytes=60 response-bytes=108 connections=1 tx=1 rx=2\n";
    assert_eq!(validate_network_listener_log(served), Ok(()));
    assert_eq!(
        validate_network_listener_log(&served.replace("connections=1", "connections=0")),
        Err(LogFault::Insufficient)
    );
    assert_eq!(validate_pointer_driver_log(POINTER_LOG), Ok(()));
    assert_eq!(
        validate_pointer_driver_log(&POINTER_LOG.replace("acknowledgements=3", "acknowledgements=1")),
        Err(LogFault::Insufficient)
    );
    let moved = "pointer input event: device=ps2 dx=0 dy=-16 left=false right=false";
    assert_eq!(validate_pointer_event_log(moved), Ok(()));
    assert_eq!(
        validate_pointer_event_log(&moved.replace("dy=-16", "dy=0")),
        Err(LogFault::Insufficient)
    );
    assert_eq!(validate_persistent_executable_log(EXECUTABLE_LOG), Ok(()));
    assert_eq!(
        validate_persistent_executable_log("persistent executable verified: path=/system/bin/scheduler-gate.elf"),
        Err(LogFault::PartOmitted(1))
    );
}

#[test]
fn the_boot_counter_is_read() {
    let log = "filesystem persistence: previous=4 current=5 directories=2 verified=true";
    assert_eq!(persistence_counter(log), Ok((4, 5)));
    assert_eq!(persistence_counter(""), Err(LogFault::ReportOmitted));
    assert_eq!(
        persistence_counter(&log.replace("verified=true", "verified=false")),
        Err(LogFault::PartOmitted(0))
    );
    assert_eq!(
        persistence_counter(&log.replace("directories=2", "directories=1")),
        Err(LogFault::Insufficient)
    );
    assert_eq!(
        persistence_counter(&log.replace("current=5", "")),
        Err(LogFault::Field(1, FieldFault::Omitted))
    );
    assert_eq!(
        persistence_counter(&log.replace("previous=4", "previous=y")),
        Err(LogFault::Field(0, FieldFault::Invalid))
    );
}

#[test]
fn relocations_are_counted() {
    assert!(has_applied_kernel_relocations("kernel image: staged=1 relocs=12\n"));
    assert!(!has_applied_kernel_relocations("kernel image: staged=1 relocs=0\n"));
    assert!(!has_applied_kernel_relocations("kernel image: staged=1 relocs=\n"));
    assert!(!has_applied_kernel_relocations(""));
}

#[test]
fn boots_are_checked_by_their_mode() {
    let log = chainload_log(4);
    assert_eq!(smoke_qemu(&log, LoaderMode::Chainload), Ok(()));
    assert_eq!(
        smoke_qemu(&log, LoaderMode::Interactive),
        Err(BootLogFault::TargetNotReached)
    );
    assert_eq!(
        smoke_qemu(&format!("{log}[PANIC] here"), LoaderMode::Chainload),
        Err(BootLogFault::Panicked)
    );
    assert_eq!(
        smoke_qemu(&log.replace(" wx=0", " wx=1"), LoaderMode::Chainload),
        Err(BootLogFault::PostExit(1))
    );
    assert_eq!(
        smoke_qemu(&log.replace("scheduler verified", "scheduler"), LoaderMode::Chainload),
        Err(BootLogFault::Chainload(10))
    );
    assert_eq!(
        smoke_qemu(&log.replace("relocs=3", "relocs=0"), LoaderMode::Chainload),
        Err(BootLogFault::NoRelocations)
    );
    let interactive = "codexOS kernel entered\nkernel image: x\nkernel signature: verified=true version=1\n";
    assert_eq!(smoke_qemu(interactive, LoaderMode::Interactive), Ok(()));
    assert_eq!(
        smoke_qemu(interactive, LoaderMode::Handoff),
        Err(BootLogFault::Handoff(0))
    );
}

#[test]
fn the_counter_goes_on_over_a_reboot() {
    assert_eq!(check_reboot(&chainload_log(4), &chainload_log(5)), Ok(()));
    assert_eq!(
        check_reboot(&chainload_log(4), &chainload_log(6)),
        Err(BootLogFault::CounterNotContinuous)
    );
    assert_eq!(
        check_reboot(&chainload_log(4), &chainload_log(5).replace("state=existing", "state=formatted")),
        Err(BootLogFault::NotMounted)
    );
}

#[test]
fn refused_kernels_are_not_entered() {
    let log = "kernel security failure: SignatureInvalid";
    assert_eq!(require_security_rejection(log, "SignatureInvalid"), Ok(()));
    assert_eq!(
        require_security_rejection(log, "KernelHashMismatch"),
        Err(RejectionFault::NotReported)
    );
    assert_eq!(
        require_security_rejection(&format!("{log} codexOS kernel entered"), "SignatureInvalid"),
        Err(RejectionFault::KernelEntered)
    );
}

#[test]
fn special_boots_say_what_they_must() {
    let recovery = "system slot A rejected: KernelHashMismatch\nsystem recovery fallback: active=A selected=B version=1\nkernel signature: verified=true version=1 slot=B state-gen=2 recovery=true\ncodexOS standalone kernel entered";
    assert_eq!(scenario_missing(recovery, Scenario::Recovery), None);
    assert_eq!(scenario_missing(recovery, Scenario::UpdateRecovery), Some(0));
    assert_eq!(scenario_missing("", Scenario::Updated), Some(0));
    let rotation = "kernel trust root: source=embedded trust root update: activated version=2 previous-source=embedded next-key-id=abcd kernel signature: verified=true version=2 codexOS standalone kernel entered";
    assert_eq!(rotation_missing(rotation, "abcd"), None);
    assert_eq!(rotation_missing(rotation, "dcba"), Some(1));
    assert_eq!(rotated_missing(rotation, "abcd"), Some(0));
    assert!(listener_answered("HTTP/1.1 200 OK\r\n\r\ncodexOS listener online\n"));
    assert!(!listener_answered(" HTTP/1.1 200 OK codexOS listener online"));
}

#[test]
fn the_monitor_is_understood() {
    assert!(has_prompt(b"QEMU monitor\r\n(qemu) "));
    assert!(!has_prompt(b"(qemu"));
    assert!(command_refused("Unknown Command: x"));
    assert!(command_refused("invalid parameter"));
    assert!(!command_refused("(qemu) "));
}
