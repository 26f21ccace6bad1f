//! The reports that the log of a boot must have.

use vstd::prelude::*;
use vstd::slice::slice_subrange;
use vstd::string::*;
use crate::hex::{hex_encode, hex_text};
use crate::kernel_image::{build_large_file_proof, checksum32, proof_bytes, rolling_checksum};
use crate::smoke::fields::{
    field_in, find_field, find_report, number_in, parse_log_i32_field, parse_log_number,
    parse_log_usize_field, report_in, signed_number_in, FieldFault, LogFault,
};
use crate::text::{
    characters, contains, fields, fields_of, first_missing, lines, lines_of, missing_part, occurs,
    occurs_at, parse_unsigned, position, strip_prefix, texts, unsigned_value, views, without_prefix,
};

verus! {

/// Why a line lacks one of the parts.
pub open spec fn parts_fault(line: Seq<char>, parts: Seq<Seq<char>>) -> Option<LogFault> {
    match first_missing(line, parts, 0) {
        Some(i) => Some(LogFault::PartOmitted(i)),
        None => None,
    }
}

/// Checks that a line has all of the parts.
fn require_parts(line: &[char], parts: &[&str]) -> (result: Result<(), LogFault>)
    ensures
        result == match parts_fault(line@, texts(parts@)) {
            Some(fault) => Err::<(), LogFault>(fault),
            None => Ok(()),
        },
{
    match missing_part(line, parts) {
        Some(i) => Err(LogFault::PartOmitted(i)),
        None => Ok(()),
    }
}

/// The result of a check.
pub open spec fn checked(fault: Option<LogFault>) -> Result<(), LogFault> {
    match fault {
        Some(fault) => Err(fault),
        None => Ok(()),
    }
}

pub open spec fn mount_parts() -> Seq<Seq<char>> {
    seq!["slot-sectors="@, "active-sectors="@, "max-record-bytes="@]
}

/// Why the report of the mount does not show that records can be large.
pub open spec fn mount_fault(line: Seq<char>) -> Option<LogFault> {
    if parts_fault(line, mount_parts()) is Some {
        parts_fault(line, mount_parts())
    } else {
        match number_in(line, "slot-sectors="@, usize::MAX as nat) {
            Err(fault) => Some(LogFault::Field(0, fault)),
            Ok(slot) => match number_in(line, "max-record-bytes="@, usize::MAX as nat) {
                Err(fault) => Some(LogFault::Field(1, fault)),
                Ok(most) => if slot <= 64 || most <= 64 * 512 {
                    Some(LogFault::Insufficient)
                } else {
                    None
                },
            },
        }
    }
}

fn check_mount(line: &[char]) -> (result: Result<(), LogFault>)
    ensures
        result == checked(mount_fault(line@)),
{
    let parts: [&str; 3] = ["slot-sectors=", "active-sectors=", "max-record-bytes="];
    assert(texts(parts@) =~= mount_parts());
    match require_parts(line, parts.as_slice()) {
        Ok(_) => {},
        Err(fault) => return Err(fault),
    }
    let slot: usize = match parse_log_usize_field(line, "slot-sectors=") {
        Ok(slot) => slot,
        Err(fault) => return Err(LogFault::Field(0, fault)),
    };
    let most: usize = match parse_log_usize_field(line, "max-record-bytes=") {
        Ok(most) => most,
        Err(fault) => return Err(LogFault::Field(1, fault)),
    };
    if slot <= 64 || most <= 64 * 512 {
        return Err(LogFault::Insufficient);
    }
    Ok(())
}

/// The checksum of the large file.
pub open spec fn large_checksum() -> u32 {
    rolling_checksum(proof_bytes(), proof_bytes().len())
}

/// The checksum of the large file.
pub fn large_file_proof_checksum() -> (checksum: u32)
    ensures
        checksum == large_checksum(),
{
    checksum32(build_large_file_proof().as_slice())
}

/// The big-endian bytes of a number.
pub open spec fn number_bytes(value: u32) -> Seq<u8> {
    seq![
        (value / 0x100_0000) as u8,
        (value / 0x1_0000 % 0x100) as u8,
        (value / 0x100 % 0x100) as u8,
        (value % 0x100) as u8,
    ]
}

/// What the report of the large file says of its checksum.
pub open spec fn checksum_text(checksum: u32) -> Seq<char> {
    "checksum=0x"@ + hex_text(number_bytes(checksum))
}

/// What the report of the large file says of its checksum.
pub fn format_checksum(checksum: u32) -> (text: String)
    ensures
        text@ == checksum_text(checksum),
{
    let bytes: [u8; 4] = [
        (checksum / 0x100_0000) as u8,
        (checksum / 0x1_0000 % 0x100) as u8,
        (checksum / 0x100 % 0x100) as u8,
        (checksum % 0x100) as u8,
    ];
    assert(bytes@ =~= number_bytes(checksum));
    let mut text = String::from_str("checksum=0x");
    text.append(hex_encode(bytes.as_slice()).as_str());
    text
}

pub open spec fn large_file_parts() -> Seq<Seq<char>> {
    seq![
        "path=/system/large-proof.bin"@,
        "bytes=98304"@,
        "checksum="@,
        "record-sectors="@,
        "slot-sectors="@,
        "written="@,
    ]
}

/// Why the report of the large file does not show that a record took many sectors.
pub open spec fn large_file_fault(line: Seq<char>) -> Option<LogFault> {
    if parts_fault(line, large_file_parts()) is Some {
        parts_fault(line, large_file_parts())
    } else {
        match number_in(line, "bytes="@, usize::MAX as nat) {
            Err(fault) => Some(LogFault::Field(0, fault)),
            Ok(bytes) => match number_in(line, "record-sectors="@, usize::MAX as nat) {
                Err(fault) => Some(LogFault::Field(1, fault)),
                Ok(record) => match number_in(line, "slot-sectors="@, usize::MAX as nat) {
                    Err(fault) => Some(LogFault::Field(2, fault)),
                    Ok(slot) => if bytes != 98304 || record <= 64 || slot < record {
                        Some(LogFault::Insufficient)
                    } else if !occurs(line, checksum_text(large_checksum())) {
                        Some(LogFault::ChecksumMismatch)
                    } else {
                        None
                    },
                },
            },
        }
    }
}

fn check_large_file(line: &[char]) -> (result: Result<(), LogFault>)
    ensures
        result == checked(large_file_fault(line@)),
{
    let parts: [&str; 6] = [
        "path=/system/large-proof.bin",
        "bytes=98304",
        "checksum=",
        "record-sectors=",
        "slot-sectors=",
        "written=",
    ];
    assert(texts(parts@) =~= large_file_parts());
    match require_parts(line, parts.as_slice()) {
        Ok(_) => {},
        Err(fault) => return Err(fault),
    }
    let bytes: usize = match parse_log_usize_field(line, "bytes=") {
        Ok(bytes) => bytes,
        Err(fault) => return Err(LogFault::Field(0, fault)),
    };
    let record: usize = match parse_log_usize_field(line, "record-sectors=") {
        Ok(record) => record,
        Err(fault) => return Err(LogFault::Field(1, fault)),
    };
    let slot: usize = match parse_log_usize_field(line, "slot-sectors=") {
        Ok(slot) => slot,
        Err(fault) => return Err(LogFault::Field(2, fault)),
    };
    if bytes != 98304 || record <= 64 || slot < record {
        return Err(LogFault::Insufficient);
    }
    let expected = format_checksum(large_file_proof_checksum());
    if !contains(line, expected.as_str()) {
        return Err(LogFault::ChecksumMismatch);
    }
    Ok(())
}

/// Why the log does not show a filesystem whose records can be large.
pub open spec fn filesystem_fault(log: Seq<char>) -> Option<LogFault> {
    match report_in(log, "codexfs: mounted state="@) {
        None => Some(LogFault::ReportOmitted),
        Some(mount) => if mount_fault(mount) is Some {
            mount_fault(mount)
        } else {
            match report_in(log, "filesystem large-file verified:"@) {
                None => Some(LogFault::ReportOmitted),
                Some(line) => large_file_fault(line),
            }
        },
    }
}

/// Checks that the log shows a filesystem whose records can be large.
pub fn validate_filesystem_log(log: &str) -> (result: Result<(), LogFault>)
    ensures
        result == checked(filesystem_fault(log@)),
{
    let log = characters(log);
    let mount = match find_report(log.as_slice(), "codexfs: mounted state=") {
        Some(line) => line,
        None => return Err(LogFault::ReportOmitted),
    };
    match check_mount(mount.as_slice()) {
        Ok(_) => {},
        Err(fault) => return Err(fault),
    }
    match find_report(log.as_slice(), "filesystem large-file verified:") {
        Some(line) => check_large_file(line.as_slice()),
        None => Err(LogFault::ReportOmitted),
    }
}

pub open spec fn persistent_executable_parts() -> Seq<Seq<char>> {
    seq![
        "path=/system/bin/scheduler-gate.elf"@,
        "segments=1"@,
        "exit=2001"@,
        "idle-halts="@,
        "reclaimed-pages=6"@,
        "sha256-prefix="@,
    ]
}

/// Why the log does not show that the persistent executable ran.
pub open spec fn persistent_executable_fault(log: Seq<char>) -> Option<LogFault> {
    match report_in(log, "persistent executable verified:"@) {
        None => Some(LogFault::ReportOmitted),
        Some(line) => parts_fault(line, persistent_executable_parts()),
    }
}

/// Checks that the log shows that the persistent executable ran.
pub fn validate_persistent_executable_log(log: &str) -> (result: Result<(), LogFault>)
    ensures
        result == checked(persistent_executable_fault(log@)),
{
    let log = characters(log);
    let parts: [&str; 6] = [
        "path=/system/bin/scheduler-gate.elf",
        "segments=1",
        "exit=2001",
        "idle-halts=",
        "reclaimed-pages=6",
        "sha256-prefix=",
    ];
    assert(texts(parts@) =~= persistent_executable_parts());
    match find_report(log.as_slice(), "persistent executable verified:") {
        Some(line) => require_parts(line.as_slice(), parts.as_slice()),
        None => Err(LogFault::ReportOmitted),
    }
}

pub open spec fn hardware_parts() -> Seq<Seq<char>> {
    seq!["overflow=false"@, "virtio-blk="@, "virtio-net="@, "virtio-legacy="@, "io-bars="@]
}

/// Why the report of the hardware does not show a disk and a network.
pub open spec fn inventory_fault(line: Seq<char>) -> Option<LogFault> {
    let most = usize::MAX as nat;
    if parts_fault(line, hardware_parts()) is Some {
        parts_fault(line, hardware_parts())
    } else {
        match number_in(line, "pci-devices="@, most) {
            Err(fault) => Some(LogFault::Field(0, fault)),
            Ok(devices) => match number_in(line, "storage="@, most) {
                Err(fault) => Some(LogFault::Field(1, fault)),
                Ok(storage) => match number_in(line, "network="@, most) {
                    Err(fault) => Some(LogFault::Field(2, fault)),
                    Ok(network) => match number_in(line, "virtio-legacy="@, most) {
                        Err(fault) => Some(LogFault::Field(3, fault)),
                        Ok(legacy) => match number_in(line, "io-bars="@, most) {
                            Err(fault) => Some(LogFault::Field(4, fault)),
                            Ok(bars) => if devices < 2 || storage < 1 || network < 1 || legacy < 2
                                || bars < 2 {
                                Some(LogFault::Insufficient)
                            } else {
                                None
                            },
                        },
                    },
                },
            },
        }
    }
}

fn check_inventory(line: &[char]) -> (result: Result<(), LogFault>)
    ensures
        result == checked(inventory_fault(line@)),
{
    let parts: [&str; 5] = [
        "overflow=false",
        "virtio-blk=",
        "virtio-net=",
        "virtio-legacy=",
        "io-bars=",
    ];
    assert(texts(parts@) =~= hardware_parts());
    match require_parts(line, parts.as_slice()) {
        Ok(_) => {},
        Err(fault) => return Err(fault),
    }
    let devices: usize = match parse_log_usize_field(line, "pci-devices=") {
        Ok(number) => number,
        Err(fault) => return Err(LogFault::Field(0, fault)),
    };
    let storage: usize = match parse_log_usize_field(line, "storage=") {
        Ok(number) => number,
        Err(fault) => return Err(LogFault::Field(1, fault)),
    };
    let network: usize = match parse_log_usize_field(line, "network=") {
        Ok(number) => number,
        Err(fault) => return Err(LogFault::Field(2, fault)),
    };
    let legacy: usize = match parse_log_usize_field(line, "virtio-legacy=") {
        Ok(number) => number,
        Err(fault) => return Err(LogFault::Field(3, fault)),
    };
    let bars: usize = match parse_log_usize_field(line, "io-bars=") {
        Ok(number) => number,
        Err(fault) => return Err(LogFault::Field(4, fault)),
    };
    if devices < 2 || storage < 1 || network < 1 || legacy < 2 || bars < 2 {
        return Err(LogFault::Insufficient);
    }
    Ok(())
}

/// Whether a line says that the driver of a device is ready and bound to what the inventory has.
pub open spec fn binds(line: Seq<char>, device: Seq<char>) -> bool {
    occurs(line, device) && occurs(line, "driver=ready"@) && occurs(line, "inventory-match=true"@)
}

/// Whether a line of the log says that a device is bound.
pub open spec fn bound(log: Seq<char>, device: Seq<char>) -> bool {
    exists|i: int| 0 <= i < lines_of(log).len() && binds(#[trigger] lines_of(log)[i], device)
}

fn is_bound(log: &[char], device: &str) -> (result: bool)
    ensures
        result == bound(log@, device@),
{
    let all = lines(log);
    let mut i: usize = 0;
    while i < all.len()
        invariant
            i <= all@.len(),
            views(all@) == lines_of(log@),
            forall|j: int| 0 <= j < i ==> !binds(#[trigger] lines_of(log@)[j], device@),
        decreases all.len() - i,
    {
        let line = all[i].as_slice();
        assert(line@ == views(all@)[i as int]);
        if contains(line, device) && contains(line, "driver=ready") && contains(
            line,
            "inventory-match=true",
        ) {
            assert(binds(lines_of(log@)[i as int], device@));
            return true;
        }
        i += 1;
    }
    assert(views(all@).len() == all@.len());
    false
}

/// Why the log does not show a disk and a network whose drivers are bound.
pub open spec fn hardware_fault(log: Seq<char>) -> Option<LogFault> {
    match report_in(log, "hardware inventory:"@) {
        None => Some(LogFault::ReportOmitted),
        Some(line) => if inventory_fault(line) is Some {
            inventory_fault(line)
        } else if !bound(log, "hardware driver binding: device=virtio-blk "@) {
            Some(LogFault::DriverUnbound(0))
        } else if !bound(log, "hardware driver binding: device=virtio-net "@) {
            Some(LogFault::DriverUnbound(1))
        } else {
            None
        },
    }
}

/// Checks that the log shows a disk and a network whose drivers are bound.
pub fn validate_hardware_log(log: &str) -> (result: Result<(), LogFault>)
    ensures
        result == checked(hardware_fault(log@)),
{
    let log = characters(log);
    let line = match find_report(log.as_slice(), "hardware inventory:") {
        Some(line) => line,
        None => return Err(LogFault::ReportOmitted),
    };
    match check_inventory(line.as_slice()) {
        Ok(_) => {},
        Err(fault) => return Err(fault),
    }
    if !is_bound(log.as_slice(), "hardware driver binding: device=virtio-blk ") {
        return Err(LogFault::DriverUnbound(0));
    }
    if !is_bound(log.as_slice(), "hardware driver binding: device=virtio-net ") {
        return Err(LogFault::DriverUnbound(1));
    }
    Ok(())
}

pub open spec fn network_parts() -> Seq<Seq<char>> {
    seq![
        "virtio-net: pci="@,
        "network configured: ipv4=10.0.2.15 mask=255.255.255.0 gateway=10.0.2.2 dhcp=10.0.2.2"@,
        "arp gateway verified: ip=10.0.2.2 mac="@,
        "icmp echo verified: destination=10.0.2.2 sequence=1"@,
        "dns resolved: name=example.com server="@,
        "tcp http verified: host=example.com remote="@,
        "network tcp listener ready: port=8080 protocol=http"@,
    ]
}

/// What the report of the network says: of several fields with one name, the last counts.
#[derive(Debug, Clone, Copy, PartialEq, Eq, Structural)]
pub struct NetworkNumbers {
    pub lease: u32,
    pub transmitted: u64,
    pub received: u64,
}

/// The part of a text before a last `s`.
pub open spec fn without_seconds(text: Seq<char>) -> Option<Seq<char>> {
    if text.len() > 0 && text[text.len() - 1] == 's' {
        Some(text.take(text.len() - 1))
    } else {
        None
    }
}

/// The lease that a field says, as a text.
pub open spec fn lease_text(field: Seq<char>) -> Option<Seq<char>> {
    match without_prefix(field, "lease="@) {
        Some(value) => without_seconds(value),
        None => None,
    }
}

/// What the report of the network says in its first `n` fields.
pub open spec fn network_numbers(fields: Seq<Seq<char>>, n: nat) -> Result<NetworkNumbers, LogFault>
    decreases n,
{
    if n == 0 {
        Ok(NetworkNumbers { lease: 0, transmitted: 0, received: 0 })
    } else {
        match network_numbers(fields, (n - 1) as nat) {
            Err(fault) => Err(fault),
            Ok(numbers) => {
                let field = fields[n - 1];
                if lease_text(field) is Some {
                    match unsigned_value(lease_text(field).unwrap(), u32::MAX as nat) {
                        Some(value) => Ok(NetworkNumbers { lease: value as u32, ..numbers }),
                        None => Err(LogFault::Field(0, FieldFault::Invalid)),
                    }
                } else if without_prefix(field, "tx="@) is Some {
                    match unsigned_value(
                        without_prefix(field, "tx="@).unwrap(),
                        u64::MAX as nat,
                    ) {
                        Some(value) => Ok(NetworkNumbers { transmitted: value as u64, ..numbers }),
                        None => Err(LogFault::Field(1, FieldFault::Invalid)),
                    }
                } else if without_prefix(field, "rx="@) is Some {
                    match unsigned_value(
                        without_prefix(field, "rx="@).unwrap(),
                        u64::MAX as nat,
                    ) {
                        Some(value) => Ok(NetworkNumbers { received: value as u64, ..numbers }),
                        None => Err(LogFault::Field(2, FieldFault::Invalid)),
                    }
                } else {
                    Ok(numbers)
                }
            },
        }
    }
}

proof fn lemma_network_fault(fields: Seq<Seq<char>>, n: nat, m: nat)
    requires
        n <= m,
        network_numbers(fields, n) is Err,
    ensures
        network_numbers(fields, m) == network_numbers(fields, n),
    decreases m,
{
    if n < m {
        lemma_network_fault(fields, n, (m - 1) as nat);
    }
}

/// The lease that a field says, as a text.
fn find_lease(field: &[char]) -> (text: Option<Vec<char>>)
    ensures
        match text {
            Some(text) => lease_text(field@) == Some(text@),
            None => lease_text(field@) is None,
        },
{
    match strip_prefix(field, "lease=") {
        Some(mut value) => {
            let ghost before = value@;
            match value.pop() {
                Some(last) => if last == 's' {
                    assert(value@ =~= before.take(before.len() - 1));
                    Some(value)
                } else {
                    None
                },
                None => None,
            }
        },
        None => None,
    }
}

/// What the report of the network says.
fn read_network_numbers(line: &[char]) -> (numbers: Result<NetworkNumbers, LogFault>)
    ensures
        numbers == network_numbers(fields_of(line@), fields_of(line@).len()),
{
    let all = fields(line);
    let mut numbers = NetworkNumbers { lease: 0, transmitted: 0, received: 0 };
    let mut i: usize = 0;
    assert(views(all@).len() == all@.len());
    while i < all.len()
        invariant
            i <= all@.len(),
            all@.len() == views(all@).len(),
            views(all@) == fields_of(line@),
            network_numbers(views(all@), i as nat) == Ok::<NetworkNumbers, LogFault>(numbers),
        decreases all.len() - i,
    {
        let field = all[i].as_slice();
        assert(field@ == views(all@)[i as int]);
        proof {
            if network_numbers(views(all@), (i + 1) as nat) is Err {
                lemma_network_fault(views(all@), (i + 1) as nat, all@.len());
            }
        }
        if let Some(value) = find_lease(field) {
            match parse_unsigned(value.as_slice(), u32::MAX as u64) {
                Some(value) => {
                    numbers.lease = value as u32;
                },
                None => return Err(LogFault::Field(0, FieldFault::Invalid)),
            }
        } else if let Some(value) = strip_prefix(field, "tx=") {
            match parse_unsigned(value.as_slice(), u64::MAX) {
                Some(value) => {
                    numbers.transmitted = value;
                },
                None => return Err(LogFault::Field(1, FieldFault::Invalid)),
            }
        } else if let Some(value) = strip_prefix(field, "rx=") {
            match parse_unsigned(value.as_slice(), u64::MAX) {
                Some(value) => {
                    numbers.received = value;
                },
                None => return Err(LogFault::Field(2, FieldFault::Invalid)),
            }
        }
        i += 1;
    }
    Ok(numbers)
}

/// Why the report of the network does not show a lease and frames in both directions.
pub open spec fn configuration_fault(line: Seq<char>) -> Option<LogFault> {
    match network_numbers(fields_of(line), fields_of(line).len()) {
        Err(fault) => Some(fault),
        Ok(numbers) => if numbers.lease == 0 || numbers.transmitted < 8 || numbers.received < 7 {
            Some(LogFault::Insufficient)
        } else {
            None
        },
    }
}

/// Why the report of a name does not show an address.
pub open spec fn dns_fault(line: Seq<char>) -> Option<LogFault> {
    if !occurs(line, "query-id=0x4344"@) {
        Some(LogFault::PartOmitted(0))
    } else {
        match field_in(line, "answer="@) {
            None => Some(LogFault::Field(3, FieldFault::Omitted)),
            Some(answer) => if answer == "0.0.0.0"@ {
                Some(LogFault::UnusableAddress)
            } else {
                None
            },
        }
    }
}

/// Why the report of a request does not show a response.
pub open spec fn http_fault(line: Seq<char>) -> Option<LogFault> {
    if !occurs(line, "source-port=49153"@) {
        Some(LogFault::PartOmitted(1))
    } else {
        match number_in(line, "status="@, u16::MAX as nat) {
            Err(fault) => Some(LogFault::Field(4, fault)),
            Ok(status) => match number_in(line, "bytes="@, usize::MAX as nat) {
                Err(fault) => Some(LogFault::Field(5, fault)),
                Ok(bytes) => if !(100 <= status < 600) || bytes == 0 {
                    Some(LogFault::Insufficient)
                } else {
                    None
                },
            },
        }
    }
}

fn check_dns(line: &[char]) -> (result: Result<(), LogFault>)
    ensures
        result == checked(dns_fault(line@)),
{
    if !contains(line, "query-id=0x4344") {
        return Err(LogFault::PartOmitted(0));
    }
    let answer = match find_field(line, "answer=") {
        Some(answer) => answer,
        None => return Err(LogFault::Field(3, FieldFault::Omitted)),
    };
    let unusable = characters("0.0.0.0");
    if answer.len() == unusable.len() {
        match position(answer.as_slice(), unusable.as_slice()) {
            Some(at) => {
                assert(at == 0);
                assert(answer@.subrange(0, answer@.len() as int) =~= answer@);
                return Err(LogFault::UnusableAddress);
            },
            None => {
                proof {
                    if answer@ == unusable@ {
                        assert(answer@.subrange(0, answer@.len() as int) =~= answer@);
                        assert(occurs_at(answer@, unusable@, 0));
                    }
                }
            },
        }
    }
    Ok(())
}

fn check_http(line: &[char]) -> (result: Result<(), LogFault>)
    ensures
        result == checked(http_fault(line@)),
{
    if !contains(line, "source-port=49153") {
        return Err(LogFault::PartOmitted(1));
    }
    let status: u64 = match parse_log_number(line, "status=", u16::MAX as u64) {
        Ok(status) => status,
        Err(fault) => return Err(LogFault::Field(4, fault)),
    };
    let bytes: usize = match parse_log_usize_field(line, "bytes=") {
        Ok(bytes) => bytes,
        Err(fault) => return Err(LogFault::Field(5, fault)),
    };
    if status < 100 || status >= 600 || bytes == 0 {
        return Err(LogFault::Insufficient);
    }
    Ok(())
}

/// Why the log does not show that the network was set up and used.
pub open spec fn network_fault(log: Seq<char>) -> Option<LogFault> {
    if parts_fault(log, network_parts()) is Some {
        parts_fault(log, network_parts())
    } else {
        match report_in(log, "network configured:"@) {
            None => Some(LogFault::ReportOmitted),
            Some(line) => if configuration_fault(line) is Some {
                configuration_fault(line)
            } else {
                match report_in(log, "dns resolved:"@) {
                    None => Some(LogFault::ReportOmitted),
                    Some(dns) => if dns_fault(dns) is Some {
                        dns_fault(dns)
                    } else {
                        match report_in(log, "tcp http verified:"@) {
                            None => Some(LogFault::ReportOmitted),
                            Some(http) => http_fault(http),
                        }
                    },
                }
            },
        }
    }
}

/// Checks that the log shows that the network was set up and used.
pub fn validate_network_log(log: &str) -> (result: Result<(), LogFault>)
    ensures
        result == checked(network_fault(log@)),
{
    let log = characters(log);
    let parts: [&str; 7] = [
        "virtio-net: pci=",
        "network configured: ipv4=10.0.2.15 mask=255.255.255.0 gateway=10.0.2.2 dhcp=10.0.2.2",
        "arp gateway verified: ip=10.0.2.2 mac=",
        "icmp echo verified: destination=10.0.2.2 sequence=1",
        "dns resolved: name=example.com server=",
        "tcp http verified: host=example.com remote=",
        "network tcp listener ready: port=8080 protocol=http",
    ];
    assert(texts(parts@) =~= network_parts());
    match require_parts(log.as_slice(), parts.as_slice()) {
        Ok(_) => {},
        Err(fault) => return Err(fault),
    }
    let line = match find_report(log.as_slice(), "network configured:") {
        Some(line) => line,
        None => return Err(LogFault::ReportOmitted),
    };
    let numbers = match read_network_numbers(line.as_slice()) {
        Ok(numbers) => numbers,
        Err(fault) => return Err(fault),
    };
    if numbers.lease == 0 || numbers.transmitted < 8 || numbers.received < 7 {
        return Err(LogFault::Insufficient);
    }
    let dns = match find_report(log.as_slice(), "dns resolved:") {
        Some(line) => line,
        None => return Err(LogFault::ReportOmitted),
    };
    match check_dns(dns.as_slice()) {
        Ok(_) => {},
        Err(fault) => return Err(fault),
    }
    match find_report(log.as_slice(), "tcp http verified:") {
        Some(line) => check_http(line.as_slice()),
        None => Err(LogFault::ReportOmitted),
    }
}

pub open spec fn served_parts() -> Seq<Seq<char>> {
    seq![
        "port=8080"@,
        "remote="@,
        "request-bytes="@,
        "response-bytes="@,
        "connections="@,
        "tx="@,
        "rx="@,
    ]
}

/// Why the report of a served request does not show an exchange.
pub open spec fn served_fault(line: Seq<char>) -> Option<LogFault> {
    let most = usize::MAX as nat;
    if parts_fault(line, served_parts()) is Some {
        parts_fault(line, served_parts())
    } else {
        match number_in(line, "request-bytes="@, most) {
            Err(fault) => Some(LogFault::Field(0, fault)),
            Ok(request) => match number_in(line, "response-bytes="@, most) {
                Err(fault) => Some(LogFault::Field(1, fault)),
                Ok(response) => match number_in(line, "connections="@, most) {
                    Err(fault) => Some(LogFault::Field(2, fault)),
                    Ok(connections) => if request < 16 || response < 64 || connections == 0 {
                        Some(LogFault::Insufficient)
                    } else {
                        None
                    },
                },
            },
        }
    }
}

/// Why the log does not show that the listener served a request.
pub open spec fn listener_fault(log: Seq<char>) -> Option<LogFault> {
    match report_in(log, "network tcp listener ready:"@) {
        None => Some(LogFault::ReportOmitted),
        Some(ready) => if parts_fault(ready, seq!["port=8080"@, "protocol=http"@]) is Some {
            parts_fault(ready, seq!["port=8080"@, "protocol=http"@])
        } else {
            match report_in(log, "tcp listener served:"@) {
                None => Some(LogFault::ReportOmitted),
                Some(served) => served_fault(served),
            }
        },
    }
}

fn check_served(line: &[char]) -> (result: Result<(), LogFault>)
    ensures
        result == checked(served_fault(line@)),
{
    let parts: [&str; 7] = [
        "port=8080",
        "remote=",
        "request-bytes=",
        "response-bytes=",
        "connections=",
        "tx=",
        "rx=",
    ];
    assert(texts(parts@) =~= served_parts());
    match require_parts(line, parts.as_slice()) {
        Ok(_) => {},
        Err(fault) => return Err(fault),
    }
    let request: usize = match parse_log_usize_field(line, "request-bytes=") {
        Ok(number) => number,
        Err(fault) => return Err(LogFault::Field(0, fault)),
    };
    let response: usize = match parse_log_usize_field(line, "response-bytes=") {
        Ok(number) => number,
        Err(fault) => return Err(LogFault::Field(1, fault)),
    };
    let connections: usize = match parse_log_usize_field(line, "connections=") {
        Ok(number) => number,
        Err(fault) => return Err(LogFault::Field(2, fault)),
    };
    if request < 16 || response < 64 || connections == 0 {
        return Err(LogFault::Insufficient);
    }
    Ok(())
}

/// Checks that the log shows that the listener served a request.
pub fn validate_network_listener_log(log: &str) -> (result: Result<(), LogFault>)
    ensures
        result == checked(listener_fault(log@)),
{
    let log = characters(log);
    let ready = match find_report(log.as_slice(), "network tcp listener ready:") {
        Some(line) => line,
        None => return Err(LogFault::ReportOmitted),
    };
    let parts: [&str; 2] = ["port=8080", "protocol=http"];
    assert(texts(parts@) =~= seq!["port=8080"@, "protocol=http"@]);
    match require_parts(ready.as_slice(), parts.as_slice()) {
        Ok(_) => {},
        Err(fault) => return Err(fault),
    }
    match find_report(log.as_slice(), "tcp listener served:") {
        Some(line) => check_served(line.as_slice()),
        None => Err(LogFault::ReportOmitted),
    }
}

/// Why the log does not show that the mouse was enabled.
pub open spec fn pointer_driver_fault(log: Seq<char>) -> Option<LogFault> {
    match report_in(log, "standalone pointer polling active: device=ps2"@) {
        None => Some(LogFault::ReportOmitted),
        Some(line) => if parts_fault(line, seq!["enabled=true"@, "id="@]) is Some {
            parts_fault(line, seq!["enabled=true"@, "id="@])
        } else {
            match number_in(line, "acknowledgements="@, usize::MAX as nat) {
                Err(fault) => Some(LogFault::Field(0, fault)),
                Ok(acknowledgements) => if acknowledgements < 2 {
                    Some(LogFault::Insufficient)
                } else {
                    None
                },
            }
        },
    }
}

/// Checks that the log shows that the mouse was enabled.
pub fn validate_pointer_driver_log(log: &str) -> (result: Result<(), LogFault>)
    ensures
        result == checked(pointer_driver_fault(log@)),
{
    let log = characters(log);
    let line = match find_report(log.as_slice(), "standalone pointer polling active: device=ps2") {
        Some(line) => line,
        None => return Err(LogFault::ReportOmitted),
    };
    let parts: [&str; 2] = ["enabled=true", "id="];
    assert(texts(parts@) =~= seq!["enabled=true"@, "id="@]);
    match require_parts(line.as_slice(), parts.as_slice()) {
        Ok(_) => {},
        Err(fault) => return Err(fault),
    }
    match parse_log_usize_field(line.as_slice(), "acknowledgements=") {
        Ok(acknowledgements) => if acknowledgements < 2 {
            Err(LogFault::Insufficient)
        } else {
            Ok(())
        },
        Err(fault) => Err(LogFault::Field(0, fault)),
    }
}

pub open spec fn pointer_event_parts() -> Seq<Seq<char>> {
    seq!["dx="@, "dy="@, "left="@, "right="@]
}

/// Why the log does not show that the mouse moved.
pub open spec fn pointer_event_fault(log: Seq<char>) -> Option<LogFault> {
    match report_in(log, "pointer input event: device=ps2"@) {
        None => Some(LogFault::ReportOmitted),
        Some(line) => if parts_fault(line, pointer_event_parts()) is Some {
            parts_fault(line, pointer_event_parts())
        } else {
            match signed_number_in(line, "dx="@) {
                Err(fault) => Some(LogFault::Field(0, fault)),
                Ok(dx) => match signed_number_in(line, "dy="@) {
                    Err(fault) => Some(LogFault::Field(1, fault)),
                    Ok(dy) => if dx == 0 && dy == 0 {
                        Some(LogFault::Insufficient)
                    } else {
                        None
                    },
                },
            }
        },
    }
}

/// Checks that the log shows that the mouse moved.
pub fn validate_pointer_event_log(log: &str) -> (result: Result<(), LogFault>)
    ensures
        result == checked(pointer_event_fault(log@)),
{
    let log = characters(log);
    let line = match find_report(log.as_slice(), "pointer input event: device=ps2") {
        Some(line) => line,
        None => return Err(LogFault::ReportOmitted),
    };
    let parts: [&str; 4] = ["dx=", "dy=", "left=", "right="];
    assert(texts(parts@) =~= pointer_event_parts());
    match require_parts(line.as_slice(), parts.as_slice()) {
        Ok(_) => {},
        Err(fault) => return Err(fault),
    }
    let dx: i32 = match parse_log_i32_field(line.as_slice(), "dx=") {
        Ok(number) => number,
        Err(fault) => return Err(LogFault::Field(0, fault)),
    };
    let dy: i32 = match parse_log_i32_field(line.as_slice(), "dy=") {
        Ok(number) => number,
        Err(fault) => return Err(LogFault::Field(1, fault)),
    };
    if dx == 0 && dy == 0 {
        return Err(LogFault::Insufficient);
    }
    Ok(())
}

/// What the report of the boot counter says: of several fields with one name, the last counts.
#[derive(Debug, Clone, Copy, PartialEq, Eq, Structural)]
pub struct CounterNumbers {
    pub previous: Option<u64>,
    pub current: Option<u64>,
    pub directories: u64,
}

/// What the report of the boot counter says in its first `n` fields.
pub open spec fn counter_numbers(fields: Seq<Seq<char>>, n: nat) -> Result<CounterNumbers, LogFault>
    decreases n,
{
    if n == 0 {
        Ok(CounterNumbers { previous: None, current: None, directories: 0 })
    } else {
        match counter_numbers(fields, (n - 1) as nat) {
            Err(fault) => Err(fault),
            Ok(numbers) => {
                let field = fields[n - 1];
                if without_prefix(field, "previous="@) is Some {
                    match unsigned_value(
                        without_prefix(field, "previous="@).unwrap(),
                        u64::MAX as nat,
                    ) {
                        Some(value) => Ok(
                            CounterNumbers { previous: Some(value as u64), ..numbers },
                        ),
                        None => Err(LogFault::Field(0, FieldFault::Invalid)),
                    }
                } else if without_prefix(field, "current="@) is Some {
                    match unsigned_value(
                        without_prefix(field, "current="@).unwrap(),
                        u64::MAX as nat,
                    ) {
                        Some(value) => Ok(CounterNumbers { current: Some(value as u64), ..numbers }),
                        None => Err(LogFault::Field(1, FieldFault::Invalid)),
                    }
                } else if without_prefix(field, "directories="@) is Some {
                    match unsigned_value(
                        without_prefix(field, "directories="@).unwrap(),
                        u64::MAX as nat,
                    ) {
                        Some(value) => Ok(CounterNumbers { directories: value as u64, ..numbers }),
                        None => Err(LogFault::Field(2, FieldFault::Invalid)),
                    }
                } else {
                    Ok(numbers)
                }
            },
        }
    }
}

proof fn lemma_counter_fault(fields: Seq<Seq<char>>, n: nat, m: nat)
    requires
        n <= m,
        counter_numbers(fields, n) is Err,
    ensures
        counter_numbers(fields, m) == counter_numbers(fields, n),
    decreases m,
{
    if n < m {
        lemma_counter_fault(fields, n, (m - 1) as nat);
    }
}

/// What the report of the boot counter says.
fn read_counter_numbers(line: &[char]) -> (numbers: Result<CounterNumbers, LogFault>)
    ensures
        numbers == counter_numbers(fields_of(line@), fields_of(line@).len()),
{
    let all = fields(line);
    let mut numbers = CounterNumbers { previous: None, current: None, directories: 0 };
    let mut i: usize = 0;
    assert(views(all@).len() == all@.len());
    while i < all.len()
        invariant
            i <= all@.len(),
            all@.len() == views(all@).len(),
            views(all@) == fields_of(line@),
            counter_numbers(views(all@), i as nat) == Ok::<CounterNumbers, LogFault>(numbers),
        decreases all.len() - i,
    {
        let field = all[i].as_slice();
        assert(field@ == views(all@)[i as int]);
        proof {
            if counter_numbers(views(all@), (i + 1) as nat) is Err {
                lemma_counter_fault(views(all@), (i + 1) as nat, all@.len());
            }
        }
        if let Some(value) = strip_prefix(field, "previous=") {
            match parse_unsigned(value.as_slice(), u64::MAX) {
                Some(value) => {
                    numbers.previous = Some(value);
                },
                None => return Err(LogFault::Field(0, FieldFault::Invalid)),
            }
        } else if let Some(value) = strip_prefix(field, "current=") {
            match parse_unsigned(value.as_slice(), u64::MAX) {
                Some(value) => {
                    numbers.current = Some(value);
                },
                None => return Err(LogFault::Field(1, FieldFault::Invalid)),
            }
        } else if let Some(value) = strip_prefix(field, "directories=") {
            match parse_unsigned(value.as_slice(), u64::MAX) {
                Some(value) => {
                    numbers.directories = value;
                },
                None => return Err(LogFault::Field(2, FieldFault::Invalid)),
            }
        }
        i += 1;
    }
    Ok(numbers)
}

/// What the log says of the boot counter before and after the boot.
pub open spec fn counter_report(log: Seq<char>) -> Result<(u64, u64), LogFault> {
    match report_in(log, "filesystem persistence:"@) {
        None => Err(LogFault::ReportOmitted),
        Some(line) => if !occurs(line, "verified=true"@) {
            Err(LogFault::PartOmitted(0))
        } else {
            match counter_numbers(fields_of(line), fields_of(line).len()) {
                Err(fault) => Err(fault),
                Ok(numbers) => if numbers.directories < 2 {
                    Err(LogFault::Insufficient)
                } else {
                    match (numbers.previous, numbers.current) {
                        (None, _) => Err(LogFault::Field(0, FieldFault::Omitted)),
                        (Some(_), None) => Err(LogFault::Field(1, FieldFault::Omitted)),
                        (Some(previous), Some(current)) => Ok((previous, current)),
                    }
                },
            }
        },
    }
}

/// What the log says of the boot counter before and after the boot.
pub fn persistence_counter(log: &str) -> (counter: Result<(u64, u64), LogFault>)
    ensures
        counter == counter_report(log@),
{
    let log = characters(log);
    let line = match find_report(log.as_slice(), "filesystem persistence:") {
        Some(line) => line,
        None => return Err(LogFault::ReportOmitted),
    };
    if !contains(line.as_slice(), "verified=true") {
        return Err(LogFault::PartOmitted(0));
    }
    let numbers = match read_counter_numbers(line.as_slice()) {
        Ok(numbers) => numbers,
        Err(fault) => return Err(fault),
    };
    if numbers.directories < 2 {
        return Err(LogFault::Insufficient);
    }
    match (numbers.previous, numbers.current) {
        (None, _) => Err(LogFault::Field(0, FieldFault::Omitted)),
        (Some(_), None) => Err(LogFault::Field(1, FieldFault::Omitted)),
        (Some(previous), Some(current)) => Ok((previous, current)),
    }
}

/// What follows the first `relocs=` of a line.
pub open spec fn after_relocations(line: Seq<char>) -> Option<Seq<char>>
{
    if occurs(line, "relocs="@) {
        Some(line.skip(first_at(line, "relocs="@, 0) + "relocs="@.len()))
    } else {
        None
    }
}

/// The first place from `at` on where a part is.
pub open spec fn first_at(text: Seq<char>, part: Seq<char>, at: int) -> int
    decreases text.len() - at,
{
    if at >= text.len() || occurs_at(text, part, at) {
        at
    } else {
        first_at(text, part, at + 1)
    }
}

proof fn lemma_first_at(text: Seq<char>, part: Seq<char>, at: int, found: int)
    requires
        0 <= at <= found <= text.len(),
        occurs_at(text, part, found),
        forall|i: int| 0 <= i < found ==> !#[trigger] occurs_at(text, part, i),
    ensures
        first_at(text, part, at) == found,
    decreases found - at,
{
    if at < found {
        lemma_first_at(text, part, at + 1, found);
    }
}

/// Whether a line says that relocations were applied.
pub open spec fn counts_relocations(line: Seq<char>) -> bool {
    match after_relocations(line) {
        Some(rest) => fields_of(rest).len() > 0 && match unsigned_value(
            fields_of(rest)[0],
            usize::MAX as nat,
        ) {
            Some(count) => count != 0,
            None => false,
        },
        None => false,
    }
}

fn line_counts_relocations(line: &[char]) -> (result: bool)
    ensures
        result == counts_relocations(line@),
{
    let part = characters("relocs=");
    match position(line, part.as_slice()) {
        Some(at) => {
            proof {
                assert(occurs_at(line@, part@, at as int));
                lemma_first_at(line@, part@, 0, at as int);
            }
            let length: usize = line.len();
            let rest = slice_subrange(line, at + part.len(), length);
            assert(rest@ =~= line@.skip(at + part@.len()));
            let all = fields(rest);
            assert(views(all@).len() == all@.len());
            if all.len() == 0 {
                return false;
            }
            assert(all@[0]@ == views(all@)[0]);
            match parse_unsigned(all[0].as_slice(), usize::MAX as u64) {
                Some(count) => count != 0,
                None => false,
            }
        },
        None => false,
    }
}

/// Whether the log says that relocations were applied.
pub open spec fn relocations_applied(log: Seq<char>) -> bool {
    exists|i: int| 0 <= i < lines_of(log).len() && counts_relocations(#[trigger] lines_of(log)[i])
}

/// Whether the log says that relocations were applied.
pub fn has_applied_kernel_relocations(log: &str) -> (result: bool)
    ensures
        result == relocations_applied(log@),
{
    let text = characters(log);
    let all = lines(text.as_slice());
    let mut i: usize = 0;
    assert(views(all@).len() == all@.len());
    while i < all.len()
        invariant
            i <= all@.len(),
            all@.len() == views(all@).len(),
            views(all@) == lines_of(log@),
            forall|j: int| 0 <= j < i ==> !counts_relocations(#[trigger] lines_of(log@)[j]),
        decreases all.len() - i,
    {
        assert(all@[i as int]@ == views(all@)[i as int]);
        if line_counts_relocations(all[i].as_slice()) {
            assert(counts_relocations(lines_of(log@)[i as int]));
            return true;
        }
        i += 1;
    }
    false
}

} // verus!
