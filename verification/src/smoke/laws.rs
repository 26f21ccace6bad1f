//! What a log that passes has said, part by part and number by number.

use vstd::prelude::*;
use crate::hex::hex_text;
use crate::kernel_image::{proof_bytes, rolling_checksum};
use crate::smoke::boot::{
    boot_log_fault, chainload_parts, handoff_parts, kernel_parts, post_exit_parts, reboot_fault,
    BootLogFault, LoaderMode,
};
use crate::smoke::fields::{
    field_in, first_field_with, first_line_with, number_in, report_in, signed_number_in, FieldFault,
    LogFault,
};
use crate::smoke::monitor::{lower, refuses};
use crate::smoke::reports::{
    bound, checksum_text, configuration_fault, counter_numbers, counter_report, counts_relocations,
    dns_fault, filesystem_fault, first_at,
    hardware_fault, hardware_parts, http_fault, inventory_fault, large_file_fault, large_file_parts,
    listener_fault, mount_fault, mount_parts, network_fault, network_numbers, network_parts,
    number_bytes,
    parts_fault, persistent_executable_fault, persistent_executable_parts, pointer_driver_fault,
    pointer_event_fault, pointer_event_parts, relocations_applied, served_fault, served_parts,
    CounterNumbers, NetworkNumbers,
};
use crate::smoke::scenarios::{
    rejection_fault, rotated_parts, rotation_parts, scenario_parts, RejectionFault, Scenario,
};
use crate::text::{
    fields_of, first_missing, lines_of, occurs, occurs_at, signed_value, unsigned_value,
    without_prefix,
};

verus! {

/// A part is found in a text wherever it stands, and only if it stands there.
pub proof fn a_part_is_found_where_it_stands(
    text: Seq<char>,
    before: Seq<char>,
    part: Seq<char>,
    behind: Seq<char>,
)
    ensures
        occurs(before + part + behind, part),
        occurs(text, part) ==> exists|a: Seq<char>, b: Seq<char>| text == #[trigger] (a + part + b),
{
    let whole = before + part + behind;
    assert(whole.subrange(before.len() as int, (before.len() + part.len()) as int) =~= part);
    assert(occurs_at(whole, part, before.len() as int));
    if occurs(text, part) {
        let at = choose|at: int| occurs_at(text, part, at);
        let a = text.take(at);
        let b = text.skip(at + part.len());
        assert(a + part + b =~= text) by {
            assert forall|i: int| 0 <= i < text.len() implies (a + part + b)[i] == text[i] by {
                if at <= i < at + part.len() {
                    assert(text.subrange(at, at + part.len())[i - at] == text[i]);
                }
            }
        }
    }
}

proof fn lemma_first_missing(text: Seq<char>, parts: Seq<Seq<char>>, i: int)
    requires
        0 <= i <= parts.len() <= usize::MAX,
    ensures
        match first_missing(text, parts, i) {
            None => forall|k: int| i <= k < parts.len() ==> occurs(text, #[trigger] parts[k]),
            Some(m) => i <= m < parts.len() && !occurs(text, parts[m as int]) && forall|k: int|
                i <= k < m ==> occurs(text, #[trigger] parts[k]),
        },
    decreases parts.len() - i,
{
    if i < parts.len() && occurs(text, parts[i]) {
        lemma_first_missing(text, parts, i + 1);
    }
}

/// Every part is looked for: the first that is missing is named, and none where all are there.
pub proof fn every_part_is_looked_for(text: Seq<char>, parts: Seq<Seq<char>>)
    requires
        parts.len() <= usize::MAX,
    ensures
        first_missing(text, parts, 0) is None <==> forall|k: int|
            0 <= k < parts.len() ==> occurs(text, #[trigger] parts[k]),
        first_missing(text, parts, 0) matches Some(m) ==> m < parts.len() && !occurs(
            text,
            parts[m as int],
        ) && forall|k: int| 0 <= k < m ==> occurs(text, #[trigger] parts[k]),
{
    lemma_first_missing(text, parts, 0);
}

proof fn lemma_first_line(lines: Seq<Seq<char>>, part: Seq<char>, i: int, k: int)
    requires
        0 <= i <= k <= lines.len(),
        forall|j: int| i <= j < k ==> !occurs(#[trigger] lines[j], part),
        k < lines.len() ==> occurs(lines[k], part),
    ensures
        first_line_with(lines, part, i) == if k < lines.len() {
            Some(lines[k])
        } else {
            None
        },
    decreases k - i,
{
    if i < k {
        lemma_first_line(lines, part, i + 1, k);
    }
}

/// A report is the first line of the log that has what marks it.
pub proof fn a_report_is_the_first_line_of_its_kind(log: Seq<char>, mark: Seq<char>, k: int)
    requires
        0 <= k <= lines_of(log).len(),
        forall|j: int| 0 <= j < k ==> !occurs(#[trigger] lines_of(log)[j], mark),
        k < lines_of(log).len() ==> occurs(lines_of(log)[k], mark),
    ensures
        report_in(log, mark) == if k < lines_of(log).len() {
            Some(lines_of(log)[k])
        } else {
            None
        },
{
    lemma_first_line(lines_of(log), mark, 0, k);
}

proof fn lemma_first_field(fields: Seq<Seq<char>>, prefix: Seq<char>, i: int, k: int)
    requires
        0 <= i <= k <= fields.len(),
        forall|j: int| i <= j < k ==> !occurs_at(#[trigger] fields[j], prefix, 0),
        k < fields.len() ==> occurs_at(fields[k], prefix, 0),
    ensures
        first_field_with(fields, prefix, i) == if k < fields.len() {
            Some(fields[k].skip(prefix.len() as int))
        } else {
            None
        },
    decreases k - i,
{
    if i < k {
        lemma_first_field(fields, prefix, i + 1, k);
    }
}

/// The number of a field is what stands behind its name, in the first field of that name; a field that is
/// missing and one that holds no number are told apart.
pub proof fn a_number_stands_behind_its_name(
    line: Seq<char>,
    name: Seq<char>,
    value: Seq<char>,
    most: nat,
    k: int,
)
    requires
        0 <= k <= fields_of(line).len(),
        forall|j: int| 0 <= j < k ==> !occurs_at(#[trigger] fields_of(line)[j], name, 0),
        k < fields_of(line).len() ==> fields_of(line)[k] == name + value,
    ensures
        k < fields_of(line).len() ==> field_in(line, name) == Some(value),
        k == fields_of(line).len() ==> field_in(line, name) is None && number_in(line, name, most)
            == Err::<nat, FieldFault>(FieldFault::Omitted) && signed_number_in(line, name) == Err::<
            int,
            FieldFault,
        >(FieldFault::Omitted),
        k < fields_of(line).len() ==> number_in(line, name, most) == match unsigned_value(value, most) {
            Some(n) => Ok::<nat, FieldFault>(n),
            None => Err(FieldFault::Invalid),
        },
        k < fields_of(line).len() ==> signed_number_in(line, name) == match signed_value(value) {
            Some(n) => Ok::<int, FieldFault>(n),
            None => Err(FieldFault::Invalid),
        },
{
    if k < fields_of(line).len() {
        assert((name + value).subrange(0, name.len() as int) =~= name);
        assert((name + value).skip(name.len() as int) =~= value);
    }
    lemma_first_field(fields_of(line), name, 0, k);
}

/// Whether a line gives a number that is large enough.
pub open spec fn gives(line: Seq<char>, name: Seq<char>, least: nat) -> bool {
    number_in(line, name, usize::MAX as nat) matches Ok(n) && n >= least
}

/// The mount passes if its line gives slots of more than 64 sectors and records of more than 32768
/// bytes, and says how many sectors are in use.
pub proof fn a_mount_shows_room_for_large_records(line: Seq<char>)
    ensures
        mount_fault(line) is None <==> {
            &&& occurs(line, "slot-sectors="@)
            &&& occurs(line, "active-sectors="@)
            &&& occurs(line, "max-record-bytes="@)
            &&& gives(line, "slot-sectors="@, 65)
            &&& gives(line, "max-record-bytes="@, 32769)
        },
{
    let parts = mount_parts();
    every_part_is_looked_for(line, parts);
    assert(parts.len() == 3);
    assert(parts[0] == "slot-sectors="@ && parts[1] == "active-sectors="@ && parts[2]
        == "max-record-bytes="@);
}

/// The large file passes if it is the one that was written, of 98304 bytes, in a record of more than 64
/// sectors that has room in its slot.
pub proof fn a_large_file_was_written_whole(line: Seq<char>)
    ensures
        large_file_fault(line) is None ==> {
            &&& occurs(line, "path=/system/large-proof.bin"@)
            &&& occurs(line, "bytes=98304"@)
            &&& occurs(line, "checksum="@)
            &&& occurs(line, "written="@)
            &&& number_in(line, "bytes="@, usize::MAX as nat) == Ok::<nat, FieldFault>(98304)
            &&& gives(line, "record-sectors="@, 65)
            &&& number_in(line, "slot-sectors="@, usize::MAX as nat) matches Ok(slot)
                && number_in(line, "record-sectors="@, usize::MAX as nat) matches Ok(record) && record
                <= slot
        },
{
    let parts = large_file_parts();
    every_part_is_looked_for(line, parts);
    assert(parts.len() == 6);
    assert(parts[0] == "path=/system/large-proof.bin"@ && parts[1] == "bytes=98304"@ && parts[2]
        == "checksum="@ && parts[5] == "written="@);
}

/// The filesystem passes if the log has both reports and both pass.
pub proof fn a_filesystem_is_mounted_and_tried(log: Seq<char>)
    ensures
        filesystem_fault(log) is None <==> {
            &&& report_in(log, "codexfs: mounted state="@) matches Some(mount)
            &&& mount_fault(mount) is None
            &&& report_in(log, "filesystem large-file verified:"@) matches Some(line)
            &&& large_file_fault(line) is None
        },
{
}

/// A program from the disk passes if it is the one that was stored, was run to its end and gave back its
/// pages.
pub proof fn a_stored_program_was_run(log: Seq<char>)
    ensures
        persistent_executable_fault(log) is None <==> {
            &&& report_in(log, "persistent executable verified:"@) matches Some(line)
            &&& occurs(line, "path=/system/bin/scheduler-gate.elf"@)
            &&& occurs(line, "segments=1"@)
            &&& occurs(line, "exit=2001"@)
            &&& occurs(line, "idle-halts="@)
            &&& occurs(line, "reclaimed-pages=6"@)
            &&& occurs(line, "sha256-prefix="@)
        },
{
    let parts = persistent_executable_parts();
    assert(parts.len() == 6);
    assert(parts[0] == "path=/system/bin/scheduler-gate.elf"@ && parts[1] == "segments=1"@ && parts[2]
        == "exit=2001"@ && parts[3] == "idle-halts="@ && parts[4] == "reclaimed-pages=6"@ && parts[5]
        == "sha256-prefix="@);
    match report_in(log, "persistent executable verified:"@) {
        Some(line) => {
            every_part_is_looked_for(line, parts);
        },
        None => {},
    }
}

/// The inventory passes if it is complete and has the two virtio devices, with their ports.
pub proof fn an_inventory_has_both_devices(line: Seq<char>)
    ensures
        inventory_fault(line) is None <==> {
            &&& occurs(line, "overflow=false"@)
            &&& occurs(line, "virtio-blk="@)
            &&& occurs(line, "virtio-net="@)
            &&& occurs(line, "virtio-legacy="@)
            &&& occurs(line, "io-bars="@)
            &&& gives(line, "pci-devices="@, 2)
            &&& gives(line, "storage="@, 1)
            &&& gives(line, "network="@, 1)
            &&& gives(line, "virtio-legacy="@, 2)
            &&& gives(line, "io-bars="@, 2)
        },
{
    let parts = hardware_parts();
    every_part_is_looked_for(line, parts);
    assert(parts.len() == 5);
    assert(parts[0] == "overflow=false"@ && parts[1] == "virtio-blk="@ && parts[2] == "virtio-net="@
        && parts[3] == "virtio-legacy="@ && parts[4] == "io-bars="@);
}

/// Whether some line of the log binds a driver to a device.
pub open spec fn a_line_binds(log: Seq<char>, device: Seq<char>, i: int) -> bool {
    &&& 0 <= i < lines_of(log).len()
    &&& occurs(lines_of(log)[i], device)
    &&& occurs(lines_of(log)[i], "driver=ready"@)
    &&& occurs(lines_of(log)[i], "inventory-match=true"@)
}

/// The hardware passes if the inventory does and each of the two devices has its driver.
pub proof fn both_devices_have_drivers(log: Seq<char>)
    ensures
        hardware_fault(log) is None <==> {
            &&& report_in(log, "hardware inventory:"@) matches Some(line)
            &&& inventory_fault(line) is None
            &&& exists|i: int|
                #[trigger]
                a_line_binds(log, "hardware driver binding: device=virtio-blk "@, i)
            &&& exists|i: int|
                #[trigger]
                a_line_binds(log, "hardware driver binding: device=virtio-net "@, i)
        },
{
    let block = "hardware driver binding: device=virtio-blk "@;
    let network = "hardware driver binding: device=virtio-net "@;
    lemma_bound(log, block);
    lemma_bound(log, network);
}

proof fn lemma_bound(log: Seq<char>, device: Seq<char>)
    ensures
        bound(log, device) <==> exists|i: int| #[trigger] a_line_binds(log, device, i),
{
    if bound(log, device) {
        let i = choose|i: int|
            0 <= i < lines_of(log).len() && crate::smoke::reports::binds(
                #[trigger] lines_of(log)[i],
                device,
            );
        assert(a_line_binds(log, device, i));
    }
    if exists|i: int| #[trigger] a_line_binds(log, device, i) {
        let i = choose|i: int| #[trigger] a_line_binds(log, device, i);
        assert(crate::smoke::reports::binds(lines_of(log)[i], device));
    }
}

proof fn lemma_same_network(a: Seq<Seq<char>>, b: Seq<Seq<char>>, n: nat)
    requires
        n <= a.len(),
        n <= b.len(),
        forall|i: int| 0 <= i < n ==> #[trigger] a[i] == b[i],
    ensures
        network_numbers(a, n) == network_numbers(b, n),
    decreases n,
{
    if n > 0 {
        lemma_same_network(a, b, (n - 1) as nat);
        assert(a[n - 1] == b[n - 1]);
    }
}

/// The numbers of the network are read field by field: the seconds of the lease, the frames that were
/// sent, the frames that came; what comes later counts, and any other field changes nothing.
pub proof fn network_numbers_are_read_field_by_field(
    fields: Seq<Seq<char>>,
    field: Seq<char>,
    value: Seq<char>,
)
    requires
        network_numbers(fields, fields.len()) is Ok,
    ensures
        network_numbers(Seq::<Seq<char>>::empty(), 0) matches Ok(none) && none.lease == 0
            && none.transmitted == 0 && none.received == 0,
        ({
            let before = network_numbers(fields, fields.len())->Ok_0;
            let after = network_numbers(fields.push(field), fields.len() + 1);
            &&& field == "lease="@ + value + "s"@ ==> match unsigned_value(value, 0xffff_ffff) {
                Some(n) => after matches Ok(numbers) && numbers.lease == n && numbers.transmitted
                    == before.transmitted && numbers.received == before.received,
                None => after == Err::<NetworkNumbers, LogFault>(
                    LogFault::Field(0, FieldFault::Invalid),
                ),
            }
            &&& field == "tx="@ + value ==> match unsigned_value(value, 0xffff_ffff_ffff_ffff) {
                Some(n) => after matches Ok(numbers) && numbers.transmitted == n && numbers.lease
                    == before.lease && numbers.received == before.received,
                None => after == Err::<NetworkNumbers, LogFault>(
                    LogFault::Field(1, FieldFault::Invalid),
                ),
            }
            &&& field == "rx="@ + value ==> match unsigned_value(value, 0xffff_ffff_ffff_ffff) {
                Some(n) => after matches Ok(numbers) && numbers.received == n && numbers.lease
                    == before.lease && numbers.transmitted == before.transmitted,
                None => after == Err::<NetworkNumbers, LogFault>(
                    LogFault::Field(2, FieldFault::Invalid),
                ),
            }
            &&& !occurs_at(field, "lease="@, 0) && !occurs_at(field, "tx="@, 0) && !occurs_at(
                field,
                "rx="@,
                0,
            ) ==> after == Ok::<NetworkNumbers, LogFault>(before)
        }),
{
    let longer = fields.push(field);
    lemma_same_network(longer, fields, fields.len());
    assert(longer[fields.len() as int] == field);
    reveal_strlit("lease=");
    reveal_strlit("tx=");
    reveal_strlit("rx=");
    reveal_strlit("s");
    if field == "lease="@ + value + "s"@ {
        assert(field.subrange(0, 6) =~= "lease="@);
        assert(field.skip(6) =~= value + "s"@);
        assert((value + "s"@).take(value.len() as int) =~= value);
    }
    if field == "tx="@ + value {
        assert(field.subrange(0, 3) =~= "tx="@);
        assert(field.skip(3) =~= value);
        assert(field[0] == 't');
        if occurs_at(field, "lease="@, 0) {
            assert(field.subrange(0, 6)[0] == field[0]);
        }
    }
    if field == "rx="@ + value {
        assert(field.subrange(0, 3) =~= "rx="@);
        assert(field.skip(3) =~= value);
        assert(field[0] == 'r');
        if occurs_at(field, "lease="@, 0) {
            assert(field.subrange(0, 6)[0] == field[0]);
        }
        assert("tx="@[0] == 't');
        if occurs_at(field, "tx="@, 0) {
            assert(field.subrange(0, 3)[0] == field[0]);
        }
    }
}

/// The network passes if an address was leased, eight frames were sent and seven came, the name was
/// resolved to an address that is not zero, and the server answered with a status and a body.
pub proof fn a_network_was_configured_and_tried(log: Seq<char>)
    ensures
        network_fault(log) is None <==> {
            &&& occurs(log, "virtio-net: pci="@)
            &&& occurs(
                log,
                "network configured: ipv4=10.0.2.15 mask=255.255.255.0 gateway=10.0.2.2 dhcp=10.0.2.2"@,
            )
            &&& occurs(log, "arp gateway verified: ip=10.0.2.2 mac="@)
            &&& occurs(log, "icmp echo verified: destination=10.0.2.2 sequence=1"@)
            &&& occurs(log, "dns resolved: name=example.com server="@)
            &&& occurs(log, "tcp http verified: host=example.com remote="@)
            &&& occurs(log, "network tcp listener ready: port=8080 protocol=http"@)
            &&& report_in(log, "network configured:"@) matches Some(line)
            &&& network_numbers(fields_of(line), fields_of(line).len()) matches Ok(numbers)
            &&& numbers.lease > 0 && numbers.transmitted >= 8 && numbers.received >= 7
            &&& report_in(log, "dns resolved:"@) matches Some(dns)
            &&& occurs(dns, "query-id=0x4344"@)
            &&& field_in(dns, "answer="@) matches Some(answer)
            &&& answer != "0.0.0.0"@
            &&& report_in(log, "tcp http verified:"@) matches Some(http)
            &&& occurs(http, "source-port=49153"@)
            &&& number_in(http, "status="@, 0xffff) matches Ok(status)
            &&& 100 <= status < 600
            &&& gives(http, "bytes="@, 1)
        },
{
    let parts = network_parts();
    every_part_is_looked_for(log, parts);
    assert(parts.len() == 7);
    assert(parts[0] == "virtio-net: pci="@);
    assert(parts[1]
        == "network configured: ipv4=10.0.2.15 mask=255.255.255.0 gateway=10.0.2.2 dhcp=10.0.2.2"@);
    assert(parts[2] == "arp gateway verified: ip=10.0.2.2 mac="@);
    assert(parts[3] == "icmp echo verified: destination=10.0.2.2 sequence=1"@);
    assert(parts[4] == "dns resolved: name=example.com server="@);
    assert(parts[5] == "tcp http verified: host=example.com remote="@);
    assert(parts[6] == "network tcp listener ready: port=8080 protocol=http"@);
}

/// A served request passes if it was long enough to be one, was answered with enough, and was counted.
pub proof fn a_request_was_served(line: Seq<char>)
    ensures
        served_fault(line) is None <==> {
            &&& occurs(line, "port=8080"@)
            &&& occurs(line, "remote="@)
            &&& occurs(line, "request-bytes="@)
            &&& occurs(line, "response-bytes="@)
            &&& occurs(line, "connections="@)
            &&& occurs(line, "tx="@)
            &&& occurs(line, "rx="@)
            &&& gives(line, "request-bytes="@, 16)
            &&& gives(line, "response-bytes="@, 64)
            &&& gives(line, "connections="@, 1)
        },
{
    let parts = served_parts();
    every_part_is_looked_for(line, parts);
    assert(parts.len() == 7);
    assert(parts[0] == "port=8080"@ && parts[1] == "remote="@ && parts[2] == "request-bytes="@
        && parts[3] == "response-bytes="@ && parts[4] == "connections="@ && parts[5] == "tx="@
        && parts[6] == "rx="@);
}

/// The listener passes if it says what it listens for and a request was served.
pub proof fn a_listener_was_ready_and_served(log: Seq<char>)
    ensures
        listener_fault(log) is None <==> {
            &&& report_in(log, "network tcp listener ready:"@) matches Some(ready)
            &&& occurs(ready, "port=8080"@)
            &&& occurs(ready, "protocol=http"@)
            &&& report_in(log, "tcp listener served:"@) matches Some(served)
            &&& served_fault(served) is None
        },
{
    let parts = seq!["port=8080"@, "protocol=http"@];
    assert(parts[0] == "port=8080"@ && parts[1] == "protocol=http"@);
    match report_in(log, "network tcp listener ready:"@) {
        Some(ready) => {
            every_part_is_looked_for(ready, parts);
        },
        None => {},
    }
}

/// The driver of the pointer passes if it is enabled and the device answered twice.
pub proof fn a_pointer_was_enabled(log: Seq<char>)
    ensures
        pointer_driver_fault(log) is None <==> {
            &&& report_in(log, "standalone pointer polling active: device=ps2"@) matches Some(line)
            &&& occurs(line, "enabled=true"@)
            &&& occurs(line, "id="@)
            &&& gives(line, "acknowledgements="@, 2)
        },
{
    let parts = seq!["enabled=true"@, "id="@];
    assert(parts[0] == "enabled=true"@ && parts[1] == "id="@);
    match report_in(log, "standalone pointer polling active: device=ps2"@) {
        Some(line) => {
            every_part_is_looked_for(line, parts);
        },
        None => {},
    }
}

/// An event of the pointer passes if it has its four fields and is a movement.
pub proof fn a_pointer_was_moved(log: Seq<char>)
    ensures
        pointer_event_fault(log) is None <==> {
            &&& report_in(log, "pointer input event: device=ps2"@) matches Some(line)
            &&& occurs(line, "dx="@) && occurs(line, "dy="@) && occurs(line, "left="@) && occurs(
                line,
                "right="@,
            )
            &&& signed_number_in(line, "dx="@) matches Ok(dx)
            &&& signed_number_in(line, "dy="@) matches Ok(dy)
            &&& dx != 0 || dy != 0
        },
{
    let parts = pointer_event_parts();
    assert(parts.len() == 4);
    assert(parts[0] == "dx="@ && parts[1] == "dy="@ && parts[2] == "left="@ && parts[3] == "right="@);
    match report_in(log, "pointer input event: device=ps2"@) {
        Some(line) => {
            every_part_is_looked_for(line, parts);
        },
        None => {},
    }
}

proof fn lemma_same_counter(a: Seq<Seq<char>>, b: Seq<Seq<char>>, n: nat)
    requires
        n <= a.len(),
        n <= b.len(),
        forall|i: int| 0 <= i < n ==> #[trigger] a[i] == b[i],
    ensures
        counter_numbers(a, n) == counter_numbers(b, n),
    decreases n,
{
    if n > 0 {
        lemma_same_counter(a, b, (n - 1) as nat);
        assert(a[n - 1] == b[n - 1]);
    }
}

/// The counter is read field by field: what it was, what it is, and how many directories there are.
pub proof fn the_counter_is_read_field_by_field(
    fields: Seq<Seq<char>>,
    field: Seq<char>,
    value: Seq<char>,
)
    requires
        counter_numbers(fields, fields.len()) is Ok,
    ensures
        counter_numbers(Seq::<Seq<char>>::empty(), 0) matches Ok(none) && none.previous is None
            && none.current is None && none.directories == 0,
        ({
            let before = counter_numbers(fields, fields.len())->Ok_0;
            let after = counter_numbers(fields.push(field), fields.len() + 1);
            let number = unsigned_value(value, 0xffff_ffff_ffff_ffff);
            &&& field == "previous="@ + value ==> match number {
                Some(n) => after matches Ok(numbers) && numbers.previous matches Some(p) && p == n
                    && numbers.current == before.current && numbers.directories
                    == before.directories,
                None => after == Err::<CounterNumbers, LogFault>(
                    LogFault::Field(0, FieldFault::Invalid),
                ),
            }
            &&& field == "current="@ + value ==> match number {
                Some(n) => after matches Ok(numbers) && numbers.current matches Some(c) && c == n
                    && numbers.previous == before.previous && numbers.directories
                    == before.directories,
                None => after == Err::<CounterNumbers, LogFault>(
                    LogFault::Field(1, FieldFault::Invalid),
                ),
            }
            &&& field == "directories="@ + value ==> match number {
                Some(n) => after matches Ok(numbers) && numbers.directories == n && numbers.previous
                    == before.previous && numbers.current == before.current,
                None => after == Err::<CounterNumbers, LogFault>(
                    LogFault::Field(2, FieldFault::Invalid),
                ),
            }
            &&& !occurs_at(field, "previous="@, 0) && !occurs_at(field, "current="@, 0)
                && !occurs_at(field, "directories="@, 0) ==> after == Ok::<CounterNumbers, LogFault>(
                before,
            )
        }),
{
    let longer = fields.push(field);
    lemma_same_counter(longer, fields, fields.len());
    assert(longer[fields.len() as int] == field);
    reveal_strlit("previous=");
    reveal_strlit("current=");
    reveal_strlit("directories=");
    assert("previous="@.len() == 9 && "previous="@[0] == 'p');
    assert("current="@.len() == 8 && "current="@[0] == 'c');
    assert("directories="@.len() == 12 && "directories="@[0] == 'd');
    lemma_prefix(field, "previous="@, value);
    lemma_prefix(field, "current="@, value);
    lemma_prefix(field, "directories="@, value);
    lemma_first_letter(field, "previous="@);
    lemma_first_letter(field, "current="@);
    lemma_first_letter(field, "directories="@);
}

proof fn lemma_prefix(field: Seq<char>, name: Seq<char>, value: Seq<char>)
    requires
        name.len() > 0,
    ensures
        field == name + value ==> without_prefix(field, name) == Some(value) && field[0] == name[0],
{
    if field == name + value {
        assert(field.subrange(0, name.len() as int) =~= name);
        assert(field.skip(name.len() as int) =~= value);
    }
}

proof fn lemma_first_letter(field: Seq<char>, name: Seq<char>)
    requires
        name.len() > 0,
    ensures
        without_prefix(field, name) is Some ==> field[0] == name[0],
{
    if occurs_at(field, name, 0) {
        assert(field.subrange(0, name.len() as int)[0] == field[0]);
    }
}

/// The counter is reported if the line says that it was checked, names two directories or more and gives
/// both numbers.
pub proof fn a_counter_is_what_was_reported(log: Seq<char>, previous: u64, current: u64)
    ensures
        counter_report(log) == Ok::<(u64, u64), LogFault>((previous, current)) <==> {
            &&& report_in(log, "filesystem persistence:"@) matches Some(line)
            &&& occurs(line, "verified=true"@)
            &&& counter_numbers(fields_of(line), fields_of(line).len()) matches Ok(numbers)
            &&& numbers.directories >= 2
            &&& numbers.previous == Some(previous)
            &&& numbers.current == Some(current)
        },
{
}

/// Every boot that passes reached its kernel, which was signed, and did not panic; one that did not reach
/// it fails for that.
pub proof fn a_boot_reaches_a_signed_kernel(log: Seq<char>, mode: LoaderMode)
    ensures
        boot_log_fault(log, mode) is None ==> {
            &&& mode is Chainload ==> occurs(log, "codexOS standalone kernel entered"@)
            &&& !(mode is Chainload) ==> occurs(log, "codexOS kernel entered"@)
            &&& occurs(log, "kernel image:"@)
            &&& occurs(log, "kernel signature: verified=true version="@)
            &&& !occurs(log, "[PANIC]"@)
            &&& !occurs(log, "panicked at"@)
        },
        mode is Interactive && occurs(log, "codexOS kernel entered"@) && occurs(log, "kernel image:"@)
            && occurs(log, "kernel signature: verified=true version="@) && !occurs(log, "[PANIC]"@)
            && !occurs(log, "panicked at"@) ==> boot_log_fault(log, mode) is None,
        mode is Chainload && !occurs(log, "codexOS standalone kernel entered"@) ==> boot_log_fault(
            log,
            mode,
        ) == Some(BootLogFault::TargetNotReached),
        !(mode is Chainload) && !occurs(log, "codexOS kernel entered"@) ==> boot_log_fault(log, mode)
            == Some(BootLogFault::TargetNotReached),
{
    let parts = kernel_parts();
    every_part_is_looked_for(log, parts);
    assert(parts.len() == 2);
    assert(parts[0] == "kernel image:"@ && parts[1] == "kernel signature: verified=true version="@);
}

/// A boot that leaves the firmware passes if it also set up its own tables: its pages, no page both
/// written and run, and its interrupts.
pub proof fn a_boot_without_firmware_sets_itself_up(log: Seq<char>, mode: LoaderMode)
    requires
        !(mode is Interactive),
    ensures
        boot_log_fault(log, mode) is None ==> {
            &&& occurs(log, "vm kernel permissions:"@)
            &&& occurs(log, " wx=0"@)
            &&& occurs(log, "interrupts: exception path verified"@)
            &&& occurs(log, "interrupts: gdt=loaded tr=0x0018 idt=loaded"@)
        },
        mode is Handoff && boot_log_fault(log, mode) is None ==> {
            &&& occurs(log, "boot mode: post-exit-boot-services"@)
            &&& occurs(log, "vm switched to kernel page tables"@)
            &&& occurs(log, "vm hhdm probe:"@)
            &&& occurs(log, "vm framebuffer hhdm:"@)
            &&& occurs(log, "vm reserved hhdm:"@)
        },
        mode is Handoff && boot_log_fault(log, LoaderMode::Interactive) is None && occurs(
            log,
            "vm kernel permissions:"@,
        ) && occurs(log, " wx=0"@) && occurs(log, "interrupts: exception path verified"@) && occurs(
            log,
            "interrupts: gdt=loaded tr=0x0018 idt=loaded"@,
        ) && occurs(log, "boot mode: post-exit-boot-services"@) && occurs(
            log,
            "vm switched to kernel page tables"@,
        ) && occurs(log, "vm hhdm probe:"@) && occurs(log, "vm framebuffer hhdm:"@) && occurs(
            log,
            "vm reserved hhdm:"@,
        ) ==> boot_log_fault(log, mode) is None,
{
    let post_exit = post_exit_parts();
    every_part_is_looked_for(log, post_exit);
    assert(post_exit.len() == 4);
    assert(post_exit[0] == "vm kernel permissions:"@ && post_exit[1] == " wx=0"@ && post_exit[2]
        == "interrupts: exception path verified"@ && post_exit[3]
        == "interrupts: gdt=loaded tr=0x0018 idt=loaded"@);
    let handoff = handoff_parts();
    every_part_is_looked_for(log, handoff);
    assert(handoff.len() == 5);
    assert(handoff[0] == "boot mode: post-exit-boot-services"@ && handoff[1]
        == "vm switched to kernel page tables"@ && handoff[2] == "vm hhdm probe:"@ && handoff[3]
        == "vm framebuffer hhdm:"@ && handoff[4] == "vm reserved hhdm:"@);
}

/// Whether every device that a standalone kernel needs was found and tried.
pub open spec fn devices_pass(log: Seq<char>) -> bool {
    &&& hardware_fault(log) is None
    &&& filesystem_fault(log) is None
    &&& network_fault(log) is None
    &&& pointer_driver_fault(log) is None
}

/// A standalone kernel passes if it drew its desktop, kept its first program in its place, ran its three
/// programs and the stored one, and has its devices and its filesystem.
pub proof fn a_standalone_kernel_does_everything(log: Seq<char>)
    ensures
        boot_log_fault(log, LoaderMode::Chainload) is None ==> {
            &&& occurs(log, "standalone boot info present"@)
            &&& occurs(log, "standalone desktop rendered"@)
            &&& occurs(log, "process[1]: user log: ring3 syscall boundary active"@)
            &&& occurs(log, "process[1]: kernel write denied addr=0x0000000000200000 err=0x7"@)
            &&& occurs(log, "process isolation verified: pid=1"@)
            &&& occurs(log, "standalone vm adopted current page tables"@)
            &&& occurs(log, "standalone heap: capacity="@)
            &&& occurs(log, "standalone exception path verified"@)
            &&& occurs(log, "standalone descriptor tables: gdt=true tr=0x0018 idt=true"@)
            &&& occurs(log, "standalone timer interrupts active"@)
            &&& occurs(log, "scheduler verified: processes=3"@)
            &&& persistent_executable_fault(log) is None
            &&& relocations_applied(log)
            &&& devices_pass(log)
            &&& occurs(log, "virtio-blk: pci="@)
            &&& occurs(log, "codexfs: mounted state="@)
        },
{
    let parts = chainload_parts();
    every_part_is_looked_for(log, parts);
    assert(parts.len() == 11);
    assert(parts[0] == "standalone boot info present"@);
    assert(parts[1] == "standalone desktop rendered"@);
    assert(parts[2] == "process[1]: user log: ring3 syscall boundary active"@);
    assert(parts[3] == "process[1]: kernel write denied addr=0x0000000000200000 err=0x7"@);
    assert(parts[4] == "process isolation verified: pid=1"@);
    assert(parts[5] == "standalone vm adopted current page tables"@);
    assert(parts[6] == "standalone heap: capacity="@);
    assert(parts[7] == "standalone exception path verified"@);
    assert(parts[8] == "standalone descriptor tables: gdt=true tr=0x0018 idt=true"@);
    assert(parts[9] == "standalone timer interrupts active"@);
    assert(parts[10] == "scheduler verified: processes=3"@);
}

/// A second boot passes if it has its devices, found the filesystem that was there, and counts on by one
/// from where the first one stopped.
pub proof fn a_second_boot_counts_on(first: Seq<char>, second: Seq<char>)
    ensures
        reboot_fault(first, second) is None <==> {
            &&& devices_pass(second)
            &&& persistent_executable_fault(second) is None
            &&& !occurs(second, "[PANIC]"@) && !occurs(second, "panicked at"@)
            &&& occurs(second, "codexfs: mounted state=existing"@)
            &&& counter_report(first) matches Ok(before)
            &&& counter_report(second) matches Ok(after)
            &&& before.1 == before.0 + 1
            &&& after.0 == before.1
            &&& after.1 == after.0 + 1
        },
{
}

/// A refused kernel passes if the log says that it was refused, and why, and no kernel was entered.
pub proof fn a_refused_kernel_is_not_entered(log: Seq<char>, reason: Seq<char>)
    ensures
        rejection_fault(log, reason) is None <==> {
            &&& occurs(log, "kernel security failure:"@)
            &&& occurs(log, reason)
            &&& !occurs(log, "codexOS kernel entered"@)
            &&& !occurs(log, "codexOS standalone kernel entered"@)
        },
        occurs(log, "kernel security failure:"@) && occurs(log, reason) && (occurs(
            log,
            "codexOS kernel entered"@,
        ) || occurs(log, "codexOS standalone kernel entered"@)) ==> rejection_fault(log, reason)
            == Some(RejectionFault::KernelEntered),
        !occurs(log, "kernel security failure:"@) || !occurs(log, reason) ==> rejection_fault(
            log,
            reason,
        ) == Some(RejectionFault::NotReported),
{
}

/// Every scenario enters the standalone kernel, from the slot and in the release that it is about.
pub proof fn a_scenario_boots_its_release(log: Seq<char>, scenario: Scenario)
    requires
        first_missing(log, scenario_parts(scenario), 0) is None,
    ensures
        occurs(log, "codexOS standalone kernel entered"@),
        scenario is SecondRelease ==> occurs(log, "kernel signature: verified=true version=2"@),
        scenario is Partitioned ==> occurs(log, "kernel signature: verified=true version=1 slot=A"@),
        scenario is Partitioned || scenario is UpdatedPartitioned ==> occurs(
            log,
            "network tcp listener ready: port=8080 protocol=http"@,
        ),
        scenario is Updated || scenario is UpdatedPartitioned ==> occurs(
            log,
            "kernel signature: verified=true version=2 slot=B state-gen=3 recovery=false"@,
        ),
        scenario is StateRecovery ==> occurs(
            log,
            "system boot-state recovery: selected=A version=1 source=signed-slot-scan"@,
        ) && occurs(
            log,
            "kernel signature: verified=true version=1 slot=A state-gen=0 recovery=true"@,
        ) && occurs(log, "standalone pointer polling active: device=ps2 enabled=true"@),
{
    let parts = scenario_parts(scenario);
    every_part_is_looked_for(log, parts);
    assert(parts.len() >= 2);
    assert(occurs(log, parts[0]) && occurs(log, parts[1]));
    if parts.len() > 2 {
        assert(occurs(log, parts[2]));
    }
    if parts.len() > 3 {
        assert(occurs(log, parts[3]));
    }
}

/// A slot that is broken is passed over for the other: the log says which was rejected, which was taken
/// instead, and that this was a recovery.
pub proof fn a_broken_slot_is_passed_over(log: Seq<char>)
    ensures
        first_missing(log, scenario_parts(Scenario::Recovery), 0) is None <==> {
            &&& occurs(log, "system slot A rejected: KernelHashMismatch"@)
            &&& occurs(log, "system recovery fallback: active=A selected=B version=1"@)
            &&& occurs(
                log,
                "kernel signature: verified=true version=1 slot=B state-gen=2 recovery=true"@,
            )
            &&& occurs(log, "codexOS standalone kernel entered"@)
        },
        first_missing(log, scenario_parts(Scenario::UpdateRecovery), 0) is None <==> {
            &&& occurs(log, "system slot B rejected: KernelHashMismatch"@)
            &&& occurs(log, "system recovery fallback: active=B selected=A version=2"@)
            &&& occurs(
                log,
                "kernel signature: verified=true version=2 slot=A state-gen=3 recovery=true"@,
            )
            &&& occurs(log, "codexOS standalone kernel entered"@)
        },
{
    let a = scenario_parts(Scenario::Recovery);
    every_part_is_looked_for(log, a);
    assert(a.len() == 4);
    assert(a[0] == "system slot A rejected: KernelHashMismatch"@);
    assert(a[1] == "system recovery fallback: active=A selected=B version=1"@);
    assert(a[2] == "kernel signature: verified=true version=1 slot=B state-gen=2 recovery=true"@);
    assert(a[3] == "codexOS standalone kernel entered"@);
    let b = scenario_parts(Scenario::UpdateRecovery);
    every_part_is_looked_for(log, b);
    assert(b.len() == 4);
    assert(b[0] == "system slot B rejected: KernelHashMismatch"@);
    assert(b[1] == "system recovery fallback: active=B selected=A version=2"@);
    assert(b[2] == "kernel signature: verified=true version=2 slot=A state-gen=3 recovery=true"@);
    assert(b[3] == "codexOS standalone kernel entered"@);
}

/// A rotation of the key passes if the second release puts the next key in its place and the third one
/// is then taken under that key.
pub proof fn a_key_is_rotated_once(log: Seq<char>, key_id: Seq<char>)
    ensures
        first_missing(log, rotation_parts(key_id), 0) is None <==> {
            &&& occurs(log, "kernel trust root: source=embedded"@)
            &&& occurs(
                log,
                "trust root update: activated version=2 previous-source=embedded next-key-id="@
                    + key_id,
            )
            &&& occurs(log, "kernel signature: verified=true version=2"@)
            &&& occurs(log, "codexOS standalone kernel entered"@)
        },
        first_missing(log, rotated_parts(key_id), 0) is None <==> {
            &&& occurs(
                log,
                "kernel trust root: source=persisted activation-version=2 signer-key-id="@ + key_id,
            )
            &&& occurs(log, "trust root update: none source=persisted signer-key-id="@ + key_id)
            &&& occurs(log, "kernel signature: verified=true version=3"@)
            &&& occurs(log, "codexOS standalone kernel entered"@)
        },
{
    let a = rotation_parts(key_id);
    every_part_is_looked_for(log, a);
    assert(a.len() == 4);
    assert(a[0] == "kernel trust root: source=embedded"@);
    assert(a[1] == "trust root update: activated version=2 previous-source=embedded next-key-id="@
        + key_id);
    assert(a[2] == "kernel signature: verified=true version=2"@);
    assert(a[3] == "codexOS standalone kernel entered"@);
    let b = rotated_parts(key_id);
    every_part_is_looked_for(log, b);
    assert(b.len() == 4);
    assert(b[0] == "kernel trust root: source=persisted activation-version=2 signer-key-id="@ + key_id);
    assert(b[1] == "trust root update: none source=persisted signer-key-id="@ + key_id);
    assert(b[2] == "kernel signature: verified=true version=3"@);
    assert(b[3] == "codexOS standalone kernel entered"@);
}

/// A response refuses a command if it says so, in capitals or not; letters are told apart by nothing else.
pub proof fn a_refusal_is_seen_in_any_case(response: Seq<char>, other: Seq<char>, c: char)
    ensures
        65 <= c as int <= 90 ==> lower(c) as int == c as int + 32,
        !(65 <= c as int <= 90) ==> lower(c) == c,
        occurs(response, "unknown command"@) || occurs(response, "invalid parameter"@) ==> refuses(
            response,
        ),
        response.len() == other.len() && (forall|i: int|
            0 <= i < response.len() ==> lower(#[trigger] response[i]) == lower(other[i])) ==> refuses(
            response,
        ) == refuses(other),
{
    let lowered = response.map_values(|c: char| lower(c));
    reveal_strlit("unknown command");
    reveal_strlit("invalid parameter");
    if occurs(response, "unknown command"@) {
        lemma_lowered(response, "unknown command"@);
    }
    if occurs(response, "invalid parameter"@) {
        lemma_lowered(response, "invalid parameter"@);
    }
    if response.len() == other.len() && (forall|i: int|
        0 <= i < response.len() ==> lower(#[trigger] response[i]) == lower(other[i])) {
        assert(lowered =~= other.map_values(|c: char| lower(c)));
    }
}

proof fn lemma_lowered(text: Seq<char>, part: Seq<char>)
    requires
        occurs(text, part),
        forall|i: int| 0 <= i < part.len() ==> lower(#[trigger] part[i]) == part[i],
    ensures
        occurs(text.map_values(|c: char| lower(c)), part),
{
    let lowered = text.map_values(|c: char| lower(c));
    let at = choose|at: int| occurs_at(text, part, at);
    assert forall|i: int| 0 <= i < part.len() implies lowered.subrange(at, at + part.len())[i]
        == part[i] by {
        assert(text.subrange(at, at + part.len())[i] == text[at + i]);
        assert(lower(part[i]) == part[i]);
    }
    assert(lowered.subrange(at, at + part.len()) =~= part);
    assert(occurs_at(lowered, part, at));
}

proof fn lemma_first_place(text: Seq<char>, part: Seq<char>, at: int, found: int)
    requires
        0 <= at <= found <= text.len(),
        occurs_at(text, part, found),
        forall|i: int| 0 <= i < found ==> !#[trigger] occurs_at(text, part, i),
    ensures
        first_at(text, part, at) == found,
    decreases found - at,
{
    if at < found {
        lemma_first_place(text, part, at + 1, found);
    }
}

/// A line says that relocations were applied if the number behind its first mark of them is not zero.
pub proof fn relocations_are_counted_behind_their_mark(line: Seq<char>, k: int)
    requires
        occurs_at(line, "relocs="@, k),
        forall|i: int| 0 <= i < k ==> !#[trigger] occurs_at(line, "relocs="@, i),
    ensures
        counts_relocations(line) <==> {
            &&& fields_of(line.skip(k + 7)).len() > 0
            &&& unsigned_value(fields_of(line.skip(k + 7))[0], usize::MAX as nat) matches Some(n)
            &&& n > 0
        },
{
    reveal_strlit("relocs=");
    assert("relocs="@.len() == 7);
    lemma_first_place(line, "relocs="@, 0, k);
}

/// Relocations were applied if some line of the log says so; a line without their mark does not.
pub proof fn some_line_tells_of_relocations(log: Seq<char>, i: int)
    ensures
        0 <= i < lines_of(log).len() && counts_relocations(lines_of(log)[i]) ==> relocations_applied(
            log,
        ),
        (forall|k: int|
            0 <= k < lines_of(log).len() ==> !occurs(#[trigger] lines_of(log)[k], "relocs="@))
            ==> !relocations_applied(log),
{
}

/// A checksum is written in eight digits, the highest first.
pub proof fn a_checksum_is_written_from_its_highest_digit(checksum: u32, i: int)
    requires
        0 <= i < 4,
    ensures
        checksum_text(checksum).len() == 19,
        occurs_at(checksum_text(checksum), "checksum=0x"@, 0),
        number_bytes(checksum).len() == 4,
        number_bytes(checksum)[0] * 16777216 + number_bytes(checksum)[1] * 65536 + number_bytes(
            checksum,
        )[2] * 256 + number_bytes(checksum)[3] == checksum,
        checksum_text(checksum)[11 + 2 * i] == hex_text(number_bytes(checksum))[2 * i],
        checksum_text(checksum)[12 + 2 * i] == hex_text(number_bytes(checksum))[2 * i + 1],
{
    reveal_strlit("checksum=0x");
    assert("checksum=0x"@.len() == 11);
    let text = checksum_text(checksum);
    assert(text.subrange(0, 11) =~= "checksum=0x"@);
}

/// The large file passes only with the checksum of the bytes that it was written with.
pub proof fn a_large_file_has_the_checksum_of_its_bytes(line: Seq<char>)
    ensures
        large_file_fault(line) is None ==> occurs(
            line,
            checksum_text(rolling_checksum(proof_bytes(), proof_bytes().len())),
        ),
{
}

/// A number that is missing or is none is named by its place in the report.
pub proof fn a_faulty_number_is_named(line: Seq<char>, fault: FieldFault)
    ensures
        ({
            let bad = |name: Seq<char>| number_in(line, name, usize::MAX as nat) == Err::<nat, FieldFault>(fault);
            let good = |name: Seq<char>| number_in(line, name, usize::MAX as nat) is Ok;
            &&& first_missing(line, mount_parts(), 0) is None && bad("slot-sectors="@) ==> mount_fault(line)
                == Some(LogFault::Field(0, fault))
            &&& first_missing(line, mount_parts(), 0) is None && good("slot-sectors="@) && bad(
                "max-record-bytes="@,
            ) ==> mount_fault(line) == Some(LogFault::Field(1, fault))
            &&& first_missing(line, large_file_parts(), 0) is None && bad("bytes="@) ==> large_file_fault(line)
                == Some(LogFault::Field(0, fault))
            &&& first_missing(line, large_file_parts(), 0) is None && good("bytes="@) && bad(
                "record-sectors="@,
            ) ==> large_file_fault(line) == Some(LogFault::Field(1, fault))
            &&& first_missing(line, hardware_parts(), 0) is None && bad("pci-devices="@)
                ==> inventory_fault(line) == Some(LogFault::Field(0, fault))
            &&& first_missing(line, hardware_parts(), 0) is None && good("pci-devices="@) && bad(
                "storage="@,
            ) ==> inventory_fault(line) == Some(LogFault::Field(1, fault))
            &&& first_missing(line, hardware_parts(), 0) is None && good("pci-devices="@) && good(
                "storage="@,
            ) && bad("network="@) ==> inventory_fault(line) == Some(LogFault::Field(2, fault))
            &&& first_missing(line, served_parts(), 0) is None && bad("request-bytes="@) ==> served_fault(line)
                == Some(LogFault::Field(0, fault))
            &&& first_missing(line, served_parts(), 0) is None && good("request-bytes="@) && bad(
                "response-bytes="@,
            ) ==> served_fault(line) == Some(LogFault::Field(1, fault))
            &&& first_missing(line, served_parts(), 0) is None && good("request-bytes="@) && good(
                "response-bytes="@,
            ) && bad("connections="@) ==> served_fault(line) == Some(LogFault::Field(2, fault))
        }),
{
}

/// A report that the log lacks is missed as such.
pub proof fn a_missing_report_is_missed(log: Seq<char>)
    ensures
        report_in(log, "codexfs: mounted state="@) is None ==> filesystem_fault(log) == Some(
            LogFault::ReportOmitted,
        ),
        report_in(log, "persistent executable verified:"@) is None ==> persistent_executable_fault(log)
            == Some(LogFault::ReportOmitted),
        report_in(log, "hardware inventory:"@) is None ==> hardware_fault(log) == Some(
            LogFault::ReportOmitted,
        ),
        report_in(log, "network tcp listener ready:"@) is None ==> listener_fault(log) == Some(
            LogFault::ReportOmitted,
        ),
        report_in(log, "standalone pointer polling active: device=ps2"@) is None
            ==> pointer_driver_fault(log) == Some(LogFault::ReportOmitted),
        report_in(log, "pointer input event: device=ps2"@) is None ==> pointer_event_fault(log) == Some(
            LogFault::ReportOmitted,
        ),
        report_in(log, "filesystem persistence:"@) is None ==> counter_report(log) == Err::<
            (u64, u64),
            LogFault,
        >(LogFault::ReportOmitted),
{
}

} // verus!
