//! A program that is kept in the filesystem: it is put there once, and run only if it is what was put
//! there.

use vstd::prelude::*;
use vstd::utf8::encode_utf8;
use crate::block::BlockDevice;
use crate::bytes::bytes_equal;
use crate::crypto::{sha256, sha256_of};
use crate::fs::entry::{lemma_position, position_of, Entry, EntryKind, FsError};
use crate::fs::laws::{
    a_commit_stays_up_to_date, a_written_file_holds_the_data, an_up_to_date_volume_verifies,
    changed_permissions_are_kept, dependable, lemma_plan_errors,
};
use crate::fs::path::{root, valid_path};
use crate::fs::record::record_fault;
use crate::fs::tree::{after_set_permissions, after_write, contents_at};
use crate::fs::volume::{lemma_names, CodexFs};
use crate::scheduler::gate::{
    difference, persistent_fault, validate_persistent_outcome, PersistentExecutableReport,
    EndedRun, SchedulerError, SchedulerRunMetrics, PERSISTENT_PID,
};
use crate::scheduler::state::Process;
use crate::user_elf::{load_segments, parse, parsed};

verus! {

pub const PERSISTENT_EXECUTABLE_PATH: &'static str = "/system/bin/scheduler-gate.elf";

/// What the program may be used for: read and executed.
pub const PROGRAM_PERMISSIONS: u16 = 0o555;

/// What the owner must be able to do with the program.
pub const OWNER_READ_EXECUTE: u16 = 0o500;

/// A program that is in the filesystem as it should be.
#[derive(Debug, Clone, Copy, PartialEq, Eq)]
pub struct InstalledProgram {
    pub bytes: usize,
    pub sha256: [u8; 32],
    pub entry: u64,
    pub load_segments: usize,
    pub generation: u64,
    pub installed: bool,
}

/// The path of the program.
pub open spec fn program_path() -> Seq<u8> {
    encode_utf8(PERSISTENT_EXECUTABLE_PATH@)
}

/// What can be read of the program in a tree.
pub open spec fn program_in(t: Seq<Entry>) -> Option<Seq<u8>> {
    contents_at(t, program_path())
}

/// Whether the owner can read and execute what is at the program's path.
pub open spec fn program_usable(t: Seq<Entry>) -> bool {
    position_of(t, program_path()) matches Some(k) && t[k].permissions & OWNER_READ_EXECUTE
        == OWNER_READ_EXECUTE
}

/// What the tree becomes when the program is put right, if it has to be: a program that cannot be read
/// is written, and one that cannot be executed gets its permissions.
pub open spec fn program_installed(t: Seq<Entry>, executable: Seq<u8>) -> Option<
    Result<Seq<Entry>, FsError>,
> {
    if program_in(t) is None {
        Some(after_write(t, program_path(), executable, Some(PROGRAM_PERMISSIONS)))
    } else if !program_usable(t) {
        Some(after_set_permissions(t, program_path(), PROGRAM_PERMISSIONS))
    } else {
        None
    }
}

/// Whether a different program is where the program belongs.
pub open spec fn program_differs(t: Seq<Entry>, executable: Seq<u8>) -> bool {
    program_in(t) matches Some(data) && sha256_of(data) != sha256_of(executable)
}

/// The program's permissions are what its use needs.
proof fn lemma_permissions()
    ensures
        PROGRAM_PERMISSIONS & OWNER_READ_EXECUTE == OWNER_READ_EXECUTE,
        PROGRAM_PERMISSIONS & crate::fs::entry::OWNER_READ != 0,
{
    assert(0o555u16 & 0o500 == 0o500 && 0o555u16 & 0o400 != 0) by (bit_vector);
}

/// What a tree has at the program's path once it was put right.
proof fn lemma_put_right<D: BlockDevice>(fs: CodexFs<D>, executable: Seq<u8>)
    requires
        fs.well_formed(),
        program_installed(fs.entries(), executable) matches Some(next) && next is Ok,
    ensures
        ({
            let t = fs.entries();
            let u = program_installed(t, executable).unwrap().unwrap();
            &&& program_usable(u)
            &&& program_in(u) == if program_in(t) is None {
                Some(executable)
            } else {
                program_in(t)
            }
            &&& u != t
        }),
{
    lemma_names(fs);
    lemma_permissions();
    let t = fs.entries();
    if program_in(t) is None {
        a_written_file_holds_the_data(t, program_path(), executable, Some(PROGRAM_PERMISSIONS));
    } else {
        changed_permissions_are_kept(t, program_path(), PROGRAM_PERMISSIONS);
    }
}

/// Whether what can be read at the program's path has this digest; none if nothing can be read.
fn program_matches<D: BlockDevice>(filesystem: &CodexFs<D>, expected: &[u8; 32]) -> (result: Option<bool>)
    requires
        filesystem.well_formed(),
    ensures
        result == match program_in(filesystem.entries()) {
            Some(data) => Some(sha256_of(data) == expected@),
            None => None,
        },
{
    match filesystem.read_file(PERSISTENT_EXECUTABLE_PATH) {
        Some(bytes) => {
            let digest: [u8; 32] = sha256(bytes);
            Some(bytes_equal(&digest, expected))
        },
        None => None,
    }
}

/// Why putting the program right failed in the filesystem: the tree cannot be changed so, the device
/// failed, or what the device holds is not the tree.
pub open spec fn filesystem_refuses<D: BlockDevice>(
    before: CodexFs<D>,
    executable: Seq<u8>,
    error: FsError,
) -> bool {
    ||| program_installed(before.entries(), executable) == Some(Err::<Seq<Entry>, FsError>(error))
    ||| error is Block && !before.reliable()
    ||| error == FsError::VerificationFailed
    ||| error == FsError::CorruptSuperblocks
    ||| error == FsError::ArithmeticOverflow
    ||| error == FsError::SnapshotTooLarge
    ||| (program_installed(before.entries(), executable) matches Some(Ok(next))
        && record_fault(next) == Some(error))
}

/// A program that is in the tree is at a path of a file.
proof fn lemma_program_path<D: BlockDevice>(fs: CodexFs<D>)
    requires
        fs.well_formed(),
        position_of(fs.entries(), program_path()) is Some,
    ensures
        valid_path(program_path()),
        program_path() != root(),
{
    lemma_names(fs);
    lemma_position(fs.entries(), program_path(), 0);
}

/// Writes the program where none can be read, and says whether it did.
fn write_missing_program<D: BlockDevice>(
    filesystem: &mut CodexFs<D>,
    executable: &[u8],
    expected: &[u8; 32],
) -> (result: Result<bool, SchedulerError>)
    requires
        old(filesystem).well_formed(),
        expected@ == sha256_of(executable@),
    ensures
        final(filesystem).well_formed(),
        final(filesystem).same_volume(old(filesystem)),
        ({
            let t = old(filesystem).entries();
            let next = program_installed(t, executable@);
            match result {
                Ok(false) => {
                    &&& final(filesystem).unchanged(old(filesystem))
                    &&& program_in(t) matches Some(data) && sha256_of(data) == sha256_of(executable@)
                },
                Ok(true) => {
                    &&& program_in(t) is None
                    &&& next matches Some(Ok(u)) && final(filesystem).committed(
                        old(filesystem),
                        u,
                    ) && program_usable(u) && program_in(u) == Some(executable@)
                },
                Err(SchedulerError::Filesystem(error)) => program_in(t) is None
                    && filesystem_refuses(*old(filesystem), executable@, error) && !dependable(
                    *old(filesystem),
                    next,
                ),
                Err(error) => error == SchedulerError::PersistentProgramHashMismatch
                    && program_differs(t, executable@) && final(filesystem).unchanged(
                    old(filesystem),
                ),
            }
        }),
{
    match program_matches(filesystem, expected) {
        Some(true) => Ok(false),
        Some(false) => Err(SchedulerError::PersistentProgramHashMismatch),
        None => {
            let ghost before = *filesystem;
            proof {
                if program_installed(before.entries(), executable@).unwrap() is Ok {
                    lemma_put_right(before, executable@);
                }
            }
            match filesystem.write_file_with_permissions(
                PERSISTENT_EXECUTABLE_PATH,
                executable,
                PROGRAM_PERMISSIONS,
            ) {
                Ok(_) => Ok(true),
                Err(error) => {
                    proof {
                        if program_installed(before.entries(), executable@).unwrap() is Ok {
                            lemma_plan_errors(
                                before,
                                program_installed(before.entries(), executable@).unwrap().unwrap(),
                            );
                        }
                    }
                    Err(SchedulerError::Filesystem(error))
                },
            }
        },
    }
}

/// Gives the program its permissions where they do not suffice, verifies what the device holds then,
/// and says whether it did.
#[verifier::spinoff_prover]
#[verifier::rlimit(40)]
fn allow_program<D: BlockDevice>(
    filesystem: &mut CodexFs<D>,
    expected: &[u8; 32],
    Ghost(executable): Ghost<Seq<u8>>,
) -> (result: Result<bool, SchedulerError>)
    requires
        old(filesystem).well_formed(),
        expected@ == sha256_of(executable),
        program_in(old(filesystem).entries()) matches Some(data) && sha256_of(data) == sha256_of(
            executable,
        ),
    ensures
        final(filesystem).well_formed(),
        final(filesystem).same_volume(old(filesystem)),
        ({
            let t = old(filesystem).entries();
            let next = program_installed(t, executable);
            match result {
                Ok(false) => final(filesystem).unchanged(old(filesystem)) && program_usable(t),
                Ok(true) => {
                    &&& !program_usable(t)
                    &&& next matches Some(Ok(u)) && final(filesystem).entries() == u
                        && program_usable(u) && program_in(u) == program_in(t)
                    &&& final(filesystem).commits() == old(filesystem).commits() + 1
                    &&& final(filesystem).durable() == final(filesystem).disk()
                },
                Err(SchedulerError::Filesystem(error)) => !program_usable(t) && filesystem_refuses(
                    *old(filesystem),
                    executable,
                    error,
                ) && !dependable(*old(filesystem), next),
                Err(_) => false,
            }
        }),
{
    let ghost before = *filesystem;
    let ghost next = program_installed(before.entries(), executable);
    proof {
        lemma_program_path(before);
        lemma_permissions();
        if next is Some && next.unwrap() is Ok {
            lemma_put_right(before, executable);
            lemma_plan_errors(before, next.unwrap().unwrap());
        }
    }
    let metadata = match filesystem.metadata(PERSISTENT_EXECUTABLE_PATH) {
        Ok(metadata) => metadata,
        Err(error) => return Err(SchedulerError::Filesystem(error)),
    };
    if metadata.kind != EntryKind::File || metadata.permissions & OWNER_READ_EXECUTE
        == OWNER_READ_EXECUTE || !matches!(program_matches(filesystem, expected), Some(true)) {
        return Ok(false);
    }
    match filesystem.set_permissions(PERSISTENT_EXECUTABLE_PATH, PROGRAM_PERMISSIONS) {
        Ok(_) => {},
        Err(error) => return Err(SchedulerError::Filesystem(error)),
    }
    proof {
        if before.anchored() && before.up_to_date() {
            a_commit_stays_up_to_date(before, *filesystem, next.unwrap().unwrap());
            an_up_to_date_volume_verifies(*filesystem);
        }
    }
    match filesystem.verify_committed_state() {
        Ok(_) => Ok(true),
        Err(error) => Err(SchedulerError::Filesystem(error)),
    }
}

/// Reads the program, which must be one that can be executed and has the expected digest.
fn read_program<D: BlockDevice>(
    filesystem: &CodexFs<D>,
    expected: &[u8; 32],
    installed: bool,
) -> (result: Result<InstalledProgram, SchedulerError>)
    requires
        filesystem.well_formed(),
        program_usable(filesystem.entries()),
        program_in(filesystem.entries()) matches Some(data) && sha256_of(data) == expected@,
    ensures
        ({
            let data = program_in(filesystem.entries()).unwrap();
            match result {
                Ok(program) => {
                    &&& program.bytes == data.len()
                    &&& program.sha256@ == expected@
                    &&& program.generation == filesystem.commits()
                    &&& program.installed == installed
                    &&& parsed(data) matches Ok((entry, segments)) && program.entry == entry
                        && program.load_segments == segments.len()
                },
                Err(SchedulerError::UserExecutable(error)) => parsed(data) matches Err(found)
                    && found == error,
                Err(_) => false,
            }
        }),
{
    proof {
        lemma_program_path(*filesystem);
    }
    match filesystem.metadata(PERSISTENT_EXECUTABLE_PATH) {
        Ok(metadata) => {
            if metadata.kind != EntryKind::File || metadata.permissions & OWNER_READ_EXECUTE
                != OWNER_READ_EXECUTE {
                return Err(SchedulerError::PersistentProgramPermissions);
            }
        },
        Err(error) => return Err(SchedulerError::Filesystem(error)),
    }
    let generation: u64 = filesystem.info().generation;
    let bytes: &[u8] = match filesystem.read_file(PERSISTENT_EXECUTABLE_PATH) {
        Some(bytes) => bytes,
        None => return Err(SchedulerError::PersistentProgramMissing),
    };
    let digest: [u8; 32] = sha256(bytes);
    if !bytes_equal(&digest, expected) {
        return Err(SchedulerError::PersistentProgramHashMismatch);
    }
    match parse(bytes) {
        Ok(image) => {
            assert(load_segments(image.segments@).len() == image.segments@.len());
            Ok(
                InstalledProgram {
                    bytes: bytes.len(),
                    sha256: *expected,
                    entry: image.entry,
                    load_segments: image.segments.len(),
                    generation,
                    installed,
                },
            )
        },
        Err(error) => Err(SchedulerError::UserExecutable(error)),
    }
}

/// Puts the program right, verifies what the device holds, and reads the program again.
#[verifier::spinoff_prover]
#[verifier::rlimit(40)]
pub fn install_persistent_executable<D: BlockDevice>(
    filesystem: &mut CodexFs<D>,
    executable: &[u8],
) -> (result: Result<InstalledProgram, SchedulerError>)
    requires
        old(filesystem).well_formed(),
    ensures
        final(filesystem).well_formed(),
        final(filesystem).same_volume(old(filesystem)),
        program_differs(old(filesystem).entries(), executable@) <==> result == Err::<
            InstalledProgram,
            SchedulerError,
        >(SchedulerError::PersistentProgramHashMismatch),
        program_installed(old(filesystem).entries(), executable@) is None ==> {
            &&& final(filesystem).disk() == old(filesystem).disk()
            &&& final(filesystem).durable() == old(filesystem).durable()
            &&& final(filesystem).traffic() == old(filesystem).traffic()
            &&& final(filesystem).commits() == old(filesystem).commits()
        },
        match result {
            Ok(program) => {
                let t = final(filesystem).entries();
                &&& program.installed ==> {
                    &&& final(filesystem).commits() == old(filesystem).commits() + 1
                    &&& final(filesystem).durable() == final(filesystem).disk()
                }
                &&& t == match program_installed(old(filesystem).entries(), executable@) {
                    Some(next) => next.unwrap(),
                    None => old(filesystem).entries(),
                }
                &&& program.installed == (program_installed(
                    old(filesystem).entries(),
                    executable@,
                ) is Some)
                &&& program_usable(t)
                &&& program_in(t) matches Some(data) && {
                    &&& sha256_of(data) == sha256_of(executable@)
                    &&& program.bytes == data.len()
                    &&& parsed(data) matches Ok((entry, segments)) && program.entry == entry
                        && program.load_segments == segments.len()
                }
                &&& program.sha256@ == sha256_of(executable@)
                &&& program.generation == final(filesystem).commits()
            },
            Err(SchedulerError::UserExecutable(error)) => program_in(
                final(filesystem).entries(),
            ) matches Some(data) && sha256_of(data) == sha256_of(executable@) && (parsed(
                data,
            ) matches Err(found) && found == error),
            Err(SchedulerError::Filesystem(error)) => filesystem_refuses(
                *old(filesystem),
                executable@,
                error,
            ) && !dependable(
                *old(filesystem),
                program_installed(old(filesystem).entries(), executable@),
            ),
            Err(error) => error == SchedulerError::PersistentProgramHashMismatch,
        },
{
    let ghost before = *filesystem;
    let ghost next = program_installed(before.entries(), executable@);
    let expected: [u8; 32] = sha256(executable);
    let written: bool = match write_missing_program(filesystem, executable, &expected) {
        Ok(written) => written,
        Err(error) => return Err(error),
    };
    proof {
        if before.anchored() && before.up_to_date() {
            if written {
                a_commit_stays_up_to_date(before, *filesystem, next.unwrap().unwrap());
            }
            an_up_to_date_volume_verifies(*filesystem);
        }
    }
    match filesystem.verify_committed_state() {
        Ok(_) => {},
        Err(error) => return Err(SchedulerError::Filesystem(error)),
    }
    let ghost verified = *filesystem;
    let allowed: bool = match allow_program(filesystem, &expected, Ghost(executable@)) {
        Ok(allowed) => allowed,
        Err(error) => return Err(error),
    };
    read_program(filesystem, &expected, written || allowed)
}

/// A program that was put right once needs nothing more: a second run installs nothing, and so leaves the
/// disk as it is.
pub proof fn an_installed_program_stays<D: BlockDevice>(
    fs: CodexFs<D>,
    executable: Seq<u8>,
)
    requires
        fs.well_formed(),
        program_installed(fs.entries(), executable) matches Some(next) ==> next is Ok,
    ensures
        ({
            let t = fs.entries();
            let u = match program_installed(t, executable) {
                Some(next) => next.unwrap(),
                None => t,
            };
            program_installed(u, executable) is None
        }),
{
    if program_installed(fs.entries(), executable) is Some {
        lemma_put_right(fs, executable);
    }
}

/// What the run of an installed program showed, once its memory has been taken back and `pages_after`
/// pages are allocated.
pub fn run_persistent_executable_gate(
    program: &InstalledProgram,
    run: &EndedRun,
    pages_after: u64,
) -> (result: Result<PersistentExecutableReport, SchedulerError>)
    ensures
        if pages_after != run.metrics.pages_before {
            result == Err::<PersistentExecutableReport, SchedulerError>(
                SchedulerError::PhysicalPageLeak {
                    before: run.metrics.pages_before,
                    after: pages_after,
                },
            )
        } else {
            match persistent_fault(run.processes@, run.metrics) {
                Some(error) => result == Err::<PersistentExecutableReport, SchedulerError>(error),
                None => {
                    &&& result matches Ok(report)
                    &&& report.path@ == PERSISTENT_EXECUTABLE_PATH@
                    &&& report.bytes == program.bytes
                    &&& report.sha256 == program.sha256
                    &&& report.entry == program.entry
                    &&& report.load_segments == program.load_segments
                    &&& report.exit_status == PERSISTENT_PID
                    &&& report.timer_ticks == difference(
                        run.metrics.ticks_after,
                        run.metrics.ticks_before,
                    )
                    &&& report.idle_halts == run.metrics.idle_halts
                    &&& report.reclaimed_pages == difference(run.metrics.pages_allocated, pages_after)
                    &&& report.generation == program.generation
                    &&& report.installed == program.installed
                },
            }
        },
{
    let processes: &Vec<Process> = &run.processes;
    let metrics: SchedulerRunMetrics = run.metrics;
    if pages_after != metrics.pages_before {
        return Err(
            SchedulerError::PhysicalPageLeak { before: metrics.pages_before, after: pages_after },
        );
    }
    let exit_status: u64 = match validate_persistent_outcome(processes, metrics) {
        Ok(status) => status,
        Err(error) => return Err(error),
    };
    Ok(
        PersistentExecutableReport {
            path: PERSISTENT_EXECUTABLE_PATH,
            bytes: program.bytes,
            sha256: program.sha256,
            entry: program.entry,
            load_segments: program.load_segments,
            exit_status,
            timer_ticks: metrics.ticks_after.saturating_sub(metrics.ticks_before),
            idle_halts: metrics.idle_halts,
            reclaimed_pages: metrics.pages_allocated.saturating_sub(pages_after),
            generation: program.generation,
            installed: program.installed,
        },
    )
}

/// A program that is missing is put there as it is, to be read and executed and not written; one that is
/// there keeps its bytes, and only its permissions are mended.
pub proof fn a_missing_program_is_put_there(t: Seq<Entry>, executable: Seq<u8>)
    requires
        crate::fs::entry::distinct_names(t),
        crate::fs::tree::valid_names(t),
    ensures
        program_installed(t, executable) matches Some(Ok(u)) && program_in(t) is None ==> program_in(
            program_installed(t, executable).unwrap().unwrap(),
        ) == Some(executable),
        program_in(t) is Some && program_usable(t) ==> program_installed(t, executable) is None,
        program_in(t) is Some && !program_usable(t) ==> program_installed(t, executable) == Some(
            after_set_permissions(t, program_path(), 0o555),
        ),
        program_in(t) is None ==> program_installed(t, executable) == Some(
            after_write(t, program_path(), executable, Some(0o555)),
        ),
        program_differs(t, executable) <==> program_in(t) is Some && sha256_of(program_in(t).unwrap())
            != sha256_of(executable),
{
    if program_in(t) is None && program_installed(t, executable).unwrap() is Ok {
        assert(0o555u16 & 0o400 != 0) by (bit_vector);
        crate::fs::laws::a_written_file_is_read_back(
            t,
            program_path(),
            executable,
            Some(0o555),
            program_path().push(0),
        );
    }
}

} // verus!
