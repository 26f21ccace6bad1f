//! What the logs of special boots must say: refused kernels, changed trust roots, recoveries and
//! updates.

use vstd::prelude::*;
use vstd::string::*;
use crate::text::{
    characters, contains, first_missing, missing_part, occurs, occurs_at, texts, strip_prefix,
};

verus! {

/// Why a log does not show that a kernel was refused.
#[derive(Debug, Clone, Copy, PartialEq, Eq, Structural)]
pub enum RejectionFault {
    NotReported,
    KernelEntered,
}

/// Why a log does not show that a kernel was refused for a reason.
pub open spec fn rejection_fault(log: Seq<char>, reason: Seq<char>) -> Option<RejectionFault> {
    if !occurs(log, "kernel security failure:"@) || !occurs(log, reason) {
        Some(RejectionFault::NotReported)
    } else if occurs(log, "codexOS kernel entered"@) || occurs(
        log,
        "codexOS standalone kernel entered"@,
    ) {
        Some(RejectionFault::KernelEntered)
    } else {
        None
    }
}

/// Checks that the log shows that a kernel was refused for a reason.
pub fn require_security_rejection(log: &str, reason: &str) -> (result: Result<(), RejectionFault>)
    ensures
        result == match rejection_fault(log@, reason@) {
            Some(fault) => Err::<(), RejectionFault>(fault),
            None => Ok(()),
        },
{
    let log = characters(log);
    if !contains(log.as_slice(), "kernel security failure:") || !contains(log.as_slice(), reason) {
        return Err(RejectionFault::NotReported);
    }
    if contains(log.as_slice(), "codexOS kernel entered") || contains(
        log.as_slice(),
        "codexOS standalone kernel entered",
    ) {
        return Err(RejectionFault::KernelEntered);
    }
    Ok(())
}

/// A boot that must go on to the standalone kernel.
#[derive(Debug, Clone, Copy, PartialEq, Eq, Structural)]
pub enum Scenario {
    /// The second release is established.
    SecondRelease,
    /// The disk has partitions.
    Partitioned,
    /// The active slot is damaged.
    Recovery,
    /// Both boot states are damaged.
    StateRecovery,
    /// An update was applied.
    Updated,
    /// An update was applied to a disk that has partitions.
    UpdatedPartitioned,
    /// The slot of an update is damaged.
    UpdateRecovery,
}

/// What the log of such a boot must say.
pub open spec fn scenario_parts(scenario: Scenario) -> Seq<Seq<char>> {
    match scenario {
        Scenario::SecondRelease => seq![
            "kernel signature: verified=true version=2"@,
            "codexOS standalone kernel entered"@,
        ],
        Scenario::Partitioned => seq![
            "kernel signature: verified=true version=1 slot=A"@,
            "codexOS standalone kernel entered"@,
            "network tcp listener ready: port=8080 protocol=http"@,
        ],
        Scenario::Recovery => seq![
            "system slot A rejected: KernelHashMismatch"@,
            "system recovery fallback: active=A selected=B version=1"@,
            "kernel signature: verified=true version=1 slot=B state-gen=2 recovery=true"@,
            "codexOS standalone kernel entered"@,
        ],
        Scenario::StateRecovery => seq![
            "system boot-state recovery: selected=A version=1 source=signed-slot-scan"@,
            "kernel signature: verified=true version=1 slot=A state-gen=0 recovery=true"@,
            "codexOS standalone kernel entered"@,
            "standalone pointer polling active: device=ps2 enabled=true"@,
        ],
        Scenario::Updated => seq![
            "kernel signature: verified=true version=2 slot=B state-gen=3 recovery=false"@,
            "codexOS standalone kernel entered"@,
        ],
        Scenario::UpdatedPartitioned => seq![
            "kernel signature: verified=true version=2 slot=B state-gen=3 recovery=false"@,
            "codexOS standalone kernel entered"@,
            "network tcp listener ready: port=8080 protocol=http"@,
        ],
        Scenario::UpdateRecovery => seq![
            "system slot B rejected: KernelHashMismatch"@,
            "system recovery fallback: active=B selected=A version=2"@,
            "kernel signature: verified=true version=2 slot=A state-gen=3 recovery=true"@,
            "codexOS standalone kernel entered"@,
        ],
    }
}

/// The first part that the log of such a boot lacks.
pub fn scenario_missing(log: &str, scenario: Scenario) -> (missing: Option<usize>)
    ensures
        missing == first_missing(log@, scenario_parts(scenario), 0),
{
    let text = characters(log);
    match scenario {
        Scenario::SecondRelease => {
            let parts: [&str; 2] = [
                "kernel signature: verified=true version=2",
                "codexOS standalone kernel entered",
            ];
            assert(texts(parts@) =~= scenario_parts(scenario));
            missing_part(text.as_slice(), parts.as_slice())
        },
        Scenario::Partitioned => {
            let parts: [&str; 3] = [
                "kernel signature: verified=true version=1 slot=A",
                "codexOS standalone kernel entered",
                "network tcp listener ready: port=8080 protocol=http",
            ];
            assert(texts(parts@) =~= scenario_parts(scenario));
            missing_part(text.as_slice(), parts.as_slice())
        },
        Scenario::Recovery => {
            let parts: [&str; 4] = [
                "system slot A rejected: KernelHashMismatch",
                "system recovery fallback: active=A selected=B version=1",
                "kernel signature: verified=true version=1 slot=B state-gen=2 recovery=true",
                "codexOS standalone kernel entered",
            ];
            assert(texts(parts@) =~= scenario_parts(scenario));
            missing_part(text.as_slice(), parts.as_slice())
        },
        Scenario::StateRecovery => {
            let parts: [&str; 4] = [
                "system boot-state recovery: selected=A version=1 source=signed-slot-scan",
                "kernel signature: verified=true version=1 slot=A state-gen=0 recovery=true",
                "codexOS standalone kernel entered",
                "standalone pointer polling active: device=ps2 enabled=true",
            ];
            assert(texts(parts@) =~= scenario_parts(scenario));
            missing_part(text.as_slice(), parts.as_slice())
        },
        Scenario::Updated => {
            let parts: [&str; 2] = [
                "kernel signature: verified=true version=2 slot=B state-gen=3 recovery=false",
                "codexOS standalone kernel entered",
            ];
            assert(texts(parts@) =~= scenario_parts(scenario));
            missing_part(text.as_slice(), parts.as_slice())
        },
        Scenario::UpdatedPartitioned => {
            let parts: [&str; 3] = [
                "kernel signature: verified=true version=2 slot=B state-gen=3 recovery=false",
                "codexOS standalone kernel entered",
                "network tcp listener ready: port=8080 protocol=http",
            ];
            assert(texts(parts@) =~= scenario_parts(scenario));
            missing_part(text.as_slice(), parts.as_slice())
        },
        Scenario::UpdateRecovery => {
            let parts: [&str; 4] = [
                "system slot B rejected: KernelHashMismatch",
                "system recovery fallback: active=B selected=A version=2",
                "kernel signature: verified=true version=2 slot=A state-gen=3 recovery=true",
                "codexOS standalone kernel entered",
            ];
            assert(texts(parts@) =~= scenario_parts(scenario));
            missing_part(text.as_slice(), parts.as_slice())
        },
    }
}

/// What the log must say when a release hands trust over to the key with this identifier.
pub open spec fn rotation_parts(key_id: Seq<char>) -> Seq<Seq<char>> {
    seq![
        "kernel trust root: source=embedded"@,
        "trust root update: activated version=2 previous-source=embedded next-key-id="@ + key_id,
        "kernel signature: verified=true version=2"@,
        "codexOS standalone kernel entered"@,
    ]
}

/// What the log must say when a release is checked with the key that trust was handed over to.
pub open spec fn rotated_parts(key_id: Seq<char>) -> Seq<Seq<char>> {
    seq![
        "kernel trust root: source=persisted activation-version=2 signer-key-id="@ + key_id,
        "trust root update: none source=persisted signer-key-id="@ + key_id,
        "kernel signature: verified=true version=3"@,
        "codexOS standalone kernel entered"@,
    ]
}

/// The first part that the log lacks when a release hands trust over.
pub fn rotation_missing(log: &str, key_id: &str) -> (missing: Option<usize>)
    ensures
        missing == first_missing(log@, rotation_parts(key_id@), 0),
{
    let text = characters(log);
    let mut activation = String::from_str(
        "trust root update: activated version=2 previous-source=embedded next-key-id=",
    );
    activation.append(key_id);
    let parts: [&str; 4] = [
        "kernel trust root: source=embedded",
        activation.as_str(),
        "kernel signature: verified=true version=2",
        "codexOS standalone kernel entered",
    ];
    assert(texts(parts@) =~= rotation_parts(key_id@));
    missing_part(text.as_slice(), parts.as_slice())
}

/// The first part that the log lacks after trust was handed over.
pub fn rotated_missing(log: &str, key_id: &str) -> (missing: Option<usize>)
    ensures
        missing == first_missing(log@, rotated_parts(key_id@), 0),
{
    let text = characters(log);
    let mut persisted = String::from_str(
        "kernel trust root: source=persisted activation-version=2 signer-key-id=",
    );
    persisted.append(key_id);
    let mut unchanged = String::from_str("trust root update: none source=persisted signer-key-id=");
    unchanged.append(key_id);
    let parts: [&str; 4] = [
        persisted.as_str(),
        unchanged.as_str(),
        "kernel signature: verified=true version=3",
        "codexOS standalone kernel entered",
    ];
    assert(texts(parts@) =~= rotated_parts(key_id@));
    missing_part(text.as_slice(), parts.as_slice())
}

/// Whether a response is what the kernel's listener answers.
pub fn listener_answered(response: &str) -> (answered: bool)
    ensures
        answered == (occurs_at(response@, "HTTP/1.1 200 OK"@, 0) && occurs(
            response@,
            "codexOS listener online"@,
        )),
{
    let text = characters(response);
    strip_prefix(text.as_slice(), "HTTP/1.1 200 OK").is_some() && contains(
        text.as_slice(),
        "codexOS listener online",
    )
}

} // verus!
