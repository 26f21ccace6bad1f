//! What an emulator's monitor says.

use vstd::prelude::*;
use crate::bytes::bytes_equal;
use crate::text::{characters, contains, occurs};

verus! {

/// `"(qemu)"`.
pub const PROMPT: [u8; 6] = [0x28, 0x71, 0x65, 0x6d, 0x75, 0x29];

/// Whether what the monitor said has its prompt in it.
pub fn has_prompt(output: &[u8]) -> (found: bool)
    ensures
        found == exists|at: int|
            0 <= at && at + 6 <= output@.len() && #[trigger] output@.subrange(at, at + 6) == PROMPT@,
{
    let mut at: usize = 0;
    let length: usize = output.len();
    while at < length && length - at >= 6
        invariant
            at <= length,
            length == output@.len(),
            forall|i: int|
                0 <= i < at && i + 6 <= output@.len() ==> #[trigger] output@.subrange(i, i + 6)
                    != PROMPT@,
        decreases length - at,
    {
        if bytes_equal(&output[at..at + 6], &PROMPT) {
            assert(output@.subrange(at as int, at + 6) == PROMPT@);
            return true;
        }
        at += 1;
    }
    false
}

/// A character in lower case, if it is a letter of ASCII.
pub open spec fn lower(c: char) -> char {
    if 'A' <= c <= 'Z' {
        ((c as u32 + 32) as u8) as char
    } else {
        c
    }
}

/// Whether the monitor refused a command.
pub open spec fn refuses(response: Seq<char>) -> bool {
    let lowered = response.map_values(|c: char| lower(c));
    occurs(lowered, "unknown command"@) || occurs(lowered, "invalid parameter"@)
}

/// Whether the monitor refused a command.
pub fn command_refused(response: &str) -> (refused: bool)
    ensures
        refused == refuses(response@),
{
    let text = characters(response);
    let mut lowered: Vec<char> = Vec::new();
    let mut i: usize = 0;
    while i < text.len()
        invariant
            i <= text@.len(),
            lowered@.len() == i,
            forall|j: int| 0 <= j < i ==> lowered@[j] == lower(text@[j]),
        decreases text.len() - i,
    {
        let c: char = text[i];
        if 'A' <= c && c <= 'Z' {
            lowered.push(((c as u32 + 32) as u8) as char);
        } else {
            lowered.push(c);
        }
        i += 1;
    }
    assert(lowered@ =~= response@.map_values(|c: char| lower(c)));
    contains(lowered.as_slice(), "unknown command") || contains(
        lowered.as_slice(),
        "invalid parameter",
    )
}

} // verus!
