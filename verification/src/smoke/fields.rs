//! Reports in a log, and the fields of a report.

use vstd::prelude::*;
use crate::text::{
    contains, fields, fields_of, lines, lines_of, occurs, parse_signed, parse_unsigned,
    signed_value, strip_prefix, unsigned_value, views, without_prefix,
};

verus! {

/// Why a field has no number.
#[derive(Debug, Clone, Copy, PartialEq, Eq, Structural)]
pub enum FieldFault {
    Omitted,
    Invalid,
}

/// Why a report does not show what it must.
#[derive(Debug, Clone, Copy, PartialEq, Eq, Structural)]
pub enum LogFault {
    /// The log has no such report.
    ReportOmitted,
    /// The part of the report with this number is missing.
    PartOmitted(usize),
    /// The field of the report with this number has no number.
    Field(usize, FieldFault),
    /// The numbers of the report do not suffice.
    Insufficient,
    /// The checksum is another one.
    ChecksumMismatch,
    /// The driver with this number is not bound.
    DriverUnbound(usize),
    /// An address cannot be used.
    UnusableAddress,
}

/// The first of the lines from `i` on that has the part.
pub open spec fn first_line_with(lines: Seq<Seq<char>>, part: Seq<char>, i: int) -> Option<Seq<char>>
    decreases lines.len() - i,
{
    if i < 0 || i >= lines.len() {
        None
    } else if occurs(lines[i], part) {
        Some(lines[i])
    } else {
        first_line_with(lines, part, i + 1)
    }
}

/// The first line of a log that has the part.
pub open spec fn report_in(log: Seq<char>, part: Seq<char>) -> Option<Seq<char>> {
    first_line_with(lines_of(log), part, 0)
}

/// The first line of a log that has the part.
pub fn find_report(log: &[char], part: &str) -> (report: Option<Vec<char>>)
    ensures
        match report {
            Some(line) => report_in(log@, part@) == Some(line@),
            None => report_in(log@, part@) is None,
        },
{
    let all = lines(log);
    let mut i: usize = 0;
    while i < all.len()
        invariant
            i <= all@.len(),
            views(all@) == lines_of(log@),
            report_in(log@, part@) == first_line_with(views(all@), part@, i as int),
        decreases all.len() - i,
    {
        if contains(all[i].as_slice(), part) {
            let mut line: Vec<char> = Vec::new();
            let mut k: usize = 0;
            while k < all[i].len()
                invariant
                    i < all@.len(),
                    k <= all@[i as int]@.len(),
                    line@ == all@[i as int]@.take(k as int),
                decreases all@[i as int]@.len() - k,
            {
                line.push(all[i][k]);
                k += 1;
                assert(line@ =~= all@[i as int]@.take(k as int));
            }
            assert(line@ =~= views(all@)[i as int]);
            return Some(line);
        }
        i += 1;
    }
    None
}

/// The first of the fields from `i` on that has the prefix, without it.
pub open spec fn first_field_with(fields: Seq<Seq<char>>, prefix: Seq<char>, i: int) -> Option<Seq<char>>
    decreases fields.len() - i,
{
    if i < 0 || i >= fields.len() {
        None
    } else if without_prefix(fields[i], prefix) is Some {
        without_prefix(fields[i], prefix)
    } else {
        first_field_with(fields, prefix, i + 1)
    }
}

/// What follows the prefix in the first field of a line that has it.
pub open spec fn field_in(line: Seq<char>, prefix: Seq<char>) -> Option<Seq<char>> {
    first_field_with(fields_of(line), prefix, 0)
}

/// What follows the prefix in the first field of a line that has it.
pub fn find_field(line: &[char], prefix: &str) -> (value: Option<Vec<char>>)
    ensures
        match value {
            Some(value) => field_in(line@, prefix@) == Some(value@),
            None => field_in(line@, prefix@) is None,
        },
{
    let all = fields(line);
    let mut i: usize = 0;
    while i < all.len()
        invariant
            i <= all@.len(),
            views(all@) == fields_of(line@),
            field_in(line@, prefix@) == first_field_with(views(all@), prefix@, i as int),
        decreases all.len() - i,
    {
        if let Some(value) = strip_prefix(all[i].as_slice(), prefix) {
            return Some(value);
        }
        i += 1;
    }
    None
}

/// The number up to `most` that a field with the prefix has.
pub open spec fn number_in(line: Seq<char>, prefix: Seq<char>, most: nat) -> Result<nat, FieldFault> {
    match field_in(line, prefix) {
        None => Err(FieldFault::Omitted),
        Some(value) => match unsigned_value(value, most) {
            Some(number) => Ok(number),
            None => Err(FieldFault::Invalid),
        },
    }
}

/// The number up to `most` that a field with the prefix has.
pub fn parse_log_number(line: &[char], prefix: &str, most: u64) -> (number: Result<u64, FieldFault>)
    ensures
        match number {
            Ok(number) => number_in(line@, prefix@, most as nat) == Ok::<nat, FieldFault>(
                number as nat,
            ),
            Err(fault) => number_in(line@, prefix@, most as nat) == Err::<nat, FieldFault>(fault),
        },
{
    match find_field(line, prefix) {
        None => Err(FieldFault::Omitted),
        Some(value) => match parse_unsigned(value.as_slice(), most) {
            Some(number) => Ok(number),
            None => Err(FieldFault::Invalid),
        },
    }
}

/// The number that a field with the prefix has.
pub fn parse_log_usize_field(line: &[char], prefix: &str) -> (number: Result<usize, FieldFault>)
    ensures
        match number {
            Ok(number) => number_in(line@, prefix@, usize::MAX as nat) == Ok::<nat, FieldFault>(
                number as nat,
            ),
            Err(fault) => number_in(line@, prefix@, usize::MAX as nat) == Err::<nat, FieldFault>(
                fault,
            ),
        },
{
    match parse_log_number(line, prefix, usize::MAX as u64) {
        Ok(number) => Ok(number as usize),
        Err(fault) => Err(fault),
    }
}

/// The number with a sign that a field with the prefix has.
pub open spec fn signed_number_in(line: Seq<char>, prefix: Seq<char>) -> Result<int, FieldFault> {
    match field_in(line, prefix) {
        None => Err(FieldFault::Omitted),
        Some(value) => match signed_value(value) {
            Some(number) => Ok(number),
            None => Err(FieldFault::Invalid),
        },
    }
}

/// The number with a sign that a field with the prefix has.
pub fn parse_log_i32_field(line: &[char], prefix: &str) -> (number: Result<i32, FieldFault>)
    ensures
        match number {
            Ok(number) => signed_number_in(line@, prefix@) == Ok::<int, FieldFault>(number as int),
            Err(fault) => signed_number_in(line@, prefix@) == Err::<int, FieldFault>(fault),
        },
{
    match find_field(line, prefix) {
        None => Err(FieldFault::Omitted),
        Some(value) => match parse_signed(value.as_slice()) {
            Some(number) => Ok(number),
            None => Err(FieldFault::Invalid),
        },
    }
}

} // verus!
