//! Outcomes of the sewing and healing repairs, and of promoting a shell to a
//! solid, as decided from the kernel's status codes.
use vstd::prelude::*;

use crate::error::{Error, SolidificationFailure};

verus! {

/// Which repair was run.
#[derive(Debug, Clone, Copy, PartialEq, Eq, Structural)]
pub enum RepairOperation {
    Sew,
    Heal,
}

/// One zero-based input-to-output topology relation.
#[derive(Debug, Clone, Copy, PartialEq, Eq, Structural)]
pub struct TopologyHistory {
    pub input_index: usize,
    pub output_index: usize,
}

/// Why a repair was refused.
#[derive(Debug, Clone, Copy, PartialEq, Eq, Structural)]
pub enum RepairFailure {
    InvalidTolerance,
    EmptyInput,
    KernelFailure,
    NoOutput,
    MultipleComponents,
    NonManifoldTopology,
    InvalidTopology,
    ToleranceExceeded,
}

/// The failure that a non-zero kernel status denotes; unknown codes are kernel failures.
pub open spec fn failure_of_status(status: u32) -> RepairFailure {
    if status == 1 {
        RepairFailure::InvalidTolerance
    } else if status == 2 {
        RepairFailure::EmptyInput
    } else if status == 4 {
        RepairFailure::NoOutput
    } else if status == 5 {
        RepairFailure::MultipleComponents
    } else if status == 6 {
        RepairFailure::InvalidTopology
    } else if status == 7 {
        RepairFailure::ToleranceExceeded
    } else if status == 8 {
        RepairFailure::NonManifoldTopology
    } else {
        RepairFailure::KernelFailure
    }
}

/// Map a kernel status code to a repair failure.
pub fn failure(status: u32) -> (r: RepairFailure)
    ensures
        r == failure_of_status(status),
{
    match status {
        1 => RepairFailure::InvalidTolerance,
        2 => RepairFailure::EmptyInput,
        4 => RepairFailure::NoOutput,
        5 => RepairFailure::MultipleComponents,
        6 => RepairFailure::InvalidTopology,
        7 => RepairFailure::ToleranceExceeded,
        8 => RepairFailure::NonManifoldTopology,
        _ => RepairFailure::KernelFailure,
    }
}

/// The outcome of a repair: success needs status `0` and an output shell; a
/// zero status without output is `NoOutput`.
pub fn repair_outcome(status: u32, has_output: bool) -> (r: Option<RepairFailure>)
    ensures
        r == (if status == 0 && has_output {
            None
        } else if status == 0 {
            Some(RepairFailure::NoOutput)
        } else {
            Some(failure_of_status(status))
        }),
{
    if status != 0 || !has_output {
        Some(
            if status == 0 {
                RepairFailure::NoOutput
            } else {
                failure(status)
            },
        )
    } else {
        None
    }
}

/// The relation pairs of a flat `[input, output, input, output, ...]` list
/// (a trailing odd entry is ignored).
pub open spec fn history_pairs(flat: Seq<u32>) -> Seq<TopologyHistory> {
    Seq::new(
        flat.len() / 2,
        |k: int|
            TopologyHistory {
                input_index: flat[2 * k] as usize,
                output_index: flat[2 * k + 1] as usize,
            },
    )
}

/// Decode a flat history list into relation pairs.
pub fn topology_history(flat: &[u32]) -> (r: Vec<TopologyHistory>)
    ensures
        r@ == history_pairs(flat@),
{
    let mut out: Vec<TopologyHistory> = Vec::new();
    let pairs = flat.len() / 2;
    for k in 0..pairs
        invariant
            pairs == flat@.len() / 2,
            2 * pairs <= flat@.len(),
            flat@.len() == flat.len(),
            out@ == history_pairs(flat@).take(k as int),
    {
        out.push(
            TopologyHistory {
                input_index: flat[2 * k] as usize,
                output_index: flat[2 * k + 1] as usize,
            },
        );
        assert(out@ =~= history_pairs(flat@).take(k + 1));
    }
    assert(history_pairs(flat@).take(pairs as int) =~= history_pairs(flat@));
    out
}

/// The verb of a repair in messages.
pub open spec fn operation_text(op: RepairOperation) -> Seq<char> {
    match op {
        RepairOperation::Sew => "sewing"@,
        RepairOperation::Heal => "healing"@,
    }
}

/// The explanation of a repair failure in messages.
pub open spec fn failure_text(f: RepairFailure) -> Seq<char> {
    match f {
        RepairFailure::InvalidTolerance => "tolerance must be finite, positive, and no greater than the maximum tolerance"@,
        RepairFailure::EmptyInput => "no faces given"@,
        RepairFailure::KernelFailure => "OCCT raised a kernel failure"@,
        RepairFailure::NoOutput => "OCCT produced no shell"@,
        RepairFailure::MultipleComponents => "result contains more than one connected shell"@,
        RepairFailure::NonManifoldTopology => "result contains an edge shared by more than two faces"@,
        RepairFailure::InvalidTopology => "resulting shell topology is invalid"@,
        RepairFailure::ToleranceExceeded => "result exceeds the maximum topology tolerance"@,
    }
}

/// The message of a refused repair: `"<verb> failed: <reason>"`.
pub fn repair_error_message(operation: RepairOperation, failure: RepairFailure) -> (r: String)
    ensures
        r@ == operation_text(operation) + " failed: "@ + failure_text(failure),
{
    let mut s = String::new();
    match operation {
        RepairOperation::Sew => s.append("sewing"),
        RepairOperation::Heal => s.append("healing"),
    }
    s.append(" failed: ");
    match failure {
        RepairFailure::InvalidTolerance => s.append(
            "tolerance must be finite, positive, and no greater than the maximum tolerance",
        ),
        RepairFailure::EmptyInput => s.append("no faces given"),
        RepairFailure::KernelFailure => s.append("OCCT raised a kernel failure"),
        RepairFailure::NoOutput => s.append("OCCT produced no shell"),
        RepairFailure::MultipleComponents => s.append(
            "result contains more than one connected shell",
        ),
        RepairFailure::NonManifoldTopology => s.append(
            "result contains an edge shared by more than two faces",
        ),
        RepairFailure::InvalidTopology => s.append("resulting shell topology is invalid"),
        RepairFailure::ToleranceExceeded => s.append(
            "result exceeds the maximum topology tolerance",
        ),
    }
    assert(s@ =~= operation_text(operation) + " failed: "@ + failure_text(failure));
    s
}

/// The error of a refused sewing, carrying the repair message.
pub fn sew_error(failure: RepairFailure) -> (r: Error)
    ensures
        r matches Error::SewFailed(msg) && msg@ == operation_text(RepairOperation::Sew)
            + " failed: "@ + failure_text(failure),
{
    Error::SewFailed(repair_error_message(RepairOperation::Sew, failure))
}

/// The failure that a solidification status denotes, with its detail count.
pub open spec fn solidification_of_status(status: u32, detail: usize) -> SolidificationFailure {
    if status == 1 {
        SolidificationFailure::InvalidShell
    } else if status == 2 {
        SolidificationFailure::OpenShell { boundary_edge_count: detail }
    } else if status == 3 {
        SolidificationFailure::NonManifoldShell { edge_count: detail }
    } else if status == 4 {
        SolidificationFailure::BuildFailed
    } else if status == 5 {
        SolidificationFailure::OrientationFailed
    } else if status == 6 {
        SolidificationFailure::InvalidSolid
    } else if status == 7 {
        SolidificationFailure::NonPositiveVolume
    } else {
        SolidificationFailure::KernelFailure
    }
}

/// The outcome of promoting a shell to a solid: success needs status `0` and
/// an output solid; anything else is refused with the status's failure.
pub fn solidification_outcome(status: u32, detail: usize, has_output: bool) -> (r: Result<
    (),
    Error,
>)
    ensures
        r == (if status == 0 && has_output {
            Ok::<(), Error>(())
        } else {
            Err(Error::SolidificationFailed(solidification_of_status(status, detail)))
        }),
{
    if status == 0 && has_output {
        return Ok(());
    }
    let failure = match status {
        1 => SolidificationFailure::InvalidShell,
        2 => SolidificationFailure::OpenShell { boundary_edge_count: detail },
        3 => SolidificationFailure::NonManifoldShell { edge_count: detail },
        4 => SolidificationFailure::BuildFailed,
        5 => SolidificationFailure::OrientationFailed,
        6 => SolidificationFailure::InvalidSolid,
        7 => SolidificationFailure::NonPositiveVolume,
        _ => SolidificationFailure::KernelFailure,
    };
    Err(Error::SolidificationFailed(failure))
}

/// Status codes and failures correspond one to one: two codes that give the
/// same failure are the same code, except that every code without a meaning
/// of its own is a kernel failure. The same holds of solidification codes,
/// the detail count riding along where the failure carries one.
pub proof fn lemma_status_codes_distinct(s1: u32, s2: u32, d1: usize, d2: usize)
    ensures
        failure_of_status(s1) == failure_of_status(s2) && failure_of_status(s1)
            != RepairFailure::KernelFailure ==> s1 == s2,
        failure_of_status(s1) == RepairFailure::KernelFailure <==> (s1 == 0 || s1 == 3 || s1 > 8),
        solidification_of_status(s1, d1) == solidification_of_status(s2, d2)
            && solidification_of_status(s1, d1) != SolidificationFailure::KernelFailure ==> s1 == s2,
        solidification_of_status(s1, d1) == SolidificationFailure::KernelFailure <==> (s1 == 0
            || s1 > 7),
        s1 == 2 ==> solidification_of_status(s1, d1) == (SolidificationFailure::OpenShell {
            boundary_edge_count: d1,
        }),
        s1 == 3 ==> solidification_of_status(s1, d1) == (SolidificationFailure::NonManifoldShell {
            edge_count: d1,
        }),
{
}

} // verus!
