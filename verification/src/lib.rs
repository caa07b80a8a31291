//! Patch resolution and extraction planning for layered resource archives.
//!
//! A game ships its resources in partitions. Each partition is a base package
//! plus a series of patch packages; a patch may replace a resource or mark it
//! as removed. This crate decides which package currently holds a resource,
//! splits extraction work between workers, tells a worker what to do next, and
//! decides when a cached reference dataset has to be refreshed.
//!
//! The crate reads and writes no file and opens no connection. Its callers do
//! that, and hand over what they found.

pub mod extract;
pub mod json_serde;
pub mod package;
pub mod partition;
pub mod resource_id;
pub mod text;

use crate::text::same_text;
use vstd::prelude::*;

verus! {

/// How many arguments a run takes, the program's name included: the retail
/// folder, the game version, the scene file, the runtime folder, the output
/// folder and the output type.
pub const REQUIRED_ARGUMENTS: usize = 7;

/// What a run does once the scene has been read.
///
/// A run is stricter about the output type than an extraction is. An
/// extraction takes any list of hashes and any type, and names its files
/// after the type as far as it knows it. A run takes its hashes from the
/// meshes of a scene, and a mesh has two of them: that of its collision shape
/// (`ALOC`) and that of its render mesh (`PRIM`). For any other type a scene
/// has nothing to offer, so a run refuses it rather than extract render
/// meshes under another name.
#[derive(Clone, Copy, Debug, PartialEq, Eq, Structural)]
pub enum RunDecision {
    /// The scene needs nothing: the run ends well without an extraction.
    NothingToExtract,
    /// The partitions are mounted and the needed resources extracted.
    Extract,
    /// The output type is neither `ALOC` nor `PRIM`: the run fails.
    InvalidOutputType,
}

/// A run extracts if the scene needs anything and the output type is `ALOC`
/// or `PRIM`; it has nothing to do if the scene needs nothing, whatever the
/// output type.
pub open spec fn run_decision(needed: nat, output_type: Seq<char>) -> RunDecision {
    if needed == 0 {
        RunDecision::NothingToExtract
    } else if output_type == "ALOC"@ || output_type == "PRIM"@ {
        RunDecision::Extract
    } else {
        RunDecision::InvalidOutputType
    }
}

/// The status that a decision alone gives a run: 0 where there is nothing
/// to extract, -1 for an invalid output type. Where resources are extracted,
/// the extraction decides.
pub open spec fn status_without_extraction(decision: RunDecision) -> Option<i32> {
    match decision {
        RunDecision::NothingToExtract => Some(0i32),
        RunDecision::InvalidOutputType => Some(-1i32),
        RunDecision::Extract => None,
    }
}

/// Whether a run was given all its arguments.
pub fn has_required_arguments(argument_count: usize) -> (enough: bool)
    ensures
        enough == (argument_count >= REQUIRED_ARGUMENTS),
{
    argument_count >= REQUIRED_ARGUMENTS
}

/// Decides what a run does once the scene has been read. Only the two types
/// that a scene's meshes have hashes for are extracted by a run; see
/// [`RunDecision`].
pub fn decide_run(needed_count: usize, output_type: &str) -> (decision: RunDecision)
    ensures
        decision == run_decision(needed_count as nat, output_type@),
{
    if needed_count == 0 {
        RunDecision::NothingToExtract
    } else if same_text(output_type, "ALOC") || same_text(output_type, "PRIM") {
        RunDecision::Extract
    } else {
        RunDecision::InvalidOutputType
    }
}

/// The status of a run that ends without an extraction.
pub fn run_status(decision: RunDecision) -> (status: Option<i32>)
    ensures
        status == status_without_extraction(decision),
{
    match decision {
        RunDecision::NothingToExtract => Some(0),
        RunDecision::InvalidOutputType => Some(-1),
        RunDecision::Extract => None,
    }
}

} // verus!
