//! The freshness filter: when an output file need not be written again.

use vstd::prelude::*;

verus! {

/// An output is fresh when both it and its source have a modification time
/// and the output's is not the earlier one.
///
/// A time is given in nanoseconds since the Unix epoch. `None` stands for a
/// file that is missing or whose time cannot be read.
pub open spec fn fresh(output_modified: Option<u128>, source_modified: Option<u128>) -> bool {
    output_modified is Some && source_modified is Some && output_modified->Some_0
        >= source_modified->Some_0
}

/// Whether an existing output file makes the extraction of its resource
/// unnecessary.
pub fn is_fresh(output_modified: Option<u128>, source_modified: Option<u128>) -> (skip: bool)
    ensures
        skip == fresh(output_modified, source_modified),
{
    match (output_modified, source_modified) {
        (Some(output), Some(source)) => output >= source,
        _ => false,
    }
}

} // verus!
