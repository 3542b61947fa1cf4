//! The error type shared by the loading and scanning stages.

use vstd::prelude::*;

verus! {

/// A fatal condition that aborts a run. Missing optional artifacts (an absent
/// name-mapping file, a unit directory lacking one of its two required files)
/// are not errors; they are handled by fallback values at the call sites.
#[derive(Debug)]
pub enum MyError {
    /// A file or directory that was expected to be readable was not.
    Io(String),
    /// A required document failed to parse.
    Json(String),
    /// An archive could not be opened or extracted.
    Zip(String),
    /// The input path is neither a readable archive nor a directory.
    InvalidInputPath(String),
    /// The total message count does not fit in the machine's word size.
    CountOverflow,
}

} // verus!
