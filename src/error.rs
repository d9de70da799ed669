//! Failures of a run.

use vstd::prelude::*;

verus! {

/// Why a run stops.
#[derive(Debug, PartialEq, Eq, Structural)]
pub enum PipelineError {
    /// The input path names no file, or has no directory around it.
    InvalidInput,
}

} // verus!
