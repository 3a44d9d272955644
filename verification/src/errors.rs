//! Error kinds shared by the pipeline components.

use vstd::prelude::*;

verus! {

/// Every failure the pipeline core can report. All are fatal for the
/// current unit of work; retry policy belongs to the orchestrator.
#[derive(Clone, Copy, Debug, PartialEq, Eq, Structural)]
pub enum PipelineError {
    /// A required input was missing or out of range (no video stream,
    /// non-positive duration, segment length or group count).
    InvalidInput,
    /// An external tool exited non-zero or produced unusable output.
    ToolFailure,
    /// The artifact set handed to the assembler does not carry exactly
    /// the orders `0 .. segment_count - 1` (a gap or a duplicate).
    CountMismatch,
    /// The storage collaborator failed an upload or download.
    StorageFailure,
}

} // verus!
