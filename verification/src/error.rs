//! The failures the measurement engine reports.

use vstd::prelude::*;

verus! {

/// Every fatal condition of the engine: parse failures, an unusable
/// candidate path, an empty or exhausted candidate list, and a share
/// response without a result identifier.
#[derive(Clone, Copy, Debug, PartialEq, Eq, Structural)]
pub enum SpeedTestError {
    /// The configuration document is malformed or incomplete.
    ConfigParseError,
    /// A server entry or the directory document is malformed.
    ServerParseError,
    /// A candidate's transfer URL has no parent path.
    LatencyTestInvalidPath,
    /// No candidate server was offered at all.
    LatencyTestNoServerError,
    /// Every candidate server was abandoned during probing.
    LatencyTestClosestError,
    /// The share response carries no result identifier.
    ParseShareUrlError,
}

} // verus!
