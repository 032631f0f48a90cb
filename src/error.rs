//! The ways building a symbol can fail.

use vstd::prelude::*;

verus! {

/// Why a symbol could not be produced.
///
/// Inconsistencies of the internal tables (a layout that does not add up, a
/// placement that runs out of positions) are ruled out by verification, so no
/// error stands for them.
#[derive(Clone, Copy, Debug, PartialEq, Eq, Structural)]
pub enum QrError {
    /// The payload fits in no allowed combination of version and error correction.
    CapacityExceeded,
    /// The version lies outside the tables this library carries.
    UnsupportedVersion,
    /// The request is incomplete or contradictory: no payload, or a mask
    /// reference out of range.
    InvalidConfiguration,
}

} // verus!
