//! The error taxonomy shared by every catalog operation.

use vstd::prelude::*;

verus! {

/// The four kinds of failure a caller must be able to distinguish.
///
/// `IOFailure` is produced by no in-memory operation of this crate; it is the
/// variant onto which an embedding maps failures of the durable medium itself,
/// so that callers see one taxonomy for both.
#[derive(Clone, Copy, Debug, PartialEq, Eq, Structural)]
pub enum SessionError {
    /// The session identifier is empty or could escape the catalog root.
    InvalidIdentifier,
    /// No record exists at a resolvable location.
    NotFound,
    /// A record exists but its stored representation cannot be parsed.
    CorruptData,
    /// The storage medium is unavailable or a write failed.
    IOFailure,
}

} // verus!
