//! Error taxonomy of the decryption pipeline.

use vstd::prelude::*;

verus! {

/// Failures of the pipeline that the library itself can detect.
///
/// `KeyNotFound` and `MalformedContainer` are fatal for a whole run:
/// without the index no track can be recovered. `KeyUnwrapError` is
/// per-track: that track is skipped and the run continues.
#[derive(Clone, Copy, Debug, PartialEq, Eq, Structural)]
pub enum DecryptError {
    /// Every candidate identity failed the magic-marker check on the
    /// index's first cipher block.
    KeyNotFound,
    /// The index container's stored size does not agree with the bytes
    /// actually present.
    MalformedContainer,
    /// A per-track key blob could not be decoded or unwrapped.
    KeyUnwrapError,
}

} // verus!
