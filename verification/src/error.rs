//! The failure taxonomy of the splitting operations.

use vstd::prelude::*;

verus! {

/// Everything a splitting operation can fail with.  The variants are
/// structured values so that a caller can branch on the failure kind.
#[derive(Debug, Clone, Copy, PartialEq, Eq, Structural)]
pub enum TextSplitterError {
    /// A batch handed texts and metadata sequences of different lengths.
    MetadataTextMismatch,
    /// The chunk-size measurement could not process an input text.
    TokenizationFailure,
    /// A splitter was configured with `chunk_overlap >= chunk_size`.
    InvalidConfiguration,
}

} // verus!
