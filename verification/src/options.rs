//! Configuration shared by every splitting strategy.

use vstd::prelude::*;

use crate::error::TextSplitterError;

verus! {

/// The size budget of a splitter: chunks hold at most `chunk_size` units and
/// consecutive chunks may repeat up to `chunk_overlap` trailing units.
///
/// A value only ever exists in a well-formed state: the constructor rejects
/// `chunk_overlap >= chunk_size`, so `chunk_size` is always positive.
#[derive(Debug, Clone, Copy, PartialEq, Eq, Structural)]
pub struct SplitterOptions {
    pub chunk_size: usize,
    pub chunk_overlap: usize,
}

impl SplitterOptions {
    /// The construction-time invariant: overlap strictly below the size.
    pub open spec fn wf(&self) -> bool {
        self.chunk_overlap < self.chunk_size
    }

    /// Builds options, failing with `InvalidConfiguration` exactly when
    /// `chunk_overlap >= chunk_size`.
    pub fn new(chunk_size: usize, chunk_overlap: usize) -> (r: Result<
        SplitterOptions,
        TextSplitterError,
    >)
        ensures
            chunk_overlap < chunk_size ==> r == Ok::<SplitterOptions, TextSplitterError>(
                SplitterOptions { chunk_size, chunk_overlap },
            ),
            chunk_overlap >= chunk_size ==> r == Err::<SplitterOptions, TextSplitterError>(
                TextSplitterError::InvalidConfiguration,
            ),
    {
        if chunk_overlap < chunk_size {
            Ok(SplitterOptions { chunk_size, chunk_overlap })
        } else {
            Err(TextSplitterError::InvalidConfiguration)
        }
    }
}

} // verus!
