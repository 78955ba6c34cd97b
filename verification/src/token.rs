//! The token-count-bounded strategy: plain sliding windows over the text.
//!
//! Its unit of measure is the character, so measurement is total: this
//! strategy never reports a `TokenizationFailure`.

use vstd::prelude::*;

use crate::error::TextSplitterError;
use crate::options::SplitterOptions;
use crate::splitter::{ChunkStrategy, TextSplitter};
use crate::window::{
    adjacent_overlap_ok, lemma_windows_bounds, lemma_windows_overlap, lemma_windows_reconstruct,
    overlap_stripped, sliding_split, sliding_windows,
};

verus! {

/// Splits text into chunks of at most `chunk_size` characters, consecutive
/// chunks repeating `chunk_overlap` characters.
#[derive(Debug, Clone, Copy, PartialEq, Eq, Structural)]
pub struct TokenSplitter {
    pub options: SplitterOptions,
}

impl TokenSplitter {
    /// Builds the splitter, failing with `InvalidConfiguration` exactly when
    /// `chunk_overlap >= chunk_size`.
    pub fn new(chunk_size: usize, chunk_overlap: usize) -> (r: Result<
        TokenSplitter,
        TextSplitterError,
    >)
        ensures
            chunk_overlap < chunk_size ==> r == Ok::<TokenSplitter, TextSplitterError>(
                TokenSplitter { options: SplitterOptions { chunk_size, chunk_overlap } },
            ),
            chunk_overlap >= chunk_size ==> r == Err::<TokenSplitter, TextSplitterError>(
                TextSplitterError::InvalidConfiguration,
            ),
    {
        match SplitterOptions::new(chunk_size, chunk_overlap) {
            Ok(options) => Ok(TokenSplitter { options }),
            Err(e) => Err(e),
        }
    }
}

/// The overlap law of this strategy: adjacent chunks repeat exactly
/// `chunk_overlap` characters.
pub proof fn lemma_token_overlap(t: &TokenSplitter, text: Seq<char>)
    requires
        t.wf(),
    ensures
        adjacent_overlap_ok(t.chunks_of(text), t.options.chunk_overlap as int),
{
    lemma_windows_overlap(text, t.options.chunk_size as int, t.options.chunk_overlap as int);
}

/// The reconstruction law of this strategy: stripping each non-first chunk
/// of its overlapping prefix and concatenating reproduces the text exactly.
pub proof fn lemma_token_reconstruct(t: &TokenSplitter, text: Seq<char>)
    requires
        t.wf(),
    ensures
        overlap_stripped(t.chunks_of(text), t.options.chunk_overlap as int) == text,
{
    lemma_windows_reconstruct(text, t.options.chunk_size as int, t.options.chunk_overlap as int);
}

impl ChunkStrategy for TokenSplitter {
    open spec fn chunks_of(&self, text: Seq<char>) -> Seq<Seq<char>> {
        sliding_windows(text, self.options.chunk_size as int, self.options.chunk_overlap as int)
    }
}

impl TextSplitter for TokenSplitter {
    open spec fn chunk_budget(&self) -> int {
        self.options.chunk_size as int
    }

    open spec fn wf(&self) -> bool {
        self.options.wf()
    }

    proof fn lemma_chunks_wf(&self, text: Seq<char>) {
        lemma_windows_bounds(
            text,
            self.options.chunk_size as int,
            self.options.chunk_overlap as int,
        );
    }

    fn split_text(&self, text: &str) -> (r: Result<Vec<String>, TextSplitterError>) {
        Ok(sliding_split(text, self.options.chunk_size, self.options.chunk_overlap))
    }
}

} // verus!
