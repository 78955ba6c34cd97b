//! Splitting of long texts into bounded, overlapping chunks.
//!
//! The crate offers two strategies behind one contract: a token-count-bounded
//! sliding-window splitter and a markdown-structure-aware splitter.  Both
//! produce chunks no longer than a configured size, and the batch operations
//! attach per-document metadata to every chunk a document yields.

mod document;
mod error;
mod markdown;
mod options;
mod splitter;
mod token;
mod value;
mod window;

pub use document::{Document, DocumentV};
pub use error::TextSplitterError;
pub use markdown::{
    concat_parts, lemma_concat_min_len, lemma_md_split_props, lemma_merge_bounds,
    lemma_parts_shorter, lemma_small_text_single_chunk, lemma_split_rec_props, md_chunks, md_run,
    md_split, merge_chunks, merge_rec, seps_wf, split_parts, split_rec, MarkdownSplitter,
};
pub use options::SplitterOptions;
pub use splitter::{
    chunk_docs, doc_metas, doc_texts, effective_metas, expand_batch,
    lemma_default_metas_like_empty, lemma_order_preserved, ChunkStrategy, TextSplitter,
};
pub use token::{lemma_token_overlap, lemma_token_reconstruct, TokenSplitter};
pub use value::{MetaEntry, MetaEntryV, MetaValue, MetaValueV, Metadata};
pub use window::{
    adjacent_overlap_ok, lemma_windows_bounds, lemma_windows_min_len, lemma_windows_overlap,
    lemma_windows_reconstruct, overlap_stripped, sliding_split, sliding_windows, strip_rest,
};
