//! The common splitting contract and its shared batch operations.
//!
//! A strategy implements `split_text` (and names its result in `chunks_of`);
//! the batch operations `split_documents` and `create_documents` are provided
//! once, on top of that single operation.

use vstd::prelude::*;

use crate::document::{Document, DocumentV};
use crate::error::TextSplitterError;
use crate::value::{MetaEntryV, Metadata};

verus! {

/// The documents made of the chunks of one source text: each chunk becomes a
/// document carrying the source's metadata unchanged.
pub open spec fn chunk_docs(chunks: Seq<Seq<char>>, meta: Seq<MetaEntryV>) -> Seq<DocumentV> {
    chunks.map_values(|c: Seq<char>| DocumentV { page_content: c, metadata: meta })
}

/// The part of a strategy visible to specifications: the chunks it produces
/// for a text.
pub trait ChunkStrategy: Sized {
    /// The chunks this splitter produces for a text.
    spec fn chunks_of(&self, text: Seq<char>) -> Seq<Seq<char>>;
}

/// The documents of a whole batch, in order: all chunks of the first text,
/// then all chunks of the second, and so on.
pub open spec fn expand_batch<S: ChunkStrategy>(
    s: &S,
    texts: Seq<Seq<char>>,
    metas: Seq<Seq<MetaEntryV>>,
) -> Seq<DocumentV>
    decreases texts.len(),
{
    if texts.len() <= 0 {
        Seq::empty()
    } else {
        chunk_docs(s.chunks_of(texts[0]), metas[0]) + expand_batch(s, texts.skip(1), metas.skip(1))
    }
}

/// An empty metadata batch stands for one empty metadata collection per text.
pub open spec fn effective_metas(n: int, metas: Seq<Seq<MetaEntryV>>) -> Seq<Seq<MetaEntryV>> {
    if metas.len() == 0 {
        Seq::new(n as nat, |i: int| Seq::<MetaEntryV>::empty())
    } else {
        metas
    }
}

/// The text of each document of a batch, in order.
pub open spec fn doc_texts(docs: Seq<DocumentV>) -> Seq<Seq<char>> {
    docs.map_values(|d: DocumentV| d.page_content)
}

/// The metadata of each document of a batch, in order.
pub open spec fn doc_metas(docs: Seq<DocumentV>) -> Seq<Seq<MetaEntryV>> {
    docs.map_values(|d: DocumentV| d.metadata)
}

/// The common contract of a splitting strategy.
pub trait TextSplitter: ChunkStrategy {
    /// Whether this splitter's configuration is valid; constructors only
    /// hand out splitters for which this holds.
    spec fn wf(&self) -> bool;

    /// The size bound this splitter promises of its chunks.
    spec fn chunk_budget(&self) -> int;

    /// Laws every strategy must obey: a text yields a chunk exactly when it
    /// is non-empty, and every chunk holds between one character and the
    /// chunk budget.
    proof fn lemma_chunks_wf(&self, text: Seq<char>)
        requires
            self.wf(),
        ensures
            self.chunks_of(text).len() == 0 <==> text.len() == 0,
            forall|i: int|
                0 <= i < self.chunks_of(text).len() ==> 1 <= (#[trigger] self.chunks_of(
                    text,
                )[i]).len() <= self.chunk_budget(),
    ;

    /// Splits one text into its chunks.
    fn split_text(&self, text: &str) -> (r: Result<Vec<String>, TextSplitterError>)
        requires
            self.wf(),
        ensures
            r matches Ok(cs) && cs.deep_view() == self.chunks_of(text@),
    ;

    /// Splits every document of a batch, each chunk inheriting its source
    /// document's metadata; order across the batch is preserved.
    fn split_documents(&self, documents: &Vec<Document>) -> (r: Result<
        Vec<Document>,
        TextSplitterError,
    >)
        requires
            self.wf(),
        ensures
            r matches Ok(docs) && docs.deep_view() == expand_batch(
                self,
                doc_texts(documents.deep_view()),
                doc_metas(documents.deep_view()),
            ),
    {
        let mut texts: Vec<String> = Vec::new();
        let mut metas: Vec<Metadata> = Vec::new();
        let ghost all_texts = doc_texts(documents.deep_view());
        let ghost all_metas = doc_metas(documents.deep_view());
        let mut j: usize = 0;
        proof {
            assert(texts.deep_view() =~= all_texts.take(0));
            assert(metas.deep_view() =~= all_metas.take(0));
        }
        while j < documents.len()
            invariant
                j <= documents.len(),
                texts@.len() == j,
                metas@.len() == j,
                all_texts == doc_texts(documents.deep_view()),
                all_metas == doc_metas(documents.deep_view()),
                texts.deep_view() == all_texts.take(j as int),
                metas.deep_view() == all_metas.take(j as int),
            decreases documents.len() - j,
        {
            let ghost tpre = texts.deep_view();
            let d = &documents[j];
            let content = d.page_content.clone();
            let meta = d.metadata.clone();
            let ghost vtpre = texts;
            let ghost gcontent = content;
            texts.push(content);
            metas.push(meta);
            proof {
                crate::window::lemma_push_deep_view(tpre, vtpre, texts, gcontent);
                assert(tpre.push(gcontent@) =~= all_texts.take(j + 1));
                assert(metas.deep_view() =~= all_metas.take(j + 1));
            }
            j = j + 1;
        }
        proof {
            assert(all_texts.take(j as int) =~= all_texts);
            assert(all_metas.take(j as int) =~= all_metas);
        }
        let r = self.create_documents(&texts, &metas);
        proof {
            let ms = effective_metas(texts@.len() as int, metas.deep_view());
            if documents.len() == 0 {
                assert(ms =~= all_metas);
            }
        }
        r
    }

    /// Turns a batch of texts with parallel metadata into chunk documents.
    ///
    /// An empty `metadatas` batch stands for one empty collection per text;
    /// otherwise the lengths must match, and a mismatch fails with
    /// `MetadataTextMismatch` before any splitting work.
    fn create_documents(&self, texts: &Vec<String>, metadatas: &Vec<Metadata>) -> (r: Result<
        Vec<Document>,
        TextSplitterError,
    >)
        requires
            self.wf(),
        ensures
            texts@.len() != effective_metas(texts@.len() as int, metadatas.deep_view()).len()
                ==> r == Err::<Vec<Document>, TextSplitterError>(
                TextSplitterError::MetadataTextMismatch,
            ),
            texts@.len() == effective_metas(texts@.len() as int, metadatas.deep_view()).len() ==> (
            r matches Ok(docs) && docs.deep_view() == expand_batch(
                self,
                texts.deep_view(),
                effective_metas(texts@.len() as int, metadatas.deep_view()),
            )),
    {
        let use_default = metadatas.len() == 0;
        if !use_default && texts.len() != metadatas.len() {
            return Err(TextSplitterError::MetadataTextMismatch);
        }
        let ghost all_texts = texts.deep_view();
        let ghost ms = effective_metas(texts@.len() as int, metadatas.deep_view());
        let mut docs: Vec<Document> = Vec::new();
        let mut i: usize = 0;
        proof {
            assert(all_texts.skip(0) =~= all_texts);
            assert(ms.skip(0) =~= ms);
            assert(Seq::<DocumentV>::empty() + expand_batch(self, all_texts, ms) =~= expand_batch(
                self,
                all_texts,
                ms,
            ));
            assert(docs.deep_view() =~= Seq::<DocumentV>::empty());
        }
        while i < texts.len()
            invariant
                self.wf(),
                i <= texts.len(),
                all_texts == texts.deep_view(),
                ms == effective_metas(texts@.len() as int, metadatas.deep_view()),
                ms.len() == texts@.len(),
                use_default <==> metadatas@.len() == 0,
                expand_batch(self, all_texts, ms) == docs.deep_view() + expand_batch(
                    self,
                    all_texts.skip(i as int),
                    ms.skip(i as int),
                ),
            decreases texts.len() - i,
        {
            let cs = match self.split_text(texts[i].as_str()) {
                Ok(cs) => cs,
                Err(e) => {
                    return Err(e);
                },
            };
            let meta = if use_default {
                Metadata::new()
            } else {
                metadatas[i].clone()
            };
            let ghost m_i = ms[i as int];
            let ghost produced = chunk_docs(self.chunks_of(all_texts[i as int]), m_i);
            let ghost base = docs.deep_view();
            proof {
                assert(all_texts[i as int] == texts@[i as int]@);
                assert(meta.deep_view() == m_i);
                assert(all_texts.skip(i as int)[0] == all_texts[i as int]);
                assert(ms.skip(i as int)[0] == m_i);
                assert(all_texts.skip(i as int).skip(1) =~= all_texts.skip(i + 1));
                assert(ms.skip(i as int).skip(1) =~= ms.skip(i + 1));
            }
            let mut k: usize = 0;
            proof {
                assert(base + produced.take(0) =~= base);
            }
            while k < cs.len()
                invariant
                    k <= cs.len(),
                    docs@.len() == base.len() + k,
                    cs.deep_view() == self.chunks_of(all_texts[i as int]),
                    produced == chunk_docs(self.chunks_of(all_texts[i as int]), m_i),
                    meta.deep_view() == m_i,
                    docs.deep_view() == base + produced.take(k as int),
                decreases cs.len() - k,
            {
                let chunk = cs[k].clone();
                let doc = Document::new(chunk).with_metadata(meta.clone());
                let ghost dpre = docs.deep_view();
                docs.push(doc);
                proof {
                    assert(docs.deep_view() =~= dpre.push(
                        DocumentV { page_content: cs@[k as int]@, metadata: m_i },
                    ));
                    assert(produced[k as int] == DocumentV {
                        page_content: cs.deep_view()[k as int],
                        metadata: m_i,
                    });
                    assert(docs.deep_view() =~= base + produced.take(k + 1));
                }
                k = k + 1;
            }
            proof {
                assert(produced.take(k as int) =~= produced);
                assert((base + produced) + expand_batch(self, all_texts.skip(i + 1), ms.skip(i + 1))
                    =~= base + (produced + expand_batch(
                    self,
                    all_texts.skip(i + 1),
                    ms.skip(i + 1),
                )));
            }
            i = i + 1;
        }
        proof {
            assert(all_texts.skip(i as int).len() == 0);
            assert(docs.deep_view() + expand_batch(self, all_texts.skip(i as int), ms.skip(i as int))
                =~= docs.deep_view());
        }
        Ok(docs)
    }
}

/// A batch with no metadata behaves as a batch of empty metadata
/// collections: the produced documents are the same.
pub proof fn lemma_default_metas_like_empty<S: ChunkStrategy>(
    s: &S,
    texts: Seq<Seq<char>>,
    metas: Seq<Seq<MetaEntryV>>,
)
    requires
        metas.len() == texts.len(),
        forall|i: int| 0 <= i < metas.len() ==> (#[trigger] metas[i]) == Seq::<MetaEntryV>::empty(),
    ensures
        expand_batch(
            s,
            texts,
            effective_metas(texts.len() as int, Seq::<Seq<MetaEntryV>>::empty()),
        ) == expand_batch(s, texts, metas),
{
    assert(effective_metas(texts.len() as int, Seq::<Seq<MetaEntryV>>::empty()) =~= metas);
}

/// Order preservation for a batch of two documents: first every chunk of the
/// first document, then every chunk of the second, each carrying its own
/// source's metadata unchanged.
pub proof fn lemma_order_preserved<S: ChunkStrategy>(s: &S, a: DocumentV, b: DocumentV)
    ensures
        expand_batch(s, doc_texts(seq![a, b]), doc_metas(seq![a, b])) == chunk_docs(
            s.chunks_of(a.page_content),
            a.metadata,
        ) + chunk_docs(s.chunks_of(b.page_content), b.metadata),
{
    reveal_with_fuel(expand_batch, 4);
    let ts = doc_texts(seq![a, b]);
    let ms = doc_metas(seq![a, b]);
    assert(ts.len() == 2 && ms.len() == 2);
    assert(ts[0] == a.page_content && ms[0] == a.metadata);
    assert(ts.skip(1) =~= doc_texts(seq![b]));
    assert(ms.skip(1) =~= doc_metas(seq![b]));
    let ts1 = doc_texts(seq![b]);
    let ms1 = doc_metas(seq![b]);
    assert(ts1[0] == b.page_content && ms1[0] == b.metadata);
    assert(ts1.skip(1) =~= Seq::<Seq<char>>::empty());
    assert(ms1.skip(1) =~= Seq::<Seq<MetaEntryV>>::empty());
    assert(expand_batch(s, Seq::<Seq<char>>::empty(), Seq::<Seq<MetaEntryV>>::empty())
        == Seq::<DocumentV>::empty());
    assert(chunk_docs(s.chunks_of(b.page_content), b.metadata) + Seq::<DocumentV>::empty()
        =~= chunk_docs(s.chunks_of(b.page_content), b.metadata));
    assert(chunk_docs(s.chunks_of(a.page_content), a.metadata) + (chunk_docs(
        s.chunks_of(b.page_content),
        b.metadata,
    ) + Seq::<DocumentV>::empty()) =~= chunk_docs(s.chunks_of(a.page_content), a.metadata)
        + chunk_docs(s.chunks_of(b.page_content), b.metadata));
}

} // verus!
