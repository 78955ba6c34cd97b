use text_splitter::{
    Document, MarkdownSplitter, MetaValue, Metadata, SplitterOptions, TextSplitter,
    TextSplitterError, TokenSplitter,
};

fn meta_src(v: &str) -> Metadata {
    let mut m = Metadata::new();
    m.insert(String::from("src"), MetaValue::Str(String::from(v)));
    m
}

#[test]
fn token_empty_text_yields_no_chunks() {
    let s = TokenSplitter::new(10, 2).unwrap();
    let chunks = s.split_text("").unwrap();
    assert!(chunks.is_empty());
}

#[test]
fn token_small_text_single_chunk() {
    let s = TokenSplitter::new(10, 2).unwrap();
    let chunks = s.split_text("abc").unwrap();
    assert_eq!(chunks, vec![String::from("abc")]);
}

#[test]
fn token_sliding_window_example() {
    // 25 character-units, chunk_size 10, chunk_overlap 2: windows start at
    // 0, 8 and 16.
    let s = TokenSplitter::new(10, 2).unwrap();
    let chunks = s.split_text("abcdefghijklmnopqrstuvwxy").unwrap();
    assert_eq!(
        chunks,
        vec![
            String::from("abcdefghij"),
            String::from("ijklmnopqr"),
            String::from("qrstuvwxy"),
        ]
    );
}

#[test]
fn token_chunks_respect_size_bound() {
    let s = TokenSplitter::new(10, 2).unwrap();
    let chunks = s.split_text("abcdefghijklmnopqrstuvwxy").unwrap();
    assert!(!chunks.is_empty());
    for c in &chunks {
        assert!(c.chars().count() <= 10);
        assert!(!c.is_empty());
    }
}

#[test]
fn token_adjacent_chunks_overlap() {
    let s = TokenSplitter::new(10, 2).unwrap();
    let chunks = s.split_text("abcdefghijklmnopqrstuvwxy").unwrap();
    for w in chunks.windows(2) {
        let left: Vec<char> = w[0].chars().collect();
        let right: Vec<char> = w[1].chars().collect();
        assert_eq!(left[left.len() - 2..], right[..2]);
    }
}

#[test]
fn token_reconstruction_after_overlap_removal() {
    let original = "abcdefghijklmnopqrstuvwxy";
    let s = TokenSplitter::new(10, 2).unwrap();
    let chunks = s.split_text(original).unwrap();
    let mut rebuilt = String::new();
    for (i, c) in chunks.iter().enumerate() {
        if i == 0 {
            rebuilt.push_str(c);
        } else {
            let stripped: String = c.chars().skip(2).collect();
            rebuilt.push_str(&stripped);
        }
    }
    assert_eq!(rebuilt, original);
}

#[test]
fn invalid_configuration_overlap_equal_to_size() {
    assert_eq!(
        TokenSplitter::new(5, 5).unwrap_err(),
        TextSplitterError::InvalidConfiguration
    );
    assert_eq!(
        MarkdownSplitter::new(5, 5).unwrap_err(),
        TextSplitterError::InvalidConfiguration
    );
}

#[test]
fn invalid_configuration_overlap_above_size() {
    assert_eq!(
        TokenSplitter::new(3, 7).unwrap_err(),
        TextSplitterError::InvalidConfiguration
    );
    assert_eq!(
        SplitterOptions::new(0, 0).unwrap_err(),
        TextSplitterError::InvalidConfiguration
    );
}

#[test]
fn invalid_configuration_empty_separator() {
    let seps = vec![String::from("\n"), String::new()];
    assert_eq!(
        MarkdownSplitter::with_separators(10, 2, seps).unwrap_err(),
        TextSplitterError::InvalidConfiguration
    );
}

#[test]
fn create_documents_length_mismatch_fails() {
    let s = TokenSplitter::new(10, 2).unwrap();
    let texts = vec![String::from("one"), String::from("two")];
    let metadatas = vec![meta_src("doc1")];
    assert_eq!(
        s.create_documents(&texts, &metadatas).unwrap_err(),
        TextSplitterError::MetadataTextMismatch
    );
}

#[test]
fn create_documents_empty_metadatas_like_defaults() {
    let s = TokenSplitter::new(10, 2).unwrap();
    let texts = vec![String::from("hello world, hello"), String::from("second")];
    let with_empty_batch = s.create_documents(&texts, &Vec::new()).unwrap();
    let with_defaults = s
        .create_documents(&texts, &vec![Metadata::new(), Metadata::new()])
        .unwrap();
    assert_eq!(with_empty_batch, with_defaults);
    assert!(!with_empty_batch.is_empty());
}

#[test]
fn create_documents_attaches_metadata_to_every_chunk() {
    let s = TokenSplitter::new(10, 2).unwrap();
    let texts = vec![String::from("abcdefghijklmnopqrstuvwxy")];
    let metadatas = vec![meta_src("doc1")];
    let docs = s.create_documents(&texts, &metadatas).unwrap();
    assert_eq!(docs.len(), 3);
    assert_eq!(docs[0].page_content, "abcdefghij");
    assert_eq!(docs[1].page_content, "ijklmnopqr");
    assert_eq!(docs[2].page_content, "qrstuvwxy");
    for d in &docs {
        assert_eq!(d.metadata, meta_src("doc1"));
    }
}

#[test]
fn split_documents_preserves_order_and_metadata() {
    let s = TokenSplitter::new(10, 2).unwrap();
    // 16 characters: two windows, [0:10] and [8:16].
    let a = Document::new(String::from("abcdefghijklmnop")).with_metadata(meta_src("A"));
    let b = Document::new(String::from("xyz")).with_metadata(meta_src("B"));
    let docs = s.split_documents(&vec![a, b]).unwrap();
    assert_eq!(docs.len(), 3);
    assert_eq!(docs[0].page_content, "abcdefghij");
    assert_eq!(docs[1].page_content, "ijklmnop");
    assert_eq!(docs[2].page_content, "xyz");
    assert_eq!(docs[0].metadata, meta_src("A"));
    assert_eq!(docs[1].metadata, meta_src("A"));
    assert_eq!(docs[2].metadata, meta_src("B"));
}

#[test]
fn split_documents_empty_batch() {
    let s = TokenSplitter::new(10, 2).unwrap();
    let docs = s.split_documents(&Vec::new()).unwrap();
    assert!(docs.is_empty());
}

#[test]
fn markdown_small_document_stays_whole() {
    let s = MarkdownSplitter::new(100, 10).unwrap();
    let chunks = s.split_text("# Title\n\nshort para").unwrap();
    assert_eq!(chunks, vec![String::from("# Title\n\nshort para")]);
}

#[test]
fn markdown_empty_text_yields_no_chunks() {
    let s = MarkdownSplitter::new(10, 2).unwrap();
    let chunks = s.split_text("").unwrap();
    assert!(chunks.is_empty());
}

#[test]
fn markdown_splits_at_heading_boundary() {
    let s = MarkdownSplitter::new(8, 0).unwrap();
    let chunks = s.split_text("# A\naaa\n# B\nbbb").unwrap();
    assert_eq!(
        chunks,
        vec![String::from("# A\naaa"), String::from("\n# B\nbbb")]
    );
}

#[test]
fn markdown_packs_small_segments_with_overlap_carry() {
    let s = MarkdownSplitter::new(10, 3).unwrap();
    let chunks = s.split_text("aaaa\nbbbb\ncccc").unwrap();
    assert_eq!(
        chunks,
        vec![String::from("aaaa\nbbbb"), String::from("bbb\ncccc")]
    );
}

#[test]
fn markdown_falls_back_to_sliding_window() {
    let s = MarkdownSplitter::new(5, 1).unwrap();
    let chunks = s.split_text("aaaaaaaaaaaa").unwrap();
    assert_eq!(
        chunks,
        vec![
            String::from("aaaaa"),
            String::from("aaaaa"),
            String::from("aaaa"),
        ]
    );
}

#[test]
fn markdown_chunks_respect_size_bound() {
    let s = MarkdownSplitter::new(8, 2).unwrap();
    let text = "# Heading one\n\nSome paragraph text.\n\n## Sub\n- item\n- item two\n";
    let chunks = s.split_text(text).unwrap();
    assert!(!chunks.is_empty());
    for c in &chunks {
        assert!(c.chars().count() <= 8);
        assert!(!c.is_empty());
    }
}

#[test]
fn markdown_custom_separators() {
    let s = MarkdownSplitter::with_separators(6, 0, vec![String::from(";")]).unwrap();
    let chunks = s.split_text("abc;def;gh").unwrap();
    assert_eq!(
        chunks,
        vec![String::from("abc"), String::from(";def"), String::from(";gh")]
    );
}

#[test]
fn nested_metadata_flows_unchanged() {
    let s = TokenSplitter::new(10, 2).unwrap();
    let mut m = Metadata::new();
    m.insert(String::from("tags"), MetaValue::Arr(vec![
        MetaValue::Str(String::from("a")),
        MetaValue::Int(3),
        MetaValue::Null,
        MetaValue::Bool(true),
    ]));
    m.insert(
        String::from("origin"),
        MetaValue::Obj(vec![text_splitter::MetaEntry {
            key: String::from("page"),
            value: MetaValue::Int(12),
        }]),
    );
    let texts = vec![String::from("abcdefghijklmnopqrstuvwxy")];
    let docs = s.create_documents(&texts, &vec![m.clone()]).unwrap();
    assert_eq!(docs.len(), 3);
    for d in &docs {
        assert_eq!(d.metadata, m);
    }
}

#[test]
fn options_constructor_keeps_fields() {
    let o = SplitterOptions::new(10, 2).unwrap();
    assert_eq!(o.chunk_size, 10);
    assert_eq!(o.chunk_overlap, 2);
}

#[test]
fn document_construction() {
    let d = Document::new(String::from("body"));
    assert_eq!(d.page_content, "body");
    assert!(d.metadata.entries.is_empty());
    let d2 = d.with_metadata(meta_src("x"));
    assert_eq!(d2.page_content, "body");
    assert_eq!(d2.metadata, meta_src("x"));
}
