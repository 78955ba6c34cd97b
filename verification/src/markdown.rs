//! The markdown-structure-aware strategy.
//!
//! The text is split at the most preferred separator that occurs in it
//! (heading levels, then paragraph breaks, then line breaks); a segment that
//! still exceeds the chunk size is split again with the next separator, and a
//! segment no separator can reduce falls back to the sliding window.  Runs of
//! adjacent small segments are packed greedily up to the chunk size, with
//! `chunk_overlap` trailing characters of a packed chunk carried into the
//! next one of the same run where they fit.  Each separator stays attached to
//! the segment it introduces, so structurally malformed input merely degrades
//! to size-bounded splitting.

use vstd::prelude::*;

use crate::error::TextSplitterError;
use crate::options::SplitterOptions;
use crate::splitter::{ChunkStrategy, TextSplitter};
use crate::window::{lemma_push_deep_view, lemma_windows_bounds, sliding_split, sliding_windows};

verus! {

// ---------------------------------------------------------------------------
// Splitting a text at a separator.
// ---------------------------------------------------------------------------
/// The segments of `s` from `cur` on, scanning at `i`: a cut is made before
/// every occurrence of `sep`, so each separator starts the segment it
/// introduces, and no segment is empty.
pub open spec fn split_rec(s: Seq<char>, sep: Seq<char>, cur: int, i: int) -> Seq<Seq<char>>
    decreases s.len() - i,
        when 0 <= cur <= i && 1 <= sep.len()
{
    if i + sep.len() > s.len() {
        if cur < s.len() {
            seq![s.subrange(cur, s.len() as int)]
        } else {
            Seq::empty()
        }
    } else if s.subrange(i, i + sep.len()) == sep {
        if i > cur {
            seq![s.subrange(cur, i)] + split_rec(s, sep, i, i + sep.len())
        } else {
            split_rec(s, sep, cur, i + sep.len())
        }
    } else {
        split_rec(s, sep, cur, i + 1)
    }
}

/// The segments of `s` under separator `sep`.
pub open spec fn split_parts(s: Seq<char>, sep: Seq<char>) -> Seq<Seq<char>> {
    split_rec(s, sep, 0, 0)
}

/// The concatenation of a sequence of segments.
pub open spec fn concat_parts(ps: Seq<Seq<char>>) -> Seq<char>
    decreases ps.len(),
{
    if ps.len() == 0 {
        Seq::empty()
    } else {
        ps[0] + concat_parts(ps.skip(1))
    }
}

/// Splitting loses nothing: the segments are non-empty and concatenate back
/// to the text from `cur` on.
pub proof fn lemma_split_rec_props(s: Seq<char>, sep: Seq<char>, cur: int, i: int)
    requires
        1 <= sep.len(),
        0 <= cur <= i <= s.len(),
    ensures
        concat_parts(split_rec(s, sep, cur, i)) == s.skip(cur),
        forall|k: int|
            0 <= k < split_rec(s, sep, cur, i).len() ==> (#[trigger] split_rec(
                s,
                sep,
                cur,
                i,
            )[k]).len() >= 1,
    decreases s.len() - i,
{
    let ps = split_rec(s, sep, cur, i);
    if i + sep.len() > s.len() {
        if cur < s.len() {
            assert(ps.skip(1) =~= Seq::<Seq<char>>::empty());
            assert(concat_parts(Seq::<Seq<char>>::empty()) == Seq::<char>::empty());
            assert(s.subrange(cur, s.len() as int) + Seq::<char>::empty() =~= s.skip(cur));
        } else {
            assert(s.skip(cur) =~= Seq::<char>::empty());
        }
    } else if s.subrange(i, i + sep.len()) == sep {
        if i > cur {
            let rest = split_rec(s, sep, i, i + sep.len());
            lemma_split_rec_props(s, sep, i, i + sep.len());
            assert(ps.skip(1) =~= rest);
            assert(concat_parts(ps.skip(1)) == concat_parts(rest));
            assert(s.subrange(cur, i) + s.skip(i) =~= s.skip(cur));
        } else {
            lemma_split_rec_props(s, sep, cur, i + sep.len());
        }
    } else {
        lemma_split_rec_props(s, sep, cur, i + 1);
    }
}

/// Non-empty segments make the concatenation at least as long as their count.
pub proof fn lemma_concat_min_len(ps: Seq<Seq<char>>)
    requires
        forall|k: int| 0 <= k < ps.len() ==> (#[trigger] ps[k]).len() >= 1,
    ensures
        concat_parts(ps).len() >= ps.len(),
    decreases ps.len(),
{
    if ps.len() > 0 {
        lemma_concat_min_len(ps.skip(1));
    }
}

/// With at least two non-empty segments, every segment is strictly shorter
/// than the concatenation.
pub proof fn lemma_parts_shorter(ps: Seq<Seq<char>>)
    requires
        forall|k: int| 0 <= k < ps.len() ==> (#[trigger] ps[k]).len() >= 1,
        ps.len() >= 2,
    ensures
        forall|k: int|
            0 <= k < ps.len() ==> (#[trigger] ps[k]).len() < concat_parts(ps).len(),
    decreases ps.len(),
{
    lemma_concat_min_len(ps.skip(1));
    assert forall|k: int| 0 <= k < ps.len() implies ps[k].len() < concat_parts(ps).len() by {
        if k == 0 {
            assert(concat_parts(ps.skip(1)).len() >= 1);
        } else {
            if ps.len() == 2 {
                assert(ps.skip(1).len() == 1);
                assert(concat_parts(ps.skip(1)) == ps.skip(1)[0] + concat_parts(
                    ps.skip(1).skip(1),
                ));
                assert(ps.skip(1)[0] == ps[1]);
            } else {
                lemma_parts_shorter(ps.skip(1));
                assert(ps.skip(1)[k - 1] == ps[k]);
            }
            assert(concat_parts(ps).len() == ps[0].len() + concat_parts(ps.skip(1)).len());
        }
    }
}

// ---------------------------------------------------------------------------
// Packing runs of small segments.
// ---------------------------------------------------------------------------
/// Greedy packing of segments from `j` on, with `cur` the chunk being built:
/// a segment that still fits joins `cur`; otherwise `cur` is emitted and the
/// next chunk starts with the last `overlap` characters of `cur` where they
/// leave room for the segment.
pub open spec fn merge_rec(
    pieces: Seq<Seq<char>>,
    j: int,
    cur: Seq<char>,
    size: int,
    overlap: int,
) -> Seq<Seq<char>>
    decreases pieces.len() - j,
        when 0 <= j <= pieces.len()
{
    if j >= pieces.len() {
        if cur.len() == 0 {
            Seq::empty()
        } else {
            seq![cur]
        }
    } else if cur.len() + pieces[j].len() <= size {
        merge_rec(pieces, j + 1, cur + pieces[j], size, overlap)
    } else {
        let carry = if cur.len() > overlap {
            cur.skip(cur.len() - overlap)
        } else {
            cur
        };
        let next = if carry.len() + pieces[j].len() <= size {
            carry + pieces[j]
        } else {
            pieces[j]
        };
        seq![cur] + merge_rec(pieces, j + 1, next, size, overlap)
    }
}

/// The chunks that packing a run of segments produces.
pub open spec fn merge_chunks(pieces: Seq<Seq<char>>, size: int, overlap: int) -> Seq<Seq<char>> {
    merge_rec(pieces, 0, Seq::empty(), size, overlap)
}

/// Packing segments of one to `size` characters yields chunks of one to
/// `size` characters, and at least one chunk if anything was pending.
pub proof fn lemma_merge_bounds(
    pieces: Seq<Seq<char>>,
    j: int,
    cur: Seq<char>,
    size: int,
    overlap: int,
)
    requires
        0 <= overlap < size,
        0 <= j <= pieces.len(),
        cur.len() <= size,
        forall|k: int| j <= k < pieces.len() ==> 1 <= (#[trigger] pieces[k]).len() <= size,
    ensures
        forall|i: int|
            0 <= i < merge_rec(pieces, j, cur, size, overlap).len() ==> 1 <= (#[trigger] merge_rec(
                pieces,
                j,
                cur,
                size,
                overlap,
            )[i]).len() <= size,
        (j < pieces.len() || cur.len() >= 1) ==> merge_rec(pieces, j, cur, size, overlap).len()
            >= 1,
    decreases pieces.len() - j,
{
    if j >= pieces.len() {
    } else if cur.len() + pieces[j].len() <= size {
        lemma_merge_bounds(pieces, j + 1, cur + pieces[j], size, overlap);
    } else {
        let carry = if cur.len() > overlap {
            cur.skip(cur.len() - overlap)
        } else {
            cur
        };
        let next = if carry.len() + pieces[j].len() <= size {
            carry + pieces[j]
        } else {
            pieces[j]
        };
        lemma_merge_bounds(pieces, j + 1, next, size, overlap);
    }
}

// ---------------------------------------------------------------------------
// The whole strategy, as a specification.
// ---------------------------------------------------------------------------
/// The chunks of a non-empty text, trying separators from `si` on: a text
/// within the budget stands alone; with no separator left the sliding window
/// decides; otherwise the text is cut at the separator and the segments are
/// packed by `md_run`.
pub open spec fn md_split(
    s: Seq<char>,
    seps: Seq<Seq<char>>,
    si: int,
    size: int,
    overlap: int,
) -> Seq<Seq<char>>
    decreases s.len(), seps.len() - si, 1int, 0int,
        when 0 <= overlap < size && 0 <= si <= seps.len()
{
    if s.len() <= size {
        seq![s]
    } else if si >= seps.len() {
        sliding_windows(s, size, overlap)
    } else {
        let segs = split_parts(s, seps[si]);
        if segs.len() <= 1 {
            md_split(s, seps, si + 1, size, overlap)
        } else {
            md_run(s, seps, segs, 0, Seq::empty(), si, size, overlap)
        }
    }
}

/// Walks the segments of one separator level: small segments gather in `buf`
/// and are packed together; an oversized segment flushes the pending run and
/// is split further with the next separator.
pub open spec fn md_run(
    s: Seq<char>,
    seps: Seq<Seq<char>>,
    segs: Seq<Seq<char>>,
    j: int,
    buf: Seq<Seq<char>>,
    si: int,
    size: int,
    overlap: int,
) -> Seq<Seq<char>>
    decreases s.len(), seps.len() - si, 0int, segs.len() - j,
        when 0 <= overlap < size && 0 <= si < seps.len() && 0 <= j <= segs.len() && (forall|k: int|
            0 <= k < segs.len() ==> 1 <= (#[trigger] segs[k]).len() < s.len())
{
    if j >= segs.len() {
        merge_chunks(buf, size, overlap)
    } else if segs[j].len() <= size {
        md_run(s, seps, segs, j + 1, buf.push(segs[j]), si, size, overlap)
    } else {
        merge_chunks(buf, size, overlap) + md_split(segs[j], seps, si + 1, size, overlap) + md_run(
            s,
            seps,
            segs,
            j + 1,
            Seq::empty(),
            si,
            size,
            overlap,
        )
    }
}

/// The chunks of any text: the empty text has none, any other is split.
pub open spec fn md_chunks(s: Seq<char>, seps: Seq<Seq<char>>, size: int, overlap: int) -> Seq<
    Seq<char>,
> {
    if s.len() == 0 {
        Seq::empty()
    } else {
        md_split(s, seps, 0, size, overlap)
    }
}

/// A separator list is usable when no separator is empty.
pub open spec fn seps_wf(seps: Seq<Seq<char>>) -> bool {
    forall|k: int| 0 <= k < seps.len() ==> (#[trigger] seps[k]).len() >= 1
}

/// A non-empty text yields at least one chunk, every chunk holding between
/// one and `size` characters.
pub proof fn lemma_md_split_props(
    s: Seq<char>,
    seps: Seq<Seq<char>>,
    si: int,
    size: int,
    overlap: int,
)
    requires
        0 <= overlap < size,
        0 <= si <= seps.len(),
        1 <= s.len(),
        seps_wf(seps),
    ensures
        md_split(s, seps, si, size, overlap).len() >= 1,
        forall|i: int|
            0 <= i < md_split(s, seps, si, size, overlap).len() ==> 1 <= (#[trigger] md_split(
                s,
                seps,
                si,
                size,
                overlap,
            )[i]).len() <= size,
    decreases s.len(), seps.len() - si, 1int, 0int,
{
    if s.len() <= size {
    } else if si >= seps.len() {
        lemma_windows_bounds(s, size, overlap);
    } else {
        let segs = split_parts(s, seps[si]);
        lemma_split_rec_props(s, seps[si], 0, 0);
        assert(s.skip(0) =~= s);
        if segs.len() <= 1 {
            lemma_md_split_props(s, seps, si + 1, size, overlap);
        } else {
            lemma_parts_shorter(segs);
            lemma_md_run_props(s, seps, segs, 0, Seq::empty(), si, size, overlap);
        }
    }
}

/// The run walker keeps every chunk within bounds and, when anything is
/// pending or left, yields at least one chunk.
proof fn lemma_md_run_props(
    s: Seq<char>,
    seps: Seq<Seq<char>>,
    segs: Seq<Seq<char>>,
    j: int,
    buf: Seq<Seq<char>>,
    si: int,
    size: int,
    overlap: int,
)
    requires
        0 <= overlap < size,
        0 <= si < seps.len(),
        0 <= j <= segs.len(),
        seps_wf(seps),
        forall|k: int| 0 <= k < segs.len() ==> 1 <= (#[trigger] segs[k]).len() < s.len(),
        forall|k: int| 0 <= k < buf.len() ==> 1 <= (#[trigger] buf[k]).len() <= size,
    ensures
        forall|i: int|
            0 <= i < md_run(s, seps, segs, j, buf, si, size, overlap).len() ==> 1 <= (
            #[trigger] md_run(s, seps, segs, j, buf, si, size, overlap)[i]).len() <= size,
        (j < segs.len() || buf.len() >= 1) ==> md_run(s, seps, segs, j, buf, si, size, overlap).len()
            >= 1,
    decreases s.len(), seps.len() - si, 0int, segs.len() - j,
{
    if j >= segs.len() {
        lemma_merge_bounds(buf, 0, Seq::empty(), size, overlap);
    } else if segs[j].len() <= size {
        lemma_md_run_props(s, seps, segs, j + 1, buf.push(segs[j]), si, size, overlap);
    } else {
        lemma_merge_bounds(buf, 0, Seq::empty(), size, overlap);
        lemma_md_split_props(segs[j], seps, si + 1, size, overlap);
        lemma_md_run_props(s, seps, segs, j + 1, Seq::empty(), si, size, overlap);
    }
}

// ---------------------------------------------------------------------------
// Executable code.
// ---------------------------------------------------------------------------
/// Decides whether `sep` occurs in `text` at character position `at`.
fn matches_at(text: &str, sep: &str, at: usize, n: usize, m: usize) -> (b: bool)
    requires
        n == text@.len(),
        m == sep@.len(),
        at + m <= n,
    ensures
        b == (text@.subrange(at as int, at + m) == sep@),
{
    let mut k: usize = 0;
    while k < m
        invariant
            k <= m,
            n == text@.len(),
            m == sep@.len(),
            at + m <= n,
            forall|l: int| 0 <= l < k ==> text@[at + l] == sep@[l],
        decreases m - k,
    {
        if text.get_char(at + k) != sep.get_char(k) {
            proof {
                assert(text@.subrange(at as int, at + m)[k as int] != sep@[k as int]);
            }
            return false;
        }
        k = k + 1;
    }
    proof {
        assert(text@.subrange(at as int, at + m) =~= sep@);
    }
    true
}

/// Cuts `text` before every occurrence of `sep`.
fn split_on(text: &str, sep: &str) -> (r: Vec<String>)
    requires
        sep@.len() >= 1,
    ensures
        r.deep_view() == split_parts(text@, sep@),
{
    let n = text.unicode_len();
    let m = sep.unicode_len();
    let mut out: Vec<String> = Vec::new();
    let mut cur: usize = 0;
    let mut i: usize = 0;
    proof {
        assert(out.deep_view() =~= Seq::<Seq<char>>::empty());
        assert(Seq::<Seq<char>>::empty() + split_rec(text@, sep@, 0, 0) =~= split_rec(
            text@,
            sep@,
            0,
            0,
        ));
    }
    while m <= n - i
        invariant
            0 <= cur <= i <= n,
            n == text@.len(),
            m == sep@.len(),
            m >= 1,
            split_parts(text@, sep@) == out.deep_view() + split_rec(
                text@,
                sep@,
                cur as int,
                i as int,
            ),
        decreases n - i,
    {
        if matches_at(text, sep, i, n, m) {
            if i > cur {
                let piece = text.substring_char(cur, i);
                let owned = piece.to_owned();
                let ghost pre = out.deep_view();
                let ghost vpre = out;
                let ghost gowned = owned;
                out.push(owned);
                proof {
                    lemma_push_deep_view(pre, vpre, out, gowned);
                    assert(pre + (seq![text@.subrange(cur as int, i as int)] + split_rec(
                        text@,
                        sep@,
                        i as int,
                        i + m,
                    )) =~= pre.push(piece@) + split_rec(text@, sep@, i as int, i + m));
                }
                cur = i;
            }
            i = i + m;
        } else {
            i = i + 1;
        }
    }
    proof {
        assert(i + m > n);
    }
    if cur < n {
        let piece = text.substring_char(cur, n);
        let owned = piece.to_owned();
        let ghost pre = out.deep_view();
        let ghost vpre = out;
        let ghost gowned = owned;
        out.push(owned);
        proof {
            lemma_push_deep_view(pre, vpre, out, gowned);
            assert(split_rec(text@, sep@, cur as int, i as int) == seq![text@.subrange(
                cur as int,
                n as int,
            )]);
            assert(pre + seq![text@.subrange(cur as int, n as int)] =~= pre.push(piece@));
        }
    } else {
        proof {
            assert(split_rec(text@, sep@, cur as int, i as int) == Seq::<Seq<char>>::empty());
            assert(out.deep_view() + Seq::<Seq<char>>::empty() =~= out.deep_view());
        }
    }
    out
}

/// Packs a run of small segments into chunks, carrying the overlap.
fn merge_pieces(pieces: &Vec<String>, size: usize, overlap: usize) -> (r: Vec<String>)
    requires
        overlap < size,
    ensures
        r.deep_view() == merge_chunks(pieces.deep_view(), size as int, overlap as int),
{
    let ghost pv = pieces.deep_view();
    let ghost gsize = size as int;
    let ghost gov = overlap as int;
    let mut out: Vec<String> = Vec::new();
    let mut cur = String::new();
    let mut j: usize = 0;
    proof {
        assert(out.deep_view() =~= Seq::<Seq<char>>::empty());
        assert(cur@ =~= Seq::<char>::empty());
        assert(Seq::<Seq<char>>::empty() + merge_rec(pv, 0, cur@, gsize, gov) =~= merge_rec(
            pv,
            0,
            cur@,
            gsize,
            gov,
        ));
    }
    while j < pieces.len()
        invariant
            j <= pieces.len(),
            overlap < size,
            gsize == size as int,
            gov == overlap as int,
            pv == pieces.deep_view(),
            pv.len() == pieces@.len(),
            merge_chunks(pv, gsize, gov) == out.deep_view() + merge_rec(
                pv,
                j as int,
                cur@,
                gsize,
                gov,
            ),
        decreases pieces.len() - j,
    {
        let c_len = cur.as_str().unicode_len();
        let p_len = pieces[j].as_str().unicode_len();
        proof {
            assert(pv[j as int] == pieces@[j as int]@);
        }
        if c_len <= size && p_len <= size - c_len {
            cur.append(pieces[j].as_str());
        } else {
            let carry: String = if c_len > overlap {
                let tail = cur.as_str().substring_char(c_len - overlap, c_len);
                tail.to_owned()
            } else {
                cur.clone()
            };
            proof {
                if c_len > overlap {
                    assert(carry@ =~= cur@.skip(cur@.len() - gov));
                }
            }
            let carry_len = carry.as_str().unicode_len();
            let next: String = if carry_len <= size && p_len <= size - carry_len {
                carry.concat(pieces[j].as_str())
            } else {
                pieces[j].clone()
            };
            let ghost pre = out.deep_view();
            let ghost vpre = out;
            let ghost gcur = cur;
            out.push(cur);
            proof {
                lemma_push_deep_view(pre, vpre, out, gcur);
                assert(pre + (seq![gcur@] + merge_rec(pv, j + 1, next@, gsize, gov)) =~= pre.push(
                    gcur@,
                ) + merge_rec(pv, j + 1, next@, gsize, gov));
            }
            cur = next;
        }
        j = j + 1;
    }
    if cur.as_str().is_empty() {
        proof {
            assert(out.deep_view() + Seq::<Seq<char>>::empty() =~= out.deep_view());
        }
    } else {
        let ghost pre = out.deep_view();
        let ghost vpre = out;
        let ghost gcur = cur;
        out.push(cur);
        proof {
            lemma_push_deep_view(pre, vpre, out, gcur);
            assert(pre + seq![gcur@] =~= pre.push(gcur@));
        }
    }
    out
}

/// Splits text at markdown boundaries before falling back to the sliding
/// window, never producing a chunk above `chunk_size` characters.
#[derive(Debug, PartialEq, Eq)]
pub struct MarkdownSplitter {
    pub options: SplitterOptions,
    pub separators: Vec<String>,
}

impl MarkdownSplitter {
    /// The separator preference list used by default: heading levels in
    /// descending granularity, then paragraph breaks, then line breaks.
    pub fn default_separators() -> (v: Vec<String>)
        ensures
            v.deep_view() == seq!["\n# "@, "\n## "@, "\n### "@, "\n\n"@, "\n"@],
            seps_wf(v.deep_view()),
    {
        let mut v: Vec<String> = Vec::new();
        v.push(String::from_str("\n# "));
        v.push(String::from_str("\n## "));
        v.push(String::from_str("\n### "));
        v.push(String::from_str("\n\n"));
        v.push(String::from_str("\n"));
        proof {
            reveal_strlit("\n# ");
            reveal_strlit("\n## ");
            reveal_strlit("\n### ");
            reveal_strlit("\n\n");
            reveal_strlit("\n");
            assert(v.deep_view() =~= seq!["\n# "@, "\n## "@, "\n### "@, "\n\n"@, "\n"@]);
        }
        v
    }

    /// Builds the splitter with the default separator preference list,
    /// failing with `InvalidConfiguration` exactly when
    /// `chunk_overlap >= chunk_size`.
    pub fn new(chunk_size: usize, chunk_overlap: usize) -> (r: Result<
        MarkdownSplitter,
        TextSplitterError,
    >)
        ensures
            chunk_overlap < chunk_size ==> (r matches Ok(m) && m.wf() && m.options
                == SplitterOptions { chunk_size, chunk_overlap } && m.separators.deep_view()
                == seq!["\n# "@, "\n## "@, "\n### "@, "\n\n"@, "\n"@]),
            chunk_overlap >= chunk_size ==> r == Err::<MarkdownSplitter, TextSplitterError>(
                TextSplitterError::InvalidConfiguration,
            ),
    {
        match SplitterOptions::new(chunk_size, chunk_overlap) {
            Ok(options) => Ok(
                MarkdownSplitter { options, separators: Self::default_separators() },
            ),
            Err(e) => Err(e),
        }
    }

    /// Builds the splitter with a caller-chosen separator preference list;
    /// an empty separator is as invalid as an oversized overlap.
    pub fn with_separators(
        chunk_size: usize,
        chunk_overlap: usize,
        separators: Vec<String>,
    ) -> (r: Result<MarkdownSplitter, TextSplitterError>)
        ensures
            chunk_overlap < chunk_size && seps_wf(separators.deep_view()) ==> (r matches Ok(m)
                && m.wf() && m.options == SplitterOptions { chunk_size, chunk_overlap }
                && m.separators.deep_view() == separators.deep_view()),
            !(chunk_overlap < chunk_size && seps_wf(separators.deep_view())) ==> r == Err::<
                MarkdownSplitter,
                TextSplitterError,
            >(TextSplitterError::InvalidConfiguration),
    {
        let mut k: usize = 0;
        while k < separators.len()
            invariant
                k <= separators.len(),
                forall|l: int|
                    0 <= l < k ==> (#[trigger] separators.deep_view()[l]).len() >= 1,
            decreases separators.len() - k,
        {
            proof {
                assert(separators.deep_view()[k as int] == separators@[k as int]@);
            }
            if separators[k].as_str().is_empty() {
                return Err(TextSplitterError::InvalidConfiguration);
            }
            k = k + 1;
        }
        match SplitterOptions::new(chunk_size, chunk_overlap) {
            Ok(options) => Ok(MarkdownSplitter { options, separators }),
            Err(e) => Err(e),
        }
    }

    /// Splits a non-empty text, trying separators from `si` on.
    fn split_from(&self, text: &str, si: usize) -> (r: Vec<String>)
        requires
            self.wf(),
            si <= self.separators@.len(),
        ensures
            r.deep_view() == md_split(
                text@,
                self.separators.deep_view(),
                si as int,
                self.options.chunk_size as int,
                self.options.chunk_overlap as int,
            ),
        decreases text@.len(), self.separators@.len() - si,
    {
        let ghost seps = self.separators.deep_view();
        let ghost gsize = self.options.chunk_size as int;
        let ghost gov = self.options.chunk_overlap as int;
        let n = text.unicode_len();
        if n <= self.options.chunk_size {
            let mut out: Vec<String> = Vec::new();
            out.push(text.to_owned());
            proof {
                assert(out.deep_view() =~= seq![text@]);
            }
            return out;
        }
        if si >= self.separators.len() {
            return sliding_split(text, self.options.chunk_size, self.options.chunk_overlap);
        }
        let sep = &self.separators[si];
        proof {
            assert(seps[si as int].len() >= 1);
        }
        let segs = split_on(text, sep.as_str());
        let ghost segsv = segs.deep_view();
        proof {
            lemma_split_rec_props(text@, seps[si as int], 0, 0);
            assert(text@.skip(0) =~= text@);
        }
        if segs.len() <= 1 {
            return self.split_from(text, si + 1);
        }
        proof {
            lemma_parts_shorter(segsv);
        }
        let mut out: Vec<String> = Vec::new();
        let mut buf: Vec<String> = Vec::new();
        let mut j: usize = 0;
        proof {
            assert(out.deep_view() =~= Seq::<Seq<char>>::empty());
            assert(buf.deep_view() =~= Seq::<Seq<char>>::empty());
            assert(Seq::<Seq<char>>::empty() + md_run(text@, seps, segsv, 0, buf.deep_view(), si as int, gsize, gov)
                =~= md_run(text@, seps, segsv, 0, buf.deep_view(), si as int, gsize, gov));
        }
        while j < segs.len()
            invariant
                self.wf(),
                j <= segs.len(),
                si < self.separators@.len(),
                si < usize::MAX,
                seps == self.separators.deep_view(),
                gsize == self.options.chunk_size as int,
                gov == self.options.chunk_overlap as int,
                segsv == segs.deep_view(),
                segsv.len() == segs@.len(),
                segsv.len() >= 2,
                forall|k: int| 0 <= k < segsv.len() ==> 1 <= (#[trigger] segsv[k]).len() < text@.len(),
                md_split(text@, seps, si as int, gsize, gov) == out.deep_view() + md_run(
                    text@,
                    seps,
                    segsv,
                    j as int,
                    buf.deep_view(),
                    si as int,
                    gsize,
                    gov,
                ),
            decreases segs.len() - j,
        {
            let ghost bufv = buf.deep_view();
            proof {
                assert(segsv[j as int] == segs@[j as int]@);
            }
            let seg_len = segs[j].as_str().unicode_len();
            if seg_len <= self.options.chunk_size {
                let piece = segs[j].clone();
                let ghost pre = buf.deep_view();
                let ghost vpre = buf;
                let ghost gpiece = piece;
                buf.push(piece);
                proof {
                    lemma_push_deep_view(pre, vpre, buf, gpiece);
                    assert(buf.deep_view() =~= bufv.push(segsv[j as int]));
                }
            } else {
                let ghost outv = out.deep_view();
                let mut merged = merge_pieces(&buf, self.options.chunk_size, self.options.chunk_overlap);
                let ghost gmerged = merged;
                let ghost vout = out;
                out.append(&mut merged);
                proof {
                    lemma_append_deep_view(vout, gmerged, out);
                }
                let mut sub = self.split_from(segs[j].as_str(), si + 1);
                let ghost gsub = sub;
                let ghost vout2 = out;
                out.append(&mut sub);
                proof {
                    lemma_append_deep_view(vout2, gsub, out);
                    assert(out.deep_view() =~= outv + (merge_chunks(bufv, gsize, gov) + md_split(
                        segsv[j as int],
                        seps,
                        si + 1,
                        gsize,
                        gov,
                    )));
                    assert((outv + (merge_chunks(bufv, gsize, gov) + md_split(
                        segsv[j as int],
                        seps,
                        si + 1,
                        gsize,
                        gov,
                    ))) + md_run(text@, seps, segsv, j + 1, Seq::empty(), si as int, gsize, gov)
                        =~= outv + ((merge_chunks(bufv, gsize, gov) + md_split(
                        segsv[j as int],
                        seps,
                        si + 1,
                        gsize,
                        gov,
                    )) + md_run(text@, seps, segsv, j + 1, Seq::empty(), si as int, gsize, gov)));
                }
                buf = Vec::new();
                proof {
                    assert(buf.deep_view() =~= Seq::<Seq<char>>::empty());
                }
            }
            j = j + 1;
        }
        let mut merged = merge_pieces(&buf, self.options.chunk_size, self.options.chunk_overlap);
        let ghost gmerged = merged;
        let ghost vout = out;
        out.append(&mut merged);
        proof {
            lemma_append_deep_view(vout, gmerged, out);
        }
        out
    }
}

/// The deep view of appended string vectors is the concatenation of the
/// deep views.
pub(crate) proof fn lemma_append_deep_view(v: Vec<String>, t: Vec<String>, w: Vec<String>)
    requires
        w@ == v@ + t@,
    ensures
        w.deep_view() == v.deep_view() + t.deep_view(),
{
    assert(w.deep_view() =~= v.deep_view() + t.deep_view());
}

/// A non-empty text that already fits the budget is returned as the one and
/// only chunk: small documents are not split.
pub proof fn lemma_small_text_single_chunk(m: &MarkdownSplitter, text: Seq<char>)
    requires
        m.wf(),
        1 <= text.len() <= m.options.chunk_size,
    ensures
        m.chunks_of(text) == seq![text],
{
}

impl ChunkStrategy for MarkdownSplitter {
    open spec fn chunks_of(&self, text: Seq<char>) -> Seq<Seq<char>> {
        md_chunks(
            text,
            self.separators.deep_view(),
            self.options.chunk_size as int,
            self.options.chunk_overlap as int,
        )
    }
}

impl TextSplitter for MarkdownSplitter {
    open spec fn chunk_budget(&self) -> int {
        self.options.chunk_size as int
    }

    open spec fn wf(&self) -> bool {
        self.options.wf() && seps_wf(self.separators.deep_view())
    }

    proof fn lemma_chunks_wf(&self, text: Seq<char>) {
        if text.len() > 0 {
            lemma_md_split_props(
                text,
                self.separators.deep_view(),
                0,
                self.options.chunk_size as int,
                self.options.chunk_overlap as int,
            );
        }
    }

    fn split_text(&self, text: &str) -> (r: Result<Vec<String>, TextSplitterError>) {
        if text.is_empty() {
            let out: Vec<String> = Vec::new();
            proof {
                assert(out.deep_view() =~= Seq::<Seq<char>>::empty());
            }
            return Ok(out);
        }
        Ok(self.split_from(text, 0))
    }
}

} // verus!
