//! The sliding-window core shared by both strategies.
//!
//! A text is cut into windows of `size` characters whose starts advance by
//! `size - overlap`, so consecutive windows repeat `overlap` characters; the
//! final window keeps whatever remains.

use vstd::prelude::*;

verus! {

/// The sliding windows of `s`.  Empty input yields no window; input of at
/// most `size` characters yields itself as the only window.
pub open spec fn sliding_windows(s: Seq<char>, size: int, overlap: int) -> Seq<Seq<char>>
    decreases s.len(),
        when 0 <= overlap < size
{
    if s.len() <= 0 {
        Seq::empty()
    } else if s.len() <= size {
        seq![s]
    } else {
        seq![s.subrange(0, size)] + sliding_windows(s.skip(size - overlap), size, overlap)
    }
}

/// The concatenation of the windows after the overlapping prefix of each
/// non-first window is removed.
pub open spec fn overlap_stripped(ws: Seq<Seq<char>>, overlap: int) -> Seq<char> {
    if ws.len() == 0 {
        Seq::empty()
    } else {
        ws[0] + strip_rest(ws.skip(1), overlap)
    }
}

/// Helper of `overlap_stripped`: every window loses its first `overlap`
/// characters before concatenation.
pub open spec fn strip_rest(ws: Seq<Seq<char>>, overlap: int) -> Seq<char>
    decreases ws.len(),
{
    if ws.len() == 0 {
        Seq::empty()
    } else {
        ws[0].skip(overlap) + strip_rest(ws.skip(1), overlap)
    }
}

/// There is a window exactly when the input is non-empty, and every window
/// holds between one and `size` characters.
pub proof fn lemma_windows_bounds(s: Seq<char>, size: int, overlap: int)
    requires
        0 <= overlap < size,
    ensures
        sliding_windows(s, size, overlap).len() == 0 <==> s.len() == 0,
        forall|i: int|
            0 <= i < sliding_windows(s, size, overlap).len() ==> 1 <= (
            #[trigger] sliding_windows(s, size, overlap)[i]).len() <= size,
    decreases s.len(),
{
    if s.len() <= 0 {
    } else if s.len() <= size {
    } else {
        lemma_windows_bounds(s.skip(size - overlap), size, overlap);
    }
}

/// When a split has at least two windows, every window is longer than the
/// overlap, so each contributes characters of its own.
pub proof fn lemma_windows_min_len(s: Seq<char>, size: int, overlap: int)
    requires
        0 <= overlap < size,
    ensures
        sliding_windows(s, size, overlap).len() >= 2 ==> forall|i: int|
            0 <= i < sliding_windows(s, size, overlap).len() ==> (
            #[trigger] sliding_windows(s, size, overlap)[i]).len() > overlap,
    decreases s.len(),
{
    if s.len() <= size {
    } else {
        let t = s.skip(size - overlap);
        lemma_windows_min_len(t, size, overlap);
        lemma_windows_bounds(t, size, overlap);
    }
}

/// Every pair of adjacent chunks repeats `overlap` characters: the last
/// `overlap` characters of a chunk are the first `overlap` of the next.
pub open spec fn adjacent_overlap_ok(ws: Seq<Seq<char>>, overlap: int) -> bool {
    forall|i: int|
        0 <= i < ws.len() - 1 ==> (#[trigger] ws[i]).subrange(
            ws[i].len() - overlap,
            ws[i].len() as int,
        ) == ws[i + 1].subrange(0, overlap)
}

/// The overlap law of a sliding-window split: the last `overlap` characters
/// of each window equal the first `overlap` characters of the next window.
pub proof fn lemma_windows_overlap(s: Seq<char>, size: int, overlap: int)
    requires
        0 <= overlap < size,
    ensures
        adjacent_overlap_ok(sliding_windows(s, size, overlap), overlap),
    decreases s.len(),
{
    let ws = sliding_windows(s, size, overlap);
    if s.len() <= size {
    } else {
        let step = size - overlap;
        let t = s.skip(step);
        let rest = sliding_windows(t, size, overlap);
        lemma_windows_overlap(t, size, overlap);
        lemma_windows_bounds(t, size, overlap);
        assert(t.len() > overlap);
        assert forall|i: int| 0 <= i < ws.len() - 1 implies ws[i].subrange(
            ws[i].len() - overlap,
            ws[i].len() as int,
        ) == ws[i + 1].subrange(0, overlap) by {
            if i == 0 {
                let first = s.subrange(0, size);
                assert(ws[0] == first);
                assert(ws[1] == rest[0]);
                if t.len() <= size {
                    assert(rest[0] == t);
                } else {
                    assert(rest[0] == t.subrange(0, size));
                    assert(t.subrange(0, size).subrange(0, overlap) =~= t.subrange(0, overlap));
                }
                assert(rest[0].subrange(0, overlap) =~= t.subrange(0, overlap));
                assert(t.subrange(0, overlap) =~= s.subrange(step, size));
                assert(first.subrange(size - overlap, size) =~= s.subrange(step, size));
            } else {
                assert(ws[i] == rest[i - 1]);
                assert(ws[i + 1] == rest[i]);
            }
        }
    }
}

/// The reconstruction law: stripping each non-first window of its
/// overlapping prefix and concatenating reproduces the input exactly.
pub proof fn lemma_windows_reconstruct(s: Seq<char>, size: int, overlap: int)
    requires
        0 <= overlap < size,
    ensures
        overlap_stripped(sliding_windows(s, size, overlap), overlap) == s,
{
    let ws = sliding_windows(s, size, overlap);
    if s.len() <= 0 {
        assert(s =~= Seq::<char>::empty());
    } else if s.len() <= size {
        assert(ws.skip(1) =~= Seq::<Seq<char>>::empty());
        assert(s + strip_rest(ws.skip(1), overlap) =~= s);
    } else {
        let step = size - overlap;
        let t = s.skip(step);
        lemma_strip_rest(t, size, overlap);
        assert(ws.skip(1) =~= sliding_windows(t, size, overlap));
        assert(s.subrange(0, size) + t.skip(overlap) =~= s) by {
            assert(t.skip(overlap) =~= s.subrange(size, s.len() as int));
        }
    }
}

/// Helper of the reconstruction law: over the windows of `s`, stripping every
/// window's overlapping prefix and concatenating yields `s` without its own
/// first `overlap` characters.
proof fn lemma_strip_rest(s: Seq<char>, size: int, overlap: int)
    requires
        0 <= overlap < size,
        overlap <= s.len(),
    ensures
        strip_rest(sliding_windows(s, size, overlap), overlap) == s.skip(overlap),
    decreases s.len(),
{
    let ws = sliding_windows(s, size, overlap);
    if s.len() <= 0 {
        assert(s.skip(overlap) =~= Seq::<char>::empty());
    } else if s.len() <= size {
        assert(ws.skip(1) =~= Seq::<Seq<char>>::empty());
        assert(s.skip(overlap) + strip_rest(ws.skip(1), overlap) =~= s.skip(overlap));
    } else {
        let step = size - overlap;
        let t = s.skip(step);
        lemma_strip_rest(t, size, overlap);
        assert(ws.skip(1) =~= sliding_windows(t, size, overlap));
        assert(ws[0].skip(overlap) =~= s.subrange(overlap, size));
        assert(t.skip(overlap) =~= s.subrange(size, s.len() as int));
        assert(s.subrange(overlap, size) + s.subrange(size, s.len() as int) =~= s.skip(overlap));
    }
}

/// Pushing one string onto a vector appends its characters to the deep view.
pub(crate) proof fn lemma_push_deep_view(pre: Seq<Seq<char>>, v: Vec<String>, w: Vec<String>, x: String)
    requires
        w@ == v@.push(x),
        v.deep_view() == pre,
    ensures
        w.deep_view() == pre.push(x@),
{
    assert(w.deep_view() =~= pre.push(x@));
}

/// Cuts `text` into its sliding windows.
pub fn sliding_split(text: &str, size: usize, overlap: usize) -> (r: Vec<String>)
    requires
        overlap < size,
    ensures
        r.deep_view() == sliding_windows(text@, size as int, overlap as int),
{
    let ghost gsize = size as int;
    let ghost gov = overlap as int;
    let n = text.unicode_len();
    let mut out: Vec<String> = Vec::new();
    let mut pos: usize = 0;
    proof {
        assert(out.deep_view() =~= Seq::<Seq<char>>::empty());
        assert(text@.skip(0) =~= text@);
        assert(Seq::<Seq<char>>::empty() + sliding_windows(text@, gsize, gov) =~= sliding_windows(
            text@,
            gsize,
            gov,
        ));
    }
    while n - pos > size
        invariant
            pos <= n,
            n == text@.len(),
            overlap < size,
            gsize == size as int,
            gov == overlap as int,
            sliding_windows(text@, gsize, gov) == out.deep_view() + sliding_windows(
                text@.skip(pos as int),
                gsize,
                gov,
            ),
        decreases n - pos,
    {
        let ghost pre = out.deep_view();
        let ghost rem = text@.skip(pos as int);
        let piece = text.substring_char(pos, pos + size);
        let owned = piece.to_owned();
        let ghost vpre = out;
        let ghost gowned = owned;
        out.push(owned);
        proof {
            lemma_push_deep_view(pre, vpre, out, gowned);
        }
        let step = size - overlap;
        proof {
            assert(rem.subrange(0, gsize) =~= text@.subrange(pos as int, pos + size));
            assert(rem.skip(gsize - gov) =~= text@.skip(pos + step));
            assert(pre + (seq![rem.subrange(0, gsize)] + sliding_windows(
                text@.skip(pos + step),
                gsize,
                gov,
            )) =~= pre.push(piece@) + sliding_windows(text@.skip(pos + step), gsize, gov));
        }
        pos = pos + step;
    }
    let ghost pre = out.deep_view();
    let ghost rem = text@.skip(pos as int);
    if pos < n {
        let piece = text.substring_char(pos, n);
        let owned = piece.to_owned();
        let ghost vpre = out;
        let ghost gowned = owned;
        out.push(owned);
        proof {
            lemma_push_deep_view(pre, vpre, out, gowned);
            assert(rem =~= text@.subrange(pos as int, n as int));
            assert(sliding_windows(rem, gsize, gov) == seq![rem]);
            assert(pre + seq![rem] =~= pre.push(piece@));
        }
    } else {
        proof {
            assert(rem.len() == 0);
            assert(pre + sliding_windows(rem, gsize, gov) =~= pre);
        }
    }
    out
}

} // verus!
