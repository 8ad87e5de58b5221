//! Grapheme boundaries of a text.  The clusters come from
//! `unicode_segmentation` (see `rope::grapheme_lengths`); a boundary is the
//! start of the text, the end of the text, or a position between two
//! clusters.
use vstd::prelude::*;
use ropey::Rope;
use crate::rope::{
    rope_text, rope_len_chars, rope_slice_string, grapheme_lengths, grapheme_lens, sum_lens,
    cuts_at, ascii_break,
};

verus! {

/// The position after the first `k` clusters whose lengths are `lens`.
pub open spec fn gboundary(lens: Seq<usize>, k: int) -> int {
    sum_lens(lens.take(k)) as int
}

/// `k` is the index of the cluster that holds position `i`.
pub open spec fn cluster_of(lens: Seq<usize>, i: int, k: int) -> bool {
    0 <= k < lens.len() && gboundary(lens, k) <= i < gboundary(lens, k + 1)
}

/// The first grapheme boundary of `t` after position `i` (for `i` before
/// the end).
pub open spec fn next_boundary(t: Seq<char>, i: int) -> int {
    let lens = grapheme_lens(t);
    gboundary(lens, (choose|k: int| #[trigger] cluster_of(lens, i, k)) + 1)
}

/// The last grapheme boundary of `t` before position `i` (for `i` after the
/// start).
pub open spec fn prev_boundary(t: Seq<char>, i: int) -> int {
    let lens = grapheme_lens(t);
    gboundary(lens, choose|k: int| #[trigger] cluster_of(lens, i - 1, k))
}

pub proof fn lemma_gboundary_step(lens: Seq<usize>, k: int)
    requires
        0 <= k < lens.len(),
    ensures
        gboundary(lens, k + 1) == gboundary(lens, k) + lens[k],
{
    assert(lens.take(k + 1).drop_last() =~= lens.take(k));
}

pub proof fn lemma_gboundary_end(lens: Seq<usize>)
    ensures
        gboundary(lens, lens.len() as int) == sum_lens(lens),
{
    assert(lens.take(lens.len() as int) =~= lens);
}

pub proof fn lemma_gboundary_mono(lens: Seq<usize>, j: int, k: int)
    requires
        0 <= j <= k <= lens.len(),
        forall|i: int| 0 <= i < lens.len() ==> lens[i] >= 1,
    ensures
        gboundary(lens, j) + (k - j) <= gboundary(lens, k),
    decreases k - j,
{
    if j < k {
        lemma_gboundary_mono(lens, j, k - 1);
        lemma_gboundary_step(lens, k - 1);
    }
}

pub proof fn lemma_cluster_unique(lens: Seq<usize>, i: int, a: int, b: int)
    requires
        cluster_of(lens, i, a),
        cluster_of(lens, i, b),
        forall|j: int| 0 <= j < lens.len() ==> lens[j] >= 1,
    ensures
        a == b,
{
    if a < b {
        lemma_gboundary_mono(lens, a + 1, b);
    } else if b < a {
        lemma_gboundary_mono(lens, b + 1, a);
    }
}

/// The clusters of `t`, by their lengths, and the facts about them.
pub(crate) fn text_graphemes(rope: &Rope) -> (lens: Vec<usize>)
    ensures
        lens@ == grapheme_lens(rope_text(*rope)),
        forall|j: int| 0 <= j < lens@.len() ==> lens@[j] >= 1,
        sum_lens(lens@) == rope_text(*rope).len(),
        rope_text(*rope).len() <= usize::MAX,
        forall|i: int| 0 < i < rope_text(*rope).len() && #[trigger] ascii_break(rope_text(*rope), i)
            ==> cuts_at(lens@, i),
        forall|i: int| 0 < i < rope_text(*rope).len() && rope_text(*rope)[i - 1] == '\r'
            && rope_text(*rope)[i] == '\n' ==> !#[trigger] cuts_at(lens@, i),
{
    let len = rope_len_chars(rope);
    let s = rope_slice_string(rope, 0, len);
    assert(rope_text(*rope).subrange(0, len as int) =~= rope_text(*rope));
    grapheme_lengths(s.as_str())
}

/// A cluster that holds position `i` ends at or before any cut after `i`.
pub proof fn lemma_cluster_ends_by(lens: Seq<usize>, i: int, k: int, c: int)
    requires
        forall|j: int| 0 <= j < lens.len() ==> lens[j] >= 1,
        cluster_of(lens, i, k),
        0 <= c <= lens.len(),
        gboundary(lens, c) > i,
    ensures
        gboundary(lens, k + 1) <= gboundary(lens, c),
{
    if c <= k {
        lemma_gboundary_mono(lens, c, k);
    } else {
        lemma_gboundary_mono(lens, k + 1, c);
    }
}

/// A cluster that holds position `i` starts at or after any cut at or
/// before `i`.
pub proof fn lemma_cluster_starts_by(lens: Seq<usize>, i: int, k: int, c: int)
    requires
        forall|j: int| 0 <= j < lens.len() ==> lens[j] >= 1,
        cluster_of(lens, i, k),
        0 <= c <= lens.len(),
        gboundary(lens, c) <= i,
    ensures
        gboundary(lens, c) <= gboundary(lens, k),
{
    if c > k {
        lemma_gboundary_mono(lens, k + 1, c);
    } else {
        lemma_gboundary_mono(lens, c, k);
    }
}

/// The clusters of `t` are non-empty and cover `t`, as the segmentation
/// hands them out.
pub open spec fn segmented(t: Seq<char>) -> bool {
    &&& forall|j: int| 0 <= j < grapheme_lens(t).len() ==> grapheme_lens(t)[j] >= 1
    &&& sum_lens(grapheme_lens(t)) == t.len()
}

/// Position `p` of `t` is the start or the end of the text or a grapheme
/// boundary (where the next boundary's previous boundary is).
pub open spec fn at_boundary(t: Seq<char>, p: int) -> bool {
    p == 0 || p == t.len() || p == prev_boundary(t, next_boundary(t, p))
}

/// Where position `p` of `t` goes to lie on a grapheme boundary: it stays
/// where it is on one, and moves to the end of its grapheme otherwise.
pub open spec fn snap_point(t: Seq<char>, p: usize) -> usize {
    if at_boundary(t, p as int) {
        p
    } else {
        next_boundary(t, p as int) as usize
    }
}

/// A position before the end of a segmented text is in some cluster.
pub proof fn lemma_cluster_exists(lens: Seq<usize>, p: int, k: int)
    requires
        forall|j: int| 0 <= j < lens.len() ==> lens[j] >= 1,
        0 <= k < lens.len(),
        gboundary(lens, k) <= p < sum_lens(lens),
    ensures
        exists|c: int| cluster_of(lens, p, c),
    decreases lens.len() - k,
{
    lemma_gboundary_step(lens, k);
    if p < gboundary(lens, k + 1) {
        assert(cluster_of(lens, p, k));
    } else {
        lemma_gboundary_end(lens);
        if k + 1 >= lens.len() {
            assert(k + 1 == lens.len());
        }
        lemma_cluster_exists(lens, p, k + 1);
    }
}

/// The boundaries around cluster `k` of a segmented text: the next boundary
/// from its start is its end, the previous boundary from its end is its
/// start, and its start is a boundary.
pub proof fn lemma_cluster_bounds(t: Seq<char>, k: int)
    requires
        segmented(t),
        0 <= k < grapheme_lens(t).len(),
    ensures
        next_boundary(t, gboundary(grapheme_lens(t), k)) == gboundary(grapheme_lens(t), k + 1),
        prev_boundary(t, gboundary(grapheme_lens(t), k + 1)) == gboundary(grapheme_lens(t), k),
        at_boundary(t, gboundary(grapheme_lens(t), k)),
{
    let lens = grapheme_lens(t);
    lemma_gboundary_step(lens, k);
    let a = gboundary(lens, k);
    let b = gboundary(lens, k + 1);
    assert(cluster_of(lens, a, k));
    let c = choose|c: int| #[trigger] cluster_of(lens, a, c);
    lemma_cluster_unique(lens, a, c, k);
    assert(cluster_of(lens, b - 1, k));
    let d = choose|d: int| #[trigger] cluster_of(lens, b - 1, d);
    lemma_cluster_unique(lens, b - 1, d, k);
}

/// Snapping puts a position of a segmented text on a boundary, within the
/// text.
pub proof fn lemma_snap_point(t: Seq<char>, p: usize)
    requires
        segmented(t),
        p <= t.len(),
        t.len() <= usize::MAX,
    ensures
        at_boundary(t, snap_point(t, p) as int),
        snap_point(t, p) <= t.len(),
{
    let lens = grapheme_lens(t);
    if at_boundary(t, p as int) {
        return;
    }
    lemma_gboundary_end(lens);
    assert(lens.take(0) =~= Seq::<usize>::empty());
    if lens.len() == 0 {
        assert(false);
    }
    lemma_cluster_exists(lens, p as int, 0);
    let k = choose|c: int| #[trigger] cluster_of(lens, p as int, c);
    lemma_cluster_bounds(t, k);
    let c = choose|c: int| #[trigger] cluster_of(lens, p as int, c);
    assert(next_boundary(t, p as int) == gboundary(lens, k + 1));
    let q = gboundary(lens, k + 1);
    lemma_gboundary_mono(lens, k + 1, lens.len() as int);
    if q < t.len() {
        if k + 1 >= lens.len() {
            assert(false);
        }
        lemma_cluster_bounds(t, k + 1);
    }
}

/// Where position `p` of the text split as `lens` goes to lie on a grapheme
/// boundary (see `snap_point`).
pub(crate) fn snap_position(lens: &Vec<usize>, Ghost(t): Ghost<Seq<char>>, p: usize) -> (r: usize)
    requires
        lens@ == grapheme_lens(t),
        segmented(t),
        t.len() <= usize::MAX,
        p <= t.len(),
    ensures
        r == snap_point(t, p),
        at_boundary(t, r as int),
        r <= t.len(),
{
    proof {
        lemma_snap_point(t, p);
        lemma_gboundary_end(lens@);
        assert(lens@.take(0) =~= Seq::<usize>::empty());
    }
    if p == 0 {
        return p;
    }
    let mut pos: usize = 0;
    let mut k: usize = 0;
    while k < lens.len()
        invariant
            lens@ == grapheme_lens(t),
            segmented(t),
            t.len() <= usize::MAX,
            gboundary(lens@, lens@.len() as int) == t.len(),
            k <= lens@.len(),
            pos == gboundary(lens@, k as int),
            pos <= p,
            p <= t.len(),
            at_boundary(t, snap_point(t, p) as int),
        decreases lens@.len() - k,
    {
        proof {
            lemma_gboundary_step(lens@, k as int);
            lemma_gboundary_mono(lens@, k + 1, lens@.len() as int);
        }
        let next = pos + lens[k];
        if next > p {
            proof {
                assert(cluster_of(lens@, p as int, k as int));
                let c = choose|c: int| #[trigger] cluster_of(lens@, p as int, c);
                lemma_cluster_unique(lens@, p as int, c, k as int);
                lemma_cluster_bounds(t, k as int);
            }
            if pos == p {
                return p;
            } else {
                return next;
            }
        }
        pos = next;
        k = k + 1;
    }
    p
}

/// The next grapheme boundary after a char index.
pub fn next_grapheme_boundary(rope: &Rope, char_idx: usize) -> (r: usize)
    requires
        char_idx < rope_text(*rope).len(),
    ensures
        r == next_boundary(rope_text(*rope), char_idx as int),
        char_idx < r <= rope_text(*rope).len(),
        char_idx + 1 == rope_text(*rope).len() || ascii_break(rope_text(*rope), char_idx + 1)
            ==> r == char_idx + 1,
        char_idx + 1 < rope_text(*rope).len() && rope_text(*rope)[char_idx as int] == '\r'
            && rope_text(*rope)[char_idx + 1] == '\n' ==> r == char_idx + 2,
{
    let lens = text_graphemes(rope);
    let ghost t = rope_text(*rope);
    let mut pos: usize = 0;
    let mut k: usize = 0;
    proof {
        assert(lens@.take(0) =~= Seq::<usize>::empty());
        lemma_gboundary_end(lens@);
    }
    while k < lens.len()
        invariant
            lens@ == grapheme_lens(t),
            t == rope_text(*rope),
            forall|j: int| 0 <= j < lens@.len() ==> lens@[j] >= 1,
            sum_lens(lens@) == t.len(),
            gboundary(lens@, lens@.len() as int) == t.len(),
            t.len() <= usize::MAX,
            k <= lens@.len(),
            pos == gboundary(lens@, k as int),
            pos <= char_idx,
            char_idx < t.len(),
            forall|i: int| 0 < i < t.len() && #[trigger] ascii_break(t, i) ==> cuts_at(lens@, i),
            forall|i: int| 0 < i < t.len() && t[i - 1] == '\r' && t[i] == '\n' ==> !#[trigger] cuts_at(lens@, i),
        decreases lens@.len() - k,
    {
        proof {
            lemma_gboundary_step(lens@, k as int);
            lemma_gboundary_mono(lens@, k + 1, lens@.len() as int);
        }
        let next = pos + lens[k];
        if next > char_idx {
            proof {
                assert(cluster_of(lens@, char_idx as int, k as int));
                let c = choose|c: int| #[trigger] cluster_of(lens@, char_idx as int, c);
                lemma_cluster_unique(lens@, char_idx as int, c, k as int);
                let i = char_idx as int;
                if i + 1 == t.len() {
                } else if ascii_break(t, i + 1) {
                    assert(cuts_at(lens@, i + 1));
                    let c1 = choose|c1: int| 0 <= c1 <= lens@.len() && sum_lens(lens@.take(c1)) == i + 1;
                    lemma_cluster_ends_by(lens@, i, k as int, c1);
                }
                if i + 1 < t.len() && t[i] == '\r' && t[i + 1] == '\n' {
                    assert(cuts_at(lens@, next as int)) by {
                        assert(0 <= k + 1 <= lens@.len() && sum_lens(lens@.take(k + 1)) == next);
                    }
                    assert(!cuts_at(lens@, i + 1));
                    if i + 2 < t.len() {
                        assert(ascii_break(t, i + 2));
                        assert(cuts_at(lens@, i + 2));
                        let c2 = choose|c2: int| 0 <= c2 <= lens@.len() && sum_lens(lens@.take(c2)) == i + 2;
                        lemma_cluster_ends_by(lens@, i, k as int, c2);
                    } else {
                        lemma_gboundary_mono(lens@, k + 1, lens@.len() as int);
                    }
                }
            }
            return next;
        }
        pos = next;
        k = k + 1;
    }
    proof {
        assert(false);
    }
    0
}

/// The previous grapheme boundary before a char index.
pub fn prev_grapheme_boundary(rope: &Rope, char_idx: usize) -> (r: usize)
    requires
        0 < char_idx <= rope_text(*rope).len(),
    ensures
        r == prev_boundary(rope_text(*rope), char_idx as int),
        r < char_idx,
        char_idx == 1 || (char_idx >= 2 && ascii_break(rope_text(*rope), char_idx - 1))
            ==> r == char_idx - 1,
        char_idx >= 2 && rope_text(*rope)[char_idx - 2] == '\r' && rope_text(*rope)[char_idx - 1]
            == '\n' ==> r == char_idx - 2,
{
    let lens = text_graphemes(rope);
    let ghost t = rope_text(*rope);
    let mut pos: usize = 0;
    let mut k: usize = 0;
    proof {
        assert(lens@.take(0) =~= Seq::<usize>::empty());
        lemma_gboundary_end(lens@);
    }
    while k < lens.len()
        invariant
            lens@ == grapheme_lens(t),
            t == rope_text(*rope),
            forall|j: int| 0 <= j < lens@.len() ==> lens@[j] >= 1,
            sum_lens(lens@) == t.len(),
            gboundary(lens@, lens@.len() as int) == t.len(),
            t.len() <= usize::MAX,
            k <= lens@.len(),
            pos == gboundary(lens@, k as int),
            pos < char_idx,
            char_idx <= t.len(),
            forall|i: int| 0 < i < t.len() && #[trigger] ascii_break(t, i) ==> cuts_at(lens@, i),
            forall|i: int| 0 < i < t.len() && t[i - 1] == '\r' && t[i] == '\n' ==> !#[trigger] cuts_at(lens@, i),
        decreases lens@.len() - k,
    {
        proof {
            lemma_gboundary_step(lens@, k as int);
            lemma_gboundary_mono(lens@, k + 1, lens@.len() as int);
        }
        let next = pos + lens[k];
        if next >= char_idx {
            proof {
                assert(cluster_of(lens@, char_idx - 1, k as int));
                let c = choose|c: int| #[trigger] cluster_of(lens@, char_idx - 1, c);
                lemma_cluster_unique(lens@, char_idx - 1, c, k as int);
                let i = char_idx as int;
                if i >= 2 && ascii_break(t, i - 1) {
                    assert(cuts_at(lens@, i - 1));
                    let c1 = choose|c1: int| 0 <= c1 <= lens@.len() && sum_lens(lens@.take(c1)) == i - 1;
                    lemma_cluster_starts_by(lens@, i - 1, k as int, c1);
                }
                if i >= 2 && t[i - 2] == '\r' && t[i - 1] == '\n' {
                    assert(cuts_at(lens@, pos as int)) by {
                        assert(0 <= k <= lens@.len() && sum_lens(lens@.take(k as int)) == pos);
                    }
                    assert(!cuts_at(lens@, i - 1));
                    if i - 2 > 0 {
                        assert(ascii_break(t, i - 2));
                        assert(cuts_at(lens@, i - 2));
                        let c2 = choose|c2: int| 0 <= c2 <= lens@.len() && sum_lens(lens@.take(c2)) == i - 2;
                        lemma_cluster_starts_by(lens@, i - 1, k as int, c2);
                    }
                }
            }
            return pos;
        }
        pos = next;
        k = k + 1;
    }
    proof {
        assert(false);
    }
    0
}

/// The clusters of the rope's chars `a..b`, taken as a text of their own.
pub(crate) fn slice_graphemes(rope: &Rope, a: usize, b: usize) -> (lens: Vec<usize>)
    requires
        a <= b <= rope_text(*rope).len(),
    ensures
        lens@ == grapheme_lens(rope_text(*rope).subrange(a as int, b as int)),
        forall|j: int| 0 <= j < lens@.len() ==> lens@[j] >= 1,
        sum_lens(lens@) == b - a,
        gboundary(lens@, lens@.len() as int) == b - a,
        lens@.len() <= b - a,
{
    let s = rope_slice_string(rope, a, b);
    let lens = grapheme_lengths(s.as_str());
    proof {
        lemma_gboundary_end(lens@);
        assert(lens@.take(0) =~= Seq::<usize>::empty());
        lemma_gboundary_mono(lens@, 0, lens@.len() as int);
    }
    lens
}

} // verus!
