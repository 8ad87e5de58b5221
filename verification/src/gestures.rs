//! Selecting with the mouse, undo and redo, and copying and cutting.
use vstd::prelude::*;
use crate::buffer::{
    Buffer, EditState, SelectionMap, remove_selected, with_view, lemma_sels_of_within, records_edit,
    on_boundaries, snap_state, state_type, state_delete, lemma_on_boundaries_set,
    lemma_sels_within_set, lemma_state_remove_views, copy_selections,
};
use crate::chars::{spec_is_whitespace, is_word_char};
use crate::graphemes::{
    gboundary, lemma_gboundary_step, lemma_gboundary_mono, slice_graphemes, at_boundary, segmented,
    lemma_gboundary_end,
};
use crate::history::HistoryEntry;
use crate::range::Range;
use crate::rope::{
    rope_text, rope_len_chars, rope_len_lines, rope_len_bytes, rope_line_to_byte, rope_line_to_char,
    rope_byte_to_char, rope_slice_string, grapheme_lens, num_lines, line_start, line_byte,
    char_of_byte, bytes_before, lemma_char_of_byte, lemma_line_start_is, lemma_line_starts_increase,
};
use crate::selection::Selection;
use crate::text::string_push;
use crate::views::{
    ViewId, ViewSels, sels_of, set_sels, ensure_view, has_view, map_sels, sels_within,
    is_view_at, view_pos, lemma_view_pos, lemma_set_sels, lemma_map_sels, lemma_set_sels_twice,
    lemma_set_sels_same,
};
use crate::word::{g_space, g_letter, grapheme_flags};
use crate::graphemes::{next_boundary, prev_boundary, next_grapheme_boundary, prev_grapheme_boundary};
use crate::line_ending::{normalized, ending_chars};
use crate::motion::{views_moved, Motion};
use crate::vertical::views_vertical;

verus! {

/// The position a click at byte `byte_idx` of line `line` lands on (a line
/// past the last one counts as the one just past it).
pub open spec fn click_char(t: Seq<char>, line: usize, byte_idx: usize) -> int {
    let l = if line < num_lines(t) {
        line as int
    } else {
        num_lines(t) as int
    };
    char_of_byte(t, line_byte(t, l) + byte_idx)
}

/// A click at byte `byte_idx` of line `line` is within the text's bytes.
pub open spec fn click_ok(t: Seq<char>, line: usize, byte_idx: usize) -> bool {
    let l = if line < num_lines(t) {
        line as int
    } else {
        num_lines(t) as int
    };
    line_byte(t, l) + byte_idx <= bytes_before(t, t.len() as int)
}

/// A caret at `c`.
pub open spec fn caret(c: int) -> Selection {
    Selection { start: c as usize, end: c as usize, horiz: None }
}

/// The smallest start of a list of selections, 0 for none.
pub open spec fn min_start(s: Seq<Selection>) -> usize
    decreases s.len(),
{
    if s.len() == 0 {
        0
    } else if s.len() == 1 {
        s[0].start
    } else {
        let m = min_start(s.drop_last());
        if s.last().start < m {
            s.last().start
        } else {
            m
        }
    }
}

/// Position `ix` of `s` is the first whose selection starts at `c` or later
/// (the length of `s` when there is none): where a selection that starts at
/// `c` is, or would go in order.
pub open spec fn is_search_pos(s: Seq<Selection>, c: int, ix: int) -> bool {
    &&& 0 <= ix <= s.len()
    &&& forall|j: int| 0 <= j < ix ==> s[j].start < c
    &&& ix < s.len() ==> s[ix].start >= c
}

/// What a ctrl-click at `c` makes of the selections `s`, given the search
/// position `ix` of `c`: the selection there is dropped if it starts at
/// `c`; else the one before is dropped if it reaches `c`; else a caret at
/// `c` is added there.
pub open spec fn toggle_result(s: Seq<Selection>, c: int, ix: int) -> Seq<Selection> {
    if ix < s.len() && s[ix].start == c {
        s.remove(ix)
    } else if ix > 0 && s[ix - 1].end >= c {
        s.remove(ix - 1)
    } else {
        s.insert(ix, caret(c))
    }
}

/// `after` is `before` after a ctrl-click by view `v` that landed on `c`:
/// a view without selections gets a caret at `c`; otherwise its selections
/// become what `toggle_result` says.
pub open spec fn toggled(before: Buffer, after: Buffer, v: ViewId, c: int) -> bool {
    let s = sels_of(before.views(), v);
    &&& !has_view(before.views(), v) ==> after.views() == set_sels(before.views(), v, seq![caret(c)])
    &&& has_view(before.views(), v) ==> exists|ix: int|
        is_search_pos(s, c, ix) && after.views() == set_sels(before.views(), v, toggle_result(s, c, ix))
}

/// The search position of `key` in `sels` (see `is_search_pos`); `Ok` when
/// the selection there starts at `key`.  On selections ordered by their
/// starts this is a search by start key.
fn search_by_start(sels: &[Selection], key: usize) -> (r: Result<usize, usize>)
    ensures
        r matches Ok(i) ==> is_search_pos(sels@, key as int, i as int) && i < sels@.len()
            && sels@[i as int].start == key,
        r matches Err(i) ==> is_search_pos(sels@, key as int, i as int) && !(i < sels@.len()
            && sels@[i as int].start == key),
{
    let mut i: usize = 0;
    while i < sels.len() && sels[i].start < key
        invariant
            i <= sels@.len(),
            forall|j: int| 0 <= j < i ==> sels@[j].start < key,
        decreases sels@.len() - i,
    {
        i = i + 1;
    }
    if i < sels.len() && sels[i].start == key {
        Ok(i)
    } else {
        Err(i)
    }
}

/// The class of a grapheme for word selection.
#[derive(Copy, Clone, PartialEq, Eq, Structural, Debug)]
pub enum CharClass {
    Space,
    Letter,
    Symbol,
}

/// The class of grapheme `j` of `s`.
pub open spec fn gclass(s: Seq<char>, lens: Seq<usize>, j: int) -> CharClass {
    if g_space(s, lens, j) {
        CharClass::Space
    } else if g_letter(s, lens, j) {
        CharClass::Letter
    } else {
        CharClass::Symbol
    }
}

/// The chars of the run of graphemes of class `cls` that ends before
/// grapheme `j`.
pub open spec fn run_back(s: Seq<char>, lens: Seq<usize>, j: int, cls: CharClass) -> int
    decreases j,
{
    if j <= 0 {
        0
    } else if gclass(s, lens, j - 1) == cls {
        lens[j - 1] + run_back(s, lens, j - 1, cls)
    } else {
        0
    }
}

/// The chars of the run of graphemes of class `cls` that starts at
/// grapheme `j`.
pub open spec fn run_fwd(s: Seq<char>, lens: Seq<usize>, j: int, cls: CharClass) -> int
    decreases lens.len() - j,
{
    if j >= lens.len() || j < 0 {
        0
    } else if gclass(s, lens, j) == cls {
        lens[j] + run_fwd(s, lens, j + 1, cls)
    } else {
        0
    }
}

/// The word a double-click at `c` selects: the class is that of the
/// graphemes on either side (a letter wins over a space, a space over a
/// symbol; nothing counts as a space), and the selection spans the run of
/// graphemes of that class around `c`.
pub open spec fn word_at(t: Seq<char>, c: int) -> Selection {
    let ls = t.subrange(0, c);
    let ll = grapheme_lens(ls);
    let rs = t.subrange(c, t.len() as int);
    let rl = grapheme_lens(rs);
    let left = if ll.len() > 0 {
        gclass(ls, ll, ll.len() - 1)
    } else {
        CharClass::Space
    };
    let right = if rl.len() > 0 {
        gclass(rs, rl, 0)
    } else {
        CharClass::Space
    };
    let cls = if left == CharClass::Letter || right == CharClass::Letter {
        CharClass::Letter
    } else if left == CharClass::Space || right == CharClass::Space {
        CharClass::Space
    } else {
        CharClass::Symbol
    };
    Selection {
        start: (c - run_back(ls, ll, ll.len() as int, cls)) as usize,
        end: (c + run_fwd(rs, rl, 0, cls)) as usize,
        horiz: None,
    }
}

/// The run of word graphemes that ends before grapheme `j` starts at
/// grapheme `m`: the graphemes from `m` up to `j` are lone word chars that
/// are not white space, and the one before `m`, if any, is not.
proof fn lemma_run_back_words(s: Seq<char>, lens: Seq<usize>, j: int) -> (m: int)
    requires
        0 <= j <= lens.len(),
    ensures
        0 <= m <= j,
        run_back(s, lens, j, CharClass::Letter) == gboundary(lens, j) - gboundary(lens, m),
        gboundary(lens, j) - gboundary(lens, m) == j - m,
        forall|i: int|
            gboundary(lens, m) <= i < gboundary(lens, j) ==> is_word_char(#[trigger] s[i])
                && !spec_is_whitespace(s[i]),
        m > 0 ==> gclass(s, lens, m - 1) != CharClass::Letter,
    decreases j,
{
    if j > 0 && gclass(s, lens, j - 1) == CharClass::Letter {
        let m = lemma_run_back_words(s, lens, j - 1);
        lemma_gboundary_step(lens, j - 1);
        m
    } else {
        j
    }
}

/// The run of word graphemes that starts at grapheme `k` ends at grapheme
/// `m`: the graphemes from `k` up to `m` are lone word chars that are not
/// white space, and grapheme `m`, if any, is not.
proof fn lemma_run_fwd_words(s: Seq<char>, lens: Seq<usize>, k: int) -> (m: int)
    requires
        0 <= k <= lens.len(),
    ensures
        k <= m <= lens.len(),
        run_fwd(s, lens, k, CharClass::Letter) == gboundary(lens, m) - gboundary(lens, k),
        gboundary(lens, m) - gboundary(lens, k) == m - k,
        forall|i: int|
            gboundary(lens, k) <= i < gboundary(lens, m) ==> is_word_char(#[trigger] s[i])
                && !spec_is_whitespace(s[i]),
        m < lens.len() ==> gclass(s, lens, m) != CharClass::Letter,
    decreases lens.len() - k,
{
    if k < lens.len() && gclass(s, lens, k) == CharClass::Letter {
        let m = lemma_run_fwd_words(s, lens, k + 1);
        lemma_gboundary_step(lens, k);
        m
    } else {
        k
    }
}

/// A double-click next to a word char (a grapheme of its own that is a word
/// char and not white space, on either side of the click) selects the whole
/// run of such graphemes around the click: it is not empty, every selected
/// char is a word char, and the graphemes just before and just after the
/// selection, where there are any, are not lone word chars.
#[verifier::rlimit(60)]
pub proof fn lemma_word_select_on_word(t: Seq<char>, c: int)
    requires
        0 <= c <= t.len(),
        t.len() <= usize::MAX,
        segmented(t.subrange(0, c)),
        segmented(t.subrange(c, t.len() as int)),
    ensures
        ({
            let ll = grapheme_lens(t.subrange(0, c));
            let rl = grapheme_lens(t.subrange(c, t.len() as int));
            let w = word_at(t, c);
            let left_word = ll.len() > 0 && ll.last() == 1 && is_word_char(t[c - 1])
                && !spec_is_whitespace(t[c - 1]);
            let right_word = rl.len() > 0 && rl[0] == 1 && is_word_char(t[c]) && !spec_is_whitespace(t[c]);
            left_word || right_word ==> {
                &&& w.start <= c <= w.end <= t.len()
                &&& w.start < w.end
                &&& forall|i: int| w.start <= i < w.end ==> is_word_char(#[trigger] t[i])
                    && !spec_is_whitespace(t[i])
                &&& w.start > 0 ==> exists|k: int|
                    0 <= k < ll.len() && #[trigger] gboundary(ll, k + 1) == w.start && !(ll[k] == 1
                        && is_word_char(t[w.start - 1]) && !spec_is_whitespace(t[w.start - 1]))
                &&& w.end < t.len() ==> exists|k: int|
                    0 <= k < rl.len() && #[trigger] gboundary(rl, k) == w.end - c && !(rl[k] == 1
                        && is_word_char(t[w.end as int]) && !spec_is_whitespace(t[w.end as int]))
            }
        }),
{
    let ls = t.subrange(0, c);
    let ll = grapheme_lens(ls);
    let rs = t.subrange(c, t.len() as int);
    let rl = grapheme_lens(rs);
    let left_word = ll.len() > 0 && ll.last() == 1 && is_word_char(t[c - 1]) && !spec_is_whitespace(t[c - 1]);
    let right_word = rl.len() > 0 && rl[0] == 1 && is_word_char(t[c]) && !spec_is_whitespace(t[c]);
    if left_word || right_word {
        assert(ll.take(ll.len() as int) =~= ll);
        assert(rl.take(rl.len() as int) =~= rl);
        assert(rl.take(0) =~= Seq::<usize>::empty());
        assert(ll.take(0) =~= Seq::<usize>::empty());
        let n = ll.len() as int;
        let mb = lemma_run_back_words(ls, ll, n);
        let mf = lemma_run_fwd_words(rs, rl, 0);
        if left_word {
            lemma_gboundary_step(ll, n - 1);
            assert(ls[gboundary(ll, n - 1)] == t[c - 1]);
            assert(gclass(ls, ll, n - 1) == CharClass::Letter);
            assert(mb < n);
        }
        if right_word {
            lemma_gboundary_step(rl, 0);
            assert(rs[gboundary(rl, 0)] == t[c]);
            assert(gclass(rs, rl, 0) == CharClass::Letter);
            assert(mf > 0);
        }
        lemma_gboundary_mono(rl, mf, rl.len() as int);
        lemma_gboundary_end(rl);
        assert(gboundary(rl, 0) == 0);
        let w = word_at(t, c);
        assert(w.start == gboundary(ll, mb));
        assert(w.end == c + gboundary(rl, mf));
        assert forall|i: int| w.start <= i < w.end implies is_word_char(#[trigger] t[i])
            && !spec_is_whitespace(t[i]) by {
            if i < c {
                assert(ls[i] == t[i]);
            } else {
                assert(rs[i - c] == t[i]);
            }
        }
        if w.start > 0 {
            assert(mb > 0);
            lemma_gboundary_step(ll, mb - 1);
            assert(gclass(ls, ll, mb - 1) != CharClass::Letter);
            if ll[mb - 1] == 1 {
                assert(ls[gboundary(ll, mb - 1)] == t[w.start - 1]);
            }
            assert(gboundary(ll, (mb - 1) + 1) == w.start);
        }
        if w.end < t.len() {
            assert(mf < rl.len()) by {
                if mf == rl.len() {
                    lemma_gboundary_end(rl);
                }
            }
            if rl[mf] == 1 {
                assert(rs[gboundary(rl, mf)] == t[w.end as int]);
            }
            assert(gboundary(rl, mf) == w.end - c);
        }
    }
}

/// The selection of a whole line: from its start to the next line's start
/// (to the end of the text for the last line).
pub open spec fn line_sel(t: Seq<char>, line: usize) -> Selection {
    let l = if line < num_lines(t) {
        line as int
    } else {
        num_lines(t) as int
    };
    let start = if l == num_lines(t) {
        t.len() as int
    } else {
        line_start(t, l)
    };
    let end = if l >= num_lines(t) - 1 {
        t.len() as int
    } else {
        line_start(t, l + 1)
    };
    Selection { start: start as usize, end: end as usize, horiz: None }
}

/// A selection clamped to a text of `n` chars.
pub open spec fn clamp_sel(s: Selection, n: int) -> Selection {
    Selection {
        start: if s.start > n {
            n as usize
        } else {
            s.start
        },
        end: if s.end > n {
            n as usize
        } else {
            s.end
        },
        horiz: s.horiz,
    }
}

/// Every selection clamped to a text of `n` chars.
pub open spec fn clamp_all(vs: ViewSels, n: int) -> ViewSels {
    map_sels(vs, |s: Selection| clamp_sel(s, n))
}

/// What copying the first `k` selections of `s` gives: the texts of the
/// non-empty ones, joined by line feeds.
pub open spec fn copied(t: Seq<char>, s: Seq<Selection>, k: int) -> Seq<char>
    decreases k,
{
    if k <= 0 {
        Seq::empty()
    } else {
        let acc = copied(t, s, k - 1);
        let sel = s[k - 1];
        if sel.start == sel.end {
            acc
        } else {
            let piece = t.subrange(sel.spec_range().start as int, sel.spec_range().end as int);
            if acc.len() > 0 {
                acc + seq!['\n'] + piece
            } else {
                piece
            }
        }
    }
}

/// Clamping selections to the text.
pub struct ClampMap {
    pub len: usize,
}

impl SelectionMap for ClampMap {
    open spec fn pre(&self, s: Selection) -> bool {
        true
    }

    open spec fn spec_apply(&self, s: Selection) -> Selection {
        clamp_sel(s, self.len as int)
    }

    open spec fn post(&self, t: Selection) -> bool {
        t.start <= self.len && t.end <= self.len
    }

    fn apply(&self, s: Selection) -> (r: Selection) {
        let mut sel = s;
        if sel.start > self.len {
            sel.start = self.len;
        }
        if sel.end > self.len {
            sel.end = self.len;
        }
        sel
    }
}

impl Buffer {
    /// The char a click at byte `byte_idx` of line `line` lands on.
    fn click_to_char(&self, line: usize, byte_idx: usize) -> (c: usize)
        requires
            click_ok(self.text(), line, byte_idx),
        ensures
            c == click_char(self.text(), line, byte_idx),
            c <= self.text().len(),
    {
        proof {
            self.lemma_model();
        }
        let ghost t = self.text();
        let len_lines = rope_len_lines(&self.rope);
        let line = if line < len_lines {
            line
        } else {
            len_lines
        };
        let line_byte_idx = rope_line_to_byte(&self.rope, line);
        let len_bytes = rope_len_bytes(&self.rope);
        let total = line_byte_idx + byte_idx;
        let c = rope_byte_to_char(&self.rope, total);
        proof {
            lemma_char_of_byte(t, total as int, c as int);
        }
        c
    }

    /// Replaces the selections of a view by `sels`, which lie within the
    /// text.
    fn put_sels(&mut self, view_id: ViewId, sels: Vec<Selection>)
        requires
            old(self).wf(),
            forall|k: int| 0 <= k < sels@.len() ==> sels@[k].start <= old(self).text().len()
                && sels@[k].end <= old(self).text().len(),
        ensures
            final(self).wf(),
            final(self).text() == old(self).text(),
            final(self).same_setup(old(self)),
            final(self).views() == set_sels(old(self).views(), view_id, sels@),
    {
        proof {
            lemma_sels_within_set(self.views(), view_id, sels@, self.text().len() as int);
        }
        self.set_view_sels(view_id, sels);
    }

    /// Executed when a user clicks: a single caret where the click lands.
    pub fn gesture_point_select(&mut self, view_id: ViewId, line: usize, byte_idx: usize)
        requires
            old(self).wf(),
            click_ok(old(self).text(), line, byte_idx),
        ensures
            final(self).wf(),
            final(self).text() == old(self).text(),
            final(self).same_setup(old(self)),
            final(self).views() == set_sels(
                old(self).views(),
                view_id,
                seq![caret(click_char(old(self).text(), line, byte_idx))],
            ),
    {
        proof {
            self.lemma_model();
        }
        let c = self.click_to_char(line, byte_idx);
        let len_chars = rope_len_chars(&self.rope);
        let c = if c < len_chars {
            c
        } else {
            len_chars
        };
        let mut sel = Selection::new();
        sel.start = c;
        sel.end = c;
        let mut v: Vec<Selection> = Vec::new();
        v.push(sel);
        assert(v@ =~= seq![caret(click_char(old(self).text(), line, byte_idx))]);
        self.put_sels(view_id, v);
    }

    /// Executed when a user shift-clicks: one selection from the smallest
    /// start of the view's selections to where the click lands.
    pub fn gesture_range_select(&mut self, view_id: ViewId, line: usize, byte_idx: usize)
        requires
            old(self).wf(),
            click_ok(old(self).text(), line, byte_idx),
        ensures
            final(self).wf(),
            final(self).text() == old(self).text(),
            final(self).same_setup(old(self)),
            final(self).views() == set_sels(
                old(self).views(),
                view_id,
                seq![
                    Selection {
                        start: min_start(sels_of(old(self).views(), view_id)),
                        end: click_char(old(self).text(), line, byte_idx) as usize,
                        horiz: None,
                    },
                ],
            ),
    {
        proof {
            self.lemma_model();
        }
        let c = self.click_to_char(line, byte_idx);
        let len_chars = rope_len_chars(&self.rope);
        let c = if c < len_chars {
            c
        } else {
            len_chars
        };
        let sels = self.view_sels_vec(view_id);
        proof {
            lemma_sels_of_within(self.views(), view_id, self.text().len() as int);
        }
        let mut start: usize = 0;
        let mut k: usize = 0;
        while k < sels.len()
            invariant
                k <= sels@.len(),
                start == min_start(sels@.take(k as int)),
                forall|i: int| 0 <= i < sels@.len() ==> sels@[i].start <= old(self).text().len(),
                k > 0 ==> start <= old(self).text().len(),
            decreases sels@.len() - k,
        {
            assert(sels@.take(k + 1).drop_last() =~= sels@.take(k as int));
            if k == 0 || sels[k].start < start {
                start = sels[k].start;
            }
            k = k + 1;
        }
        assert(sels@.take(sels@.len() as int) =~= sels@);
        let mut sel = Selection::new();
        sel.start = start;
        sel.end = c;
        let mut v: Vec<Selection> = Vec::new();
        v.push(sel);
        self.put_sels(view_id, v);
        assert(self.views() =~= set_sels(
            old(self).views(),
            view_id,
            seq![
                Selection {
                    start: min_start(sels_of(old(self).views(), view_id)),
                    end: click_char(old(self).text(), line, byte_idx) as usize,
                    horiz: None,
                },
            ],
        ));
    }

    /// Executed when a user ctrl-clicks.  If a selection starts where the
    /// click lands, remove it; if the selection before that point reaches it,
    /// remove that one; otherwise add a caret there (the place searched is
    /// the first selection that starts at the click or later).
    pub fn gesture_toggle_sel(&mut self, view_id: ViewId, line: usize, byte_idx: usize)
        requires
            old(self).wf(),
            click_ok(old(self).text(), line, byte_idx),
        ensures
            final(self).wf(),
            final(self).text() == old(self).text(),
            final(self).same_setup(old(self)),
            toggled(*old(self), *final(self), view_id, click_char(old(self).text(), line, byte_idx)),
    {
        proof {
            self.lemma_model();
        }
        let ghost n = self.text().len() as int;
        let c = self.click_to_char(line, byte_idx);
        let len_chars = rope_len_chars(&self.rope);
        let c = if c < len_chars {
            c
        } else {
            len_chars
        };
        let new_sel = Selection { start: c, end: c, horiz: None };
        match self.find_view(view_id) {
            None => {
                let mut v: Vec<Selection> = Vec::new();
                v.push(new_sel);
                assert(v@ =~= seq![caret(c as int)]);
                self.put_sels(view_id, v);
            },
            Some(p) => {
                proof {
                    lemma_view_pos(self.views(), view_id, p as int);
                    lemma_sels_of_within(self.views(), view_id, n);
                }
                let ghost s = sels_of(self.views(), view_id);
                let mut sels = copy_selections(&self.selections[p].sels);
                assert(sels@ == s);
                match search_by_start(sels.as_slice(), c) {
                    Ok(ix) => {
                        sels.remove(ix);
                        assert forall|k: int| 0 <= k < sels@.len() implies sels@[k].start <= n
                            && sels@[k].end <= n by {
                            if k < ix {
                                assert(sels@[k] == s[k]);
                            } else {
                                assert(sels@[k] == s[k + 1]);
                            }
                        }
                        assert(sels@ == toggle_result(s, c as int, ix as int));
                        self.put_sels(view_id, sels);
                    },
                    Err(ix) => {
                        if ix > 0 && sels[ix - 1].end >= c {
                            sels.remove(ix - 1);
                            assert forall|k: int| 0 <= k < sels@.len() implies sels@[k].start <= n
                                && sels@[k].end <= n by {
                                if k < ix - 1 {
                                    assert(sels@[k] == s[k]);
                                } else {
                                    assert(sels@[k] == s[k + 1]);
                                }
                            }
                        } else {
                            sels.insert(ix, new_sel);
                            assert forall|k: int| 0 <= k < sels@.len() implies sels@[k].start <= n
                                && sels@[k].end <= n by {
                                if k < ix {
                                    assert(sels@[k] == s[k]);
                                } else if k > ix {
                                    assert(sels@[k] == s[k - 1]);
                                }
                            }
                        }
                        assert(sels@ == toggle_result(s, c as int, ix as int));
                        self.put_sels(view_id, sels);
                    },
                }
            },
        }
    }

    /// The class of the grapheme of `len_j` chars at `pos`.
    fn class_at(&self, pos: usize, len_j: usize) -> (c: CharClass)
        requires
            pos < self.text().len(),
        ensures
            c == (if len_j == 1 && spec_is_whitespace(self.text()[pos as int]) {
                CharClass::Space
            } else if len_j == 1 && is_word_char(self.text()[pos as int]) {
                CharClass::Letter
            } else {
                CharClass::Symbol
            }),
    {
        proof {
            self.lemma_model();
        }
        let (space, letter) = grapheme_flags(&self.rope, pos, len_j);
        if space {
            CharClass::Space
        } else if letter {
            CharClass::Letter
        } else {
            CharClass::Symbol
        }
    }

    /// Executed when a user double-clicks: selects the word (or the run of
    /// white space, or of symbols) around where the click lands.
    pub fn gesture_word_select(&mut self, view_id: ViewId, line: usize, byte_idx: usize)
        requires
            old(self).wf(),
            click_ok(old(self).text(), line, byte_idx),
        ensures
            final(self).wf(),
            final(self).text() == old(self).text(),
            final(self).same_setup(old(self)),
            final(self).views() == set_sels(
                old(self).views(),
                view_id,
                seq![word_at(old(self).text(), click_char(old(self).text(), line, byte_idx))],
            ),
    {
        proof {
            self.lemma_model();
        }
        let ghost t = self.text();
        let char_idx = self.click_to_char(line, byte_idx);
        let len_chars = rope_len_chars(&self.rope);
        let ghost ls = t.subrange(0, char_idx as int);
        let ghost rs = t.subrange(char_idx as int, len_chars as int);
        let ll = slice_graphemes(&self.rope, 0, char_idx);
        let rl = slice_graphemes(&self.rope, char_idx, len_chars);
        let left_char = if ll.len() > 0 {
            let last = ll.len() - 1;
            proof {
                lemma_gboundary_step(ll@, last as int);
                lemma_gboundary_mono(ll@, 0, last as int);
            }
            let c = self.class_at(char_idx - ll[last], ll[last]);
            assert(c == gclass(ls, ll@, last as int));
            c
        } else {
            CharClass::Space
        };
        let right_char = if rl.len() > 0 {
            proof {
                lemma_gboundary_step(rl@, 0);
                lemma_gboundary_mono(rl@, 1, rl@.len() as int);
                assert(rl@.take(0) =~= Seq::<usize>::empty());
            }
            let c = self.class_at(char_idx, rl[0]);
            assert(c == gclass(rs, rl@, 0));
            c
        } else {
            CharClass::Space
        };
        let word_class = if left_char == CharClass::Letter || right_char == CharClass::Letter {
            CharClass::Letter
        } else if left_char == CharClass::Space || right_char == CharClass::Space {
            CharClass::Space
        } else {
            CharClass::Symbol
        };
        // the run of graphemes of that class ending at the click
        let mut back: usize = 0;
        let mut j: usize = ll.len();
        let mut go = true;
        while go && j > 0
            invariant
                t == self.text(),
                ls == t.subrange(0, char_idx as int),
                char_idx <= t.len(),
                ll@ == grapheme_lens(ls),
                forall|k: int| 0 <= k < ll@.len() ==> ll@[k] >= 1,
                gboundary(ll@, ll@.len() as int) == char_idx,
                j <= ll@.len(),
                back == char_idx - gboundary(ll@, j as int),
                run_back(ls, ll@, ll@.len() as int, word_class) == back + run_back(
                    ls,
                    ll@,
                    j as int,
                    word_class,
                ),
                !go ==> j > 0 && gclass(ls, ll@, j - 1) != word_class,
            decreases j + if go {
                1int
            } else {
                0int
            },
        {
            proof {
                lemma_gboundary_step(ll@, j - 1);
                lemma_gboundary_mono(ll@, 0, j - 1);
                lemma_gboundary_mono(ll@, j as int, ll@.len() as int);
            }
            let len_j = ll[j - 1];
            let c = self.class_at(char_idx - back - len_j, len_j);
            assert(c == gclass(ls, ll@, j - 1));
            if c == word_class {
                back = back + len_j;
                j = j - 1;
            } else {
                go = false;
            }
        }
        proof {
            lemma_gboundary_mono(ll@, 0, j as int);
            lemma_gboundary_mono(ll@, j as int, ll@.len() as int);
        }
        // the run of graphemes of that class starting at the click
        let mut fwd: usize = 0;
        let mut k: usize = 0;
        let mut go = true;
        proof {
            assert(rl@.take(0) =~= Seq::<usize>::empty());
        }
        while go && k < rl.len()
            invariant
                t == self.text(),
                len_chars == t.len(),
                rs == t.subrange(char_idx as int, len_chars as int),
                char_idx <= t.len(),
                rl@ == grapheme_lens(rs),
                forall|i: int| 0 <= i < rl@.len() ==> rl@[i] >= 1,
                gboundary(rl@, rl@.len() as int) == len_chars - char_idx,
                k <= rl@.len(),
                fwd == gboundary(rl@, k as int),
                run_fwd(rs, rl@, 0, word_class) == fwd + run_fwd(rs, rl@, k as int, word_class),
                !go ==> k < rl@.len() && gclass(rs, rl@, k as int) != word_class,
            decreases rl@.len() - k + if go {
                1int
            } else {
                0int
            },
        {
            proof {
                lemma_gboundary_step(rl@, k as int);
                lemma_gboundary_mono(rl@, 0, k as int);
                lemma_gboundary_mono(rl@, k + 1, rl@.len() as int);
            }
            let len_k = rl[k];
            let c = self.class_at(char_idx + fwd, len_k);
            assert(c == gclass(rs, rl@, k as int));
            if c == word_class {
                fwd = fwd + len_k;
                k = k + 1;
            } else {
                go = false;
            }
        }
        proof {
            lemma_gboundary_mono(rl@, k as int, rl@.len() as int);
            lemma_gboundary_mono(rl@, 0, k as int);
        }
        proof {
            lemma_word_select_on_word(t, char_idx as int);
        }
        let sel = Selection { start: char_idx - back, end: char_idx + fwd, horiz: None };
        let mut v: Vec<Selection> = Vec::new();
        v.push(sel);
        assert(v@ =~= seq![word_at(old(self).text(), click_char(old(self).text(), line, byte_idx))]);
        self.put_sels(view_id, v);
    }

    /// Executed when a user triple-clicks: selects the whole line, its line
    /// break included.
    pub fn gesture_line_select(&mut self, view_id: ViewId, line: usize)
        requires
            old(self).wf(),
        ensures
            final(self).wf(),
            final(self).text() == old(self).text(),
            final(self).same_setup(old(self)),
            final(self).views() == set_sels(
                old(self).views(),
                view_id,
                seq![line_sel(old(self).text(), line)],
            ),
    {
        proof {
            self.lemma_model();
        }
        let ghost t = self.text();
        let len_lines = rope_len_lines(&self.rope);
        let len_chars = rope_len_chars(&self.rope);
        let line = if line < len_lines {
            line
        } else {
            len_lines
        };
        let line_char_idx = rope_line_to_char(&self.rope, line);
        proof {
            if line < len_lines {
                lemma_line_start_is(t, line as int, line_char_idx as int);
            }
        }
        let line_end_char_idx = if line >= len_lines - 1 {
            len_chars
        } else {
            let e = rope_line_to_char(&self.rope, line + 1);
            proof {
                lemma_line_start_is(t, line + 1, e as int);
            }
            e
        };
        let mut sel = Selection::new();
        sel.start = line_char_idx;
        sel.end = line_end_char_idx;
        let mut v: Vec<Selection> = Vec::new();
        v.push(sel);
        assert(v@ =~= seq![line_sel(old(self).text(), line)]);
        self.put_sels(view_id, v);
    }

    /// Selects the whole text.
    pub fn select_all(&mut self, view_id: ViewId)
        requires
            old(self).wf(),
        ensures
            final(self).wf(),
            final(self).text() == old(self).text(),
            final(self).same_setup(old(self)),
            final(self).views() == set_sels(
                old(self).views(),
                view_id,
                seq![Selection { start: 0, end: old(self).text().len() as usize, horiz: None }],
            ),
    {
        proof {
            self.lemma_model();
        }
        let len_chars = rope_len_chars(&self.rope);
        let mut sel = Selection::new();
        sel.start = 0;
        sel.end = len_chars;
        let mut v: Vec<Selection> = Vec::new();
        v.push(sel);
        assert(v@ =~= seq![Selection { start: 0, end: old(self).text().len() as usize, horiz: None }]);
        self.put_sels(view_id, v);
    }

    /// Replaces the selections of a view.
    pub fn replace_selections(&mut self, view_id: ViewId, sels: &[Selection])
        ensures
            final(self).text() == old(self).text(),
            final(self).same_setup(old(self)),
            final(self).views() == set_sels(old(self).views(), view_id, sels@),
            old(self).wf() && (forall|k: int| 0 <= k < sels@.len() ==> sels@[k].start <= old(self).text().len()
                && sels@[k].end <= old(self).text().len()) ==> final(self).wf(),
    {
        let v = slice_to_selections(sels);
        proof {
            if old(self).wf() && (forall|k: int| 0 <= k < sels@.len() ==> sels@[k].start <= old(self).text().len()
                && sels@[k].end <= old(self).text().len()) {
                lemma_sels_within_set(self.views(), view_id, sels@, self.text().len() as int);
            }
        }
        self.set_view_sels(view_id, v);
    }

    /// Clamps every selection of every view to the text.  (Selections are
    /// not merged where they meet.)
    pub fn fix_selections(&mut self)
        requires
            old(self).hist().wf(),
            old(self).spec_tab_size() > 0,
        ensures
            final(self).wf(),
            final(self).text() == old(self).text(),
            final(self).same_setup(old(self)),
            final(self).views() == clamp_all(old(self).views(), old(self).text().len() as int),
    {
        proof {
            self.lemma_model();
        }
        let len_chars = rope_len_chars(&self.rope);
        let m = ClampMap { len: len_chars };
        self.map_all_selections(&m);
        proof {
            let vs = old(self).views();
            let ws = self.views();
            let g = |s: Selection| m.spec_apply(s);
            assert(g =~= (|s: Selection| clamp_sel(s, old(self).text().len() as int)));
            assert forall|i: int, k: int| 0 <= i < ws.len() && 0 <= k < ws[i].1.len() implies #[trigger] ws[i].1[k].start
                <= self.text().len() && ws[i].1[k].end <= self.text().len() by {
                assert(ws[i].1[k] == g(vs[i].1[k]));
            }
        }
    }
}

/// A list of selections copied from a slice.
fn slice_to_selections(s: &[Selection]) -> (v: Vec<Selection>)
    ensures
        v@ == s@,
{
    let mut v: Vec<Selection> = Vec::new();
    let mut k: usize = 0;
    while k < s.len()
        invariant
            k <= s@.len(),
            v@ == s@.take(k as int),
        decreases s@.len() - k,
    {
        v.push(s[k]);
        assert(s@.take(k + 1) =~= s@.take(k as int).push(s@[k as int]));
        k = k + 1;
    }
    assert(s@.take(s@.len() as int) =~= s@);
    v
}

/// Where dragging to byte `line_byte_idx` of line `line_idx` puts the
/// cursor: the char of that byte, clamped to the text (a line past the
/// last one means the end of the text).
pub open spec fn drag_char(t: Seq<char>, line_idx: usize, line_byte_idx: usize) -> int {
    let len_bytes = bytes_before(t, t.len() as int) as int;
    let b = if line_idx >= num_lines(t) {
        len_bytes
    } else if line_byte(t, line_idx as int) + line_byte_idx < len_bytes {
        line_byte(t, line_idx as int) + line_byte_idx
    } else {
        len_bytes
    };
    char_of_byte(t, b)
}

/// Setting the cursor end of selections.
pub struct DragMap {
    pub end: usize,
    pub len: usize,
}

impl SelectionMap for DragMap {
    open spec fn pre(&self, s: Selection) -> bool {
        s.start <= self.len && self.end <= self.len
    }

    open spec fn spec_apply(&self, s: Selection) -> Selection {
        Selection { end: self.end, ..s }
    }

    open spec fn post(&self, t: Selection) -> bool {
        t.start <= self.len && t.end <= self.len
    }

    fn apply(&self, s: Selection) -> (r: Selection) {
        let mut sel = s;
        sel.end = self.end;
        sel
    }
}

impl Buffer {
    /// Dragging with the mouse: the cursor end of every selection of the
    /// view moves to the byte dragged to.
    pub fn drag(&mut self, view_id: ViewId, line_idx: usize, line_byte_idx: usize)
        requires
            old(self).wf(),
            line_idx < num_lines(old(self).text()) ==> line_byte(old(self).text(), line_idx as int)
                + line_byte_idx <= usize::MAX,
        ensures
            final(self).wf(),
            final(self).text() == old(self).text(),
            final(self).same_setup(old(self)),
            final(self).views() == set_sels(
                old(self).views(),
                view_id,
                sels_of(old(self).views(), view_id).map_values(
                    |s: Selection| Selection { end: drag_char(old(self).text(), line_idx, line_byte_idx) as usize, ..s },
                ),
            ),
    {
        proof {
            self.lemma_model();
        }
        let ghost t = self.text();
        let len_lines = rope_len_lines(&self.rope);
        let len_bytes = rope_len_bytes(&self.rope);
        let len_chars = rope_len_chars(&self.rope);
        let byte_idx = if line_idx >= len_lines {
            len_bytes
        } else {
            let b = rope_line_to_byte(&self.rope, line_idx) + line_byte_idx;
            if b < len_bytes {
                b
            } else {
                len_bytes
            }
        };
        let end = rope_byte_to_char(&self.rope, byte_idx);
        proof {
            lemma_char_of_byte(t, byte_idx as int, end as int);
        }
        let sels = self.view_sels_vec(view_id);
        proof {
            lemma_sels_of_within(self.views(), view_id, t.len() as int);
        }
        let m = DragMap { end, len: len_chars };
        let new_sels = crate::buffer::map_selections(&sels, &m);
        let ghost f = |s: Selection| Selection { end: drag_char(old(self).text(), line_idx, line_byte_idx) as usize, ..s };
        assert forall|k: int| 0 <= k < new_sels@.len() implies new_sels@[k] == f(sels@[k]) by {
        }
        assert(new_sels@ =~= sels@.map_values(f));
        assert forall|k: int| 0 <= k < new_sels@.len() implies new_sels@[k].start <= t.len()
            && new_sels@[k].end <= t.len() by {
            assert(m.post(new_sels@[k]));
        }
        self.put_sels(view_id, new_sels);
    }

    /// Goes back to the state before the current one in the history, giving
    /// the view the selections it had before that change; then clamps all
    /// selections to the text.  Nothing changes but the clamping when there
    /// is nothing to undo.
    pub fn undo(&mut self, view_id: ViewId)
        requires
            old(self).wf(),
        ensures
            final(self).wf(),
            final(self).spec_tab_size() == old(self).spec_tab_size(),
            final(self).spec_line_ending() == old(self).spec_line_ending(),
            final(self).spec_id() == old(self).spec_id(),
            undone(*old(self), *final(self), view_id),
    {
        proof {
            self.lemma_model();
        }
        let restored = match self.history.undo() {
            Some((rope, sels)) => Some((rope, slice_to_selections(sels))),
            None => None,
        };
        match restored {
            Some((rope, sels)) => {
                self.rope = rope;
                proof {
                    self.lemma_model();
                }
                self.set_view_sels(view_id, sels);
            },
            None => {},
        }
        proof {
            self.lemma_model();
        }
        self.fix_selections();
    }

    /// Goes forward to the state after the current one in the history,
    /// giving the view the selections it had after that change; then clamps
    /// all selections to the text.  Nothing changes but the clamping when
    /// there is nothing to redo.
    pub fn redo(&mut self, view_id: ViewId)
        requires
            old(self).wf(),
        ensures
            final(self).wf(),
            final(self).spec_tab_size() == old(self).spec_tab_size(),
            final(self).spec_line_ending() == old(self).spec_line_ending(),
            final(self).spec_id() == old(self).spec_id(),
            redone(*old(self), *final(self), view_id),
    {
        proof {
            self.lemma_model();
        }
        let restored = match self.history.redo() {
            Some((rope, sels)) => Some((rope, slice_to_selections(sels))),
            None => None,
        };
        match restored {
            Some((rope, sels)) => {
                self.rope = rope;
                proof {
                    self.lemma_model();
                }
                self.set_view_sels(view_id, sels);
            },
            None => {},
        }
        proof {
            self.lemma_model();
        }
        self.fix_selections();
    }

    /// The text of the view's non-empty selections, joined by line feeds;
    /// `None` when there is none.  The view is given an empty list of
    /// selections if it had none.
    pub fn copy(&mut self, view_id: ViewId) -> (r: Option<String>)
        requires
            old(self).wf(),
        ensures
            final(self).wf(),
            final(self).text() == old(self).text(),
            final(self).same_setup(old(self)),
            final(self).views() == ensure_view(old(self).views(), view_id),
            ({
                let c = copied(
                    old(self).text(),
                    sels_of(old(self).views(), view_id),
                    sels_of(old(self).views(), view_id).len() as int,
                );
                &&& r is None <==> c.len() == 0
                &&& r matches Some(s) ==> s@ == c
            }),
    {
        let p = self.ensure_view_slot(view_id);
        proof {
            self.lemma_model();
            lemma_view_pos(self.views(), view_id, p as int);
            lemma_sels_of_within(self.views(), view_id, self.text().len() as int);
            crate::views::lemma_ensure_view(old(self).views(), view_id);
        }
        let ghost t = self.text();
        let ghost s = sels_of(self.views(), view_id);
        let n = self.selections[p].sels.len();
        let mut ret = String::new();
        let mut i: usize = 0;
        while i < n
            invariant
                i <= n,
                n == s.len(),
                t == self.text(),
                t == rope_text(self.rope),
                p < self.views().len(),
                self.views()[p as int].1 == s,
                forall|k: int| 0 <= k < s.len() ==> s[k].start <= t.len() && s[k].end <= t.len(),
                ret@ == copied(t, s, i as int),
            decreases n - i,
        {
            let sel = self.sel_at(p, i);
            if !sel.is_caret() {
                let r = sel.range();
                let text = rope_slice_string(&self.rope, r.start, r.end);
                if !ret.as_str().is_empty() {
                    string_push(&mut ret, '\n');
                }
                ret.append(text.as_str());
            }
            i = i + 1;
        }
        if ret.as_str().is_empty() {
            None
        } else {
            Some(ret)
        }
    }

    /// Copies the view's non-empty selections (as `copy` does) and removes
    /// them from the text, one after the other.  The history is not touched.
    pub fn cut(&mut self, view_id: ViewId) -> (r: Option<String>)
        requires
            old(self).wf(),
        ensures
            final(self).wf(),
            final(self).same_setup(old(self)),
            final(self).state() == remove_selected(
                with_view(old(self).state(), view_id),
                view_id,
                sels_of(old(self).views(), view_id).len(),
            ),
            ({
                let c = copied(
                    old(self).text(),
                    sels_of(old(self).views(), view_id),
                    sels_of(old(self).views(), view_id).len() as int,
                );
                &&& r is None <==> c.len() == 0
                &&& r matches Some(s) ==> s@ == c
            }),
    {
        let ret = self.copy(view_id);
        proof {
            crate::views::lemma_ensure_view(old(self).views(), view_id);
        }
        let p = self.slot_of(view_id);
        proof {
            self.lemma_model();
        }
        let n = self.selections[p].sels.len();
        let ghost s0 = self.state();
        let mut i: usize = 0;
        while i < n
            invariant
                i <= n,
                self.wf(),
                self.state() == remove_selected(s0, view_id, i as nat),
                has_view(self.views(), view_id),
                sels_of(self.views(), view_id).len() == n,
                has_view(s0.views, view_id),
                sels_of(s0.views, view_id).len() == n,
                self.same_setup(old(self)),
            decreases n - i,
        {
            let q = self.slot_of(view_id);
            let sel = self.sel_at(q, i);
            let ghost before = self.state();
            let r = sel.range();
            if !sel.is_caret() {
                self.remove(r);
            }
            proof {
                lemma_state_remove_views(before, r, view_id);
            }
            i = i + 1;
        }
        ret
    }

    /// Pasting does nothing here: the clipboard belongs to the user
    /// interface, which inserts its text.
    pub fn paste(&mut self, _view_id: ViewId)
        ensures
            *final(self) == *old(self),
    {
    }

    /// Whether the view has a selection and every end of its selections is
    /// at the end of the text or on a grapheme boundary (that is, where the
    /// next boundary's previous boundary is).
    pub fn check_invariants(&self, view_id: ViewId) -> (ok: bool)
        requires
            self.wf(),
        ensures
            ok == (sels_of(self.views(), view_id).len() > 0 && forall|k: int|
                0 <= k < sels_of(self.views(), view_id).len() ==> at_boundary(
                    self.text(),
                    sels_of(self.views(), view_id)[k].start as int,
                ) && at_boundary(self.text(), sels_of(self.views(), view_id)[k].end as int)),
    {
        proof {
            self.lemma_model();
            lemma_sels_of_within(self.views(), view_id, self.text().len() as int);
        }
        let sels = self.view_sels_vec(view_id);
        if sels.len() == 0 {
            return false;
        }
        let mut k: usize = 0;
        while k < sels.len()
            invariant
                k <= sels@.len(),
                sels@ == sels_of(self.views(), view_id),
                forall|i: int| 0 <= i < sels@.len() ==> sels@[i].start <= self.text().len() && sels@[i].end <= self.text().len(),
                forall|i: int| 0 <= i < k ==> at_boundary(self.text(), sels@[i].start as int) && at_boundary(self.text(), sels@[i].end as int),
            decreases sels@.len() - k,
        {
            let sel = sels[k];
            if !self.is_at_boundary(sel.start) || !self.is_at_boundary(sel.end) {
                return false;
            }
            k = k + 1;
        }
        true
    }

    fn is_at_boundary(&self, p: usize) -> (b: bool)
        requires
            p <= self.text().len(),
        ensures
            b == at_boundary(self.text(), p as int),
    {
        proof {
            self.lemma_model();
        }
        let len_chars = rope_len_chars(&self.rope);
        if p == 0 || p == len_chars {
            return true;
        }
        let next = next_grapheme_boundary(&self.rope, p);
        let prev = prev_grapheme_boundary(&self.rope, next);
        prev == p
    }
}

/// `after` is `before` after an undo by view `v`: the history goes back one
/// state, the text becomes that state's text and the view gets the
/// selections it had before the undone change; with nothing to undo the
/// text stays.  Either way every selection is then clamped to the text.
pub open spec fn undone(before: Buffer, after: Buffer, v: ViewId) -> bool {
    let ix = before.hist().index();
    &&& after.hist().entries() == before.hist().entries()
    &&& ix == 0 ==> {
        &&& after.hist().index() == 0
        &&& after.text() == before.text()
        &&& after.views() == clamp_all(before.views(), before.text().len() as int)
    }
    &&& ix > 0 ==> {
        &&& after.hist().index() == ix - 1
        &&& after.text() == before.hist().entries()[ix - 1].text
        &&& after.views() == clamp_all(
            set_sels(before.views(), v, before.hist().entries()[ix].before),
            after.text().len() as int,
        )
    }
}

/// `after` is `before` after a redo by view `v`: the history goes forward
/// one state, the text becomes that state's text and the view gets the
/// selections it had after that change; with nothing to redo the text
/// stays.  Either way every selection is then clamped to the text.
pub open spec fn redone(before: Buffer, after: Buffer, v: ViewId) -> bool {
    let ix = before.hist().index();
    &&& after.hist().entries() == before.hist().entries()
    &&& ix == before.hist().entries().len() - 1 ==> {
        &&& after.hist().index() == ix
        &&& after.text() == before.text()
        &&& after.views() == clamp_all(before.views(), before.text().len() as int)
    }
    &&& ix < before.hist().entries().len() - 1 ==> {
        &&& after.hist().index() == ix + 1
        &&& after.text() == before.hist().entries()[ix + 1].text
        &&& after.views() == clamp_all(
            set_sels(before.views(), v, before.hist().entries()[ix + 1].after),
            after.text().len() as int,
        )
    }
}

/// Clamping selections that lie within the text changes nothing.
proof fn lemma_clamp_view_within(vs: ViewSels, v: ViewId, s: Seq<Selection>, n: int)
    requires
        forall|k: int| 0 <= k < s.len() ==> s[k].start <= n && s[k].end <= n,
    ensures
        sels_of(clamp_all(set_sels(vs, v, s), n), v) == s,
{
    let ws = set_sels(vs, v, s);
    lemma_set_sels(vs, v, s, v);
    lemma_map_sels(ws, |x: Selection| clamp_sel(x, n), v);
    assert(sels_of(clamp_all(ws, n), v) =~= s);
}

/// A ctrl-click that added a caret is taken back by a second ctrl-click at
/// the same place: the selections of every view are as before the first.
pub proof fn lemma_toggle_twice(b0: Buffer, b1: Buffer, b2: Buffer, v: ViewId, c: usize)
    requires
        has_view(b0.views(), v),
        toggled(b0, b1, v, c as int),
        toggled(b1, b2, v, c as int),
        sels_of(b1.views(), v).len() == sels_of(b0.views(), v).len() + 1,
    ensures
        b2.views() == b0.views(),
{
    let vs = b0.views();
    let s = sels_of(vs, v);
    let ix = choose|ix: int|
        is_search_pos(s, c as int, ix) && b1.views() == set_sels(vs, v, toggle_result(s, c as int, ix));
    lemma_set_sels(vs, v, toggle_result(s, c as int, ix), v);
    if (ix < s.len() && s[ix].start == c) || (ix > 0 && s[ix - 1].end >= c) {
        assert(false);
    }
    let s1 = s.insert(ix, caret(c as int));
    assert(sels_of(b1.views(), v) == s1);
    let ix2 = choose|ix2: int|
        is_search_pos(s1, c as int, ix2) && b2.views() == set_sels(b1.views(), v, toggle_result(s1, c as int, ix2));
    if ix2 < ix {
        assert(s1[ix2] == s[ix2]);
    } else if ix2 > ix {
        assert(s1[ix].start < c);
    }
    assert(ix2 == ix);
    assert(s1[ix].start == c);
    assert(s1.remove(ix) =~= s);
    lemma_set_sels_twice(vs, v, s1, s);
    lemma_set_sels_same(vs, v);
}

/// Selections that all lie on grapheme boundaries pass the check of
/// `check_invariants` for a view that has one.  The edits and moves that
/// the check is run after (insert, delete forward and backward, and moving
/// left, right, up and down, also while extending the selection) keep every
/// selection on grapheme boundaries and keep the number of the view's
/// selections, as their contracts say; a new buffer and `init_view` start
/// from selections on boundaries.
pub proof fn lemma_boundaries_pass_check(b: Buffer, v: ViewId)
    requires
        on_boundaries(b.views(), b.text()),
        sels_of(b.views(), v).len() > 0,
    ensures
        sels_of(b.views(), v).len() > 0 && forall|k: int|
            0 <= k < sels_of(b.views(), v).len() ==> at_boundary(
                b.text(),
                sels_of(b.views(), v)[k].start as int,
            ) && at_boundary(b.text(), sels_of(b.views(), v)[k].end as int),
{
    let vs = b.views();
    if has_view(vs, v) {
        let p = view_pos(vs, v);
        assert forall|k: int| 0 <= k < sels_of(vs, v).len() implies at_boundary(b.text(), sels_of(vs, v)[k].start as int)
            && at_boundary(b.text(), sels_of(vs, v)[k].end as int) by {
            assert(sels_of(vs, v)[k] == vs[p].1[k]);
            assert(at_boundary(b.text(), vs[p].1[k].start as int));
        }
    }
}

/// The edits and moves after which the buffer's invariants are checked.
#[derive(Debug, Clone, Copy, PartialEq, Eq, Structural)]
pub enum EditCall {
    Insert,
    InsertNewline,
    MoveUp,
    MoveDown,
    MoveLeft,
    MoveRight,
    MoveUpAndModifySelection,
    MoveDownAndModifySelection,
    MoveLeftAndModifySelection,
    MoveRightAndModifySelection,
    DeleteForward,
    DeleteBackward,
}

/// What `check_invariants(v)` answers of `b`: view `v` has selections, and
/// both ends of each lie on grapheme boundaries.
pub open spec fn passes_check(b: Buffer, v: ViewId) -> bool {
    sels_of(b.views(), v).len() > 0 && forall|k: int|
        0 <= k < sels_of(b.views(), v).len() ==> at_boundary(b.text(), sels_of(b.views(), v)[k].start as int)
            && at_boundary(b.text(), sels_of(b.views(), v)[k].end as int)
}

/// `b1` is what the call `c` on view `v` made of `b0`, as the call's
/// contract says: its text and selections (an insert of some text), where
/// they lie, and the number of the view's selections.
pub open spec fn made_by(b0: Buffer, b1: Buffer, v: ViewId, c: EditCall) -> bool {
    let ending = ending_chars(b0.spec_line_ending());
    let tab = b0.spec_tab_size() as int;
    let moved = b1.text() == b0.text() && (on_boundaries(b0.views(), b0.text()) ==> on_boundaries(
        b1.views(),
        b1.text(),
    ));
    &&& b1.wf()
    &&& sels_of(b1.views(), v).len() == sels_of(b0.views(), v).len()
    &&& match c {
        EditCall::Insert => on_boundaries(b1.views(), b1.text()) && exists|s: Seq<char>|
            b1.state() == #[trigger] snap_state(state_type(b0.state(), v, normalized(s, ending))),
        EditCall::InsertNewline => on_boundaries(b1.views(), b1.text()) && b1.state() == snap_state(
            state_type(b0.state(), v, normalized(seq!['\n'], ending)),
        ),
        EditCall::MoveUp => moved && b1.views() == views_vertical(b0.views(), b0.text(), v, false, false, tab, 1),
        EditCall::MoveDown => moved && b1.views() == views_vertical(b0.views(), b0.text(), v, true, false, tab, 1),
        EditCall::MoveLeft => moved && b1.views() == views_moved(b0.views(), b0.text(), v, Motion::Left),
        EditCall::MoveRight => moved && b1.views() == views_moved(b0.views(), b0.text(), v, Motion::Right),
        EditCall::MoveUpAndModifySelection => moved && b1.views() == views_vertical(
            b0.views(),
            b0.text(),
            v,
            false,
            true,
            tab,
            1,
        ),
        EditCall::MoveDownAndModifySelection => moved && b1.views() == views_vertical(
            b0.views(),
            b0.text(),
            v,
            true,
            true,
            tab,
            1,
        ),
        EditCall::MoveLeftAndModifySelection => moved && b1.views() == views_moved(
            b0.views(),
            b0.text(),
            v,
            Motion::ExtendLeft,
        ),
        EditCall::MoveRightAndModifySelection => moved && b1.views() == views_moved(
            b0.views(),
            b0.text(),
            v,
            Motion::ExtendRight,
        ),
        EditCall::DeleteForward => on_boundaries(b1.views(), b1.text()) && b1.state() == snap_state(
            state_delete(b0.state(), v, true),
        ),
        EditCall::DeleteBackward => on_boundaries(b1.views(), b1.text()) && b1.state() == snap_state(
            state_delete(b0.state(), v, false),
        ),
    }
}

/// Starting from an empty buffer whose view `v` has just been opened (a
/// caret at the start), any sequence of inserts, line breaks, moves up,
/// down, left and right (also extending the selection) and deletes forward
/// and backward on view `v` passes `check_invariants(v)` after every call:
/// the view keeps its selections and they stay on grapheme boundaries.
pub proof fn lemma_calls_keep_invariants(bs: Seq<Buffer>, calls: Seq<EditCall>, v: ViewId)
    requires
        bs.len() == calls.len() + 1,
        bs[0].text() == Seq::<char>::empty(),
        bs[0].views() == set_sels(Seq::empty(), v, seq![Selection::new_spec()]),
        forall|i: int| 0 <= i < calls.len() ==> #[trigger] made_by(bs[i], bs[i + 1], v, calls[i]),
    ensures
        forall|i: int| 0 <= i < bs.len() ==> #[trigger] passes_check(bs[i], v),
{
    assert forall|i: int| 0 <= i < bs.len() implies #[trigger] passes_check(bs[i], v) by {
        lemma_calls_keep_boundaries(bs, calls, v, i);
        lemma_boundaries_pass_check(bs[i], v);
    }
}

/// The `n`th buffer of such a sequence of calls has its selections on
/// grapheme boundaries, and view `v` has some.
proof fn lemma_calls_keep_boundaries(bs: Seq<Buffer>, calls: Seq<EditCall>, v: ViewId, n: int)
    requires
        0 <= n < bs.len(),
        bs.len() == calls.len() + 1,
        bs[0].text() == Seq::<char>::empty(),
        bs[0].views() == set_sels(Seq::empty(), v, seq![Selection::new_spec()]),
        forall|i: int| 0 <= i < calls.len() ==> #[trigger] made_by(bs[i], bs[i + 1], v, calls[i]),
    ensures
        on_boundaries(bs[n].views(), bs[n].text()),
        sels_of(bs[n].views(), v).len() > 0,
    decreases n,
{
    if n == 0 {
        let s0 = seq![Selection::new_spec()];
        lemma_on_boundaries_set(Seq::empty(), v, s0, Seq::<char>::empty());
        lemma_set_sels(Seq::empty(), v, s0, v);
    } else {
        lemma_calls_keep_boundaries(bs, calls, v, n - 1);
        assert(made_by(bs[n - 1], bs[n - 1 + 1], v, calls[n - 1]));
    }
}

/// Undoing an edit gives back the text, the place in the history and the
/// editing view's selections from before the edit, when the text was the
/// history's current state.
pub proof fn lemma_undo_reverts_edit(b0: Buffer, b1: Buffer, b2: Buffer, v: ViewId)
    requires
        b0.wf(),
        b1.wf(),
        b0.text() == b0.hist().current_text(),
        records_edit(b0, b1, v),
        undone(b1, b2, v),
    ensures
        b2.text() == b0.text(),
        b2.hist().index() == b0.hist().index(),
        sels_of(b2.views(), v) == sels_of(b0.views(), v),
{
    let ix = b0.hist().index();
    let before = sels_of(b0.views(), v);
    assert(b1.hist().entries()[ix] == b0.hist().entries()[ix]);
    assert(b1.hist().entries()[ix + 1].before == before);
    lemma_sels_of_within(b0.views(), v, b0.text().len() as int);
    lemma_clamp_view_within(b1.views(), v, before, b2.text().len() as int);
}

/// Redoing an undone edit gives back the text, the place in the history and
/// the editing view's selections from after the edit.
pub proof fn lemma_redo_restores_edit(b0: Buffer, b1: Buffer, b2: Buffer, b3: Buffer, v: ViewId)
    requires
        b0.wf(),
        b1.wf(),
        records_edit(b0, b1, v),
        undone(b1, b2, v),
        redone(b2, b3, v),
    ensures
        b3.text() == b1.text(),
        b3.hist().index() == b1.hist().index(),
        sels_of(b3.views(), v) == sels_of(b1.views(), v),
{
    let ix = b1.hist().index();
    let after = sels_of(b1.views(), v);
    assert(b1.hist().entries()[ix].after == after);
    assert(b1.hist().entries()[ix].text == b1.text());
    lemma_sels_of_within(b1.views(), v, b1.text().len() as int);
    lemma_clamp_view_within(b2.views(), v, after, b3.text().len() as int);
}


} // verus!
