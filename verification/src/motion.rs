//! Cursor movement: what each movement makes of one selection, and the
//! buffer operations that move every selection of a view.
use vstd::prelude::*;
use ropey::Rope;
use crate::buffer::{Buffer, SelectionMap, map_selections};
use crate::graphemes::{next_boundary, prev_boundary, next_grapheme_boundary, prev_grapheme_boundary};
use crate::rope::{
    rope_text, rope_len_chars, rope_len_lines, rope_char_to_line, rope_line_to_char, line_of,
    num_lines, line_start, is_line_start, lemma_line_start_is, lemma_line_of_bound,
    lemma_line_start_before,
};
use crate::selection::{Selection, min_usize, max_usize};
use crate::views::{ViewId, sels_of, set_sels, sels_within, has_view, lemma_set_sels, lemma_set_sels_twice};
use crate::buffer::{snap_view, snap_sel, on_boundaries, lemma_on_boundaries_set};

verus! {

/// The selection is within a text of `n` chars.
pub open spec fn sel_within(s: Selection, n: int) -> bool {
    s.start <= n && s.end <= n
}

/// Moving left: a caret moves to the previous grapheme boundary (it stays
/// at the start of the text); a selection collapses to its left end.
pub open spec fn sel_move_left(t: Seq<char>, s: Selection) -> Selection {
    if s.start == s.end {
        if s.start > 0 {
            let left = prev_boundary(t, s.start as int) as usize;
            Selection { start: left, end: left, horiz: None }
        } else {
            Selection { horiz: None, ..s }
        }
    } else {
        let left = min_usize(s.start, s.end);
        Selection { start: left, end: left, horiz: None }
    }
}

/// Moving right: a caret moves to the next grapheme boundary (it stays at
/// the end of the text); a selection collapses to its right end.
pub open spec fn sel_move_right(t: Seq<char>, s: Selection) -> Selection {
    if s.start == s.end {
        if s.start < t.len() {
            let right = next_boundary(t, s.start as int) as usize;
            Selection { start: right, end: right, horiz: None }
        } else {
            Selection { horiz: None, ..s }
        }
    } else {
        let right = max_usize(s.start, s.end);
        Selection { start: right, end: right, horiz: None }
    }
}

/// Extending left: the cursor end moves to the previous grapheme boundary.
pub open spec fn sel_extend_left(t: Seq<char>, s: Selection) -> Selection {
    if s.end > 0 {
        Selection { end: prev_boundary(t, s.end as int) as usize, horiz: None, ..s }
    } else {
        s
    }
}

/// Extending right: the cursor end moves to the next grapheme boundary.
pub open spec fn sel_extend_right(t: Seq<char>, s: Selection) -> Selection {
    if s.end < t.len() {
        Selection { end: next_boundary(t, s.end as int) as usize, horiz: None, ..s }
    } else {
        s
    }
}

/// Where the line of position `c` starts.
pub open spec fn home_of(t: Seq<char>, c: int) -> int {
    line_start(t, line_of(t, c) as int)
}

/// Where the line of position `c` ends: just before the next line's start,
/// or the end of the text on the last line.
pub open spec fn line_end_of(t: Seq<char>, c: int) -> int {
    let line = line_of(t, c);
    if line == num_lines(t) - 1 {
        t.len() as int
    } else {
        line_start(t, line + 1 as int) - 1
    }
}

/// To the start of the line: collapse to where the cursor's line starts.
pub open spec fn sel_line_home(t: Seq<char>, s: Selection, extend: bool) -> Selection {
    let home = home_of(t, s.end as int) as usize;
    if extend {
        Selection { end: home, horiz: None, ..s }
    } else {
        Selection { start: home, end: home, horiz: None }
    }
}

/// To the end of the line: collapse to where the cursor's line ends.
pub open spec fn sel_line_end(t: Seq<char>, s: Selection, extend: bool) -> Selection {
    let end = line_end_of(t, s.end as int) as usize;
    if extend {
        Selection { end: end, horiz: None, ..s }
    } else {
        Selection { start: end, end: end, horiz: None }
    }
}

/// To the start or the end of the document.
pub open spec fn sel_doc_edge(t: Seq<char>, s: Selection, to_end: bool, extend: bool) -> Selection {
    let p = if to_end {
        t.len() as usize
    } else {
        0usize
    };
    if extend {
        Selection { end: p, ..s }
    } else {
        Selection { start: p, end: p, ..s }
    }
}

/// The movements that do not depend on the position of other selections.
#[derive(Copy, Clone, PartialEq, Eq, Structural)]
pub enum Motion {
    Left,
    Right,
    ExtendLeft,
    ExtendRight,
    LineHome,
    LineHomeExtend,
    LineEnd,
    LineEndExtend,
    DocStart,
    DocStartExtend,
    DocEnd,
    DocEndExtend,
}

/// What `m` makes of selection `s` of text `t`.
pub open spec fn sel_motion(t: Seq<char>, m: Motion, s: Selection) -> Selection {
    match m {
        Motion::Left => sel_move_left(t, s),
        Motion::Right => sel_move_right(t, s),
        Motion::ExtendLeft => sel_extend_left(t, s),
        Motion::ExtendRight => sel_extend_right(t, s),
        Motion::LineHome => sel_line_home(t, s, false),
        Motion::LineHomeExtend => sel_line_home(t, s, true),
        Motion::LineEnd => sel_line_end(t, s, false),
        Motion::LineEndExtend => sel_line_end(t, s, true),
        Motion::DocStart => sel_doc_edge(t, s, false, false),
        Motion::DocStartExtend => sel_doc_edge(t, s, false, true),
        Motion::DocEnd => sel_doc_edge(t, s, true, false),
        Motion::DocEndExtend => sel_doc_edge(t, s, true, true),
    }
}

/// Where the line of position `c` starts.
fn line_home(rope: &Rope, c: usize) -> (h: usize)
    requires
        c <= rope_text(*rope).len(),
    ensures
        h == home_of(rope_text(*rope), c as int),
        h <= c,
{
    let t = Ghost(rope_text(*rope));
    let line = rope_char_to_line(rope, c);
    proof {
        lemma_line_of_bound(t@, c as int);
    }
    let h = rope_line_to_char(rope, line);
    proof {
        lemma_line_start_is(t@, line as int, h as int);
        lemma_line_start_before(t@, c as int, h as int);
    }
    h
}

/// Where the line of position `c` ends.
fn line_end(rope: &Rope, c: usize) -> (e: usize)
    requires
        c <= rope_text(*rope).len(),
    ensures
        e == line_end_of(rope_text(*rope), c as int),
        c <= e <= rope_text(*rope).len(),
{
    let t = Ghost(rope_text(*rope));
    let len_lines = rope_len_lines(rope);
    let line = rope_char_to_line(rope, c);
    proof {
        lemma_line_of_bound(t@, c as int);
    }
    if line == len_lines - 1 {
        return rope_len_chars(rope);
    }
    let next_home = rope_line_to_char(rope, line + 1);
    proof {
        lemma_line_start_is(t@, line + 1, next_home as int);
        if next_home <= c {
            crate::rope::lemma_line_of_mono(t@, next_home as int, c as int);
        }
    }
    next_home - 1
}

/// Applies a `Motion` using the text of a rope.
pub struct MotionMap<'a> {
    pub rope: &'a Rope,
    pub motion: Motion,
}

impl<'a> SelectionMap for MotionMap<'a> {
    open spec fn pre(&self, s: Selection) -> bool {
        sel_within(s, rope_text(*self.rope).len() as int)
    }

    open spec fn spec_apply(&self, s: Selection) -> Selection {
        sel_motion(rope_text(*self.rope), self.motion, s)
    }

    open spec fn post(&self, t: Selection) -> bool {
        sel_within(t, rope_text(*self.rope).len() as int)
    }

    fn apply(&self, s: Selection) -> (r: Selection) {
        let rope = self.rope;
        let mut sel = s;
        match self.motion {
            Motion::Left => {
                sel.horiz = None;
                if sel.is_caret() {
                    if sel.start > 0 {
                        let left = prev_grapheme_boundary(rope, sel.start);
                        sel.start = left;
                        sel.end = left;
                    }
                } else {
                    let left = sel.left();
                    sel.start = left;
                    sel.end = left;
                }
            },
            Motion::Right => {
                let len_chars = rope_len_chars(rope);
                sel.horiz = None;
                if sel.is_caret() {
                    if sel.start < len_chars {
                        let right = next_grapheme_boundary(rope, sel.start);
                        sel.start = right;
                        sel.end = right;
                    }
                } else {
                    let right = sel.right();
                    sel.start = right;
                    sel.end = right;
                }
            },
            Motion::ExtendLeft => {
                if sel.end > 0 {
                    let left = prev_grapheme_boundary(rope, sel.end);
                    sel.end = left;
                    sel.horiz = None;
                }
            },
            Motion::ExtendRight => {
                let len_chars = rope_len_chars(rope);
                if sel.end < len_chars {
                    let right = next_grapheme_boundary(rope, sel.end);
                    sel.end = right;
                    sel.horiz = None;
                }
            },
            Motion::LineHome => {
                let home = line_home(rope, sel.cursor());
                sel.start = home;
                sel.end = home;
                sel.horiz = None;
            },
            Motion::LineHomeExtend => {
                let home = line_home(rope, sel.cursor());
                sel.end = home;
                sel.horiz = None;
            },
            Motion::LineEnd => {
                let end = line_end(rope, sel.cursor());
                sel.start = end;
                sel.end = end;
                sel.horiz = None;
            },
            Motion::LineEndExtend => {
                let end = line_end(rope, sel.cursor());
                sel.end = end;
                sel.horiz = None;
            },
            Motion::DocStart => {
                sel.start = 0;
                sel.end = 0;
            },
            Motion::DocStartExtend => {
                sel.end = 0;
            },
            Motion::DocEnd => {
                let end_of_doc = rope_len_chars(rope);
                sel.start = end_of_doc;
                sel.end = end_of_doc;
            },
            Motion::DocEndExtend => {
                let end_of_doc = rope_len_chars(rope);
                sel.end = end_of_doc;
            },
        }
        sel
    }
}

/// The selections after moving those of view `v` by `m` in text `t`.
/// Every end is then moved onto a grapheme boundary (see `snap_view`).
pub open spec fn views_moved(vs: crate::views::ViewSels, t: Seq<char>, v: ViewId, m: Motion) -> crate::views::ViewSels {
    snap_view(set_sels(vs, v, sels_of(vs, v).map_values(|s: Selection| sel_motion(t, m, s))), v, t)
}

impl Buffer {
    /// Moves every selection of a view by `m`.
    fn move_sels(&mut self, view_id: ViewId, m: Motion)
        requires
            old(self).wf(),
        ensures
            final(self).wf(),
            final(self).text() == old(self).text(),
            final(self).same_setup(old(self)),
            final(self).views() == views_moved(old(self).views(), old(self).text(), view_id, m),
            on_boundaries(old(self).views(), old(self).text()) ==> on_boundaries(final(self).views(), final(self).text()),
            sels_of(final(self).views(), view_id).len() == sels_of(old(self).views(), view_id).len(),
    {
        let sels = self.view_sels_vec(view_id);
        let ghost n = self.text().len() as int;
        proof {
            crate::buffer::lemma_sels_of_within(self.views(), view_id, n);
        }
        proof {
            self.lemma_model();
        }
        let map = MotionMap { rope: &self.rope, motion: m };
        assert forall|k: int| 0 <= k < sels@.len() implies map.pre(sels@[k]) by {
            assert(sels_of(self.views(), view_id)[k].start <= n);
        }
        let new_sels = map_selections(&sels, &map);
        assert forall|k: int| 0 <= k < new_sels@.len() implies new_sels@[k] == sel_motion(old(self).text(), m, sels@[k]) by {
        }
        assert(new_sels@ =~= sels@.map_values(|s: Selection| sel_motion(old(self).text(), m, s)));
        proof {
            assert forall|k: int| 0 <= k < new_sels@.len() implies new_sels@[k].start <= n
                && new_sels@[k].end <= n by {
                assert(map.post(new_sels@[k]));
            }
            crate::buffer::lemma_sels_within_set(self.views(), view_id, new_sels@, n);
            lemma_set_sels(self.views(), view_id, new_sels@, view_id);
        }
        let ghost moved = new_sels@;
        self.set_view_sels(view_id, new_sels);
        self.snap_view_sels(view_id);
        proof {
            let vs = old(self).views();
            let t = old(self).text();
            let w = set_sels(vs, view_id, moved);
            let y = sels_of(w, view_id).map_values(|x: Selection| snap_sel(t, x));
            lemma_set_sels(w, view_id, y, view_id);
            lemma_set_sels_twice(vs, view_id, moved, y);
            if on_boundaries(vs, t) {
                lemma_on_boundaries_set(vs, view_id, y, t);
            }
        }
    }

    /// Move the cursor to the left, or collapse selection region to the left.
    pub fn move_left(&mut self, view_id: ViewId)
        requires
            old(self).wf(),
        ensures
            final(self).wf(),
            final(self).text() == old(self).text(),
            final(self).same_setup(old(self)),
            final(self).views() == views_moved(old(self).views(), old(self).text(), view_id, Motion::Left),
            on_boundaries(old(self).views(), old(self).text()) ==> on_boundaries(final(self).views(), final(self).text()),
            sels_of(final(self).views(), view_id).len() == sels_of(old(self).views(), view_id).len(),
    {
        self.move_sels(view_id, Motion::Left)
    }

    /// Move the cursor to the right, or collapse selection region to the right.
    pub fn move_right(&mut self, view_id: ViewId)
        requires
            old(self).wf(),
        ensures
            final(self).wf(),
            final(self).text() == old(self).text(),
            final(self).same_setup(old(self)),
            final(self).views() == views_moved(old(self).views(), old(self).text(), view_id, Motion::Right),
            on_boundaries(old(self).views(), old(self).text()) ==> on_boundaries(final(self).views(), final(self).text()),
            sels_of(final(self).views(), view_id).len() == sels_of(old(self).views(), view_id).len(),
    {
        self.move_sels(view_id, Motion::Right)
    }

    /// Move the cursor left while modifying the selection region.
    pub fn move_left_and_modify_selection(&mut self, view_id: ViewId)
        requires
            old(self).wf(),
        ensures
            final(self).wf(),
            final(self).text() == old(self).text(),
            final(self).same_setup(old(self)),
            final(self).views() == views_moved(old(self).views(), old(self).text(), view_id, Motion::ExtendLeft),
            on_boundaries(old(self).views(), old(self).text()) ==> on_boundaries(final(self).views(), final(self).text()),
            sels_of(final(self).views(), view_id).len() == sels_of(old(self).views(), view_id).len(),
    {
        self.move_sels(view_id, Motion::ExtendLeft)
    }

    /// Move the cursor right while modifying the selection region.
    pub fn move_right_and_modify_selection(&mut self, view_id: ViewId)
        requires
            old(self).wf(),
        ensures
            final(self).wf(),
            final(self).text() == old(self).text(),
            final(self).same_setup(old(self)),
            final(self).views() == views_moved(old(self).views(), old(self).text(), view_id, Motion::ExtendRight),
            on_boundaries(old(self).views(), old(self).text()) ==> on_boundaries(final(self).views(), final(self).text()),
            sels_of(final(self).views(), view_id).len() == sels_of(old(self).views(), view_id).len(),
    {
        self.move_sels(view_id, Motion::ExtendRight)
    }

    /// Move the cursor to the start of its line.
    pub fn move_to_left_end_of_line(&mut self, view_id: ViewId)
        requires
            old(self).wf(),
        ensures
            final(self).wf(),
            final(self).text() == old(self).text(),
            final(self).same_setup(old(self)),
            final(self).views() == views_moved(old(self).views(), old(self).text(), view_id, Motion::LineHome),
            on_boundaries(old(self).views(), old(self).text()) ==> on_boundaries(final(self).views(), final(self).text()),
            sels_of(final(self).views(), view_id).len() == sels_of(old(self).views(), view_id).len(),
    {
        self.move_sels(view_id, Motion::LineHome)
    }

    /// Move the cursor to the start of its line while modifying the selection region.
    pub fn move_to_left_end_of_line_and_modify_selection(&mut self, view_id: ViewId)
        requires
            old(self).wf(),
        ensures
            final(self).wf(),
            final(self).text() == old(self).text(),
            final(self).same_setup(old(self)),
            final(self).views() == views_moved(old(self).views(), old(self).text(), view_id, Motion::LineHomeExtend),
            on_boundaries(old(self).views(), old(self).text()) ==> on_boundaries(final(self).views(), final(self).text()),
            sels_of(final(self).views(), view_id).len() == sels_of(old(self).views(), view_id).len(),
    {
        self.move_sels(view_id, Motion::LineHomeExtend)
    }

    /// Move the cursor to the end of its line.
    pub fn move_to_right_end_of_line(&mut self, view_id: ViewId)
        requires
            old(self).wf(),
        ensures
            final(self).wf(),
            final(self).text() == old(self).text(),
            final(self).same_setup(old(self)),
            final(self).views() == views_moved(old(self).views(), old(self).text(), view_id, Motion::LineEnd),
            on_boundaries(old(self).views(), old(self).text()) ==> on_boundaries(final(self).views(), final(self).text()),
            sels_of(final(self).views(), view_id).len() == sels_of(old(self).views(), view_id).len(),
    {
        self.move_sels(view_id, Motion::LineEnd)
    }

    /// Move the cursor to the end of its line while modifying the selection region.
    pub fn move_to_right_end_of_line_and_modify_selection(&mut self, view_id: ViewId)
        requires
            old(self).wf(),
        ensures
            final(self).wf(),
            final(self).text() == old(self).text(),
            final(self).same_setup(old(self)),
            final(self).views() == views_moved(old(self).views(), old(self).text(), view_id, Motion::LineEndExtend),
            on_boundaries(old(self).views(), old(self).text()) ==> on_boundaries(final(self).views(), final(self).text()),
            sels_of(final(self).views(), view_id).len() == sels_of(old(self).views(), view_id).len(),
    {
        self.move_sels(view_id, Motion::LineEndExtend)
    }

    /// Move the cursor to the start of the text.
    pub fn move_to_beginning_of_document(&mut self, view_id: ViewId)
        requires
            old(self).wf(),
        ensures
            final(self).wf(),
            final(self).text() == old(self).text(),
            final(self).same_setup(old(self)),
            final(self).views() == views_moved(old(self).views(), old(self).text(), view_id, Motion::DocStart),
            on_boundaries(old(self).views(), old(self).text()) ==> on_boundaries(final(self).views(), final(self).text()),
            sels_of(final(self).views(), view_id).len() == sels_of(old(self).views(), view_id).len(),
    {
        self.move_sels(view_id, Motion::DocStart)
    }

    /// Move the cursor to the start of the text while modifying the selection region.
    pub fn move_to_beginning_of_document_and_modify_selection(&mut self, view_id: ViewId)
        requires
            old(self).wf(),
        ensures
            final(self).wf(),
            final(self).text() == old(self).text(),
            final(self).same_setup(old(self)),
            final(self).views() == views_moved(old(self).views(), old(self).text(), view_id, Motion::DocStartExtend),
            on_boundaries(old(self).views(), old(self).text()) ==> on_boundaries(final(self).views(), final(self).text()),
            sels_of(final(self).views(), view_id).len() == sels_of(old(self).views(), view_id).len(),
    {
        self.move_sels(view_id, Motion::DocStartExtend)
    }

    /// Move the cursor to the end of the text.
    pub fn move_to_end_of_document(&mut self, view_id: ViewId)
        requires
            old(self).wf(),
        ensures
            final(self).wf(),
            final(self).text() == old(self).text(),
            final(self).same_setup(old(self)),
            final(self).views() == views_moved(old(self).views(), old(self).text(), view_id, Motion::DocEnd),
            on_boundaries(old(self).views(), old(self).text()) ==> on_boundaries(final(self).views(), final(self).text()),
            sels_of(final(self).views(), view_id).len() == sels_of(old(self).views(), view_id).len(),
    {
        self.move_sels(view_id, Motion::DocEnd)
    }

    /// Move the cursor to the end of the text while modifying the selection region.
    pub fn move_to_end_of_document_and_modify_selection(&mut self, view_id: ViewId)
        requires
            old(self).wf(),
        ensures
            final(self).wf(),
            final(self).text() == old(self).text(),
            final(self).same_setup(old(self)),
            final(self).views() == views_moved(old(self).views(), old(self).text(), view_id, Motion::DocEndExtend),
            on_boundaries(old(self).views(), old(self).text()) ==> on_boundaries(final(self).views(), final(self).text()),
            sels_of(final(self).views(), view_id).len() == sels_of(old(self).views(), view_id).len(),
    {
        self.move_sels(view_id, Motion::DocEndExtend)
    }
}

} // verus!
