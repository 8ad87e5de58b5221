//! A text buffer: the text, the selections of every view into it, and its
//! undo history.  `remove` and `insert_at` are the two base edits; every
//! other edit is made of them.
use vstd::prelude::*;
use ropey::Rope;
use crate::history::History;
use crate::line_ending::{LineEnding, ending_chars, normalized};
use crate::range::Range;
use crate::rope::{rope_text, rope_len_chars, rope_insert, rope_remove};
use crate::selection::Selection;
use crate::views::{
    ViewId, BufferId, ViewSels, map_sels, sels_within, is_view_at, has_view, view_pos, sels_of,
    set_sels, ensure_view, lemma_map_sels, lemma_set_sels, lemma_view_pos, lemma_some_view,
};
use crate::rope::{rope_new, rope_from_str};
use crate::history::HistoryEntry;
use crate::graphemes::{
    next_boundary, prev_boundary, next_grapheme_boundary, prev_grapheme_boundary, at_boundary, snap_point,
    segmented, lemma_snap_point, snap_position, text_graphemes, cluster_of, lemma_cluster_exists,
    gboundary, lemma_gboundary_end,
};
use crate::rope::grapheme_lens;

verus! {

/// The selections of one view.
pub struct ViewSelections {
    pub view: ViewId,
    pub sels: Vec<Selection>,
}

/// The text of a buffer and the selections of its views, as the contracts
/// of the editing operations see them.
pub struct EditState {
    pub text: Seq<char>,
    pub views: ViewSels,
}

pub open spec fn entries_of(v: Seq<ViewSelections>) -> ViewSels {
    v.map_values(|e: ViewSelections| (e.view, e.sels@))
}

/// Where a point ends up when `r` is removed: points inside the removal
/// collapse to its start, points after it shift left.
pub open spec fn point_after_remove(p: usize, r: Range) -> usize {
    if r.start <= p && p < r.end {
        r.start
    } else if p >= r.end {
        (p - (r.end - r.start)) as usize
    } else {
        p
    }
}

pub open spec fn sel_after_remove(s: Selection, r: Range) -> Selection {
    Selection {
        start: point_after_remove(s.start, r),
        end: point_after_remove(s.end, r),
        horiz: s.horiz,
    }
}

/// Where a point ends up when `n` chars are inserted at `at`: points at or
/// after the insertion shift right.
pub open spec fn point_after_insert(p: usize, at: usize, n: nat) -> usize {
    if p >= at {
        (p + n) as usize
    } else {
        p
    }
}

pub open spec fn sel_after_insert(s: Selection, at: usize, n: nat) -> Selection {
    Selection {
        start: point_after_insert(s.start, at, n),
        end: point_after_insert(s.end, at, n),
        horiz: s.horiz,
    }
}

/// The state after removing the chars of `r`.
pub open spec fn state_remove(st: EditState, r: Range) -> EditState {
    if r.start == r.end {
        st
    } else {
        EditState {
            text: st.text.take(r.start as int) + st.text.skip(r.end as int),
            views: map_sels(st.views, |s: Selection| sel_after_remove(s, r)),
        }
    }
}

/// The state after inserting `ins` (already normalised) at `at`.
pub open spec fn state_insert(st: EditState, at: usize, ins: Seq<char>) -> EditState {
    EditState {
        text: st.text.take(at as int) + ins + st.text.skip(at as int),
        views: map_sels(st.views, |s: Selection| sel_after_insert(s, at, ins.len())),
    }
}

/// A change applied to each selection of a list.
pub trait SelectionMap {
    /// When the change can be applied to `s`.
    spec fn pre(&self, s: Selection) -> bool;

    /// What the change makes of `s`.
    spec fn spec_apply(&self, s: Selection) -> Selection;

    /// What holds of every result.
    spec fn post(&self, t: Selection) -> bool;

    fn apply(&self, s: Selection) -> (t: Selection)
        requires
            self.pre(s),
        ensures
            t == self.spec_apply(s),
            self.post(t),
    ;
}

/// Shifting selections for the removal of a range.
pub struct RemoveShift {
    pub range: Range,
}

impl SelectionMap for RemoveShift {
    open spec fn pre(&self, s: Selection) -> bool {
        self.range.start <= self.range.end
    }

    open spec fn spec_apply(&self, s: Selection) -> Selection {
        sel_after_remove(s, self.range)
    }

    open spec fn post(&self, t: Selection) -> bool {
        true
    }

    fn apply(&self, s: Selection) -> (t: Selection) {
        exec_sel_after_remove(s, self.range)
    }
}

/// Shifting selections for the insertion of `n` chars at `at` into a text
/// of `limit` chars.
pub struct InsertShift {
    pub at: usize,
    pub n: usize,
    pub limit: usize,
}

impl SelectionMap for InsertShift {
    open spec fn pre(&self, s: Selection) -> bool {
        s.start <= self.limit && s.end <= self.limit && self.limit + self.n <= usize::MAX
    }

    open spec fn spec_apply(&self, s: Selection) -> Selection {
        sel_after_insert(s, self.at, self.n as nat)
    }

    open spec fn post(&self, t: Selection) -> bool {
        true
    }

    fn apply(&self, s: Selection) -> (t: Selection) {
        exec_sel_after_insert(s, self.at, self.n, self.limit)
    }
}

pub struct Buffer {
    pub(crate) id: BufferId,
    pub(crate) rope: Rope,
    pub(crate) history: History,
    pub(crate) selections: Vec<ViewSelections>,
    pub(crate) line_ending: LineEnding,
    pub(crate) tab_size: usize,
}

/// A selection of text `t` with both ends moved onto grapheme boundaries
/// (see `snap_point`).
pub open spec fn snap_sel(t: Seq<char>, s: Selection) -> Selection {
    Selection { start: snap_point(t, s.start), end: snap_point(t, s.end), horiz: s.horiz }
}

/// Every selection of every view snapped onto grapheme boundaries of `t`.
pub open spec fn snap_all(vs: ViewSels, t: Seq<char>) -> ViewSels {
    map_sels(vs, |s: Selection| snap_sel(t, s))
}

/// The selections of view `v` snapped onto grapheme boundaries of `t`.
pub open spec fn snap_view(vs: ViewSels, v: ViewId, t: Seq<char>) -> ViewSels {
    set_sels(vs, v, sels_of(vs, v).map_values(|s: Selection| snap_sel(t, s)))
}

/// The state with every selection snapped onto grapheme boundaries.
pub open spec fn snap_state(st: EditState) -> EditState {
    EditState { text: st.text, views: snap_all(st.views, st.text) }
}

/// Both ends of every selection of every view lie on grapheme boundaries of
/// `t`.
pub open spec fn on_boundaries(vs: ViewSels, t: Seq<char>) -> bool {
    forall|i: int, k: int|
        0 <= i < vs.len() && 0 <= k < vs[i].1.len() ==> at_boundary(t, #[trigger] vs[i].1[k].start as int)
            && at_boundary(t, vs[i].1[k].end as int)
}

/// Snapping the selections onto the grapheme boundaries of a text split as
/// `lens`.
pub struct SnapMap {
    pub lens: Vec<usize>,
    pub text: Ghost<Seq<char>>,
}

impl SelectionMap for SnapMap {
    open spec fn pre(&self, s: Selection) -> bool {
        &&& s.start <= self.text@.len()
        &&& s.end <= self.text@.len()
        &&& self.lens@ == grapheme_lens(self.text@)
        &&& segmented(self.text@)
        &&& self.text@.len() <= usize::MAX
    }

    open spec fn spec_apply(&self, s: Selection) -> Selection {
        snap_sel(self.text@, s)
    }

    open spec fn post(&self, t: Selection) -> bool {
        &&& at_boundary(self.text@, t.start as int)
        &&& at_boundary(self.text@, t.end as int)
        &&& t.start <= self.text@.len()
        &&& t.end <= self.text@.len()
    }

    fn apply(&self, s: Selection) -> (t: Selection) {
        let start = snap_position(&self.lens, Ghost(self.text@), s.start);
        let end = snap_position(&self.lens, Ghost(self.text@), s.end);
        Selection { start, end, horiz: s.horiz }
    }
}

/// Setting a view's selections to ones on boundaries keeps every selection
/// on boundaries.
pub proof fn lemma_on_boundaries_set(vs: ViewSels, v: ViewId, s: Seq<Selection>, t: Seq<char>)
    requires
        on_boundaries(vs, t),
        forall|k: int| 0 <= k < s.len() ==> at_boundary(t, s[k].start as int) && at_boundary(t, s[k].end as int),
    ensures
        on_boundaries(set_sels(vs, v, s), t),
{
    let ws = set_sels(vs, v, s);
    assert forall|i: int, k: int| 0 <= i < ws.len() && 0 <= k < ws[i].1.len() implies at_boundary(t, #[trigger] ws[i].1[k].start as int)
        && at_boundary(t, ws[i].1[k].end as int) by {
        if has_view(vs, v) && i == view_pos(vs, v) {
            assert(ws[i].1 == s);
            assert(at_boundary(t, s[k].start as int));
        } else if !has_view(vs, v) && i == vs.len() {
            assert(ws[i].1 == s);
            assert(at_boundary(t, s[k].start as int));
        } else {
            assert(ws[i] == vs[i]);
            assert(at_boundary(t, vs[i].1[k].start as int));
        }
    }
}

/// Applies `f` to every selection of `v`.
pub(crate) fn map_selections<M: SelectionMap>(v: &Vec<Selection>, m: &M) -> (r: Vec<Selection>)
    requires
        forall|i: int| 0 <= i < v@.len() ==> m.pre(v@[i]),
    ensures
        r@ == v@.map_values(|s: Selection| m.spec_apply(s)),
        forall|i: int| 0 <= i < r@.len() ==> m.post(r@[i]),
{
    let ghost g = |s: Selection| m.spec_apply(s);
    let mut r: Vec<Selection> = Vec::new();
    let mut k: usize = 0;
    while k < v.len()
        invariant
            k <= v@.len(),
            forall|i: int| 0 <= i < v@.len() ==> m.pre(v@[i]),
            g == (|s: Selection| m.spec_apply(s)),
            r@ == v@.take(k as int).map_values(g),
            forall|i: int| 0 <= i < r@.len() ==> m.post(r@[i]),
        decreases v@.len() - k,
    {
        let t = m.apply(v[k]);
        r.push(t);
        assert(v@.take(k + 1).map_values(g) =~= v@.take(k as int).map_values(g).push(g(v@[k as int])));
        k = k + 1;
    }
    assert(v@.take(v@.len() as int) =~= v@);
    r
}

/// A copy of a list of selections.
pub(crate) fn copy_selections(v: &Vec<Selection>) -> (r: Vec<Selection>)
    ensures
        r@ == v@,
{
    let mut r: Vec<Selection> = Vec::new();
    let mut k: usize = 0;
    while k < v.len()
        invariant
            k <= v@.len(),
            r@ == v@.take(k as int),
        decreases v@.len() - k,
    {
        r.push(v[k]);
        assert(v@.take(k + 1) =~= v@.take(k as int).push(v@[k as int]));
        k = k + 1;
    }
    assert(v@.take(v@.len() as int) =~= v@);
    r
}

fn exec_sel_after_remove(s: Selection, r: Range) -> (t: Selection)
    requires
        r.start <= r.end,
    ensures
        t == sel_after_remove(s, r),
{
    let size = r.end - r.start;
    let mut t = s;
    if r.contains(s.start) {
        t.start = r.start;
    } else if s.start >= r.end {
        t.start = s.start - size;
    }
    if r.contains(s.end) {
        t.end = r.start;
    } else if s.end >= r.end {
        t.end = s.end - size;
    }
    t
}

fn exec_sel_after_insert(s: Selection, at: usize, n: usize, limit: usize) -> (t: Selection)
    requires
        s.start <= limit,
        s.end <= limit,
        limit + n <= usize::MAX,
    ensures
        t == sel_after_insert(s, at, n as nat),
{
    let mut t = s;
    if s.start >= at {
        t.start = s.start + n;
    }
    if s.end >= at {
        t.end = s.end + n;
    }
    t
}

impl Buffer {
    /// The text of the buffer.
    pub closed spec fn text(&self) -> Seq<char> {
        rope_text(self.rope)
    }

    /// The selections of every view.
    pub closed spec fn views(&self) -> ViewSels {
        entries_of(self.selections@)
    }

    /// The undo history.
    pub closed spec fn hist(&self) -> History {
        self.history
    }

    pub closed spec fn spec_tab_size(&self) -> usize {
        self.tab_size
    }

    pub closed spec fn spec_line_ending(&self) -> LineEnding {
        self.line_ending
    }

    pub closed spec fn spec_id(&self) -> BufferId {
        self.id
    }

    /// What the text and the selections are made of.
    pub(crate) proof fn lemma_model(&self)
        ensures
            self.text() == rope_text(self.rope),
            self.views() == entries_of(self.selections@),
            self.spec_tab_size() == self.tab_size,
            self.spec_line_ending() == self.line_ending,
            self.hist() == self.history,
            self.spec_id() == self.id,
    {
    }

    /// The text and the selections together.
    pub open spec fn state(&self) -> EditState {
        EditState { text: self.text(), views: self.views() }
    }

    /// The history has a current state, the tab width is positive, and every
    /// selection lies within the text.
    pub open spec fn wf(&self) -> bool {
        &&& self.hist().wf()
        &&& self.spec_tab_size() > 0
        &&& sels_within(self.views(), self.text().len() as int)
    }

    /// Nothing but the text and the selections changed.
    pub open spec fn same_setup(&self, other: &Buffer) -> bool {
        &&& self.hist() == other.hist()
        &&& self.spec_tab_size() == other.spec_tab_size()
        &&& self.spec_line_ending() == other.spec_line_ending()
        &&& self.spec_id() == other.spec_id()
    }

    /// Applies `f` to every selection of every view.
    pub(crate) fn map_all_selections<M: SelectionMap>(&mut self, m: &M)
        requires
            forall|i: int, k: int|
                0 <= i < old(self).views().len() && 0 <= k < old(self).views()[i].1.len()
                    ==> m.pre(#[trigger] old(self).views()[i].1[k]),
        ensures
            final(self).views() == map_sels(old(self).views(), |s: Selection| m.spec_apply(s)),
            final(self).text() == old(self).text(),
            final(self).same_setup(old(self)),
    {
        let mut all: Vec<ViewSelections> = Vec::new();
        let mut i: usize = 0;
        let ghost vs = self.views();
        let ghost g = |s: Selection| m.spec_apply(s);
        while i < self.selections.len()
            invariant
                i <= self.selections@.len(),
                vs == entries_of(self.selections@),
                self.text() == old(self).text(),
                self.same_setup(old(self)),
                self.views() == old(self).views(),
                forall|i: int, k: int|
                    0 <= i < vs.len() && 0 <= k < vs[i].1.len() ==> m.pre(#[trigger] vs[i].1[k]),
                g == (|s: Selection| m.spec_apply(s)),
                entries_of(all@) == map_sels(vs, g).take(i as int),
            decreases self.selections@.len() - i,
        {
            let e = &self.selections[i];
            assert(vs[i as int] == (e.view, e.sels@));
            assert forall|k: int| 0 <= k < e.sels@.len() implies m.pre(e.sels@[k]) by {
                assert(vs[i as int].1[k] == e.sels@[k]);
            }
            let ns = map_selections(&e.sels, m);
            assert(ns@ =~= e.sels@.map_values(g));
            let ghost prev = all@;
            all.push(ViewSelections { view: e.view, sels: ns });
            assert(map_sels(vs, g)[i as int] == (e.view, e.sels@.map_values(g)));
            assert(entries_of(all@) =~= entries_of(prev).push((e.view, ns@)));
            assert(entries_of(all@) =~= map_sels(vs, g).take(i + 1));
            i = i + 1;
        }
        assert(map_sels(vs, g).take(vs.len() as int) =~= map_sels(vs, g));
        self.selections = all;
    }

    /// Removes a range of text from the buffer.  Selection points inside the
    /// removed range collapse to its start, points after it shift left, in
    /// every view.  `remove` and `insert_at` are the two base methods that all
    /// edits eventually call.
    pub fn remove(&mut self, char_range: Range)
        requires
            char_range.start <= char_range.end <= old(self).text().len(),
        ensures
            final(self).state() == state_remove(old(self).state(), char_range),
            final(self).same_setup(old(self)),
            old(self).wf() ==> final(self).wf(),
    {
        if char_range.start == char_range.end {
            return;
        }
        rope_remove(&mut self.rope, char_range.start, char_range.end);
        let m = RemoveShift { range: char_range };
        let ghost g = |s: Selection| m.spec_apply(s);
        self.map_all_selections(&m);
        assert(g =~= (|s: Selection| sel_after_remove(s, char_range)));
        proof {
            let n = old(self).text().len() as int;
            let vs = old(self).views();
            let ws = self.views();
            assert(ws == map_sels(vs, g));
            if old(self).wf() {
                assert forall|i: int, k: int|
                    0 <= i < ws.len() && 0 <= k < ws[i].1.len() implies #[trigger] ws[i].1[k].start
                    <= self.text().len() && ws[i].1[k].end <= self.text().len() by {
                    assert(ws[i].1[k] == g(vs[i].1[k]));
                    assert(vs[i].1[k].start <= n);
                }
            }
        }
    }

    /// Inserts `text`, normalised to the buffer's line ending, at a char
    /// index.  Selection points at or after the index shift right, in every
    /// view.  `remove` and `insert_at` are the two base methods that all edits
    /// eventually call; they move points by counts of chars alone, and the
    /// editing commands built on them put the points back onto grapheme
    /// boundaries.
    pub fn insert_at(&mut self, char_idx: usize, text: &str)
        requires
            old(self).wf(),
            char_idx <= old(self).text().len(),
        ensures
            final(self).state() == state_insert(
                old(self).state(),
                char_idx,
                normalized(text@, ending_chars(old(self).spec_line_ending())),
            ),
            final(self).same_setup(old(self)),
            final(self).wf(),
    {
        let text = self.line_ending.normalize(text);
        let ghost ins = text@;
        let old_len = rope_len_chars(&self.rope);
        rope_insert(&mut self.rope, char_idx, text.as_str());
        let new_len = rope_len_chars(&self.rope);
        let size = text.as_str().unicode_len();
        assert(new_len == old_len + size);
        let m = InsertShift { at: char_idx, n: size, limit: old_len };
        let ghost g = |s: Selection| m.spec_apply(s);
        self.map_all_selections(&m);
        proof {
            let vs = old(self).views();
            let ws = self.views();
            assert forall|i: int, k: int|
                0 <= i < ws.len() && 0 <= k < ws[i].1.len() implies #[trigger] ws[i].1[k].start
                <= self.text().len() && ws[i].1[k].end <= self.text().len() by {
                assert(ws[i].1[k] == g(vs[i].1[k]));
                assert(vs[i].1[k].start <= old_len);
            }
            assert(g =~= (|s: Selection| sel_after_insert(s, char_idx, ins.len())));
        }
    }
}


/// Removing the chars just inserted gives back the text and every selection
/// of every view, when the selections lay within the text.
pub proof fn lemma_remove_reverts_insert(st: EditState, at: usize, ins: Seq<char>)
    requires
        at <= st.text.len(),
        sels_within(st.views, st.text.len() as int),
        st.text.len() + ins.len() <= usize::MAX,
    ensures
        state_remove(
            state_insert(st, at, ins),
            Range { start: at, end: (at + ins.len()) as usize },
        ) == st,
{
    let r = Range { start: at, end: (at + ins.len()) as usize };
    let st1 = state_insert(st, at, ins);
    let st2 = state_remove(st1, r);
    let n = st.text.len() as int;
    assert(st2.text =~= st.text);
    assert forall|i: int| 0 <= i < st.views.len() implies st2.views[i] == st.views[i] by {
        let e = st.views[i];
        assert forall|k: int| 0 <= k < e.1.len() implies st2.views[i].1[k] == e.1[k] by {
            assert(st.views[i].1[k].start <= n);
        }
        assert(st2.views[i].1 =~= e.1);
    }
    assert(st2.views =~= st.views);
}

/// Removing keeps where each view's selections are and how many there are.
pub proof fn lemma_state_remove_views(st: EditState, r: Range, v: ViewId)
    ensures
        has_view(state_remove(st, r).views, v) == has_view(st.views, v),
        sels_of(state_remove(st, r).views, v).len() == sels_of(st.views, v).len(),
{
    if r.start != r.end {
        lemma_map_sels(st.views, |s: Selection| sel_after_remove(s, r), v);
    }
}

/// Inserting keeps where each view's selections are and how many there are.
pub proof fn lemma_state_insert_views(st: EditState, at: usize, ins: Seq<char>, v: ViewId)
    ensures
        has_view(state_insert(st, at, ins).views, v) == has_view(st.views, v),
        sels_of(state_insert(st, at, ins).views, v).len() == sels_of(st.views, v).len(),
{
    lemma_map_sels(st.views, |s: Selection| sel_after_insert(s, at, ins.len()), v);
}

/// The state after removing, one after the other, what the first `k`
/// selections of view `v` select.  Each selection is read after the
/// removals before it have shifted it.
pub open spec fn remove_selected(st: EditState, v: ViewId, k: nat) -> EditState
    decreases k,
{
    if k == 0 {
        st
    } else {
        let prev = remove_selected(st, v, (k - 1) as nat);
        state_remove(prev, sels_of(prev.views, v)[k - 1].spec_range())
    }
}

/// The state after inserting `ins` at the cursors of the first `k`
/// selections of view `v`, one after the other.
pub open spec fn insert_at_cursors(st: EditState, v: ViewId, ins: Seq<char>, k: nat) -> EditState
    decreases k,
{
    if k == 0 {
        st
    } else {
        let prev = insert_at_cursors(st, v, ins, (k - 1) as nat);
        state_insert(prev, sels_of(prev.views, v)[k - 1].end, ins)
    }
}

/// The state with view `v` given an empty list of selections if it had none.
pub open spec fn with_view(st: EditState, v: ViewId) -> EditState {
    EditState { text: st.text, views: ensure_view(st.views, v) }
}

/// Typing `ins` (already normalised) in view `v`: every selection is
/// removed, then `ins` goes in at every cursor.
pub open spec fn state_type(st: EditState, v: ViewId, ins: Seq<char>) -> EditState {
    let s0 = with_view(st, v);
    let n = sels_of(s0.views, v).len();
    insert_at_cursors(remove_selected(s0, v, n), v, ins, n)
}

impl Buffer {
    /// An empty buffer with no views.
    pub fn new(id: BufferId) -> (b: Buffer)
        ensures
            b.wf(),
            b.text() == Seq::<char>::empty(),
            b.views() == Seq::<(ViewId, Seq<Selection>)>::empty(),
            b.hist().index() == 0,
            b.hist().entries() == seq![
                crate::history::HistoryEntry {
                    text: Seq::<char>::empty(),
                    before: Seq::empty(),
                    after: Seq::empty(),
                },
            ],
            b.spec_tab_size() == 8,
            b.spec_line_ending() == LineEnding::LF,
            b.spec_id() == id,
            on_boundaries(b.views(), b.text()),
    {
        let rope = rope_new();
        let history = History::new(&rope);
        let b = Buffer {
            id,
            rope,
            history,
            selections: Vec::new(),
            line_ending: LineEnding::LF,
            tab_size: 8,
        };
        assert(b.views() =~= Seq::<(ViewId, Seq<Selection>)>::empty());
        b
    }

    /// A buffer holding `text` as it is (a file's contents), with no views.
    pub fn from_text(id: BufferId, text: &str) -> (b: Buffer)
        ensures
            b.wf(),
            b.text() == text@,
            b.views() == Seq::<(ViewId, Seq<Selection>)>::empty(),
            b.hist().index() == 0,
            b.hist().entries() == seq![
                crate::history::HistoryEntry { text: text@, before: Seq::empty(), after: Seq::empty() },
            ],
            b.spec_tab_size() == 8,
            b.spec_line_ending() == LineEnding::LF,
            b.spec_id() == id,
            on_boundaries(b.views(), b.text()),
    {
        let rope = rope_from_str(text);
        let history = History::new(&rope);
        let b = Buffer {
            id,
            rope,
            history,
            selections: Vec::new(),
            line_ending: LineEnding::LF,
            tab_size: 8,
        };
        assert(b.views() =~= Seq::<(ViewId, Seq<Selection>)>::empty());
        b
    }

    /// Where the selections of view `v` are kept, if it has any.
    pub(crate) fn find_view(&self, v: ViewId) -> (r: Option<usize>)
        ensures
            r matches Some(p) ==> is_view_at(self.views(), v, p as int),
            r is None ==> !has_view(self.views(), v),
    {
        let mut i: usize = 0;
        while i < self.selections.len()
            invariant
                i <= self.selections@.len(),
                forall|j: int| 0 <= j < i ==> self.views()[j].0 != v,
            decreases self.selections@.len() - i,
        {
            if self.selections[i].view == v {
                assert(self.views()[i as int].0 == v);
                return Some(i);
            }
            assert(self.views()[i as int].0 == self.selections@[i as int].view);
            i = i + 1;
        }
        proof {
            if has_view(self.views(), v) {
                let p = view_pos(self.views(), v);
                assert(self.views()[p].0 == v);
            }
        }
        None
    }

    /// The selections of view `v`, copied.
    pub(crate) fn view_sels_vec(&self, v: ViewId) -> (r: Vec<Selection>)
        ensures
            r@ == sels_of(self.views(), v),
    {
        match self.find_view(v) {
            Some(p) => {
                proof {
                    lemma_view_pos(self.views(), v, p as int);
                }
                copy_selections(&self.selections[p].sels)
            },
            None => Vec::new(),
        }
    }

    /// Sets the selections of view `v` (as a map insert would).
    pub(crate) fn set_view_sels(&mut self, v: ViewId, sels: Vec<Selection>)
        ensures
            final(self).views() == set_sels(old(self).views(), v, sels@),
            final(self).text() == old(self).text(),
            final(self).same_setup(old(self)),
    {
        let ghost s = sels@;
        match self.find_view(v) {
            Some(p) => {
                proof {
                    lemma_view_pos(self.views(), v, p as int);
                }
                self.selections.set(p, ViewSelections { view: v, sels });
                assert(self.views() =~= old(self).views().update(p as int, (v, s)));
            },
            None => {
                self.selections.push(ViewSelections { view: v, sels });
                assert(self.views() =~= old(self).views().push((v, s)));
            },
        }
    }

    /// Makes sure view `v` has a (possibly empty) list of selections, and
    /// says where it is.
    pub(crate) fn ensure_view_slot(&mut self, v: ViewId) -> (p: usize)
        ensures
            final(self).views() == ensure_view(old(self).views(), v),
            is_view_at(final(self).views(), v, p as int),
            final(self).text() == old(self).text(),
            final(self).same_setup(old(self)),
    {
        match self.find_view(v) {
            Some(p) => p,
            None => {
                let p = self.selections.len();
                self.selections.push(ViewSelections { view: v, sels: Vec::new() });
                assert(self.views() =~= old(self).views().push((v, Seq::<Selection>::empty())));
                assert forall|j: int| 0 <= j < p implies self.views()[j].0 != v by {
                    if self.views()[j].0 == v {
                        lemma_some_view(old(self).views(), v, j);
                    }
                }
                p
            },
        }
    }

    /// The `k`th selection of the view kept at `p`.
    pub(crate) fn sel_at(&self, p: usize, k: usize) -> (s: Selection)
        requires
            p < self.views().len(),
            k < self.views()[p as int].1.len(),
        ensures
            s == self.views()[p as int].1[k as int],
    {
        assert(self.views()[p as int] == (self.selections@[p as int].view, self.selections@[p as int].sels@));
        self.selections[p].sels[k]
    }

    /// Moves both ends of every selection of every view onto a grapheme
    /// boundary: an end inside a grapheme goes to the grapheme's end.
    pub(crate) fn snap_all_views(&mut self)
        requires
            old(self).wf(),
        ensures
            final(self).wf(),
            final(self).text() == old(self).text(),
            final(self).same_setup(old(self)),
            final(self).views() == snap_all(old(self).views(), old(self).text()),
            on_boundaries(final(self).views(), final(self).text()),
    {
        proof {
            self.lemma_model();
        }
        let ghost t = self.text();
        let lens = text_graphemes(&self.rope);
        let m = SnapMap { lens, text: Ghost(t) };
        assert forall|i: int, k: int|
            0 <= i < self.views().len() && 0 <= k < self.views()[i].1.len() implies m.pre(
            #[trigger] self.views()[i].1[k]) by {
            assert(self.views()[i].1[k].start <= t.len());
        }
        let ghost g = |s: Selection| m.spec_apply(s);
        self.map_all_selections(&m);
        assert(g =~= (|s: Selection| snap_sel(t, s)));
        proof {
            let vs = old(self).views();
            let ws = self.views();
            assert forall|i: int, k: int| 0 <= i < ws.len() && 0 <= k < ws[i].1.len() implies #[trigger] ws[i].1[k].start <= t.len()
                && ws[i].1[k].end <= t.len() && at_boundary(t, ws[i].1[k].start as int) && at_boundary(t, ws[i].1[k].end as int) by {
                assert(ws[i].1[k] == snap_sel(t, vs[i].1[k]));
                assert(vs[i].1[k].start <= t.len());
                lemma_snap_point(t, vs[i].1[k].start);
                lemma_snap_point(t, vs[i].1[k].end);
            }
        }
    }

    /// Moves both ends of every selection of view `v` onto a grapheme
    /// boundary, as `snap_all_views` does for all views.
    pub(crate) fn snap_view_sels(&mut self, v: ViewId)
        requires
            old(self).wf(),
        ensures
            final(self).wf(),
            final(self).text() == old(self).text(),
            final(self).same_setup(old(self)),
            final(self).views() == snap_view(old(self).views(), v, old(self).text()),
            forall|k: int| 0 <= k < sels_of(final(self).views(), v).len() ==> at_boundary(final(self).text(), #[trigger] sels_of(final(self).views(), v)[k].start as int)
                && at_boundary(final(self).text(), sels_of(final(self).views(), v)[k].end as int),
            on_boundaries(old(self).views(), old(self).text()) ==> on_boundaries(final(self).views(), final(self).text()),
    {
        proof {
            self.lemma_model();
            lemma_sels_of_within(self.views(), v, self.text().len() as int);
        }
        let ghost t = self.text();
        let sels = self.view_sels_vec(v);
        let lens = text_graphemes(&self.rope);
        let m = SnapMap { lens, text: Ghost(t) };
        let new_sels = map_selections(&sels, &m);
        assert(new_sels@ =~= sels@.map_values(|s: Selection| snap_sel(t, s)));
        proof {
            assert forall|k: int| 0 <= k < new_sels@.len() implies new_sels@[k].start <= t.len()
                && new_sels@[k].end <= t.len() by {
                assert(m.post(new_sels@[k]));
            }
            lemma_sels_within_set(self.views(), v, new_sels@, t.len() as int);
            assert forall|k: int| 0 <= k < new_sels@.len() implies at_boundary(t, new_sels@[k].start as int)
                && at_boundary(t, new_sels@[k].end as int) by {
                assert(m.post(new_sels@[k]));
            }
            if on_boundaries(self.views(), t) {
                lemma_on_boundaries_set(self.views(), v, new_sels@, t);
            }
            lemma_set_sels(self.views(), v, new_sels@, v);
        }
        self.set_view_sels(v, new_sels);
    }

    /// Gives view `v` a single caret at the start of the text.
    pub fn init_view(&mut self, view_id: ViewId)
        requires
            old(self).wf(),
        ensures
            final(self).wf(),
            final(self).views() == set_sels(old(self).views(), view_id, seq![Selection::new_spec()]),
            final(self).text() == old(self).text(),
            final(self).same_setup(old(self)),
            on_boundaries(old(self).views(), old(self).text()) ==> on_boundaries(final(self).views(), final(self).text()),
    {
        let mut v: Vec<Selection> = Vec::new();
        v.push(Selection { start: 0, end: 0, horiz: None });
        self.set_view_sels(view_id, v);
        proof {
            lemma_sels_within_set(old(self).views(), view_id, seq![Selection::new_spec()], old(self).text().len() as int);
            if on_boundaries(old(self).views(), old(self).text()) {
                lemma_on_boundaries_set(old(self).views(), view_id, seq![Selection::new_spec()], old(self).text());
            }
        }
    }

    /// Whether view `view_id` has a list of selections (possibly empty).
    pub fn has_selections(&self, view_id: ViewId) -> (b: bool)
        ensures
            b == has_view(self.views(), view_id),
    {
        self.find_view(view_id).is_some()
    }

    /// The selections of a view.  The view must have been initialised.
    pub fn selections(&self, view_id: ViewId) -> (r: &[Selection])
        requires
            has_view(self.views(), view_id),
        ensures
            r@ == sels_of(self.views(), view_id),
    {
        match self.find_view(view_id) {
            Some(p) => {
                proof {
                    lemma_view_pos(self.views(), view_id, p as int);
                }
                self.selections[p].sels.as_slice()
            },
            None => {
                proof {
                    assert(false);
                }
                &[]
            },
        }
    }
}

/// The selections of one view lie within the text when all do.
pub proof fn lemma_sels_of_within(vs: ViewSels, v: ViewId, n: int)
    requires
        sels_within(vs, n),
    ensures
        forall|k: int| 0 <= k < sels_of(vs, v).len() ==> #[trigger] sels_of(vs, v)[k].start <= n
            && sels_of(vs, v)[k].end <= n,
{
    if has_view(vs, v) {
        let p = view_pos(vs, v);
        assert forall|k: int| 0 <= k < sels_of(vs, v).len() implies #[trigger] sels_of(vs, v)[k].start <= n
            && sels_of(vs, v)[k].end <= n by {
            assert(vs[p].1[k].start <= n);
        }
    }
}

/// Setting a view's selections to ones within the text keeps all selections
/// within the text.
pub proof fn lemma_sels_within_set(vs: ViewSels, v: ViewId, s: Seq<Selection>, n: int)
    requires
        sels_within(vs, n),
        forall|k: int| 0 <= k < s.len() ==> s[k].start <= n && s[k].end <= n,
    ensures
        sels_within(set_sels(vs, v, s), n),
{
    let ws = set_sels(vs, v, s);
    assert forall|i: int, k: int| 0 <= i < ws.len() && 0 <= k < ws[i].1.len() implies #[trigger] ws[i].1[k].start <= n
        && ws[i].1[k].end <= n by {
        if has_view(vs, v) && i == view_pos(vs, v) {
        } else if !has_view(vs, v) && i == vs.len() {
        } else {
            assert(ws[i] == vs[i]);
        }
    }
}


/// What deleting forward removes for selection `s` of text `t`: the
/// grapheme after a caret (nothing at the end of the text), or the selected
/// chars.
pub open spec fn forward_range(t: Seq<char>, s: Selection) -> Range {
    if s.start == s.end {
        if s.end < t.len() {
            Range { start: s.end, end: next_boundary(t, s.start as int) as usize }
        } else {
            Range { start: s.end, end: s.end }
        }
    } else {
        s.spec_range()
    }
}

/// What deleting backward removes for selection `s` of text `t`: the
/// grapheme before a caret (nothing at the start of the text), or the
/// selected chars.
pub open spec fn backward_range(t: Seq<char>, s: Selection) -> Range {
    if s.start == s.end {
        if s.end != 0 {
            Range { start: prev_boundary(t, s.start as int) as usize, end: s.end }
        } else {
            Range { start: s.end, end: s.end }
        }
    } else {
        s.spec_range()
    }
}

/// The state after deleting (forward or backward) at the first `k`
/// selections of view `v`, one after the other.
pub open spec fn delete_at_sels(st: EditState, v: ViewId, k: nat, forward: bool) -> EditState
    decreases k,
{
    if k == 0 {
        st
    } else {
        let prev = delete_at_sels(st, v, (k - 1) as nat, forward);
        let sel = sels_of(prev.views, v)[k - 1];
        state_remove(
            prev,
            if forward {
                forward_range(prev.text, sel)
            } else {
                backward_range(prev.text, sel)
            },
        )
    }
}

/// Deleting at every selection of view `v`.
pub open spec fn state_delete(st: EditState, v: ViewId, forward: bool) -> EditState {
    let s0 = with_view(st, v);
    delete_at_sels(s0, v, sels_of(s0.views, v).len(), forward)
}

/// In a view whose one selection is a caret, backspace removes the
/// grapheme cluster just before the caret (at least one char) and leaves
/// the caret where that cluster began; delete removes the cluster just
/// after the caret and leaves the caret in place.
pub proof fn lemma_delete_at_caret(st: EditState, v: ViewId, s: Selection)
    requires
        sels_of(st.views, v) == seq![s],
        s.start == s.end,
        s.end <= st.text.len(),
        st.text.len() <= usize::MAX,
        segmented(st.text),
    ensures
        ({
            let t = st.text;
            let c = s.end as int;
            let back = state_delete(st, v, false);
            let p = prev_boundary(t, c);
            c > 0 ==> {
                &&& 0 <= p < c
                &&& back.text == t.take(p) + t.skip(c)
                &&& sels_of(back.views, v).len() == 1
                &&& sels_of(back.views, v)[0].start == p
                &&& sels_of(back.views, v)[0].end == p
            }
        }),
        ({
            let t = st.text;
            let c = s.end as int;
            let fwd = state_delete(st, v, true);
            let q = next_boundary(t, c);
            c < t.len() ==> {
                &&& c < q <= t.len()
                &&& fwd.text == t.take(c) + t.skip(q)
                &&& sels_of(fwd.views, v).len() == 1
                &&& sels_of(fwd.views, v)[0].start == c
                &&& sels_of(fwd.views, v)[0].end == c
            }
        }),
{
    let t = st.text;
    let c = s.end as int;
    let lens = grapheme_lens(t);
    assert(has_view(st.views, v)) by {
        if !has_view(st.views, v) {
            assert(sels_of(st.views, v).len() == 0);
        }
    }
    let s0 = with_view(st, v);
    assert(s0 == st);
    assert(lens.take(0) =~= Seq::<usize>::empty());
    lemma_gboundary_end(lens);
    if c > 0 {
        assert(lens.len() > 0) by {
            if lens.len() == 0 {
                assert(lens =~= lens.take(0));
            }
        }
        lemma_cluster_exists(lens, c - 1, 0);
        let k = choose|k: int| #[trigger] cluster_of(lens, c - 1, k);
        let p = prev_boundary(t, c);
        assert(p == gboundary(lens, k));
        let r = backward_range(t, s);
        assert(r == Range { start: p as usize, end: s.end });
        assert(delete_at_sels(s0, v, 0, false) == s0);
        assert(state_delete(st, v, false) == state_remove(st, r));
        let g = |x: Selection| sel_after_remove(x, r);
        lemma_map_sels(st.views, g, v);
    }
    if c < t.len() {
        assert(lens.len() > 0) by {
            if lens.len() == 0 {
                assert(lens =~= lens.take(0));
            }
        }
        lemma_cluster_exists(lens, c, 0);
        let k = choose|k: int| #[trigger] cluster_of(lens, c, k);
        let q = next_boundary(t, c);
        assert(q == gboundary(lens, k + 1));
        crate::graphemes::lemma_gboundary_mono(lens, k + 1, lens.len() as int);
        let r = forward_range(t, s);
        assert(r == Range { start: s.end, end: q as usize });
        assert(delete_at_sels(s0, v, 0, true) == s0);
        assert(state_delete(st, v, true) == state_remove(st, r));
        let g = |x: Selection| sel_after_remove(x, r);
        lemma_map_sels(st.views, g, v);
    }
}

/// Deleting, forward (delete) or backward (backspace), in a view whose one
/// selection is not a caret removes exactly the selected chars, whichever
/// way round the selection runs, and leaves a caret where they began.
pub proof fn lemma_delete_removes_selection(st: EditState, v: ViewId, s: Selection, forward: bool)
    requires
        sels_of(st.views, v) == seq![s],
        s.start != s.end,
    ensures
        ({
            let lo = if s.start < s.end { s.start } else { s.end };
            let hi = if s.start < s.end { s.end } else { s.start };
            let after = state_delete(st, v, forward);
            &&& after.text == st.text.take(lo as int) + st.text.skip(hi as int)
            &&& sels_of(after.views, v).len() == 1
            &&& sels_of(after.views, v)[0].start == lo
            &&& sels_of(after.views, v)[0].end == lo
        }),
{
    let lo = if s.start < s.end { s.start } else { s.end };
    let hi = if s.start < s.end { s.end } else { s.start };
    let s0 = with_view(st, v);
    assert(has_view(st.views, v)) by {
        if !has_view(st.views, v) {
            assert(sels_of(st.views, v).len() == 0);
        }
    }
    assert(s0 == st);
    let r = if forward { forward_range(st.text, s) } else { backward_range(st.text, s) };
    assert(r == Range { start: lo, end: hi });
    assert(delete_at_sels(s0, v, 0, forward) == s0);
    assert(state_delete(st, v, forward) == state_remove(st, r));
    let g = |x: Selection| sel_after_remove(x, r);
    lemma_map_sels(st.views, g, v);
}

/// The history after recording the current text of `b` as a change made
/// by view `v`, whose selections were `before`.
pub open spec fn recorded(h: History, text: Seq<char>, before: Seq<Selection>, after: Seq<Selection>) -> Seq<HistoryEntry> {
    h.entries().take(h.index() + 1).push(HistoryEntry { text, before, after })
}

/// `after` is `before` with an edit by view `v` recorded in the history: the
/// states that an undo left behind are dropped, and the new text comes after
/// the current state, with the view's selections from before and after the
/// edit.
pub open spec fn records_edit(before: Buffer, after: Buffer, v: ViewId) -> bool {
    &&& after.hist().entries() == recorded(
        before.hist(),
        after.text(),
        sels_of(before.views(), v),
        sels_of(after.views(), v),
    )
    &&& after.hist().index() == before.hist().index() + 1
}

impl Buffer {
    /// The position of a view that has selections.
    pub(crate) fn slot_of(&self, v: ViewId) -> (p: usize)
        requires
            has_view(self.views(), v),
        ensures
            is_view_at(self.views(), v, p as int),
            p == view_pos(self.views(), v),
            self.views()[p as int].1 == sels_of(self.views(), v),
    {
        match self.find_view(v) {
            Some(p) => {
                proof {
                    lemma_view_pos(self.views(), v, p as int);
                }
                p
            },
            None => {
                proof {
                    assert(false);
                }
                0
            },
        }
    }

    /// Insert text at every selection location in a view: each selection is
    /// replaced by the text, normalised to the buffer's line ending.  Where
    /// the text joins a neighbouring grapheme cluster, the selection points
    /// of every view are then moved onto the next cluster boundary.  The
    /// change is recorded in the history.
    pub fn insert(&mut self, view_id: ViewId, text: &str)
        requires
            old(self).wf(),
        ensures
            final(self).wf(),
            final(self).state() == snap_state(
                state_type(
                    old(self).state(),
                    view_id,
                    normalized(text@, ending_chars(old(self).spec_line_ending())),
                ),
            ),
            on_boundaries(final(self).views(), final(self).text()),
            sels_of(final(self).views(), view_id).len() == sels_of(old(self).views(), view_id).len(),
            records_edit(*old(self), *final(self), view_id),
            final(self).spec_tab_size() == old(self).spec_tab_size(),
            final(self).spec_line_ending() == old(self).spec_line_ending(),
            final(self).spec_id() == old(self).spec_id(),
    {
        let sels_before = self.view_sels_vec(view_id);
        let p = self.ensure_view_slot(view_id);
        proof {
            lemma_view_pos(self.views(), view_id, p as int);
            crate::views::lemma_ensure_view(old(self).views(), view_id);
        }
        let n = self.selections[p].sels.len();
        assert(n == sels_of(old(self).views(), view_id).len());
        let ghost s0 = self.state();
        let ghost ins = normalized(text@, ending_chars(self.line_ending));
        let ghost h0 = self.history;
        assert(s0 == with_view(old(self).state(), view_id));
        assert(sels_of(s0.views, view_id).len() == n);
        let mut i: usize = 0;
        while i < n
            invariant
                i <= n,
                self.wf(),
                self.state() == remove_selected(s0, view_id, i as nat),
                has_view(self.views(), view_id),
                sels_of(self.views(), view_id).len() == n,
                has_view(s0.views, view_id),
                sels_of(s0.views, view_id).len() == n,
                self.history == h0,
                self.line_ending == old(self).line_ending,
                self.tab_size == old(self).tab_size,
                self.id == old(self).id,
            decreases n - i,
        {
            let q = self.slot_of(view_id);
            let sel = self.sel_at(q, i);
            let ghost before = self.state();
            let r = sel.range();
            self.remove(r);
            proof {
                lemma_state_remove_views(before, r, view_id);
            }
            i = i + 1;
        }
        let ghost s1 = self.state();
        i = 0;
        while i < n
            invariant
                i <= n,
                self.wf(),
                self.state() == insert_at_cursors(s1, view_id, ins, i as nat),
                has_view(self.views(), view_id),
                sels_of(self.views(), view_id).len() == n,
                has_view(s1.views, view_id),
                sels_of(s1.views, view_id).len() == n,
                ins == normalized(text@, ending_chars(self.line_ending)),
                self.history == h0,
                self.line_ending == old(self).line_ending,
                self.tab_size == old(self).tab_size,
                self.id == old(self).id,
            decreases n - i,
        {
            let q = self.slot_of(view_id);
            let sel = self.sel_at(q, i);
            let ghost before = self.state();
            self.insert_at(sel.cursor(), text);
            proof {
                lemma_state_insert_views(before, sel.end, ins, view_id);
            }
            i = i + 1;
        }
        let ghost pre_snap = self.state();
        assert(pre_snap == state_type(old(self).state(), view_id, ins));
        proof {
            lemma_map_sels(self.views(), |x: Selection| snap_sel(self.text(), x), view_id);
        }
        self.snap_all_views();
        let sels_after = self.view_sels_vec(view_id);
        self.history.new_change(&self.rope, sels_before, sels_after);
    }

    /// Insert a newline at every selection point of a view.
    pub fn insert_newline(&mut self, view_id: ViewId)
        requires
            old(self).wf(),
        ensures
            final(self).wf(),
            final(self).state() == snap_state(
                state_type(
                    old(self).state(),
                    view_id,
                    normalized(seq!['\n'], ending_chars(old(self).spec_line_ending())),
                ),
            ),
            on_boundaries(final(self).views(), final(self).text()),
            sels_of(final(self).views(), view_id).len() == sels_of(old(self).views(), view_id).len(),
            records_edit(*old(self), *final(self), view_id),
            final(self).spec_tab_size() == old(self).spec_tab_size(),
            final(self).spec_line_ending() == old(self).spec_line_ending(),
            final(self).spec_id() == old(self).spec_id(),
    {
        proof {
            reveal_strlit("\n");
        }
        assert("\n"@ =~= seq!['\n']);
        self.insert(view_id, "\n")
    }

    /// Insert a tab at every selection point of a view.
    pub fn insert_tab(&mut self, view_id: ViewId)
        requires
            old(self).wf(),
        ensures
            final(self).wf(),
            final(self).state() == snap_state(
                state_type(
                    old(self).state(),
                    view_id,
                    normalized(seq!['\t'], ending_chars(old(self).spec_line_ending())),
                ),
            ),
            on_boundaries(final(self).views(), final(self).text()),
            sels_of(final(self).views(), view_id).len() == sels_of(old(self).views(), view_id).len(),
            records_edit(*old(self), *final(self), view_id),
            final(self).spec_tab_size() == old(self).spec_tab_size(),
            final(self).spec_line_ending() == old(self).spec_line_ending(),
            final(self).spec_id() == old(self).spec_id(),
    {
        proof {
            reveal_strlit("\t");
        }
        assert("\t"@ =~= seq!['\t']);
        self.insert(view_id, "\t")
    }

    /// Deletes at every selection of a view: the grapheme after (or before)
    /// a caret, or the selected chars.  The change is recorded in the history.
    fn delete(&mut self, view_id: ViewId, forward: bool)
        requires
            old(self).wf(),
        ensures
            final(self).wf(),
            final(self).state() == snap_state(state_delete(old(self).state(), view_id, forward)),
            on_boundaries(final(self).views(), final(self).text()),
            sels_of(final(self).views(), view_id).len() == sels_of(old(self).views(), view_id).len(),
            records_edit(*old(self), *final(self), view_id),
            final(self).spec_tab_size() == old(self).spec_tab_size(),
            final(self).spec_line_ending() == old(self).spec_line_ending(),
            final(self).spec_id() == old(self).spec_id(),
    {
        let sels_before = self.view_sels_vec(view_id);
        let p = self.ensure_view_slot(view_id);
        proof {
            lemma_view_pos(self.views(), view_id, p as int);
            crate::views::lemma_ensure_view(old(self).views(), view_id);
        }
        let n = self.selections[p].sels.len();
        assert(n == sels_of(old(self).views(), view_id).len());
        let ghost s0 = self.state();
        let ghost h0 = self.history;
        let mut i: usize = 0;
        while i < n
            invariant
                i <= n,
                self.wf(),
                self.state() == delete_at_sels(s0, view_id, i as nat, forward),
                has_view(self.views(), view_id),
                sels_of(self.views(), view_id).len() == n,
                has_view(s0.views, view_id),
                sels_of(s0.views, view_id).len() == n,
                self.history == h0,
                self.line_ending == old(self).line_ending,
                self.tab_size == old(self).tab_size,
                self.id == old(self).id,
            decreases n - i,
        {
            let q = self.slot_of(view_id);
            let sel = self.sel_at(q, i);
            let ghost before = self.state();
            let ghost r = if forward {
                forward_range(before.text, sel)
            } else {
                backward_range(before.text, sel)
            };
            let len_chars = rope_len_chars(&self.rope);
            if sel.is_caret() {
                if forward {
                    if sel.cursor() < len_chars {
                        let end = next_grapheme_boundary(&self.rope, sel.start);
                        self.remove(Range { start: sel.cursor(), end });
                    }
                } else {
                    if sel.cursor() != 0 {
                        let start = prev_grapheme_boundary(&self.rope, sel.start);
                        self.remove(Range { start, end: sel.cursor() });
                    }
                }
            } else {
                self.remove(sel.range());
            }
            proof {
                lemma_state_remove_views(before, r, view_id);
            }
            i = i + 1;
        }
        let ghost pre_snap = self.state();
        assert(pre_snap == state_delete(old(self).state(), view_id, forward));
        proof {
            lemma_map_sels(self.views(), |x: Selection| snap_sel(self.text(), x), view_id);
        }
        self.snap_all_views();
        let sels_after = self.view_sels_vec(view_id);
        self.history.new_change(&self.rope, sels_before, sels_after);
    }

    /// Delete the character after the cursor, or the highlighted region.  This
    /// is normally what happens when the delete key is pressed.
    pub fn delete_forward(&mut self, view_id: ViewId)
        requires
            old(self).wf(),
        ensures
            final(self).wf(),
            final(self).state() == snap_state(state_delete(old(self).state(), view_id, true)),
            on_boundaries(final(self).views(), final(self).text()),
            sels_of(final(self).views(), view_id).len() == sels_of(old(self).views(), view_id).len(),
            records_edit(*old(self), *final(self), view_id),
            final(self).spec_tab_size() == old(self).spec_tab_size(),
            final(self).spec_line_ending() == old(self).spec_line_ending(),
            final(self).spec_id() == old(self).spec_id(),
    {
        self.delete(view_id, true)
    }

    /// Delete the character before the cursor, or the highlighted region.  This
    /// is normally what happens when the backspace key is pressed.
    pub fn delete_backward(&mut self, view_id: ViewId)
        requires
            old(self).wf(),
        ensures
            final(self).wf(),
            final(self).state() == snap_state(state_delete(old(self).state(), view_id, false)),
            on_boundaries(final(self).views(), final(self).text()),
            sels_of(final(self).views(), view_id).len() == sels_of(old(self).views(), view_id).len(),
            records_edit(*old(self), *final(self), view_id),
            final(self).spec_tab_size() == old(self).spec_tab_size(),
            final(self).spec_line_ending() == old(self).spec_line_ending(),
            final(self).spec_id() == old(self).spec_id(),
    {
        self.delete(view_id, false)
    }
}

} // verus!
