//! Undo history: a list of change groups and a position in it.
use vstd::prelude::*;
use ropey::Rope;
use crate::rope::{rope_clone, rope_text};
use crate::selection::Selection;

verus! {

/// One recorded state of a buffer.
pub struct ChangeGroup {
    /// The selections by the editing view immediately before the first edit
    selections_before: Vec<Selection>,
    /// The selections by the editing view immediately after the last edit
    selections_after: Vec<Selection>,
    /// The state of the rope immediately after the last edit
    rope: Rope,
}

/// What a change group records: the text after the change, and the
/// selections before and after it.
pub struct HistoryEntry {
    pub text: Seq<char>,
    pub before: Seq<Selection>,
    pub after: Seq<Selection>,
}

/// The states a buffer went through, and which of them is the current one.
pub struct History {
    history: Vec<ChangeGroup>,
    history_ix: usize,
}

impl ChangeGroup {
    pub closed spec fn entry(self) -> HistoryEntry {
        HistoryEntry {
            text: rope_text(self.rope),
            before: self.selections_before@,
            after: self.selections_after@,
        }
    }
}

impl History {
    /// The recorded states, oldest first.
    pub closed spec fn entries(&self) -> Seq<HistoryEntry> {
        self.history@.map_values(|g: ChangeGroup| g.entry())
    }

    /// The index of the current state.
    pub closed spec fn index(&self) -> int {
        self.history_ix as int
    }

    /// There is at least one state and the index points at one.
    pub open spec fn wf(&self) -> bool {
        0 <= self.index() < self.entries().len()
    }

    /// The text of the current state.
    pub open spec fn current_text(&self) -> Seq<char> {
        self.entries()[self.index()].text
    }

    /// A history whose only state holds the text of `rope`.
    pub fn new(rope: &Rope) -> (h: Self)
        ensures
            h.wf(),
            h.index() == 0,
            h.entries() == seq![
                HistoryEntry { text: rope_text(*rope), before: Seq::empty(), after: Seq::empty() },
            ],
    {
        let cg = ChangeGroup {
            selections_before: Vec::new(),
            selections_after: Vec::new(),
            rope: rope_clone(rope),
        };
        let h = History { history: vec![cg], history_ix: 0 };
        assert(h.entries() =~= seq![cg.entry()]);
        h
    }

    /// Records a new state after the current one; the states that an undo
    /// left behind are dropped.
    pub fn new_change(
        &mut self,
        rope: &Rope,
        selections_before: Vec<Selection>,
        selections_after: Vec<Selection>,
    )
        requires
            old(self).wf(),
        ensures
            final(self).wf(),
            final(self).entries() == old(self).entries().take(old(self).index() + 1).push(
                HistoryEntry {
                    text: rope_text(*rope),
                    before: selections_before@,
                    after: selections_after@,
                },
            ),
            final(self).index() == old(self).index() + 1,
    {
        let cg = ChangeGroup { selections_before, selections_after, rope: rope_clone(rope) };
        let ghost old_history = self.history@;
        assert(self.entries().len() == self.history@.len());
        let n = self.history.len();
        assert(self.history_ix < n);
        self.history.truncate(self.history_ix + 1);
        self.history.push(cg);
        self.history_ix = self.history.len() - 1;
        assert(self.entries() =~= old_history.map_values(|g: ChangeGroup| g.entry()).take(
            old(self).index() + 1,
        ).push(cg.entry()));
    }

    /// Performs an undo.  If an undo action was successfully performed,
    /// returns the text to go back to and where the selection regions should
    /// be changed to.
    pub fn undo(&mut self) -> (r: Option<(Rope, &[Selection])>)
        requires
            old(self).wf(),
        ensures
            final(self).wf(),
            final(self).entries() == old(self).entries(),
            old(self).index() == 0 ==> r is None,
            old(self).index() == 0 ==> final(self).index() == 0,
            old(self).index() > 0 ==> {
                &&& final(self).index() == old(self).index() - 1
                &&& r matches Some((rope, sels)) && rope_text(rope) == old(self).entries()[old(self).index() - 1].text && sels@ == old(self).entries()[old(self).index()].before
            },
    {
        assert(self.entries().len() == self.history@.len());
        if self.history_ix == 0 {
            return None;
        }
        proof {
            assert(self.entries()[self.index()] == self.history@[self.index()].entry());
            assert(self.entries()[self.index() - 1] == self.history@[self.index() - 1].entry());
        }
        self.history_ix = self.history_ix - 1;
        let rope = rope_clone(&self.history[self.history_ix].rope);
        let selections_before = self.history[self.history_ix + 1].selections_before.as_slice();
        Some((rope, selections_before))
    }

    /// Performs a redo.  If a redo action was successfully performed, returns
    /// the text to go forward to and where the selection regions should be
    /// changed to.
    pub fn redo(&mut self) -> (r: Option<(Rope, &[Selection])>)
        requires
            old(self).wf(),
        ensures
            final(self).wf(),
            final(self).entries() == old(self).entries(),
            old(self).index() == old(self).entries().len() - 1 ==> r is None,
            old(self).index() == old(self).entries().len() - 1 ==> final(self).index() == old(self).index(),
            old(self).index() < old(self).entries().len() - 1 ==> {
                &&& final(self).index() == old(self).index() + 1
                &&& r matches Some((rope, sels)) && rope_text(rope) == old(self).entries()[old(self).index() + 1].text && sels@ == old(self).entries()[old(self).index() + 1].after
            },
    {
        assert(self.entries().len() == self.history@.len());
        if self.history_ix >= self.history.len() - 1 {
            return None;
        }
        proof {
            assert(self.entries()[self.index() + 1] == self.history@[self.index() + 1].entry());
        }
        self.history_ix = self.history_ix + 1;
        let rope = rope_clone(&self.history[self.history_ix].rope);
        let selections_after = self.history[self.history_ix].selections_after.as_slice();
        Some((rope, selections_after))
    }
}

} // verus!
