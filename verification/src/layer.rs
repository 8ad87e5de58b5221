//! Syntax layers: what highlights the text of a buffer.
use vstd::prelude::*;
use ropey::Rope;
use crate::style::Capture;
use crate::rope::rope_text;

verus! {

/// An edit a syntax tree is told of: in the text `text`, the chars
/// `start..old_end` became the chars `start..new_end`.
pub struct TreeEdit {
    pub text: Seq<char>,
    pub start: int,
    pub old_end: int,
    pub new_end: int,
}

/// What a buffer asks of the syntax layer that highlights it.
pub trait Layer {
    /// The capture of a query's capture index, if it is highlighted.
    fn capture(&self, idx: usize) -> Option<Capture>;

    /// The capture of a node of the syntax tree, if it is highlighted.
    fn capture_from_node(&self, id: usize) -> Option<Capture>;

    /// Parses the text again and recomputes the highlights.
    fn update_highlights(&mut self, rope: &Rope);

    /// What the layer keeps of the edits it has been told.
    spec fn kept_edits(&self) -> Seq<TreeEdit>;

    /// What the layer keeps once it is told of `e` as well.
    spec fn kept_edits_after(&self, e: TreeEdit) -> Seq<TreeEdit>;

    /// edit the tree, so tree-sitter can know what changed. All units are in code points.
    fn edit_tree(&mut self, rope: &Rope, start: usize, old_end: usize, new_end: usize)
        ensures
            final(self).kept_edits() == old(self).kept_edits_after(
                (TreeEdit { text: rope_text(*rope), start: start as int, old_end: old_end as int, new_end: new_end as int }),
            ),
    ;

    /// edit the tree, so tree-sitter can know what changed. All units are in code points.
    fn edit_tree_remove(&mut self, rope: &Rope, start: usize, old_end: usize)
        ensures
            final(self).kept_edits() == old(self).kept_edits_after(
                (TreeEdit { text: rope_text(*rope), start: start as int, old_end: old_end as int, new_end: start as int }),
            ),
    {
        self.edit_tree(rope, start, old_end, start);
    }

    /// edit the tree, so tree-sitter can know what changed. All units are in code points.
    fn edit_tree_insert(&mut self, rope: &Rope, start: usize, new_end: usize)
        ensures
            final(self).kept_edits() == old(self).kept_edits_after(
                (TreeEdit { text: rope_text(*rope), start: start as int, old_end: start as int, new_end: new_end as int }),
            ),
    {
        self.edit_tree(rope, start, start, new_end);
    }
}

/// The layer of text in no known language: nothing is highlighted.
#[derive(Debug)]
pub struct NilLayer {}

impl NilLayer {
    pub fn new() -> (l: Self) {
        NilLayer {}
    }
}

impl Layer for NilLayer {
    /// There is no tree: no edit is kept.
    open spec fn kept_edits(&self) -> Seq<TreeEdit> {
        Seq::empty()
    }

    open spec fn kept_edits_after(&self, e: TreeEdit) -> Seq<TreeEdit> {
        Seq::empty()
    }

    fn capture(&self, idx: usize) -> (c: Option<Capture>)
        ensures
            c is None,
    {
        None
    }

    fn capture_from_node(&self, id: usize) -> (c: Option<Capture>)
        ensures
            c is None,
    {
        None
    }

    fn update_highlights(&mut self, rope: &Rope)
        ensures
            *final(self) == *old(self),
    {
    }

    fn edit_tree(&mut self, rope: &Rope, start: usize, old_end: usize, new_end: usize)
        ensures
            *final(self) == *old(self),
    {
    }
}

} // verus!
