//! What a buffer tells the rest of the editor.
use vstd::prelude::*;
use crate::views::BufferId;

verus! {

/// A change of a buffer that views and windows hear of.
#[derive(Copy, Clone, Debug, PartialEq, Eq, Structural)]
pub enum BufferUpdate {
    LsInitialized,
    PathChanged(BufferId),
    PristineChanged(BufferId),
}

} // verus!
