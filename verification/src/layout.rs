//! Identities of panes in the layout.
use vstd::prelude::*;

verus! {

/// Identifier of a pane inside a workspace's layout.
#[derive(Debug, Clone, Copy, PartialEq, Eq, Hash, Structural)]
pub struct PaneId {
    pub raw: u32,
}

impl PaneId {
    /// The pane with the given raw number.
    pub fn from_raw(raw: u32) -> (r: PaneId)
        ensures
            r.raw == raw,
    {
        PaneId { raw }
    }

    /// The pane's raw number.
    pub fn raw(&self) -> (r: u32)
        ensures
            r == self.raw,
    {
        self.raw
    }
}

} // verus!
