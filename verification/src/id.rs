//! Stable node identifiers, usable as side-table keys.

use vstd::prelude::*;

verus! {

/// A stable identifier for an AST node, unique within a parsed module.
#[derive(Debug, Clone, Copy, PartialEq, Eq, Hash, PartialOrd, Ord)]
pub struct NodeId(pub u32);

impl NodeId {
    /// The raw index.
    pub fn index(self) -> (i: u32)
        ensures
            i == self.0,
    {
        self.0
    }
}

} // verus!
