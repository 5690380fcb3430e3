//! Membership changes as the driver reads them.

use vstd::prelude::*;

verus! {

/// What a membership change does to its target node.
#[derive(Clone, Copy, Debug, PartialEq, Eq, Structural)]
pub enum ConfChangeType {
    AddNode,
    RemoveNode,
    AddLearnerNode,
}

/// A membership change: the fields of the engine's change record, as plain values.
///
/// `context` carries the address of the target node, written as a length-prefixed string.
#[derive(Clone, Debug, PartialEq, Eq)]
pub struct ConfChange {
    pub id: u64,
    pub change_type: ConfChangeType,
    pub node_id: u64,
    pub context: Vec<u8>,
}

/// The mathematical value of a [`ConfChange`].
pub struct ConfChangeView {
    pub id: u64,
    pub change_type: ConfChangeType,
    pub node_id: u64,
    pub context: Seq<u8>,
}

impl View for ConfChange {
    type V = ConfChangeView;

    open spec fn view(&self) -> ConfChangeView {
        ConfChangeView {
            id: self.id,
            change_type: self.change_type,
            node_id: self.node_id,
            context: self.context@,
        }
    }
}

} // verus!
