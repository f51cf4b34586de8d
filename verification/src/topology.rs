//! Identities of remote nodes in the overlay.

use vstd::prelude::*;

verus! {

/// Opaque identifier of a remote node; equality and hashing are all the
/// peer map needs of it.
#[derive(Clone, Copy, Debug, PartialEq, Eq, Hash, Structural)]
pub struct NodeId(pub u64);

/// A remote node as propagation targets name it.
#[derive(Clone, Copy, Debug, PartialEq, Eq, Structural)]
pub struct Node {
    pub id: NodeId,
}

impl Node {
    pub fn new(id: NodeId) -> (n: Node)
        ensures
            n.id == id,
    {
        Node { id }
    }

    pub fn id(&self) -> (id: NodeId)
        ensures
            id == self.id,
    {
        self.id
    }
}

} // verus!
