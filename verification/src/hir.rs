//! The high-level intermediate representation. Only its shapes exist yet.

use std::collections::HashMap;
use std::sync::Arc;
use vstd::prelude::*;

verus! {

/// The nodes of a program, by their ids.
pub struct Hir {
    nodes: HashMap<NodeId, Arc<Node>>,
}

/// The id of a node.
#[derive(Debug, Clone, Copy, PartialEq, Eq, PartialOrd, Ord, Hash)]
pub struct NodeId(pub u64);

/// A node with its id.
pub struct Node {
    pub id: NodeId,
    pub kind: NodeKind,
}

/// What a node is.
pub enum NodeKind {
    Function(Function),
}

/// A function.
pub struct Function {}

/// A module as the ids of its items.
pub struct Module {
    items: Vec<NodeId>,
}

impl Module {
    /// The number of items of the module.
    pub closed spec fn len(&self) -> nat {
        self.items@.len()
    }

    /// A module without items.
    pub fn empty() -> (module: Module)
        ensures
            module.len() == 0,
    {
        Module { items: Vec::new() }
    }
}

/// A global.
pub struct Global {}

impl Global {
    /// The name of the type of the global.
    pub fn type_identifier(&self) -> (name: &str)
        ensures
            name@ == "i32"@,
    {
        "i32"
    }

    /// An identifier that is globally unique.
    pub fn unique_identifier(&self) -> (name: &str)
        ensures
            name@ == "xxx"@,
    {
        "xxx"
    }
}

} // verus!
