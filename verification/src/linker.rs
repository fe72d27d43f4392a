//! The linker. It finds no dependencies yet.

use crate::hir;
use vstd::prelude::*;

verus! {

/// Finds what functions depend on.
pub struct Linker {}

impl Linker {
    /// What `function` depends on.
    pub fn deps(&self, function: &hir::Function) -> Deps {
        Deps {  }
    }
}

/// What a function depends on.
pub struct Deps {}

impl Deps {
    /// The globals that are depended on: none.
    pub fn globals(&self) -> (globals: Vec<&hir::Global>)
        ensures
            globals@.len() == 0,
    {
        Vec::new()
    }

    /// The functions that are depended on: none.
    pub fn functions(&self) -> (functions: Vec<&hir::Function>)
        ensures
            functions@.len() == 0,
    {
        Vec::new()
    }
}

} // verus!
