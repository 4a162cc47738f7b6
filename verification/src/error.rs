//! Errors of the simulation core. All are fatal to the operation that
//! raised them: a misconfigured scenario is propagated, never skipped.
use vstd::prelude::*;

verus! {

#[derive(Debug, Clone, Copy, PartialEq, Eq, Structural)]
pub enum SimError {
    /// A parent reference names an object absent from the registry.
    UnknownObject,
    /// Transform resolution revisited an object: the parent chain loops.
    CyclicHierarchy,
    /// A configuration's scalar count differs from the registry's size.
    DimensionMismatch,
}

} // verus!
