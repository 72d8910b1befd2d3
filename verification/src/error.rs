//! Errors reported while building a task graph.

use vstd::prelude::*;

verus! {

/// Failure conditions of graph construction.  No partial fix-up is attempted:
/// a graph that returned one of these should be discarded.
#[derive(Clone, Copy, Debug, PartialEq, Eq, Structural)]
pub enum Error {
    /// A node lookup by index failed; this signals an internal invariant
    /// violation in the caller's use of the graph.
    NodeNotFound,
    /// A newly added pass closed a dependency cycle with the existing passes.
    GraphHasCycle,
    /// Two writers of the same resource identity use it with incompatible,
    /// non-read access modes: either two tasks output one UID with different
    /// write usages, or barrier merging finds consumers of one UID whose
    /// write usages differ.
    IllegalTaskGraph,
}

} // verus!
