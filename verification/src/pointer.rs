//! Handles and error kinds shared by every part of the store.

use vstd::prelude::*;

verus! {

/// A weak handle to one slot of a heap.
///
/// The pair identifies a slot for as long as the slot is neither freed nor
/// reused. Holding a pointer does not keep its slot alive; a lookup through a
/// pointer whose slot has since been freed fails instead of reaching whatever
/// took its place.
#[derive(Clone, Copy, Debug, PartialEq, Eq, Hash, Structural)]
pub struct Pointer {
    /// Position of the slot in the arena.
    pub index: usize,
    /// Which occupant of that position the pointer was issued for.
    pub generation: u64,
}

/// A handle into the closure registry, naming the expression a formula
/// re-evaluates. The store passes it along and never looks inside.
#[derive(Clone, Copy, Debug, PartialEq, Eq, Hash, Structural)]
pub struct ClosurePointer {
    pub key: u64,
}

/// A record a renderer attaches to a slot. The store keeps it with the slot
/// and hands it back; only `id` is ever inspected, to find the record again.
#[derive(Clone, Copy, Debug, PartialEq, Eq, Hash, Structural)]
pub struct DynamicProperty {
    /// Identifies the binding among those attached to one slot.
    pub id: u64,
    /// The node of the rendered tree the binding belongs to.
    pub node: u64,
    /// Which property of that node follows the slot.
    pub property: u32,
}

/// Why an operation on the store was refused.
#[derive(Clone, Copy, Debug, PartialEq, Eq, Hash, Structural)]
pub enum LookupError {
    /// The pointer's index was never allocated.
    NotFound,
    /// The index exists, but the pointer's occupant is no longer there.
    Stale,
    /// A plain slot was used where a formula is needed, or the reverse.
    TypeMismatch,
    /// The slot cannot be freed while dependency edges still involve it.
    DanglingDependents,
    /// A formula would depend on itself, or was reached twice in one pass.
    CycleDetected,
}

impl Pointer {
    /// Builds the pointer for a given position and occupant.
    pub fn new(index: usize, generation: u64) -> (p: Pointer)
        ensures
            p == (Pointer { index, generation }),
    {
        Pointer { index, generation }
    }
}

impl ClosurePointer {
    /// Builds the handle for a registry key.
    pub fn new(key: u64) -> (c: ClosurePointer)
        ensures
            c == (ClosurePointer { key }),
    {
        ClosurePointer { key }
    }
}

} // verus!
