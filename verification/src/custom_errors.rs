use vstd::prelude::*;

verus! {

/// Errors surfaced by the entity-component store.
#[derive(Debug, Clone, Copy, PartialEq, Eq, Structural)]
pub enum CustomError {
    /// A column is missing an entry that a slot should have: the
    /// column/slot-count synchronization invariant was broken. Unreachable
    /// through this crate's operations, which keep every column
    /// length-synchronized with the presence-mask sequence.
    CreateComponentNeverCalled,
    /// A component type referenced in an attach, detach or query was never
    /// registered.
    ComponentNotRegistered,
    /// An entity slot id was out of range on deletion.
    EntityDoesNotExist,
}

} // verus!
