//! The lifecycle state attached to every replicated item, and the capability
//! interface a replicated collection needs from its items.

use vstd::prelude::*;

verus! {

/// Lifecycle state of an item inside a replicated collection, relative to the
/// last known authoritative state.
#[derive(Clone, Copy, Debug, PartialEq, Eq, Structural, Hash)]
pub enum ItemState {
    /// Created locally since the last successful synchronization (client
    /// side only; server items are always created as `Unchanged`).
    New,
    /// Marked for deletion but not yet physically deleted (client side only;
    /// the server deletes immediately).
    Removed,
    /// No pending local mutation.
    Unchanged,
}

/// Capability interface of items held in a replicated collection: reading and
/// writing the identifier and the lifecycle state, and nothing else.
pub trait SyncItem: Sized {
    /// The lifecycle state of the item.
    spec fn spec_state(&self) -> ItemState;

    /// The identifier of the item.
    spec fn spec_id(&self) -> u64;

    /// The item with its lifecycle state replaced and all else kept.
    spec fn with_state(&self, state: ItemState) -> Self;

    /// The item with its identifier replaced and all else kept.
    spec fn with_id(&self, id: u64) -> Self;

    /// `with_state` and `with_id` each replace exactly the field they name.
    proof fn lemma_with(&self, state: ItemState, id: u64)
        ensures
            self.with_state(state).spec_state() == state,
            self.with_state(state).spec_id() == self.spec_id(),
            self.with_id(id).spec_id() == id,
            self.with_id(id).spec_state() == self.spec_state(),
            self.with_id(self.spec_id()) == *self,
            self.with_state(self.spec_state()) == *self,
            self.with_state(state).with_id(id) == self.with_id(id).with_state(state),
            self.with_state(state).with_state(state) == self.with_state(state),
            self.with_id(id).with_id(id) == self.with_id(id);

    /// The lifecycle state of the item.
    fn state(&self) -> (s: ItemState)
        ensures
            s == self.spec_state();

    /// Sets the lifecycle state of the item.
    fn set_state(&mut self, state: ItemState)
        ensures
            *final(self) == old(self).with_state(state);

    /// The identifier of the item.
    fn id(&self) -> (i: u64)
        ensures
            i == self.spec_id();

    /// Sets the identifier of the item.
    fn set_id(&mut self, id: u64)
        ensures
            *final(self) == old(self).with_id(id);
}

} // verus!
