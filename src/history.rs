//! Inverse operations: how to take back one change to the store.

use vstd::prelude::*;
use crate::store::{StoreView, TaskStore};
use crate::task::Task;

verus! {

/// A change that takes back an earlier one.
#[derive(Clone, Debug, PartialEq)]
pub enum InverseOp {
    /// Reinsert the given task under its own identifier: undoes a delete.
    Recreate(Task),
    /// Delete the task with this identifier: undoes a create.
    Remove(i32),
    /// Overwrite every field of the task with the same identifier with the
    /// given fields: undoes an update.
    ReinstateFields(Task),
}

impl InverseOp {
    /// Whether the operation can be carried out on `s`.
    pub open spec fn applies(self, s: StoreView) -> bool {
        match self {
            InverseOp::Recreate(t) => 0 < t.id < i32::MAX && !s.contains(t.id),
            InverseOp::Remove(id) => s.contains(id),
            InverseOp::ReinstateFields(t) => s.contains(t.id),
        }
    }

    /// The store once the operation is carried out on `s`.
    pub open spec fn applied_to(self, s: StoreView) -> StoreView {
        match self {
            InverseOp::Recreate(t) => s.with_inserted(t),
            InverseOp::Remove(id) => s.without(id),
            InverseOp::ReinstateFields(t) => s.with_replaced(t),
        }
    }

    /// The operation that takes this one back, from the store before it.
    pub open spec fn inverse_on(self, s: StoreView) -> InverseOp {
        match self {
            InverseOp::Recreate(t) => InverseOp::Remove(t.id),
            InverseOp::Remove(id) => InverseOp::Recreate(s.get(id)),
            InverseOp::ReinstateFields(t) => InverseOp::ReinstateFields(s.get(t.id)),
        }
    }

    /// Carries the operation out and hands back its own inverse; where it
    /// cannot be carried out the store is left as it was.
    pub fn apply(self, store: &mut TaskStore) -> (r: Option<InverseOp>)
        requires
            old(store)@.wf(),
        ensures
            final(store)@.wf(),
            match r {
                Some(inv) => {
                    &&& self.applies(old(store)@)
                    &&& final(store)@ == self.applied_to(old(store)@)
                    &&& inv == self.inverse_on(old(store)@)
                },
                None => !self.applies(old(store)@) && final(store)@ == old(store)@,
            },
    {
        match self {
            InverseOp::Recreate(t) => {
                let id = t.id;
                if store.insert_with_id(t) {
                    Some(InverseOp::Remove(id))
                } else {
                    None
                }
            },
            InverseOp::Remove(id) => match store.remove(id) {
                Some(prev) => Some(InverseOp::Recreate(prev)),
                None => None,
            },
            InverseOp::ReinstateFields(t) => match store.replace(t) {
                Some(prev) => Some(InverseOp::ReinstateFields(prev)),
                None => None,
            },
        }
    }
}

} // verus!
