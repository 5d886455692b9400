//! Replies owed to requests that were handed to a handler written in
//! another language.
//!
//! Each request gets the next id; the handler answers by id, and whoever
//! comes first (the answer or the timeout) takes the waiting reply slot.
use vstd::prelude::*;
use std::collections::HashMap;

verus! {

broadcast use vstd::std_specs::hash::group_hash_axioms;

/// Reply slots waiting under the ids their requests were given.
pub struct PendingReplies<T> {
    waiting: HashMap<u64, T>,
    next_id: u64,
}

impl<T> PendingReplies<T> {
    #[verifier::type_invariant]
    spec fn inv(self) -> bool {
        forall|k: u64| #[trigger] self.waiting@.contains_key(k) ==> 0 < k <= self.next_id
    }

    /// The slots still waiting, by id.
    pub closed spec fn waiting(&self) -> Map<u64, T> {
        self.waiting@
    }

    /// The last id handed out (0 before the first).
    pub closed spec fn last_id(&self) -> u64 {
        self.next_id
    }

    /// No slot is waiting and no id has been handed out.
    pub fn new() -> (r: Self)
        ensures
            r.waiting() == Map::<u64, T>::empty(),
            r.last_id() == 0,
    {
        PendingReplies { waiting: HashMap::new(), next_id: 0 }
    }

    /// Files `slot` under the next id and returns that id.
    pub fn open(&mut self, slot: T) -> (id: u64)
        requires
            old(self).last_id() < u64::MAX,
        ensures
            id == old(self).last_id() + 1,
            final(self).last_id() == id,
            !old(self).waiting().contains_key(id),
            final(self).waiting() == old(self).waiting().insert(id, slot),
    {
        proof {
            use_type_invariant(&*self);
        }
        let id = self.next_id + 1;
        let mut waiting = HashMap::new();
        std::mem::swap(&mut waiting, &mut self.waiting);
        waiting.insert(id, slot);
        self.next_id = id;
        self.waiting = waiting;
        id
    }

    /// Takes the slot waiting under `id`, if any; it no longer waits.
    pub fn take(&mut self, id: u64) -> (r: Option<T>)
        ensures
            match r {
                Some(v) => old(self).waiting().contains_key(id) && v == old(self).waiting()[id],
                None => !old(self).waiting().contains_key(id),
            },
            final(self).waiting() == old(self).waiting().remove(id),
            final(self).last_id() == old(self).last_id(),
    {
        proof {
            use_type_invariant(&*self);
        }
        let mut waiting = HashMap::new();
        std::mem::swap(&mut waiting, &mut self.waiting);
        let r = waiting.remove(&id);
        self.waiting = waiting;
        r
    }

    /// How many slots are waiting.
    pub fn len(&self) -> (r: usize)
        ensures
            r == self.waiting().len(),
    {
        self.waiting.len()
    }
}

/// A reply slot is taken once: taking it right after it was filed gives it
/// back, and a second take finds nothing.
pub proof fn law_slot_taken_once<T>(waiting: Map<u64, T>, id: u64, slot: T)
    ensures
        waiting.insert(id, slot).contains_key(id),
        waiting.insert(id, slot)[id] == slot,
        !waiting.insert(id, slot).remove(id).contains_key(id),
{
}

} // verus!
