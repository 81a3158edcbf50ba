//! A host-side store of values keyed by a monotonic `u64` handle.
//!
//! Engine objects live here; code outside the boundary only ever holds the handle.
use std::collections::HashMap;
use vstd::prelude::*;
use vstd::std_specs::hash::*;

use crate::error::DropletError;

verus! {

broadcast use vstd::std_specs::hash::group_hash_axioms;

/// A store of values of type `T` keyed by handles that are never handed out twice.
pub struct Registry<T> {
    next: u64,
    items: HashMap<u64, T>,
    /// Every handle `insert` has returned so far, held or removed since.
    issued: Ghost<Set<u64>>,
}

impl<T> View for Registry<T> {
    type V = Map<u64, T>;

    /// The values currently held, by handle.
    closed spec fn view(&self) -> Map<u64, T> {
        self.items@
    }
}

impl<T> Registry<T> {
    /// The handle the next `insert` returns.
    pub closed spec fn next_handle(&self) -> u64 {
        self.next
    }

    /// Every handle `insert` has returned over the registry's whole history, including
    /// those removed since.
    pub closed spec fn issued(&self) -> Set<u64> {
        self.issued@
    }

    /// Every held handle was issued, and every issued handle is below the next handle.
    pub open spec fn issued_below(&self) -> bool {
        &&& forall|h: u64| self@.contains_key(h) ==> self.issued().contains(h)
        &&& forall|h: u64| self.issued().contains(h) ==> h < self.next_handle()
    }

    /// Every held handle was issued, and every issued handle is below the counter.
    #[verifier::type_invariant]
    closed spec fn wf(&self) -> bool {
        &&& forall|h: u64| self.items@.contains_key(h) ==> self.issued@.contains(h)
        &&& forall|h: u64| self.issued@.contains(h) ==> h < self.next
    }

    /// An empty registry whose first handle is 0.
    pub fn new() -> (r: Self)
        ensures
            r@ == Map::<u64, T>::empty(),
            r.next_handle() == 0,
            r.issued() == Set::<u64>::empty(),
            r.issued_below(),
    {
        Registry { next: 0, items: HashMap::new(), issued: Ghost(Set::empty()) }
    }

    /// The handle the next `insert` returns; `insert` needs it below `u64::MAX`.
    pub fn next_handle_id(&self) -> (r: u64)
        ensures
            r == self.next_handle(),
    {
        self.next
    }

    /// Store a value and return its fresh handle.
    pub fn insert(&mut self, value: T) -> (id: u64)
        requires
            old(self).next_handle() < u64::MAX,
        ensures
            id == old(self).next_handle(),
            !old(self).issued().contains(id),
            !old(self)@.contains_key(id),
            final(self).issued() == old(self).issued().insert(id),
            final(self).next_handle() == old(self).next_handle() + 1,
            final(self)@ == old(self)@.insert(id, value),
            final(self).issued_below(),
    {
        proof {
            use_type_invariant(&*self);
            assert(obeys_key_model::<u64>());
            assert(builds_valid_hashers::<std::hash::RandomState>());
        }
        let id = self.next;
        let ghost issued = self.issued@;
        let mut items = HashMap::new();
        std::mem::swap(&mut items, &mut self.items);
        items.insert(id, value);
        *self = Registry { next: id + 1, items, issued: Ghost(issued.insert(id)) };
        proof {
            use_type_invariant(&*self);
        }
        id
    }

    /// Borrow the value behind a handle, or `None` if there is none.
    pub fn get(&self, handle: u64) -> (r: Option<&T>)
        ensures
            self.issued_below(),
            r == (if self@.contains_key(handle) { Some(&self@[handle]) } else { None }),
    {
        proof {
            use_type_invariant(self);
            assert(obeys_key_model::<u64>());
            assert(builds_valid_hashers::<std::hash::RandomState>());
        }
        self.items.get(&handle)
    }

    /// Remove and return the owned value behind a handle.
    pub fn remove(&mut self, handle: u64) -> (r: Option<T>)
        ensures
            r == (if old(self)@.contains_key(handle) { Some(old(self)@[handle]) } else { None }),
            final(self)@ == old(self)@.remove(handle),
            final(self).next_handle() == old(self).next_handle(),
            final(self).issued() == old(self).issued(),
            final(self).issued_below(),
    {
        proof {
            use_type_invariant(&*self);
            assert(obeys_key_model::<u64>());
            assert(builds_valid_hashers::<std::hash::RandomState>());
        }
        let mut items = HashMap::new();
        std::mem::swap(&mut items, &mut self.items);
        let r = items.remove(&handle);
        let ghost issued = self.issued@;
        *self = Registry { next: self.next, items, issued: Ghost(issued) };
        proof {
            use_type_invariant(&*self);
        }
        r
    }

    /// Borrow the value behind a handle, turning a miss into `BadHandle(handle)`.
    pub fn require(&self, handle: u64) -> (r: Result<&T, DropletError>)
        ensures
            r == (if self@.contains_key(handle) {
                Ok::<&T, DropletError>(&self@[handle])
            } else {
                Err::<&T, DropletError>(DropletError::BadHandle(handle))
            }),
    {
        match self.get(handle) {
            Some(v) => Ok(v),
            None => Err(DropletError::BadHandle(handle)),
        }
    }
}

impl<T> Default for Registry<T> {
    /// An empty registry, as `new` gives.
    fn default() -> (r: Self)
        ensures
            r@ == Map::<u64, T>::empty(),
            r.next_handle() == 0,
            r.issued() == Set::<u64>::empty(),
            r.issued_below(),
    {
        Self::new()
    }
}

/// The next handle is fresh: no handle the registry has ever returned, held or removed
/// since, equals it, so `insert` never overwrites a value.
pub proof fn law_next_handle_is_fresh<T>(r: &Registry<T>)
    requires
        r.issued_below(),
    ensures
        !r.issued().contains(r.next_handle()),
        !r@.contains_key(r.next_handle()),
{
    if r@.contains_key(r.next_handle()) {
        assert(r.issued().contains(r.next_handle()));
    }
}

/// Handles are never handed out twice: every handle returned so far, even one removed since,
/// is below the next handle, and each later insert returns a handle at least that large.
pub proof fn law_handles_never_reissued<T>(r: &Registry<T>, h: u64, later: u64)
    requires
        r.issued_below(),
        r.issued().contains(h),
        r.next_handle() <= later,
    ensures
        h < r.next_handle(),
        h != later,
{
}

/// Reading back what was stored: after `insert` returns `id`, `get(id)` is the value.
pub proof fn law_insert_then_get<T>(before: Map<u64, T>, id: u64, value: T)
    ensures
        before.insert(id, value).contains_key(id),
        before.insert(id, value)[id] == value,
{
}

/// After `remove(h)`, the handle is gone and every other handle keeps its value.
pub proof fn law_remove_then_get<T>(before: Map<u64, T>, h: u64, other: u64)
    requires
        other != h,
    ensures
        !before.remove(h).contains_key(h),
        before.remove(h).contains_key(other) == before.contains_key(other),
        before.contains_key(other) ==> before.remove(h)[other] == before[other],
{
}

} // verus!
