//! The transport registry: a table mapping opaque handles to caller-supplied
//! transport implementations.
//!
//! The native engine reaches a transport only through a handle, so the
//! registry is the single point of translation.  Handles are minted from a
//! counter that only grows: a handle is unique for the lifetime of its
//! registration and is never reused while present — in fact never reused at
//! all.  The registry is an explicit, injectable object rather than ambient
//! process state, so one can be constructed per session group or per test;
//! a process-wide instance is a matter for the embedding, which may guard it
//! with a single lock over the map operations.

use std::collections::HashMap;
use vstd::prelude::*;

verus! {

broadcast use vstd::std_specs::hash::group_hash_axioms;

/// A table of transport bindings keyed by opaque handles.
pub struct Registry<T> {
    next_handle: u64,
    table: HashMap<u64, T>,
}

impl<T> Registry<T> {
    /// The bindings currently registered.
    pub closed spec fn view(&self) -> Map<u64, T> {
        self.table@
    }

    /// All handles ever minted lie below this bound; it only grows, so no
    /// handle is ever minted twice.
    pub closed spec fn handle_bound(&self) -> u64 {
        self.next_handle
    }

    /// Every registered handle was minted, hence lies below the bound.
    pub closed spec fn wf(&self) -> bool {
        &&& forall|h: u64| self@.contains_key(h) ==> h < self.next_handle
        &&& vstd::std_specs::hash::obeys_key_model::<u64>()
    }

    /// An empty registry.
    pub fn new() -> (r: Registry<T>)
        ensures
            r.wf(),
            r@ == Map::<u64, T>::empty(),
            r.handle_bound() == 0,
    {
        Registry { next_handle: 0, table: HashMap::new() }
    }

    /// Registers a transport under a freshly minted handle and returns the
    /// handle.  The handle is new: it is bound to nothing before this call,
    /// and no earlier or later registration mints the same one.
    pub fn set_dt_impl(&mut self, dt_impl: T) -> (h: u64)
        requires
            old(self).wf(),
            old(self).handle_bound() < u64::MAX,
        ensures
            final(self).wf(),
            h == old(self).handle_bound(),
            !old(self)@.contains_key(h),
            final(self)@ == old(self)@.insert(h, dt_impl),
            final(self).handle_bound() == old(self).handle_bound() + 1,
    {
        let h = self.next_handle;
        self.next_handle = self.next_handle + 1;
        self.table.insert(h, dt_impl);
        proof {
            assert forall|k: u64| self@.contains_key(k) implies k < self.next_handle by {
                if k != h {
                    assert(old(self)@.contains_key(k));
                }
            }
        }
        h
    }

    /// Whether a handle is currently registered.
    pub fn contains(&self, h: u64) -> (r: bool)
        requires
            self.wf(),
        ensures
            r == self@.contains_key(h),
    {
        self.table.contains_key(&h)
    }

    /// Resolves a handle to the transport registered under it.  Resolving a
    /// handle that is not registered is native-engine misuse; callers that
    /// cannot rule it out must test `contains` first and fail loudly.
    pub fn get_dt_impl(&self, h: u64) -> (r: &T)
        requires
            self.wf(),
            self@.contains_key(h),
        ensures
            *r == self@[h],
    {
        self.table.get(&h).unwrap()
    }

    /// Removes the binding of a handle.  This is the single point that
    /// releases a registration; the handle number is retired for good.
    pub fn free_dt_impl(&mut self, h: u64)
        requires
            old(self).wf(),
            old(self)@.contains_key(h),
        ensures
            final(self).wf(),
            final(self)@ == old(self)@.remove(h),
            final(self).handle_bound() == old(self).handle_bound(),
    {
        self.table.remove(&h);
    }

    /// The number of registered bindings.
    pub fn len(&self) -> (r: usize)
        requires
            self.wf(),
        ensures
            r == self@.dom().len(),
    {
        self.table.len()
    }
}

/// Law: registrations are isolated.  Distinct handles never observe each
/// other: binding `hb` leaves what `ha` resolves to untouched, and removing
/// `ha` removes nothing but `ha`.
pub proof fn lemma_registry_isolation<T>(m: Map<u64, T>, ha: u64, hb: u64, ta: T, tb: T)
    requires
        ha != hb,
    ensures
        m.insert(ha, ta).insert(hb, tb)[ha] == ta,
        m.insert(ha, ta).insert(hb, tb)[hb] == tb,
        m.insert(ha, ta).insert(hb, tb).remove(ha).contains_key(hb),
        m.insert(ha, ta).insert(hb, tb).remove(ha)[hb] == tb,
        !m.insert(ha, ta).insert(hb, tb).remove(ha).contains_key(ha),
{
}

} // verus!
