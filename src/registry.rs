//! The registry of live readers' epoch counters, keyed by slab index.
use crate::epoch::Epoch;
use std::sync::atomic::AtomicUsize;
use std::sync::Arc;
use vstd::prelude::*;

verus! {

#[verifier::external_type_specification]
#[verifier::external_body]
#[verifier::reject_recursive_types(T)]
pub struct ExSlab<T>(slab::Slab<T>);

/// The keys occupied in a slab of epoch counters.
pub uninterp spec fn slab_keys(s: slab::Slab<Arc<AtomicUsize>>) -> Set<usize>;

/// Relies on slab::Slab::new: a new slab holds no value.
#[verifier::external_body]
fn slab_new() -> (r: slab::Slab<Arc<AtomicUsize>>)
    ensures
        slab_keys(r) == Set::<usize>::empty(),
{
    slab::Slab::new()
}

/// Relies on slab::Slab::insert: the value is stored under a key that was
/// vacant, which the result names.
#[verifier::external_body]
fn slab_insert(s: &mut slab::Slab<Arc<AtomicUsize>>, v: Arc<AtomicUsize>) -> (k: usize)
    ensures
        !slab_keys(*old(s)).contains(k),
        slab_keys(*final(s)) == slab_keys(*old(s)).insert(k),
{
    s.insert(v)
}

/// Relies on slab::Slab::remove: the key's value is taken out and the key
/// becomes vacant. It panics on a vacant key, which `requires` leaves out.
#[verifier::external_body]
fn slab_remove(s: &mut slab::Slab<Arc<AtomicUsize>>, k: usize)
    requires
        slab_keys(*old(s)).contains(k),
    ensures
        slab_keys(*final(s)) == slab_keys(*old(s)).remove(k),
{
    s.remove(k);
}

/// Relies on slab::Slab::contains: whether a value is stored under the key.
#[verifier::external_body]
fn slab_contains(s: &slab::Slab<Arc<AtomicUsize>>, k: usize) -> (r: bool)
    ensures
        r == slab_keys(*s).contains(k),
{
    s.contains(k)
}

/// Relies on slab::Slab::iter: it visits each stored value once; each is
/// cloned into the result.
#[verifier::external_body]
fn slab_values(s: &slab::Slab<Arc<AtomicUsize>>) -> (r: Vec<Arc<AtomicUsize>>)
    ensures
        r.len() == slab_keys(*s).len(),
{
    s.iter().map(|(_, e)| e.clone()).collect()
}

/// Maps each live reader's key to its epoch counter. Keys are handed out by
/// the registry and reused only after removal.
pub struct EpochRegistry {
    slots: slab::Slab<Arc<AtomicUsize>>,
}

impl EpochRegistry {
    /// The keys of the registered readers.
    pub closed spec fn keys(&self) -> Set<usize> {
        slab_keys(self.slots)
    }

    /// An empty registry.
    pub fn new() -> (r: EpochRegistry)
        ensures
            r.keys() == Set::<usize>::empty(),
    {
        EpochRegistry { slots: slab_new() }
    }

    /// Registers a reader's epoch counter under a key not in use, and returns
    /// that key.
    pub fn insert(&mut self, epoch: &Epoch) -> (k: usize)
        ensures
            !old(self).keys().contains(k),
            final(self).keys() == old(self).keys().insert(k),
    {
        slab_insert(&mut self.slots, epoch.handle())
    }

    /// Unregisters the counter under `key`. Returns whether one was there; the
    /// registry is unchanged when none was.
    pub fn remove(&mut self, key: usize) -> (r: bool)
        ensures
            r == old(self).keys().contains(key),
            final(self).keys() == old(self).keys().remove(key),
    {
        if slab_contains(&self.slots, key) {
            slab_remove(&mut self.slots, key);
            true
        } else {
            assert(self.keys().remove(key) =~= self.keys());
            false
        }
    }

    /// Whether a counter is registered under `key`.
    pub fn contains(&self, key: usize) -> (r: bool)
        ensures
            r == self.keys().contains(key),
    {
        slab_contains(&self.slots, key)
    }

    /// A handle on every registered counter, one per key.
    pub fn snapshot(&self) -> (r: Vec<Epoch>)
        ensures
            r.len() == self.keys().len(),
    {
        let hs = slab_values(&self.slots);
        let mut r: Vec<Epoch> = Vec::new();
        let mut i: usize = 0;
        while i < hs.len()
            invariant
                i <= hs.len(),
                r.len() == i,
            decreases hs.len() - i,
        {
            r.push(Epoch::from_handle(hs[i].clone()));
            i += 1;
        }
        r
    }
}

} // verus!
