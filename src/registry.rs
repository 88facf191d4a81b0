use std::sync::atomic::{AtomicUsize, Ordering};
use std::sync::Arc;
use slab::Slab;
use vstd::prelude::*;

verus! {

#[verifier::external_type_specification]
#[verifier::external_body]
#[verifier::reject_recursive_types(T)]
pub struct ExSlab<T>(slab::Slab<T>);

/// The keys under which a slab of reader counters holds an entry.
pub uninterp spec fn slab_keys(s: Slab<Arc<AtomicUsize>>) -> Set<usize>;

/// Relies on `slab::Slab::new`: a slab with no entries.
#[verifier::external_body]
fn slab_new() -> (r: Slab<Arc<AtomicUsize>>)
    ensures
        slab_keys(r) == Set::<usize>::empty(),
{
    Slab::new()
}

/// Relies on `slab::Slab::insert`: the value goes under a key that was vacant,
/// which is returned; the other entries stay.
#[verifier::external_body]
fn slab_insert(s: &mut Slab<Arc<AtomicUsize>>, v: Arc<AtomicUsize>) -> (r: usize)
    ensures
        !slab_keys(*old(s)).contains(r),
        slab_keys(*final(s)) == slab_keys(*old(s)).insert(r),
{
    s.insert(v)
}

/// Relies on `slab::Slab::remove`: the entry under `key` goes, the others stay.
/// It panics on a vacant key, which the precondition rules out.
#[verifier::external_body]
fn slab_remove(s: &mut Slab<Arc<AtomicUsize>>, key: usize)
    requires
        slab_keys(*old(s)).contains(key),
    ensures
        slab_keys(*final(s)) == slab_keys(*old(s)).remove(key),
{
    s.remove(key);
}

/// Relies on `slab::Slab::capacity`: the length of the slab's entry vector
/// reserved, so every key lies below it.
#[verifier::external_body]
fn slab_capacity(s: &Slab<Arc<AtomicUsize>>) -> (r: usize)
    ensures
        forall|k: usize| slab_keys(*s).contains(k) ==> k < r,
{
    s.capacity()
}

/// Relies on `slab::Slab::get`: an entry exactly where the key is occupied.
#[verifier::external_body]
fn slab_get(s: &Slab<Arc<AtomicUsize>>, key: usize) -> (r: Option<&Arc<AtomicUsize>>)
    ensures
        r.is_some() == slab_keys(*s).contains(key),
{
    s.get(key)
}

/// Relies on `slab::Slab::iter`: it visits each occupied key once, in
/// increasing order; only the keys are kept.
#[verifier::external_body]
fn slab_key_list(s: &Slab<Arc<AtomicUsize>>) -> (r: Vec<usize>)
    ensures
        r@.to_set() == slab_keys(*s),
        forall|i: int, j: int| 0 <= i < j < r@.len() ==> r@[i] < r@[j],
{
    s.iter().map(|(k, _)| k).collect()
}

/// The registry of reader epochs: for each reader slot, a shared counter that
/// the reader bumps on entry to and exit from a read critical section. An odd
/// count means the reader is inside one.
///
/// It keeps a record of the value that the latest read of each slot returned;
/// only `load` writes it.
pub struct Epochs {
    slots: Slab<Arc<AtomicUsize>>,
    reads: Ghost<Map<usize, usize>>,
}

impl Epochs {
    /// The occupied reader slots.
    pub closed spec fn slots(&self) -> Set<usize> {
        slab_keys(self.slots)
    }

    /// For each slot read so far, the value that its latest read returned.
    pub closed spec fn loaded(&self) -> Map<usize, usize> {
        self.reads@
    }

    /// A registry with no readers.
    pub fn new() -> (r: Epochs)
        ensures
            r.slots() == Set::<usize>::empty(),
            r.loaded() == Map::<usize, usize>::empty(),
    {
        Epochs { slots: slab_new(), reads: Ghost(Map::empty()) }
    }

    /// Adds a reader whose epoch starts at zero; returns its slot and its counter.
    pub fn register(&mut self) -> (r: (usize, Arc<AtomicUsize>))
        ensures
            !old(self).slots().contains(r.0),
            final(self).slots() == old(self).slots().insert(r.0),
            final(self).loaded() == old(self).loaded(),
    {
        let counter = Arc::new(AtomicUsize::new(0));
        let shared = Arc::clone(&counter);
        let key = slab_insert(&mut self.slots, shared);
        (key, counter)
    }

    /// Removes the reader in `slot`.
    pub fn deregister(&mut self, slot: usize)
        requires
            old(self).slots().contains(slot),
        ensures
            final(self).slots() == old(self).slots().remove(slot),
            final(self).loaded() == old(self).loaded(),
    {
        slab_remove(&mut self.slots, slot);
    }

    /// A bound above every occupied slot.
    pub fn capacity(&self) -> (r: usize)
        ensures
            forall|k: usize| self.slots().contains(k) ==> k < r,
    {
        slab_capacity(&self.slots)
    }

    /// The occupied slots, in increasing order.
    pub fn slot_list(&self) -> (r: Vec<usize>)
        ensures
            r@.to_set() == self.slots(),
            forall|i: int, j: int| 0 <= i < j < r@.len() ==> r@[i] < r@[j],
    {
        slab_key_list(&self.slots)
    }

    /// The current epoch of the reader in `slot`, read with acquire ordering
    /// and recorded as that slot's latest read; `None` for a vacant slot.
    pub fn load(&mut self, slot: usize) -> (r: Option<usize>)
        ensures
            r.is_some() == old(self).slots().contains(slot),
            final(self).slots() == old(self).slots(),
            r matches Some(v) ==> final(self).loaded() == old(self).loaded().insert(slot, v),
            r is None ==> final(self).loaded() == old(self).loaded(),
    {
        match slab_get(&self.slots, slot) {
            Some(counter) => {
                let v = counter.load(Ordering::Acquire);
                proof {
                    self.reads@ = self.reads@.insert(slot, v);
                }
                Some(v)
            },
            None => None,
        }
    }
}

} // verus!
