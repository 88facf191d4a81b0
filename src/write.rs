use std::marker::PhantomData;
use std::sync::atomic::{AtomicUsize, Ordering};
use std::sync::Arc;
use vstd::prelude::*;
use crate::absorb::Absorb;
use crate::registry::Epochs;

verus! {

/// Relies on `std::sync::atomic::fence` with `SeqCst`: no memory access is
/// moved across it, so the epochs read after a swap are read after it.
#[verifier::external_body]
fn seq_cst_fence() {
    std::sync::atomic::fence(Ordering::SeqCst)
}

/// A writer handle to a left-right guarded value.
///
/// It holds two copies of the value: the foreground, which readers see, and
/// the background, which only the writer touches. Operations are appended to
/// the pending batch and become visible to readers only when `publish` swaps
/// the copies. The batch published last is kept as the partial batch: the
/// background copy still owes it, and the next publish applies it there.
///
/// Readers are registered in an epoch registry. Before the background copy
/// may be changed, every reader that was inside a read critical section at
/// the latest swap must have been seen to leave it; `poll_readers` looks.
///
/// Dropping a handle that was not taken tears both copies down as they are,
/// with `drop_first` and `drop_second`.
pub struct WriteHandle<T: Absorb<O>, O> {
    epochs: Epochs,
    w_handle: Option<T>,
    r_handle: Option<T>,
    partial_ops: O,
    pending_ops: O,
    last_epochs: Vec<usize>,
    departed: Vec<bool>,
    refreshes: usize,
    second: bool,
    closed: bool,
}

impl<T: Absorb<O>, O> Drop for WriteHandle<T, O> {
    fn drop(&mut self)
        ensures
            final(self).torn_down(),
        opens_invariants none
        no_unwind
    {
        let mut first: Option<T> = None;
        std::mem::swap(&mut first, &mut self.w_handle);
        if let Some(v) = first {
            T::drop_first(v);
        }
        let mut second: Option<T> = None;
        std::mem::swap(&mut second, &mut self.r_handle);
        if let Some(v) = second {
            T::drop_second(v);
        }
    }
}

/// The owned value taken out of a `WriteHandle`.
///
/// Dropping it tears the value down with `drop_second`.
#[derive(Debug)]
pub struct Taken<T: Absorb<O>, O> {
    inner: Option<T>,
    marker: PhantomData<O>,
}

impl<T: Absorb<O>, O> Drop for Taken<T, O> {
    fn drop(&mut self)
        ensures
            !final(self).wf(),
        opens_invariants none
        no_unwind
    {
        let mut held: Option<T> = None;
        std::mem::swap(&mut held, &mut self.inner);
        if let Some(v) = held {
            T::drop_second(v);
        }
    }
}

impl<T: Absorb<O>, O> WriteHandle<T, O> {
    /// Both copies have been handed over: to their teardown, or out by `take`.
    pub closed spec fn torn_down(&self) -> bool {
        self.w_handle is None && self.r_handle is None
    }

    /// The copy that readers see.
    pub closed spec fn fore(&self) -> T {
        self.r_handle.unwrap()
    }

    /// The copy that only the writer touches.
    pub closed spec fn back(&self) -> T {
        self.w_handle.unwrap()
    }

    /// The batch that accepts new operations.
    pub closed spec fn pending_log(&self) -> O {
        self.pending_ops
    }

    /// The batch published last, still owed to the background copy.
    pub closed spec fn partial_log(&self) -> O {
        self.partial_ops
    }

    /// Whether a publish has run, so that the two copies have been synchronised.
    pub closed spec fn synced(&self) -> bool {
        !self.second
    }

    /// Whether the foreground has been withdrawn from readers.
    pub closed spec fn is_closed(&self) -> bool {
        self.closed
    }

    /// How many publishes have run, saturating at the largest `usize`.
    pub closed spec fn refresh_count(&self) -> nat {
        self.refreshes as nat
    }

    /// The occupied reader slots.
    pub closed spec fn readers(&self) -> Set<usize> {
        self.epochs.slots()
    }

    /// Each reader's epoch as read right after the latest swap, by slot.
    pub closed spec fn snapshot_epochs(&self) -> Seq<usize> {
        self.last_epochs@
    }

    /// For each reader slot, the value that the latest read of its epoch
    /// counter returned.
    pub closed spec fn observed(&self) -> Map<usize, usize> {
        self.epochs.loaded()
    }

    /// This handle with `log` as its pending batch.
    pub closed spec fn with_pending(self, log: O) -> Self {
        WriteHandle { pending_ops: log, ..self }
    }

    /// This handle with `v` as its background copy.
    pub closed spec fn with_back(self, v: T) -> Self {
        WriteHandle { w_handle: Some(v), ..self }
    }

    /// The reader in slot `k` cannot be in the copy that was foreground before
    /// the latest swap: its epoch was even then, or it has been seen to change.
    pub open spec fn reader_left(&self, k: usize) -> bool {
        self.snapshot_epochs()[k as int] % 2 == 0 || (self.observed().dom().contains(k)
            && self.observed()[k] != self.snapshot_epochs()[k as int])
    }

    /// Each reader's snapshot epoch is the value that the latest read of its
    /// counter returned: the snapshot was just taken.
    pub open spec fn snapshot_fresh(&self) -> bool {
        forall|k: usize| #[trigger]
            self.readers().contains(k) ==> self.observed().dom().contains(k)
                && self.snapshot_epochs()[k as int] == self.observed()[k]
    }

    /// Every registered reader has left the copy that was foreground before the latest swap.
    pub open spec fn readers_departed(&self) -> bool {
        forall|k: usize| #[trigger] self.readers().contains(k) ==> self.reader_left(k)
    }

    /// The copies, batches and readers of `b` are those of `a`.
    pub open spec fn same_data(a: Self, b: Self) -> bool {
        &&& b.fore() == a.fore()
        &&& b.back() == a.back()
        &&& b.pending_log() == a.pending_log()
        &&& b.partial_log() == a.partial_log()
        &&& b.synced() == a.synced()
        &&& b.is_closed() == a.is_closed()
        &&& b.refresh_count() == a.refresh_count()
        &&& b.readers() == a.readers()
    }

    /// `b` is what one publish makes of `a`: the pending batch is applied to
    /// the copy that becomes the foreground, and is owed next to the other.
    pub open spec fn publish_step(a: Self, b: Self) -> bool {
        &&& b.fore() == a.fore().absorbed(a.pending_log())
        &&& b.back() == a.fore()
        &&& b.partial_log() == a.pending_log()
        &&& T::log_is_empty(b.pending_log())
        &&& b.synced()
        &&& b.is_closed() == a.is_closed()
        &&& b.refresh_count() == if a.refresh_count() < usize::MAX {
            a.refresh_count() + 1
        } else {
            a.refresh_count()
        }
        &&& b.readers() == a.readers()
        &&& b.snapshot_fresh()
    }

    /// `b` is what one flush makes of `a`: a publish if operations are pending,
    /// else nothing at all.
    pub open spec fn flush_step(a: Self, b: Self) -> bool {
        if T::log_is_empty(a.pending_log()) {
            b == a
        } else {
            Self::publish_step(a, b)
        }
    }

    /// The handle's invariant.
    pub closed spec fn wf(&self) -> bool {
        &&& self.w_handle is Some
        &&& self.r_handle is Some
        &&& self.last_epochs@.len() == self.departed@.len()
        &&& forall|k: usize| #[trigger]
            self.epochs.slots().contains(k) ==> (k as int) < self.last_epochs@.len()
        &&& forall|k: usize| #[trigger]
            self.epochs.slots().contains(k) ==> (self.departed@[k as int] ==> (
            self.epochs.loaded().dom().contains(k) && self.epochs.loaded()[k]
                != self.last_epochs@[k as int]))
        &&& !self.second ==> self.w_handle.unwrap().absorbed(self.partial_ops)
            == self.r_handle.unwrap()
        &&& self.second ==> T::log_is_empty(self.partial_ops)
    }

    /// A writer over two copies of one value: `w_handle` for the writer and
    /// `r_handle` for the readers registered in `epochs`. Both batches start
    /// empty; the first publish makes the writer's copy a copy of the readers'.
    /// Every reader counts as having left: no swap has happened yet.
    pub fn new(w_handle: T, r_handle: T, epochs: Epochs) -> (r: Self)
        ensures
            r.wf(),
            r.fore() == r_handle,
            r.back() == w_handle,
            T::log_is_empty(r.pending_log()),
            T::log_is_empty(r.partial_log()),
            !r.synced(),
            !r.is_closed(),
            r.refresh_count() == 0,
            r.readers() == epochs.slots(),
            r.observed() == epochs.loaded(),
            forall|k: usize| #[trigger] r.readers().contains(k) ==> r.snapshot_epochs()[k as int] == 0,
            r.readers_departed(),
    {
        let cap = epochs.capacity();
        let mut last_epochs: Vec<usize> = Vec::new();
        let mut departed: Vec<bool> = Vec::new();
        while last_epochs.len() < cap
            invariant
                last_epochs@.len() == departed@.len(),
                last_epochs@.len() <= cap,
                forall|i: int| 0 <= i < last_epochs@.len() ==> last_epochs@[i] == 0,
                forall|i: int| 0 <= i < departed@.len() ==> !departed@[i],
            decreases cap - last_epochs@.len(),
        {
            last_epochs.push(0);
            departed.push(false);
        }
        WriteHandle {
            epochs,
            w_handle: Some(w_handle),
            r_handle: Some(r_handle),
            partial_ops: T::empty_log(),
            pending_ops: T::empty_log(),
            last_epochs,
            departed,
            refreshes: 0,
            second: true,
            closed: false,
        }
    }

    /// One publish cycle without the waiting: brings the background copy up to
    /// date, applies the pending batch to it, and swaps the copies and batches.
    fn cycle(&mut self)
        requires
            old(self).wf(),
        ensures
            final(self).wf(),
            final(self).fore() == old(self).fore().absorbed(old(self).pending_ops),
            final(self).back() == old(self).fore(),
            final(self).partial_ops == old(self).pending_ops,
            T::log_is_empty(final(self).pending_ops),
            !final(self).second,
            final(self).closed == old(self).closed,
            final(self).refreshes == old(self).refreshes,
            final(self).epochs == old(self).epochs,
            final(self).last_epochs == old(self).last_epochs,
            final(self).departed == old(self).departed,
    {
        let mut w_slot: Option<T> = None;
        std::mem::swap(&mut w_slot, &mut self.w_handle);
        let mut r_slot: Option<T> = None;
        std::mem::swap(&mut r_slot, &mut self.r_handle);
        let mut w = w_slot.unwrap();
        let r = r_slot.unwrap();
        if self.second {
            T::sync_with(&mut w, &r);
            self.second = false;
            proof {
                T::lemma_absorb_empty(w, self.partial_ops);
            }
        }
        T::absorb_second(&mut w, &mut self.partial_ops, &r);
        if !T::is_empty(&self.partial_ops) {
            self.partial_ops = T::empty_log();
        }
        T::absorb_first(&mut w, &mut self.pending_ops, &r);
        std::mem::swap(&mut self.partial_ops, &mut self.pending_ops);
        self.r_handle = Some(w);
        self.w_handle = Some(r);
    }

    /// Reads every reader's epoch into the snapshot; no reader counts as seen
    /// to have moved since.
    fn snapshot(&mut self)
        requires
            old(self).wf(),
        ensures
            final(self).wf(),
            final(self).w_handle == old(self).w_handle,
            final(self).r_handle == old(self).r_handle,
            final(self).partial_ops == old(self).partial_ops,
            final(self).pending_ops == old(self).pending_ops,
            final(self).second == old(self).second,
            final(self).closed == old(self).closed,
            final(self).refreshes == old(self).refreshes,
            final(self).epochs.slots() == old(self).epochs.slots(),
            final(self).snapshot_fresh(),
    {
        let keys = self.epochs.slot_list();
        let n = keys.len();
        let mut i: usize = 0;
        while i < n
            invariant
                n == keys@.len(),
                i <= n,
                keys@.to_set() == self.epochs.slots(),
                forall|a: int, b: int| 0 <= a < b < n ==> keys@[a] < keys@[b],
                self.last_epochs@.len() == old(self).last_epochs@.len(),
                self.departed@.len() == old(self).departed@.len(),
                self.last_epochs@.len() == self.departed@.len(),
                forall|k: usize| #[trigger]
                    self.epochs.slots().contains(k) ==> (k as int) < self.last_epochs@.len(),
                forall|j: int|
                    0 <= j < i ==> (#[trigger] keys@[j] as int) < self.departed@.len()
                        && !self.departed@[keys@[j] as int]
                        && self.epochs.loaded().dom().contains(keys@[j])
                        && self.epochs.loaded()[keys@[j]] == self.last_epochs@[keys@[j] as int],
                self.w_handle == old(self).w_handle,
                self.r_handle == old(self).r_handle,
                self.partial_ops == old(self).partial_ops,
                self.pending_ops == old(self).pending_ops,
                self.second == old(self).second,
                self.closed == old(self).closed,
                self.refreshes == old(self).refreshes,
                self.epochs.slots() == old(self).epochs.slots(),
                old(self).wf(),
            decreases n - i,
        {
            let k = keys[i];
            assert(keys@.to_set().contains(keys@[i as int]));
            let ghost pre = *self;
            match self.epochs.load(k) {
                Some(now) => {
                    self.last_epochs.set(k, now);
                },
                None => {},
            }
            self.departed.set(k, false);
            assert forall|j: int| 0 <= j < i + 1 implies (#[trigger] keys@[j] as int)
                < self.departed@.len() && !self.departed@[keys@[j] as int]
                && self.epochs.loaded().dom().contains(keys@[j]) && self.epochs.loaded()[keys@[j]]
                == self.last_epochs@[keys@[j] as int] by {
                if j < i {
                    assert(keys@[j] < keys@[i as int]);
                    assert(pre.epochs.loaded().dom().contains(keys@[j]));
                }
            }
            i = i + 1;
        }
        assert forall|k: usize| #[trigger] self.epochs.slots().contains(k) implies !self.departed@[k as int]
            && self.epochs.loaded().dom().contains(k) && self.epochs.loaded()[k]
            == self.last_epochs@[k as int] by {
            assert(keys@.to_set().contains(k));
            let j = keys@.index_of(k);
            assert(keys@[j] == k);
        }
    }

    /// Publishes the pending operations to readers.
    ///
    /// Every reader must first have left the copy that was foreground before
    /// the latest swap (see `poll_readers`): that copy is changed here. The
    /// batch owed to it is applied, then the pending batch, and the copies are
    /// swapped, so that readers who enter from now on see every operation
    /// appended so far. Then, after a fence, each reader's epoch is read anew
    /// into the snapshot.
    pub fn publish(&mut self) -> (r: &mut Self)
        requires
            old(self).wf(),
            old(self).readers_departed(),
            !old(self).is_closed(),
        ensures
            r.wf(),
            Self::publish_step(*old(self), *r),
            *final(self) == *final(r),
    {
        self.cycle();
        seq_cst_fence();
        self.snapshot();
        let ghost taken = *self;
        if self.refreshes < usize::MAX {
            self.refreshes = self.refreshes + 1;
        }
        assert forall|k: usize| #[trigger] self.readers().contains(k) implies self.observed().dom().contains(k)
            && self.snapshot_epochs()[k as int] == self.observed()[k] by {
            assert(taken.readers().contains(k));
        }
        self
    }

    /// One pass of the wait for readers to leave the copy that was foreground
    /// before the latest swap. A reader whose snapshot epoch is even, or whose
    /// counter has been read to differ from it, has left; the counters of the
    /// others are read now. Returns whether every registered reader has left.
    /// Readers seen to leave are not read again, so a repeated pass resumes
    /// where this one stopped.
    pub fn poll_readers(&mut self) -> (r: bool)
        requires
            old(self).wf(),
        ensures
            final(self).wf(),
            Self::same_data(*old(self), *final(self)),
            final(self).snapshot_epochs() == old(self).snapshot_epochs(),
            r == final(self).readers_departed(),
            !r ==> exists|k: usize| #[trigger]
                final(self).readers().contains(k) && final(self).snapshot_epochs()[k as int] % 2
                    == 1 && final(self).observed().dom().contains(k) && final(self).observed()[k]
                    == final(self).snapshot_epochs()[k as int],
    {
        let keys = self.epochs.slot_list();
        let n = keys.len();
        let mut i: usize = 0;
        while i < n
            invariant
                n == keys@.len(),
                i <= n,
                keys@.to_set() == self.epochs.slots(),
                forall|a: int, b: int| 0 <= a < b < n ==> keys@[a] < keys@[b],
                self.wf(),
                Self::same_data(*old(self), *self),
                self.last_epochs == old(self).last_epochs,
                forall|j: int| 0 <= j < i ==> #[trigger] self.reader_left(keys@[j]),
            decreases n - i,
        {
            let k = keys[i];
            assert(keys@.to_set().contains(keys@[i as int]));
            let last = self.last_epochs[k];
            if last % 2 != 0 && !self.departed[k] {
                let ghost pre = *self;
                match self.epochs.load(k) {
                    Some(now) => {
                        self.departed.set(k, now != last);
                        assert forall|j: int| 0 <= j < i implies #[trigger] self.reader_left(
                            keys@[j],
                        ) by {
                            assert(keys@[j] < keys@[i as int]);
                            assert(pre.reader_left(keys@[j]));
                        }
                        assert forall|q: usize| #[trigger]
                            self.epochs.slots().contains(q) && self.departed@[q as int] implies
                            self.epochs.loaded().dom().contains(q) && self.epochs.loaded()[q]
                            != self.last_epochs@[q as int] by {
                            if q != k {
                                assert(pre.epochs.slots().contains(q));
                            }
                        }
                        if now == last {
                            assert(self.readers().contains(k));
                            return false;
                        }
                    },
                    None => {},
                }
            }
            assert(self.reader_left(k));
            i = i + 1;
        }
        assert forall|k: usize| #[trigger] self.readers().contains(k) implies self.reader_left(k) by {
            assert(keys@.to_set().contains(k));
            let j = keys@.index_of(k);
            assert(keys@[j] == k);
        }
        true
    }

    /// Withdraws the foreground from readers: from now on a read finds no
    /// value. After a fence each reader's epoch is read anew, so that
    /// `poll_readers` waits for those still reading the former foreground.
    pub fn close(&mut self)
        requires
            old(self).wf(),
        ensures
            final(self).wf(),
            final(self).is_closed(),
            final(self).fore() == old(self).fore(),
            final(self).back() == old(self).back(),
            final(self).pending_log() == old(self).pending_log(),
            final(self).partial_log() == old(self).partial_log(),
            final(self).synced() == old(self).synced(),
            final(self).refresh_count() == old(self).refresh_count(),
            final(self).readers() == old(self).readers(),
            final(self).snapshot_fresh(),
    {
        self.closed = true;
        seq_cst_fence();
        self.snapshot();
    }

    /// Publishes only if operations are pending; with none it neither waits
    /// nor swaps, so readers need not have left.
    pub fn flush(&mut self)
        requires
            old(self).wf(),
            !T::log_is_empty(old(self).pending_log()) ==> old(self).readers_departed()
                && !old(self).is_closed(),
        ensures
            final(self).wf(),
            Self::flush_step(*old(self), *final(self)),
    {
        if self.has_pending_operations() {
            self.publish();
        }
    }

    /// Whether operations have been appended that readers cannot see yet.
    pub fn has_pending_operations(&self) -> (r: bool)
        ensures
            r == !T::log_is_empty(self.pending_log()),
    {
        !T::is_empty(&self.pending_ops)
    }

    /// The pending batch, to append operations to; readers see none of them
    /// before the next publish.
    pub fn pending(&mut self) -> (r: &mut O)
        ensures
            *r == old(self).pending_log(),
            *final(self) == old(self).with_pending(*final(r)),
            final(self).pending_log() == *final(r),
            final(self).back() == old(self).back(),
            old(self).wf() ==> final(self).wf(),
            final(self).fore() == old(self).fore(),
            final(self).partial_log() == old(self).partial_log(),
            final(self).synced() == old(self).synced(),
            final(self).is_closed() == old(self).is_closed(),
            final(self).refresh_count() == old(self).refresh_count(),
            final(self).readers() == old(self).readers(),
            final(self).snapshot_epochs() == old(self).snapshot_epochs(),
            final(self).observed() == old(self).observed(),
    {
        &mut self.pending_ops
    }

    /// Whether an operation has yet to reach both copies: something is
    /// pending, or the batch published last is still owed.
    pub fn has_unapplied_operations(&self) -> (r: bool)
        ensures
            r == !(T::log_is_empty(self.pending_log()) && T::log_is_empty(self.partial_log())),
    {
        !T::is_empty(&self.pending_ops) || !T::is_empty(&self.partial_ops)
    }

    /// The batch published last, which the writer's copy still owes.
    pub fn partial(&self) -> (r: &O)
        ensures
            *r == self.partial_log(),
    {
        &self.partial_ops
    }

    /// The copy that readers see, or `None` once the foreground is closed.
    pub fn read(&self) -> (r: Option<&T>)
        ensures
            self.is_closed() ==> r.is_none(),
            !self.is_closed() && self.wf() ==> r.is_some() && *r.unwrap() == self.fore(),
    {
        if self.closed {
            None
        } else {
            self.r_handle.as_ref()
        }
    }

    /// The writer's copy, to change directly. Only before the first publish
    /// can no reader have been inside it, so only then is it handed out.
    pub fn raw_write_handle(&mut self) -> (r: &mut T)
        requires
            old(self).wf(),
            !old(self).synced(),
        ensures
            *r == old(self).back(),
            *final(self) == old(self).with_back(*final(r)),
            final(self).back() == *final(r),
            final(self).pending_log() == old(self).pending_log(),
            final(self).wf(),
            final(self).fore() == old(self).fore(),
            final(self).partial_log() == old(self).partial_log(),
            final(self).synced() == old(self).synced(),
            final(self).is_closed() == old(self).is_closed(),
            final(self).refresh_count() == old(self).refresh_count(),
            final(self).readers() == old(self).readers(),
            final(self).snapshot_epochs() == old(self).snapshot_epochs(),
            final(self).observed() == old(self).observed(),
    {
        self.w_handle.as_mut().unwrap()
    }

    /// Whether a publish has run.
    pub fn is_synced(&self) -> (r: bool)
        ensures
            r == self.synced(),
    {
        !self.second
    }

    /// How many publishes have run.
    pub fn refreshes(&self) -> (r: usize)
        ensures
            r as nat == self.refresh_count(),
    {
        self.refreshes
    }

    /// Registers a new reader; returns its slot and the epoch counter that it
    /// bumps on entry to and exit from each read critical section. A reader
    /// that arrives now can only see the current foreground, so it counts as
    /// having left the former one.
    pub fn register_reader(&mut self) -> (r: (usize, Arc<AtomicUsize>))
        requires
            old(self).wf(),
        ensures
            final(self).wf(),
            !old(self).readers().contains(r.0),
            final(self).readers() == old(self).readers().insert(r.0),
            final(self).fore() == old(self).fore(),
            final(self).back() == old(self).back(),
            final(self).pending_log() == old(self).pending_log(),
            final(self).partial_log() == old(self).partial_log(),
            final(self).synced() == old(self).synced(),
            final(self).is_closed() == old(self).is_closed(),
            final(self).refresh_count() == old(self).refresh_count(),
            old(self).readers_departed() ==> final(self).readers_departed(),
    {
        let ghost pre = *self;
        let (key, counter) = self.epochs.register();
        while self.last_epochs.len() <= key
            invariant
                self.last_epochs@.len() == self.departed@.len(),
                forall|k: usize| #[trigger]
                    pre.epochs.slots().contains(k) ==> (k as int) < self.last_epochs@.len(),
                forall|k: int|
                    0 <= k < pre.last_epochs@.len() ==> self.last_epochs@[k] == pre.last_epochs@[k]
                        && self.departed@[k] == pre.departed@[k],
                self.last_epochs@.len() >= pre.last_epochs@.len(),
                pre.wf(),
                self.w_handle == pre.w_handle,
                self.r_handle == pre.r_handle,
                self.partial_ops == pre.partial_ops,
                self.pending_ops == pre.pending_ops,
                self.second == pre.second,
                self.closed == pre.closed,
                self.refreshes == pre.refreshes,
                self.epochs.loaded() == pre.epochs.loaded(),
                self.epochs.slots() == pre.epochs.slots().insert(key),
            decreases key + 1 - self.last_epochs@.len(),
        {
            self.last_epochs.push(0);
            self.departed.push(false);
        }
        self.last_epochs.set(key, 0);
        self.departed.set(key, false);
        proof {
            assert forall|k: usize| #[trigger] self.readers().contains(k) && old(self).readers_departed()
                implies self.reader_left(k) by {
                if k != key {
                    assert(pre.readers().contains(k));
                    assert(pre.reader_left(k));
                }
            }
        }
        (key, counter)
    }

    /// Removes the reader in `slot`.
    pub fn deregister_reader(&mut self, slot: usize)
        requires
            old(self).wf(),
            old(self).readers().contains(slot),
        ensures
            final(self).wf(),
            final(self).readers() == old(self).readers().remove(slot),
            final(self).fore() == old(self).fore(),
            final(self).back() == old(self).back(),
            final(self).pending_log() == old(self).pending_log(),
            final(self).partial_log() == old(self).partial_log(),
            final(self).synced() == old(self).synced(),
            final(self).is_closed() == old(self).is_closed(),
            final(self).refresh_count() == old(self).refresh_count(),
            old(self).readers_departed() ==> final(self).readers_departed(),
    {
        let ghost pre = *self;
        self.epochs.deregister(slot);
        proof {
            assert forall|k: usize| #[trigger] self.readers().contains(k) && old(self).readers_departed()
                implies self.reader_left(k) by {
                assert(pre.readers().contains(k));
                assert(pre.reader_left(k));
            }
        }
    }

    /// Takes out the value once every operation has been applied to both copies.
    ///
    /// The foreground must have been closed and every reader must have left it.
    /// What is still pending or owed is applied (a publish, and a second one if
    /// the first left a batch owed), the writer's copy is torn down with
    /// `drop_first`, and the readers' copy is returned.
    pub fn take(self) -> (r: Taken<T, O>)
        requires
            self.wf(),
            self.is_closed(),
            self.readers_departed(),
        ensures
            r.wf(),
            r.value() == self.fore().absorbed(self.pending_log()),
    {
        let ghost start = self;
        let mut this = self;
        if !T::is_empty(&this.partial_ops) || !T::is_empty(&this.pending_ops) {
            this.cycle();
            if !T::is_empty(&this.partial_ops) {
                let ghost mid = this;
                proof {
                    T::lemma_absorb_empty(mid.fore(), mid.pending_ops);
                }
                this.cycle();
            }
        } else {
            proof {
                T::lemma_absorb_empty(this.fore(), this.pending_ops);
            }
        }
        let mut first: Option<T> = None;
        std::mem::swap(&mut first, &mut this.w_handle);
        let mut second: Option<T> = None;
        std::mem::swap(&mut second, &mut this.r_handle);
        T::drop_first(first.unwrap());
        Taken { inner: second, marker: PhantomData }
    }
}

impl<T: Absorb<O>, O> Taken<T, O> {
    /// The value held.
    pub closed spec fn value(&self) -> T {
        self.inner.unwrap()
    }

    /// The invariant: a value is held until `into_box` hands it out.
    pub closed spec fn wf(&self) -> bool {
        self.inner.is_some()
    }

    /// A mutable reference to the value held.
    pub fn get_mut(&mut self) -> (r: &mut T)
        requires
            old(self).wf(),
        ensures
            *r == old(self).value(),
            final(self).wf(),
            final(self).value() == *final(r),
    {
        self.inner.as_mut().unwrap()
    }

    /// A reference to the value held.
    pub fn get(&self) -> (r: &T)
        requires
            self.wf(),
        ensures
            *r == self.value(),
    {
        self.inner.as_ref().unwrap()
    }

    /// The value held, bypassing `drop_second`: for callers who know that
    /// dropping the value normally is enough.
    pub fn into_box(self) -> (r: Box<T>)
        requires
            self.wf(),
        ensures
            *r == self.value(),
    {
        let mut this = self;
        Box::new(this.inner.take().unwrap())
    }
}

/// Convergence: whatever was appended and published before, a publish with
/// nothing pending leaves both copies holding the same value, and so does one
/// more publish after it; that value is the one readers saw before.
pub proof fn lemma_publish_converges<T: Absorb<O>, O>(
    a: WriteHandle<T, O>,
    b: WriteHandle<T, O>,
    c: WriteHandle<T, O>,
)
    requires
        a.wf(),
        T::log_is_empty(a.pending_log()),
        WriteHandle::publish_step(a, b),
        WriteHandle::publish_step(b, c),
    ensures
        b.fore() == b.back(),
        c.fore() == c.back(),
        c.fore() == a.fore(),
        T::log_is_empty(c.partial_log()),
{
    T::lemma_absorb_empty(a.fore(), a.pending_log());
    T::lemma_absorb_empty(b.fore(), b.pending_log());
}

/// Two flushes with nothing appended in between: the second changes nothing,
/// so it swaps no copies and readers see the same value after both.
pub proof fn lemma_flush_idempotent<T: Absorb<O>, O>(
    a: WriteHandle<T, O>,
    b: WriteHandle<T, O>,
    c: WriteHandle<T, O>,
)
    requires
        a.wf(),
        WriteHandle::flush_step(a, b),
        WriteHandle::flush_step(b, c),
    ensures
        c == b,
        c.fore() == b.fore(),
        c.refresh_count() == b.refresh_count(),
{
}

/// Appending to the pending batch changes nothing that readers see: the
/// foreground is the same whatever the pending batch holds.
pub proof fn lemma_append_invisible<T: Absorb<O>, O>(h: WriteHandle<T, O>, log: O)
    ensures
        h.with_pending(log).fore() == h.fore(),
        !h.is_closed() ==> !h.with_pending(log).is_closed(),
{
}

} // verus!
