use vstd::prelude::*;

verus! {

/// How a value absorbs batches of operations, keeps its second copy in step,
/// and is torn down.
///
/// `O` is a batch of operations. The model: `log_is_empty` says whether a batch
/// holds no operations, and `absorbed` is the value that results from applying
/// every operation of a batch, in order.
pub trait Absorb<O>: Sized {
    /// Whether `log` holds no operations.
    spec fn log_is_empty(log: O) -> bool;

    /// The value that `self` becomes once every operation of `log` is applied.
    spec fn absorbed(self, log: O) -> Self;

    /// Absorbing a batch with no operations leaves a value unchanged.
    proof fn lemma_absorb_empty(v: Self, log: O)
        requires
            Self::log_is_empty(log),
        ensures
            v.absorbed(log) == v,
    ;

    /// A fresh batch with no operations.
    fn empty_log() -> (r: O)
        ensures
            Self::log_is_empty(r),
    ;

    /// Whether `log` holds no operations.
    fn is_empty(log: &O) -> (r: bool)
        ensures
            r == Self::log_is_empty(*log),
    ;

    /// Applies the operations of `log` to `self`, the copy that becomes the
    /// new foreground. The batch is left as it was: the other copy still needs it.
    fn absorb_first(&mut self, log: &mut O, other: &Self)
        ensures
            *final(self) == old(self).absorbed(*old(log)),
            *final(log) == *old(log),
    ;

    /// Applies the operations of `log` to `self`, the second copy, and consumes them.
    fn absorb_second(&mut self, log: &mut O, other: &Self)
        ensures
            *final(self) == old(self).absorbed(*old(log)),
            Self::log_is_empty(*final(log)),
    ;

    /// Makes `self` a copy of `first`; called once, on the first publish.
    fn sync_with(&mut self, first: &Self)
        ensures
            *final(self) == *first,
    ;

    /// Tears down the first of the two copies.
    fn drop_first(self)
        opens_invariants none
        no_unwind
    {
    }

    /// Tears down the second of the two copies.
    fn drop_second(self)
        opens_invariants none
        no_unwind
    {
    }
}

/// An operation on an `i32` counter: add the delta it holds.
#[derive(Debug, Clone, Copy)]
pub struct CounterAddOp(pub i32);

/// The counter `v` after adding, with wrap-around, each delta of `ops` in order.
pub open spec fn counter_after(v: i32, ops: Seq<CounterAddOp>) -> i32
    decreases ops.len(),
{
    if ops.len() == 0 {
        v
    } else {
        counter_after(v, ops.drop_last()).wrapping_add(ops.last().0)
    }
}

fn add_all(v: &mut i32, log: &Vec<CounterAddOp>)
    ensures
        *final(v) == counter_after(*old(v), log@),
{
    let n = log.len();
    let mut i: usize = 0;
    while i < n
        invariant
            n == log@.len(),
            i <= n,
            *v == counter_after(*old(v), log@.take(i as int)),
        decreases n - i,
    {
        assert(log@.take(i as int + 1).drop_last() == log@.take(i as int));
        *v = v.wrapping_add(log[i].0);
        i = i + 1;
    }
    assert(log@.take(n as int) == log@);
}

impl Absorb<Vec<CounterAddOp>> for i32 {
    open spec fn log_is_empty(log: Vec<CounterAddOp>) -> bool {
        log@.len() == 0
    }

    open spec fn absorbed(self, log: Vec<CounterAddOp>) -> i32 {
        counter_after(self, log@)
    }

    proof fn lemma_absorb_empty(v: i32, log: Vec<CounterAddOp>) {
    }

    fn empty_log() -> (r: Vec<CounterAddOp>) {
        Vec::new()
    }

    fn is_empty(log: &Vec<CounterAddOp>) -> (r: bool) {
        log.len() == 0
    }

    fn absorb_first(&mut self, log: &mut Vec<CounterAddOp>, other: &i32) {
        add_all(self, log);
    }

    fn absorb_second(&mut self, log: &mut Vec<CounterAddOp>, other: &i32) {
        add_all(self, log);
        log.clear();
    }

    fn sync_with(&mut self, first: &i32) {
        *self = *first;
    }
}

} // verus!
