use left_right::{CounterAddOp, Epochs, Taken, WriteHandle};
use std::sync::atomic::{AtomicUsize, Ordering};
use std::sync::Arc;

type Counter = WriteHandle<i32, Vec<CounterAddOp>>;

fn counter(init: i32) -> Counter {
    WriteHandle::new(init, init, Epochs::new())
}

fn wait(w: &mut Counter) {
    while !w.poll_readers() {}
}

fn publish(w: &mut Counter) {
    wait(w);
    w.publish();
}

fn take(mut w: Counter) -> Taken<i32, Vec<CounterAddOp>> {
    while w.has_unapplied_operations() {
        publish(&mut w);
    }
    w.close();
    wait(&mut w);
    w.take()
}

fn read(w: &Counter) -> i32 {
    *w.read().unwrap()
}

fn enter(epoch: &Arc<AtomicUsize>) {
    epoch.fetch_add(1, Ordering::AcqRel);
}

fn exit(epoch: &Arc<AtomicUsize>) {
    epoch.fetch_add(1, Ordering::Release);
}

#[test]
fn append_test() {
    let mut w = counter(0);
    w.pending().push(CounterAddOp(1));
    assert_eq!(w.partial().len(), 0);
    assert_eq!(w.pending().len(), 1);
    publish(&mut w);
    w.pending().push(CounterAddOp(2));
    w.pending().push(CounterAddOp(3));
    assert_eq!(w.partial().len(), 1);
    assert_eq!(w.pending().len(), 2);
}

#[test]
fn take_test() {
    // publish twice then take with no pending operations
    let mut w = counter(2);
    w.pending().push(CounterAddOp(1));
    publish(&mut w);
    w.pending().push(CounterAddOp(1));
    publish(&mut w);
    assert_eq!(*take(w).get(), 4);

    // publish twice then pending operation published by take
    let mut w = counter(2);
    w.pending().push(CounterAddOp(1));
    publish(&mut w);
    w.pending().push(CounterAddOp(2));
    publish(&mut w);
    w.pending().push(CounterAddOp(3));
    assert_eq!(*take(w).get(), 8);

    // normal publish then pending operations published by take
    let mut w = counter(2);
    w.pending().push(CounterAddOp(1));
    publish(&mut w);
    w.pending().push(CounterAddOp(1));
    assert_eq!(*take(w).get(), 4);

    // pending operations published by take
    let mut w = counter(2);
    w.pending().push(CounterAddOp(1));
    assert_eq!(*take(w).get(), 3);

    // empty op queue
    let mut w = counter(2);
    w.pending().push(CounterAddOp(1));
    publish(&mut w);
    assert_eq!(*take(w).get(), 3);

    // no operations
    let w = counter(2);
    assert_eq!(*take(w).get(), 2);
}

#[test]
fn wait_test() {
    let mut w = counter(0);

    // no readers: the wait is over at once
    assert!(w.poll_readers());

    // three readers; the third is inside a critical section at the swap
    let (_, a) = w.register_reader();
    let (_, b) = w.register_reader();
    let (_, held) = w.register_reader();
    enter(&a);
    exit(&a);
    enter(&b);
    exit(&b);
    enter(&held);
    w.publish();

    // the held reader has not moved: the wait goes on
    assert!(!w.poll_readers());
    assert!(!w.poll_readers());

    // once it moves, the wait is over
    exit(&held);
    assert!(w.poll_readers());
}

#[test]
fn flush_noblock() {
    let mut w = counter(0);
    let (_, r) = w.register_reader();
    w.pending().push(CounterAddOp(42));
    publish(&mut w);
    enter(&r);
    assert_eq!(read(&w), 42);
    exit(&r);

    // pin the epoch
    enter(&r);
    assert_eq!(w.partial().len(), 1);
    assert_eq!(w.pending().len(), 0);
    assert!(!w.has_pending_operations());
    // nothing pending: a flush does not wait and does not publish
    w.flush();
    assert_eq!(w.refreshes(), 1);
    exit(&r);
}

#[test]
fn flush_no_refresh() {
    let mut w = counter(0);

    assert!(!w.has_pending_operations());
    publish(&mut w);
    assert!(!w.has_pending_operations());
    assert_eq!(w.refreshes(), 1);

    w.pending().push(CounterAddOp(42));
    assert!(w.has_pending_operations());
    publish(&mut w);
    assert!(!w.has_pending_operations());
    assert_eq!(w.refreshes(), 2);

    w.pending().push(CounterAddOp(42));
    assert!(w.has_pending_operations());
    publish(&mut w);
    assert!(!w.has_pending_operations());
    assert_eq!(w.refreshes(), 3);

    // Sanity check that a refresh would have been visible
    assert!(!w.has_pending_operations());
    publish(&mut w);
    assert_eq!(w.refreshes(), 4);
}

#[test]
fn basic_publish() {
    let mut w = counter(0);
    w.pending().push(CounterAddOp(1));
    publish(&mut w);
    assert_eq!(read(&w), 1);
}

#[test]
fn deferred_visibility() {
    let mut w = counter(0);
    w.pending().push(CounterAddOp(1));
    assert_eq!(read(&w), 0);
    publish(&mut w);
    assert_eq!(read(&w), 1);
}

#[test]
fn two_cycle_convergence() {
    let mut w = counter(2);
    w.pending().push(CounterAddOp(1));
    publish(&mut w);
    w.pending().push(CounterAddOp(1));
    publish(&mut w);
    assert_eq!(*take(w).get(), 4);
}

#[test]
fn take_with_pending() {
    let mut w = counter(2);
    w.pending().push(CounterAddOp(1));
    publish(&mut w);
    w.pending().push(CounterAddOp(2));
    publish(&mut w);
    w.pending().push(CounterAddOp(3));
    assert_eq!(*take(w).get(), 8);
}

#[test]
fn take_with_no_publishes() {
    let mut w = counter(2);
    w.pending().push(CounterAddOp(1));
    assert_eq!(*take(w).get(), 3);
}

#[test]
fn quiescence_blocks() {
    let mut w = counter(0);
    let (_, r) = w.register_reader();
    w.pending().push(CounterAddOp(42));
    wait(&mut w);
    // the reader enters and holds its critical section across the swap
    enter(&r);
    w.publish();
    assert_eq!(read(&w), 42);
    w.pending().push(CounterAddOp(1));
    assert!(!w.poll_readers());
    assert!(!w.poll_readers());
    exit(&r);
    assert!(w.poll_readers());
    w.publish();
    assert_eq!(read(&w), 43);
}

#[test]
fn reader_entering_after_swap_does_not_block() {
    let mut w = counter(0);
    let (_, r) = w.register_reader();
    w.pending().push(CounterAddOp(5));
    publish(&mut w);
    // a reader that enters after the swap reads the new foreground
    enter(&r);
    assert!(w.poll_readers());
    exit(&r);
}

#[test]
fn converged_after_two_publishes() {
    let mut w = counter(7);
    w.pending().push(CounterAddOp(3));
    publish(&mut w);
    publish(&mut w);
    assert_eq!(w.partial().len(), 0);
    assert_eq!(read(&w), 10);
    assert_eq!(*take(w).get(), 10);
}

#[test]
fn flush_twice_is_flush_once() {
    let mut w = counter(0);
    w.pending().push(CounterAddOp(9));
    wait(&mut w);
    w.flush();
    assert_eq!(w.refreshes(), 1);
    assert_eq!(read(&w), 9);
    wait(&mut w);
    w.flush();
    assert_eq!(w.refreshes(), 1);
    assert_eq!(read(&w), 9);
}

#[test]
fn append_not_visible_before_publish() {
    let mut w = counter(10);
    w.pending().push(CounterAddOp(-4));
    w.pending().push(CounterAddOp(2));
    assert_eq!(read(&w), 10);
    publish(&mut w);
    assert_eq!(read(&w), 8);
}

#[test]
fn closed_foreground_reads_nothing() {
    let mut w = counter(1);
    w.close();
    assert!(w.read().is_none());
}

#[test]
fn double_take_is_impossible() {
    let mut w = counter(2);
    w.pending().push(CounterAddOp(1));
    let t = take(w);
    assert_eq!(*t.get(), 3);
    // the writer is gone with the take; dropping the value tears it down once
    drop(t);
}

#[test]
fn into_box_keeps_value() {
    let w = counter(5);
    let t = take(w);
    let b = t.into_box();
    assert_eq!(*b, 5);
}

#[test]
fn raw_write_handle_before_first_publish() {
    let mut w: Counter = WriteHandle::new(0, 0, Epochs::new());
    *w.raw_write_handle() = 100;
    // the first publish makes the writer's copy a copy of the readers'
    publish(&mut w);
    assert_eq!(read(&w), 0);
}

#[test]
fn counter_wraps_around() {
    let mut w = counter(i32::MAX);
    w.pending().push(CounterAddOp(1));
    publish(&mut w);
    assert_eq!(read(&w), i32::MIN);
}

#[test]
fn registry_slots() {
    let mut e = Epochs::new();
    let (a, _) = e.register();
    let (b, _) = e.register();
    assert_ne!(a, b);
    assert_eq!(e.slot_list(), vec![a.min(b), a.max(b)]);
    assert!(e.capacity() > a.max(b));
    assert_eq!(e.load(a), Some(0));
    e.deregister(a);
    assert_eq!(e.load(a), None);
    assert_eq!(e.slot_list(), vec![b]);
}

#[test]
fn registry_load_sees_counter() {
    let mut e = Epochs::new();
    let (k, c) = e.register();
    c.fetch_add(3, Ordering::SeqCst);
    assert_eq!(e.load(k), Some(3));
}

#[test]
fn deregistered_reader_no_longer_blocks() {
    let mut w = counter(0);
    let (k, r) = w.register_reader();
    enter(&r);
    w.publish();
    assert!(!w.poll_readers());
    w.deregister_reader(k);
    assert!(w.poll_readers());
}

#[test]
fn debug_output_shows_value() {
    let mut w = counter(6);
    w.pending().push(CounterAddOp(1));
    let t = take(w);
    let s = format!("{:?}", t);
    assert!(s.contains("7"));
}

#[test]
fn take_without_publishing_first() {
    // the withdrawn handle still applies what is pending and owed
    let mut w = counter(2);
    w.pending().push(CounterAddOp(1));
    publish(&mut w);
    w.pending().push(CounterAddOp(2));
    w.close();
    wait(&mut w);
    assert_eq!(*w.take().get(), 5);
}

#[test]
fn unapplied_operations_until_second_publish() {
    let mut w = counter(0);
    assert!(!w.has_unapplied_operations());
    w.pending().push(CounterAddOp(4));
    assert!(w.has_unapplied_operations());
    publish(&mut w);
    assert!(w.has_unapplied_operations());
    publish(&mut w);
    assert!(!w.has_unapplied_operations());
}

#[test]
fn taken_value_can_be_changed() {
    let w = counter(3);
    let mut t = take(w);
    *t.get_mut() += 4;
    assert_eq!(*t.get(), 7);
}

#[test]
fn dropping_a_handle_without_take() {
    let mut w = counter(1);
    let (_, r) = w.register_reader();
    w.pending().push(CounterAddOp(1));
    publish(&mut w);
    drop(w);
    // the reader's counter outlives the handle
    assert_eq!(r.load(Ordering::SeqCst), 0);
}

#[test]
fn snapshot_records_reader_epoch() {
    let mut w = counter(0);
    let (_, r) = w.register_reader();
    r.fetch_add(3, Ordering::SeqCst);
    publish(&mut w);
    // odd epoch 3 read at the swap, unchanged: the wait goes on
    assert!(!w.poll_readers());
    r.fetch_add(1, Ordering::SeqCst);
    assert!(w.poll_readers());
}
