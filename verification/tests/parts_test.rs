use queue_rs::epoch::Collector;
use queue_rs::heap::{Heap, Node};
use queue_rs::protocol::{Action, DeqState, EnqState, Event, Fence};

#[test]
fn node_constructors() {
    let n = Node::new(5u8);
    assert_eq!(n.next, None);
    assert_eq!(n.data, Some(5));
    let s: Node<u8> = Node::sentinel();
    assert_eq!(s.next, None);
    assert_eq!(s.data, None);
}

#[test]
fn enqueue_automaton_follows_the_algorithm() {
    let s = EnqState::start();
    assert_eq!(s.action(), Action::Pin);
    let s = s.next(Event::Pinned);
    assert_eq!(s.action(), Action::Alloc);
    let s = s.next(Event::Allocated(7));
    assert_eq!(s.action(), Action::LoadTail);
    let s = s.next(Event::Loaded(Some(3)));
    assert_eq!(s.action(), Action::LoadNext { node: 3 });
    // The tail lags: help, then start over.
    let h = s.next(Event::Loaded(Some(4)));
    assert_eq!(h.action(), Action::SwingTail { from: 3, to: 4 });
    assert_eq!(h.next(Event::Swapped(false)), EnqState::LoadTail { node: 7 });
    assert_eq!(h.next(Event::Swapped(true)), EnqState::LoadTail { node: 7 });
    // The tail is up to date: link.
    let l = s.next(Event::Loaded(None));
    assert_eq!(l.action(), Action::Link { after: 3, node: 7 });
    assert_eq!(l.next(Event::Swapped(false)), EnqState::LoadTail { node: 7 });
    let w = l.next(Event::Swapped(true));
    assert_eq!(w.action(), Action::SwingTail { from: 3, to: 7 });
    assert_eq!(w.next(Event::Swapped(false)), EnqState::Unpin);
    let u = w.next(Event::Swapped(true));
    assert_eq!(u.action(), Action::Unpin);
    let d = u.next(Event::Unpinned);
    assert_eq!(d, EnqState::Done);
    assert_eq!(d.action(), Action::Finish);
    assert_eq!(d.next(Event::Pinned), EnqState::Done);
}

#[test]
fn dequeue_automaton_follows_the_algorithm() {
    let s = DeqState::start();
    assert_eq!(s.action(), Action::Pin);
    let s = s.next(Event::Pinned);
    assert_eq!(s.action(), Action::LoadHead);
    let s = s.next(Event::Loaded(Some(2)));
    assert_eq!(s.action(), Action::LoadNext { node: 2 });
    // Empty.
    let e = s.next(Event::Loaded(None));
    assert_eq!(e, DeqState::Unpin { found: false });
    assert_eq!(e.action(), Action::Unpin);
    assert_eq!(e.next(Event::Unpinned), DeqState::Done { found: false });
    // Not empty.
    let w = s.next(Event::Loaded(Some(5)));
    assert_eq!(w.action(), Action::SwingHead { from: 2, to: 5 });
    assert_eq!(w.next(Event::Swapped(false)), DeqState::LoadHead);
    let t = w.next(Event::Swapped(true));
    assert_eq!(t.action(), Action::Take { node: 5 });
    let r = t.next(Event::Taken);
    assert_eq!(r.action(), Action::Retire { node: 2 });
    let u = r.next(Event::Retired);
    assert_eq!(u, DeqState::Unpin { found: true });
    let d = u.next(Event::Unpinned);
    assert_eq!(d, DeqState::Done { found: true });
    assert_eq!(d.action(), Action::Finish);
}

#[test]
fn stray_events_are_ignored() {
    assert_eq!(EnqState::Pin.next(Event::Swapped(true)), EnqState::Pin);
    assert_eq!(EnqState::Alloc.next(Event::Pinned), EnqState::Alloc);
    let s = EnqState::LoadTail { node: 1 };
    assert_eq!(s.next(Event::Loaded(None)), s);
    assert_eq!(s.next(Event::Taken), s);
    let s = EnqState::Link { node: 1, tail: 0 };
    assert_eq!(s.next(Event::Loaded(None)), s);
    assert_eq!(DeqState::LoadHead.next(Event::Loaded(None)), DeqState::LoadHead);
    let s = DeqState::Take { head: 0, next: 1 };
    assert_eq!(s.next(Event::Retired), s);
    let s = DeqState::Retire { head: 0 };
    assert_eq!(s.next(Event::Taken), s);
    assert_eq!(DeqState::Pin.next(Event::Unpinned), DeqState::Pin);
}

#[test]
fn heap_links_once() {
    let mut h: Heap<u8> = Heap::new();
    assert_eq!((h.len(), h.head(), h.tail()), (1, 0, 0));
    assert_eq!(h.next_of(0), Some(None));
    let a = h.allocate(Node::new(10));
    let b = h.allocate(Node::new(20));
    assert_eq!((a, b, h.len()), (1, 2, 3));
    assert_eq!(h.link(0, a), Some(true));
    assert_eq!(h.link(0, b), Some(false));
    assert_eq!(h.next_of(0), Some(Some(a)));
    assert_eq!(h.next_of(a), Some(None));
    assert_eq!(h.link(a, b), Some(true));
    assert_eq!(h.next_of(a), Some(Some(b)));
}

#[test]
fn heap_swings_compare_first() {
    let mut h: Heap<u8> = Heap::new();
    let a = h.allocate(Node::new(10));
    assert!(!h.swing_tail(a, 0));
    assert_eq!(h.tail(), 0);
    assert!(h.swing_tail(0, a));
    assert_eq!(h.tail(), a);
    assert!(!h.swing_head(a, 0));
    assert_eq!(h.head(), 0);
    assert!(h.swing_head(0, a));
    assert_eq!(h.head(), a);
}

#[test]
fn heap_take_and_free() {
    let mut h: Heap<u8> = Heap::new();
    let a = h.allocate(Node::new(10));
    assert_eq!(h.take(a), Some(Some(10)));
    assert_eq!(h.take(a), Some(None));
    assert_eq!(h.take(0), Some(None));
    assert!(h.is_live(a));
    assert!(h.free(a));
    assert!(!h.is_live(a));
    assert!(!h.free(a));
    assert_eq!(h.take(a), None);
    assert_eq!(h.next_of(a), None);
    assert_eq!(h.link(a, 0), None);
    // An address that was never handed out behaves like a reclaimed one.
    assert!(!h.is_live(9));
    assert_eq!(h.next_of(9), None);
    assert_eq!(h.link(9, 0), None);
    assert_eq!(h.take(9), None);
    assert!(!h.free(9));
    // A new allocation does not reuse the address.
    assert_eq!(h.allocate(Node::new(11)), 2);
}

#[test]
fn collector_pins_at_the_current_epoch() {
    let mut c = Collector::new();
    assert_eq!(c.epoch(), 0);
    let a = c.register();
    let b = c.register();
    assert_eq!((a, b), (0, 1));
    assert_eq!(c.pinned_at(a), None);
    c.pin(a);
    assert_eq!(c.pinned_at(a), Some(0));
    assert!(c.try_advance());
    assert_eq!(c.epoch(), 1);
    // `a` is still at epoch 0: the epoch cannot move again.
    assert!(!c.try_advance());
    // Pinning again keeps the epoch of the first pin.
    c.pin(a);
    assert_eq!(c.pinned_at(a), Some(0));
    c.pin(b);
    assert_eq!(c.pinned_at(b), Some(1));
    assert!(!c.try_advance());
    c.unpin(a);
    assert_eq!(c.pinned_at(a), None);
    assert!(c.try_advance());
    assert_eq!(c.epoch(), 2);
    assert!(!c.try_advance());
    c.unpin(b);
    assert!(c.try_advance());
    // Unknown handles are ignored.
    c.pin(17);
    c.unpin(17);
    assert_eq!(c.pinned_at(17), None);
    c.unregister();
    assert_eq!(c.pinned_at(b), None);
}

#[test]
fn collector_hands_out_expired_nodes_oldest_first() {
    let mut c = Collector::new();
    c.defer_destroy(40);
    assert!(c.try_advance());
    c.defer_destroy(41);
    c.defer_destroy(42);
    assert_eq!(c.pending(), 3);
    assert_eq!(c.collect(), Vec::<usize>::new());
    assert!(c.try_advance());
    assert_eq!(c.collect(), vec![40]);
    assert_eq!(c.pending(), 2);
    assert!(c.try_advance());
    assert_eq!(c.collect(), vec![41, 42]);
    assert_eq!(c.pending(), 0);
    assert_eq!(c.collect(), Vec::<usize>::new());
}

#[test]
fn loads_acquire_and_swaps_release() {
    assert_eq!(Action::LoadHead.fence(), Fence::Acquire);
    assert_eq!(Action::LoadTail.fence(), Fence::Acquire);
    assert_eq!(Action::LoadNext { node: 1 }.fence(), Fence::Acquire);
    assert_eq!(Action::Link { after: 0, node: 1 }.fence(), Fence::Release);
    assert_eq!(Action::SwingTail { from: 0, to: 1 }.fence(), Fence::Release);
    assert_eq!(Action::SwingHead { from: 0, to: 1 }.fence(), Fence::Release);
    assert_eq!(Action::Pin.fence(), Fence::Relaxed);
    assert_eq!(Action::Alloc.fence(), Fence::Relaxed);
    assert_eq!(Action::Take { node: 1 }.fence(), Fence::Relaxed);
    assert_eq!(Action::Retire { node: 0 }.fence(), Fence::Relaxed);
    assert_eq!(Action::Unpin.fence(), Fence::Relaxed);
    assert_eq!(Action::Finish.fence(), Fence::Relaxed);
}
