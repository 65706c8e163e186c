//! Joining, beginning an operation, moving the epoch on and collecting keep
//! the invariant.

use crate::heap::HeapView;
use crate::machine::State;
use crate::wellformed::{addr_ok, bag_apart, bag_ok, chain_ok};
use vstd::prelude::*;

verus! {

impl<T> HeapView<T> {
    /// Releasing a list of nodes empties exactly the slots of the list and
    /// moves no pointer.
    pub proof fn lemma_free_all(self, addrs: Seq<usize>)
        ensures
            self.free_all(addrs).nodes.len() == self.nodes.len(),
            self.free_all(addrs).head == self.head,
            self.free_all(addrs).tail == self.tail,
            forall|a: int|
                0 <= a < self.nodes.len() ==> #[trigger] self.free_all(addrs).nodes[a] == (
                if exists|j: int| 0 <= j < addrs.len() && addrs[j] == a {
                    None
                } else {
                    self.nodes[a]
                }),
        decreases addrs.len(),
    {
        if addrs.len() > 0 {
            let front = addrs.drop_last();
            self.lemma_free_all(front);
            let mid = self.free_all(front);
            let r = self.free_all(addrs);
            assert forall|a: int| 0 <= a < self.nodes.len() implies #[trigger] r.nodes[a] == (
            if exists|j: int| 0 <= j < addrs.len() && addrs[j] == a {
                None
            } else {
                self.nodes[a]
            }) by {
                if exists|j: int| 0 <= j < front.len() && front[j] == a {
                    let j = choose|j: int| 0 <= j < front.len() && front[j] == a;
                    assert(addrs[j] == a);
                } else if addrs.last() == a {
                    assert(addrs[addrs.len() - 1] == a);
                } else {
                    assert(mid.nodes[a] == self.nodes[a]);
                    assert forall|j: int| 0 <= j < addrs.len() implies addrs[j] != a by {
                        if j < front.len() {
                            assert(front[j] == addrs[j]);
                        }
                    }
                }
            }
        }
    }
}

impl<T> State<T> {
    /// A collection changes a slot only by releasing it, and releases only a
    /// live node whose tag has expired.
    pub proof fn lemma_collect_nodes(self)
        requires
            self.inv(),
        ensures
            self.collect().heap.nodes.len() == self.heap.nodes.len(),
            self.collect().heap.head == self.heap.head,
            self.collect().heap.tail == self.heap.tail,
            forall|a: int|
                0 <= a < self.heap.nodes.len() ==> {
                    let after = #[trigger] self.collect().heap.nodes[a];
                    &&& after is Some ==> after == self.heap.nodes[a]
                    &&& after is None && self.heap.nodes[a] is Some ==> (
                    self.hist.retired[a] matches Some(g) && g + 2 <= self.gc.epoch)
                },
    {
        let addrs = self.gc.collected();
        self.heap.lemma_free_all(addrs);
        self.gc.lemma_ripe_from(0);
        let s2 = self.collect();
        assert forall|a: int| 0 <= a < self.heap.nodes.len() implies {
            let after = #[trigger] s2.heap.nodes[a];
            &&& after is Some ==> after == self.heap.nodes[a]
            &&& after is None && self.heap.nodes[a] is Some ==> (
            self.hist.retired[a] matches Some(g) && g + 2 <= self.gc.epoch)
        } by {
            if exists|j: int| 0 <= j < addrs.len() && addrs[j] == a {
                let j = choose|j: int| 0 <= j < addrs.len() && addrs[j] == a;
                assert(bag_ok(self.heap.nodes, self.gc.bag, self.hist, j));
                assert(self.gc.expired(self.gc.bag[j]));
            }
        }
    }

    /// A collection keeps the invariant, and keeps the state guarded.
    pub proof fn lemma_collect(self)
        requires
            self.inv(),
        ensures
            self.collect().inv(),
            self.guarded() ==> self.collect().guarded(),
            self.anchored() ==> self.collect().anchored(),
            self.collect().hist == self.hist,
            self.collect().threads == self.threads,
    {
        let s2 = self.collect();
        let k = self.gc.ripe();
        self.lemma_collect_nodes();
        self.gc.lemma_wf_kept(0, 0);
        self.gc.lemma_collect_exact();
        assert(addr_ok(self.heap.nodes, self.gc.epoch, self.hist, self.heap.tail as int));
        if self.hist.pos[self.heap.tail as int] == self.hist.chain.len() - 2 {
            assert(self.thread_ok(self.hist.linker));
        }
        assert(s2.heap.live(s2.heap.tail));
        assert forall|a: int| 0 <= a < s2.heap.nodes.len() implies #[trigger] addr_ok(
            s2.heap.nodes,
            s2.gc.epoch,
            s2.hist,
            a,
        ) by {
            assert(addr_ok(self.heap.nodes, self.gc.epoch, self.hist, a));
        }
        assert forall|i: int| 0 <= i < s2.hist.chain.len() implies #[trigger] chain_ok(
            s2.heap.nodes,
            s2.hist,
            i,
        ) by {
            assert(chain_ok(self.heap.nodes, self.hist, i));
        }
        assert forall|j: int| 0 <= j < s2.gc.bag.len() implies #[trigger] bag_ok(
            s2.heap.nodes,
            s2.gc.bag,
            s2.hist,
            j,
        ) by {
            assert(bag_ok(self.heap.nodes, self.gc.bag, self.hist, j + k));
            assert(!self.gc.expired(self.gc.bag[j + k]));
        }
        assert forall|i: int, j: int| 0 <= i < j < s2.gc.bag.len() implies #[trigger] bag_apart(
            s2.gc.bag,
            i,
            j,
        ) by {
            assert(bag_apart(self.gc.bag, i + k, j + k));
        }
        assert forall|t: int| 0 <= t < s2.threads.len() implies #[trigger] s2.thread_ok(t) by {
            assert(self.thread_ok(t));
            if let Some(n) = crate::wellformed::owned(self.threads[t].op) {
                assert(addr_ok(self.heap.nodes, self.gc.epoch, self.hist, n as int));
            }
        }
        assert forall|t: int, u: int|
            0 <= t < s2.threads.len() && 0 <= u < s2.threads.len() && t != u implies #[trigger] s2.apart(
            t,
            u,
        ) by {
            assert(self.apart(t, u));
        }
        if self.guarded() {
            assert forall|t: int| 0 <= t < s2.threads.len() implies #[trigger] s2.follow_ok(t) by {
                assert(self.follow_ok(t));
                assert(self.thread_ok(t));
            }
        }
    }

    /// Moving the epoch on keeps the invariant, and keeps the state guarded.
    pub proof fn lemma_advance(self)
        requires
            self.inv(),
        ensures
            self.advance().inv(),
            self.guarded() ==> self.advance().guarded(),
    {
        let s2 = self.advance();
        self.gc.lemma_wf_kept(0, 0);
        assert forall|a: int| 0 <= a < s2.heap.nodes.len() implies #[trigger] addr_ok(
            s2.heap.nodes,
            s2.gc.epoch,
            s2.hist,
            a,
        ) by {
            assert(addr_ok(self.heap.nodes, self.gc.epoch, self.hist, a));
        }
        assert forall|t: int| 0 <= t < s2.threads.len() implies #[trigger] s2.thread_ok(t) by {
            assert(self.thread_ok(t));
        }
        assert forall|t: int, u: int|
            0 <= t < s2.threads.len() && 0 <= u < s2.threads.len() && t != u implies #[trigger] s2.apart(
            t,
            u,
        ) by {
            assert(self.apart(t, u));
        }
        if self.guarded() {
            assert forall|t: int| 0 <= t < s2.threads.len() implies #[trigger] s2.follow_ok(t) by {
                assert(self.follow_ok(t));
            }
        }
    }

    /// A participant that joins, leaves or begins an operation keeps the
    /// invariant, and keeps the state guarded.
    pub proof fn lemma_membership(self, who: usize, v: T)
        requires
            self.inv(),
        ensures
            self.join().inv(),
            self.leave().inv(),
            self.begin_enq(who, v).inv(),
            self.begin_deq(who).inv(),
            self.guarded() ==> self.join().guarded() && self.leave().guarded() && self.begin_enq(
                who,
                v,
            ).guarded() && self.begin_deq(who).guarded(),
    {
        self.gc.lemma_wf_kept(0, 0);
        self.lemma_frame(self.join());
        self.lemma_frame(self.leave());
        if who < self.threads.len() {
            assert(self.thread_ok(who as int));
        }
        self.lemma_frame(self.begin_enq(who, v));
        self.lemma_frame(self.begin_deq(who));
    }

    /// A state that differs from this one only in participants that are idle
    /// or about to pin, here or there, satisfies the invariant with it.
    proof fn lemma_frame(self, s2: Self)
        requires
            self.inv(),
            s2.heap == self.heap,
            s2.hist == self.hist,
            s2.gc.epoch == self.gc.epoch,
            s2.gc.bag == self.gc.bag,
            s2.gc.wf(),
            s2.gc.pins.len() == s2.threads.len(),
            forall|t: int|
                0 <= t < s2.threads.len() ==> {
                    ||| (t < self.threads.len() && #[trigger] s2.threads[t] == self.threads[t]
                        && s2.gc.pins[t] == self.gc.pins[t])
                    ||| (s2.gc.pins[t] is None && crate::wellformed::owned(s2.threads[t].op) is None
                        && crate::wellformed::claimed(s2.threads[t].op) is None
                        && crate::wellformed::followed(s2.threads[t].op) is None && s2.thread_ok(
                        t,
                    ))
                },
            self.lag_ok() ==> s2.lag_ok(),
        ensures
            s2.inv(),
            self.guarded() ==> s2.guarded(),
    {
        assert forall|t: int| 0 <= t < s2.threads.len() implies #[trigger] s2.thread_ok(t) by {
            if t < self.threads.len() && s2.threads[t] == self.threads[t] {
                assert(self.thread_ok(t));
            }
        }
        assert forall|t: int, u: int|
            0 <= t < s2.threads.len() && 0 <= u < s2.threads.len() && t != u implies #[trigger] s2.apart(
            t,
            u,
        ) by {
            if t < self.threads.len() && u < self.threads.len() {
                assert(self.apart(t, u));
            }
        }
        if self.guarded() {
            assert forall|t: int| 0 <= t < s2.threads.len() implies #[trigger] s2.follow_ok(t) by {
                if t < self.threads.len() {
                    assert(self.follow_ok(t));
                }
            }
        }
    }
}

} // verus!
