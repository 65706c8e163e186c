//! Every step of a dequeue keeps the invariant.

use crate::machine::{Op, State};
use crate::protocol::DeqState;
use crate::wellformed::{addr_ok, bag_apart, bag_ok, chain_ok};
use vstd::prelude::*;

verus! {

impl<T> State<T> {
    /// The steps that touch no node: pinning, reading the head pointer or a
    /// link, unpinning.
    proof fn lemma_deq_local(self, who: usize, st: DeqState)
        requires
            self.inv(),
            who < self.threads.len(),
            self.threads[who as int].op == Op::Deq(st),
            st is Pin || st is LoadHead || st is LoadNext || st is Unpin || st is Done,
        ensures
            self.step_deq(who, st).inv(),
            self.guarded() ==> self.step_deq(who, st).guarded(),
    {
        let s2 = self.step_deq(who, st);
        let w = who as int;
        assert(self.thread_ok(w));
        assert(chain_ok(self.heap.nodes, self.hist, self.hist.served as int));
        assert(addr_ok(self.heap.nodes, self.gc.epoch, self.hist, self.heap.head as int));
        if self.hist.served + 1 < self.hist.chain.len() {
            let next = self.hist.chain[self.hist.served as int + 1];
            assert(chain_ok(self.heap.nodes, self.hist, self.hist.served as int + 1));
            assert(addr_ok(self.heap.nodes, self.gc.epoch, self.hist, next as int));
        }
        if let DeqState::LoadNext { head } = st {
            assert(addr_ok(self.heap.nodes, self.gc.epoch, self.hist, head as int));
        }
        assert forall|t: int| 0 <= t < s2.threads.len() implies #[trigger] s2.thread_ok(t) by {
            assert(self.thread_ok(t));
        }
        assert forall|t: int, u: int|
            0 <= t < s2.threads.len() && 0 <= u < s2.threads.len() && t != u implies #[trigger] s2.apart(
            t,
            u,
        ) by {
            assert(self.apart(t, u));
        }
        if self.guarded() {
            assert forall|t: int| 0 <= t < s2.threads.len() implies #[trigger] s2.follow_ok(t) by {
                assert(self.follow_ok(t));
            }
        }
    }

    /// The step that moves the head pointer, or fails to.
    proof fn lemma_deq_swing(self, who: usize, head: usize, next: usize)
        requires
            self.inv(),
            who < self.threads.len(),
            self.threads[who as int].op == Op::Deq(DeqState::Swing { head, next }),
        ensures
            self.step_deq(who, DeqState::Swing { head, next }).inv(),
            self.guarded() ==> self.step_deq(who, DeqState::Swing { head, next }).guarded(),
    {
        let st = DeqState::Swing { head, next };
        let s2 = self.step_deq(who, st);
        let w = who as int;
        let served = self.hist.served as int;
        assert(self.thread_ok(w));
        assert(chain_ok(self.heap.nodes, self.hist, served));
        assert(addr_ok(self.heap.nodes, self.gc.epoch, self.hist, self.heap.head as int));
        assert(addr_ok(self.heap.nodes, self.gc.epoch, self.hist, self.heap.tail as int));
        assert(addr_ok(self.heap.nodes, self.gc.epoch, self.hist, head as int));
        if self.heap.head == head {
            assert(chain_ok(self.heap.nodes, self.hist, served + 1));
            assert(addr_ok(self.heap.nodes, self.gc.epoch, self.hist, next as int));
            assert forall|a: int| 0 <= a < s2.heap.nodes.len() implies #[trigger] addr_ok(
                s2.heap.nodes,
                s2.gc.epoch,
                s2.hist,
                a,
            ) by {
                assert(addr_ok(self.heap.nodes, self.gc.epoch, self.hist, a));
            }
            assert forall|i: int| 0 <= i < s2.hist.chain.len() implies #[trigger] chain_ok(
                s2.heap.nodes,
                s2.hist,
                i,
            ) by {
                assert(chain_ok(self.heap.nodes, self.hist, i));
            }
            assert forall|j: int| 0 <= j < s2.gc.bag.len() implies #[trigger] bag_ok(
                s2.heap.nodes,
                s2.gc.bag,
                s2.hist,
                j,
            ) by {
                assert(bag_ok(self.heap.nodes, self.gc.bag, self.hist, j));
            }
        }
        assert forall|t: int| 0 <= t < s2.threads.len() implies #[trigger] s2.thread_ok(t) by {
            assert(self.thread_ok(t));
        }
        assert forall|t: int, u: int|
            0 <= t < s2.threads.len() && 0 <= u < s2.threads.len() && t != u implies #[trigger] s2.apart(
            t,
            u,
        ) by {
            assert(self.apart(t, u));
            assert(self.thread_ok(t));
            assert(self.thread_ok(u));
            if self.heap.head == head {
                if let Some(c) = crate::wellformed::claimed(self.threads[t].op) {
                    assert(addr_ok(self.heap.nodes, self.gc.epoch, self.hist, c as int));
                }
                if let Some(c) = crate::wellformed::claimed(self.threads[u].op) {
                    assert(addr_ok(self.heap.nodes, self.gc.epoch, self.hist, c as int));
                }
            }
        }
        if self.guarded() {
            assert forall|t: int| 0 <= t < s2.threads.len() implies #[trigger] s2.follow_ok(t) by {
                assert(self.follow_ok(t));
            }
        }
    }

    /// The step that moves the payload out of the new sentinel.
    proof fn lemma_deq_take(self, who: usize, head: usize, next: usize)
        requires
            self.inv(),
            who < self.threads.len(),
            self.threads[who as int].op == Op::Deq(DeqState::Take { head, next }),
        ensures
            self.step_deq(who, DeqState::Take { head, next }).inv(),
            self.guarded() ==> self.step_deq(who, DeqState::Take { head, next }).guarded(),
    {
        let st = DeqState::Take { head, next };
        let s2 = self.step_deq(who, st);
        let w = who as int;
        assert(self.thread_ok(w));
        assert(addr_ok(self.heap.nodes, self.gc.epoch, self.hist, head as int));
        assert(addr_ok(self.heap.nodes, self.gc.epoch, self.hist, next as int));
        assert forall|a: int| 0 <= a < s2.heap.nodes.len() implies #[trigger] addr_ok(
            s2.heap.nodes,
            s2.gc.epoch,
            s2.hist,
            a,
        ) by {
            assert(addr_ok(self.heap.nodes, self.gc.epoch, self.hist, a));
        }
        assert forall|i: int| 0 <= i < s2.hist.chain.len() implies #[trigger] chain_ok(
            s2.heap.nodes,
            s2.hist,
            i,
        ) by {
            assert(chain_ok(self.heap.nodes, self.hist, i));
        }
        assert forall|j: int| 0 <= j < s2.gc.bag.len() implies #[trigger] bag_ok(
            s2.heap.nodes,
            s2.gc.bag,
            s2.hist,
            j,
        ) by {
            assert(bag_ok(self.heap.nodes, self.gc.bag, self.hist, j));
        }
        assert forall|t: int| 0 <= t < s2.threads.len() implies #[trigger] s2.thread_ok(t) by {
            assert(self.thread_ok(t));
            if t != w {
                assert(self.apart(t, w));
                if let Op::Deq(DeqState::Take { head: h2, next: n2 }) = self.threads[t].op {
                    assert(addr_ok(self.heap.nodes, self.gc.epoch, self.hist, h2 as int));
                }
            }
        }
        assert forall|t: int, u: int|
            0 <= t < s2.threads.len() && 0 <= u < s2.threads.len() && t != u implies #[trigger] s2.apart(
            t,
            u,
        ) by {
            assert(self.apart(t, u));
        }
        if self.guarded() {
            assert forall|t: int| 0 <= t < s2.threads.len() implies #[trigger] s2.follow_ok(t) by {
                assert(self.follow_ok(t));
            }
        }
    }

    /// The step that hands the old sentinel to the reclaimer.
    proof fn lemma_deq_retire(self, who: usize, head: usize)
        requires
            self.inv(),
            who < self.threads.len(),
            self.threads[who as int].op == Op::Deq(DeqState::Retire { head }),
        ensures
            self.step_deq(who, DeqState::Retire { head }).inv(),
            self.guarded() ==> self.step_deq(who, DeqState::Retire { head }).guarded(),
    {
        let st = DeqState::Retire { head };
        let s2 = self.step_deq(who, st);
        let w = who as int;
        let n = self.gc.bag.len() as int;
        assert(self.thread_ok(w));
        self.gc.lemma_wf_kept(who, head);
        assert(addr_ok(self.heap.nodes, self.gc.epoch, self.hist, head as int));
        assert(addr_ok(self.heap.nodes, self.gc.epoch, self.hist, self.heap.tail as int));
        assert forall|a: int| 0 <= a < s2.heap.nodes.len() implies #[trigger] addr_ok(
            s2.heap.nodes,
            s2.gc.epoch,
            s2.hist,
            a,
        ) by {
            assert(addr_ok(self.heap.nodes, self.gc.epoch, self.hist, a));
        }
        assert forall|i: int| 0 <= i < s2.hist.chain.len() implies #[trigger] chain_ok(
            s2.heap.nodes,
            s2.hist,
            i,
        ) by {
            assert(chain_ok(self.heap.nodes, self.hist, i));
        }
        assert forall|j: int| 0 <= j < s2.gc.bag.len() implies #[trigger] bag_ok(
            s2.heap.nodes,
            s2.gc.bag,
            s2.hist,
            j,
        ) by {
            if j < n {
                assert(bag_ok(self.heap.nodes, self.gc.bag, self.hist, j));
            }
        }
        assert forall|i: int, j: int| 0 <= i < j < s2.gc.bag.len() implies #[trigger] bag_apart(
            s2.gc.bag,
            i,
            j,
        ) by {
            assert(bag_ok(self.heap.nodes, self.gc.bag, self.hist, i));
            if j < n {
                assert(bag_apart(self.gc.bag, i, j));
            }
        }
        assert forall|t: int| 0 <= t < s2.threads.len() implies #[trigger] s2.thread_ok(t) by {
            assert(self.thread_ok(t));
            if t != w {
                assert(self.apart(t, w));
            }
        }
        assert forall|t: int, u: int|
            0 <= t < s2.threads.len() && 0 <= u < s2.threads.len() && t != u implies #[trigger] s2.apart(
            t,
            u,
        ) by {
            assert(self.apart(t, u));
        }
        if self.guarded() {
            assert forall|t: int| 0 <= t < s2.threads.len() implies #[trigger] s2.follow_ok(t) by {
                assert(self.follow_ok(t));
                assert(self.thread_ok(t));
            }
        }
    }

    /// Every step of a dequeue keeps the invariant, and keeps the state
    /// guarded.
    pub proof fn lemma_step_deq(self, who: usize, st: DeqState)
        requires
            self.inv(),
            who < self.threads.len(),
            self.threads[who as int].op == Op::Deq(st),
        ensures
            self.step_deq(who, st).inv(),
            self.guarded() ==> self.step_deq(who, st).guarded(),
    {
        match st {
            DeqState::Swing { head, next } => self.lemma_deq_swing(who, head, next),
            DeqState::Take { head, next } => self.lemma_deq_take(who, head, next),
            DeqState::Retire { head } => self.lemma_deq_retire(who, head),
            _ => self.lemma_deq_local(who, st),
        }
    }
}

} // verus!
