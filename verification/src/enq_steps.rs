//! Every step of an enqueue keeps the invariant.

use crate::machine::{Op, State};
use crate::protocol::EnqState;
use crate::wellformed::{addr_ok, bag_ok, chain_ok};
use vstd::prelude::*;

verus! {

impl<T> State<T> {
    /// The steps that touch no node: pinning, reading the tail pointer or a
    /// link, unpinning.
    proof fn lemma_enq_local(self, who: usize, st: EnqState)
        requires
            self.inv(),
            who < self.threads.len(),
            self.threads[who as int].op == Op::Enq(st),
            st is Pin || st is LoadTail || st is LoadNext || st is Unpin || st is Done,
        ensures
            self.step_enq(who, st).inv(),
            self.guarded() && !self.hazard(who) ==> self.step_enq(who, st).guarded(),
    {
        let s2 = self.step_enq(who, st);
        let w = who as int;
        assert(self.thread_ok(w));
        assert(addr_ok(self.heap.nodes, self.gc.epoch, self.hist, self.heap.tail as int));
        if self.hist.pos[self.heap.tail as int] + 1 < self.hist.chain.len() {
            let last = self.hist.chain[self.hist.pos[self.heap.tail as int] + 1];
            assert(chain_ok(self.heap.nodes, self.hist, self.hist.pos[self.heap.tail as int] + 1));
            assert(addr_ok(self.heap.nodes, self.gc.epoch, self.hist, last as int));
        }
        if let EnqState::LoadNext { tail, .. } = st {
            assert(addr_ok(self.heap.nodes, self.gc.epoch, self.hist, tail as int));
        }
        assert forall|t: int| 0 <= t < s2.threads.len() implies #[trigger] s2.thread_ok(t) by {
            assert(self.thread_ok(t));
        }
        assert forall|t: int, u: int|
            0 <= t < s2.threads.len() && 0 <= u < s2.threads.len() && t != u implies #[trigger] s2.apart(
            t,
            u,
        ) by {
            assert(self.apart(t, u));
        }
        if self.guarded() && !self.hazard(who) {
            assert forall|t: int| 0 <= t < s2.threads.len() implies #[trigger] s2.follow_ok(t) by {
                assert(self.follow_ok(t));
            }
        }
    }

    /// The step that allocates the node.
    proof fn lemma_enq_alloc(self, who: usize)
        requires
            self.inv(),
            who < self.threads.len(),
            self.threads[who as int].op == Op::Enq(EnqState::Alloc),
            self.heap.nodes.len() < usize::MAX,
        ensures
            self.step_enq(who, EnqState::Alloc).inv(),
            self.guarded() ==> self.step_enq(who, EnqState::Alloc).guarded(),
    {
        let s2 = self.step_enq(who, EnqState::Alloc);
        let w = who as int;
        let n = self.heap.nodes.len() as int;
        assert(self.thread_ok(w));
        assert(addr_ok(self.heap.nodes, self.gc.epoch, self.hist, self.heap.tail as int));
        assert forall|a: int| 0 <= a < s2.heap.nodes.len() implies #[trigger] addr_ok(
            s2.heap.nodes,
            s2.gc.epoch,
            s2.hist,
            a,
        ) by {
            if a < n {
                assert(addr_ok(self.heap.nodes, self.gc.epoch, self.hist, a));
            }
        }
        assert forall|i: int| 0 <= i < s2.hist.chain.len() implies #[trigger] chain_ok(
            s2.heap.nodes,
            s2.hist,
            i,
        ) by {
            assert(chain_ok(self.heap.nodes, self.hist, i));
        }
        assert forall|j: int| 0 <= j < s2.gc.bag.len() implies #[trigger] bag_ok(
            s2.heap.nodes,
            s2.gc.bag,
            s2.hist,
            j,
        ) by {
            assert(bag_ok(self.heap.nodes, self.gc.bag, self.hist, j));
        }
        assert forall|t: int| 0 <= t < s2.threads.len() implies #[trigger] s2.thread_ok(t) by {
            assert(self.thread_ok(t));
        }
        assert forall|t: int, u: int|
            0 <= t < s2.threads.len() && 0 <= u < s2.threads.len() && t != u implies #[trigger] s2.apart(
            t,
            u,
        ) by {
            assert(self.apart(t, u));
            assert(self.thread_ok(t));
            assert(self.thread_ok(u));
        }
        if self.guarded() {
            assert forall|t: int| 0 <= t < s2.threads.len() implies #[trigger] s2.follow_ok(t) by {
                assert(self.follow_ok(t));
                assert(self.thread_ok(t));
            }
        }
    }

    /// The step that links the node behind the last one, or fails to.
    proof fn lemma_enq_link(self, who: usize, node: usize, tail: usize)
        requires
            self.inv(),
            who < self.threads.len(),
            self.threads[who as int].op == Op::Enq(EnqState::Link { node, tail }),
        ensures
            self.step_enq(who, EnqState::Link { node, tail }).inv(),
            self.guarded() ==> self.step_enq(who, EnqState::Link { node, tail }).guarded(),
    {
        let st = EnqState::Link { node, tail };
        let s2 = self.step_enq(who, st);
        let w = who as int;
        let len = self.hist.chain.len() as int;
        assert(self.thread_ok(w));
        assert(addr_ok(self.heap.nodes, self.gc.epoch, self.hist, self.heap.tail as int));
        assert(addr_ok(self.heap.nodes, self.gc.epoch, self.hist, tail as int));
        assert(addr_ok(self.heap.nodes, self.gc.epoch, self.hist, node as int));
        if self.heap.can_link(tail) == Some(true) {
            assert(self.hist.pos[tail as int] == len - 1);
            assert(self.heap.tail == tail);
            assert(node != tail);
            assert forall|a: int| 0 <= a < s2.heap.nodes.len() implies #[trigger] addr_ok(
                s2.heap.nodes,
                s2.gc.epoch,
                s2.hist,
                a,
            ) by {
                assert(addr_ok(self.heap.nodes, self.gc.epoch, self.hist, a));
            }
            assert forall|i: int| 0 <= i < s2.hist.chain.len() implies #[trigger] chain_ok(
                s2.heap.nodes,
                s2.hist,
                i,
            ) by {
                if i < len {
                    assert(chain_ok(self.heap.nodes, self.hist, i));
                }
            }
            assert forall|j: int| 0 <= j < s2.gc.bag.len() implies #[trigger] bag_ok(
                s2.heap.nodes,
                s2.gc.bag,
                s2.hist,
                j,
            ) by {
                assert(bag_ok(self.heap.nodes, self.gc.bag, self.hist, j));
            }
            assert forall|t: int| 0 <= t < s2.threads.len() implies #[trigger] s2.thread_ok(t) by {
                assert(self.thread_ok(t));
                if t != w {
                    assert(self.apart(t, w));
                }
            }
            assert(s2.lag_ok());
        } else {
            assert forall|t: int| 0 <= t < s2.threads.len() implies #[trigger] s2.thread_ok(t) by {
                assert(self.thread_ok(t));
            }
        }
        assert forall|t: int, u: int|
            0 <= t < s2.threads.len() && 0 <= u < s2.threads.len() && t != u implies #[trigger] s2.apart(
            t,
            u,
        ) by {
            assert(self.apart(t, u));
        }
        if self.guarded() {
            assert forall|t: int| 0 <= t < s2.threads.len() implies #[trigger] s2.follow_ok(t) by {
                assert(self.follow_ok(t));
                assert(self.thread_ok(t));
            }
        }
    }

    /// The steps that move the tail pointer on, for this enqueue or for the
    /// one that left it behind.
    proof fn lemma_enq_swing(self, who: usize, st: EnqState)
        requires
            self.inv(),
            who < self.threads.len(),
            self.threads[who as int].op == Op::Enq(st),
            st is Help || st is Swing,
        ensures
            self.step_enq(who, st).inv(),
            self.guarded() ==> self.step_enq(who, st).guarded(),
    {
        let s2 = self.step_enq(who, st);
        let w = who as int;
        let len = self.hist.chain.len() as int;
        assert(self.thread_ok(w));
        assert(addr_ok(self.heap.nodes, self.gc.epoch, self.hist, self.heap.tail as int));
        if let EnqState::Help { tail, .. } = st {
            assert(chain_ok(self.heap.nodes, self.hist, self.hist.pos[tail as int] + 1));
        }
        assert(addr_ok(self.heap.nodes, self.gc.epoch, self.hist, s2.heap.tail as int));
        assert(s2.hist.pos[s2.heap.tail as int] >= self.hist.pos[self.heap.tail as int]);
        assert forall|t: int| 0 <= t < s2.threads.len() implies #[trigger] s2.thread_ok(t) by {
            assert(self.thread_ok(t));
        }
        assert forall|t: int, u: int|
            0 <= t < s2.threads.len() && 0 <= u < s2.threads.len() && t != u implies #[trigger] s2.apart(
            t,
            u,
        ) by {
            assert(self.apart(t, u));
        }
        if self.guarded() {
            assert forall|t: int| 0 <= t < s2.threads.len() implies #[trigger] s2.follow_ok(t) by {
                assert(self.follow_ok(t));
            }
        }
    }

    /// Every step of an enqueue keeps the invariant. It keeps the state
    /// guarded unless it reads a tail pointer that its pin does not shield.
    pub proof fn lemma_step_enq(self, who: usize, st: EnqState)
        requires
            self.inv(),
            who < self.threads.len(),
            self.threads[who as int].op == Op::Enq(st),
            st is Alloc ==> self.heap.nodes.len() < usize::MAX,
        ensures
            self.step_enq(who, st).inv(),
            self.guarded() && !self.hazard(who) ==> self.step_enq(who, st).guarded(),
    {
        match st {
            EnqState::Alloc => self.lemma_enq_alloc(who),
            EnqState::Link { node, tail } => self.lemma_enq_link(who, node, tail),
            EnqState::Help { .. } => self.lemma_enq_swing(who, st),
            EnqState::Swing { .. } => self.lemma_enq_swing(who, st),
            _ => self.lemma_enq_local(who, st),
        }
    }
}

} // verus!
