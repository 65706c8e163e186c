//! What the machine guarantees, step by step.

use crate::heap::HeapView;
use crate::machine::{Op, Progress, State, Thread};
use crate::protocol::{DeqState, EnqState};
use crate::wellformed::{addr_ok, chain_ok, holds, shielded};
use vstd::prelude::*;

verus! {

/// The value that an operation holds: an enqueue holds its value until the
/// node is linked, a dequeue holds the payload that it has won from the
/// moment the head pointer moved.
pub open spec fn held<T>(heap: HeapView<T>, th: Thread<T>) -> Option<T> {
    match th.op {
        Op::Enq(EnqState::Pin) => th.carry,
        Op::Enq(EnqState::Alloc) => th.carry,
        Op::Enq(EnqState::LoadTail { node }) => heap.node(node).data,
        Op::Enq(EnqState::LoadNext { node, .. }) => heap.node(node).data,
        Op::Enq(EnqState::Link { node, .. }) => heap.node(node).data,
        Op::Enq(EnqState::Help { node, .. }) => heap.node(node).data,
        Op::Deq(DeqState::Take { next, .. }) => heap.node(next).data,
        Op::Deq(DeqState::Retire { .. }) => th.carry,
        Op::Deq(DeqState::Unpin { .. }) => th.carry,
        _ => None,
    }
}

impl<T> State<T> {
    /// The heap has an address left for the node that the step of `who`
    /// allocates, if it allocates one.
    pub open spec fn room(self, who: usize) -> bool {
        self.op(who) == Op::Enq(EnqState::Alloc) ==> self.heap.nodes.len() < usize::MAX
    }

    /// The value that the operation of `who` holds; `None` for an unknown
    /// participant.
    pub open spec fn cargo(self, who: usize) -> Option<T> {
        if who < self.threads.len() {
            held(self.heap, self.threads[who as int])
        } else {
            None
        }
    }

    /// Every step of every participant keeps the invariant. It keeps the
    /// state guarded unless it reads a tail pointer that the pin of the
    /// participant does not shield.
    pub proof fn lemma_step(self, who: usize)
        requires
            self.inv(),
            self.room(who),
        ensures
            self.step(who).inv(),
            self.guarded() && !self.hazard(who) ==> self.step(who).guarded(),
    {
        match self.op(who) {
            Op::Idle => {},
            Op::Enq(st) => self.lemma_step_enq(who, st),
            Op::Deq(st) => self.lemma_step_deq(who, st),
        }
    }

    /// The head pointer stays at or before the tail pointer under every step
    /// but one that overtakes, and while it does, every tail pointer that is
    /// read is shielded.
    pub proof fn lemma_step_anchored(self, who: usize)
        requires
            self.inv(),
            self.anchored(),
        ensures
            !self.overtakes(who) ==> self.step(who).anchored(),
            !self.hazard(who),
    {
        let tail = self.heap.tail as int;
        assert(addr_ok(self.heap.nodes, self.gc.epoch, self.hist, tail));
        assert(chain_ok(self.heap.nodes, self.hist, self.hist.served as int));
        if who < self.threads.len() {
            assert(self.thread_ok(who as int));
            match self.op(who) {
                Op::Enq(EnqState::Help { tail: p, .. }) => {
                    assert(chain_ok(self.heap.nodes, self.hist, self.hist.pos[p as int] + 1));
                },
                Op::Enq(EnqState::Link { node, tail: p }) => {
                    assert(addr_ok(self.heap.nodes, self.gc.epoch, self.hist, p as int));
                    assert(addr_ok(self.heap.nodes, self.gc.epoch, self.hist, node as int));
                },
                Op::Deq(DeqState::Swing { head, .. }) => {
                    assert(addr_ok(self.heap.nodes, self.gc.epoch, self.hist, head as int));
                },
                _ => {},
            }
        }
    }

    /// In a guarded state every address that an operation holds is shielded
    /// by the pin of its participant: the node is live, and the reclaimer
    /// does not release it before the participant has unpinned. So no
    /// compare-and-swap ever compares with the address of a released node,
    /// and it makes no difference that the heap hands out no address twice.
    pub proof fn lemma_held_shielded(self, t: int, x: usize)
        requires
            self.inv(),
            self.guarded(),
            0 <= t < self.threads.len(),
            holds(self.threads[t].op, x),
        ensures
            shielded(self.heap, self.hist, self.gc.pins[t], x),
            self.collect().heap.nodes[x as int] == self.heap.nodes[x as int],
    {
        assert(self.thread_ok(t));
        assert(self.follow_ok(t));
        assert(addr_ok(self.heap.nodes, self.gc.epoch, self.hist, x as int));
        self.lemma_collect_nodes();
    }

    /// The links from the node at index `i` of the chain lead through the
    /// payloads that the log records from `i` on.
    proof fn lemma_walk_from(self, i: int, hops: nat)
        requires
            self.inv(),
            self.hist.served <= i < self.hist.chain.len(),
            hops >= self.hist.chain.len() - 1 - i,
        ensures
            self.heap.walk(self.hist.chain[i], hops) == self.hist.log.skip(i),
        decreases self.hist.chain.len() - i,
    {
        let a = self.hist.chain[i];
        assert(chain_ok(self.heap.nodes, self.hist, i));
        assert(addr_ok(self.heap.nodes, self.gc.epoch, self.hist, a as int));
        if i + 1 < self.hist.chain.len() {
            let b = self.hist.chain[i + 1];
            assert(chain_ok(self.heap.nodes, self.hist, i + 1));
            assert(addr_ok(self.heap.nodes, self.gc.epoch, self.hist, b as int));
            self.lemma_walk_from(i + 1, (hops - 1) as nat);
            assert(seq![self.hist.log[i]] + self.hist.log.skip(i + 1) =~= self.hist.log.skip(i));
        } else {
            assert(self.hist.log.skip(i) =~= Seq::<T>::empty());
        }
    }

    /// The nodes that can be reached from the head hold exactly the contents,
    /// in order: a walk along the links that is long enough finds them and
    /// nothing else.
    pub proof fn lemma_reachable(self, hops: nat)
        requires
            self.inv(),
            hops >= self.contents().len(),
        ensures
            self.heap.walk(self.heap.head, hops) == self.contents(),
    {
        self.lemma_walk_from(self.hist.served as int, hops);
    }

    /// No step of a dequeue dereferences a reclaimed node, and in a guarded
    /// state no step of an enqueue does.
    pub proof fn lemma_no_fault(self, who: usize)
        requires
            self.inv(),
        ensures
            self.op(who) is Deq ==> !self.faults(who),
            self.guarded() ==> !self.faults(who),
    {
        if who < self.threads.len() {
            assert(self.thread_ok(who as int));
            assert(self.follow_ok(who as int) || !self.guarded());
        }
    }

    /// What one step does to the contents. A step that links appends the
    /// value of the enqueue at the back. A step that moves the head pointer
    /// removes the front, and the dequeue holds it from then on. No other
    /// step changes the contents.
    pub proof fn lemma_step_contents(self, who: usize)
        requires
            self.inv(),
        ensures
            self.links(who) ==> self.cargo(who) is Some && self.step(who).contents()
                == self.contents().push(self.cargo(who)->0),
            self.serves(who) ==> self.contents().len() > 0 && self.step(who).contents()
                == self.contents().drop_first() && self.step(who).cargo(who) == Some(
                self.contents()[0],
            ),
            !self.links(who) && !self.serves(who) ==> self.step(who).contents()
                == self.contents(),
    {
        let s2 = self.step(who);
        let served = self.hist.served as int;
        if who < self.threads.len() {
            assert(self.thread_ok(who as int));
            if self.links(who) {
                assert(s2.contents() =~= self.contents().push(self.cargo(who)->0));
            } else if self.serves(who) {
                assert(chain_ok(self.heap.nodes, self.hist, served));
                assert(chain_ok(self.heap.nodes, self.hist, served + 1));
                let next = self.hist.chain[served + 1];
                assert(addr_ok(self.heap.nodes, self.gc.epoch, self.hist, next as int));
                assert(s2.contents() =~= self.contents().drop_first());
            }
        }
    }

    /// A dequeue that reads a null link, and so is about to return `None`,
    /// reads it from the node on which the head pointer stands, while the
    /// queue is empty.
    pub proof fn lemma_empty_seen(self, who: usize, head: usize)
        requires
            self.inv(),
            self.op(who) == Op::Deq(DeqState::LoadNext { head }),
            self.heap.next_of(head) == Some(None::<usize>),
        ensures
            head == self.heap.head,
            self.contents().len() == 0,
    {
        assert(self.thread_ok(who as int));
        assert(addr_ok(self.heap.nodes, self.gc.epoch, self.hist, head as int));
        assert(chain_ok(self.heap.nodes, self.hist, self.hist.served as int));
    }

    /// A step of an operation keeps the value that the operation holds, from
    /// the beginning of an enqueue to the step that links, and from the step
    /// of a dequeue that moves the head pointer to its return, which reports
    /// that value.
    pub proof fn lemma_step_cargo(self, who: usize)
        requires
            self.inv(),
            self.room(who),
        ensures
            self.op(who) is Enq && !self.links(who) ==> self.step(who).cargo(who)
                == self.cargo(who),
            self.op(who) is Deq && !self.serves(who) && !(self.op(who) matches Op::Deq(
                DeqState::Unpin { .. },
            )) ==> self.step(who).cargo(who) == self.cargo(who),
            self.outcome(who) matches Progress::Dequeued(v) ==> v == self.cargo(who),
    {
        if who < self.threads.len() {
            assert(self.thread_ok(who as int));
        }
    }

    /// A step of one participant does not touch the operation of another, nor
    /// the value that it holds.
    pub proof fn lemma_step_frame(self, who: usize, other: int)
        requires
            self.inv(),
            self.room(who),
            0 <= other < self.threads.len(),
            who != other,
        ensures
            self.step(who).threads.len() == self.threads.len(),
            self.step(who).threads[other] == self.threads[other],
            held(self.step(who).heap, self.threads[other]) == held(self.heap, self.threads[other]),
    {
        if who < self.threads.len() {
            let w = who as int;
            assert(self.thread_ok(w));
            assert(self.thread_ok(other));
            assert(self.apart(w, other));
            if let Op::Deq(DeqState::Take { head, .. }) = self.op(who) {
                assert(addr_ok(self.heap.nodes, self.gc.epoch, self.hist, head as int));
            }
            if let Op::Deq(DeqState::Take { head, .. }) = self.threads[other].op {
                assert(addr_ok(self.heap.nodes, self.gc.epoch, self.hist, head as int));
            }
        }
    }

    /// A collection does not release a node whose payload an operation holds.
    pub proof fn lemma_collect_frame(self, other: int)
        requires
            self.inv(),
            0 <= other < self.threads.len(),
        ensures
            held(self.collect().heap, self.threads[other]) == held(self.heap, self.threads[other]),
    {
        self.lemma_collect_nodes();
        assert(self.thread_ok(other));
        if let Some(n) = crate::wellformed::owned(self.threads[other].op) {
            assert(addr_ok(self.heap.nodes, self.gc.epoch, self.hist, n as int));
        }
    }

    /// A collection releases only live nodes, and each of them once.
    pub proof fn lemma_collect_once(self)
        requires
            self.inv(),
        ensures
            forall|j: int|
                0 <= j < self.gc.collected().len() ==> self.heap.live(
                    #[trigger] self.gc.collected()[j],
                ),
            forall|i: int, j: int|
                0 <= i < j < self.gc.collected().len() ==> self.gc.collected()[i]
                    != self.gc.collected()[j],
    {
        self.gc.lemma_ripe_from(0);
        let addrs = self.gc.collected();
        assert forall|j: int| 0 <= j < addrs.len() implies self.heap.live(#[trigger] addrs[j]) by {
            assert(crate::wellformed::bag_ok(self.heap.nodes, self.gc.bag, self.hist, j));
        }
        assert forall|i: int, j: int| 0 <= i < j < addrs.len() implies addrs[i] != addrs[j] by {
            assert(crate::wellformed::bag_apart(self.gc.bag, i, j));
        }
    }
}

} // verus!
