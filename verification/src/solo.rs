//! Progress: no participant waits for another.
//!
//! Each operation has a bound on the steps that it still takes when it runs
//! alone. Every step of the operation lowers its bound, whatever the other
//! participants have left half done: an enqueue that finds the tail pointer
//! lagging moves it on and then links. Only a compare-and-swap of another
//! operation that succeeds raises the bound again. This is also what lets
//! `enq` and `deq` of the queue run an operation to its end.

use crate::epoch::Retired;
use crate::machine::{Op, Progress, State};
use crate::protocol::{DeqState, EnqState};
use crate::wellformed::{addr_ok, chain_ok};
use vstd::prelude::*;

verus! {

impl<T> State<T> {
    /// This state differs from `s0` by one more participant, `who`, and by
    /// what that participant has done.
    pub open spec fn alone(self, s0: Self, who: usize) -> bool {
        &&& who == s0.threads.len()
        &&& self.threads.len() == who + 1
        &&& self.gc.pins.len() == who + 1
        &&& self.threads.drop_last() == s0.threads
        &&& self.gc.pins.drop_last() == s0.gc.pins
        &&& self.gc.epoch == s0.gc.epoch
    }

    /// Heap, history and bag are those of `s0`.
    pub open spec fn untouched(self, s0: Self) -> bool {
        &&& self.heap == s0.heap
        &&& self.hist == s0.hist
        &&& self.gc.bag == s0.gc.bag
    }

    /// How far the tail pointer is behind the last node.
    pub open spec fn lag(self) -> int {
        self.hist.chain.len() - 1 - self.hist.pos[self.heap.tail as int]
    }

    /// The value at the front of the queue, if there is one.
    pub open spec fn front(self) -> Option<T> {
        if self.contents().len() > 0 {
            Some(self.contents()[0])
        } else {
            None
        }
    }

    /// A bound on the number of steps that the enqueue of `who` still takes
    /// when it runs alone. A pointer that has gone stale costs one more pass:
    /// the compare-and-swap fails and the tail is read again.
    pub open spec fn enq_rank(self, who: usize) -> int {
        match self.op(who) {
            Op::Enq(EnqState::Pin) => 30,
            Op::Enq(EnqState::Alloc) => 29,
            Op::Enq(EnqState::LoadTail { .. }) => 15 + 10 * self.lag(),
            Op::Enq(EnqState::LoadNext { tail, .. }) => if tail == self.heap.tail {
                14 + 10 * self.lag()
            } else {
                28
            },
            Op::Enq(EnqState::Help { tail, .. }) => if tail == self.heap.tail {
                13 + 10 * self.lag()
            } else {
                27
            },
            Op::Enq(EnqState::Link { tail, .. }) => if self.heap.can_link(tail) == Some(true) {
                13
            } else {
                26
            },
            Op::Enq(EnqState::Swing { .. }) => 2,
            Op::Enq(EnqState::Unpin) => 1,
            _ => 0,
        }
    }

    /// A bound on the number of steps that the dequeue of `who` still takes
    /// when it runs alone.
    pub open spec fn deq_rank(self, who: usize) -> int {
        match self.op(who) {
            Op::Deq(DeqState::Pin) => 9,
            Op::Deq(DeqState::LoadHead) => 6,
            Op::Deq(DeqState::LoadNext { head }) => if head == self.heap.head {
                5
            } else {
                8
            },
            Op::Deq(DeqState::Swing { head, .. }) => if head == self.heap.head {
                4
            } else {
                7
            },
            Op::Deq(DeqState::Take { .. }) => 3,
            Op::Deq(DeqState::Retire { .. }) => 2,
            Op::Deq(DeqState::Unpin { .. }) => 1,
            _ => 0,
        }
    }

    /// A bound on the number of steps that the operation of `who` still takes
    /// when it runs alone.
    pub open spec fn rank(self, who: usize) -> int {
        self.enq_rank(who) + self.deq_rank(who)
    }

    /// No participant can hold another up. In every state that the machine
    /// can reach, whatever the others have left half done, each step that an
    /// operation takes brings it nearer to its end, unless the step touches
    /// reclaimed memory: an operation that is left to run alone returns
    /// after at most 30 steps.
    pub proof fn lemma_progress(self, who: usize)
        requires
            self.inv(),
            self.room(who),
            self.op(who) != Op::Idle,
            !self.faults(who),
        ensures
            0 <= self.step(who).rank(who) < self.rank(who) <= 30,
    {
        let s2 = self.step(who);
        let w = who as int;
        self.lemma_step(who);
        assert(self.thread_ok(w));
        assert(s2.thread_ok(w));
        assert(addr_ok(self.heap.nodes, self.gc.epoch, self.hist, self.heap.tail as int));
        assert(addr_ok(s2.heap.nodes, s2.gc.epoch, s2.hist, s2.heap.tail as int));
        match self.op(who) {
            Op::Enq(EnqState::LoadNext { tail, .. }) => {
                assert(addr_ok(self.heap.nodes, self.gc.epoch, self.hist, tail as int));
            },
            Op::Enq(EnqState::Link { tail, .. }) => {
                assert(addr_ok(self.heap.nodes, self.gc.epoch, self.hist, tail as int));
            },
            Op::Enq(EnqState::Help { tail, .. }) => {
                assert(chain_ok(self.heap.nodes, self.hist, self.hist.pos[tail as int] + 1));
            },
            Op::Deq(DeqState::LoadNext { head }) => {
                assert(addr_ok(self.heap.nodes, self.gc.epoch, self.hist, head as int));
            },
            _ => {},
        }
    }

    /// The step of `who` is a compare-and-swap that succeeds: it links a node
    /// or moves the head or the tail pointer.
    pub open spec fn swaps(self, who: usize) -> bool {
        ||| self.links(who)
        ||| self.serves(who)
        ||| match self.op(who) {
            Op::Enq(EnqState::Help { tail, .. }) => tail == self.heap.tail,
            Op::Enq(EnqState::Swing { tail, .. }) => tail == self.heap.tail,
            _ => false,
        }
    }

    /// An operation is set back only by a compare-and-swap of another
    /// operation that succeeds. Every other step of another participant
    /// leaves its bound as it is. So as long as steps are taken, bounds go
    /// down or compare-and-swaps succeed, and that is an enqueue or a dequeue
    /// taking effect or the tail pointer catching up: some operation always
    /// gets on.
    pub proof fn lemma_set_back(self, who: usize, other: usize)
        requires
            self.inv(),
            self.room(who),
            who != other,
            !self.swaps(who),
        ensures
            self.step(who).rank(other) == self.rank(other),
    {
        if who < self.threads.len() && other < self.threads.len() {
            self.lemma_step_frame(who, other as int);
            assert(self.thread_ok(who as int));
            assert(self.thread_ok(other as int));
            assert(self.apart(who as int, other as int));
        }
    }

    /// The heap holds one node more than in `s0`, and the head pointer has
    /// not moved.
    pub open spec fn grown(self, s0: Self) -> bool {
        &&& self.heap.nodes.len() == s0.heap.nodes.len() + 1
        &&& self.heap.head == s0.heap.head
    }

    /// Where an enqueue of `v` by `who` stands that began in `s0` and has run
    /// alone since.
    pub open spec fn enq_alone(self, s0: Self, who: usize, v: T) -> bool {
        let th = self.threads[who as int];
        &&& self.alone(s0, who)
        &&& self.gc.bag == s0.gc.bag
        &&& self.hist.served == s0.hist.served
        &&& match th.op {
            Op::Enq(EnqState::Pin) => th.carry == Some(v) && self.untouched(s0),
            Op::Enq(EnqState::Alloc) => th.carry == Some(v) && self.untouched(s0),
            Op::Enq(EnqState::LoadTail { node }) => {
                &&& self.grown(s0)
                &&& node == s0.heap.nodes.len()
                &&& self.heap.node(node).data == Some(v)
                &&& self.hist.log == s0.hist.log
            },
            Op::Enq(EnqState::LoadNext { node, tail }) => {
                &&& self.grown(s0)
                &&& node == s0.heap.nodes.len()
                &&& self.heap.node(node).data == Some(v)
                &&& self.hist.log == s0.hist.log
                &&& tail == self.heap.tail
            },
            Op::Enq(EnqState::Link { node, tail }) => {
                &&& self.grown(s0)
                &&& node == s0.heap.nodes.len()
                &&& self.heap.node(node).data == Some(v)
                &&& self.hist.log == s0.hist.log
                &&& tail == self.heap.tail
                &&& self.heap.can_link(tail) == Some(true)
            },
            Op::Enq(EnqState::Help { node, tail, .. }) => {
                &&& self.grown(s0)
                &&& node == s0.heap.nodes.len()
                &&& self.heap.node(node).data == Some(v)
                &&& self.hist.log == s0.hist.log
                &&& tail == self.heap.tail
            },
            Op::Enq(EnqState::Swing { node, tail }) => {
                &&& self.grown(s0)
                &&& node == s0.heap.nodes.len()
                &&& self.hist.log == s0.hist.log.push(v)
                &&& tail == self.heap.tail
            },
            Op::Enq(EnqState::Unpin) => {
                &&& self.grown(s0)
                &&& self.heap.tail == s0.heap.nodes.len()
                &&& self.hist.log == s0.hist.log.push(v)
            },
            Op::Idle => {
                &&& self.grown(s0)
                &&& self.heap.tail == s0.heap.nodes.len()
                &&& self.hist.log == s0.hist.log.push(v)
            },
            _ => false,
        }
    }

    /// The head pointer has moved from the sentinel of `s0` onto the node
    /// behind it; the old sentinel is still live, and the tail pointer has
    /// not moved.
    pub open spec fn moved_on(self, s0: Self) -> bool {
        &&& self.hist.served == s0.hist.served + 1
        &&& Some(self.heap.head) == s0.heap.node(s0.heap.head).next
        &&& self.heap.tail == s0.heap.tail
        &&& self.heap.nodes.len() == s0.heap.nodes.len()
        &&& self.heap.live(s0.heap.head)
    }

    /// The bag of `s0` with its sentinel retired at the epoch of `s0`.
    pub open spec fn bag_with_sentinel(self) -> Seq<Retired> {
        self.gc.bag.push(Retired { addr: self.heap.head, epoch: self.gc.epoch })
    }

    /// Where a dequeue by `who` stands that began in `s0` and has run alone
    /// since.
    pub open spec fn deq_alone(self, s0: Self, who: usize) -> bool {
        let th = self.threads[who as int];
        let k = s0.hist.served as int;
        &&& self.alone(s0, who)
        &&& self.hist.log == s0.hist.log
        &&& match th.op {
            Op::Deq(DeqState::Pin) => self.untouched(s0),
            Op::Deq(DeqState::LoadHead) => self.untouched(s0),
            Op::Deq(DeqState::LoadNext { head }) => self.untouched(s0) && head == self.heap.head,
            Op::Deq(DeqState::Swing { head, next }) => {
                &&& self.untouched(s0)
                &&& head == self.heap.head
                &&& Some(next) == self.heap.node(head).next
            },
            Op::Deq(DeqState::Take { head, .. }) => {
                &&& self.moved_on(s0)
                &&& head == s0.heap.head
                &&& self.hist.pos[head as int] == k
                &&& self.gc.bag == s0.gc.bag
            },
            Op::Deq(DeqState::Retire { head }) => {
                &&& self.moved_on(s0)
                &&& head == s0.heap.head
                &&& self.hist.pos[head as int] == k
                &&& self.gc.bag == s0.gc.bag
            },
            Op::Deq(DeqState::Unpin { found }) => if found {
                &&& self.moved_on(s0)
                &&& self.gc.bag == s0.bag_with_sentinel()
                &&& th.carry == Some(self.hist.log[k])
            } else {
                &&& self.untouched(s0)
                &&& s0.contents().len() == 0
            },
            Op::Idle => (self.moved_on(s0) && self.gc.bag == s0.bag_with_sentinel()) || (
            self.untouched(s0) && s0.contents().len() == 0),
            _ => false,
        }
    }

    /// One step of an enqueue that runs alone: the invariant and the
    /// description hold again, the bound has gone down, nothing faults, and
    /// the step reports the return exactly when the operation has ended.
    pub proof fn lemma_enq_alone(self, s0: Self, who: usize, v: T)
        requires
            self.inv(),
            self.room(who),
            self.enq_alone(s0, who, v),
            self.op(who) != Op::Idle,
        ensures
            self.step(who).inv(),
            self.step(who).enq_alone(s0, who, v),
            0 <= self.step(who).enq_rank(who) < self.enq_rank(who),
            self.anchored() ==> self.step(who).anchored(),
            self.guarded() && self.anchored() ==> self.step(who).guarded(),
            self.step(who).op(who) == Op::Idle ==> self.outcome(who) == Progress::<T>::Enqueued,
            self.step(who).op(who) != Op::Idle ==> self.outcome(who) == Progress::<T>::Running,
    {
        let s2 = self.step(who);
        let w = who as int;
        self.lemma_step(who);
        if self.anchored() {
            self.lemma_step_anchored(who);
        }
        assert(self.thread_ok(w));
        assert(s2.thread_ok(w));
        assert(addr_ok(self.heap.nodes, self.gc.epoch, self.hist, self.heap.tail as int));
        assert(addr_ok(s2.heap.nodes, s2.gc.epoch, s2.hist, s2.heap.tail as int));
        assert(s2.threads.drop_last() =~= self.threads.drop_last());
        assert(s2.gc.pins.drop_last() =~= self.gc.pins.drop_last());
        if let Op::Enq(EnqState::Help { tail, .. }) = self.op(who) {
            assert(chain_ok(self.heap.nodes, self.hist, self.hist.pos[tail as int] + 1));
        }
    }

    /// One step of a dequeue that runs alone: the invariant and the
    /// description hold again, the bound has gone down, nothing faults, and
    /// the step that ends the operation reports the front of the queue as it
    /// was when the operation began.
    pub proof fn lemma_deq_alone(self, s0: Self, who: usize)
        requires
            s0.inv(),
            self.inv(),
            self.deq_alone(s0, who),
            self.op(who) != Op::Idle,
        ensures
            self.step(who).inv(),
            self.step(who).deq_alone(s0, who),
            0 <= self.step(who).deq_rank(who) < self.deq_rank(who),
            self.guarded() ==> self.step(who).guarded(),
            self.anchored() && (s0.heap.tail != s0.heap.head || s0.contents().len() == 0)
                ==> self.step(who).anchored(),
            self.step(who).op(who) == Op::Idle ==> self.outcome(who) == Progress::Dequeued(
                s0.front(),
            ),
            self.step(who).op(who) != Op::Idle ==> self.outcome(who) == Progress::<T>::Running,
    {
        let s2 = self.step(who);
        let w = who as int;
        let k = s0.hist.served as int;
        self.lemma_step(who);
        if self.anchored() {
            self.lemma_step_anchored(who);
        }
        assert(self.thread_ok(w));
        assert(s2.thread_ok(w));
        assert(chain_ok(self.heap.nodes, self.hist, self.hist.served as int));
        assert(addr_ok(self.heap.nodes, self.gc.epoch, self.hist, self.heap.head as int));
        assert(s2.threads.drop_last() =~= self.threads.drop_last());
        assert(s2.gc.pins.drop_last() =~= self.gc.pins.drop_last());
        if s0.hist.served < s0.hist.log.len() {
            assert(s0.contents()[0] == s0.hist.log[k]);
        }
    }
}

} // verus!
