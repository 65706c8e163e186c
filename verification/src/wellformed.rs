//! What holds in every state that the machine can reach.
//!
//! `inv` ties the heap to the history: the nodes that were linked form one
//! chain, the head pointer stands on the node that `served` counts to, the
//! tail pointer on the last node or the one before it, and every payload
//! behind the head is the one that the log records. It also says what each
//! operation in flight may rely on, state by state. `guarded` adds what
//! keeps an enqueue from touching reclaimed memory.

use crate::epoch::{CollectorView, Retired};
use crate::heap::{HeapView, Node};
use crate::machine::{History, Op, State, Thread};
use crate::protocol::{DeqState, EnqState};
use vstd::prelude::*;

verus! {

/// The node that an enqueue has allocated and not linked yet.
pub open spec fn owned(op: Op) -> Option<usize> {
    match op {
        Op::Enq(EnqState::LoadTail { node }) => Some(node),
        Op::Enq(EnqState::LoadNext { node, .. }) => Some(node),
        Op::Enq(EnqState::Link { node, .. }) => Some(node),
        Op::Enq(EnqState::Help { node, .. }) => Some(node),
        _ => None,
    }
}

/// The old sentinel that a dequeue has unlinked and not retired yet.
pub open spec fn claimed(op: Op) -> Option<usize> {
    match op {
        Op::Deq(DeqState::Take { head, .. }) => Some(head),
        Op::Deq(DeqState::Retire { head }) => Some(head),
        _ => None,
    }
}

/// The pointer that an enqueue has read from the tail pointer and still
/// uses.
pub open spec fn followed(op: Op) -> Option<usize> {
    match op {
        Op::Enq(EnqState::LoadNext { tail, .. }) => Some(tail),
        Op::Enq(EnqState::Link { tail, .. }) => Some(tail),
        Op::Enq(EnqState::Help { tail, .. }) => Some(tail),
        _ => None,
    }
}

/// `x` is one of the addresses that the operation holds.
pub open spec fn holds(op: Op, x: usize) -> bool {
    match op {
        Op::Enq(EnqState::LoadTail { node }) => x == node,
        Op::Enq(EnqState::LoadNext { node, tail }) => x == node || x == tail,
        Op::Enq(EnqState::Link { node, tail }) => x == node || x == tail,
        Op::Enq(EnqState::Help { node, tail, next }) => x == node || x == tail || x == next,
        Op::Enq(EnqState::Swing { node, tail }) => x == node || x == tail,
        Op::Deq(DeqState::LoadNext { head }) => x == head,
        Op::Deq(DeqState::Swing { head, next }) => x == head || x == next,
        Op::Deq(DeqState::Take { head, next }) => x == head || x == next,
        Op::Deq(DeqState::Retire { head }) => x == head,
        _ => false,
    }
}

/// `n` is allocated, linked nowhere, and holds a payload.
pub open spec fn private<T>(heap: HeapView<T>, hist: History<T>, n: usize) -> bool {
    &&& heap.live(n)
    &&& hist.pos[n as int] == -1
    &&& heap.node(n).next is None
    &&& heap.node(n).data is Some
}

/// `x` is live, and if it is retired then not before the pin `pin` was taken:
/// the reclaimer will not release it while that pin is held.
pub open spec fn shielded<T>(heap: HeapView<T>, hist: History<T>, pin: Option<u64>, x: usize) -> bool {
    &&& heap.live(x)
    &&& pin is Some
    &&& hist.retired[x as int] matches Some(g) ==> pin->0 <= g
}

/// The node behind `p`, if there is one, is shielded by the pin.
pub open spec fn next_shielded<T>(
    heap: HeapView<T>,
    hist: History<T>,
    pin: Option<u64>,
    p: usize,
) -> bool {
    hist.pos[p as int] + 1 < hist.chain.len() ==> shielded(
        heap,
        hist,
        pin,
        hist.chain[hist.pos[p as int] + 1],
    )
}

/// `p` is linked, at the tail pointer or before it.
pub open spec fn behind<T>(heap: HeapView<T>, hist: History<T>, p: usize) -> bool {
    &&& p < heap.nodes.len()
    &&& 0 <= hist.pos[p as int] <= hist.pos[heap.tail as int]
}

/// `p` is live and was not retired.
pub open spec fn unretired<T>(heap: HeapView<T>, hist: History<T>, p: usize) -> bool {
    &&& heap.live(p)
    &&& hist.retired[p as int] is None
}

/// What the address `a` satisfies.
pub open spec fn addr_ok<T>(
    nodes: Seq<Option<Node<T>>>,
    epoch: u64,
    hist: History<T>,
    a: int,
) -> bool {
    let slot = nodes[a];
    let p = hist.pos[a];
    &&& -1 <= p < hist.chain.len()
    &&& p >= 0 ==> hist.chain[p] == a
    &&& slot is Some && p >= 0 ==> slot->0.next == (if p + 1 < hist.chain.len() {
        Some(hist.chain[p + 1])
    } else {
        None
    })
    &&& p > hist.served ==> slot is Some && slot->0.data == Some(hist.log[p - 1])
    &&& slot is None ==> hist.retired[a] is Some
    &&& hist.retired[a] matches Some(g) ==> 0 <= p < hist.served && g <= epoch
}

/// The node at index `i` of the chain knows its index.
pub open spec fn chain_ok<T>(nodes: Seq<Option<Node<T>>>, hist: History<T>, i: int) -> bool {
    &&& hist.chain[i] < nodes.len()
    &&& hist.pos[hist.chain[i] as int] == i
}

/// The entry `j` of the bag is a live node that was retired at its tag.
pub open spec fn bag_ok<T>(
    nodes: Seq<Option<Node<T>>>,
    bag: Seq<Retired>,
    hist: History<T>,
    j: int,
) -> bool {
    let r = bag[j];
    &&& r.addr < nodes.len()
    &&& nodes[r.addr as int] is Some
    &&& hist.retired[r.addr as int] == Some(r.epoch)
}

/// The entries `i` and `j` of the bag are different nodes.
pub open spec fn bag_apart(bag: Seq<Retired>, i: int, j: int) -> bool {
    bag[i].addr != bag[j].addr
}

/// What heap, reclaimer and history satisfy together.
pub open spec fn mem_ok<T>(heap: HeapView<T>, gc: CollectorView, hist: History<T>) -> bool {
    &&& gc.wf()
    &&& heap.nodes.len() <= usize::MAX
    &&& hist.pos.len() == heap.nodes.len()
    &&& hist.retired.len() == heap.nodes.len()
    &&& hist.chain.len() >= 1
    &&& hist.served < hist.chain.len()
    &&& hist.log.len() == hist.chain.len() - 1
    &&& heap.head == hist.chain[hist.served as int]
    &&& heap.live(heap.tail)
    &&& hist.pos[heap.tail as int] >= 0
    &&& hist.pos[heap.tail as int] >= hist.chain.len() - 2
    &&& forall|a: int| 0 <= a < heap.nodes.len() ==> #[trigger] addr_ok(heap.nodes, gc.epoch, hist, a)
    &&& forall|i: int| 0 <= i < hist.chain.len() ==> #[trigger] chain_ok(heap.nodes, hist, i)
    &&& forall|j: int| 0 <= j < gc.bag.len() ==> #[trigger] bag_ok(heap.nodes, gc.bag, hist, j)
    &&& forall|i: int, j: int| 0 <= i < j < gc.bag.len() ==> #[trigger] bag_apart(gc.bag, i, j)
}

/// What the operation of one participant may rely on.
pub open spec fn op_ok<T>(heap: HeapView<T>, hist: History<T>, th: Thread<T>, pin: Option<u64>) -> bool {
    match th.op {
        Op::Idle => pin is None && th.carry is None,
        Op::Enq(EnqState::Pin) => pin is None && th.carry is Some,
        Op::Enq(EnqState::Alloc) => pin is Some && th.carry is Some,
        Op::Enq(EnqState::LoadTail { node }) => {
            &&& pin is Some
            &&& th.carry is None
            &&& private(heap, hist, node)
        },
        Op::Enq(EnqState::LoadNext { node, tail }) => {
            &&& pin is Some
            &&& th.carry is None
            &&& private(heap, hist, node)
            &&& behind(heap, hist, tail)
        },
        Op::Enq(EnqState::Link { node, tail }) => {
            &&& pin is Some
            &&& th.carry is None
            &&& private(heap, hist, node)
            &&& behind(heap, hist, tail)
        },
        Op::Enq(EnqState::Help { node, tail, next }) => {
            &&& pin is Some
            &&& th.carry is None
            &&& private(heap, hist, node)
            &&& behind(heap, hist, tail)
            &&& hist.pos[tail as int] + 1 < hist.chain.len()
            &&& next == hist.chain[hist.pos[tail as int] + 1]
        },
        Op::Enq(EnqState::Swing { node, tail }) => {
            &&& th.carry is None
            &&& node < heap.nodes.len()
            &&& tail < heap.nodes.len()
            &&& hist.pos[tail as int] >= 0
            &&& hist.pos[node as int] == hist.pos[tail as int] + 1
            &&& shielded(heap, hist, pin, tail)
            &&& shielded(heap, hist, pin, node)
        },
        Op::Enq(EnqState::Unpin) => pin is Some && th.carry is None,
        Op::Enq(EnqState::Done) => false,
        Op::Deq(DeqState::Pin) => pin is None && th.carry is None,
        Op::Deq(DeqState::LoadHead) => pin is Some && th.carry is None,
        Op::Deq(DeqState::LoadNext { head }) => {
            &&& th.carry is None
            &&& 0 <= hist.pos[head as int] <= hist.served
            &&& shielded(heap, hist, pin, head)
            &&& next_shielded(heap, hist, pin, head)
        },
        Op::Deq(DeqState::Swing { head, next }) => {
            &&& th.carry is None
            &&& 0 <= hist.pos[head as int] <= hist.served
            &&& hist.pos[head as int] + 1 < hist.chain.len()
            &&& next == hist.chain[hist.pos[head as int] + 1]
            &&& shielded(heap, hist, pin, head)
            &&& shielded(heap, hist, pin, next)
        },
        Op::Deq(DeqState::Take { head, next }) => {
            &&& th.carry is None
            &&& hist.pos[head as int] >= 0
            &&& hist.pos[next as int] == hist.pos[head as int] + 1
            &&& hist.pos[next as int] <= hist.served
            &&& shielded(heap, hist, pin, next)
            &&& heap.node(next).data == Some(hist.log[hist.pos[head as int]])
            &&& unretired(heap, hist, head)
        },
        Op::Deq(DeqState::Retire { head }) => {
            &&& pin is Some
            &&& 0 <= hist.pos[head as int] < hist.served
            &&& unretired(heap, hist, head)
            &&& th.carry == Some(hist.log[hist.pos[head as int]])
        },
        Op::Deq(DeqState::Unpin { found }) => pin is Some && found == (th.carry is Some),
        Op::Deq(DeqState::Done { .. }) => false,
    }
}

/// Two operations own different nodes and have claimed different sentinels.
pub open spec fn ops_apart(a: Op, b: Op) -> bool {
    &&& owned(a) is Some && owned(b) is Some ==> owned(a) != owned(b)
    &&& claimed(a) is Some && claimed(b) is Some ==> claimed(a) != claimed(b)
}

impl<T> State<T> {
    /// What participant `t` may rely on.
    pub open spec fn thread_ok(self, t: int) -> bool {
        op_ok(self.heap, self.hist, self.threads[t], self.gc.pins[t])
    }

    /// The participants `t` and `u` do not share a node.
    pub open spec fn apart(self, t: int, u: int) -> bool {
        ops_apart(self.threads[t].op, self.threads[u].op)
    }

    /// While the tail pointer is one behind, the participant that linked the
    /// last node is about to move it.
    pub open spec fn lag_ok(self) -> bool {
        let h = self.hist;
        h.pos[self.heap.tail as int] == h.chain.len() - 2 ==> {
            &&& 0 <= h.linker < self.threads.len()
            &&& self.threads[h.linker].op == Op::Enq(
                EnqState::Swing { node: h.chain[h.chain.len() - 1], tail: self.heap.tail },
            )
        }
    }

    /// The invariant of the machine.
    pub open spec fn inv(self) -> bool {
        &&& mem_ok(self.heap, self.gc, self.hist)
        &&& self.gc.pins.len() == self.threads.len()
        &&& self.lag_ok()
        &&& forall|t: int| 0 <= t < self.threads.len() ==> #[trigger] self.thread_ok(t)
        &&& forall|t: int, u: int|
            0 <= t < self.threads.len() && 0 <= u < self.threads.len() && t != u
                ==> #[trigger] self.apart(t, u)
    }

    /// The pointer that participant `t` has read from the tail pointer, and
    /// the node behind it, are shielded by its pin.
    pub open spec fn follow_ok(self, t: int) -> bool {
        followed(self.threads[t].op) matches Some(p) ==> {
            &&& shielded(self.heap, self.hist, self.gc.pins[t], p)
            &&& next_shielded(self.heap, self.hist, self.gc.pins[t], p)
        }
    }

    /// No enqueue holds a tail pointer that the reclaimer may release while
    /// the enqueue is pinned.
    pub open spec fn guarded(self) -> bool {
        forall|t: int| 0 <= t < self.threads.len() ==> #[trigger] self.follow_ok(t)
    }

    /// The tail pointer has not fallen behind the head pointer: the node on
    /// which it stands can be reached from the head.
    pub open spec fn anchored(self) -> bool {
        self.hist.served <= self.hist.pos[self.heap.tail as int]
    }

    /// The step of `who` moves the head pointer past the node on which the
    /// tail pointer still stands.
    pub open spec fn overtakes(self, who: usize) -> bool {
        self.serves(who) && self.heap.tail == self.heap.head
    }

    /// The step of `who` reads a tail pointer that its pin does not shield:
    /// the node was retired before `who` was pinned.
    pub open spec fn hazard(self, who: usize) -> bool {
        self.op(who) matches Op::Enq(EnqState::LoadTail { .. }) && !shielded(
            self.heap,
            self.hist,
            self.gc.pins[who as int],
            self.heap.tail,
        )
    }

    /// A new queue satisfies the invariant and is guarded.
    pub proof fn lemma_init()
        ensures
            Self::init().inv(),
            Self::init().guarded(),
            Self::init().anchored(),
            Self::init().contents() == Seq::<T>::empty(),
    {
        let s = Self::init();
        assert(addr_ok(s.heap.nodes, s.gc.epoch, s.hist, 0));
        assert(chain_ok(s.heap.nodes, s.hist, 0));
        assert(s.contents() =~= Seq::<T>::empty());
    }
}

} // verus!
