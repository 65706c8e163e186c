//! The queue as a machine of atomic steps.
//!
//! A state holds the heap, the reclaimer, the operation that each participant
//! is in, and a history that records the order in which nodes were linked.
//! `step` is one atomic step of one participant: it performs the request that
//! is pending in the participant's operation and moves the operation on by the
//! answer. A schedule is any sequence of steps, begins, epoch advances and
//! collections.

use crate::epoch::CollectorView;
use crate::heap::{HeapView, Node};
use crate::protocol::{DeqState, EnqState, Event};
use vstd::prelude::*;

verus! {

/// The operation that a participant is in.
#[derive(Clone, Copy, PartialEq, Eq, Debug)]
pub enum Op {
    Idle,
    Enq(EnqState),
    Deq(DeqState),
}

/// One participant: its operation and the value that it carries. An enqueue
/// carries its value until the node is allocated; a dequeue carries the
/// payload from the moment it is taken.
pub struct Thread<T> {
    pub op: Op,
    pub carry: Option<T>,
}

/// What one step did for the participant that took it.
#[derive(PartialEq, Eq, Debug)]
pub enum Progress<T> {
    /// The participant is unknown or has no operation in flight.
    Idle,
    /// The operation moved on and is still in flight.
    Running,
    /// The enqueue has returned.
    Enqueued,
    /// The dequeue has returned: a value, or `None` for an empty queue.
    Dequeued(Option<T>),
    /// The step had to dereference a node that is reclaimed. Nothing changed.
    Fault,
}

/// What has happened so far, as far as the proofs need it. It is not consulted
/// by any step.
pub struct History<T> {
    /// The nodes in the order in which they were linked; the first is the
    /// initial sentinel.
    pub chain: Seq<usize>,
    /// For each address its index in `chain`, or -1 while the node is linked
    /// nowhere.
    pub pos: Seq<int>,
    /// The payloads in the order in which they were linked.
    pub log: Seq<T>,
    /// The number of times the head pointer has moved.
    pub served: nat,
    /// For each address the epoch at which it was retired, if it was.
    pub retired: Seq<Option<u64>>,
    /// The participant that linked the last node.
    pub linker: int,
}

impl<T> History<T> {
    /// The history of a new queue.
    pub open spec fn init() -> Self {
        History {
            chain: seq![0usize],
            pos: seq![0int],
            log: Seq::empty(),
            served: 0,
            retired: seq![None],
            linker: -1,
        }
    }

    /// A node was allocated.
    pub open spec fn allocated(self) -> Self {
        History { pos: self.pos.push(-1), retired: self.retired.push(None), ..self }
    }

    /// `who` linked `node`, which held `data`, behind the last node.
    pub open spec fn linked(self, node: usize, data: Option<Option<T>>, who: usize) -> Self {
        History {
            chain: self.chain.push(node),
            pos: if node < self.pos.len() {
                self.pos.update(node as int, self.chain.len() as int)
            } else {
                self.pos
            },
            log: match data {
                Some(Some(v)) => self.log.push(v),
                _ => self.log,
            },
            linker: who as int,
            ..self
        }
    }

    /// The head pointer moved.
    pub open spec fn served_one(self) -> Self {
        History { served: self.served + 1, ..self }
    }

    /// `node` was retired at `epoch`.
    pub open spec fn retire(self, node: usize, epoch: u64) -> Self {
        if node < self.retired.len() {
            History { retired: self.retired.update(node as int, Some(epoch)), ..self }
        } else {
            self
        }
    }
}

/// A state of the machine.
pub struct State<T> {
    pub heap: HeapView<T>,
    pub gc: CollectorView,
    pub threads: Seq<Thread<T>>,
    pub hist: History<T>,
}

impl<T> State<T> {
    /// The state of a new queue: one sentinel, no participant.
    pub open spec fn init() -> Self {
        State {
            heap: HeapView::init(),
            gc: CollectorView::init(),
            threads: Seq::empty(),
            hist: History::init(),
        }
    }

    /// The values in the queue, front first: those linked and not yet passed
    /// by the head pointer.
    pub open spec fn contents(self) -> Seq<T> {
        self.hist.log.skip(self.hist.served as int)
    }

    /// The operation of `who`; `Idle` for an unknown participant.
    pub open spec fn op(self, who: usize) -> Op {
        if who < self.threads.len() {
            self.threads[who as int].op
        } else {
            Op::Idle
        }
    }

    /// Every participant is idle.
    pub open spec fn quiescent(self) -> bool {
        forall|t: int| 0 <= t < self.threads.len() ==> (#[trigger] self.threads[t]).op == Op::Idle
    }

    /// The state with the operation of `who` replaced.
    pub open spec fn with_op(self, who: usize, op: Op) -> Self {
        State {
            threads: self.threads.update(
                who as int,
                Thread { op, carry: self.threads[who as int].carry },
            ),
            ..self
        }
    }

    /// The state with the participant `who` replaced.
    pub open spec fn with_thread(self, who: usize, th: Thread<T>) -> Self {
        State { threads: self.threads.update(who as int, th), ..self }
    }

    /// One more participant, idle. Its handle is the old number of
    /// participants.
    pub open spec fn join(self) -> Self {
        State {
            gc: self.gc.register(),
            threads: self.threads.push(Thread { op: Op::Idle, carry: None }),
            ..self
        }
    }

    /// The participant that joined last has left, if it was idle.
    pub open spec fn leave(self) -> Self {
        if self.threads.len() > 0 && self.threads.last().op == Op::Idle {
            State { gc: self.gc.unregister(), threads: self.threads.drop_last(), ..self }
        } else {
            self
        }
    }

    /// `who` is known and idle, so it can begin an operation.
    pub open spec fn can_begin(self, who: usize) -> bool {
        who < self.threads.len() && self.threads[who as int].op == Op::Idle
    }

    /// `who` has begun to enqueue `v`.
    pub open spec fn begin_enq(self, who: usize, v: T) -> Self {
        if self.can_begin(who) {
            self.with_thread(who, Thread { op: Op::Enq(EnqState::Pin), carry: Some(v) })
        } else {
            self
        }
    }

    /// `who` has begun to dequeue.
    pub open spec fn begin_deq(self, who: usize) -> Self {
        if self.can_begin(who) {
            self.with_thread(who, Thread { op: Op::Deq(DeqState::Pin), carry: None })
        } else {
            self
        }
    }

    /// The state after an attempt to move the epoch on.
    pub open spec fn advance(self) -> Self {
        State { gc: self.gc.advance(), ..self }
    }

    /// The state after a collection: the expired nodes are released.
    pub open spec fn collect(self) -> Self {
        State { heap: self.heap.free_all(self.gc.collected()), gc: self.gc.collect(), ..self }
    }

    /// The step of `who` would dereference a reclaimed node.
    pub open spec fn faults(self, who: usize) -> bool {
        match self.op(who) {
            Op::Enq(EnqState::LoadNext { tail, .. }) => !self.heap.live(tail),
            Op::Enq(EnqState::Link { tail, .. }) => !self.heap.live(tail),
            Op::Deq(DeqState::LoadNext { head }) => !self.heap.live(head),
            Op::Deq(DeqState::Take { next, .. }) => !self.heap.live(next),
            _ => false,
        }
    }

    /// What the step of `who` reports.
    pub open spec fn outcome(self, who: usize) -> Progress<T> {
        if self.faults(who) {
            Progress::Fault
        } else {
            match self.op(who) {
                Op::Idle => Progress::Idle,
                Op::Enq(EnqState::Done) => Progress::Idle,
                Op::Deq(DeqState::Done { .. }) => Progress::Idle,
                Op::Enq(EnqState::Unpin) => Progress::Enqueued,
                Op::Deq(DeqState::Unpin { .. }) => Progress::Dequeued(
                    self.threads[who as int].carry,
                ),
                _ => Progress::Running,
            }
        }
    }

    /// The step of `who` links its node: the enqueue takes effect.
    pub open spec fn links(self, who: usize) -> bool {
        match self.op(who) {
            Op::Enq(EnqState::Link { tail, .. }) => self.heap.can_link(tail) == Some(true),
            _ => false,
        }
    }

    /// The step of `who` moves the head pointer: the dequeue takes effect.
    pub open spec fn serves(self, who: usize) -> bool {
        match self.op(who) {
            Op::Deq(DeqState::Swing { head, .. }) => self.heap.head == head,
            _ => false,
        }
    }

    /// The state after one step of an enqueue of `who` that is in state `st`.
    pub open spec fn step_enq(self, who: usize, st: EnqState) -> Self {
        let th = self.threads[who as int];
        match st {
            EnqState::Pin => State { gc: self.gc.pin(who), ..self }.with_op(
                who,
                Op::Enq(st.after(Event::Pinned)),
            ),
            EnqState::Alloc => State {
                heap: self.heap.allocate(Node { next: None, data: th.carry }),
                hist: self.hist.allocated(),
                ..self
            }.with_thread(
                who,
                Thread {
                    op: Op::Enq(st.after(Event::Allocated(self.heap.nodes.len() as usize))),
                    carry: None,
                },
            ),
            EnqState::LoadTail { .. } => self.with_op(
                who,
                Op::Enq(st.after(Event::Loaded(Some(self.heap.tail)))),
            ),
            EnqState::LoadNext { tail, .. } => match self.heap.next_of(tail) {
                Some(q) => self.with_op(who, Op::Enq(st.after(Event::Loaded(q)))),
                None => self,
            },
            EnqState::Link { node, tail } => match self.heap.can_link(tail) {
                Some(ok) => State {
                    heap: self.heap.link(tail, node),
                    hist: if ok {
                        self.hist.linked(node, self.heap.payload(node), who)
                    } else {
                        self.hist
                    },
                    ..self
                }.with_op(who, Op::Enq(st.after(Event::Swapped(ok)))),
                None => self,
            },
            EnqState::Help { tail, next, .. } => State {
                heap: self.heap.swing_tail(tail, next),
                ..self
            }.with_op(who, Op::Enq(st.after(Event::Swapped(self.heap.tail == tail)))),
            EnqState::Swing { node, tail } => State {
                heap: self.heap.swing_tail(tail, node),
                ..self
            }.with_op(who, Op::Enq(st.after(Event::Swapped(self.heap.tail == tail)))),
            EnqState::Unpin => State { gc: self.gc.unpin(who), ..self }.with_op(who, Op::Idle),
            EnqState::Done => self,
        }
    }

    /// The state after one step of a dequeue of `who` that is in state `st`.
    pub open spec fn step_deq(self, who: usize, st: DeqState) -> Self {
        match st {
            DeqState::Pin => State { gc: self.gc.pin(who), ..self }.with_op(
                who,
                Op::Deq(st.after(Event::Pinned)),
            ),
            DeqState::LoadHead => self.with_op(
                who,
                Op::Deq(st.after(Event::Loaded(Some(self.heap.head)))),
            ),
            DeqState::LoadNext { head } => match self.heap.next_of(head) {
                Some(q) => self.with_op(who, Op::Deq(st.after(Event::Loaded(q)))),
                None => self,
            },
            DeqState::Swing { head, next } => State {
                heap: self.heap.swing_head(head, next),
                hist: if self.heap.head == head {
                    self.hist.served_one()
                } else {
                    self.hist
                },
                ..self
            }.with_op(who, Op::Deq(st.after(Event::Swapped(self.heap.head == head)))),
            DeqState::Take { next, .. } => match self.heap.payload(next) {
                Some(d) => State { heap: self.heap.take(next), ..self }.with_thread(
                    who,
                    Thread { op: Op::Deq(st.after(Event::Taken)), carry: d },
                ),
                None => self,
            },
            DeqState::Retire { head } => State {
                gc: self.gc.defer_destroy(head),
                hist: self.hist.retire(head, self.gc.epoch),
                ..self
            }.with_op(who, Op::Deq(st.after(Event::Retired))),
            DeqState::Unpin { .. } => State { gc: self.gc.unpin(who), ..self }.with_thread(
                who,
                Thread { op: Op::Idle, carry: None },
            ),
            DeqState::Done { .. } => self,
        }
    }

    /// The state after one atomic step of `who`.
    pub open spec fn step(self, who: usize) -> Self {
        match self.op(who) {
            Op::Idle => self,
            Op::Enq(st) => self.step_enq(who, st),
            Op::Deq(st) => self.step_deq(who, st),
        }
    }
}

} // verus!
