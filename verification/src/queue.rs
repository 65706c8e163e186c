//! The executable queue. It holds the heap, the reclaimer and the operations
//! in flight, and its view is a state of the machine: every function here
//! does to the view what the transition of the same name says.

use crate::epoch::Collector;
use crate::heap::{Heap, Node};
use crate::machine::{History, Op, Progress, State, Thread};
use crate::protocol::{DeqState, EnqState, Event};
use vstd::prelude::*;

verus! {

/// A multi-producer multi-consumer FIFO queue, driven step by step.
///
/// `enq` and `deq` run one operation from its beginning to its return.
/// `join`, `begin_enq`, `begin_deq` and `step` let any number of participants
/// run operations at once, one atomic step at a time and in any order;
/// `advance` and `collect` are the moves of the reclaimer.
pub struct Queue<T> {
    heap: Heap<T>,
    gc: Collector,
    threads: Vec<Thread<T>>,
    hist: Ghost<History<T>>,
}

impl<T> View for Queue<T> {
    type V = State<T>;

    closed spec fn view(&self) -> State<T> {
        State { heap: self.heap@, gc: self.gc@, threads: self.threads@, hist: self.hist@ }
    }
}

impl<T> Queue<T> {
    /// An empty queue: one sentinel, no participant.
    pub fn new() -> (q: Self)
        ensures
            q@ == State::<T>::init(),
            q@.inv(),
            q@.guarded(),
            q@.anchored(),
            q@.contents() == Seq::<T>::empty(),
    {
        proof {
            State::<T>::lemma_init();
        }
        let q = Queue {
            heap: Heap::new(),
            gc: Collector::new(),
            threads: Vec::new(),
            hist: Ghost(History::init()),
        };
        assert(q@.threads =~= State::<T>::init().threads);
        q
    }

    /// The number of participants.
    pub fn participants(&self) -> (n: usize)
        ensures
            n == self@.threads.len(),
    {
        self.threads.len()
    }

    /// The global epoch of the reclaimer.
    pub fn epoch(&self) -> (e: u64)
        ensures
            e == self@.gc.epoch,
    {
        self.gc.epoch()
    }

    /// The number of retired nodes that wait for release.
    pub fn retired(&self) -> (n: usize)
        ensures
            n == self@.gc.bag.len(),
    {
        self.gc.pending()
    }

    /// The operation that `who` is in; `Idle` for an unknown participant.
    pub fn op(&self, who: usize) -> (op: Op)
        ensures
            op == self@.op(who),
    {
        if who < self.threads.len() {
            self.threads[who].op
        } else {
            Op::Idle
        }
    }

    /// The address on which the head pointer stands.
    pub fn head(&self) -> (a: usize)
        ensures
            a == self@.heap.head,
    {
        self.heap.head()
    }

    /// The address on which the tail pointer stands.
    pub fn tail(&self) -> (a: usize)
        ensures
            a == self@.heap.tail,
    {
        self.heap.tail()
    }

    /// Whether the node at `a` is allocated and not reclaimed.
    pub fn is_live(&self, a: usize) -> (b: bool)
        ensures
            b == self@.heap.live(a),
    {
        self.heap.is_live(a)
    }

    /// Adds a participant and returns its handle.
    pub fn join(&mut self) -> (who: usize)
        ensures
            final(self)@ == old(self)@.join(),
            who == old(self)@.threads.len(),
            old(self)@.inv() ==> final(self)@.inv(),
            old(self)@.inv() && old(self)@.guarded() ==> final(self)@.guarded(),
    {
        proof {
            if self@.inv() {
                self@.lemma_membership(0, arbitrary());
            }
        }
        let who: usize = self.threads.len();
        let _ = self.gc.register();
        self.threads.push(Thread { op: Op::Idle, carry: None });
        who
    }

    /// Removes the participant that joined last, if it is idle.
    fn leave(&mut self)
        ensures
            final(self)@ == old(self)@.leave(),
            old(self)@.inv() ==> final(self)@.inv(),
            old(self)@.inv() && old(self)@.guarded() ==> final(self)@.guarded(),
    {
        proof {
            if self@.inv() {
                self@.lemma_membership(0, arbitrary());
            }
        }
        let n: usize = self.threads.len();
        if n > 0 {
            let idle = match self.threads[n - 1].op {
                Op::Idle => true,
                _ => false,
            };
            if idle {
                let _ = self.threads.pop();
                self.gc.unregister();
                assert(self@.threads =~= old(self)@.leave().threads);
            }
        }
    }

    /// Whether `who` is known and idle.
    pub fn can_begin(&self, who: usize) -> (b: bool)
        ensures
            b == self@.can_begin(who),
    {
        if who < self.threads.len() {
            match self.threads[who].op {
                Op::Idle => true,
                _ => false,
            }
        } else {
            false
        }
    }

    /// Lets `who` begin to enqueue `v`. A participant that is unknown or busy
    /// gets the value back.
    pub fn begin_enq(&mut self, who: usize, v: T) -> (r: Result<(), T>)
        ensures
            old(self)@.can_begin(who) ==> r is Ok,
            !old(self)@.can_begin(who) ==> r == Err::<(), T>(v),
            final(self)@ == old(self)@.begin_enq(who, v),
            old(self)@.inv() ==> final(self)@.inv(),
            old(self)@.inv() && old(self)@.guarded() ==> final(self)@.guarded(),
    {
        proof {
            if self@.inv() {
                self@.lemma_membership(who, v);
            }
        }
        if self.can_begin(who) {
            self.threads[who] = Thread { op: Op::Enq(EnqState::start()), carry: Some(v) };
            Ok(())
        } else {
            Err(v)
        }
    }

    /// Lets `who` begin to dequeue. Returns whether it could.
    pub fn begin_deq(&mut self, who: usize) -> (ok: bool)
        ensures
            ok == old(self)@.can_begin(who),
            final(self)@ == old(self)@.begin_deq(who),
            old(self)@.inv() ==> final(self)@.inv(),
            old(self)@.inv() && old(self)@.guarded() ==> final(self)@.guarded(),
    {
        proof {
            if self@.inv() {
                self@.lemma_membership(who, arbitrary());
            }
        }
        if self.can_begin(who) {
            self.threads[who] = Thread { op: Op::Deq(DeqState::start()), carry: None };
            true
        } else {
            false
        }
    }

    /// Tries to move the epoch on. Returns whether it moved.
    pub fn advance(&mut self) -> (moved: bool)
        ensures
            moved == old(self)@.gc.may_advance(),
            final(self)@ == old(self)@.advance(),
            old(self)@.inv() ==> final(self)@.inv(),
            old(self)@.inv() && old(self)@.guarded() ==> final(self)@.guarded(),
    {
        proof {
            if self@.inv() {
                self@.lemma_advance();
            }
        }
        self.gc.try_advance()
    }

    /// Releases the retired nodes whose epoch has expired. Returns how many
    /// the reclaimer handed out.
    pub fn collect(&mut self) -> (n: usize)
        ensures
            n == old(self)@.gc.collected().len(),
            final(self)@ == old(self)@.collect(),
            old(self)@.inv() ==> final(self)@.inv(),
            old(self)@.inv() && old(self)@.guarded() ==> final(self)@.guarded(),
            old(self)@.inv() && old(self)@.anchored() ==> final(self)@.anchored(),
    {
        proof {
            if self@.inv() {
                self@.lemma_collect();
            }
        }
        let addrs = self.gc.collect();
        let mut i: usize = 0;
        while i < addrs.len()
            invariant
                i <= addrs.len(),
                addrs@ == old(self)@.gc.collected(),
                self.gc@ == old(self)@.gc.collect(),
                self.threads == old(self).threads,
                self.hist == old(self).hist,
                self.heap@ == old(self)@.heap.free_all(addrs@.take(i as int)),
            decreases addrs.len() - i,
        {
            let _ = self.heap.free(addrs[i]);
            assert(addrs@.take(i + 1).drop_last() =~= addrs@.take(i as int));
            i += 1;
        }
        assert(addrs@.take(addrs@.len() as int) =~= addrs@);
        addrs.len()
    }

    fn set_op(&mut self, who: usize, op: Op)
        requires
            who < old(self)@.threads.len(),
        ensures
            final(self)@ == old(self)@.with_op(who, op),
    {
        self.threads[who].op = op;
        assert(self@.threads =~= old(self)@.with_op(who, op).threads);
    }

    fn step_enq(&mut self, who: usize, st: EnqState) -> (r: Progress<T>)
        requires
            who < old(self)@.threads.len(),
            old(self)@.threads[who as int].op == Op::Enq(st),
        ensures
            r == old(self)@.outcome(who),
            final(self)@ == old(self)@.step_enq(who, st),
    {
        match st {
            EnqState::Pin => {
                self.gc.pin(who);
                self.set_op(who, Op::Enq(st.next(Event::Pinned)));
                Progress::Running
            },
            EnqState::Alloc => {
                let v = self.threads[who].carry.take();
                let a: usize = self.heap.allocate(Node { next: None, data: v });
                proof {
                    self.hist@ = self.hist@.allocated();
                }
                self.set_op(who, Op::Enq(st.next(Event::Allocated(a))));
                assert(self@.threads =~= old(self)@.step_enq(who, st).threads);
                Progress::Running
            },
            EnqState::LoadTail { .. } => {
                let p: usize = self.heap.tail();
                self.set_op(who, Op::Enq(st.next(Event::Loaded(Some(p)))));
                Progress::Running
            },
            EnqState::LoadNext { tail, .. } => match self.heap.next_of(tail) {
                Some(q) => {
                    self.set_op(who, Op::Enq(st.next(Event::Loaded(q))));
                    Progress::Running
                },
                None => Progress::Fault,
            },
            EnqState::Link { node, tail } => {
                let ghost data = self.heap@.payload(node);
                match self.heap.link(tail, node) {
                    Some(ok) => {
                        proof {
                            if ok {
                                self.hist@ = self.hist@.linked(node, data, who);
                            }
                        }
                        self.set_op(who, Op::Enq(st.next(Event::Swapped(ok))));
                        Progress::Running
                    },
                    None => Progress::Fault,
                }
            },
            EnqState::Help { tail, next, .. } => {
                let ok = self.heap.swing_tail(tail, next);
                self.set_op(who, Op::Enq(st.next(Event::Swapped(ok))));
                Progress::Running
            },
            EnqState::Swing { node, tail } => {
                let ok = self.heap.swing_tail(tail, node);
                self.set_op(who, Op::Enq(st.next(Event::Swapped(ok))));
                Progress::Running
            },
            EnqState::Unpin => {
                self.gc.unpin(who);
                self.set_op(who, Op::Idle);
                Progress::Enqueued
            },
            EnqState::Done => Progress::Idle,
        }
    }

    fn step_deq(&mut self, who: usize, st: DeqState) -> (r: Progress<T>)
        requires
            who < old(self)@.threads.len(),
            old(self)@.threads[who as int].op == Op::Deq(st),
        ensures
            r == old(self)@.outcome(who),
            final(self)@ == old(self)@.step_deq(who, st),
    {
        match st {
            DeqState::Pin => {
                self.gc.pin(who);
                self.set_op(who, Op::Deq(st.next(Event::Pinned)));
                Progress::Running
            },
            DeqState::LoadHead => {
                let p: usize = self.heap.head();
                self.set_op(who, Op::Deq(st.next(Event::Loaded(Some(p)))));
                Progress::Running
            },
            DeqState::LoadNext { head } => match self.heap.next_of(head) {
                Some(q) => {
                    self.set_op(who, Op::Deq(st.next(Event::Loaded(q))));
                    Progress::Running
                },
                None => Progress::Fault,
            },
            DeqState::Swing { head, next } => {
                let ok = self.heap.swing_head(head, next);
                proof {
                    if ok {
                        self.hist@ = self.hist@.served_one();
                    }
                }
                self.set_op(who, Op::Deq(st.next(Event::Swapped(ok))));
                Progress::Running
            },
            DeqState::Take { next, .. } => match self.heap.take(next) {
                Some(d) => {
                    self.threads[who] = Thread { op: Op::Deq(st.next(Event::Taken)), carry: d };
                    Progress::Running
                },
                None => Progress::Fault,
            },
            DeqState::Retire { head } => {
                let ghost epoch = self.gc@.epoch;
                self.gc.defer_destroy(head);
                proof {
                    self.hist@ = self.hist@.retire(head, epoch);
                }
                self.set_op(who, Op::Deq(st.next(Event::Retired)));
                Progress::Running
            },
            DeqState::Unpin { .. } => {
                self.gc.unpin(who);
                let v = self.threads[who].carry.take();
                self.set_op(who, Op::Idle);
                assert(self@.threads =~= old(self)@.step_deq(who, st).threads);
                Progress::Dequeued(v)
            },
            DeqState::Done { .. } => Progress::Idle,
        }
    }

    /// One atomic step of `who`: the pending request of its operation is
    /// performed and the operation moves on.
    pub fn step(&mut self, who: usize) -> (r: Progress<T>)
        ensures
            r == old(self)@.outcome(who),
            final(self)@ == old(self)@.step(who),
            old(self)@.room(who),
            old(self)@.inv() ==> final(self)@.inv(),
            old(self)@.inv() && old(self)@.guarded() && !old(self)@.hazard(who)
                ==> final(self)@.guarded(),
            old(self)@.inv() && old(self)@.anchored() && !old(self)@.overtakes(who)
                ==> final(self)@.anchored(),
    {
        if who >= self.threads.len() {
            return Progress::Idle;
        }
        let op = self.threads[who].op;
        let r = match op {
            Op::Idle => Progress::Idle,
            Op::Enq(st) => self.step_enq(who, st),
            Op::Deq(st) => self.step_deq(who, st),
        };
        proof {
            self.heap.lemma_bounded();
            if old(self)@.inv() {
                old(self)@.lemma_step(who);
                if old(self)@.anchored() {
                    old(self)@.lemma_step_anchored(who);
                }
            }
        }
        r
    }

    /// Appends `v` at the back of the queue: runs one enqueue from its
    /// beginning to its return, with no step of another participant in
    /// between. The operations that others have in flight stay as they are.
    pub fn enq(&mut self, v: T)
        requires
            old(self)@.inv(),
        ensures
            final(self)@.inv(),
            final(self)@.contents() == old(self)@.contents().push(v),
            final(self)@.hist.log == old(self)@.hist.log.push(v),
            final(self)@.hist.served == old(self)@.hist.served,
            final(self)@.threads == old(self)@.threads,
            final(self)@.gc == old(self)@.gc,
            final(self)@.heap.nodes.len() == old(self)@.heap.nodes.len() + 1,
            final(self)@.heap.head == old(self)@.heap.head,
            final(self)@.heap.tail == old(self)@.heap.nodes.len(),
            old(self)@.anchored() ==> final(self)@.anchored(),
            old(self)@.guarded() && old(self)@.anchored() ==> final(self)@.guarded(),
    {
        let who: usize = self.join();
        let _ = self.begin_enq(who, v);
        assert(self@.threads.drop_last() =~= old(self)@.threads);
        assert(self@.gc.pins.drop_last() =~= old(self)@.gc.pins);
        let mut done = false;
        while !done
            invariant
                old(self)@.inv(),
                self@.inv(),
                self@.enq_alone(old(self)@, who, v),
                done == (self@.op(who) == Op::Idle),
                old(self)@.anchored() ==> self@.anchored(),
                old(self)@.guarded() && old(self)@.anchored() ==> self@.guarded(),
            decreases self@.enq_rank(who),
        {
            let ghost before = self@;
            let r = self.step(who);
            proof {
                before.lemma_enq_alone(old(self)@, who, v);
            }
            done = match r {
                Progress::Enqueued => true,
                _ => false,
            };
        }
        proof {
            assert(self@.thread_ok(who as int));
        }
        self.leave();
        assert(self@.contents() =~= old(self)@.contents().push(v));
        assert(self@.gc.pins =~= old(self)@.gc.pins);
    }

    /// Removes the value at the front of the queue and returns it, or
    /// returns `None` if the queue is empty: runs one dequeue from its
    /// beginning to its return, with no step of another participant in
    /// between. A dequeue that finds the queue empty leaves the whole state
    /// as it was.
    pub fn deq(&mut self) -> (r: Option<T>)
        requires
            old(self)@.inv(),
        ensures
            final(self)@.inv(),
            r == old(self)@.front(),
            old(self)@.contents().len() == 0 ==> final(self)@ == old(self)@,
            old(self)@.contents().len() > 0 ==> {
                &&& final(self)@.contents() == old(self)@.contents().drop_first()
                &&& final(self)@.moved_on(old(self)@)
                &&& final(self)@.gc.bag == old(self)@.bag_with_sentinel()
                &&& final(self)@.gc.epoch == old(self)@.gc.epoch
                &&& final(self)@.gc.pins == old(self)@.gc.pins
            },
            final(self)@.hist.log == old(self)@.hist.log,
            final(self)@.threads == old(self)@.threads,
            old(self)@.guarded() ==> final(self)@.guarded(),
            old(self)@.anchored() && (old(self)@.heap.tail != old(self)@.heap.head
                || old(self)@.contents().len() == 0) ==> final(self)@.anchored(),
    {
        let who: usize = self.join();
        let _ = self.begin_deq(who);
        assert(self@.threads.drop_last() =~= old(self)@.threads);
        assert(self@.gc.pins.drop_last() =~= old(self)@.gc.pins);
        let mut out: Option<T> = None;
        let mut done = false;
        while !done
            invariant
                old(self)@.inv(),
                self@.inv(),
                self@.deq_alone(old(self)@, who),
                done == (self@.op(who) == Op::Idle),
                done ==> out == old(self)@.front(),
                old(self)@.guarded() ==> self@.guarded(),
                old(self)@.anchored() && (old(self)@.heap.tail != old(self)@.heap.head
                    || old(self)@.contents().len() == 0) ==> self@.anchored(),
            decreases self@.deq_rank(who),
        {
            let ghost before = self@;
            let r = self.step(who);
            proof {
                before.lemma_deq_alone(old(self)@, who);
            }
            match r {
                Progress::Dequeued(v) => {
                    out = v;
                    done = true;
                },
                _ => {},
            }
        }
        proof {
            assert(self@.thread_ok(who as int));
        }
        self.leave();
        proof {
            let s0 = old(self)@;
            if s0.contents().len() > 0 {
                assert(self@.contents() =~= s0.contents().drop_first());
                assert(self@.gc.pins =~= s0.gc.pins);
            } else {
                assert(self@.gc.pins =~= s0.gc.pins);
                assert(self@ =~~= s0);
            }
        }
        out
    }
}

} // verus!
