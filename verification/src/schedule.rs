//! Schedules: what holds after any sequence of moves.
//!
//! A move is anything that can happen to the machine: a participant joins,
//! begins an operation or takes a step, the epoch moves on, the reclaimer
//! collects. A schedule is a sequence of moves, so every interleaving of any
//! number of producers and consumers is a schedule.

use crate::machine::State;
use vstd::prelude::*;

verus! {

/// One move of a schedule.
pub enum Move<T> {
    /// A participant joins.
    Join,
    /// The participant begins to enqueue the value.
    BeginEnq(usize, T),
    /// The participant begins to dequeue.
    BeginDeq(usize),
    /// The participant takes one step of its operation.
    Step(usize),
    /// The reclaimer tries to move the epoch on.
    Advance,
    /// The reclaimer releases what has expired.
    Collect,
}

impl<T> State<T> {
    /// The state after the move `m`.
    pub open spec fn apply(self, m: Move<T>) -> Self {
        match m {
            Move::Join => self.join(),
            Move::BeginEnq(who, v) => self.begin_enq(who, v),
            Move::BeginDeq(who) => self.begin_deq(who),
            Move::Step(who) => self.step(who),
            Move::Advance => self.advance(),
            Move::Collect => self.collect(),
        }
    }

    /// The state after the schedule `moves`.
    pub open spec fn run(self, moves: Seq<Move<T>>) -> Self
        decreases moves.len(),
    {
        if moves.len() == 0 {
            self
        } else {
            self.run(moves.drop_last()).apply(moves.last())
        }
    }

    /// The move `m` links a node: an enqueue takes effect.
    pub open spec fn move_links(self, m: Move<T>) -> bool {
        m matches Move::Step(who) && self.links(who)
    }

    /// The move `m` moves the head pointer: a dequeue takes effect.
    pub open spec fn move_serves(self, m: Move<T>) -> bool {
        m matches Move::Step(who) && self.serves(who)
    }

    /// The move `m` reads a tail pointer that no pin shields.
    pub open spec fn move_hazard(self, m: Move<T>) -> bool {
        m matches Move::Step(who) && self.hazard(who)
    }

    /// The move `m` moves the head pointer past the tail pointer.
    pub open spec fn move_overtakes(self, m: Move<T>) -> bool {
        m matches Move::Step(who) && self.overtakes(who)
    }

    /// The values whose enqueue took effect during the schedule, in the
    /// order in which they took effect.
    pub open spec fn enqueued(self, moves: Seq<Move<T>>) -> Seq<T>
        decreases moves.len(),
    {
        if moves.len() == 0 {
            Seq::empty()
        } else {
            let before = self.run(moves.drop_last());
            let sofar = self.enqueued(moves.drop_last());
            if before.move_links(moves.last()) {
                sofar.push(before.cargo(moves.last()->Step_0)->0)
            } else {
                sofar
            }
        }
    }

    /// The values that dequeues won during the schedule, in the order in
    /// which they won them.
    pub open spec fn dequeued(self, moves: Seq<Move<T>>) -> Seq<T>
        decreases moves.len(),
    {
        if moves.len() == 0 {
            Seq::empty()
        } else {
            let before = self.run(moves.drop_last());
            let sofar = self.dequeued(moves.drop_last());
            if before.move_serves(moves.last()) {
                sofar.push(before.apply(moves.last()).cargo(moves.last()->Step_0)->0)
            } else {
                sofar
            }
        }
    }

    /// No move of the schedule reads a tail pointer that no pin shields.
    pub open spec fn calm(self, moves: Seq<Move<T>>) -> bool
        decreases moves.len(),
    {
        moves.len() > 0 ==> self.calm(moves.drop_last()) && !self.run(
            moves.drop_last(),
        ).move_hazard(moves.last())
    }

    /// No move of the schedule moves the head pointer past the tail pointer.
    pub open spec fn tame(self, moves: Seq<Move<T>>) -> bool
        decreases moves.len(),
    {
        moves.len() > 0 ==> self.tame(moves.drop_last()) && !self.run(
            moves.drop_last(),
        ).move_overtakes(moves.last())
    }

    /// What one move does: it keeps the invariant, allocates at most one
    /// node, and changes the contents only by an enqueue or a dequeue that
    /// takes effect.
    pub proof fn lemma_apply(self, m: Move<T>)
        requires
            self.inv(),
            self.heap.nodes.len() < usize::MAX,
        ensures
            self.apply(m).inv(),
            self.apply(m).heap.nodes.len() <= self.heap.nodes.len() + 1,
            self.guarded() && !self.move_hazard(m) ==> self.apply(m).guarded(),
            self.anchored() && !self.move_overtakes(m) ==> self.apply(m).anchored(),
            self.anchored() ==> !self.move_hazard(m),
            self.move_links(m) ==> self.apply(m).contents() == self.contents().push(
                self.cargo(m->Step_0)->0,
            ),
            self.move_serves(m) ==> self.contents().len() > 0 && self.apply(m).cargo(m->Step_0)
                == Some(self.contents()[0]) && self.apply(m).contents()
                == self.contents().drop_first(),
            !self.move_links(m) && !self.move_serves(m) ==> self.apply(m).contents()
                == self.contents(),
    {
        match m {
            Move::Join => {
                self.lemma_membership(0, arbitrary());
            },
            Move::BeginEnq(who, v) => {
                self.lemma_membership(who, v);
            },
            Move::BeginDeq(who) => {
                self.lemma_membership(who, arbitrary());
            },
            Move::Step(who) => {
                self.lemma_step(who);
                self.lemma_step_contents(who);
                if self.anchored() {
                    self.lemma_step_anchored(who);
                }
            },
            Move::Advance => {
                self.lemma_advance();
            },
            Move::Collect => {
                self.lemma_collect();
                self.lemma_collect_nodes();
            },
        }
    }

    /// After any schedule the invariant holds, and the values that dequeues
    /// have won, followed by the contents, are the contents of the beginning
    /// followed by the values that were enqueued, in the same order.
    ///
    /// So values leave in the order in which they entered, none is lost, none
    /// is served twice, and none is served before its enqueue took effect.
    /// The schedule must not be longer than the addresses that are left.
    pub proof fn lemma_run(self, moves: Seq<Move<T>>)
        requires
            self.inv(),
            self.heap.nodes.len() + moves.len() <= usize::MAX,
        ensures
            self.run(moves).inv(),
            self.run(moves).heap.nodes.len() <= self.heap.nodes.len() + moves.len(),
            self.dequeued(moves) + self.run(moves).contents() == self.contents() + self.enqueued(
                moves,
            ),
        decreases moves.len(),
    {
        if moves.len() == 0 {
            assert(self.dequeued(moves) + self.contents() =~= self.contents() + self.enqueued(
                moves,
            ));
        } else {
            let front = moves.drop_last();
            let m = moves.last();
            self.lemma_run(front);
            let before = self.run(front);
            before.lemma_apply(m);
            let after = self.run(moves);
            assert(self.dequeued(moves) + after.contents() =~= self.contents() + self.enqueued(
                moves,
            )) by {
                assert(self.dequeued(front) + before.contents() == self.contents()
                    + self.enqueued(front));
                if before.move_links(m) {
                    let v = before.cargo(m->Step_0)->0;
                    assert(self.dequeued(front) + before.contents().push(v) =~= (self.dequeued(
                        front,
                    ) + before.contents()).push(v));
                    assert(self.contents() + self.enqueued(front).push(v) =~= (self.contents()
                        + self.enqueued(front)).push(v));
                } else if before.move_serves(m) {
                    let v = before.contents()[0];
                    assert(self.dequeued(front).push(v) + before.contents().drop_first()
                        =~= self.dequeued(front) + before.contents());
                }
            }
        }
    }

    /// After a schedule in which no move reads an unshielded tail pointer the
    /// state is guarded: no step that may follow touches reclaimed memory. A
    /// schedule in which the head pointer never passes the tail pointer is
    /// such a schedule, and after it the tail pointer can be reached from the
    /// head.
    pub proof fn lemma_run_guarded(self, moves: Seq<Move<T>>)
        requires
            self.inv(),
            self.heap.nodes.len() + moves.len() <= usize::MAX,
        ensures
            self.guarded() && self.calm(moves) ==> self.run(moves).guarded(),
            self.anchored() && self.tame(moves) ==> self.run(moves).anchored() && self.calm(
                moves,
            ),
        decreases moves.len(),
    {
        if moves.len() > 0 {
            let front = moves.drop_last();
            self.lemma_run(front);
            self.lemma_run_guarded(front);
            self.run(front).lemma_apply(moves.last());
        }
    }

    /// No use after release. After a schedule from a new queue in which no
    /// move reads an unshielded tail pointer, whichever participant takes the
    /// next step, the step does not touch reclaimed memory. A dequeue never
    /// does, after any schedule.
    pub proof fn lemma_run_no_fault(moves: Seq<Move<T>>, who: usize)
        requires
            moves.len() < usize::MAX,
        ensures
            Self::init().calm(moves) ==> !Self::init().run(moves).faults(who),
            Self::init().run(moves).op(who) is Deq ==> !Self::init().run(moves).faults(who),
    {
        let s0 = Self::init();
        Self::lemma_init();
        s0.lemma_run(moves);
        s0.lemma_run_guarded(moves);
        s0.run(moves).lemma_no_fault(who);
    }
}

} // verus!
