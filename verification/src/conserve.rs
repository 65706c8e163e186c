//! Conservation: every value that an enqueue was begun with is, at any
//! moment, in exactly one place. It waits in its enqueue, or it is in the
//! queue, or a dequeue has won it and not returned yet, or it was returned.

use crate::laws::held;
use crate::machine::{Progress, State};
use crate::schedule::Move;
use vstd::multiset::Multiset;
use vstd::prelude::*;

verus! {

/// The sum of the multisets of `parts`.
pub open spec fn tally<T>(parts: Seq<Multiset<T>>) -> Multiset<T>
    decreases parts.len(),
{
    if parts.len() == 0 {
        Multiset::empty()
    } else {
        tally(parts.drop_last()).add(parts.last())
    }
}

/// Replacing one part replaces it in the sum.
pub proof fn lemma_tally_update<T>(parts: Seq<Multiset<T>>, i: int, x: Multiset<T>)
    requires
        0 <= i < parts.len(),
    ensures
        tally(parts.update(i, x)).add(parts[i]) == tally(parts).add(x),
    decreases parts.len(),
{
    let front = parts.drop_last();
    let changed = parts.update(i, x);
    if i == parts.len() - 1 {
        assert(changed.drop_last() =~= front);
    } else {
        lemma_tally_update(front, i, x);
        assert(changed.drop_last() =~= front.update(i, x));
        assert(tally(changed).add(parts[i]) =~= tally(front.update(i, x)).add(front[i]).add(
            parts.last(),
        ));
    }
    assert(tally(changed).add(parts[i]) =~= tally(parts).add(x));
}

/// A sum of empty parts is empty.
pub proof fn lemma_tally_empty<T>(parts: Seq<Multiset<T>>)
    requires
        forall|i: int| 0 <= i < parts.len() ==> #[trigger] parts[i] == Multiset::<T>::empty(),
    ensures
        tally(parts) == Multiset::<T>::empty(),
    decreases parts.len(),
{
    if parts.len() > 0 {
        lemma_tally_empty(parts.drop_last());
        assert(tally(parts) =~= Multiset::<T>::empty());
    }
}

/// If one part of a sum is replaced, and the old part with `x` is the new
/// part with `y`, then the old sum with `x` is the new sum with `y`.
proof fn lemma_tally_shift<T>(
    old_sum: Multiset<T>,
    new_sum: Multiset<T>,
    old_part: Multiset<T>,
    new_part: Multiset<T>,
    x: Multiset<T>,
    y: Multiset<T>,
)
    requires
        new_sum.add(old_part) == old_sum.add(new_part),
        old_part.add(x) == new_part.add(y),
    ensures
        old_sum.add(x) == new_sum.add(y),
{
    assert forall|v: T| old_sum.add(x).count(v) == new_sum.add(y).count(v) by {
        vstd::multiset::axiom_multiset_add(old_sum, x, v);
        vstd::multiset::axiom_multiset_add(new_sum, y, v);
        vstd::multiset::axiom_multiset_add(new_sum, old_part, v);
        vstd::multiset::axiom_multiset_add(old_sum, new_part, v);
        vstd::multiset::axiom_multiset_add(old_part, x, v);
        vstd::multiset::axiom_multiset_add(new_part, y, v);
    }
    assert(old_sum.add(x) =~= new_sum.add(y));
}

/// The multiset of at most one value.
pub open spec fn bag_of<T>(v: Option<T>) -> Multiset<T> {
    match v {
        Some(x) => Multiset::singleton(x),
        None => Multiset::empty(),
    }
}

impl<T> State<T> {
    /// The value that waits in the enqueue of participant `t`.
    pub open spec fn waiting_at(self, t: int) -> Multiset<T> {
        if self.threads[t].op is Enq {
            bag_of(held(self.heap, self.threads[t]))
        } else {
            Multiset::empty()
        }
    }

    /// The value that the dequeue of participant `t` has won.
    pub open spec fn won_at(self, t: int) -> Multiset<T> {
        if self.threads[t].op is Deq {
            bag_of(held(self.heap, self.threads[t]))
        } else {
            Multiset::empty()
        }
    }

    /// The values that wait in enqueues: begun and not yet in the queue.
    pub open spec fn waiting(self) -> Multiset<T> {
        tally(Seq::new(self.threads.len(), |t: int| self.waiting_at(t)))
    }

    /// The values that dequeues have won and not returned yet.
    pub open spec fn won(self) -> Multiset<T> {
        tally(Seq::new(self.threads.len(), |t: int| self.won_at(t)))
    }

    /// The value with which the move `m` begins an enqueue, if it does.
    pub open spec fn move_begins(self, m: Move<T>) -> Option<T> {
        match m {
            Move::BeginEnq(who, v) => if self.can_begin(who) {
                Some(v)
            } else {
                None
            },
            _ => None,
        }
    }

    /// The value that a dequeue returns with the move `m`, if one does.
    pub open spec fn move_returns(self, m: Move<T>) -> Option<T> {
        match m {
            Move::Step(who) => match self.outcome(who) {
                Progress::Dequeued(v) => v,
                _ => None,
            },
            _ => None,
        }
    }

    /// The values with which enqueues were begun during the schedule.
    pub open spec fn begun(self, moves: Seq<Move<T>>) -> Multiset<T>
        decreases moves.len(),
    {
        if moves.len() == 0 {
            Multiset::empty()
        } else {
            self.begun(moves.drop_last()).add(
                bag_of(self.run(moves.drop_last()).move_begins(moves.last())),
            )
        }
    }

    /// The values that dequeues returned during the schedule.
    pub open spec fn returned(self, moves: Seq<Move<T>>) -> Multiset<T>
        decreases moves.len(),
    {
        if moves.len() == 0 {
            Multiset::empty()
        } else {
            self.returned(moves.drop_last()).add(
                bag_of(self.run(moves.drop_last()).move_returns(moves.last())),
            )
        }
    }

    /// What the move `m` enqueues: the value of the enqueue that takes
    /// effect, if one does.
    pub open spec fn move_enqueues(self, m: Move<T>) -> Multiset<T> {
        if self.move_links(m) {
            bag_of(self.cargo(m->Step_0))
        } else {
            Multiset::empty()
        }
    }

    /// What the move `m` dequeues: the value that a dequeue wins, if one
    /// does.
    pub open spec fn move_dequeues(self, m: Move<T>) -> Multiset<T> {
        if self.move_serves(m) {
            bag_of(self.apply(m).cargo(m->Step_0))
        } else {
            Multiset::empty()
        }
    }

    /// One move keeps the balance: what was waiting and what is begun is
    /// waiting still or enqueued; what was won and what is dequeued is won
    /// still or returned.
    pub proof fn lemma_apply_balance(self, m: Move<T>)
        requires
            self.inv(),
            self.heap.nodes.len() < usize::MAX,
        ensures
            self.waiting().add(bag_of(self.move_begins(m))) == self.apply(m).waiting().add(
                self.move_enqueues(m),
            ),
            self.won().add(self.move_dequeues(m)) == self.apply(m).won().add(
                bag_of(self.move_returns(m)),
            ),
    {
        let s2 = self.apply(m);
        let n = self.threads.len();
        let w1 = Seq::new(n, |t: int| self.waiting_at(t));
        let w2 = Seq::new(s2.threads.len(), |t: int| s2.waiting_at(t));
        let d1 = Seq::new(n, |t: int| self.won_at(t));
        let d2 = Seq::new(s2.threads.len(), |t: int| s2.won_at(t));
        let zero = Multiset::<T>::empty();
        match m {
            Move::Join => {
                assert(w2.drop_last() =~= w1);
                assert(d2.drop_last() =~= d1);
                assert(tally(w2) =~= tally(w1));
                assert(tally(d2) =~= tally(d1));
            },
            Move::Advance => {
                assert(w2 =~= w1);
                assert(d2 =~= d1);
            },
            Move::Collect => {
                assert forall|t: int| 0 <= t < n implies w2[t] == w1[t] && d2[t] == d1[t] by {
                    self.lemma_collect_frame(t);
                }
                assert(w2 =~= w1);
                assert(d2 =~= d1);
            },
            Move::BeginEnq(who, v) => {
                if self.can_begin(who) {
                    assert(self.thread_ok(who as int));
                    assert(w2 =~= w1.update(who as int, s2.waiting_at(who as int)));
                    assert(d2 =~= d1);
                    lemma_tally_update(w1, who as int, s2.waiting_at(who as int));
                } else {
                    assert(w2 =~= w1);
                    assert(d2 =~= d1);
                }
            },
            Move::BeginDeq(who) => {
                if self.can_begin(who) {
                    assert(self.thread_ok(who as int));
                    assert(w2 =~= w1);
                    assert(d2 =~= d1.update(who as int, s2.won_at(who as int)));
                    lemma_tally_update(d1, who as int, s2.won_at(who as int));
                } else {
                    assert(w2 =~= w1);
                    assert(d2 =~= d1);
                }
            },
            Move::Step(who) => {
                if who < n {
                    let w = who as int;
                    self.lemma_step(who);
                    self.lemma_step_contents(who);
                    self.lemma_step_cargo(who);
                    assert(self.thread_ok(w));
                    assert(s2.thread_ok(w));
                    assert forall|t: int| 0 <= t < n && t != w implies w2[t] == w1[t] && d2[t]
                        == d1[t] by {
                        self.lemma_step_frame(who, t);
                    }
                    assert(s2.threads.len() == n);
                    assert(w2 =~= w1.update(w, s2.waiting_at(w)));
                    assert(d2 =~= d1.update(w, s2.won_at(w)));
                    lemma_tally_update(w1, w, s2.waiting_at(w));
                    lemma_tally_update(d1, w, s2.won_at(w));
                    assert(self.waiting_at(w).add(zero) =~= s2.waiting_at(w).add(
                        self.move_enqueues(m),
                    ));
                    assert(self.won_at(w).add(self.move_dequeues(m)) =~= s2.won_at(w).add(
                        bag_of(self.move_returns(m)),
                    ));
                    lemma_tally_shift(
                        tally(w1),
                        tally(w2),
                        w1[w],
                        w2[w],
                        zero,
                        self.move_enqueues(m),
                    );
                    lemma_tally_shift(
                        tally(d1),
                        tally(d2),
                        d1[w],
                        d2[w],
                        self.move_dequeues(m),
                        bag_of(self.move_returns(m)),
                    );
                } else {
                    assert(w2 =~= w1);
                    assert(d2 =~= d1);
                }
            },
        }
        assert(self.waiting().add(bag_of(self.move_begins(m))) =~= s2.waiting().add(
            self.move_enqueues(m),
        ));
        assert(self.won().add(self.move_dequeues(m)) =~= s2.won().add(
            bag_of(self.move_returns(m)),
        ));
    }

    /// After any schedule, the values that waited at the beginning and those
    /// that were begun are the values that were enqueued and those that wait
    /// still; the values that were won at the beginning and those that were
    /// dequeued are the values that were returned and those that are won
    /// still.
    pub proof fn lemma_run_balance(self, moves: Seq<Move<T>>)
        requires
            self.inv(),
            self.heap.nodes.len() + moves.len() <= usize::MAX,
        ensures
            self.waiting().add(self.begun(moves)) == self.run(moves).waiting().add(
                self.enqueued(moves).to_multiset(),
            ),
            self.won().add(self.dequeued(moves).to_multiset()) == self.run(moves).won().add(
                self.returned(moves),
            ),
        decreases moves.len(),
    {
        if moves.len() == 0 {
            assert(self.enqueued(moves).to_multiset() =~= Multiset::<T>::empty()) by {
                self.enqueued(moves).to_multiset_ensures();
            }
            assert(self.dequeued(moves).to_multiset() =~= Multiset::<T>::empty()) by {
                self.dequeued(moves).to_multiset_ensures();
            }
            assert(self.waiting().add(self.begun(moves)) =~= self.waiting().add(
                self.enqueued(moves).to_multiset(),
            ));
            assert(self.won().add(self.dequeued(moves).to_multiset()) =~= self.won().add(
                self.returned(moves),
            ));
        } else {
            let front = moves.drop_last();
            let m = moves.last();
            let before = self.run(front);
            let after = self.run(moves);
            self.lemma_run(front);
            self.lemma_run_balance(front);
            before.lemma_apply(m);
            before.lemma_apply_balance(m);
            let e = self.enqueued(front);
            let d = self.dequeued(front);
            if before.move_links(m) {
                vstd::seq_lib::to_multiset_build(e, before.cargo(m->Step_0)->0);
            }
            if before.move_serves(m) {
                vstd::seq_lib::to_multiset_build(d, before.apply(m).cargo(m->Step_0)->0);
            }
            assert(self.enqueued(moves).to_multiset() =~= e.to_multiset().add(
                before.move_enqueues(m),
            ));
            assert(self.dequeued(moves).to_multiset() =~= d.to_multiset().add(
                before.move_dequeues(m),
            ));
            assert(self.waiting().add(self.begun(moves)) =~= after.waiting().add(
                self.enqueued(moves).to_multiset(),
            )) by {
                assert(self.waiting().add(self.begun(front)) == before.waiting().add(
                    e.to_multiset(),
                ));
                assert(before.waiting().add(bag_of(before.move_begins(m))) == after.waiting().add(
                    before.move_enqueues(m),
                ));
                assert(self.waiting().add(self.begun(moves)) =~= self.waiting().add(
                    self.begun(front),
                ).add(bag_of(before.move_begins(m))));
                assert(before.waiting().add(e.to_multiset()).add(bag_of(before.move_begins(m)))
                    =~= before.waiting().add(bag_of(before.move_begins(m))).add(e.to_multiset()));
            }
            assert(self.won().add(self.dequeued(moves).to_multiset()) =~= after.won().add(
                self.returned(moves),
            )) by {
                assert(self.won().add(d.to_multiset()) == before.won().add(self.returned(front)));
                assert(before.won().add(before.move_dequeues(m)) == after.won().add(
                    bag_of(before.move_returns(m)),
                ));
                assert(self.won().add(self.dequeued(moves).to_multiset()) =~= self.won().add(
                    d.to_multiset(),
                ).add(before.move_dequeues(m)));
                assert(before.won().add(self.returned(front)).add(before.move_dequeues(m))
                    =~= before.won().add(before.move_dequeues(m)).add(self.returned(front)));
            }
        }
    }

    /// Conservation. After any schedule from a new queue that ends with the
    /// queue empty and every participant idle, the values that dequeues have
    /// returned are exactly the values with which enqueues were begun, each
    /// as often as it was begun.
    pub proof fn lemma_drained(moves: Seq<Move<T>>)
        requires
            moves.len() < usize::MAX,
            Self::init().run(moves).quiescent(),
            Self::init().run(moves).contents().len() == 0,
        ensures
            Self::init().returned(moves) == Self::init().begun(moves),
    {
        let s0 = Self::init();
        let s = s0.run(moves);
        Self::lemma_init();
        s0.lemma_run(moves);
        s0.lemma_run_balance(moves);
        let w0 = Seq::new(s0.threads.len(), |t: int| s0.waiting_at(t));
        let d0 = Seq::new(s0.threads.len(), |t: int| s0.won_at(t));
        let w = Seq::new(s.threads.len(), |t: int| s.waiting_at(t));
        let d = Seq::new(s.threads.len(), |t: int| s.won_at(t));
        lemma_tally_empty(w0);
        lemma_tally_empty(d0);
        lemma_tally_empty(w);
        lemma_tally_empty(d);
        assert(s0.dequeued(moves) =~= s0.enqueued(moves)) by {
            assert(s0.dequeued(moves) + s.contents() =~= s0.dequeued(moves));
            assert(s0.contents() + s0.enqueued(moves) =~= s0.enqueued(moves));
        }
        assert(s0.returned(moves) =~= s0.begun(moves)) by {
            let zero = Multiset::<T>::empty();
            assert(zero.add(s0.begun(moves)) =~= s0.begun(moves));
            assert(zero.add(s0.returned(moves)) =~= s0.returned(moves));
            assert(zero.add(s0.enqueued(moves).to_multiset()) =~= s0.enqueued(
                moves,
            ).to_multiset());
        }
    }
}

} // verus!
