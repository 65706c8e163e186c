//! Epoch-based reclamation.
//!
//! The reclaimer keeps a global epoch, the epoch at which each participant is
//! pinned, and a bag of retired nodes, each tagged with the epoch of its
//! retirement. The epoch moves on only when every pinned participant has seen
//! it, and a retired node is handed out for release only when the epoch is two
//! steps past its tag. So a node that was retired while a participant was
//! pinned stays until that participant has unpinned.

use vstd::prelude::*;

verus! {

/// A retired node: its address and the epoch at which it was retired.
#[derive(Clone, Copy, PartialEq, Eq, Debug)]
pub struct Retired {
    pub addr: usize,
    pub epoch: u64,
}

/// The reclaimer as a mathematical value.
pub struct CollectorView {
    /// The global epoch.
    pub epoch: u64,
    /// For each participant the epoch at which it is pinned, if it is.
    pub pins: Seq<Option<u64>>,
    /// The retired nodes that were not handed out yet, oldest first.
    pub bag: Seq<Retired>,
}

impl CollectorView {
    /// Epoch 0, nobody registered, nothing retired.
    pub open spec fn init() -> Self {
        CollectorView { epoch: 0, pins: Seq::empty(), bag: Seq::empty() }
    }

    /// Tags never run ahead of the epoch and are in order; a pinned
    /// participant is at most one epoch behind.
    pub open spec fn wf(self) -> bool {
        &&& forall|j: int| 0 <= j < self.bag.len() ==> (#[trigger] self.bag[j]).epoch <= self.epoch
        &&& forall|i: int, j: int|
            0 <= i <= j < self.bag.len() ==> (#[trigger] self.bag[i]).epoch <= (
            #[trigger] self.bag[j]).epoch
        &&& forall|t: int|
            0 <= t < self.pins.len() ==> ((#[trigger] self.pins[t]) matches Some(e) ==> e
                <= self.epoch <= e + 1)
    }

    /// `who` is registered and pinned.
    pub open spec fn pinned(self, who: usize) -> bool {
        who < self.pins.len() && self.pins[who as int] is Some
    }

    /// One more participant, unpinned. Its handle is the old number of
    /// participants.
    pub open spec fn register(self) -> Self {
        CollectorView { pins: self.pins.push(None), ..self }
    }

    /// The last participant is gone.
    pub open spec fn unregister(self) -> Self {
        if self.pins.len() > 0 {
            CollectorView { pins: self.pins.drop_last(), ..self }
        } else {
            self
        }
    }

    /// `who` is pinned at the current epoch. A participant that is pinned
    /// already keeps its epoch.
    pub open spec fn pin(self, who: usize) -> Self {
        if who < self.pins.len() && self.pins[who as int] is None {
            CollectorView { pins: self.pins.update(who as int, Some(self.epoch)), ..self }
        } else {
            self
        }
    }

    /// `who` is no longer pinned.
    pub open spec fn unpin(self, who: usize) -> Self {
        if who < self.pins.len() {
            CollectorView { pins: self.pins.update(who as int, None), ..self }
        } else {
            self
        }
    }

    /// The node at `addr` is retired at the current epoch.
    pub open spec fn defer_destroy(self, addr: usize) -> Self {
        CollectorView { bag: self.bag.push(Retired { addr, epoch: self.epoch }), ..self }
    }

    /// Every pinned participant is pinned at the current epoch, and the epoch
    /// has a successor.
    pub open spec fn may_advance(self) -> bool {
        &&& self.epoch < u64::MAX
        &&& forall|t: int|
            0 <= t < self.pins.len() ==> ((#[trigger] self.pins[t]) matches Some(e) ==> e
                == self.epoch)
    }

    /// The reclaimer after an attempt to move the epoch on.
    pub open spec fn advance(self) -> Self {
        if self.may_advance() {
            CollectorView { epoch: (self.epoch + 1) as u64, ..self }
        } else {
            self
        }
    }

    /// The epoch is at least two past the tag of `r`.
    pub open spec fn expired(self, r: Retired) -> bool {
        r.epoch + 2 <= self.epoch
    }

    /// The first index from `i` on whose entry is not expired.
    pub open spec fn ripe_from(self, i: int) -> int
        decreases self.bag.len() - i,
    {
        if 0 <= i < self.bag.len() && self.expired(self.bag[i]) {
            self.ripe_from(i + 1)
        } else {
            i
        }
    }

    /// The number of expired entries at the front of the bag.
    pub open spec fn ripe(self) -> int {
        self.ripe_from(0)
    }

    /// The addresses that a collection hands out: those of the expired entries
    /// at the front of the bag, oldest first.
    pub open spec fn collected(self) -> Seq<usize> {
        Seq::new(self.ripe() as nat, |j: int| self.bag[j].addr)
    }

    /// The reclaimer after a collection.
    pub open spec fn collect(self) -> Self {
        CollectorView { bag: self.bag.skip(self.ripe()), ..self }
    }

    /// `ripe_from` stays inside the bag, everything it passes is expired, and
    /// where it stops the entry is not.
    pub proof fn lemma_ripe_from(self, i: int)
        requires
            0 <= i <= self.bag.len(),
        ensures
            i <= self.ripe_from(i) <= self.bag.len(),
            forall|j: int| i <= j < self.ripe_from(i) ==> self.expired(#[trigger] self.bag[j]),
            self.ripe_from(i) < self.bag.len() ==> !self.expired(self.bag[self.ripe_from(i)]),
        decreases self.bag.len() - i,
    {
        if i < self.bag.len() && self.expired(self.bag[i]) {
            self.lemma_ripe_from(i + 1);
        }
    }

    /// In a well-formed reclaimer the expired entries are exactly those at
    /// the front: none is left behind by a collection.
    pub proof fn lemma_collect_exact(self)
        requires
            self.wf(),
        ensures
            0 <= self.ripe() <= self.bag.len(),
            forall|j: int|
                0 <= j < self.bag.len() ==> (self.expired(#[trigger] self.bag[j]) <==> j
                    < self.ripe()),
    {
        self.lemma_ripe_from(0);
        let k = self.ripe();
        assert forall|j: int| 0 <= j < self.bag.len() implies (self.expired(
            #[trigger] self.bag[j],
        ) <==> j < k) by {
            if j >= k {
                assert(self.bag[k].epoch <= self.bag[j].epoch);
            }
        }
    }

    /// A node retired while a participant was pinned is not handed out as long
    /// as that participant stays pinned.
    pub proof fn lemma_pin_protects(self, who: usize, r: Retired)
        requires
            self.wf(),
            self.pinned(who),
            self.pins[who as int]->0 <= r.epoch,
        ensures
            !self.expired(r),
    {
    }

    /// Every transition keeps the reclaimer well-formed.
    pub proof fn lemma_wf_kept(self, who: usize, addr: usize)
        requires
            self.wf(),
        ensures
            Self::init().wf(),
            self.register().wf(),
            self.unregister().wf(),
            self.pin(who).wf(),
            self.unpin(who).wf(),
            self.defer_destroy(addr).wf(),
            self.advance().wf(),
            self.collect().wf(),
    {
        self.lemma_ripe_from(0);
        let d = self.defer_destroy(addr);
        assert forall|i: int, j: int| 0 <= i <= j < d.bag.len() implies (#[trigger] d.bag[i]).epoch
            <= (#[trigger] d.bag[j]).epoch by {
            if j < self.bag.len() {
                assert(self.bag[i].epoch <= self.bag[j].epoch);
            } else if i < self.bag.len() {
                assert(self.bag[i].epoch <= self.epoch);
            }
        }
        let c = self.collect();
        let k = self.ripe();
        assert forall|i: int, j: int| 0 <= i <= j < c.bag.len() implies (#[trigger] c.bag[i]).epoch
            <= (#[trigger] c.bag[j]).epoch by {
            assert(self.bag[i + k].epoch <= self.bag[j + k].epoch);
        }
        assert forall|j: int| 0 <= j < c.bag.len() implies (#[trigger] c.bag[j]).epoch
            <= c.epoch by {
            assert(self.bag[j + k].epoch <= self.epoch);
        }
    }
}

/// The reclaimer.
pub struct Collector {
    epoch: u64,
    pins: Vec<Option<u64>>,
    bag: Vec<Retired>,
}

impl View for Collector {
    type V = CollectorView;

    closed spec fn view(&self) -> CollectorView {
        CollectorView { epoch: self.epoch, pins: self.pins@, bag: self.bag@ }
    }
}

impl Collector {
    /// A reclaimer at epoch 0 with no participant and an empty bag.
    pub fn new() -> (c: Self)
        ensures
            c@ == CollectorView::init(),
    {
        let c = Collector { epoch: 0, pins: Vec::new(), bag: Vec::new() };
        assert(c@.pins =~= CollectorView::init().pins);
        assert(c@.bag =~= CollectorView::init().bag);
        c
    }

    /// The global epoch.
    pub fn epoch(&self) -> (e: u64)
        ensures
            e == self@.epoch,
    {
        self.epoch
    }

    /// The number of retired nodes that wait in the bag.
    pub fn pending(&self) -> (n: usize)
        ensures
            n == self@.bag.len(),
    {
        self.bag.len()
    }

    /// The epoch at which `who` is pinned; `None` if it is not pinned or not
    /// registered.
    pub fn pinned_at(&self, who: usize) -> (e: Option<u64>)
        ensures
            self@.pinned(who) ==> e == self@.pins[who as int],
            !self@.pinned(who) ==> e is None,
    {
        if who < self.pins.len() {
            self.pins[who]
        } else {
            None
        }
    }

    /// Registers a participant and returns its handle.
    pub fn register(&mut self) -> (who: usize)
        ensures
            final(self)@ == old(self)@.register(),
            who == old(self)@.pins.len(),
    {
        let who: usize = self.pins.len();
        self.pins.push(None);
        who
    }

    /// Removes the participant that registered last.
    pub fn unregister(&mut self)
        ensures
            final(self)@ == old(self)@.unregister(),
    {
        let _ = self.pins.pop();
        assert(self@.pins =~= old(self)@.unregister().pins);
    }

    /// Pins `who` at the current epoch.
    pub fn pin(&mut self, who: usize)
        ensures
            final(self)@ == old(self)@.pin(who),
    {
        if who < self.pins.len() && self.pins[who].is_none() {
            self.pins[who] = Some(self.epoch);
        }
        assert(self@.pins =~= old(self)@.pin(who).pins);
    }

    /// Releases the pin of `who`.
    pub fn unpin(&mut self, who: usize)
        ensures
            final(self)@ == old(self)@.unpin(who),
    {
        if who < self.pins.len() {
            self.pins[who] = None;
        }
        assert(self@.pins =~= old(self)@.unpin(who).pins);
    }

    /// Retires the node at `addr`: it is tagged with the current epoch and
    /// put into the bag.
    pub fn defer_destroy(&mut self, addr: usize)
        ensures
            final(self)@ == old(self)@.defer_destroy(addr),
    {
        self.bag.push(Retired { addr, epoch: self.epoch });
    }

    /// Moves the epoch on by one if every pinned participant is pinned at the
    /// current epoch. Returns whether it did.
    pub fn try_advance(&mut self) -> (moved: bool)
        ensures
            moved == old(self)@.may_advance(),
            final(self)@ == old(self)@.advance(),
    {
        if self.epoch == u64::MAX {
            return false;
        }
        let mut t: usize = 0;
        while t < self.pins.len()
            invariant
                t <= self.pins.len(),
                *self == *old(self),
                forall|u: int|
                    0 <= u < t ==> ((#[trigger] self.pins@[u]) matches Some(e) ==> e
                        == self.epoch),
            decreases self.pins.len() - t,
        {
            match self.pins[t] {
                Some(e) => {
                    if e != self.epoch {
                        return false;
                    }
                },
                None => {},
            }
            t += 1;
        }
        self.epoch = self.epoch + 1;
        true
    }

    /// Takes the expired entries from the front of the bag and returns their
    /// addresses, oldest first. The caller releases them.
    pub fn collect(&mut self) -> (addrs: Vec<usize>)
        ensures
            addrs@ == old(self)@.collected(),
            final(self)@ == old(self)@.collect(),
    {
        let mut addrs: Vec<usize> = Vec::new();
        let mut k: usize = 0;
        proof {
            self@.lemma_ripe_from(0);
        }
        while k < self.bag.len() && self.bag[k].epoch <= self.epoch && self.epoch
            - self.bag[k].epoch >= 2
            invariant
                *self == *old(self),
                k <= self.bag.len(),
                self@.ripe_from(k as int) == self@.ripe(),
                addrs@.len() == k,
                forall|j: int| 0 <= j < k ==> addrs@[j] == self.bag@[j].addr,
            decreases self.bag.len() - k,
        {
            addrs.push(self.bag[k].addr);
            k += 1;
        }
        let rest = self.bag.split_off(k);
        self.bag = rest;
        assert(addrs@ =~= old(self)@.collected());
        assert(self@.bag =~= old(self)@.collect().bag);
        addrs
    }
}

} // verus!
