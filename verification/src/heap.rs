//! The shared memory of the queue: nodes at addresses, and the head and tail
//! pointers.
//!
//! An address is an index into the heap. A node that the reclaimer has
//! released leaves its address behind as a reclaimed slot, and no address is
//! handed out twice, so a stale pointer never names a node of a later
//! allocation. Every function here is one atomic access; a function that
//! dereferences a node reports whether the node was still there.

use vstd::prelude::*;

verus! {

/// One slot of the queue: a link to the following node and a payload.
pub struct Node<T> {
    /// The address of the following node; `None` is the null pointer.
    pub next: Option<usize>,
    /// The payload. A sentinel has none, and a dequeue moves it out.
    pub data: Option<T>,
}

impl<T> Node<T> {
    /// A node that holds `v` and has no successor.
    pub fn new(v: T) -> (n: Self)
        ensures
            n == (Node { next: None, data: Some(v) }),
    {
        Node { next: None, data: Some(v) }
    }

    /// A node without payload and without successor.
    pub fn sentinel() -> (n: Self)
        ensures
            n == (Node::<T> { next: None, data: None }),
    {
        Node { next: None, data: None }
    }
}

/// The heap as a mathematical value.
pub struct HeapView<T> {
    /// The slot at each address; `None` is a reclaimed slot.
    pub nodes: Seq<Option<Node<T>>>,
    pub head: usize,
    pub tail: usize,
}

impl<T> HeapView<T> {
    /// The heap of a new queue: one sentinel, which is both head and tail.
    pub open spec fn init() -> Self {
        HeapView { nodes: seq![Some(Node::<T> { next: None, data: None })], head: 0, tail: 0 }
    }

    /// A node is allocated at `a` and not reclaimed.
    pub open spec fn live(self, a: usize) -> bool {
        a < self.nodes.len() && self.nodes[a as int] is Some
    }

    /// The node at `a`, where `a` is live.
    pub open spec fn node(self, a: usize) -> Node<T>
        recommends
            self.live(a),
    {
        self.nodes[a as int]->0
    }

    /// The heap with the node at `a` replaced.
    pub open spec fn with_node(self, a: usize, node: Node<T>) -> Self {
        HeapView { nodes: self.nodes.update(a as int, Some(node)), ..self }
    }

    /// The heap after `node` was allocated. Its address is the old number of
    /// slots.
    pub open spec fn allocate(self, node: Node<T>) -> Self {
        HeapView { nodes: self.nodes.push(Some(node)), ..self }
    }

    /// What a read of the link of `a` gives: `None` if `a` is not live.
    pub open spec fn next_of(self, a: usize) -> Option<Option<usize>> {
        if self.live(a) {
            Some(self.node(a).next)
        } else {
            None
        }
    }

    /// Whether a link behind `after` succeeds: `None` if `after` is not live,
    /// else whether its link is null.
    pub open spec fn can_link(self, after: usize) -> Option<bool> {
        if self.live(after) {
            Some(self.node(after).next is None)
        } else {
            None
        }
    }

    /// The heap after an attempt to link `node` behind `after`.
    pub open spec fn link(self, after: usize, node: usize) -> Self {
        if self.can_link(after) == Some(true) {
            self.with_node(after, Node { next: Some(node), data: self.node(after).data })
        } else {
            self
        }
    }

    /// The heap after an attempt to move the tail pointer from `from` to `to`.
    pub open spec fn swing_tail(self, from: usize, to: usize) -> Self {
        if self.tail == from {
            HeapView { tail: to, ..self }
        } else {
            self
        }
    }

    /// The heap after an attempt to move the head pointer from `from` to `to`.
    pub open spec fn swing_head(self, from: usize, to: usize) -> Self {
        if self.head == from {
            HeapView { head: to, ..self }
        } else {
            self
        }
    }

    /// What taking the payload of `a` gives: `None` if `a` is not live, else
    /// the payload that the node held.
    pub open spec fn payload(self, a: usize) -> Option<Option<T>> {
        if self.live(a) {
            Some(self.node(a).data)
        } else {
            None
        }
    }

    /// The heap after the payload of `a` was taken.
    pub open spec fn take(self, a: usize) -> Self {
        if self.live(a) {
            self.with_node(a, Node { next: self.node(a).next, data: None })
        } else {
            self
        }
    }

    /// The payloads found by following the links from `a`, the node at `a`
    /// itself left out, for at most `hops` links. The walk ends at a null
    /// link, at a reclaimed node and at a node without payload.
    pub open spec fn walk(self, a: usize, hops: nat) -> Seq<T>
        decreases hops,
    {
        if hops == 0 || !self.live(a) {
            Seq::empty()
        } else {
            match self.node(a).next {
                Some(b) => if self.live(b) && self.node(b).data is Some {
                    seq![self.node(b).data->0] + self.walk(b, (hops - 1) as nat)
                } else {
                    Seq::empty()
                },
                None => Seq::empty(),
            }
        }
    }

    /// The heap after the node at `a` was released.
    pub open spec fn free(self, a: usize) -> Self {
        if self.live(a) {
            HeapView { nodes: self.nodes.update(a as int, None), ..self }
        } else {
            self
        }
    }

    /// The heap after every node of `addrs` was released.
    pub open spec fn free_all(self, addrs: Seq<usize>) -> Self
        decreases addrs.len(),
    {
        if addrs.len() == 0 {
            self
        } else {
            self.free_all(addrs.drop_last()).free(addrs.last())
        }
    }
}

/// The heap: every node ever allocated, by address, with the two pointers of
/// the queue.
pub struct Heap<T> {
    slots: Vec<Option<Node<T>>>,
    head: usize,
    tail: usize,
}

impl<T> View for Heap<T> {
    type V = HeapView<T>;

    closed spec fn view(&self) -> HeapView<T> {
        HeapView { nodes: self.slots@, head: self.head, tail: self.tail }
    }
}

impl<T> Heap<T> {
    /// A heap that holds one sentinel at address 0, head and tail on it.
    pub fn new() -> (h: Self)
        ensures
            h@ == HeapView::<T>::init(),
    {
        let mut slots: Vec<Option<Node<T>>> = Vec::new();
        slots.push(Some(Node::sentinel()));
        let h = Heap { slots, head: 0, tail: 0 };
        assert(h@.nodes =~= HeapView::<T>::init().nodes);
        h
    }

    /// The addresses in use are machine integers.
    pub proof fn lemma_bounded(&self)
        ensures
            self@.nodes.len() <= usize::MAX,
    {
        assert(self.slots.len() == self.slots@.len());
    }

    /// The number of addresses handed out so far.
    pub fn len(&self) -> (n: usize)
        ensures
            n == self@.nodes.len(),
    {
        self.slots.len()
    }

    /// Whether the node at `a` is allocated and not reclaimed.
    pub fn is_live(&self, a: usize) -> (b: bool)
        ensures
            b == self@.live(a),
    {
        a < self.slots.len() && self.slots[a].is_some()
    }

    /// Reads the head pointer.
    pub fn head(&self) -> (a: usize)
        ensures
            a == self@.head,
    {
        self.head
    }

    /// Reads the tail pointer.
    pub fn tail(&self) -> (a: usize)
        ensures
            a == self@.tail,
    {
        self.tail
    }

    /// Allocates `node` and returns its address.
    pub fn allocate(&mut self, node: Node<T>) -> (a: usize)
        ensures
            final(self)@ == old(self)@.allocate(node),
            a == old(self)@.nodes.len(),
    {
        let a: usize = self.slots.len();
        self.slots.push(Some(node));
        a
    }

    /// Reads the link of the node at `a`; `None` if the node is not live.
    pub fn next_of(&self, a: usize) -> (r: Option<Option<usize>>)
        ensures
            r == self@.next_of(a),
    {
        if a >= self.slots.len() {
            return None;
        }
        match &self.slots[a] {
            Some(node) => Some(node.next),
            None => None,
        }
    }

    /// Compare-and-swap on the link of `after`: null becomes `node`. Returns
    /// `None` if `after` is not live, else whether the link was replaced.
    pub fn link(&mut self, after: usize, node: usize) -> (r: Option<bool>)
        ensures
            r == old(self)@.can_link(after),
            final(self)@ == old(self)@.link(after, node),
    {
        if after >= self.slots.len() {
            return None;
        }
        let r = match &mut self.slots[after] {
            Some(n) => {
                if n.next.is_none() {
                    n.next = Some(node);
                    Some(true)
                } else {
                    Some(false)
                }
            },
            None => None,
        };
        assert(self@.nodes =~= old(self)@.link(after, node).nodes);
        r
    }

    /// Compare-and-swap on the tail pointer: `from` becomes `to`. Returns
    /// whether the pointer was replaced.
    pub fn swing_tail(&mut self, from: usize, to: usize) -> (ok: bool)
        ensures
            ok == (old(self)@.tail == from),
            final(self)@ == old(self)@.swing_tail(from, to),
    {
        if self.tail == from {
            self.tail = to;
            true
        } else {
            false
        }
    }

    /// Compare-and-swap on the head pointer: `from` becomes `to`. Returns
    /// whether the pointer was replaced.
    pub fn swing_head(&mut self, from: usize, to: usize) -> (ok: bool)
        ensures
            ok == (old(self)@.head == from),
            final(self)@ == old(self)@.swing_head(from, to),
    {
        if self.head == from {
            self.head = to;
            true
        } else {
            false
        }
    }

    /// Moves the payload out of the node at `a`. Returns `None` if the node
    /// is not live, else the payload that it held.
    pub fn take(&mut self, a: usize) -> (r: Option<Option<T>>)
        ensures
            r == old(self)@.payload(a),
            final(self)@ == old(self)@.take(a),
    {
        if a >= self.slots.len() {
            return None;
        }
        let r = match &mut self.slots[a] {
            Some(n) => Some(n.data.take()),
            None => None,
        };
        assert(self@.nodes =~= old(self)@.take(a).nodes);
        r
    }

    /// Releases the node at `a`. Returns whether a node was there to release.
    pub fn free(&mut self, a: usize) -> (was_live: bool)
        ensures
            was_live == old(self)@.live(a),
            final(self)@ == old(self)@.free(a),
    {
        if a >= self.slots.len() {
            return false;
        }
        let was_live = self.slots[a].is_some();
        if was_live {
            self.slots[a] = None;
        }
        assert(self@.nodes =~= old(self)@.free(a).nodes);
        was_live
    }
}

} // verus!
