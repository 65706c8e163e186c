//! The decisions of one enqueue and of one dequeue.
//!
//! An operation is a small automaton. Its state names the one request that is
//! pending; the answer to that request selects the next state. Nothing here
//! touches memory: whoever drives the automaton performs each request
//! atomically and hands the answer back.

use vstd::prelude::*;

verus! {

/// A request that an operation makes of the shared memory or of the reclaimer.
#[derive(Clone, Copy, PartialEq, Eq, Debug)]
pub enum Action {
    /// Pin the participant into the current epoch.
    Pin,
    /// Allocate a node that holds the value to enqueue.
    Alloc,
    /// Read the head pointer.
    LoadHead,
    /// Read the tail pointer.
    LoadTail,
    /// Read the `next` link of `node`.
    LoadNext { node: usize },
    /// Replace the `next` link of `after` by `node` if it is still null.
    Link { after: usize, node: usize },
    /// Replace the tail pointer by `to` if it is still `from`.
    SwingTail { from: usize, to: usize },
    /// Replace the head pointer by `to` if it is still `from`.
    SwingHead { from: usize, to: usize },
    /// Move the payload out of `node`.
    Take { node: usize },
    /// Hand `node` to the reclaimer for deferred destruction.
    Retire { node: usize },
    /// Release the pin.
    Unpin,
    /// Nothing is pending: the operation has returned.
    Finish,
}

/// The memory fence that a request needs when it is performed on real
/// shared memory.
#[derive(Clone, Copy, PartialEq, Eq, Debug)]
pub enum Fence {
    /// No fence: the request touches nothing that another thread reads
    /// through a pointer.
    Relaxed,
    /// The request reads a pointer that is then followed: what was written
    /// before the pointer was published must be visible.
    Acquire,
    /// The request publishes a pointer: what was written before must be
    /// visible to whoever reads it.
    Release,
}

impl Action {
    /// The fence that the request needs. A load acquires: the node behind the
    /// pointer is read next. A compare-and-swap that succeeds releases: it
    /// publishes a node whose payload was written before.
    pub open spec fn needs(self) -> Fence {
        match self {
            Action::LoadHead => Fence::Acquire,
            Action::LoadTail => Fence::Acquire,
            Action::LoadNext { .. } => Fence::Acquire,
            Action::Link { .. } => Fence::Release,
            Action::SwingTail { .. } => Fence::Release,
            Action::SwingHead { .. } => Fence::Release,
            _ => Fence::Relaxed,
        }
    }

    /// The fence that the request needs.
    pub fn fence(&self) -> (f: Fence)
        ensures
            f == self.needs(),
    {
        match *self {
            Action::LoadHead => Fence::Acquire,
            Action::LoadTail => Fence::Acquire,
            Action::LoadNext { .. } => Fence::Acquire,
            Action::Link { .. } => Fence::Release,
            Action::SwingTail { .. } => Fence::Release,
            Action::SwingHead { .. } => Fence::Release,
            _ => Fence::Relaxed,
        }
    }
}

/// The answer to a request.
#[derive(Clone, Copy, PartialEq, Eq, Debug)]
pub enum Event {
    /// `Pin` was performed.
    Pinned,
    /// `Alloc` produced the node at this address.
    Allocated(usize),
    /// A load read this pointer; `None` is the null pointer.
    Loaded(Option<usize>),
    /// A compare-and-swap ended; `true` if it replaced the value.
    Swapped(bool),
    /// `Take` was performed.
    Taken,
    /// `Retire` was performed.
    Retired,
    /// `Unpin` was performed.
    Unpinned,
}

/// Where an enqueue stands. Each state but `Done` has one pending request.
#[derive(Clone, Copy, PartialEq, Eq, Debug)]
pub enum EnqState {
    Pin,
    Alloc,
    /// The node is allocated; the tail is to be read.
    LoadTail { node: usize },
    /// `tail` was read from the tail pointer; its link is to be read.
    LoadNext { node: usize, tail: usize },
    /// The link of `tail` was null: the node is to be attached behind it.
    Link { node: usize, tail: usize },
    /// The link of `tail` was `next`: the tail pointer lags and is helped on.
    Help { node: usize, tail: usize, next: usize },
    /// The node is attached; the tail pointer is to be moved onto it.
    Swing { node: usize, tail: usize },
    Unpin,
    Done,
}

/// Where a dequeue stands. Each state but `Done` has one pending request.
#[derive(Clone, Copy, PartialEq, Eq, Debug)]
pub enum DeqState {
    Pin,
    LoadHead,
    /// `head` was read from the head pointer; its link is to be read.
    LoadNext { head: usize },
    /// The link of `head` was `next`: the head pointer is to be moved onto it.
    Swing { head: usize, next: usize },
    /// The head pointer was moved: the payload of `next` belongs to this dequeue.
    Take { head: usize, next: usize },
    /// The payload is taken; the old sentinel `head` is to be retired.
    Retire { head: usize },
    /// `found` tells whether a payload was taken.
    Unpin { found: bool },
    Done { found: bool },
}

impl EnqState {
    /// The request that is pending in this state.
    pub open spec fn pending(self) -> Action {
        match self {
            EnqState::Pin => Action::Pin,
            EnqState::Alloc => Action::Alloc,
            EnqState::LoadTail { .. } => Action::LoadTail,
            EnqState::LoadNext { tail, .. } => Action::LoadNext { node: tail },
            EnqState::Link { node, tail } => Action::Link { after: tail, node },
            EnqState::Help { tail, next, .. } => Action::SwingTail { from: tail, to: next },
            EnqState::Swing { node, tail } => Action::SwingTail { from: tail, to: node },
            EnqState::Unpin => Action::Unpin,
            EnqState::Done => Action::Finish,
        }
    }

    /// The state that follows when `ev` answers the pending request. An event
    /// that does not answer it leaves the state as it is.
    pub open spec fn after(self, ev: Event) -> EnqState {
        match (self, ev) {
            (EnqState::Pin, Event::Pinned) => EnqState::Alloc,
            (EnqState::Alloc, Event::Allocated(node)) => EnqState::LoadTail { node },
            (EnqState::LoadTail { node }, Event::Loaded(Some(tail))) => EnqState::LoadNext {
                node,
                tail,
            },
            (EnqState::LoadNext { node, tail }, Event::Loaded(None)) => EnqState::Link {
                node,
                tail,
            },
            (EnqState::LoadNext { node, tail }, Event::Loaded(Some(next))) => EnqState::Help {
                node,
                tail,
                next,
            },
            (EnqState::Link { node, tail }, Event::Swapped(true)) => EnqState::Swing {
                node,
                tail,
            },
            (EnqState::Link { node, .. }, Event::Swapped(false)) => EnqState::LoadTail { node },
            (EnqState::Help { node, .. }, Event::Swapped(_)) => EnqState::LoadTail { node },
            (EnqState::Swing { .. }, Event::Swapped(_)) => EnqState::Unpin,
            (EnqState::Unpin, Event::Unpinned) => EnqState::Done,
            _ => self,
        }
    }

    /// The state in which every enqueue begins.
    pub fn start() -> (s: EnqState)
        ensures
            s == EnqState::Pin,
    {
        EnqState::Pin
    }

    /// The pending request.
    pub fn action(&self) -> (a: Action)
        ensures
            a == self.pending(),
    {
        match *self {
            EnqState::Pin => Action::Pin,
            EnqState::Alloc => Action::Alloc,
            EnqState::LoadTail { .. } => Action::LoadTail,
            EnqState::LoadNext { tail, .. } => Action::LoadNext { node: tail },
            EnqState::Link { node, tail } => Action::Link { after: tail, node },
            EnqState::Help { tail, next, .. } => Action::SwingTail { from: tail, to: next },
            EnqState::Swing { node, tail } => Action::SwingTail { from: tail, to: node },
            EnqState::Unpin => Action::Unpin,
            EnqState::Done => Action::Finish,
        }
    }

    /// Moves on by the answer `ev`.
    pub fn next(self, ev: Event) -> (s: EnqState)
        ensures
            s == self.after(ev),
    {
        match self {
            EnqState::Pin => match ev {
                Event::Pinned => EnqState::Alloc,
                _ => self,
            },
            EnqState::Alloc => match ev {
                Event::Allocated(node) => EnqState::LoadTail { node },
                _ => self,
            },
            EnqState::LoadTail { node } => match ev {
                Event::Loaded(Some(tail)) => EnqState::LoadNext { node, tail },
                _ => self,
            },
            EnqState::LoadNext { node, tail } => match ev {
                Event::Loaded(None) => EnqState::Link { node, tail },
                Event::Loaded(Some(next)) => EnqState::Help { node, tail, next },
                _ => self,
            },
            EnqState::Link { node, tail } => match ev {
                Event::Swapped(true) => EnqState::Swing { node, tail },
                Event::Swapped(false) => EnqState::LoadTail { node },
                _ => self,
            },
            EnqState::Help { node, .. } => match ev {
                Event::Swapped(_) => EnqState::LoadTail { node },
                _ => self,
            },
            EnqState::Swing { .. } => match ev {
                Event::Swapped(_) => EnqState::Unpin,
                _ => self,
            },
            EnqState::Unpin => match ev {
                Event::Unpinned => EnqState::Done,
                _ => self,
            },
            EnqState::Done => self,
        }
    }
}

impl DeqState {
    /// The request that is pending in this state.
    pub open spec fn pending(self) -> Action {
        match self {
            DeqState::Pin => Action::Pin,
            DeqState::LoadHead => Action::LoadHead,
            DeqState::LoadNext { head } => Action::LoadNext { node: head },
            DeqState::Swing { head, next } => Action::SwingHead { from: head, to: next },
            DeqState::Take { next, .. } => Action::Take { node: next },
            DeqState::Retire { head } => Action::Retire { node: head },
            DeqState::Unpin { .. } => Action::Unpin,
            DeqState::Done { .. } => Action::Finish,
        }
    }

    /// The state that follows when `ev` answers the pending request. An event
    /// that does not answer it leaves the state as it is.
    pub open spec fn after(self, ev: Event) -> DeqState {
        match (self, ev) {
            (DeqState::Pin, Event::Pinned) => DeqState::LoadHead,
            (DeqState::LoadHead, Event::Loaded(Some(head))) => DeqState::LoadNext { head },
            (DeqState::LoadNext { .. }, Event::Loaded(None)) => DeqState::Unpin { found: false },
            (DeqState::LoadNext { head }, Event::Loaded(Some(next))) => DeqState::Swing {
                head,
                next,
            },
            (DeqState::Swing { head, next }, Event::Swapped(true)) => DeqState::Take {
                head,
                next,
            },
            (DeqState::Swing { .. }, Event::Swapped(false)) => DeqState::LoadHead,
            (DeqState::Take { head, .. }, Event::Taken) => DeqState::Retire { head },
            (DeqState::Retire { .. }, Event::Retired) => DeqState::Unpin { found: true },
            (DeqState::Unpin { found }, Event::Unpinned) => DeqState::Done { found },
            _ => self,
        }
    }

    /// The state in which every dequeue begins.
    pub fn start() -> (s: DeqState)
        ensures
            s == DeqState::Pin,
    {
        DeqState::Pin
    }

    /// The pending request.
    pub fn action(&self) -> (a: Action)
        ensures
            a == self.pending(),
    {
        match *self {
            DeqState::Pin => Action::Pin,
            DeqState::LoadHead => Action::LoadHead,
            DeqState::LoadNext { head } => Action::LoadNext { node: head },
            DeqState::Swing { head, next } => Action::SwingHead { from: head, to: next },
            DeqState::Take { next, .. } => Action::Take { node: next },
            DeqState::Retire { head } => Action::Retire { node: head },
            DeqState::Unpin { .. } => Action::Unpin,
            DeqState::Done { .. } => Action::Finish,
        }
    }

    /// Moves on by the answer `ev`.
    pub fn next(self, ev: Event) -> (s: DeqState)
        ensures
            s == self.after(ev),
    {
        match self {
            DeqState::Pin => match ev {
                Event::Pinned => DeqState::LoadHead,
                _ => self,
            },
            DeqState::LoadHead => match ev {
                Event::Loaded(Some(head)) => DeqState::LoadNext { head },
                _ => self,
            },
            DeqState::LoadNext { head } => match ev {
                Event::Loaded(None) => DeqState::Unpin { found: false },
                Event::Loaded(Some(next)) => DeqState::Swing { head, next },
                _ => self,
            },
            DeqState::Swing { head, next } => match ev {
                Event::Swapped(true) => DeqState::Take { head, next },
                Event::Swapped(false) => DeqState::LoadHead,
                _ => self,
            },
            DeqState::Take { head, .. } => match ev {
                Event::Taken => DeqState::Retire { head },
                _ => self,
            },
            DeqState::Retire { .. } => match ev {
                Event::Retired => DeqState::Unpin { found: true },
                _ => self,
            },
            DeqState::Unpin { found } => match ev {
                Event::Unpinned => DeqState::Done { found },
                _ => self,
            },
            DeqState::Done { .. } => self,
        }
    }
}

} // verus!
