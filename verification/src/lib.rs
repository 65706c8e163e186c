//! A multi-producer multi-consumer FIFO queue after Michael and Scott, with
//! epoch-based reclamation of dequeued nodes.
//!
//! The queue is given as a machine of atomic steps. Each participant runs one
//! operation at a time; every load, compare-and-swap, pin and retirement is
//! one step, and any schedule of steps is an interleaving of the
//! participants.
//!
//! - [`protocol`] holds the decisions of one operation, free of memory.
//! - [`heap`] and [`epoch`] hold the shared nodes and the reclaimer.
//! - [`machine`] puts them together as a transition function.
//! - [`queue`] is the executable queue, whose view is a state of the machine.
//! - [`wellformed`] states the invariant; [`enq_steps`], [`deq_steps`] and
//!   [`reclaim_steps`] prove that every transition keeps it.
//! - [`laws`], [`schedule`] and [`conserve`] state what follows for every
//!   step and for every schedule: order, conservation, and when no step
//!   touches reclaimed memory.
//! - [`solo`] shows that an operation that runs alone ends, and that only a
//!   compare-and-swap of another operation that succeeds sets it back.
//!
//! The queue of [`queue`] keeps its nodes in a heap of its own and is driven
//! by one owner, step by step or one whole operation at a time. The automata
//! of [`protocol`] do not depend on that heap: a driver that shares the queue
//! between threads performs each request as one atomic access, with the fence
//! that the request names, and hands the answer back.

pub mod conserve;
pub mod deq_steps;
pub mod enq_steps;
pub mod epoch;
pub mod heap;
pub mod laws;
pub mod machine;
pub mod protocol;
pub mod queue;
pub mod reclaim_steps;
pub mod schedule;
pub mod solo;
pub mod wellformed;

pub use crate::queue::Queue;
