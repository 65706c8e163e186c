use queue_rs::machine::{Op, Progress};
use queue_rs::protocol::{DeqState, EnqState};
use queue_rs::Queue;

fn run_to_end<T>(q: &mut Queue<T>, who: usize) -> Progress<T> {
    loop {
        match q.step(who) {
            Progress::Running => {}
            other => return other,
        }
    }
}

fn step_times<T: std::fmt::Debug + PartialEq>(q: &mut Queue<T>, who: usize, n: usize) {
    for _ in 0..n {
        assert_eq!(q.step(who), Progress::Running);
    }
}

#[test]
fn empty_queue() {
    let mut q: Queue<Option<u8>> = Queue::new();
    assert_eq!(q.deq(), None);
    assert_eq!(q.deq(), None);
}

#[test]
fn queue_op() {
    let mut q = Queue::new();
    q.enq(1);
    q.enq(2);
    assert_eq!(q.deq(), Some(1));
    assert_eq!(q.deq(), Some(2));
    assert_eq!(q.deq(), None);
}

#[test]
fn correct_verify() {
    let n_threads = 2;
    let count: u64 = 10000;

    let mut enq_sum: u64 = 0;
    let mut deq_sum: u64 = 0;
    let mut enq_count: u64 = 0;
    let mut deq_count: u64 = 0;

    let mut queue: Queue<u64> = Queue::new();
    let mut producers = Vec::new();
    let mut consumers = Vec::new();
    let mut next_value = Vec::new();
    for _ in 0..n_threads {
        producers.push(queue.join());
        consumers.push(queue.join());
        next_value.push(0u64);
    }
    let total_count = count * n_threads as u64;

    let mut round: u64 = 0;
    while deq_count < total_count {
        for k in 0..n_threads {
            let p = producers[k];
            if queue.can_begin(p) && next_value[k] < count {
                assert!(queue.begin_enq(p, next_value[k]).is_ok());
            }
            match queue.step(p) {
                Progress::Enqueued => {
                    enq_sum += next_value[k];
                    enq_count += 1;
                    next_value[k] += 1;
                }
                Progress::Fault => panic!("an enqueue touched a reclaimed node"),
                _ => {}
            }
            let c = consumers[k];
            if queue.can_begin(c) {
                assert!(queue.begin_deq(c));
            }
            // The second consumer runs at twice the pace of the first.
            for _ in 0..(k + 1) {
                match queue.step(c) {
                    Progress::Dequeued(Some(v)) => {
                        deq_sum += v;
                        deq_count += 1;
                    }
                    Progress::Fault => panic!("a dequeue touched a reclaimed node"),
                    _ => {}
                }
            }
        }
        round += 1;
        if round % 64 == 0 {
            queue.advance();
            queue.collect();
        }
    }

    assert_eq!(enq_count, deq_count);
    assert_eq!(enq_sum, deq_sum);
    assert_eq!(deq_count, 20000);
}

#[test]
fn fifo_across_many_values() {
    let mut q: Queue<u32> = Queue::new();
    for i in 0..100 {
        q.enq(i);
    }
    for i in 0..100 {
        assert_eq!(q.deq(), Some(i));
    }
    assert_eq!(q.deq(), None);
    q.enq(7);
    assert_eq!(q.deq(), Some(7));
    assert_eq!(q.deq(), None);
}

#[test]
fn deq_on_empty_changes_nothing() {
    let mut q: Queue<u8> = Queue::new();
    q.enq(5);
    assert_eq!(q.deq(), Some(5));
    let (head, tail, epoch, retired, participants) =
        (q.head(), q.tail(), q.epoch(), q.retired(), q.participants());
    for _ in 0..3 {
        assert_eq!(q.deq(), None);
        assert_eq!(
            (q.head(), q.tail(), q.epoch(), q.retired(), q.participants()),
            (head, tail, epoch, retired, participants)
        );
    }
}

#[test]
fn one_element_queue_keeps_the_node_as_sentinel() {
    let mut q: Queue<u8> = Queue::new();
    assert_eq!((q.head(), q.tail()), (0, 0));
    q.enq(9);
    assert_eq!((q.head(), q.tail()), (0, 1));
    assert_eq!(q.deq(), Some(9));
    // The node that held 9 is the sentinel now; the old sentinel is retired.
    assert_eq!((q.head(), q.tail()), (1, 1));
    assert_eq!(q.retired(), 1);
    assert!(q.is_live(0));
    assert!(q.is_live(1));
}

#[test]
fn enqueue_takes_effect_at_the_link() {
    let mut q: Queue<u8> = Queue::new();
    let a = q.join();
    let b = q.join();
    assert!(q.begin_enq(a, 1).is_ok());
    assert!(q.begin_deq(b));
    // a: pin, alloc, load tail, load next. The node is not linked yet.
    step_times(&mut q, a, 4);
    assert_eq!(q.op(a), Op::Enq(EnqState::Link { node: 1, tail: 0 }));
    assert_eq!(run_to_end(&mut q, b), Progress::Dequeued(None));
    // a links: from here on a dequeue finds the value, though the enqueue
    // has not returned and the tail pointer has not moved.
    assert_eq!(q.step(a), Progress::Running);
    assert_eq!(q.op(a), Op::Enq(EnqState::Swing { node: 1, tail: 0 }));
    assert_eq!(q.tail(), 0);
    assert!(q.begin_deq(b));
    assert_eq!(run_to_end(&mut q, b), Progress::Dequeued(Some(1)));
    assert_eq!(run_to_end(&mut q, a), Progress::Enqueued);
}

#[test]
fn lagging_tail_is_helped_on() {
    let mut q: Queue<u8> = Queue::new();
    let a = q.join();
    assert!(q.begin_enq(a, 1).is_ok());
    step_times(&mut q, a, 5);
    assert_eq!(q.op(a), Op::Enq(EnqState::Swing { node: 1, tail: 0 }));
    assert_eq!(q.tail(), 0);
    // Another enqueue runs to its end while `a` is stalled: it moves the
    // tail pointer on for `a` and links behind it.
    q.enq(2);
    assert_eq!(q.tail(), 2);
    // The late swing of `a` fails and does no harm.
    assert_eq!(q.step(a), Progress::Running);
    assert_eq!(q.tail(), 2);
    assert_eq!(run_to_end(&mut q, a), Progress::Enqueued);
    assert_eq!(q.deq(), Some(1));
    assert_eq!(q.deq(), Some(2));
    assert_eq!(q.deq(), None);
}

#[test]
fn helping_state_is_reached_step_by_step() {
    let mut q: Queue<u8> = Queue::new();
    let a = q.join();
    let b = q.join();
    assert!(q.begin_enq(a, 1).is_ok());
    assert!(q.begin_enq(b, 2).is_ok());
    step_times(&mut q, a, 5);
    step_times(&mut q, b, 4);
    assert_eq!(q.op(b), Op::Enq(EnqState::Help { node: 2, tail: 0, next: 1 }));
    assert_eq!(q.step(b), Progress::Running);
    assert_eq!(q.tail(), 1);
    assert_eq!(q.op(b), Op::Enq(EnqState::LoadTail { node: 2 }));
    assert_eq!(run_to_end(&mut q, b), Progress::Enqueued);
    assert_eq!(run_to_end(&mut q, a), Progress::Enqueued);
    assert_eq!(q.deq(), Some(1));
    assert_eq!(q.deq(), Some(2));
}

#[test]
fn losing_link_retries() {
    let mut q: Queue<u8> = Queue::new();
    let a = q.join();
    let b = q.join();
    assert!(q.begin_enq(a, 1).is_ok());
    assert!(q.begin_enq(b, 2).is_ok());
    step_times(&mut q, a, 4);
    step_times(&mut q, b, 4);
    assert_eq!(q.op(a), Op::Enq(EnqState::Link { node: 1, tail: 0 }));
    assert_eq!(q.op(b), Op::Enq(EnqState::Link { node: 2, tail: 0 }));
    assert_eq!(q.step(b), Progress::Running);
    assert_eq!(q.op(b), Op::Enq(EnqState::Swing { node: 2, tail: 0 }));
    assert_eq!(q.step(a), Progress::Running);
    assert_eq!(q.op(a), Op::Enq(EnqState::LoadTail { node: 1 }));
    assert_eq!(run_to_end(&mut q, a), Progress::Enqueued);
    assert_eq!(run_to_end(&mut q, b), Progress::Enqueued);
    assert_eq!(q.deq(), Some(2));
    assert_eq!(q.deq(), Some(1));
    assert_eq!(q.deq(), None);
}

#[test]
fn two_dequeues_race_for_one_value() {
    let mut q: Queue<u8> = Queue::new();
    q.enq(4);
    let a = q.join();
    let b = q.join();
    assert!(q.begin_deq(a));
    assert!(q.begin_deq(b));
    step_times(&mut q, a, 3);
    step_times(&mut q, b, 3);
    assert_eq!(q.op(a), Op::Deq(DeqState::Swing { head: 0, next: 1 }));
    assert_eq!(q.op(b), Op::Deq(DeqState::Swing { head: 0, next: 1 }));
    assert_eq!(q.step(b), Progress::Running);
    assert_eq!(q.op(b), Op::Deq(DeqState::Take { head: 0, next: 1 }));
    assert_eq!(q.step(a), Progress::Running);
    assert_eq!(q.op(a), Op::Deq(DeqState::LoadHead));
    assert_eq!(run_to_end(&mut q, a), Progress::Dequeued(None));
    assert_eq!(run_to_end(&mut q, b), Progress::Dequeued(Some(4)));
}

#[test]
fn begin_is_refused_for_strangers_and_busy_participants() {
    let mut q: Queue<u8> = Queue::new();
    assert_eq!(q.begin_enq(0, 1), Err(1));
    assert!(!q.begin_deq(0));
    assert_eq!(q.step(0), Progress::Idle);
    let a = q.join();
    assert_eq!(a, 0);
    assert_eq!(q.participants(), 1);
    assert_eq!(q.step(a), Progress::Idle);
    assert!(q.begin_deq(a));
    assert!(!q.can_begin(a));
    assert_eq!(q.begin_enq(a, 2), Err(2));
    assert!(!q.begin_deq(a));
    assert_eq!(run_to_end(&mut q, a), Progress::Dequeued(None));
    assert_eq!(q.begin_enq(a, 3), Ok(()));
    assert_eq!(run_to_end(&mut q, a), Progress::Enqueued);
    assert_eq!(q.deq(), Some(3));
}

#[test]
fn retired_nodes_are_released_two_epochs_later() {
    let mut q: Queue<u8> = Queue::new();
    q.enq(1);
    q.enq(2);
    assert_eq!(q.deq(), Some(1));
    assert_eq!(q.retired(), 1);
    assert_eq!(q.epoch(), 0);
    assert_eq!(q.collect(), 0);
    assert!(q.advance());
    assert_eq!(q.collect(), 0);
    assert!(q.is_live(0));
    assert!(q.advance());
    assert_eq!(q.epoch(), 2);
    assert_eq!(q.collect(), 1);
    assert!(!q.is_live(0));
    assert_eq!(q.retired(), 0);
    assert_eq!(q.collect(), 0);
    assert_eq!(q.deq(), Some(2));
    assert_eq!(q.deq(), None);
}

#[test]
fn a_pinned_participant_holds_the_epoch() {
    let mut q: Queue<u8> = Queue::new();
    q.enq(1);
    let a = q.join();
    assert!(q.begin_deq(a));
    step_times(&mut q, a, 3);
    assert_eq!(q.op(a), Op::Deq(DeqState::Swing { head: 0, next: 1 }));
    // `a` is pinned at epoch 0 and holds address 0. Another dequeue unlinks
    // and retires that node.
    assert_eq!(q.deq(), Some(1));
    assert!(q.advance());
    assert!(!q.advance());
    assert_eq!(q.collect(), 0);
    assert!(q.is_live(0));
    // Its swing fails; it reads the head again and finds the queue empty.
    assert_eq!(run_to_end(&mut q, a), Progress::Dequeued(None));
    assert!(q.advance());
    assert_eq!(q.collect(), 1);
    assert!(!q.is_live(0));
}

#[test]
fn head_passing_the_tail_lets_an_enqueue_touch_reclaimed_memory() {
    let mut q: Queue<u8> = Queue::new();
    let a = q.join();
    let c = q.join();
    // `a` links its node behind the sentinel and stalls before it moves the
    // tail pointer.
    assert!(q.begin_enq(a, 1).is_ok());
    step_times(&mut q, a, 5);
    assert_eq!(q.op(a), Op::Enq(EnqState::Swing { node: 1, tail: 0 }));
    // A dequeue moves the head pointer past the node on which the tail
    // pointer still stands, and retires that node.
    assert_eq!(q.deq(), Some(1));
    assert_eq!((q.head(), q.tail()), (1, 0));
    assert!(q.advance());
    // `c` pins at epoch 1 and reads the stale tail pointer.
    assert!(q.begin_enq(c, 2).is_ok());
    step_times(&mut q, c, 3);
    assert_eq!(q.op(c), Op::Enq(EnqState::LoadNext { node: 2, tail: 0 }));
    // `a` finishes; only `c` is pinned, at the current epoch.
    assert_eq!(run_to_end(&mut q, a), Progress::Enqueued);
    assert!(q.advance());
    assert_eq!(q.collect(), 1);
    assert!(!q.is_live(0));
    assert_eq!(q.step(c), Progress::Fault);
    assert_eq!(q.step(c), Progress::Fault);
}

#[test]
fn dequeue_keeps_its_payload_while_others_move_on() {
    let mut q: Queue<u8> = Queue::new();
    q.enq(1);
    q.enq(2);
    q.enq(3);
    let a = q.join();
    assert!(q.begin_deq(a));
    step_times(&mut q, a, 4);
    assert_eq!(q.op(a), Op::Deq(DeqState::Take { head: 0, next: 1 }));
    assert_eq!(q.deq(), Some(2));
    assert_eq!(q.deq(), Some(3));
    assert!(q.advance());
    assert!(!q.advance());
    assert_eq!(q.collect(), 0);
    assert_eq!(run_to_end(&mut q, a), Progress::Dequeued(Some(1)));
    assert_eq!(q.retired(), 3);
}
