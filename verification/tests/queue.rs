use data_structures::queue::Queue;

#[test]
fn test_enqueue_dequeue() {
    let mut queue = Queue::new();

    queue.enqueue(1);
    queue.enqueue(2);
    queue.enqueue(3);

    assert_eq!(queue.dequeue(), Some(1));
    assert_eq!(queue.dequeue(), Some(2));
    assert_eq!(queue.dequeue(), Some(3));
    assert_eq!(queue.dequeue(), None);
}

#[test]
fn test_peek() {
    let mut queue = Queue::new();

    queue.enqueue(1);
    queue.enqueue(2);

    assert_eq!(queue.peek(), Some(&1));
    assert_eq!(queue.dequeue(), Some(1));
    assert_eq!(queue.peek(), Some(&2));
}

#[test]
fn test_len() {
    let mut queue = Queue::new();

    assert_eq!(queue.len(), 0);

    queue.enqueue(1);
    assert_eq!(queue.len(), 1);

    queue.enqueue(2);
    assert_eq!(queue.len(), 2);

    queue.dequeue();
    assert_eq!(queue.len(), 1);

    queue.dequeue();
    assert_eq!(queue.len(), 0);
}

#[test]
fn new_queue_is_empty() {
    let mut queue: Queue<i32> = Queue::new();
    assert_eq!(queue.len(), 0);
    assert_eq!(queue.peek(), None);
    assert_eq!(queue.dequeue(), None);
}

#[test]
fn three_in_three_out_then_nothing() {
    let mut queue = Queue::new();
    assert_eq!(queue.len(), 0);
    queue.enqueue(1);
    queue.enqueue(2);
    queue.enqueue(3);
    assert_eq!(queue.len(), 3);
    assert_eq!(queue.dequeue(), Some(1));
    assert_eq!(queue.dequeue(), Some(2));
    assert_eq!(queue.dequeue(), Some(3));
    assert_eq!(queue.dequeue(), None);
}

#[test]
fn peek_follows_the_front() {
    let mut queue = Queue::new();
    queue.enqueue(1);
    queue.enqueue(2);
    assert_eq!(queue.peek(), Some(&1));
    assert_eq!(queue.dequeue(), Some(1));
    assert_eq!(queue.peek(), Some(&2));
}

#[test]
fn tail_is_reset_when_the_queue_runs_empty() {
    let mut queue = Queue::new();
    queue.enqueue(1);
    assert_eq!(queue.dequeue(), Some(1));
    queue.enqueue(2);
    assert_eq!(queue.len(), 1);
    assert_eq!(queue.peek(), Some(&2));
    assert_eq!(queue.dequeue(), Some(2));
    assert_eq!(queue.dequeue(), None);
    assert_eq!(queue.len(), 0);
}

#[test]
fn elements_leave_in_the_order_they_came() {
    let mut queue = Queue::new();
    let elems: Vec<u32> = (0..1000).map(|i| i * 7919 % 1009).collect();
    for elem in &elems {
        queue.enqueue(*elem);
    }
    assert_eq!(queue.len(), 1000);
    for elem in &elems {
        assert_eq!(queue.dequeue(), Some(*elem));
    }
    assert_eq!(queue.dequeue(), None);
    assert_eq!(queue.dequeue(), None);
}

#[test]
fn length_counts_enqueues_less_successful_dequeues() {
    let mut queue = Queue::new();
    let mut enqueues: usize = 0;
    let mut dequeues: usize = 0;
    for round in 0..200u32 {
        if round % 3 == 2 || round % 7 == 0 {
            if queue.dequeue().is_some() {
                dequeues += 1;
            }
        } else {
            queue.enqueue(round);
            enqueues += 1;
        }
        let _ = queue.peek();
        assert_eq!(queue.len(), enqueues - dequeues);
    }
    assert_eq!(enqueues, 114);
    assert_eq!(dequeues, 85);
    assert_eq!(queue.len(), 29);
}

#[test]
fn interleaved_calls_keep_the_order() {
    let mut queue = Queue::new();
    let mut next_in: u32 = 0;
    let mut next_out: u32 = 0;
    for round in 0..500u32 {
        for _ in 0..(round % 4) {
            queue.enqueue(next_in);
            next_in += 1;
        }
        for _ in 0..(round % 3) {
            let expected = if next_out < next_in { Some(next_out) } else { None };
            assert_eq!(queue.peek().copied(), expected);
            assert_eq!(queue.dequeue(), expected);
            if expected.is_some() {
                next_out += 1;
            }
        }
        assert_eq!(queue.len(), (next_in - next_out) as usize);
    }
    while next_out < next_in {
        assert_eq!(queue.dequeue(), Some(next_out));
        next_out += 1;
    }
    assert_eq!(queue.dequeue(), None);
}

#[test]
fn empty_queue_answers_nothing_again_and_again() {
    let mut fresh: Queue<String> = Queue::new();
    for _ in 0..5 {
        assert_eq!(fresh.dequeue(), None);
        assert_eq!(fresh.peek(), None);
        assert_eq!(fresh.len(), 0);
    }

    let mut drained = Queue::new();
    drained.enqueue(String::from("a"));
    drained.enqueue(String::from("b"));
    assert_eq!(drained.dequeue(), Some(String::from("a")));
    assert_eq!(drained.dequeue(), Some(String::from("b")));
    for _ in 0..5 {
        assert_eq!(drained.dequeue(), None);
        assert_eq!(drained.peek(), None);
        assert_eq!(drained.len(), 0);
    }
}

#[test]
fn peek_leaves_the_queue_alone() {
    let mut queue = Queue::new();
    queue.enqueue(10);
    queue.enqueue(20);
    for _ in 0..50 {
        assert_eq!(queue.peek(), Some(&10));
        assert_eq!(queue.len(), 2);
    }
    assert_eq!(queue.dequeue(), Some(10));
    for _ in 0..50 {
        assert_eq!(queue.peek(), Some(&20));
        assert_eq!(queue.len(), 1);
    }
    assert_eq!(queue.dequeue(), Some(20));
}

#[test]
fn long_queue_goes_out_of_scope() {
    let mut queue = Queue::new();
    for i in 0..100_000u32 {
        queue.enqueue(i);
    }
    assert_eq!(queue.len(), 100_000);
    assert_eq!(queue.peek(), Some(&0));
}

#[test]
fn long_queue_of_owned_values_goes_out_of_scope() {
    let mut queue = Queue::new();
    for i in 0..100_000u32 {
        queue.enqueue(vec![i; 2]);
    }
    assert_eq!(queue.dequeue(), Some(vec![0, 0]));
    assert_eq!(queue.len(), 99_999);
}

#[test]
fn clear_drains_the_queue() {
    let mut queue = Queue::new();
    for i in 0..100_000u32 {
        queue.enqueue(i);
    }
    queue.clear();
    assert_eq!(queue.len(), 0);
    assert_eq!(queue.peek(), None);
    assert_eq!(queue.dequeue(), None);
    queue.enqueue(7);
    assert_eq!(queue.len(), 1);
    assert_eq!(queue.dequeue(), Some(7));
}

#[test]
fn clear_on_an_empty_queue_changes_nothing() {
    let mut queue: Queue<u8> = Queue::new();
    queue.clear();
    assert_eq!(queue.len(), 0);
    assert_eq!(queue.dequeue(), None);
}

#[test]
fn queue_holds_values_that_are_not_copied() {
    let mut queue = Queue::new();
    queue.enqueue(String::from("first"));
    queue.enqueue(String::from("second"));
    assert_eq!(queue.peek().map(|s| s.as_str()), Some("first"));
    assert_eq!(queue.dequeue().as_deref(), Some("first"));
    assert_eq!(queue.dequeue().as_deref(), Some("second"));
    assert_eq!(queue.dequeue(), None);
}
