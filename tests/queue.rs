use mpmc_queue::{Queue, QueueError};

#[test]
fn invalid_capacities_are_refused() {
    for bound in [0usize, 1, 3, 5, 6, 12, 1000] {
        let r: Result<Queue<u64>, QueueError> = Queue::new(bound);
        assert!(matches!(r, Err(QueueError::InvalidCapacity)), "capacity {}", bound);
    }
}

#[test]
fn power_of_two_capacities_are_accepted() {
    for bound in [2usize, 4, 1024] {
        let r: Result<Queue<u64>, QueueError> = Queue::new(bound);
        assert!(r.is_ok(), "capacity {}", bound);
    }
}

#[test]
fn fresh_queue_is_empty() {
    let mut q: Queue<u64> = Queue::new(2).unwrap();
    assert_eq!(q.try_dequeue(), None);
    let mut q: Queue<u64> = Queue::new(1024).unwrap();
    assert_eq!(q.try_dequeue(), None);
}

#[test]
fn full_queue_rejects_with_value_intact() {
    let mut q: Queue<String> = Queue::new(2).unwrap();
    q.enqueue("a".to_string());
    q.enqueue("b".to_string());
    assert_eq!(q.try_enqueue("c".to_string()), Some("c".to_string()));
    assert_eq!(q.dequeue(), "a");
    assert_eq!(q.dequeue(), "b");
    assert_eq!(q.try_dequeue(), None);
}

#[test]
fn full_after_capacity_enqueues() {
    let mut q: Queue<u64> = Queue::new(8).unwrap();
    for i in 0..8u64 {
        assert_eq!(q.try_enqueue(i), None);
    }
    assert_eq!(q.try_enqueue(99), Some(99));
    assert_eq!(q.try_dequeue(), Some(0));
    assert_eq!(q.try_enqueue(99), None);
    assert_eq!(q.try_enqueue(100), Some(100));
}

#[test]
fn round_trip_leaves_queue_empty() {
    let mut q: Queue<u64> = Queue::new(4).unwrap();
    q.enqueue(42);
    assert_eq!(q.dequeue(), 42);
    assert_eq!(q.try_dequeue(), None);
}

#[test]
fn order_is_kept_across_generations() {
    let mut q: Queue<u64> = Queue::new(4).unwrap();
    let mut next_in = 0u64;
    let mut next_out = 0u64;
    for round in 0..50u64 {
        let burst = round % 5;
        for _ in 0..burst {
            if q.try_enqueue(next_in).is_none() {
                next_in += 1;
            }
        }
        for _ in 0..(round % 3) {
            if let Some(v) = q.try_dequeue() {
                assert_eq!(v, next_out);
                next_out += 1;
            }
        }
    }
    while let Some(v) = q.try_dequeue() {
        assert_eq!(v, next_out);
        next_out += 1;
    }
    assert_eq!(next_in, next_out);
    assert!(next_in > 20);
}

#[test]
fn ping_pong_alternation() {
    let mut ping: Queue<u64> = Queue::new(0x1000).unwrap();
    let mut pong: Queue<u64> = Queue::new(0x1000).unwrap();
    for i in 0..10_000u64 {
        ping.enqueue(i);
        let j = ping.dequeue();
        assert_eq!(i, j);
        pong.enqueue(j);
        assert_eq!(pong.dequeue(), i);
    }
    assert_eq!(ping.try_dequeue(), None);
    assert_eq!(pong.try_dequeue(), None);
}

#[test]
fn sum_is_conserved() {
    let mut q: Queue<u64> = Queue::new(16).unwrap();
    let ranges = [0u64..1000, 1000..2500, 2500..3000];
    let mut cursors: Vec<u64> = ranges.iter().map(|r| r.start).collect();
    let mut sent = 0u64;
    let mut received = 0u64;
    let mut count = 0u64;
    let total: u64 = ranges.iter().map(|r| r.end - r.start).sum();
    while count < total {
        for (k, r) in ranges.iter().enumerate() {
            for _ in 0..3 {
                if cursors[k] < r.end && q.try_enqueue(cursors[k]).is_none() {
                    sent += cursors[k];
                    cursors[k] += 1;
                }
            }
        }
        for _ in 0..4 {
            if let Some(v) = q.try_dequeue() {
                received += v;
                count += 1;
            }
        }
    }
    assert_eq!(sent, (0..3000u64).sum::<u64>());
    assert_eq!(received, sent);
    assert_eq!(q.try_dequeue(), None);
}

#[test]
fn no_value_lost_or_duplicated() {
    let mut q: Queue<u64> = Queue::new(4).unwrap();
    let mut out: Vec<u64> = Vec::new();
    for i in 0..100u64 {
        q.enqueue(i * 7 + 1);
        if i % 2 == 1 {
            out.push(q.dequeue());
            out.push(q.dequeue());
        }
    }
    let expected: Vec<u64> = (0..100u64).map(|i| i * 7 + 1).collect();
    assert_eq!(out, expected);
}
