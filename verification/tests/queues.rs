//! The multi-producer single-consumer queue.

use elasticq::binary64::Binary64;
use elasticq::lock_free::{pack_head, unpack_head};
use elasticq::ring::RingBuffer;
use elasticq::{BufferError, Config, LockFreeMPSCQueue};
use std::time::{Duration, Instant};

fn number(x: f64) -> Binary64 {
    Binary64::from_bits(x.to_bits())
}

fn test_config() -> Config {
    Config::default()
        .with_initial_capacity(4)
        .with_min_capacity(2)
        .with_max_capacity(64)
        .with_growth_factor(number(2.0))
}

#[test]
fn test_basic_enqueue_dequeue() {
    let mut queue = LockFreeMPSCQueue::new(test_config()).unwrap();

    queue.try_enqueue(42).unwrap();
    queue.try_enqueue(24).unwrap();

    assert_eq!(queue.len(), 2);
    assert!(!queue.is_empty());

    assert_eq!(queue.try_dequeue().unwrap(), Some(42));
    assert_eq!(queue.try_dequeue().unwrap(), Some(24));
    assert_eq!(queue.try_dequeue().unwrap(), None);

    assert_eq!(queue.len(), 0);
    assert!(queue.is_empty());
}

#[test]
fn test_capacity_limits() {
    let config = test_config()
        .with_initial_capacity(2)
        .with_min_capacity(1)
        .with_max_capacity(4);
    let mut queue = LockFreeMPSCQueue::new(config).unwrap();

    queue.try_enqueue(1).unwrap();
    queue.try_enqueue(2).unwrap();

    queue.try_enqueue(3).unwrap();
    queue.try_enqueue(4).unwrap();

    assert!(matches!(
        queue.try_enqueue(5),
        Err(BufferError::Full) | Err(BufferError::MaxCapacityReached(_))
    ));
}

#[test]
fn test_resize_behavior() {
    let config = test_config()
        .with_initial_capacity(4)
        .with_min_capacity(2)
        .with_max_capacity(16)
        .with_growth_factor(number(2.0));
    let mut queue = LockFreeMPSCQueue::new(config).unwrap();

    assert_eq!(queue.capacity(), 4);

    for i in 0..8 {
        queue.try_enqueue(i).unwrap();
    }
    for _ in 0..4 {
        queue.try_dequeue().unwrap();
    }
    assert!(queue.capacity() > 4);

    let stats = queue.stats();
    assert_eq!(stats.messages_enqueued, 8);
    assert_eq!(stats.messages_dequeued, 4);
}

#[test]
fn test_generation_monotonicity() {
    let config = Config::default()
        .with_initial_capacity(2)
        .with_min_capacity(1)
        .with_max_capacity(16);
    let mut queue = LockFreeMPSCQueue::new(config).unwrap();

    let mut last_capacity = queue.capacity();
    let mut resize_count = 0;

    for i in 0..20 {
        queue.try_enqueue(i).ok();

        let current_capacity = queue.capacity();
        if current_capacity > last_capacity {
            resize_count += 1;
            last_capacity = current_capacity;
        }
        if i % 3 == 0 {
            queue.try_dequeue().ok();
        }
    }
    assert!(resize_count > 0, "Expected at least one resize");

    let stats = queue.stats();
    assert!(stats.current_capacity >= queue.capacity());
}

#[test]
fn test_no_phantom_messages() {
    let config = Config::default()
        .with_initial_capacity(4)
        .with_min_capacity(2)
        .with_max_capacity(16);
    let mut queue = LockFreeMPSCQueue::new(config).unwrap();

    assert_eq!(queue.try_dequeue().unwrap(), None);
    let initial_stats = queue.stats();
    assert_eq!(initial_stats.messages_dequeued, 0);
    assert_eq!(initial_stats.messages_enqueued, 0);
    assert_eq!(initial_stats.current_size, 0);

    let messages = vec![1, 2, 3, 4, 5];
    for &msg in &messages {
        queue.try_enqueue(msg).unwrap();
    }

    let after_enqueue = queue.stats();
    assert_eq!(after_enqueue.messages_enqueued, messages.len());
    assert_eq!(after_enqueue.current_size, messages.len());

    let mut dequeued = vec![];
    while let Ok(Some(msg)) = queue.try_dequeue() {
        dequeued.push(msg);
    }
    assert_eq!(dequeued, messages);

    let final_stats = queue.stats();
    assert_eq!(final_stats.messages_dequeued, messages.len());
    assert_eq!(final_stats.current_size, 0);

    assert_eq!(queue.try_dequeue().unwrap(), None);
}

#[test]
fn test_maximum_capacity_stress() {
    let config = Config::default()
        .with_initial_capacity(2)
        .with_min_capacity(1)
        .with_max_capacity(8);
    let mut queue = LockFreeMPSCQueue::new(config).unwrap();

    let mut _enqueued = 0;
    for i in 0..20 {
        match queue.try_enqueue(i) {
            Ok(()) => _enqueued += 1,
            Err(_) => break,
        }
    }
    assert!(queue.len() <= 8);
    assert!(queue.capacity() <= 8);

    assert!(queue.try_enqueue(999).is_err());

    let dequeued_count = 3;
    for _ in 0..dequeued_count {
        assert!(queue.try_dequeue().unwrap().is_some());
    }
    for i in 100..103 {
        assert!(queue.try_enqueue(i).is_ok());
    }

    let stats = queue.stats();
    assert_eq!(stats.current_capacity, 8);
}

#[test]
fn test_minimum_capacity_behavior() {
    let config = Config::default()
        .with_initial_capacity(8)
        .with_min_capacity(4)
        .with_max_capacity(32);
    let mut queue = LockFreeMPSCQueue::new(config).unwrap();

    for i in 0..16 {
        queue.try_enqueue(i).unwrap();
    }
    assert!(queue.capacity() > 8);

    for _ in 0..15 {
        queue.try_dequeue().unwrap();
    }
    assert!(queue.capacity() >= 4);

    let stats = queue.stats();
    assert!(stats.current_capacity >= 4);
}

#[test]
fn test_generation_counter_rollover_safety() {
    let config = Config::default()
        .with_initial_capacity(4)
        .with_min_capacity(2)
        .with_max_capacity(16);
    let mut queue = LockFreeMPSCQueue::new(config).unwrap();
    let num_cycles = 100;

    for cycle in 0..num_cycles {
        for i in 0..8 {
            let message = cycle * 100 + i;
            queue.try_enqueue(message).unwrap();
        }
        let mut received_in_cycle = Vec::new();
        while let Ok(Some(msg)) = queue.try_dequeue() {
            received_in_cycle.push(msg);
        }
        for (i, &msg) in received_in_cycle.iter().enumerate() {
            let expected = cycle * 100 + i as i32;
            assert_eq!(msg, expected, "Message order violated in cycle {}", cycle);
        }
        assert_eq!(queue.len(), 0);
    }

    let stats = queue.stats();
    let expected_total = (num_cycles * 8) as usize;
    assert_eq!(stats.messages_dequeued, expected_total);
    assert_eq!(stats.messages_enqueued, expected_total);
}

#[test]
fn test_consumer_head_movement_consistency() {
    let config = Config::default()
        .with_initial_capacity(8)
        .with_min_capacity(4)
        .with_max_capacity(32);
    let mut queue = LockFreeMPSCQueue::new(config).unwrap();

    for i in 0..5 {
        queue.try_enqueue(i).unwrap();
    }

    let mut consumed = Vec::new();
    for _ in 0..5 {
        if let Ok(Some(msg)) = queue.try_dequeue() {
            consumed.push(msg);
            let stats = queue.stats();
            let conservation =
                stats.messages_dequeued + stats.current_size + stats.messages_dropped;
            assert_eq!(conservation, stats.messages_enqueued);
        }
    }
    assert_eq!(consumed, vec![0, 1, 2, 3, 4]);

    assert_eq!(queue.len(), 0);
    assert!(queue.try_dequeue().unwrap().is_none());
}

#[test]
fn test_performance_regression_bounds() {
    let config = Config::default()
        .with_initial_capacity(1024)
        .with_min_capacity(512)
        .with_max_capacity(1048576);
    let mut queue = LockFreeMPSCQueue::new(config).unwrap();
    let message_count = 100_000;

    let start = Instant::now();
    for i in 0..message_count {
        queue.try_enqueue(i).unwrap();
    }
    for _ in 0..message_count {
        queue.try_dequeue().unwrap();
    }
    let duration = start.elapsed();
    let throughput = (message_count * 2) as f64 / duration.as_secs_f64();

    assert!(
        throughput > 10_000_000.0,
        "Throughput regression: {} ops/sec (expected > 10M)",
        throughput
    );
    println!("Single-threaded throughput: {:.0} ops/sec", throughput);
}

#[test]
fn test_latency_percentile_bounds() {
    let config = Config::default()
        .with_initial_capacity(1024)
        .with_min_capacity(512)
        .with_max_capacity(1048576);
    let mut queue = LockFreeMPSCQueue::new(config).unwrap();
    let operations = 10_000;
    let mut latencies = Vec::with_capacity(operations);

    for i in 0..operations {
        let start = Instant::now();
        queue.try_enqueue(i).unwrap();
        let enqueue_time = start.elapsed();

        let start = Instant::now();
        queue.try_dequeue().unwrap();
        let dequeue_time = start.elapsed();

        latencies.push(enqueue_time + dequeue_time);
    }
    latencies.sort();

    let p99_idx = operations * 99 / 100;
    let p99_latency = latencies[p99_idx];
    let p999_idx = operations * 999 / 1000;
    let p999_latency = latencies[p999_idx];

    println!("P99 latency: {:?}", p99_latency);
    println!("P99.9 latency: {:?}", p999_latency);

    assert!(
        p99_latency < Duration::from_micros(10),
        "P99 latency too high: {:?}",
        p99_latency
    );
    assert!(
        p999_latency < Duration::from_micros(100),
        "P99.9 latency too high: {:?}",
        p999_latency
    );
}

#[test]
fn rapid_growth_keeps_the_order() {
    let mut queue = LockFreeMPSCQueue::new(test_config()).unwrap();
    for cycle in 0..10 {
        for i in 0..16 {
            queue.try_enqueue(cycle * 1000 + i).unwrap();
        }
        assert!(queue.capacity() >= 16);
        for _ in 0..14 {
            queue.try_dequeue().unwrap();
        }
        assert!(queue.capacity() >= 2);
    }
    queue.try_enqueue(9999).unwrap();
    assert_eq!(queue.try_dequeue().unwrap().unwrap(), 8012);
}

#[test]
fn refused_messages_are_counted() {
    let config = Config::default()
        .with_initial_capacity(2)
        .with_min_capacity(1)
        .with_max_capacity(4);
    let mut queue = LockFreeMPSCQueue::new(config).unwrap();
    let mut offered = 0;
    let mut received = 0;
    for i in 0..30 {
        offered += 1;
        let _ = queue.try_enqueue(i);
        if i % 5 == 4 && queue.try_dequeue().unwrap().is_some() {
            received += 1;
        }
    }
    let stats = queue.stats();
    assert!(stats.messages_dropped > 0);
    assert_eq!(stats.messages_dequeued, received);
    assert_eq!(received + stats.current_size + stats.messages_dropped, offered);
    assert_eq!(stats.messages_dequeued + stats.current_size, stats.messages_enqueued);
}

#[test]
fn a_full_queue_at_its_maximum_says_so() {
    let config = Config::default()
        .with_initial_capacity(3)
        .with_min_capacity(3)
        .with_max_capacity(3);
    let mut queue = LockFreeMPSCQueue::new(config).unwrap();
    assert_eq!(queue.capacity(), 3);
    for i in 0..3 {
        queue.try_enqueue(i).unwrap();
    }
    assert_eq!(queue.try_enqueue(3), Err(BufferError::MaxCapacityReached(3)));
    assert_eq!(queue.try_dequeue().unwrap(), Some(0));
    queue.try_enqueue(3).unwrap();
    assert_eq!(queue.len(), 3);
}

#[test]
fn an_announced_replacement_holds_producers_back() {
    let mut queue = LockFreeMPSCQueue::new(test_config()).unwrap();
    queue.try_enqueue(1).unwrap();
    queue.try_enqueue(2).unwrap();
    assert!(queue.begin_resize());
    assert!(!queue.begin_resize());
    assert_eq!(
        queue.try_enqueue(3),
        Err(BufferError::ResizeError("Resize in progress".to_string()))
    );
    assert_eq!(queue.try_dequeue().unwrap(), Some(1));
    queue.complete_resize().unwrap();
    assert_eq!(queue.capacity(), 8);
    queue.try_enqueue(3).unwrap();
    assert_eq!(queue.try_dequeue().unwrap(), Some(2));
    assert_eq!(queue.try_dequeue().unwrap(), Some(3));
    assert_eq!(queue.stats().messages_dropped, 1);
}

#[test]
fn a_queue_at_its_maximum_is_not_replaced() {
    let config = test_config().with_max_capacity(4);
    let mut queue = LockFreeMPSCQueue::<u8>::new(config).unwrap();
    assert!(queue.begin_resize());
    queue.complete_resize().unwrap();
    assert_eq!(queue.capacity(), 4);
    assert!(queue.begin_resize());
}

#[test]
fn a_ring_that_cannot_be_had_is_an_error() {
    let half = usize::MAX / 2 + 1;
    for capacity in vec![half / 2 + 1, half, half + 1, usize::MAX] {
        let config = Config::default()
            .with_initial_capacity(capacity)
            .with_max_capacity(usize::MAX);
        assert!(matches!(
            LockFreeMPSCQueue::<u8>::new(config),
            Err(BufferError::ResizeError(s)) if s == "Invalid capacity"
        ));
        assert!(matches!(
            RingBuffer::<u64>::new(capacity),
            Err(BufferError::ResizeError(s)) if s == "Invalid capacity"
        ));
    }
    assert!(matches!(
        LockFreeMPSCQueue::<u8>::new(Config::default().with_min_capacity(0)),
        Err(BufferError::InvalidConfiguration(_))
    ));
}

#[test]
fn rings_have_a_power_of_two_of_slots() {
    for (capacity, slots) in vec![(0, 1), (1, 1), (2, 2), (3, 4), (5, 8), (1000, 1024), (1024, 1024)] {
        assert_eq!(RingBuffer::<u8>::new(capacity).unwrap().slot_count(), slots);
    }
    let mut ring = RingBuffer::new(4).unwrap();
    ring.write(6, "six");
    assert_eq!(ring.read(2), Some("six"));
    assert_eq!(ring.read(2), None);
}

#[test]
fn the_queue_grows_to_the_maximum_exactly() {
    let config = Config::default()
        .with_initial_capacity(3)
        .with_min_capacity(1)
        .with_max_capacity(11)
        .with_growth_factor(number(1.5));
    let mut queue = LockFreeMPSCQueue::new(config).unwrap();
    assert_eq!(queue.capacity(), 4);
    for i in 0..11 {
        queue.try_enqueue(i).unwrap();
    }
    assert_eq!(queue.capacity(), 11);
    assert_eq!(queue.try_enqueue(11), Err(BufferError::MaxCapacityReached(11)));
    for i in 0..11 {
        assert_eq!(queue.try_dequeue().unwrap(), Some(i));
    }
}

#[test]
fn heads_are_packed_and_unpacked() {
    assert_eq!(pack_head(5, 3), 0x3_0000_0005);
    assert_eq!(pack_head(0x1_0000_0007, 1), 0x1_0000_0007);
    assert_eq!(unpack_head(0x3_0000_0005), (5, 3));
    assert_eq!(unpack_head(u64::MAX), (0xFFFF_FFFF, u32::MAX));
    for head in vec![0, 1, 0xFFFF_FFFF, 0x1_0000_0000, 0xDEAD_BEEF_1234_5678] {
        let (position, generation) = unpack_head(head);
        assert_eq!(pack_head(position, generation), head);
    }
}
