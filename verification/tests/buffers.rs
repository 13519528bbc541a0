//! The dynamically resizable buffer and its configuration.

use elasticq::binary64::Binary64;
use elasticq::buffer::within;
use elasticq::{BufferError, BufferResult, Config, DynamicCircularBuffer, LockFreeMPSCQueue};
use std::time::Duration;

fn number(x: f64) -> Binary64 {
    Binary64::from_bits(x.to_bits())
}

fn test_config() -> Config {
    Config::default()
}

#[test]
fn test_push_pop() {
    let mut buffer = DynamicCircularBuffer::new(test_config()).unwrap();
    buffer.push(1).unwrap();
    buffer.push(2).unwrap();
    assert_eq!(buffer.len(), 2);
    assert_eq!(buffer.pop().unwrap(), 1);
    assert_eq!(buffer.len(), 1);
    assert_eq!(buffer.pop().unwrap(), 2);
    assert_eq!(buffer.len(), 0);
    assert!(matches!(buffer.pop(), Err(BufferError::Empty)));
}

#[test]
fn test_resize_on_push() {
    let config = test_config()
        .with_initial_capacity(2)
        .with_min_capacity(2)
        .with_max_capacity(8)
        .with_growth_factor(number(2.0));
    let mut buffer = DynamicCircularBuffer::new(config).unwrap();
    assert_eq!(buffer.capacity(), 2, "Initial capacity mismatch");

    buffer.push(1).unwrap();
    assert_eq!(buffer.capacity(), 2, "Capacity shouldn't change yet");
    buffer.push(2).unwrap();
    assert_eq!(buffer.capacity(), 2, "Capacity shouldn't change yet");

    println!("Before push 3: len={}, cap={}", buffer.len(), buffer.capacity());
    buffer.push(3).unwrap();
    println!("After push 3: len={}, cap={}", buffer.len(), buffer.capacity());

    assert_eq!(buffer.len(), 3, "Buffer length is incorrect");
    assert!(
        buffer.capacity() >= 3,
        "Buffer capacity should be >=3 after resize. Actual: {}",
        buffer.capacity()
    );
    assert!(
        buffer.capacity() <= 4,
        "Buffer capacity should be around 4. Actual: {}",
        buffer.capacity()
    );

    buffer.push(4).unwrap();
    println!("After push 4: len={}, cap={}", buffer.len(), buffer.capacity());
    assert_eq!(buffer.len(), 4);
    assert_eq!(buffer.capacity(), 4);

    buffer.push(5).unwrap();
    println!("After push 5: len={}, cap={}", buffer.len(), buffer.capacity());
    assert_eq!(buffer.len(), 5);
    assert!(
        buffer.capacity() >= 5,
        "Capacity should be >=5. Actual: {}",
        buffer.capacity()
    );
    assert!(
        buffer.capacity() <= 8,
        "Capacity should be <=8. Actual: {}",
        buffer.capacity()
    );
}

#[test]
fn test_push_batch_resize() {
    let config = test_config()
        .with_initial_capacity(5)
        .with_min_capacity(1)
        .with_max_capacity(20)
        .with_growth_factor(number(2.0));
    let mut buffer = DynamicCircularBuffer::new(config).unwrap();
    assert_eq!(buffer.capacity(), 5);

    buffer.push_batch(vec![1, 2, 3, 4, 5]).unwrap();
    assert_eq!(buffer.len(), 5);
    assert_eq!(buffer.capacity(), 5);

    buffer.push_batch(vec![6, 7, 8]).unwrap();
    assert_eq!(buffer.len(), 8);
    assert_eq!(buffer.capacity(), 10);

    let _ = buffer.pop_batch(4).unwrap();
    assert_eq!(buffer.len(), 4);

    buffer.push_batch(vec![9, 10, 11, 12, 13, 14, 15]).unwrap();
    assert_eq!(buffer.len(), 11);
    assert_eq!(buffer.capacity(), 20, "Capacity should be max_capacity");
}

#[test]
fn test_max_capacity_single_push() {
    let config = test_config()
        .with_initial_capacity(2)
        .with_min_capacity(1)
        .with_max_capacity(3);
    let mut buffer = DynamicCircularBuffer::new(config).unwrap();

    buffer.push(1).unwrap();
    buffer.push(2).unwrap();
    buffer.push(3).unwrap();
    assert_eq!(buffer.len(), 3);
    assert_eq!(buffer.capacity(), 3, "Capacity should be max_capacity");

    let result = buffer.push(4);
    assert!(
        matches!(result, Err(BufferError::Full) | Err(BufferError::MaxCapacityReached(_))),
        "Expected Full or MaxCapacityReached, got {:?}",
        result
    );
    assert_eq!(buffer.len(), 3, "Buffer length should remain 3");
}

#[test]
fn test_max_capacity_push_batch() {
    let config = test_config()
        .with_initial_capacity(5)
        .with_min_capacity(1)
        .with_max_capacity(10);
    let mut buffer = DynamicCircularBuffer::new(config).unwrap();

    buffer.push_batch(vec![0, 1, 2, 3, 4, 5, 6, 7]).unwrap();
    assert_eq!(buffer.len(), 8);
    assert_eq!(buffer.capacity(), 10, "Capacity should be max_capacity");

    buffer.push_batch(vec![8, 9]).unwrap();
    assert_eq!(buffer.len(), 10);
    assert_eq!(buffer.capacity(), 10);

    let result_single = buffer.push(10);
    assert!(
        matches!(result_single, Err(BufferError::Full) | Err(BufferError::MaxCapacityReached(_))),
        "Expected Full on single push, got {:?}",
        result_single
    );

    let result_batch = buffer.push_batch(vec![10, 11]);
    assert!(
        matches!(result_batch, Err(BufferError::MaxCapacityReached(_))),
        "Expected MaxCapacityReached on batch push, got {:?}",
        result_batch
    );
    assert_eq!(buffer.len(), 10, "Length should remain 10");
}

#[test]
fn lib_test_clear() {
    let config = test_config()
        .with_min_capacity(10)
        .with_initial_capacity(50)
        .with_max_capacity(100);
    let mut buffer = DynamicCircularBuffer::new(config).unwrap();
    buffer.push_batch(vec![1, 2, 3, 4, 5]).unwrap();
    assert_eq!(buffer.len(), 5);
    assert!(buffer.capacity() >= 5);

    let initial_cap_from_config = buffer.config().initial_capacity;

    buffer.clear();
    assert_eq!(buffer.len(), 0);
    assert!(buffer.is_empty());
    assert_eq!(
        buffer.capacity(),
        initial_cap_from_config.max(buffer.config().min_capacity),
        "Capacity should reset to initial/min after clear"
    );

    buffer.push(100).unwrap();
    assert_eq!(buffer.len(), 1);
    assert_eq!(buffer.pop().unwrap(), 100);
}

#[test]
fn test_iter() {
    let mut buffer = DynamicCircularBuffer::new(test_config()).unwrap();
    let data = vec![1, 2, 3, 4, 5];
    buffer.push_batch(data.clone()).unwrap();
    let items: Vec<i32> = buffer.iter();
    assert_eq!(items, data);
    assert_eq!(buffer.len(), data.len(), "Iter should not consume items");
}

#[test]
fn test_drain() {
    let mut buffer =
        DynamicCircularBuffer::new(test_config().with_initial_capacity(10).with_min_capacity(5))
            .unwrap();
    let data = vec![1, 2, 3, 4, 5, 6, 7, 8];
    buffer.push_batch(data.clone()).unwrap();

    let drained_items = buffer.drain();
    assert_eq!(drained_items, data);
    assert!(buffer.is_empty(), "Buffer should be empty after drain");
    assert_eq!(buffer.len(), 0);
    assert_eq!(
        buffer.capacity(),
        5,
        "Capacity should shrink to min_capacity after drain"
    );
}

#[test]
fn test_shrink_on_pop() {
    let config = test_config()
        .with_initial_capacity(10)
        .with_min_capacity(5)
        .with_max_capacity(20)
        .with_shrink_threshold(number(0.3));
    let mut buffer = DynamicCircularBuffer::new(config).unwrap();

    buffer.push_batch((0..10).collect::<Vec<i32>>()).unwrap();
    assert_eq!(buffer.len(), 10);
    assert_eq!(buffer.capacity(), 10, "Initial capacity should be 10");

    for i in 0..7 {
        let popped = buffer.pop().unwrap();
        assert_eq!(popped, i as i32);
        println!(
            "Popped item {}: val={}, new_len={}, new_cap={}",
            i,
            popped,
            buffer.len(),
            buffer.capacity()
        );
        if i < 6 {
            assert_eq!(buffer.capacity(), 10, "Capacity should not shrink yet at i={}", i);
        } else {
            assert_eq!(
                buffer.capacity(),
                5,
                "Capacity should have shrunk to 5 (min_capacity) at i={}",
                i
            );
        }
    }

    assert_eq!(buffer.len(), 3, "Buffer should have 3 items remaining");
    assert_eq!(buffer.capacity(), 5, "Final capacity should be 5");

    buffer.pop().unwrap();
    assert_eq!(buffer.capacity(), 5);
    buffer.pop().unwrap();
    assert_eq!(
        buffer.capacity(),
        5,
        "Capacity should not shrink below min_capacity"
    );
    buffer.pop().unwrap();
    assert_eq!(buffer.capacity(), 5);
}

#[test]
fn test_pop_batch_shrink() {
    let config = test_config()
        .with_initial_capacity(20)
        .with_min_capacity(5)
        .with_shrink_threshold(number(0.25));
    let mut buffer = DynamicCircularBuffer::new(config).unwrap();

    buffer.push_batch((0..20).collect::<Vec<i32>>()).unwrap();
    assert_eq!(buffer.len(), 20);
    assert_eq!(buffer.capacity(), 20);

    let _ = buffer.pop_batch(15).unwrap();
    assert_eq!(buffer.len(), 5);
    assert_eq!(buffer.capacity(), 10, "Capacity should shrink after pop_batch");

    let _ = buffer.pop().unwrap();
    assert_eq!(buffer.len(), 4);
    assert_eq!(buffer.capacity(), 10);

    let _ = buffer.pop_batch(2).unwrap();
    assert_eq!(buffer.len(), 2);
    assert_eq!(buffer.capacity(), 5, "Capacity should shrink to min_capacity");
}

#[test]
fn test_configuration_edge_values() {
    let config1 = Config::default()
        .with_initial_capacity(1)
        .with_min_capacity(1)
        .with_max_capacity(2)
        .with_growth_factor(number(1.01));
    assert!(config1.validate().is_ok());

    let queue = LockFreeMPSCQueue::<i32>::new(config1).unwrap();
    assert!(queue.capacity() >= 1);
    assert!(queue.capacity().is_power_of_two());

    let config2 = Config::default()
        .with_initial_capacity(1024)
        .with_min_capacity(512)
        .with_max_capacity(1048576)
        .with_growth_factor(number(10.0))
        .with_shrink_threshold(number(0.01));
    assert!(config2.validate().is_ok());

    let buffer = DynamicCircularBuffer::<i32>::new(config2).unwrap();
    assert_eq!(buffer.capacity(), 1024);
}

#[test]
fn test_invalid_configuration_rejection() {
    let config1 = Config::default().with_min_capacity(100).with_max_capacity(50);
    assert!(config1.validate().is_err());

    let config2 = Config::default()
        .with_initial_capacity(200)
        .with_min_capacity(50)
        .with_max_capacity(100);
    assert!(config2.validate().is_err());

    let config3 = Config::default().with_growth_factor(number(0.5));
    assert!(config3.validate().is_err());

    let config4 = Config::default().with_shrink_threshold(number(1.5));
    assert!(config4.validate().is_err());

    let config5 = Config::default().with_shrink_threshold(number(0.0));
    assert!(config5.validate().is_err());
}

#[test]
fn every_defect_has_its_message() {
    let cases = vec![
        (test_config().with_min_capacity(0), "Capacities must be greater than zero"),
        (test_config().with_max_capacity(0), "Capacities must be greater than zero"),
        (
            test_config().with_min_capacity(100).with_max_capacity(50),
            "min_capacity cannot be greater than max_capacity",
        ),
        (
            test_config().with_initial_capacity(1),
            "initial_capacity must be between min_capacity and max_capacity",
        ),
        (
            test_config().with_growth_factor(number(1.0)),
            "growth_factor must be greater than 1.0",
        ),
        (
            test_config().with_shrink_threshold(number(1.0)),
            "shrink_threshold must be between 0 and 1",
        ),
    ];
    for (config, message) in cases {
        assert_eq!(
            config.validate(),
            Err(BufferError::InvalidConfiguration(message.to_string()))
        );
        assert!(matches!(
            DynamicCircularBuffer::<i32>::new(config),
            Err(BufferError::InvalidConfiguration(_))
        ));
    }
}

#[test]
fn default_configuration_has_its_values() {
    let config = Config::default();
    assert_eq!(config.initial_capacity, 1024);
    assert_eq!(config.min_capacity, 1024);
    assert_eq!(config.max_capacity, 65536);
    assert_eq!(config.growth_factor.bits, 2.0f64.to_bits());
    assert_eq!(config.shrink_threshold.bits, 0.25f64.to_bits());
    assert!(config.push_timeout.is_none());
    assert!(config.pop_timeout.is_none());
    let timed = config
        .with_push_timeout(Duration::from_secs(1))
        .with_pop_timeout(Duration::from_secs(2));
    assert_eq!(timed.push_timeout, Some(Duration::from_secs(1)));
    assert_eq!(timed.pop_timeout, Some(Duration::from_secs(2)));
    assert_eq!(timed.clone().pop_timeout, Some(Duration::from_secs(2)));
}

#[test]
fn items_come_out_in_order_and_none_is_lost() {
    let config = test_config()
        .with_initial_capacity(2)
        .with_min_capacity(1)
        .with_max_capacity(9)
        .with_growth_factor(number(1.3));
    let mut buffer = DynamicCircularBuffer::new(config).unwrap();
    let mut accepted: Vec<u32> = Vec::new();
    let mut taken: Vec<u32> = Vec::new();
    for i in 0..200u32 {
        match i % 7 {
            0 | 1 | 2 => {
                if buffer.push(i).is_ok() {
                    accepted.push(i);
                }
            }
            3 => {
                let items = vec![1000 + i, 2000 + i, 3000 + i, 4000 + i];
                if buffer.push_batch(items.clone()).is_ok() {
                    accepted.extend(items);
                }
            }
            4 => taken.extend(buffer.pop()),
            5 => taken.extend(buffer.pop_batch(i as usize % 5).unwrap()),
            _ => {
                if i % 21 == 6 {
                    taken.extend(buffer.drain());
                }
            }
        }
        assert!(buffer.len() <= buffer.capacity());
        assert!(buffer.capacity() <= 9);
        assert_eq!(accepted.len(), taken.len() + buffer.len());
    }
    taken.extend(buffer.drain());
    assert_eq!(taken, accepted);
}

#[test]
fn room_under_the_maximum_is_usable() {
    let config = test_config()
        .with_initial_capacity(1)
        .with_min_capacity(1)
        .with_max_capacity(100)
        .with_growth_factor(number(1.01));
    let mut buffer = DynamicCircularBuffer::new(config).unwrap();
    buffer.push_batch((0..60).collect::<Vec<i32>>()).unwrap();
    assert_eq!(buffer.capacity(), 60);
    for i in 60..100 {
        let before = buffer.capacity();
        buffer.push(i).unwrap();
        assert!(buffer.capacity() > before);
    }
    assert_eq!(buffer.push(100), Err(BufferError::MaxCapacityReached(100)));
    assert_eq!(buffer.drain(), (0..100).collect::<Vec<i32>>());
}

#[test]
fn a_batch_that_does_not_fit_leaves_the_buffer_alone() {
    let config = test_config()
        .with_initial_capacity(2)
        .with_min_capacity(1)
        .with_max_capacity(4);
    let mut buffer = DynamicCircularBuffer::new(config).unwrap();
    buffer.push_batch(vec![1, 2, 3]).unwrap();
    assert_eq!(
        buffer.push_batch(vec![4, 5]),
        Err(BufferError::MaxCapacityReached(4))
    );
    assert_eq!(buffer.iter(), vec![1, 2, 3]);
    buffer.push_batch(Vec::new()).unwrap();
    assert_eq!(buffer.len(), 3);
    assert_eq!(buffer.pop_batch(0).unwrap(), Vec::<i32>::new());
    assert_eq!(buffer.pop_batch(100).unwrap(), vec![1, 2, 3]);
    assert_eq!(buffer.pop_batch(100).unwrap(), Vec::<i32>::new());
}

#[test]
fn an_empty_buffer_is_an_error_where_that_is_asked_for() {
    let mut buffer = DynamicCircularBuffer::new(test_config()).unwrap();
    buffer.push_batch(vec![1, 2, 3]).unwrap();
    assert_eq!(buffer.pop_batch_nonempty(2).unwrap(), vec![1, 2]);
    assert_eq!(buffer.pop_batch_nonempty(2).unwrap(), vec![3]);
    assert_eq!(buffer.pop_batch_nonempty(0).unwrap(), Vec::<i32>::new());
    assert!(matches!(buffer.pop_batch_nonempty(1), Err(BufferError::Empty)));
}

#[test]
fn an_operation_out_of_time_is_a_timeout() {
    let limit = Duration::from_millis(10);
    let missed: Option<BufferResult<i32>> = None;
    assert_eq!(within(missed, limit), Err(BufferError::Timeout(limit)));
    assert_eq!(within(Some(Ok(7)), limit), Ok(7));
    let empty: Option<BufferResult<i32>> = Some(Err(BufferError::Empty));
    assert_eq!(within(empty, limit), Err(BufferError::Empty));
}

#[test]
fn test_lock_based_vs_lock_free_consistency() {
    let config = Config::default()
        .with_initial_capacity(8)
        .with_min_capacity(4)
        .with_max_capacity(32);

    let mut lock_based = DynamicCircularBuffer::new(config.clone()).unwrap();
    let mut lock_free = LockFreeMPSCQueue::new(config).unwrap();

    let operations = vec![1, 2, 3, 4, 5];
    for &op in &operations {
        lock_based.push(op).unwrap();
        lock_free.try_enqueue(op).unwrap();
    }
    for &expected in &operations {
        assert_eq!(lock_based.pop().unwrap(), expected);
        assert_eq!(lock_free.try_dequeue().unwrap().unwrap(), expected);
    }
    assert!(lock_based.pop().is_err());
    assert_eq!(lock_free.try_dequeue().unwrap(), None);
}
