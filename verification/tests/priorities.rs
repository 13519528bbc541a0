//! The buffer with priority levels.

use elasticq::binary64::Binary64;
use elasticq::priority::{
    PriorityCircularBuffer, PriorityConfig, DEFAULT_PRIORITY_LEVELS,
};
use elasticq::{BufferError, Config};

fn number(x: f64) -> Binary64 {
    Binary64::from_bits(x.to_bits())
}

#[test]
fn test_basic_priority_ordering() {
    let config = PriorityConfig::default().with_fair_queuing(false);
    let mut buffer = PriorityCircularBuffer::<i32>::new(config).unwrap();

    buffer.push_with_priority(1, 0).unwrap();
    buffer.push_with_priority(2, 1).unwrap();
    buffer.push_with_priority(3, 2).unwrap();

    assert_eq!(buffer.pop().unwrap(), 3);
    assert_eq!(buffer.pop().unwrap(), 2);
    assert_eq!(buffer.pop().unwrap(), 1);
}

#[test]
fn test_fifo_within_priority() {
    let config = PriorityConfig::default().with_fair_queuing(false);
    let mut buffer = PriorityCircularBuffer::<i32>::new(config).unwrap();

    buffer.push_with_priority(1, 1).unwrap();
    buffer.push_with_priority(2, 1).unwrap();
    buffer.push_with_priority(3, 1).unwrap();

    assert_eq!(buffer.pop().unwrap(), 1);
    assert_eq!(buffer.pop().unwrap(), 2);
    assert_eq!(buffer.pop().unwrap(), 3);
}

#[test]
fn test_push_high_low_priority() {
    let config = PriorityConfig::default()
        .with_priority_levels(5)
        .with_fair_queuing(false);
    let mut buffer = PriorityCircularBuffer::<&str>::new(config).unwrap();

    buffer.push_low_priority("low").unwrap();
    buffer.push_high_priority("high").unwrap();
    buffer.push("default").unwrap();

    assert_eq!(buffer.pop().unwrap(), "high");
    assert_eq!(buffer.pop().unwrap(), "default");
    assert_eq!(buffer.pop().unwrap(), "low");
}

#[test]
fn test_pop_from_specific_priority() {
    let config = PriorityConfig::default().with_fair_queuing(false);
    let mut buffer = PriorityCircularBuffer::<i32>::new(config).unwrap();

    buffer.push_with_priority(1, 0).unwrap();
    buffer.push_with_priority(2, 1).unwrap();
    buffer.push_with_priority(3, 2).unwrap();

    assert_eq!(buffer.pop_from_priority(1).unwrap(), 2);

    assert_eq!(buffer.len_at_priority(0), 1);
    assert_eq!(buffer.len_at_priority(2), 1);
}

#[test]
fn test_statistics() {
    let config = PriorityConfig::default();
    let mut buffer = PriorityCircularBuffer::<i32>::new(config).unwrap();

    buffer.push_with_priority(1, 0).unwrap();
    buffer.push_with_priority(2, 1).unwrap();
    buffer.push_with_priority(3, 2).unwrap();
    buffer.pop().unwrap();

    let stats = buffer.stats();
    assert_eq!(stats.total_pushed, 3);
    assert_eq!(stats.total_popped, 1);
    assert_eq!(stats.pushed_per_priority[0], 1);
    assert_eq!(stats.pushed_per_priority[1], 1);
    assert_eq!(stats.pushed_per_priority[2], 1);
}

#[test]
fn priority_test_batch_operations() {
    let config = PriorityConfig::default().with_fair_queuing(false);
    let mut buffer = PriorityCircularBuffer::<i32>::new(config).unwrap();

    buffer.push_batch_with_priority(vec![1, 2, 3], 2).unwrap();
    buffer.push_batch_with_priority(vec![4, 5, 6], 0).unwrap();

    assert_eq!(buffer.len(), 6);

    let items = buffer.pop_batch(4).unwrap();
    assert_eq!(items, vec![1, 2, 3, 4]);
}

#[test]
fn test_empty_buffer() {
    let config = PriorityConfig::default();
    let mut buffer = PriorityCircularBuffer::<i32>::new(config).unwrap();

    assert!(buffer.is_empty());
    assert_eq!(buffer.len(), 0);
    assert!(matches!(buffer.pop(), Err(BufferError::Empty)));
}

#[test]
fn priority_test_clear() {
    let config = PriorityConfig::default();
    let mut buffer = PriorityCircularBuffer::<i32>::new(config).unwrap();

    buffer.push_with_priority(1, 0).unwrap();
    buffer.push_with_priority(2, 1).unwrap();
    buffer.push_with_priority(3, 2).unwrap();

    buffer.clear();

    assert!(buffer.is_empty());
    assert_eq!(buffer.len(), 0);
}

#[test]
fn test_priority_clamping() {
    let config = PriorityConfig::default().with_priority_levels(3);
    let mut buffer = PriorityCircularBuffer::<i32>::new(config).unwrap();

    buffer.push_with_priority(1, 100).unwrap();

    assert_eq!(buffer.len_at_priority(2), 1);
}

#[test]
fn test_invalid_config() {
    let config = PriorityConfig::default().with_priority_levels(0);
    assert!(matches!(
        PriorityCircularBuffer::<i32>::new(config),
        Err(BufferError::InvalidConfiguration(_))
    ));
}

#[test]
fn test_fair_queuing_prevents_starvation() {
    let config = PriorityConfig::default()
        .with_fair_queuing(true)
        .with_max_consecutive(2);
    let mut buffer = PriorityCircularBuffer::<i32>::new(config).unwrap();

    for i in 0..10 {
        buffer.push_with_priority(i, 2).unwrap();
    }
    buffer.push_with_priority(100, 0).unwrap();

    let mut found_low_priority = false;
    for _ in 0..11 {
        if let Ok(item) = buffer.pop() {
            if item == 100 {
                found_low_priority = true;
                break;
            }
        }
    }
    assert!(
        found_low_priority,
        "Low priority item should have been served due to fair queuing"
    );
}

#[test]
fn default_priority_configuration_has_its_values() {
    for config in vec![PriorityConfig::default(), PriorityConfig::new()] {
        assert_eq!(config.priority_levels, DEFAULT_PRIORITY_LEVELS);
        assert_eq!(config.priority_levels, 3);
        assert!(config.fair_queuing);
        assert_eq!(config.max_consecutive_per_priority, 10);
        assert_eq!(config.base.initial_capacity, 1024);
        let copy = config.clone();
        assert_eq!(copy.priority_levels, 3);
        assert_eq!(copy.base.max_capacity, 65536);
    }
}

#[test]
fn every_priority_defect_has_its_message() {
    let cases = vec![
        (
            PriorityConfig::new().with_priority_levels(0),
            "priority_levels must be greater than 0",
        ),
        (
            PriorityConfig::new().with_priority_levels(257),
            "priority_levels must be <= 256",
        ),
        (
            PriorityConfig::new().with_max_consecutive(0),
            "max_consecutive_per_priority must be greater than 0",
        ),
        (
            PriorityConfig::new().with_base_config(Config::default().with_min_capacity(0)),
            "Capacities must be greater than zero",
        ),
    ];
    for (config, message) in cases {
        assert_eq!(
            config.validate(),
            Err(BufferError::InvalidConfiguration(message.to_string()))
        );
    }
    assert!(PriorityConfig::new().with_priority_levels(256).validate().is_ok());
}

#[test]
fn a_level_that_does_not_exist_is_an_error() {
    let mut buffer = PriorityCircularBuffer::<i32>::new(PriorityConfig::new()).unwrap();
    assert_eq!(
        buffer.pop_from_priority(3),
        Err(BufferError::InvalidOperation("Priority 3 exceeds maximum 2".to_string()))
    );
    assert_eq!(
        buffer.pop_from_priority(255),
        Err(BufferError::InvalidOperation("Priority 255 exceeds maximum 2".to_string()))
    );
    assert_eq!(buffer.pop_from_priority(2), Err(BufferError::Empty));
    assert_eq!(buffer.len_at_priority(3), 0);
    assert_eq!(buffer.capacity_at_priority(3), 0);
    assert_eq!(buffer.capacity_at_priority(2), 1024);
    assert_eq!(buffer.priority_levels(), 3);
}

fn small() -> PriorityConfig {
    PriorityConfig::new().with_base_config(
        Config::default()
            .with_initial_capacity(2)
            .with_min_capacity(2)
            .with_max_capacity(9)
            .with_growth_factor(number(1.5)),
    )
}

#[test]
fn levels_grow_and_shrink_by_themselves() {
    let mut buffer = PriorityCircularBuffer::<i32>::new(small()).unwrap();
    buffer.push_batch_with_priority(vec![1, 2], 1).unwrap();
    assert_eq!(buffer.capacity_at_priority(1), 2);
    buffer.push_with_priority(3, 1).unwrap();
    assert_eq!(buffer.capacity_at_priority(1), 3);
    buffer.push_batch_with_priority(vec![4, 5, 6, 7], 1).unwrap();
    assert_eq!(buffer.capacity_at_priority(1), 8);
    buffer.push_batch_with_priority(vec![8, 9], 1).unwrap();
    assert_eq!(buffer.capacity_at_priority(1), 9);
    assert_eq!(buffer.capacity_at_priority(0), 2);
    assert_eq!(
        buffer.push_with_priority(10, 1),
        Err(BufferError::MaxCapacityReached(9))
    );
    assert_eq!(
        buffer.push_batch_with_priority(vec![10], 1),
        Err(BufferError::MaxCapacityReached(9))
    );
    buffer.push_batch_with_priority(Vec::new(), 1).unwrap();
    buffer.push_with_priority(10, 0).unwrap();
    for i in 1..8 {
        assert_eq!(buffer.pop_from_priority(1).unwrap(), i);
    }
    assert_eq!(buffer.capacity_at_priority(1), 6);
    buffer.pop_from_priority(1).unwrap();
    assert_eq!(buffer.capacity_at_priority(1), 4);
    buffer.clear();
    assert_eq!(buffer.capacity_at_priority(1), 2);
    assert_eq!(buffer.stats().total_pushed, 10);
}

#[test]
fn one_item_as_a_batch_is_one_item() {
    let mut one = PriorityCircularBuffer::<i32>::new(small()).unwrap();
    let mut batch = PriorityCircularBuffer::<i32>::new(small()).unwrap();
    for i in 0..9 {
        one.push_with_priority(i, 0).unwrap();
        batch.push_batch_with_priority(vec![i], 0).unwrap();
        assert_eq!(one.capacity_at_priority(0), batch.capacity_at_priority(0));
    }
}

#[test]
fn turns_go_from_high_to_low_and_around() {
    let config = PriorityConfig::new().with_max_consecutive(2);
    let mut buffer = PriorityCircularBuffer::<i32>::new(config).unwrap();
    for i in 0..4 {
        buffer.push_with_priority(i, 0).unwrap();
        buffer.push_with_priority(10 + i, 1).unwrap();
        buffer.push_with_priority(20 + i, 2).unwrap();
    }
    assert_eq!(
        buffer.pop_batch(100).unwrap(),
        vec![0, 1, 20, 21, 10, 11, 2, 3, 22, 23, 12, 13]
    );
    assert!(buffer.is_empty());
}

#[test]
fn a_level_alone_keeps_its_turn() {
    let config = PriorityConfig::new().with_max_consecutive(1);
    let mut buffer = PriorityCircularBuffer::<i32>::new(config).unwrap();
    buffer.push_batch_with_priority(vec![1, 2, 3], 1).unwrap();
    assert_eq!(buffer.pop_batch(3).unwrap(), vec![1, 2, 3]);
    assert_eq!(buffer.pop_batch(0).unwrap(), Vec::<i32>::new());
}

#[test]
fn no_level_waits_longer_than_the_bound() {
    let levels = 4;
    let most = 3;
    for start in 0..10 {
        let config = PriorityConfig::new()
            .with_priority_levels(levels)
            .with_max_consecutive(most);
        let mut buffer = PriorityCircularBuffer::<usize>::new(config).unwrap();
        for level in 0..levels {
            for _ in 0..10 {
                buffer.push_with_priority(level, level as u8).unwrap();
            }
        }
        for _ in 0..start {
            buffer.pop().unwrap();
        }
        let mut since = vec![0; levels];
        for _ in 0..200 {
            let level = buffer.pop().unwrap();
            buffer.push_with_priority(level, level as u8).unwrap();
            for other in 0..levels {
                since[other] += 1;
                assert!(since[other] <= (levels - 1) * most + 1);
            }
            since[level] = 0;
        }
    }
}

#[test]
fn no_level_gets_more_than_its_share() {
    for most in 1..5 {
        let config = PriorityConfig::new().with_max_consecutive(most);
        let mut buffer = PriorityCircularBuffer::<u8>::new(config).unwrap();
        buffer.push_batch_with_priority(vec![1; 20], 1).unwrap();
        buffer.push_batch_with_priority(vec![2; 20], 2).unwrap();
        let mut last = 0;
        let mut in_a_row = 0;
        while buffer.len_at_priority(1) > 0 && buffer.len_at_priority(2) > 0 {
            let level = buffer.pop().unwrap();
            in_a_row = if level == last { in_a_row + 1 } else { 1 };
            last = level;
            assert!(in_a_row <= most);
        }
    }
}

#[test]
fn every_level_keeps_its_order_and_its_items() {
    let config = small().with_max_consecutive(2);
    let mut buffer = PriorityCircularBuffer::<(u8, u32)>::new(config).unwrap();
    let mut accepted: Vec<Vec<u32>> = vec![Vec::new(); 3];
    let mut taken: Vec<Vec<u32>> = vec![Vec::new(); 3];
    for i in 0..300u32 {
        let level = (i * 7 % 3) as u8;
        if i % 4 != 3 {
            if buffer.push_with_priority((level, i), level).is_ok() {
                accepted[level as usize].push(i);
            }
        } else if i % 8 == 3 {
            if let Ok((l, item)) = buffer.pop() {
                taken[l as usize].push(item);
            }
        } else if let Ok((l, item)) = buffer.pop_from_priority(level) {
            taken[l as usize].push(item);
        }
    }
    let stats = buffer.stats();
    for l in 0..3 {
        assert_eq!(stats.pushed_per_priority[l], accepted[l].len() as u64);
        assert_eq!(stats.popped_per_priority[l], taken[l].len() as u64);
        assert_eq!(stats.len_per_priority[l], buffer.len_at_priority(l as u8));
    }
    for (l, item) in buffer.pop_batch(1000).unwrap() {
        taken[l as usize].push(item);
    }
    assert_eq!(taken, accepted);
}
