//! What is recorded of the operations on a buffer.

use elasticq::metrics::{
    descriptions, names, Change, MetricKind, MetricUnit, MetricUpdate, MetricsRecorder, Switches,
    TimerGuard,
};
use elasticq::{BufferError, Config, DynamicCircularBuffer};

fn update(metric: &'static str, change: Change) -> MetricUpdate {
    MetricUpdate { metric, queue: "test", change }
}

#[test]
fn test_metrics_recorder_creation() {
    let mut switches = Switches::new();
    let recorder = MetricsRecorder::new("test_queue", &mut switches);
    assert_eq!(recorder.name(), "test_queue");
    assert!(recorder.is_enabled(&switches));
}

#[test]
fn test_metrics_enable_disable() {
    let mut switches = Switches::new();
    let recorder = MetricsRecorder::new("test_queue", &mut switches);
    assert!(recorder.is_enabled(&switches));

    recorder.set_enabled(&mut switches, false);
    assert!(!recorder.is_enabled(&switches));

    recorder.set_enabled(&mut switches, true);
    assert!(recorder.is_enabled(&switches));
}

#[test]
fn test_instrumented_buffer() {
    let buffer = DynamicCircularBuffer::<i32>::new(Config::default()).unwrap();
    let mut switches = Switches::new();
    let recorder = MetricsRecorder::new("test", &mut switches);
    let mut instrumented = recorder.wrap(buffer);

    instrumented.push(&switches, 1).unwrap();
    instrumented.push(&switches, 2).unwrap();

    assert_eq!(instrumented.len(), 2);
    assert_eq!(instrumented.pop(&switches).unwrap(), 1);
    assert_eq!(instrumented.len(), 1);
}

#[test]
fn metrics_test_batch_operations() {
    let buffer = DynamicCircularBuffer::<i32>::new(Config::default()).unwrap();
    let mut switches = Switches::new();
    let recorder = MetricsRecorder::new("test", &mut switches);
    let mut instrumented = recorder.wrap(buffer);

    instrumented.push_batch(&switches, vec![1, 2, 3, 4, 5]).unwrap();
    assert_eq!(instrumented.len(), 5);

    let items = instrumented.pop_batch(&switches, 3).unwrap();
    assert_eq!(items, vec![1, 2, 3]);
    assert_eq!(instrumented.len(), 2);
}

#[test]
fn test_timer_guard() {
    let mut switches = Switches::new();
    let recorder = MetricsRecorder::new("test", &mut switches);
    let enqueued = TimerGuard::enqueue(&recorder).complete(&switches);
    assert_eq!(
        enqueued,
        vec![
            update(names::MESSAGES_ENQUEUED, Change::Increment(1)),
            update(names::ENQUEUE_LATENCY, Change::ObserveElapsedPer(1)),
        ]
    );
    let dequeued = TimerGuard::dequeue(&recorder).complete(&switches);
    assert_eq!(
        dequeued,
        vec![
            update(names::MESSAGES_DEQUEUED, Change::Increment(1)),
            update(names::DEQUEUE_LATENCY, Change::ObserveElapsedPer(1)),
        ]
    );
    assert!(TimerGuard::enqueue(&recorder).cancel().is_empty());
}

#[test]
fn every_event_has_its_metric() {
    let mut switches = Switches::new();
    let recorder = MetricsRecorder::new("test", &mut switches);
    assert_eq!(
        recorder.record_dropped(&switches),
        vec![update("elasticq_messages_dropped_total", Change::Increment(1))]
    );
    assert_eq!(
        recorder.record_backpressure(&switches),
        vec![update("elasticq_backpressure_events_total", Change::Increment(1))]
    );
    assert_eq!(
        recorder.record_resize(&switches),
        vec![update("elasticq_resize_operations_total", Change::Increment(1))]
    );
    assert_eq!(
        recorder.set_queue_depth(&switches, 3),
        vec![update("elasticq_queue_depth", Change::SetTo(3))]
    );
    assert_eq!(
        recorder.set_queue_capacity(&switches, 9),
        vec![update("elasticq_queue_capacity", Change::SetTo(9))]
    );
    assert_eq!(
        recorder.set_utilization(&switches, 3, 9),
        vec![update("elasticq_queue_utilization_ratio", Change::SetRatio(3, 9))]
    );
    assert_eq!(
        recorder.set_utilization(&switches, 3, 0),
        vec![update("elasticq_queue_utilization_ratio", Change::SetRatio(0, 1))]
    );
    assert_eq!(
        recorder.record_batch_enqueue(&switches, 4),
        vec![
            update("elasticq_messages_enqueued_total", Change::Increment(4)),
            update("elasticq_enqueue_latency_seconds", Change::ObserveElapsedPer(4)),
        ]
    );
    assert_eq!(
        recorder.record_batch_dequeue(&switches, 4),
        vec![
            update("elasticq_messages_dequeued_total", Change::Increment(4)),
            update("elasticq_dequeue_latency_seconds", Change::ObserveElapsedPer(4)),
        ]
    );
    assert_eq!(recorder.record_enqueue(&switches), recorder.record_batch_enqueue(&switches, 1));
    assert_eq!(recorder.record_dequeue(&switches), recorder.record_batch_dequeue(&switches, 1));
}

fn small_buffer() -> DynamicCircularBuffer<i32> {
    let config = Config::default()
        .with_initial_capacity(2)
        .with_min_capacity(1)
        .with_max_capacity(4);
    DynamicCircularBuffer::new(config).unwrap()
}

#[test]
fn gauges_show_the_buffer() {
    let mut switches = Switches::new();
    let mut instrumented = MetricsRecorder::new("test", &mut switches).wrap(small_buffer());
    instrumented.push_batch(&switches, vec![1, 2, 3]).unwrap();
    assert_eq!(
        instrumented.take_updates(),
        vec![
            update(names::MESSAGES_ENQUEUED, Change::Increment(3)),
            update(names::ENQUEUE_LATENCY, Change::ObserveElapsedPer(3)),
            update(names::QUEUE_DEPTH, Change::SetTo(3)),
            update(names::QUEUE_CAPACITY, Change::SetTo(4)),
            update(names::QUEUE_UTILIZATION, Change::SetRatio(3, 4)),
        ]
    );
    assert!(instrumented.take_updates().is_empty());
    instrumented.pop_batch(&switches, 2).unwrap();
    assert_eq!(
        instrumented.take_updates(),
        vec![
            update(names::MESSAGES_DEQUEUED, Change::Increment(2)),
            update(names::DEQUEUE_LATENCY, Change::ObserveElapsedPer(2)),
            update(names::QUEUE_DEPTH, Change::SetTo(1)),
            update(names::QUEUE_CAPACITY, Change::SetTo(2)),
            update(names::QUEUE_UTILIZATION, Change::SetRatio(1, 2)),
        ]
    );
    assert_eq!(instrumented.capacity(), 2);
    assert_eq!(instrumented.inner().len(), 1);
    assert_eq!(instrumented.recorder().name(), "test");
}

#[test]
fn refusals_are_backpressure_and_empty_pops_are_nothing() {
    let mut switches = Switches::new();
    let mut instrumented = MetricsRecorder::new("test", &mut switches).wrap(small_buffer());
    instrumented.push_batch(&switches, vec![1, 2, 3, 4]).unwrap();
    instrumented.take_updates();
    assert_eq!(instrumented.push(&switches, 5), Err(BufferError::MaxCapacityReached(4)));
    assert_eq!(
        instrumented.push_batch(&switches, vec![5]),
        Err(BufferError::MaxCapacityReached(4))
    );
    let refused = update(names::BACKPRESSURE_EVENTS, Change::Increment(1));
    assert_eq!(instrumented.take_updates(), vec![refused, refused]);
    instrumented.pop_batch(&switches, 9).unwrap();
    instrumented.take_updates();
    assert_eq!(instrumented.pop(&switches), Err(BufferError::Empty));
    assert!(instrumented.pop_batch(&switches, 9).unwrap().is_empty());
    assert!(instrumented.is_empty());
    assert!(instrumented.take_updates().is_empty());
}

#[test]
fn nothing_is_recorded_when_switched_off() {
    let mut switches = Switches::new();
    let mut instrumented = MetricsRecorder::new("test", &mut switches).wrap(small_buffer());
    instrumented.recorder().set_enabled(&mut switches, false);
    instrumented.push(&switches, 1).unwrap();
    instrumented.push_batch(&switches, vec![2, 3, 4]).unwrap();
    assert!(instrumented.push(&switches, 5).is_err());
    instrumented.pop(&switches).unwrap();
    instrumented.pop_batch(&switches, 2).unwrap();
    assert!(instrumented.take_updates().is_empty());
    instrumented.recorder().set_enabled(&mut switches, true);
    instrumented.pop(&switches).unwrap();
    assert_eq!(instrumented.take_updates().len(), 5);
}

#[test]
fn a_borrowed_buffer_is_recorded_too() {
    let mut buffer = small_buffer();
    let mut switches = Switches::new();
    let recorder = MetricsRecorder::new("test", &mut switches);
    {
        let mut instrumented = recorder.wrap_arc(&mut buffer);
        instrumented.push(&switches, 1).unwrap();
        instrumented.push_batch(&switches, vec![2, 3]).unwrap();
        assert_eq!(instrumented.pop(&switches).unwrap(), 1);
        assert_eq!(instrumented.pop_batch(&switches, 1).unwrap(), vec![2]);
        assert_eq!(instrumented.len(), 1);
        assert!(!instrumented.is_empty());
        assert_eq!(instrumented.inner().len(), 1);
        assert!(instrumented.recorder().is_enabled(&switches));
        assert_eq!(instrumented.take_updates().len(), 20);
        instrumented.recorder().set_enabled(&mut switches, false);
        instrumented.push(&switches, 4).unwrap();
        assert!(instrumented.take_updates().is_empty());
        assert_eq!(instrumented.capacity(), 2);
    }
    assert_eq!(buffer.drain(), vec![3, 4]);
    assert!(!recorder.is_enabled(&switches));
}

fn total(updates: &[MetricUpdate], metric: &str) -> u64 {
    let mut sum = 0;
    for u in updates {
        if let Change::Increment(by) = u.change {
            if u.metric == metric {
                sum += by;
            }
        }
    }
    sum
}

#[test]
fn counters_follow_the_items() {
    let mut switches = Switches::new();
    let mut instrumented = MetricsRecorder::new("test", &mut switches).wrap(small_buffer());
    let mut updates = Vec::new();
    let mut accepted = 0;
    let mut taken = 0;
    for i in 0..60 {
        match i % 5 {
            0 | 1 => accepted += instrumented.push(&switches, i).is_ok() as u64,
            2 => {
                if instrumented.push_batch(&switches, vec![i, i + 100]).is_ok() {
                    accepted += 2;
                }
            }
            3 => taken += instrumented.pop(&switches).is_ok() as u64,
            _ => taken += instrumented.pop_batch(&switches, i as usize % 4).unwrap().len() as u64,
        }
        updates.extend(instrumented.take_updates());
    }
    assert_eq!(total(&updates, names::MESSAGES_ENQUEUED), accepted);
    assert_eq!(total(&updates, names::MESSAGES_DEQUEUED), taken);
    assert_eq!(accepted - taken, instrumented.len() as u64);
    assert!(total(&updates, names::BACKPRESSURE_EVENTS) > 0);
}

#[test]
fn every_metric_is_described_once() {
    let all = descriptions();
    assert_eq!(all.len(), 10);
    for (i, d) in all.iter().enumerate() {
        assert!(d.metric.starts_with("elasticq_"));
        assert!(all[i + 1..].iter().all(|other| other.metric != d.metric));
        assert_eq!(d.kind == MetricKind::Histogram, d.unit == MetricUnit::Seconds);
        assert_eq!(d.kind == MetricKind::Counter, d.metric.ends_with("_total"));
    }
    assert_eq!(all[0].metric, names::MESSAGES_ENQUEUED);
    assert_eq!(all[0].text, "Total number of messages successfully enqueued");
    assert_eq!(all[9].metric, "elasticq_queue_utilization_ratio");
}

#[test]
fn a_switch_is_shared() {
    let mut switches = Switches::new();
    let other = MetricsRecorder::new("test", &mut switches);
    let recorder = MetricsRecorder::new("test", &mut switches);
    let copy = recorder.clone();
    let wrapped = recorder.wrap(small_buffer());
    let mut buffer = small_buffer();
    let borrowed = recorder.wrap_arc(&mut buffer);
    let late = MetricsRecorder::new("late", &mut switches);
    for (through, enabled) in vec![(&recorder, false), (&copy, true), (wrapped.recorder(), false)] {
        through.set_enabled(&mut switches, enabled);
        assert_eq!(recorder.is_enabled(&switches), enabled);
        assert_eq!(copy.is_enabled(&switches), enabled);
        assert_eq!(wrapped.recorder().is_enabled(&switches), enabled);
        assert_eq!(borrowed.recorder().is_enabled(&switches), enabled);
        assert!(other.is_enabled(&switches));
        assert!(late.is_enabled(&switches));
        assert_eq!(recorder.name(), "test");
    }
}

#[test]
fn a_timer_goes_by_the_switch_at_its_end() {
    let mut switches = Switches::default();
    let recorder = MetricsRecorder::new("test", &mut switches);
    let timer = TimerGuard::enqueue(&recorder);
    recorder.set_enabled(&mut switches, false);
    assert!(timer.complete(&switches).is_empty());
    let timer = TimerGuard::dequeue(&recorder);
    recorder.set_enabled(&mut switches, true);
    let updates = timer.complete(&switches);
    assert_eq!(total(&updates, names::MESSAGES_DEQUEUED), 1);
    assert_eq!(total(&updates, names::MESSAGES_ENQUEUED), 0);
    assert_eq!(updates.len(), 2);
}
