//! The names of the metrics.

use vstd::prelude::*;

verus! {

/// Counter: messages enqueued.
pub const MESSAGES_ENQUEUED: &'static str = "elasticq_messages_enqueued_total";

/// Counter: messages dequeued.
pub const MESSAGES_DEQUEUED: &'static str = "elasticq_messages_dequeued_total";

/// Counter: messages dropped because of a capacity limit.
pub const MESSAGES_DROPPED: &'static str = "elasticq_messages_dropped_total";

/// Gauge: messages in the queue.
pub const QUEUE_DEPTH: &'static str = "elasticq_queue_depth";

/// Gauge: capacity of the queue.
pub const QUEUE_CAPACITY: &'static str = "elasticq_queue_capacity";

/// Counter: resize operations.
pub const RESIZE_OPERATIONS: &'static str = "elasticq_resize_operations_total";

/// Histogram: time to enqueue a message, in seconds.
pub const ENQUEUE_LATENCY: &'static str = "elasticq_enqueue_latency_seconds";

/// Histogram: time to dequeue a message, in seconds.
pub const DEQUEUE_LATENCY: &'static str = "elasticq_dequeue_latency_seconds";

/// Counter: messages refused because the queue was full.
pub const BACKPRESSURE_EVENTS: &'static str = "elasticq_backpressure_events_total";

/// Gauge: the share of the capacity that is in use.
pub const QUEUE_UTILIZATION: &'static str = "elasticq_queue_utilization_ratio";

} // verus!
