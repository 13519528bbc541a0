//! Which metrics the operations on a buffer change.
//!
//! Nothing here talks to a metrics registry or to a clock: the operations say
//! what is to be recorded, and their caller hands it on.

pub mod names;

use crate::buffer::{BufferState, DynamicCircularBuffer};
use crate::error::{BufferError, BufferResult};
use vstd::prelude::*;
use vstd::string::*;

verus! {

/// What kind of metric a metric is.
#[derive(Clone, Copy, Debug, PartialEq, Eq)]
pub enum MetricKind {
    /// It only goes up.
    Counter,
    /// It shows a present value.
    Gauge,
    /// It collects observations.
    Histogram,
}

/// What a metric is measured in.
#[derive(Clone, Copy, Debug, PartialEq, Eq)]
pub enum MetricUnit {
    /// Plain numbers.
    Count,
    /// Seconds.
    Seconds,
}

/// The description of a metric.
#[derive(Clone, Copy, Debug, PartialEq, Eq)]
pub struct MetricDescription {
    /// The kind of the metric.
    pub kind: MetricKind,
    /// The name of the metric.
    pub metric: &'static str,
    /// The unit of the metric.
    pub unit: MetricUnit,
    /// What the metric shows.
    pub text: &'static str,
}

/// The descriptions of all metrics.
pub open spec fn all_descriptions() -> Seq<MetricDescription> {
    seq![
        MetricDescription {
            kind: MetricKind::Counter,
            metric: names::MESSAGES_ENQUEUED,
            unit: MetricUnit::Count,
            text: "Total number of messages successfully enqueued",
        },
        MetricDescription {
            kind: MetricKind::Counter,
            metric: names::MESSAGES_DEQUEUED,
            unit: MetricUnit::Count,
            text: "Total number of messages successfully dequeued",
        },
        MetricDescription {
            kind: MetricKind::Counter,
            metric: names::MESSAGES_DROPPED,
            unit: MetricUnit::Count,
            text: "Total number of messages dropped due to capacity limits",
        },
        MetricDescription {
            kind: MetricKind::Gauge,
            metric: names::QUEUE_DEPTH,
            unit: MetricUnit::Count,
            text: "Current number of messages in the queue",
        },
        MetricDescription {
            kind: MetricKind::Gauge,
            metric: names::QUEUE_CAPACITY,
            unit: MetricUnit::Count,
            text: "Current capacity of the queue",
        },
        MetricDescription {
            kind: MetricKind::Counter,
            metric: names::RESIZE_OPERATIONS,
            unit: MetricUnit::Count,
            text: "Total number of queue resize operations",
        },
        MetricDescription {
            kind: MetricKind::Histogram,
            metric: names::ENQUEUE_LATENCY,
            unit: MetricUnit::Seconds,
            text: "Time taken to enqueue a message",
        },
        MetricDescription {
            kind: MetricKind::Histogram,
            metric: names::DEQUEUE_LATENCY,
            unit: MetricUnit::Seconds,
            text: "Time taken to dequeue a message",
        },
        MetricDescription {
            kind: MetricKind::Counter,
            metric: names::BACKPRESSURE_EVENTS,
            unit: MetricUnit::Count,
            text: "Number of times enqueue was rejected due to full queue",
        },
        MetricDescription {
            kind: MetricKind::Gauge,
            metric: names::QUEUE_UTILIZATION,
            unit: MetricUnit::Count,
            text: "Queue utilization ratio (depth / capacity)",
        },
    ]
}

/// The descriptions of all metrics, for a registry.
pub fn descriptions() -> (r: Vec<MetricDescription>)
    ensures
        r@ == all_descriptions(),
{
    let r = vec![
        MetricDescription {
            kind: MetricKind::Counter,
            metric: names::MESSAGES_ENQUEUED,
            unit: MetricUnit::Count,
            text: "Total number of messages successfully enqueued",
        },
        MetricDescription {
            kind: MetricKind::Counter,
            metric: names::MESSAGES_DEQUEUED,
            unit: MetricUnit::Count,
            text: "Total number of messages successfully dequeued",
        },
        MetricDescription {
            kind: MetricKind::Counter,
            metric: names::MESSAGES_DROPPED,
            unit: MetricUnit::Count,
            text: "Total number of messages dropped due to capacity limits",
        },
        MetricDescription {
            kind: MetricKind::Gauge,
            metric: names::QUEUE_DEPTH,
            unit: MetricUnit::Count,
            text: "Current number of messages in the queue",
        },
        MetricDescription {
            kind: MetricKind::Gauge,
            metric: names::QUEUE_CAPACITY,
            unit: MetricUnit::Count,
            text: "Current capacity of the queue",
        },
        MetricDescription {
            kind: MetricKind::Counter,
            metric: names::RESIZE_OPERATIONS,
            unit: MetricUnit::Count,
            text: "Total number of queue resize operations",
        },
        MetricDescription {
            kind: MetricKind::Histogram,
            metric: names::ENQUEUE_LATENCY,
            unit: MetricUnit::Seconds,
            text: "Time taken to enqueue a message",
        },
        MetricDescription {
            kind: MetricKind::Histogram,
            metric: names::DEQUEUE_LATENCY,
            unit: MetricUnit::Seconds,
            text: "Time taken to dequeue a message",
        },
        MetricDescription {
            kind: MetricKind::Counter,
            metric: names::BACKPRESSURE_EVENTS,
            unit: MetricUnit::Count,
            text: "Number of times enqueue was rejected due to full queue",
        },
        MetricDescription {
            kind: MetricKind::Gauge,
            metric: names::QUEUE_UTILIZATION,
            unit: MetricUnit::Count,
            text: "Queue utilization ratio (depth / capacity)",
        },
    ];
    proof {
        assert(r@ =~= all_descriptions());
    }
    r
}

/// A change of a metric.
#[derive(Clone, Copy, Debug, PartialEq, Eq)]
pub enum Change {
    /// A counter goes up.
    Increment(u64),
    /// A gauge gets a value.
    SetTo(usize),
    /// A gauge gets the value of the first number divided by the second, which
    /// is not 0.
    SetRatio(usize, usize),
    /// A histogram gets the time since the operation began, divided by so many
    /// items.
    ObserveElapsedPer(usize),
}

/// A change of a metric of a queue.
#[derive(Clone, Copy, Debug, PartialEq, Eq)]
pub struct MetricUpdate {
    /// The name of the metric.
    pub metric: &'static str,
    /// The name of the queue, as a label.
    pub queue: &'static str,
    /// What happens to the metric.
    pub change: Change,
}

/// The switches of recorders. All recorders with the same switch are switched on
/// and off together, whichever of them it is done through.
pub struct Switches {
    on: Vec<bool>,
}

impl View for Switches {
    type V = Seq<bool>;

    closed spec fn view(&self) -> Seq<bool> {
        self.on@
    }
}

impl Switches {
    /// No switches.
    pub fn new() -> (r: Self)
        ensures
            r@ == Seq::<bool>::empty(),
    {
        Switches { on: Vec::new() }
    }
}

impl Default for Switches {
    fn default() -> (r: Self)
        ensures
            r@ == Seq::<bool>::empty(),
    {
        Switches::new()
    }
}

/// What is to be recorded for a queue, if anything. Whether anything is recorded
/// is a matter of the recorder's switch, which clones and wrapped buffers share.
pub struct MetricsRecorder {
    name: &'static str,
    switch: usize,
}

/// The name of a queue and the switch of its recorder.
pub struct RecorderId {
    /// The name of the queue.
    pub name: &'static str,
    /// The number of the switch.
    pub switch: int,
}

impl RecorderId {
    /// Whether the switch is one of the given ones.
    pub open spec fn of(self, switches: Seq<bool>) -> bool {
        0 <= self.switch < switches.len()
    }

    /// The recorder as the switches are.
    pub open spec fn at(self, switches: Seq<bool>) -> RecorderState {
        RecorderState { name: self.name, enabled: switches[self.switch] }
    }
}

/// The name of a queue and whether anything is recorded for it at the moment.
pub struct RecorderState {
    /// The name of the queue.
    pub name: &'static str,
    /// Whether anything is recorded.
    pub enabled: bool,
}

impl RecorderState {
    /// The changes of some metrics, in that order, if anything is recorded.
    pub open spec fn updates(self, changes: Seq<(&'static str, Change)>) -> Seq<MetricUpdate> {
        if self.enabled {
            Seq::new(
                changes.len(),
                |i: int|
                    MetricUpdate { metric: changes[i].0, queue: self.name, change: changes[i].1 },
            )
        } else {
            Seq::empty()
        }
    }

    /// What is recorded when some items were enqueued at once.
    pub open spec fn enqueued(self, count: usize) -> Seq<MetricUpdate> {
        self.updates(
            seq![
                (names::MESSAGES_ENQUEUED, Change::Increment(count as u64)),
                (names::ENQUEUE_LATENCY, Change::ObserveElapsedPer(count)),
            ],
        )
    }

    /// What is recorded when some items were dequeued at once.
    pub open spec fn dequeued(self, count: usize) -> Seq<MetricUpdate> {
        self.updates(
            seq![
                (names::MESSAGES_DEQUEUED, Change::Increment(count as u64)),
                (names::DEQUEUE_LATENCY, Change::ObserveElapsedPer(count)),
            ],
        )
    }

    /// What is recorded when a buffer refused items for want of room.
    pub open spec fn refused(self) -> Seq<MetricUpdate> {
        self.updates(seq![(names::BACKPRESSURE_EVENTS, Change::Increment(1))])
    }

    /// The share of the capacity that is in use; none of no capacity.
    pub open spec fn utilization(depth: usize, capacity: usize) -> Change {
        if capacity > 0 {
            Change::SetRatio(depth, capacity)
        } else {
            Change::SetRatio(0, 1)
        }
    }

    /// What the gauges are set to.
    pub open spec fn gauges(self, depth: usize, capacity: usize) -> Seq<MetricUpdate> {
        self.updates(
            seq![
                (names::QUEUE_DEPTH, Change::SetTo(depth)),
                (names::QUEUE_CAPACITY, Change::SetTo(capacity)),
                (names::QUEUE_UTILIZATION, RecorderState::utilization(depth, capacity)),
            ],
        )
    }

    /// What is recorded after a push of some items, given the buffer afterwards.
    pub open spec fn after_push<T>(
        self,
        accepted: bool,
        count: usize,
        after: BufferState<T>,
    ) -> Seq<MetricUpdate> {
        if accepted {
            self.enqueued(count) + self.gauges(after.items.len() as usize, after.capacity as usize)
        } else {
            self.refused()
        }
    }

    /// What is recorded after a pop of some items, given the buffer afterwards.
    pub open spec fn after_pop<T>(self, count: usize, after: BufferState<T>) -> Seq<MetricUpdate> {
        if count > 0 {
            self.dequeued(count) + self.gauges(after.items.len() as usize, after.capacity as usize)
        } else {
            Seq::empty()
        }
    }
}

impl View for MetricsRecorder {
    type V = RecorderId;

    closed spec fn view(&self) -> RecorderId {
        RecorderId { name: self.name, switch: self.switch as int }
    }
}

impl Clone for MetricsRecorder {
    fn clone(&self) -> (r: Self)
        ensures
            r@ == self@,
    {
        MetricsRecorder { name: self.name, switch: self.switch }
    }
}

impl MetricsRecorder {
    /// A recorder for a queue with a switch of its own, switched on.
    pub fn new(name: &'static str, switches: &mut Switches) -> (r: Self)
        ensures
            final(switches)@ == old(switches)@.push(true),
            r@ == (RecorderId { name, switch: old(switches)@.len() as int }),
            r@.of(final(switches)@),
    {
        let switch: usize = switches.on.len();
        switches.on.push(true);
        MetricsRecorder { name, switch }
    }

    /// Switches recording on or off, for all recorders with the same switch.
    pub fn set_enabled(&self, switches: &mut Switches, enabled: bool)
        requires
            self@.of(old(switches)@),
        ensures
            final(switches)@ == old(switches)@.update(self@.switch, enabled),
    {
        switches.on.set(self.switch, enabled);
    }

    /// Whether anything is recorded.
    pub fn is_enabled(&self, switches: &Switches) -> (r: bool)
        requires
            self@.of(switches@),
        ensures
            r == self@.at(switches@).enabled,
    {
        switches.on[self.switch]
    }

    /// The name of the queue.
    pub fn name(&self) -> (r: &'static str)
        ensures
            r == self@.name,
    {
        self.name
    }

    /// Adds the change of a metric, if anything is recorded.
    fn note(&self, switches: &Switches, updates: &mut Vec<MetricUpdate>, metric: &'static str, change: Change)
        requires
            self@.of(switches@),
        ensures
            final(updates)@ == old(updates)@ + self@.at(switches@).updates(seq![(metric, change)]),
    {
        let ghost changes = seq![(metric, change)];
        if self.is_enabled(switches) {
            updates.push(MetricUpdate { metric, queue: self.name, change });
            proof {
                assert(updates@ =~= old(updates)@ + self@.at(switches@).updates(changes));
            }
        } else {
            proof {
                assert(updates@ =~= old(updates)@ + self@.at(switches@).updates(changes));
            }
        }
    }

    /// What is recorded when an item was enqueued.
    pub fn record_enqueue(&self, switches: &Switches) -> (r: Vec<MetricUpdate>)
        requires
            self@.of(switches@),
        ensures
            r@ == self@.at(switches@).enqueued(1),
    {
        self.record_batch_enqueue(switches, 1)
    }

    /// What is recorded when an item was dequeued.
    pub fn record_dequeue(&self, switches: &Switches) -> (r: Vec<MetricUpdate>)
        requires
            self@.of(switches@),
        ensures
            r@ == self@.at(switches@).dequeued(1),
    {
        self.record_batch_dequeue(switches, 1)
    }

    /// What is recorded when a message was dropped.
    pub fn record_dropped(&self, switches: &Switches) -> (r: Vec<MetricUpdate>)
        requires
            self@.of(switches@),
        ensures
            r@ == self@.at(switches@).updates(seq![(names::MESSAGES_DROPPED, Change::Increment(1))]),
    {
        let mut r: Vec<MetricUpdate> = Vec::new();
        self.note(switches, &mut r, names::MESSAGES_DROPPED, Change::Increment(1));
        r
    }

    /// What is recorded when a message was refused because the queue was full.
    pub fn record_backpressure(&self, switches: &Switches) -> (r: Vec<MetricUpdate>)
        requires
            self@.of(switches@),
        ensures
            r@ == self@.at(switches@).refused(),
    {
        let mut r: Vec<MetricUpdate> = Vec::new();
        self.note(switches, &mut r, names::BACKPRESSURE_EVENTS, Change::Increment(1));
        r
    }

    /// What is recorded when the queue was resized.
    pub fn record_resize(&self, switches: &Switches) -> (r: Vec<MetricUpdate>)
        requires
            self@.of(switches@),
        ensures
            r@ == self@.at(switches@).updates(seq![(names::RESIZE_OPERATIONS, Change::Increment(1))]),
    {
        let mut r: Vec<MetricUpdate> = Vec::new();
        self.note(switches, &mut r, names::RESIZE_OPERATIONS, Change::Increment(1));
        r
    }

    /// What is recorded when the queue holds so many messages.
    pub fn set_queue_depth(&self, switches: &Switches, depth: usize) -> (r: Vec<MetricUpdate>)
        requires
            self@.of(switches@),
        ensures
            r@ == self@.at(switches@).updates(seq![(names::QUEUE_DEPTH, Change::SetTo(depth))]),
    {
        let mut r: Vec<MetricUpdate> = Vec::new();
        self.note(switches, &mut r, names::QUEUE_DEPTH, Change::SetTo(depth));
        r
    }

    /// What is recorded when the queue has the given capacity.
    pub fn set_queue_capacity(&self, switches: &Switches, capacity: usize) -> (r: Vec<MetricUpdate>)
        requires
            self@.of(switches@),
        ensures
            r@ == self@.at(switches@).updates(seq![(names::QUEUE_CAPACITY, Change::SetTo(capacity))]),
    {
        let mut r: Vec<MetricUpdate> = Vec::new();
        self.note(switches, &mut r, names::QUEUE_CAPACITY, Change::SetTo(capacity));
        r
    }

    /// What is recorded when so much of the capacity is in use.
    pub fn set_utilization(&self, switches: &Switches, depth: usize, capacity: usize) -> (r: Vec<MetricUpdate>)
        requires
            self@.of(switches@),
        ensures
            r@ == self@.at(switches@).updates(
                seq![(names::QUEUE_UTILIZATION, RecorderState::utilization(depth, capacity))],
            ),
    {
        let mut r: Vec<MetricUpdate> = Vec::new();
        let change = if capacity > 0 {
            Change::SetRatio(depth, capacity)
        } else {
            Change::SetRatio(0, 1)
        };
        self.note(switches, &mut r, names::QUEUE_UTILIZATION, change);
        r
    }

    /// What is recorded when some items were enqueued at once.
    pub fn record_batch_enqueue(&self, switches: &Switches, count: usize) -> (r: Vec<MetricUpdate>)
        requires
            self@.of(switches@),
        ensures
            r@ == self@.at(switches@).enqueued(count),
    {
        let mut r: Vec<MetricUpdate> = Vec::new();
        self.note(switches, &mut r, names::MESSAGES_ENQUEUED, Change::Increment(count as u64));
        self.note(switches, &mut r, names::ENQUEUE_LATENCY, Change::ObserveElapsedPer(count));
        proof {
            assert(r@ =~= self@.at(switches@).enqueued(count));
        }
        r
    }

    /// What is recorded when some items were dequeued at once.
    pub fn record_batch_dequeue(&self, switches: &Switches, count: usize) -> (r: Vec<MetricUpdate>)
        requires
            self@.of(switches@),
        ensures
            r@ == self@.at(switches@).dequeued(count),
    {
        let mut r: Vec<MetricUpdate> = Vec::new();
        self.note(switches, &mut r, names::MESSAGES_DEQUEUED, Change::Increment(count as u64));
        self.note(switches, &mut r, names::DEQUEUE_LATENCY, Change::ObserveElapsedPer(count));
        proof {
            assert(r@ =~= self@.at(switches@).dequeued(count));
        }
        r
    }

    /// What the gauges of a buffer are set to.
    fn update_gauges<T>(&self, switches: &Switches, buffer: &DynamicCircularBuffer<T>) -> (r: Vec<MetricUpdate>)
        requires
            self@.of(switches@),
        ensures
            r@ == self@.at(switches@).gauges(buffer@.items.len() as usize, buffer@.capacity as usize),
    {
        let depth: usize = buffer.len();
        let capacity: usize = buffer.capacity();
        let mut r: Vec<MetricUpdate> = self.set_queue_depth(switches, depth);
        let mut of_capacity: Vec<MetricUpdate> = self.set_queue_capacity(switches, capacity);
        let mut of_utilization: Vec<MetricUpdate> = self.set_utilization(switches, depth, capacity);
        r.append(&mut of_capacity);
        r.append(&mut of_utilization);
        proof {
            assert(r@ =~= self@.at(switches@).gauges(depth, capacity));
        }
        r
    }

    /// A buffer whose operations are recorded.
    pub fn wrap<T>(&self, buffer: DynamicCircularBuffer<T>) -> (r: InstrumentedBuffer<T>)
        requires
            buffer.wf(),
        ensures
            r.wf(),
            r@ == (InstrumentedState {
                buffer: buffer@,
                recorder: self@,
                updates: Seq::<MetricUpdate>::empty(),
            }),
    {
        InstrumentedBuffer { buffer, recorder: self.clone(), updates: Vec::new() }
    }

    /// A borrowed buffer whose operations are recorded.
    pub fn wrap_arc<'a, T>(&self, buffer: &'a mut DynamicCircularBuffer<T>) -> (r:
        InstrumentedBufferRef<'a, T>)
        requires
            old(buffer).wf(),
        ensures
            r.wf(),
            r@ == (InstrumentedState {
                buffer: old(buffer)@,
                recorder: self@,
                updates: Seq::<MetricUpdate>::empty(),
            }),
            *final(r.buffer) == *final(buffer),
    {
        InstrumentedBufferRef { buffer, recorder: self.clone(), updates: Vec::new() }
    }
}

/// A buffer, its recorder, and what is still to be recorded.
#[verifier::ext_equal]
pub struct InstrumentedState<T> {
    /// The buffer.
    pub buffer: BufferState<T>,
    /// The recorder.
    pub recorder: RecorderId,
    /// What is still to be recorded.
    pub updates: Seq<MetricUpdate>,
}

/// A buffer whose operations are recorded.
pub struct InstrumentedBuffer<T> {
    buffer: DynamicCircularBuffer<T>,
    recorder: MetricsRecorder,
    updates: Vec<MetricUpdate>,
}

impl<T> View for InstrumentedBuffer<T> {
    type V = InstrumentedState<T>;

    closed spec fn view(&self) -> InstrumentedState<T> {
        InstrumentedState {
            buffer: self.buffer@,
            recorder: self.recorder@,
            updates: self.updates@,
        }
    }
}

/// Pushes an item and returns what is to be recorded.
fn push_recorded<T>(
    buffer: &mut DynamicCircularBuffer<T>,
    recorder: &MetricsRecorder,
    switches: &Switches,
    item: T,
) -> (r: (BufferResult<()>, Vec<MetricUpdate>))
    requires
        old(buffer).wf(),
        recorder@.of(switches@),
    ensures
        final(buffer).wf(),
        match r.0 {
            Ok(()) => old(buffer)@.accepts(1) && final(buffer)@ == old(buffer)@.extended(
                seq![item],
            ),
            Err(e) => !old(buffer)@.accepts(1) && final(buffer)@ == old(buffer)@ && e
                == BufferError::MaxCapacityReached(old(buffer)@.config.max_capacity),
        },
        r.1@ == recorder@.at(switches@).after_push(old(buffer)@.accepts(1), 1, final(buffer)@),
{
    let result = buffer.push(item);
    let updates = match &result {
        Ok(()) => {
            let mut r: Vec<MetricUpdate> = recorder.record_enqueue(switches);
            let mut gauges: Vec<MetricUpdate> = recorder.update_gauges(switches, buffer);
            r.append(&mut gauges);
            r
        },
        Err(e) => refusal_recorded(recorder, switches, e),
    };
    (result, updates)
}

/// What is to be recorded when a push failed.
fn refusal_recorded(
    recorder: &MetricsRecorder,
    switches: &Switches,
    error: &BufferError,
) -> (r: Vec<MetricUpdate>)
    requires
        recorder@.of(switches@),
    ensures
        r@ == if error.capacity_error() {
            recorder@.at(switches@).refused()
        } else {
            Seq::<MetricUpdate>::empty()
        },
{
    if error.is_capacity_error() {
        recorder.record_backpressure(switches)
    } else {
        Vec::new()
    }
}

/// Pops an item and returns what is to be recorded.
fn pop_recorded<T>(
    buffer: &mut DynamicCircularBuffer<T>,
    recorder: &MetricsRecorder,
    switches: &Switches,
) -> (r: (BufferResult<T>, Vec<MetricUpdate>))
    requires
        old(buffer).wf(),
        recorder@.of(switches@),
    ensures
        final(buffer).wf(),
        match r.0 {
            Ok(item) => {
                &&& old(buffer)@.items.len() > 0
                &&& item == old(buffer)@.items[0]
                &&& final(buffer)@ == old(buffer)@.without_oldest(1)
                &&& r.1@ == recorder@.at(switches@).after_pop(1, final(buffer)@)
            },
            Err(e) => {
                &&& old(buffer)@.items.len() == 0
                &&& final(buffer)@ == old(buffer)@
                &&& e == BufferError::Empty
                &&& r.1@ == Seq::<MetricUpdate>::empty()
            },
        },
{
    let result = buffer.pop();
    let updates = match &result {
        Ok(_) => {
            let mut r: Vec<MetricUpdate> = recorder.record_dequeue(switches);
            let mut gauges: Vec<MetricUpdate> = recorder.update_gauges(switches, buffer);
            r.append(&mut gauges);
            r
        },
        Err(_) => Vec::new(),
    };
    (result, updates)
}

/// Pushes several items and returns what is to be recorded.
fn push_batch_recorded<T>(
    buffer: &mut DynamicCircularBuffer<T>,
    recorder: &MetricsRecorder,
    switches: &Switches,
    items: Vec<T>,
) -> (r: (BufferResult<()>, Vec<MetricUpdate>))
    requires
        old(buffer).wf(),
        recorder@.of(switches@),
    ensures
        final(buffer).wf(),
        match r.0 {
            Ok(()) => old(buffer)@.accepts(items@.len()) && final(buffer)@ == old(
                buffer,
            )@.extended(items@),
            Err(e) => !old(buffer)@.accepts(items@.len()) && final(buffer)@ == old(buffer)@ && e
                == BufferError::MaxCapacityReached(old(buffer)@.config.max_capacity),
        },
        r.1@ == recorder@.at(switches@).after_push(
            old(buffer)@.accepts(items@.len()),
            items@.len() as usize,
            final(buffer)@,
        ),
{
    let count: usize = items.len();
    let result = buffer.push_batch(items);
    let updates = match &result {
        Ok(()) => {
            let mut r: Vec<MetricUpdate> = recorder.record_batch_enqueue(switches, count);
            let mut gauges: Vec<MetricUpdate> = recorder.update_gauges(switches, buffer);
            r.append(&mut gauges);
            r
        },
        Err(e) => refusal_recorded(recorder, switches, e),
    };
    (result, updates)
}

/// Pops several items and returns what is to be recorded.
fn pop_batch_recorded<T>(
    buffer: &mut DynamicCircularBuffer<T>,
    recorder: &MetricsRecorder,
    switches: &Switches,
    max_items: usize,
) -> (r: (BufferResult<Vec<T>>, Vec<MetricUpdate>))
    requires
        old(buffer).wf(),
        recorder@.of(switches@),
    ensures
        final(buffer).wf(),
        r.0 matches Ok(taken) && {
            let n = batch_size(old(buffer)@, max_items);
            &&& taken@ == old(buffer)@.items.take(n as int)
            &&& final(buffer)@ == if n == 0 {
                old(buffer)@
            } else {
                old(buffer)@.without_oldest(n)
            }
            &&& r.1@ == recorder@.at(switches@).after_pop(n as usize, final(buffer)@)
        },
{
    let result = buffer.pop_batch(max_items);
    proof {
        assert(old(buffer)@.items.take(0) =~= Seq::<T>::empty());
    }
    let updates = match &result {
        Ok(items) => {
            if items.len() > 0 {
                let mut r: Vec<MetricUpdate> = recorder.record_batch_dequeue(switches, items.len());
                let mut gauges: Vec<MetricUpdate> = recorder.update_gauges(switches, buffer);
                r.append(&mut gauges);
                r
            } else {
                Vec::new()
            }
        },
        Err(_) => Vec::new(),
    };
    (result, updates)
}

/// How many items a pop of up to `max_items` takes.
pub open spec fn batch_size<T>(s: BufferState<T>, max_items: usize) -> nat {
    if max_items <= s.items.len() {
        max_items as nat
    } else {
        s.items.len()
    }
}

impl<T> InstrumentedBuffer<T> {
    /// The invariant of the buffer.
    pub open spec fn wf(&self) -> bool {
        self@.buffer.wf()
    }

    /// Adds an item at the back.
    pub fn push(&mut self, switches: &Switches, item: T) -> (r: BufferResult<()>)
        requires
            old(self).wf(),
            old(self)@.recorder.of(switches@),
        ensures
            final(self).wf(),
            match r {
                Ok(()) => old(self)@.buffer.accepts(1) && final(self)@.buffer == old(
                    self,
                )@.buffer.extended(seq![item]),
                Err(e) => !old(self)@.buffer.accepts(1) && final(self)@.buffer == old(
                    self,
                )@.buffer && e == BufferError::MaxCapacityReached(
                    old(self)@.buffer.config.max_capacity,
                ),
            },
            final(self)@.recorder == old(self)@.recorder,
            final(self)@.updates == old(self)@.updates + old(self)@.recorder.at(switches@).after_push(
                old(self)@.buffer.accepts(1),
                1,
                final(self)@.buffer,
            ),
    {
        let (result, mut updates) = push_recorded(&mut self.buffer, &self.recorder, switches, item);
        self.updates.append(&mut updates);
        result
    }

    /// Takes the oldest item.
    pub fn pop(&mut self, switches: &Switches) -> (r: BufferResult<T>)
        requires
            old(self).wf(),
            old(self)@.recorder.of(switches@),
        ensures
            final(self).wf(),
            match r {
                Ok(item) => {
                    &&& old(self)@.buffer.items.len() > 0
                    &&& item == old(self)@.buffer.items[0]
                    &&& final(self)@.buffer == old(self)@.buffer.without_oldest(1)
                    &&& final(self)@.updates == old(self)@.updates + old(
                        self,
                    )@.recorder.at(switches@).after_pop(1, final(self)@.buffer)
                },
                Err(e) => {
                    &&& old(self)@.buffer.items.len() == 0
                    &&& final(self)@ == old(self)@
                    &&& e == BufferError::Empty
                },
            },
            final(self)@.recorder == old(self)@.recorder,
    {
        let (result, mut updates) = pop_recorded(&mut self.buffer, &self.recorder, switches);
        self.updates.append(&mut updates);
        proof {
            assert(old(self)@.updates + Seq::<MetricUpdate>::empty() =~= old(self)@.updates);
        }
        result
    }

    /// Adds several items at the back, all of them or none.
    pub fn push_batch(&mut self, switches: &Switches, items: Vec<T>) -> (r: BufferResult<()>)
        requires
            old(self).wf(),
            old(self)@.recorder.of(switches@),
        ensures
            final(self).wf(),
            match r {
                Ok(()) => old(self)@.buffer.accepts(items@.len()) && final(self)@.buffer == old(
                    self,
                )@.buffer.extended(items@),
                Err(e) => !old(self)@.buffer.accepts(items@.len()) && final(self)@.buffer == old(
                    self,
                )@.buffer && e == BufferError::MaxCapacityReached(
                    old(self)@.buffer.config.max_capacity,
                ),
            },
            final(self)@.recorder == old(self)@.recorder,
            final(self)@.updates == old(self)@.updates + old(self)@.recorder.at(switches@).after_push(
                old(self)@.buffer.accepts(items@.len()),
                items@.len() as usize,
                final(self)@.buffer,
            ),
    {
        let (result, mut updates) = push_batch_recorded(&mut self.buffer, &self.recorder, switches, items);
        self.updates.append(&mut updates);
        result
    }

    /// Takes up to `max_items` of the oldest items.
    pub fn pop_batch(&mut self, switches: &Switches, max_items: usize) -> (r: BufferResult<Vec<T>>)
        requires
            old(self).wf(),
            old(self)@.recorder.of(switches@),
        ensures
            final(self).wf(),
            r matches Ok(taken) && {
                let n = batch_size(old(self)@.buffer, max_items);
                &&& taken@ == old(self)@.buffer.items.take(n as int)
                &&& final(self)@.buffer == if n == 0 {
                    old(self)@.buffer
                } else {
                    old(self)@.buffer.without_oldest(n)
                }
                &&& final(self)@.updates == old(self)@.updates + old(self)@.recorder.at(switches@).after_pop(
                    n as usize,
                    final(self)@.buffer,
                )
            },
            final(self)@.recorder == old(self)@.recorder,
    {
        let (result, mut updates) = pop_batch_recorded(
            &mut self.buffer,
            &self.recorder,
            switches,
            max_items,
        );
        self.updates.append(&mut updates);
        result
    }

    /// Hands over what is to be recorded.
    pub fn take_updates(&mut self) -> (r: Vec<MetricUpdate>)
        requires
            old(self).wf(),
        ensures
            final(self).wf(),
            r@ == old(self)@.updates,
            final(self)@ == (InstrumentedState {
                updates: Seq::<MetricUpdate>::empty(),
                ..old(self)@
            }),
    {
        let mut r: Vec<MetricUpdate> = Vec::new();
        r.append(&mut self.updates);
        proof {
            assert(r@ =~= old(self)@.updates);
        }
        r
    }

    /// The number of items.
    pub fn len(&self) -> (r: usize)
        ensures
            r == self@.buffer.items.len(),
    {
        self.buffer.len()
    }

    /// Whether there is no item.
    pub fn is_empty(&self) -> (r: bool)
        ensures
            r == (self@.buffer.items.len() == 0),
    {
        self.buffer.is_empty()
    }

    /// The current capacity.
    pub fn capacity(&self) -> (r: usize)
        ensures
            r == self@.buffer.capacity,
    {
        self.buffer.capacity()
    }

    /// The buffer itself.
    pub fn inner(&self) -> (r: &DynamicCircularBuffer<T>)
        ensures
            r@ == self@.buffer,
    {
        &self.buffer
    }

    /// The recorder.
    pub fn recorder(&self) -> (r: &MetricsRecorder)
        ensures
            r@ == self@.recorder,
    {
        &self.recorder
    }
}

/// A borrowed buffer whose operations are recorded.
pub struct InstrumentedBufferRef<'a, T> {
    /// The buffer.
    pub buffer: &'a mut DynamicCircularBuffer<T>,
    /// The recorder.
    pub recorder: MetricsRecorder,
    /// What is still to be recorded.
    pub updates: Vec<MetricUpdate>,
}

impl<'a, T> View for InstrumentedBufferRef<'a, T> {
    type V = InstrumentedState<T>;

    open spec fn view(&self) -> InstrumentedState<T> {
        InstrumentedState {
            buffer: (*self.buffer)@,
            recorder: self.recorder@,
            updates: self.updates@,
        }
    }
}

impl<'a, T> InstrumentedBufferRef<'a, T> {
    /// The invariant of the buffer.
    pub open spec fn wf(&self) -> bool {
        self@.buffer.wf()
    }

    /// Adds an item at the back.
    pub fn push(&mut self, switches: &Switches, item: T) -> (r: BufferResult<()>)
        requires
            old(self).wf(),
            old(self)@.recorder.of(switches@),
        ensures
            final(self).wf(),
            *final(final(self).buffer) == *final(old(self).buffer),
            match r {
                Ok(()) => old(self)@.buffer.accepts(1) && final(self)@.buffer == old(
                    self,
                )@.buffer.extended(seq![item]),
                Err(e) => !old(self)@.buffer.accepts(1) && final(self)@.buffer == old(
                    self,
                )@.buffer && e == BufferError::MaxCapacityReached(
                    old(self)@.buffer.config.max_capacity,
                ),
            },
            final(self)@.recorder == old(self)@.recorder,
            final(self)@.updates == old(self)@.updates + old(self)@.recorder.at(switches@).after_push(
                old(self)@.buffer.accepts(1),
                1,
                final(self)@.buffer,
            ),
    {
        let (result, mut updates) = push_recorded(self.buffer, &self.recorder, switches, item);
        self.updates.append(&mut updates);
        result
    }

    /// Takes the oldest item.
    pub fn pop(&mut self, switches: &Switches) -> (r: BufferResult<T>)
        requires
            old(self).wf(),
            old(self)@.recorder.of(switches@),
        ensures
            final(self).wf(),
            *final(final(self).buffer) == *final(old(self).buffer),
            match r {
                Ok(item) => {
                    &&& old(self)@.buffer.items.len() > 0
                    &&& item == old(self)@.buffer.items[0]
                    &&& final(self)@.buffer == old(self)@.buffer.without_oldest(1)
                    &&& final(self)@.updates == old(self)@.updates + old(
                        self,
                    )@.recorder.at(switches@).after_pop(1, final(self)@.buffer)
                },
                Err(e) => {
                    &&& old(self)@.buffer.items.len() == 0
                    &&& final(self)@ == old(self)@
                    &&& e == BufferError::Empty
                },
            },
            final(self)@.recorder == old(self)@.recorder,
    {
        let (result, mut updates) = pop_recorded(self.buffer, &self.recorder, switches);
        self.updates.append(&mut updates);
        proof {
            assert(old(self)@.updates + Seq::<MetricUpdate>::empty() =~= old(self)@.updates);
        }
        result
    }

    /// Adds several items at the back, all of them or none.
    pub fn push_batch(&mut self, switches: &Switches, items: Vec<T>) -> (r: BufferResult<()>)
        requires
            old(self).wf(),
            old(self)@.recorder.of(switches@),
        ensures
            final(self).wf(),
            *final(final(self).buffer) == *final(old(self).buffer),
            match r {
                Ok(()) => old(self)@.buffer.accepts(items@.len()) && final(self)@.buffer == old(
                    self,
                )@.buffer.extended(items@),
                Err(e) => !old(self)@.buffer.accepts(items@.len()) && final(self)@.buffer == old(
                    self,
                )@.buffer && e == BufferError::MaxCapacityReached(
                    old(self)@.buffer.config.max_capacity,
                ),
            },
            final(self)@.recorder == old(self)@.recorder,
            final(self)@.updates == old(self)@.updates + old(self)@.recorder.at(switches@).after_push(
                old(self)@.buffer.accepts(items@.len()),
                items@.len() as usize,
                final(self)@.buffer,
            ),
    {
        let (result, mut updates) = push_batch_recorded(self.buffer, &self.recorder, switches, items);
        self.updates.append(&mut updates);
        result
    }

    /// Takes up to `max_items` of the oldest items.
    pub fn pop_batch(&mut self, switches: &Switches, max_items: usize) -> (r: BufferResult<Vec<T>>)
        requires
            old(self).wf(),
            old(self)@.recorder.of(switches@),
        ensures
            final(self).wf(),
            *final(final(self).buffer) == *final(old(self).buffer),
            r matches Ok(taken) && {
                let n = batch_size(old(self)@.buffer, max_items);
                &&& taken@ == old(self)@.buffer.items.take(n as int)
                &&& final(self)@.buffer == if n == 0 {
                    old(self)@.buffer
                } else {
                    old(self)@.buffer.without_oldest(n)
                }
                &&& final(self)@.updates == old(self)@.updates + old(self)@.recorder.at(switches@).after_pop(
                    n as usize,
                    final(self)@.buffer,
                )
            },
            final(self)@.recorder == old(self)@.recorder,
    {
        let (result, mut updates) = pop_batch_recorded(
            self.buffer,
            &self.recorder,
            switches,
            max_items,
        );
        self.updates.append(&mut updates);
        result
    }

    /// Hands over what is to be recorded.
    pub fn take_updates(&mut self) -> (r: Vec<MetricUpdate>)
        requires
            old(self).wf(),
        ensures
            final(self).wf(),
            *final(final(self).buffer) == *final(old(self).buffer),
            r@ == old(self)@.updates,
            final(self)@ == (InstrumentedState {
                updates: Seq::<MetricUpdate>::empty(),
                ..old(self)@
            }),
    {
        let mut r: Vec<MetricUpdate> = Vec::new();
        r.append(&mut self.updates);
        proof {
            assert(r@ =~= old(self)@.updates);
        }
        r
    }

    /// The number of items.
    pub fn len(&self) -> (r: usize)
        ensures
            r == self@.buffer.items.len(),
    {
        self.buffer.len()
    }

    /// Whether there is no item.
    pub fn is_empty(&self) -> (r: bool)
        ensures
            r == (self@.buffer.items.len() == 0),
    {
        self.buffer.is_empty()
    }

    /// The current capacity.
    pub fn capacity(&self) -> (r: usize)
        ensures
            r == self@.buffer.capacity,
    {
        self.buffer.capacity()
    }

    /// The buffer itself.
    pub fn inner(&self) -> (r: &DynamicCircularBuffer<T>)
        ensures
            r@ == self@.buffer,
    {
        &*self.buffer
    }

    /// The recorder.
    pub fn recorder(&self) -> (r: &MetricsRecorder)
        ensures
            r@ == self@.recorder,
    {
        &self.recorder
    }
}

/// What a timer times.
#[derive(Clone, Copy, Debug, PartialEq, Eq)]
pub enum TimerOperation {
    /// The enqueueing of an item.
    Enqueue,
    /// The dequeueing of an item.
    Dequeue,
}

impl TimerOperation {
    /// What is recorded of the operation.
    pub open spec fn recorded(self, recorder: RecorderState) -> Seq<MetricUpdate> {
        match self {
            TimerOperation::Enqueue => recorder.enqueued(1),
            TimerOperation::Dequeue => recorder.dequeued(1),
        }
    }
}

/// A timed operation that is recorded when it is complete.
pub struct TimerGuard<'a> {
    recorder: &'a MetricsRecorder,
    operation: TimerOperation,
}

impl<'a> TimerGuard<'a> {
    /// The recorder.
    pub closed spec fn recorder(&self) -> RecorderId {
        self.recorder@
    }

    /// What is timed.
    pub closed spec fn operation(&self) -> TimerOperation {
        self.operation
    }

    /// A timer for the enqueueing of an item.
    pub fn enqueue(recorder: &'a MetricsRecorder) -> (r: Self)
        ensures
            r.recorder() == recorder@,
            r.operation() == TimerOperation::Enqueue,
    {
        TimerGuard { recorder, operation: TimerOperation::Enqueue }
    }

    /// A timer for the dequeueing of an item.
    pub fn dequeue(recorder: &'a MetricsRecorder) -> (r: Self)
        ensures
            r.recorder() == recorder@,
            r.operation() == TimerOperation::Dequeue,
    {
        TimerGuard { recorder, operation: TimerOperation::Dequeue }
    }

    /// Ends the timer and returns what is to be recorded. The switch counts as it
    /// is at the end, whatever it was when the timer was made.
    pub fn complete(self, switches: &Switches) -> (r: Vec<MetricUpdate>)
        requires
            self.recorder().of(switches@),
        ensures
            r@ == self.operation().recorded(self.recorder().at(switches@)),
    {
        match self.operation {
            TimerOperation::Enqueue => self.recorder.record_enqueue(switches),
            TimerOperation::Dequeue => self.recorder.record_dequeue(switches),
        }
    }

    /// Ends the timer without anything to be recorded.
    pub fn cancel(self) -> (r: Vec<MetricUpdate>)
        ensures
            r@ == Seq::<MetricUpdate>::empty(),
    {
        Vec::new()
    }
}

} // verus!
