//! What holds of the metrics that are recorded.

use crate::buffer::BufferState;
use crate::buffer_laws;
use crate::buffer_laws::Operation;
use crate::metrics;
use crate::metrics::names;
use crate::metrics::{
    Change, MetricKind, MetricUpdate, RecorderId, RecorderState, TimerOperation,
};
use vstd::prelude::*;

verus! {

/// A switch is shared: after it was set through one recorder, every recorder with
/// that switch, clones and those of wrapped buffers among them, shows the new
/// value, and every other recorder what it showed before. Names stay.
pub proof fn law_switch_is_shared(
    recorder: RecorderId,
    other: RecorderId,
    switches: Seq<bool>,
    enabled: bool,
)
    requires
        recorder.of(switches),
        other.of(switches),
    ensures
        ({
            let after = switches.update(recorder.switch, enabled);
            &&& recorder.of(after)
            &&& other.of(after)
            &&& recorder.at(after).enabled == enabled
            &&& other.switch == recorder.switch ==> other.at(after).enabled == enabled
            &&& other.switch != recorder.switch ==> other.at(after) == other.at(switches)
            &&& other.at(after).name == other.name
        }),
{
}

/// A new recorder has a switch of its own: making it, and setting its switch,
/// leaves every recorder as it was that was there before.
pub proof fn law_new_recorder_is_independent(
    other: RecorderId,
    recorder: RecorderId,
    switches: Seq<bool>,
    enabled: bool,
)
    requires
        other.of(switches),
        recorder.switch == switches.len(),
    ensures
        recorder.at(switches.push(true)).enabled,
        other.at(switches.push(true)) == other.at(switches),
        other.at(switches.push(true).update(recorder.switch, enabled)) == other.at(switches),
{
}

/// What a timer records depends on its switch at the end alone: one message and
/// one time if the switch is on then, nothing if it is off then, whatever it was
/// before. A timer of one kind never touches the counter of the other.
pub proof fn law_timer_goes_by_the_switch_at_its_end(
    recorder: RecorderId,
    at_end: Seq<bool>,
)
    requires
        recorder.of(at_end),
    ensures
        ({
            let enqueued = TimerOperation::Enqueue.recorded(recorder.at(at_end));
            let dequeued = TimerOperation::Dequeue.recorded(recorder.at(at_end));
            &&& at_end[recorder.switch] ==> enqueued == seq![
                MetricUpdate {
                    metric: names::MESSAGES_ENQUEUED,
                    queue: recorder.name,
                    change: Change::Increment(1),
                },
                MetricUpdate {
                    metric: names::ENQUEUE_LATENCY,
                    queue: recorder.name,
                    change: Change::ObserveElapsedPer(1),
                },
            ]
            &&& at_end[recorder.switch] ==> dequeued == seq![
                MetricUpdate {
                    metric: names::MESSAGES_DEQUEUED,
                    queue: recorder.name,
                    change: Change::Increment(1),
                },
                MetricUpdate {
                    metric: names::DEQUEUE_LATENCY,
                    queue: recorder.name,
                    change: Change::ObserveElapsedPer(1),
                },
            ]
            &&& !at_end[recorder.switch] ==> enqueued.len() == 0 && dequeued.len() == 0
            &&& total(enqueued, names::MESSAGES_DEQUEUED) == 0
            &&& total(dequeued, names::MESSAGES_ENQUEUED) == 0
        }),
{
    lemma_names_differ();
    reveal_with_fuel(total, 3);
}

/// A recorder that is switched off records nothing, whatever happens.
pub proof fn law_nothing_is_recorded_when_off<T>(
    recorder: RecorderState,
    accepted: bool,
    count: usize,
    after: BufferState<T>,
)
    requires
        !recorder.enabled,
    ensures
        recorder.after_push(accepted, count, after) == Seq::<MetricUpdate>::empty(),
        recorder.after_pop(count, after) == Seq::<MetricUpdate>::empty(),
{
    assert(recorder.after_push(accepted, count, after) =~= Seq::<MetricUpdate>::empty());
    assert(recorder.after_pop(count, after) =~= Seq::<MetricUpdate>::empty());
}

/// After a push or a pop of items the gauges show the buffer as it is.
pub proof fn law_gauges_show_the_buffer<T>(
    recorder: RecorderState,
    count: usize,
    after: BufferState<T>,
)
    requires
        recorder.enabled,
        count > 0,
        after.items.len() <= usize::MAX,
        after.capacity <= usize::MAX,
    ensures
        ({
            let pushed = recorder.after_push(true, count, after);
            let popped = recorder.after_pop(count, after);
            let depth = MetricUpdate {
                metric: names::QUEUE_DEPTH,
                queue: recorder.name,
                change: Change::SetTo(after.items.len() as usize),
            };
            let capacity = MetricUpdate {
                metric: names::QUEUE_CAPACITY,
                queue: recorder.name,
                change: Change::SetTo(after.capacity as usize),
            };
            &&& pushed.len() == popped.len() == 5
            &&& pushed[2] == depth
            &&& popped[2] == depth
            &&& pushed[3] == capacity
            &&& popped[3] == capacity
        }),
{
}

/// Whether a change fits the description of its metric: counters go up, gauges
/// get values, histograms get observations.
pub open spec fn described(update: MetricUpdate) -> bool {
    exists|i: int|
        0 <= i < metrics::all_descriptions().len() && (
        #[trigger] metrics::all_descriptions()[i]).metric == update.metric
            && metrics::all_descriptions()[i].kind == match update.change {
            Change::Increment(_) => MetricKind::Counter,
            Change::SetTo(_) => MetricKind::Gauge,
            Change::SetRatio(_, _) => MetricKind::Gauge,
            Change::ObserveElapsedPer(_) => MetricKind::Histogram,
        }
}

/// Everything that is recorded of pushes and pops is described, and is a change
/// that fits its metric.
pub proof fn law_recorded_metrics_are_described<T>(
    recorder: RecorderState,
    accepted: bool,
    count: usize,
    after: BufferState<T>,
    i: int,
)
    ensures
        0 <= i < recorder.after_push(accepted, count, after).len() ==> described(
            recorder.after_push(accepted, count, after)[i],
        ),
        0 <= i < recorder.after_pop(count, after).len() ==> described(
            recorder.after_pop(count, after)[i],
        ),
{
    let all = metrics::all_descriptions();
    assert(all[0].metric == names::MESSAGES_ENQUEUED);
    assert(all[1].metric == names::MESSAGES_DEQUEUED);
    assert(all[3].metric == names::QUEUE_DEPTH);
    assert(all[4].metric == names::QUEUE_CAPACITY);
    assert(all[6].metric == names::ENQUEUE_LATENCY);
    assert(all[7].metric == names::DEQUEUE_LATENCY);
    assert(all[8].metric == names::BACKPRESSURE_EVENTS);
    assert(all[9].metric == names::QUEUE_UTILIZATION);
}

/// What is recorded of an operation on an instrumented buffer.
pub open spec fn recorded<T>(
    recorder: RecorderState,
    s: BufferState<T>,
    op: Operation<T>,
) -> Seq<MetricUpdate> {
    let out = buffer_laws::perform(s, op);
    match op {
        Operation::Push(_) => recorder.after_push(s.accepts(1), 1, out.state),
        Operation::PushBatch(items) => recorder.after_push(
            s.accepts(items.len()),
            items.len() as usize,
            out.state,
        ),
        _ => recorder.after_pop(out.taken.len() as usize, out.state),
    }
}

/// What is recorded of a sequence of operations.
pub open spec fn recorded_all<T>(
    recorder: RecorderState,
    s: BufferState<T>,
    ops: Seq<Operation<T>>,
) -> Seq<MetricUpdate>
    decreases ops.len(),
{
    if ops.len() == 0 {
        Seq::empty()
    } else {
        recorded_all(recorder, s, ops.drop_last()) + recorded(
            recorder,
            buffer_laws::perform_all(s, ops.drop_last()).state,
            ops.last(),
        )
    }
}

/// How far a change takes a counter.
pub open spec fn increment(update: MetricUpdate, metric: &'static str) -> nat {
    match update.change {
        Change::Increment(by) => if update.metric@ == metric@ {
            by as nat
        } else {
            0
        },
        _ => 0,
    }
}

/// How far some changes take a counter.
pub open spec fn total(updates: Seq<MetricUpdate>, metric: &'static str) -> nat
    decreases updates.len(),
{
    if updates.len() == 0 {
        0
    } else {
        total(updates.drop_last(), metric) + increment(updates.last(), metric)
    }
}

/// Changes one after the other take a counter as far as both together.
proof fn lemma_total_of_sum(a: Seq<MetricUpdate>, b: Seq<MetricUpdate>, metric: &'static str)
    ensures
        total(a + b, metric) == total(a, metric) + total(b, metric),
    decreases b.len(),
{
    if b.len() == 0 {
        assert(a + b =~= a);
    } else {
        lemma_total_of_sum(a, b.drop_last(), metric);
        assert((a + b).drop_last() =~= a + b.drop_last());
    }
}

/// The counters have different names.
proof fn lemma_names_differ()
    ensures
        names::MESSAGES_ENQUEUED@ != names::MESSAGES_DEQUEUED@,
        names::MESSAGES_ENQUEUED@ != names::BACKPRESSURE_EVENTS@,
        names::MESSAGES_DEQUEUED@ != names::BACKPRESSURE_EVENTS@,
{
    reveal_strlit("elasticq_messages_enqueued_total");
    reveal_strlit("elasticq_messages_dequeued_total");
    reveal_strlit("elasticq_backpressure_events_total");
    assert(names::MESSAGES_ENQUEUED@[18] == 'e');
    assert(names::MESSAGES_DEQUEUED@[18] == 'd');
    assert(names::BACKPRESSURE_EVENTS@.len() == 34);
}

/// What the gauges are set to takes no counter anywhere.
proof fn lemma_gauges_count_nothing(
    recorder: RecorderState,
    depth: usize,
    capacity: usize,
    metric: &'static str,
)
    ensures
        total(recorder.gauges(depth, capacity), metric) == 0,
{
    reveal_with_fuel(total, 4);
}

/// What is recorded of an operation counts the items that went in and out.
proof fn lemma_recorded<T>(recorder: RecorderState, s: BufferState<T>, op: Operation<T>)
    requires
        recorder.enabled,
        s.wf(),
    ensures
        total(recorded(recorder, s, op), names::MESSAGES_ENQUEUED) == buffer_laws::perform(
            s,
            op,
        ).accepted.len(),
        total(recorded(recorder, s, op), names::MESSAGES_DEQUEUED) == buffer_laws::perform(
            s,
            op,
        ).taken.len(),
{
    let out = buffer_laws::perform(s, op);
    let depth = out.state.items.len() as usize;
    let capacity = out.state.capacity as usize;
    let gauges = recorder.gauges(depth, capacity);
    let accepted = out.accepted.len() as usize;
    let taken = out.taken.len() as usize;
    lemma_names_differ();
    lemma_gauges_count_nothing(recorder, depth, capacity, names::MESSAGES_ENQUEUED);
    lemma_gauges_count_nothing(recorder, depth, capacity, names::MESSAGES_DEQUEUED);
    lemma_total_of_sum(recorder.enqueued(accepted), gauges, names::MESSAGES_ENQUEUED);
    lemma_total_of_sum(recorder.enqueued(accepted), gauges, names::MESSAGES_DEQUEUED);
    lemma_total_of_sum(recorder.dequeued(taken), gauges, names::MESSAGES_ENQUEUED);
    lemma_total_of_sum(recorder.dequeued(taken), gauges, names::MESSAGES_DEQUEUED);
    reveal_with_fuel(total, 3);
}

/// Whether an operation is one that an instrumented buffer offers.
pub open spec fn instrumented<T>(op: Operation<T>) -> bool {
    !(op is Drain)
}

/// The counters tell the truth: of all operations on a buffer together, the
/// messages counted as enqueued are those that went in, the messages counted as
/// dequeued those that came out, and the difference is by how much the buffer is
/// fuller than before.
pub proof fn law_counters_follow_the_items<T>(
    recorder: RecorderState,
    s: BufferState<T>,
    ops: Seq<Operation<T>>,
)
    requires
        recorder.enabled,
        s.wf(),
        forall|i: int| 0 <= i < ops.len() ==> instrumented(#[trigger] ops[i]),
    ensures
        ({
            let out = buffer_laws::perform_all(s, ops);
            let enqueued = total(recorded_all(recorder, s, ops), names::MESSAGES_ENQUEUED);
            let dequeued = total(recorded_all(recorder, s, ops), names::MESSAGES_DEQUEUED);
            &&& enqueued == out.accepted.len()
            &&& dequeued == out.taken.len()
            &&& enqueued - dequeued == out.state.items.len() - s.items.len()
        }),
    decreases ops.len(),
{
    buffer_laws::law_items_are_conserved(s, ops);
    if ops.len() > 0 {
        assert forall|i: int| 0 <= i < ops.drop_last().len() implies instrumented(
            #[trigger] ops.drop_last()[i],
        ) by {
            assert(ops.drop_last()[i] == ops[i]);
        }
        let before = buffer_laws::perform_all(s, ops.drop_last()).state;
        let earlier = recorded_all(recorder, s, ops.drop_last());
        let last = recorded(recorder, before, ops.last());
        law_counters_follow_the_items(recorder, s, ops.drop_last());
        buffer_laws::law_bounds_hold_throughout(s, ops.drop_last());
        lemma_recorded(recorder, before, ops.last());
        lemma_total_of_sum(earlier, last, names::MESSAGES_ENQUEUED);
        lemma_total_of_sum(earlier, last, names::MESSAGES_DEQUEUED);
    }
}

/// Everything that is recorded of a push: for items that were taken in, how many,
/// the time for each, and the gauges of the buffer as it is then; for items that
/// were refused, one refusal.
pub proof fn law_push_is_recorded_in_full<T>(
    recorder: RecorderState,
    count: usize,
    after: BufferState<T>,
)
    requires
        recorder.enabled,
        after.items.len() <= usize::MAX,
        0 < after.capacity <= usize::MAX,
    ensures
        recorder.after_push(true, count, after) == seq![
            MetricUpdate {
                metric: names::MESSAGES_ENQUEUED,
                queue: recorder.name,
                change: Change::Increment(count as u64),
            },
            MetricUpdate {
                metric: names::ENQUEUE_LATENCY,
                queue: recorder.name,
                change: Change::ObserveElapsedPer(count),
            },
            MetricUpdate {
                metric: names::QUEUE_DEPTH,
                queue: recorder.name,
                change: Change::SetTo(after.items.len() as usize),
            },
            MetricUpdate {
                metric: names::QUEUE_CAPACITY,
                queue: recorder.name,
                change: Change::SetTo(after.capacity as usize),
            },
            MetricUpdate {
                metric: names::QUEUE_UTILIZATION,
                queue: recorder.name,
                change: Change::SetRatio(after.items.len() as usize, after.capacity as usize),
            },
        ],
        recorder.after_push(false, count, after) == seq![
            MetricUpdate {
                metric: names::BACKPRESSURE_EVENTS,
                queue: recorder.name,
                change: Change::Increment(1),
            },
        ],
{
}

/// Everything that is recorded of a pop: how many items came out, the time for
/// each, and the gauges of the buffer as it is then; nothing if none came out.
pub proof fn law_pop_is_recorded_in_full<T>(
    recorder: RecorderState,
    count: usize,
    after: BufferState<T>,
)
    requires
        recorder.enabled,
        after.items.len() <= usize::MAX,
        0 < after.capacity <= usize::MAX,
    ensures
        count > 0 ==> recorder.after_pop(count, after) == seq![
            MetricUpdate {
                metric: names::MESSAGES_DEQUEUED,
                queue: recorder.name,
                change: Change::Increment(count as u64),
            },
            MetricUpdate {
                metric: names::DEQUEUE_LATENCY,
                queue: recorder.name,
                change: Change::ObserveElapsedPer(count),
            },
            MetricUpdate {
                metric: names::QUEUE_DEPTH,
                queue: recorder.name,
                change: Change::SetTo(after.items.len() as usize),
            },
            MetricUpdate {
                metric: names::QUEUE_CAPACITY,
                queue: recorder.name,
                change: Change::SetTo(after.capacity as usize),
            },
            MetricUpdate {
                metric: names::QUEUE_UTILIZATION,
                queue: recorder.name,
                change: Change::SetRatio(after.items.len() as usize, after.capacity as usize),
            },
        ],
        count == 0 ==> recorder.after_pop(count, after).len() == 0,
{
}

/// A single change is recorded as it is, under the name of the queue, if anything
/// is recorded; the share in use is that of depth and capacity, and zero of no
/// capacity.
pub proof fn law_single_changes_are_recorded(
    recorder: RecorderState,
    metric: &'static str,
    change: Change,
    depth: usize,
    capacity: usize,
)
    ensures
        recorder.enabled ==> recorder.updates(seq![(metric, change)]) == seq![
            MetricUpdate { metric, queue: recorder.name, change },
        ],
        !recorder.enabled ==> recorder.updates(seq![(metric, change)]).len() == 0,
        capacity > 0 ==> RecorderState::utilization(depth, capacity) == Change::SetRatio(
            depth,
            capacity,
        ),
        capacity == 0 ==> RecorderState::utilization(depth, capacity) == Change::SetRatio(0, 1),
{
}

/// A pop of up to so many items takes as many as there are, and no more than asked
/// for.
pub proof fn law_batch_size<T>(s: BufferState<T>, max_items: usize)
    ensures
        metrics::batch_size(s, max_items) <= max_items,
        metrics::batch_size(s, max_items) <= s.items.len(),
        metrics::batch_size(s, max_items) == max_items || metrics::batch_size(s, max_items)
            == s.items.len(),
{
}

/// The kind and the unit of every metric: times are histograms in seconds, what
/// can go down is a gauge, and all else a counter.
pub proof fn law_kinds_of_metrics()
    ensures
        ({
            let all = metrics::all_descriptions();
            &&& all.len() == 10
            &&& forall|i: int|
                0 <= i < 10 ==> {
                    let d = #[trigger] all[i];
                    &&& d.kind == MetricKind::Histogram <==> d.metric == names::ENQUEUE_LATENCY
                        || d.metric == names::DEQUEUE_LATENCY
                    &&& d.kind == MetricKind::Gauge <==> d.metric == names::QUEUE_DEPTH || d.metric
                        == names::QUEUE_CAPACITY || d.metric == names::QUEUE_UTILIZATION
                    &&& d.unit == metrics::MetricUnit::Seconds <==> d.kind == MetricKind::Histogram
                }
            &&& all[2].metric == names::MESSAGES_DROPPED
            &&& all[5].metric == names::RESIZE_OPERATIONS
        }),
{
}

/// The names of the metrics.
pub proof fn law_names_of_metrics()
    ensures
        names::MESSAGES_ENQUEUED@ == "elasticq_messages_enqueued_total"@,
        names::MESSAGES_DEQUEUED@ == "elasticq_messages_dequeued_total"@,
        names::MESSAGES_DROPPED@ == "elasticq_messages_dropped_total"@,
        names::QUEUE_DEPTH@ == "elasticq_queue_depth"@,
        names::QUEUE_CAPACITY@ == "elasticq_queue_capacity"@,
        names::RESIZE_OPERATIONS@ == "elasticq_resize_operations_total"@,
        names::ENQUEUE_LATENCY@ == "elasticq_enqueue_latency_seconds"@,
        names::DEQUEUE_LATENCY@ == "elasticq_dequeue_latency_seconds"@,
        names::BACKPRESSURE_EVENTS@ == "elasticq_backpressure_events_total"@,
        names::QUEUE_UTILIZATION@ == "elasticq_queue_utilization_ratio"@,
{
}

} // verus!
