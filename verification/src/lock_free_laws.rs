//! What holds of a queue over any interleaving of producers' and consumer's
//! steps.

use crate::lock_free;
use crate::lock_free::QueueState;
use crate::ring;
use vstd::arithmetic::div_mod::*;
use vstd::arithmetic::power2::*;
use vstd::prelude::*;

verus! {

/// A step of a producer or of the consumer.
pub enum Step<T> {
    /// A producer offers a message.
    Enqueue(T),
    /// The consumer asks for a message.
    Dequeue,
    /// A replacement of the ring is announced.
    BeginResize,
    /// The ring is replaced.
    CompleteResize,
}

/// What a sequence of steps did to a queue.
pub struct Progress<T> {
    /// The queue afterwards.
    pub state: QueueState<T>,
    /// The messages that the queue took in, in that order.
    pub accepted: Seq<T>,
    /// The messages that the queue refused, in that order.
    pub refused: Seq<T>,
    /// The messages that the queue gave out, in that order.
    pub taken: Seq<T>,
}

/// Whether a producer's message is taken in.
pub open spec fn admits<T>(s: QueueState<T>) -> bool {
    !s.resizing && s.with_room().items.len() < s.with_room().capacity
}

/// What one step does.
pub open spec fn perform<T>(s: QueueState<T>, step: Step<T>) -> Progress<T> {
    let nothing = Progress {
        state: s,
        accepted: Seq::empty(),
        refused: Seq::empty(),
        taken: Seq::empty(),
    };
    match step {
        Step::Enqueue(item) => if admits(s) {
            Progress { state: s.with_room().appended(item), accepted: seq![item], ..nothing }
        } else {
            Progress { state: s.refused(), refused: seq![item], ..nothing }
        },
        Step::Dequeue => if s.items.len() == 0 {
            nothing
        } else {
            Progress { state: s.advanced(), taken: seq![s.items[0]], ..nothing }
        },
        Step::BeginResize => Progress {
            state: QueueState { resizing: true, ..s },
            ..nothing
        },
        Step::CompleteResize => Progress { state: s.resized(), ..nothing },
    }
}

/// What a sequence of steps does.
pub open spec fn perform_all<T>(s: QueueState<T>, steps: Seq<Step<T>>) -> Progress<T>
    decreases steps.len(),
{
    if steps.len() == 0 {
        Progress {
            state: s,
            accepted: Seq::empty(),
            refused: Seq::empty(),
            taken: Seq::empty(),
        }
    } else {
        let before = perform_all(s, steps.drop_last());
        let last = perform(before.state, steps.last());
        Progress {
            state: last.state,
            accepted: before.accepted + last.accepted,
            refused: before.refused + last.refused,
            taken: before.taken + last.taken,
        }
    }
}

/// The messages that producers offered, in that order.
pub open spec fn offered<T>(steps: Seq<Step<T>>) -> Seq<T>
    decreases steps.len(),
{
    if steps.len() == 0 {
        Seq::empty()
    } else {
        match steps.last() {
            Step::Enqueue(item) => offered(steps.drop_last()).push(item),
            _ => offered(steps.drop_last()),
        }
    }
}

/// What a counter that started at `start` shows after `n` events.
pub open spec fn counted(start: usize, n: nat) -> int {
    (start + n) % (usize::MAX + 1)
}

/// One more event bumps the counter.
proof fn lemma_counted(start: usize, n: nat, shown: usize)
    requires
        shown == counted(start, n),
    ensures
        lock_free::bumped(shown) == counted(start, n + 1),
{
    lemma_add_mod_noop((start + n) as int, 1, usize::MAX + 1);
    lemma_small_mod(1, (usize::MAX + 1) as nat);
    if shown < usize::MAX {
        lemma_small_mod((shown + 1) as nat, (usize::MAX + 1) as nat);
    } else {
        lemma_mod_self_0(usize::MAX + 1);
    }
}

/// One step keeps the invariant and loses, invents and reorders nothing.
proof fn lemma_perform<T>(s: QueueState<T>, step: Step<T>)
    requires
        s.wf(),
    ensures
        perform(s, step).state.wf(),
        perform(s, step).state.config == s.config,
        s.items + perform(s, step).accepted == perform(s, step).taken + perform(
            s,
            step,
        ).state.items,
{
    let out = perform(s, step);
    s.lemma_resized();
    match step {
        Step::Dequeue => if s.items.len() > 0 {
            let rest = QueueState {
                items: s.items.skip(1),
                dequeued: lock_free::bumped(s.dequeued),
                ..s
            };
            rest.lemma_resized();
        },
        _ => {},
    }
    assert(s.items + out.accepted =~= out.taken + out.state.items);
}

/// Whatever the steps, the queue holds no more messages than its capacity and
/// its capacity stays within the configured limits.
pub proof fn law_queue_stays_bounded<T>(s: QueueState<T>, steps: Seq<Step<T>>)
    requires
        s.wf(),
    ensures
        perform_all(s, steps).state.wf(),
        perform_all(s, steps).state.config == s.config,
    decreases steps.len(),
{
    if steps.len() > 0 {
        law_queue_stays_bounded(s, steps.drop_last());
        lemma_perform(perform_all(s, steps.drop_last()).state, steps.last());
    }
}

/// Messages are consumed in the order in which they were taken in, whatever
/// happens between, a replacement of the ring included; none is lost and none
/// appears from nowhere.
pub proof fn law_queue_is_first_in_first_out<T>(s: QueueState<T>, steps: Seq<Step<T>>)
    requires
        s.wf(),
    ensures
        s.items + perform_all(s, steps).accepted == perform_all(s, steps).taken + perform_all(
            s,
            steps,
        ).state.items,
    decreases steps.len(),
{
    let out = perform_all(s, steps);
    if steps.len() == 0 {
        assert(s.items + out.accepted =~= out.taken + out.state.items);
    } else {
        let before = perform_all(s, steps.drop_last());
        let last = perform(before.state, steps.last());
        law_queue_is_first_in_first_out(s, steps.drop_last());
        law_queue_stays_bounded(s, steps.drop_last());
        lemma_perform(before.state, steps.last());
        assert(s.items + out.accepted =~= (s.items + before.accepted) + last.accepted);
        assert((before.taken + before.state.items) + last.accepted =~= before.taken + (
        before.state.items + last.accepted));
        assert(before.taken + (last.taken + last.state.items) =~= out.taken + out.state.items);
    }
}

/// Every message that producers offer to an empty queue is, in the end, one
/// that was received, is still there, or was dropped.
pub proof fn law_messages_are_accounted_for<T>(s: QueueState<T>, steps: Seq<Step<T>>)
    requires
        s.wf(),
        s.items.len() == 0,
    ensures
        perform_all(s, steps).taken.len() + perform_all(s, steps).state.items.len() + perform_all(
            s,
            steps,
        ).refused.len() == offered(steps).len(),
{
    let out = perform_all(s, steps);
    law_queue_is_first_in_first_out(s, steps);
    lemma_offers_are_answered(s, steps);
    assert((s.items + out.accepted).len() == (out.taken + out.state.items).len());
}

/// Every offer is taken in or refused.
proof fn lemma_offers_are_answered<T>(s: QueueState<T>, steps: Seq<Step<T>>)
    ensures
        perform_all(s, steps).accepted.len() + perform_all(s, steps).refused.len() == offered(
            steps,
        ).len(),
    decreases steps.len(),
{
    if steps.len() > 0 {
        lemma_offers_are_answered(s, steps.drop_last());
    }
}

/// The statistics count what happened: messages taken in, given out and
/// refused, each going around at the largest `usize`.
pub proof fn law_statistics_count_messages<T>(s: QueueState<T>, steps: Seq<Step<T>>)
    ensures
        perform_all(s, steps).state.enqueued == counted(
            s.enqueued,
            perform_all(s, steps).accepted.len(),
        ),
        perform_all(s, steps).state.dequeued == counted(
            s.dequeued,
            perform_all(s, steps).taken.len(),
        ),
        perform_all(s, steps).state.dropped == counted(
            s.dropped,
            perform_all(s, steps).refused.len(),
        ),
    decreases steps.len(),
{
    if steps.len() == 0 {
        lemma_small_mod(s.enqueued as nat, (usize::MAX + 1) as nat);
        lemma_small_mod(s.dequeued as nat, (usize::MAX + 1) as nat);
        lemma_small_mod(s.dropped as nat, (usize::MAX + 1) as nat);
    } else {
        law_statistics_count_messages(s, steps.drop_last());
        let before = perform_all(s, steps.drop_last());
        lemma_counted(s.enqueued, before.accepted.len(), before.state.enqueued);
        lemma_counted(s.dequeued, before.taken.len(), before.state.dequeued);
        lemma_counted(s.dropped, before.refused.len(), before.state.dropped);
    }
}

/// The generation moves on by one exactly when the ring is replaced, which
/// always makes the capacity larger; no step makes it smaller.
pub proof fn law_generation_follows_the_ring<T>(s: QueueState<T>, step: Step<T>)
    requires
        s.wf(),
    ensures
        perform(s, step).state.capacity >= s.capacity,
        perform(s, step).state.capacity > s.capacity ==> perform(s, step).state.generation
            == lock_free::next_generation(s.generation),
        perform(s, step).state.capacity == s.capacity ==> perform(s, step).state.generation
            == s.generation,
{
    s.lemma_resized();
    if step is Dequeue && s.items.len() > 0 {
        let rest = QueueState {
            items: s.items.skip(1),
            dequeued: lock_free::bumped(s.dequeued),
            ..s
        };
        rest.lemma_resized();
    }
}

/// A replacement of the ring keeps every message and always ends: once done,
/// producers are let in again.
pub proof fn law_replacement_keeps_messages<T>(s: QueueState<T>)
    ensures
        s.resized().items == s.items,
        !s.resized().resizing,
{
}

/// The consumer makes progress: as long as there is a message it gets the oldest
/// one, announced replacement or not, and one message fewer is left.
pub proof fn law_consumer_makes_progress<T>(s: QueueState<T>)
    requires
        s.wf(),
        s.items.len() > 0,
    ensures
        perform(s, Step::Dequeue).taken == seq![s.items[0]],
        perform(s, Step::Dequeue).state.items == s.items.skip(1),
        perform(s, Step::Dequeue).state.items.len() == s.items.len() - 1,
{
}

/// Between the announcement and the replacement producers are refused, and the
/// consumer goes on.
pub proof fn law_announcement_holds_producers_back<T>(s: QueueState<T>, item: T)
    ensures
        ({
            let announced = perform(s, Step::BeginResize).state;
            &&& perform(announced, Step::Enqueue(item)).refused == seq![item]
            &&& s.items.len() > 0 ==> perform(announced, Step::Dequeue).taken == seq![s.items[0]]
        }),
{
}

/// A producer is refused only for a reason: there is room in the ring, or a
/// larger ring can be had, and the message is taken in.
pub proof fn law_room_is_usable<T>(s: QueueState<T>, item: T)
    requires
        s.wf(),
        !s.resizing,
        s.items.len() < s.capacity || (s.capacity < s.config.max_capacity && ring::ring_possible::<
            T,
        >(s.resize_target())),
    ensures
        perform(s, Step::Enqueue(item)).accepted == seq![item],
        perform(s, Step::Enqueue(item)).state.items.last() == item,
{
    s.lemma_resized();
    if s.items.len() >= s.capacity {
        crate::binary64::law_growth_is_strict(s.config.growth_factor, s.capacity);
    }
}

/// Whether a capacity is that of the ring that takes the place of one with the
/// capacity `before`: larger, at least the capacity times the growth factor,
/// rounded up, or the maximum, and the smallest such power of two unless that
/// exceeds the maximum.
pub open spec fn replaces(config: crate::config::Config, before: nat, after: nat) -> bool {
    let product = config.growth_factor.product_ceil(before);
    &&& before < after <= config.max_capacity
    &&& after >= product || after == config.max_capacity
    &&& after < 2 * product
    &&& after == config.max_capacity || exists|k: nat| after == #[trigger] pow2(k)
    &&& forall|k: nat| product <= #[trigger] pow2(k) <= config.max_capacity ==> after <= pow2(k)
}

/// Whether a ring can be had for a capacity times the growth factor, rounded up,
/// but no more than the maximum.
pub open spec fn larger_ring_possible<T>(config: crate::config::Config, capacity: nat) -> bool {
    let product = config.growth_factor.product_ceil(capacity);
    ring::ring_possible::<T>(
        if product <= config.max_capacity {
            product
        } else {
            config.max_capacity as nat
        },
    )
}

/// What replacing the ring does to the capacity.
proof fn lemma_replacement<T>(s: QueueState<T>)
    requires
        s.wf(),
        s.capacity < s.config.max_capacity,
    ensures
        larger_ring_possible::<T>(s.config, s.capacity) ==> replaces(
            s.config,
            s.capacity,
            s.resized().capacity,
        ),
        !larger_ring_possible::<T>(s.config, s.capacity) ==> s.resized().capacity == s.capacity,
{
    s.lemma_resized();
    crate::binary64::law_growth_is_strict(s.config.growth_factor, s.capacity);
    let k = ring::lemma_next_power_of_two(s.resize_target());
    assert(ring::next_power_of_two(s.resize_target()) == pow2(k));
    let product = s.config.growth_factor.product_ceil(s.capacity);
    assert forall|j: nat|
        product <= #[trigger] pow2(j) <= s.config.max_capacity implies ring::next_power_of_two(
        s.resize_target(),
    ) <= pow2(j) by {
        ring::law_smallest_power_of_two(s.resize_target(), j);
    }
}

/// Consumer-driven resizing: if no replacement was announced and, after the
/// oldest message was taken out, more than half of the capacity is still in use,
/// then a dequeue replaces the ring by a larger one, as long as the maximum is
/// not reached and a larger ring can be had. Otherwise a dequeue leaves the
/// capacity as it is.
pub proof fn law_consumer_replaces_the_ring<T>(s: QueueState<T>)
    requires
        s.wf(),
        s.items.len() > 0,
    ensures
        ({
            let after = perform(s, Step::Dequeue).state;
            let crowded = 2 * (s.items.len() - 1) > s.capacity;
            if !s.resizing && crowded && s.capacity < s.config.max_capacity
                && larger_ring_possible::<T>(s.config, s.capacity) {
                replaces(s.config, s.capacity, after.capacity)
            } else {
                after.capacity == s.capacity
            }
        }),
        perform(s, Step::Dequeue).state.resizing == s.resizing,
{
    let rest = QueueState { items: s.items.skip(1), dequeued: lock_free::bumped(s.dequeued), ..s };
    rest.lemma_resized();
    if s.capacity < s.config.max_capacity {
        lemma_replacement(rest);
    }
}

/// Producer-driven resizing: a message that finds the ring full has it replaced
/// by a larger one, as long as the maximum is not reached and a larger ring can
/// be had; it is refused otherwise. A message that finds room leaves the capacity
/// as it is.
pub proof fn law_producer_replaces_the_ring<T>(s: QueueState<T>, item: T)
    requires
        s.wf(),
        !s.resizing,
    ensures
        ({
            let out = perform(s, Step::Enqueue(item));
            if s.items.len() < s.capacity {
                out.accepted == seq![item] && out.state.capacity == s.capacity
            } else if s.capacity < s.config.max_capacity && larger_ring_possible::<T>(
                s.config,
                s.capacity,
            ) {
                out.accepted == seq![item] && replaces(
                    s.config,
                    s.capacity,
                    out.state.capacity,
                )
            } else {
                out.refused == seq![item] && out.state.capacity == s.capacity
            }
        }),
        !perform(s, Step::Enqueue(item)).state.resizing,
{
    s.lemma_resized();
    if s.capacity < s.config.max_capacity {
        lemma_replacement(s);
    }
}

/// An announced replacement is carried out as long as the maximum is not reached
/// and a larger ring can be had, and changes nothing but the capacity and the
/// generation.
pub proof fn law_announced_replacement_is_carried_out<T>(s: QueueState<T>)
    requires
        s.wf(),
    ensures
        ({
            let after = perform(s, Step::CompleteResize).state;
            &&& if s.capacity < s.config.max_capacity && larger_ring_possible::<T>(
                s.config,
                s.capacity,
            ) {
                replaces(s.config, s.capacity, after.capacity)
            } else {
                after.capacity == s.capacity
            }
            &&& !after.resizing
            &&& after.items == s.items
            &&& after.enqueued == s.enqueued
            &&& after.dequeued == s.dequeued
            &&& after.dropped == s.dropped
        }),
        perform(s, Step::<T>::BeginResize).state == (QueueState { resizing: true, ..s }),
{
    s.lemma_resized();
    if s.capacity < s.config.max_capacity {
        lemma_replacement(s);
    }
}

/// A refused message leaves no trace but in the count of refused messages, and a
/// message that is taken in is the newest one.
pub proof fn law_refusal_changes_nothing<T>(s: QueueState<T>, item: T)
    requires
        s.wf(),
    ensures
        ({
            let out = perform(s, Step::Enqueue(item));
            &&& out.refused.len() > 0 ==> out.accepted.len() == 0 && out.refused == seq![item]
                && out.state.items == s.items && out.state.capacity == s.capacity
                && out.state.generation == s.generation && out.state.resizing == s.resizing
                && out.state.enqueued == s.enqueued && out.state.dequeued == s.dequeued
            &&& out.refused.len() == 0 ==> out.accepted == seq![item] && out.state.items
                == s.items.push(item) && out.state.dropped == s.dropped
        }),
{
}

/// Generations are counted one by one and go around at `2^32`, counters of
/// messages at one more than the largest `usize`.
pub proof fn law_counters_go_around(generation: u32, n: usize)
    ensures
        lock_free::next_generation(generation) as int == (generation + 1) % 0x1_0000_0000,
        lock_free::bumped(n) as int == (n + 1) % (usize::MAX + 1),
{
    lemma_small_mod(n as nat, (usize::MAX + 1) as nat);
    lemma_counted(n, 0, n);
}

} // verus!
