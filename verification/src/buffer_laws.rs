//! What holds of a buffer over any sequence of operations.

use crate::buffer::BufferState;
use crate::config;
use vstd::prelude::*;

verus! {

/// An operation on a buffer that neither invents nor throws away items.
pub enum Operation<T> {
    /// A push of one item.
    Push(T),
    /// A push of several items.
    PushBatch(Seq<T>),
    /// A pop.
    Pop,
    /// A pop of up to so many items.
    PopBatch(nat),
    /// A drain.
    Drain,
}

/// What a sequence of operations did to a buffer.
pub struct Outcome<T> {
    /// The buffer afterwards.
    pub state: BufferState<T>,
    /// The items that the buffer took in, in the order of the pushes.
    pub accepted: Seq<T>,
    /// The items that the buffer gave out, in the order of the pops.
    pub taken: Seq<T>,
}

/// What one push of `items` does.
pub open spec fn pushed<T>(s: BufferState<T>, items: Seq<T>) -> Outcome<T> {
    if s.accepts(items.len()) {
        Outcome { state: s.extended(items), accepted: items, taken: Seq::empty() }
    } else {
        Outcome { state: s, accepted: Seq::empty(), taken: Seq::empty() }
    }
}

/// What taking up to `n` items, at least one, does.
pub open spec fn popped<T>(s: BufferState<T>, n: nat) -> Outcome<T> {
    let count = if n <= s.items.len() {
        n
    } else {
        s.items.len()
    };
    if count == 0 {
        Outcome { state: s, accepted: Seq::empty(), taken: Seq::empty() }
    } else {
        Outcome {
            state: s.without_oldest(count),
            accepted: Seq::empty(),
            taken: s.items.take(count as int),
        }
    }
}

/// What one operation does.
pub open spec fn perform<T>(s: BufferState<T>, op: Operation<T>) -> Outcome<T> {
    match op {
        Operation::Push(item) => pushed(s, seq![item]),
        Operation::PushBatch(items) => pushed(s, items),
        Operation::Pop => popped(s, 1),
        Operation::PopBatch(n) => popped(s, n),
        Operation::Drain => Outcome {
            state: s.without_oldest(s.items.len()),
            accepted: Seq::empty(),
            taken: s.items,
        },
    }
}

/// What a sequence of operations does.
pub open spec fn perform_all<T>(s: BufferState<T>, ops: Seq<Operation<T>>) -> Outcome<T>
    decreases ops.len(),
{
    if ops.len() == 0 {
        Outcome { state: s, accepted: Seq::empty(), taken: Seq::empty() }
    } else {
        let before = perform_all(s, ops.drop_last());
        let last = perform(before.state, ops.last());
        Outcome {
            state: last.state,
            accepted: before.accepted + last.accepted,
            taken: before.taken + last.taken,
        }
    }
}

/// One operation keeps the invariant and loses, invents and reorders nothing.
proof fn lemma_perform<T>(s: BufferState<T>, op: Operation<T>)
    requires
        s.wf(),
    ensures
        perform(s, op).state.wf(),
        perform(s, op).state.config == s.config,
        s.items + perform(s, op).accepted == perform(s, op).taken + perform(s, op).state.items,
{
    let out = perform(s, op);
    match op {
        Operation::Push(item) => {
            if s.accepts(1) && s.items.len() + 1 > s.capacity {
                config::law_growth_makes_room(s.config, s.capacity, s.items.len() + 1);
            }
        },
        Operation::PushBatch(items) => {
            if s.accepts(items.len()) && s.items.len() + items.len() > s.capacity {
                config::law_growth_makes_room(s.config, s.capacity, s.items.len() + items.len());
            }
        },
        _ => {},
    }
    assert(s.items + out.accepted =~= out.taken + out.state.items);
}

/// Whatever is done to a buffer, its length stays within its capacity and its
/// capacity within the configured limits.
pub proof fn law_bounds_hold_throughout<T>(s: BufferState<T>, ops: Seq<Operation<T>>)
    requires
        s.wf(),
    ensures
        perform_all(s, ops).state.wf(),
        perform_all(s, ops).state.config == s.config,
    decreases ops.len(),
{
    if ops.len() > 0 {
        law_bounds_hold_throughout(s, ops.drop_last());
        lemma_perform(perform_all(s, ops.drop_last()).state, ops.last());
    }
}

/// First in, first out, and nothing is lost or invented: what a buffer held and
/// took in is, in that order, what it gave out followed by what it still holds.
pub proof fn law_first_in_first_out<T>(s: BufferState<T>, ops: Seq<Operation<T>>)
    requires
        s.wf(),
    ensures
        s.items + perform_all(s, ops).accepted == perform_all(s, ops).taken + perform_all(
            s,
            ops,
        ).state.items,
    decreases ops.len(),
{
    let out = perform_all(s, ops);
    if ops.len() == 0 {
        assert(s.items + out.accepted =~= out.taken + out.state.items);
    } else {
        let before = perform_all(s, ops.drop_last());
        let last = perform(before.state, ops.last());
        law_first_in_first_out(s, ops.drop_last());
        law_bounds_hold_throughout(s, ops.drop_last());
        lemma_perform(before.state, ops.last());
        assert(s.items + out.accepted =~= (s.items + before.accepted) + last.accepted);
        assert((before.taken + before.state.items) + last.accepted =~= before.taken + (
        before.state.items + last.accepted));
        assert(before.taken + (last.taken + last.state.items) =~= out.taken + out.state.items);
    }
}

/// The number of items pushed is the number popped plus the number left.
pub proof fn law_items_are_conserved<T>(s: BufferState<T>, ops: Seq<Operation<T>>)
    requires
        s.wf(),
    ensures
        s.items.len() + perform_all(s, ops).accepted.len() == perform_all(s, ops).taken.len()
            + perform_all(s, ops).state.items.len(),
{
    law_first_in_first_out(s, ops);
    let out = perform_all(s, ops);
    assert((s.items + out.accepted).len() == (out.taken + out.state.items).len());
}

/// A buffer refuses items only when they do not fit under its maximum capacity,
/// whatever its present capacity is: as long as there is room under the
/// maximum, a push succeeds and is the last thing that comes out.
pub proof fn law_room_under_the_maximum_is_usable<T>(s: BufferState<T>, items: Seq<T>)
    requires
        s.wf(),
        s.items.len() + items.len() <= s.config.max_capacity,
    ensures
        pushed(s, items).accepted == items,
        pushed(s, items).state.wf(),
        perform(pushed(s, items).state, Operation::Drain).taken == s.items + items,
{
    lemma_perform(s, Operation::PushBatch(items));
}

/// A full buffer below its maximum gets larger with the next push.
pub proof fn law_full_buffer_grows<T>(s: BufferState<T>, item: T)
    requires
        s.wf(),
        s.items.len() == s.capacity,
        s.capacity < s.config.max_capacity,
    ensures
        pushed(s, seq![item]).state.capacity > s.capacity,
{
    config::law_growth_makes_room(s.config, s.capacity, s.items.len() + 1);
}

/// Taking items out never makes the buffer larger; clearing it brings the
/// initial capacity back.
pub proof fn law_removal_never_grows<T>(s: BufferState<T>, n: nat)
    requires
        s.wf(),
    ensures
        popped(s, n).state.capacity <= s.capacity,
        popped(s, n).state.capacity >= s.config.min_capacity,
        s.cleared().wf(),
        s.cleared().capacity == s.config.initial_capacity,
{
}

/// The capacity after items were taken out of a buffer, by a pop, a batch or a
/// drain, given how many are left, as the configuration has it: it stays as long
/// as more than the threshold's share of it is in use, or at the minimum; it is
/// the capacity divided by the factor, what is held, or the minimum, whichever is
/// most, otherwise.
pub open spec fn shrinks_by_threshold<T>(before: BufferState<T>, after: BufferState<T>) -> bool {
    let share = before.config.shrink_threshold.product_trunc(before.capacity);
    let quotient = before.config.growth_factor.quotient_floor(before.capacity);
    let len = after.items.len();
    let min = before.config.min_capacity;
    if len > share || before.capacity <= min {
        after.capacity == before.capacity
    } else {
        &&& after.capacity <= before.capacity
        &&& after.capacity >= len
        &&& after.capacity >= min
        &&& quotient < before.capacity ==> after.capacity >= quotient
        &&& after.capacity < before.capacity ==> after.capacity == quotient || after.capacity == len
            || after.capacity == min
        &&& quotient < before.capacity && len < before.capacity ==> after.capacity
            < before.capacity
        &&& quotient >= before.capacity ==> after.capacity == before.capacity
    }
}

/// Every removal shrinks the buffer by the configured threshold and factor.
pub proof fn law_removal_shrinks_by_the_threshold<T>(s: BufferState<T>, n: nat)
    requires
        s.wf(),
    ensures
        s.items.len() > 0 ==> shrinks_by_threshold(s, perform(s, Operation::Pop).state),
        s.items.len() > 0 && n > 0 ==> shrinks_by_threshold(
            s,
            perform(s, Operation::PopBatch(n)).state,
        ),
        shrinks_by_threshold(s, perform(s, Operation::Drain).state),
{
    if s.items.len() > 0 {
        config::law_shrinking_goes_by_the_threshold(
            s.config,
            s.capacity,
            (s.items.len() - 1) as nat,
        );
    }
    config::law_shrinking_goes_by_the_threshold(s.config, s.capacity, 0);
    if n < s.items.len() {
        config::law_shrinking_goes_by_the_threshold(
            s.config,
            s.capacity,
            (s.items.len() - n) as nat,
        );
    }
}

/// What a pop, a batch and a drain give out and leave behind: the oldest items,
/// as many as asked for and there, and all the others.
pub proof fn law_removal_takes_the_oldest<T>(s: BufferState<T>, n: nat)
    requires
        s.wf(),
    ensures
        ({
            let one = perform(s, Operation::Pop);
            let batch = perform(s, Operation::PopBatch(n));
            let all = perform(s, Operation::Drain);
            &&& s.items.len() > 0 ==> one.taken == seq![s.items[0]] && one.state.items
                == s.items.skip(1)
            &&& n <= s.items.len() ==> batch.taken == s.items.take(n as int) && batch.state.items
                == s.items.skip(n as int)
            &&& n > s.items.len() ==> batch.taken == s.items && batch.state.items.len() == 0
            &&& s.items.len() == 0 || n == 0 ==> batch.state == s
            &&& all.taken == s.items
            &&& all.state.items.len() == 0
            &&& s.items.len() == 0 ==> one.taken.len() == 0 && one.state == s
        }),
{
    let one = perform(s, Operation::Pop);
    let batch = perform(s, Operation::PopBatch(n));
    if s.items.len() > 0 {
        assert(one.taken =~= seq![s.items[0]]);
    }
    if n <= s.items.len() {
        assert(batch.taken =~= s.items.take(n as int));
        assert(batch.state.items =~= s.items.skip(n as int));
    } else {
        assert(batch.taken =~= s.items);
    }
}

/// What a push does: all items go to the back, or, if they do not fit under the
/// maximum, nothing happens. The buffer grows only for want of room, and then by
/// the configured factor.
pub proof fn law_push_adds_at_the_back<T>(s: BufferState<T>, items: Seq<T>)
    requires
        s.wf(),
    ensures
        ({
            let out = perform(s, Operation::PushBatch(items));
            let needed = s.items.len() + items.len();
            let product = s.config.growth_factor.product_ceil(s.capacity);
            let max = s.config.max_capacity;
            &&& needed > max ==> out.state == s && out.accepted.len() == 0
            &&& needed <= max ==> out.accepted == items && out.state.items == s.items + items
            &&& needed <= s.capacity ==> out.state.capacity == s.capacity
            &&& s.capacity < needed <= max && needed <= product <= max ==> out.state.capacity
                == product
            &&& s.capacity < needed <= max && product > max ==> out.state.capacity == max
            &&& s.capacity < needed <= max && product < needed ==> out.state.capacity == needed
        }),
        items.len() == 1 ==> perform(s, Operation::Push(items[0])) == perform(
            s,
            Operation::PushBatch(items),
        ),
{
    if s.items.len() + items.len() <= s.config.max_capacity {
        config::law_growth_goes_by_the_factor(
            s.config,
            s.capacity,
            s.items.len() + items.len(),
        );
    }
    if items.len() == 1 {
        assert(seq![items[0]] =~= items);
    }
}

/// Clearing throws all items away, brings the initial capacity back, and leaves
/// the configuration alone.
pub proof fn law_clearing_starts_anew<T>(s: BufferState<T>)
    requires
        s.wf(),
    ensures
        s.cleared().items.len() == 0,
        s.cleared().capacity == s.config.initial_capacity,
        s.cleared().config == s.config,
{
}

} // verus!
