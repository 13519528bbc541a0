//! What holds of a priority buffer over any sequence of operations.

use crate::binary64;
use crate::priority;
use crate::priority::PriorityState;
use vstd::prelude::*;

verus! {

/// An operation on a priority buffer that neither invents nor throws away items.
pub enum Operation<T> {
    /// A push of some items at a level.
    Push(int, Seq<T>),
    /// A pop of the next item.
    Pop,
    /// A pop of the oldest item of a level.
    PopFrom(int),
}

/// What a sequence of operations did to a buffer, as seen from one level.
pub struct Outcome<T> {
    /// The buffer afterwards.
    pub state: PriorityState<T>,
    /// The items that the level took in, in the order of the pushes.
    pub accepted: Seq<T>,
    /// The items that the level gave out, in the order of the pops.
    pub taken: Seq<T>,
}

/// What taking the oldest item of `level`, which leads to `after`, means for
/// the level `seen`.
pub open spec fn taken_at<T>(
    s: PriorityState<T>,
    after: PriorityState<T>,
    level: int,
    seen: int,
) -> Outcome<T> {
    Outcome {
        state: after,
        accepted: Seq::empty(),
        taken: if level == seen {
            seq![s.levels[level].items[0]]
        } else {
            Seq::empty()
        },
    }
}

/// What one operation does, as seen from a level.
pub open spec fn perform<T>(s: PriorityState<T>, op: Operation<T>, seen: int) -> Outcome<T> {
    let nothing = Outcome { state: s, accepted: Seq::empty(), taken: Seq::empty() };
    match op {
        Operation::Push(level, items) => if 0 <= level < s.levels.len() && s.accepts(
            level,
            items.len(),
        ) {
            Outcome {
                state: s.with_items(level, items),
                accepted: if level == seen {
                    items
                } else {
                    Seq::empty()
                },
                taken: Seq::empty(),
            }
        } else {
            nothing
        },
        Operation::Pop => match s.next_level() {
            Some(level) => taken_at(s, s.after_pop_at(level), level, seen),
            None => nothing,
        },
        Operation::PopFrom(level) => if 0 <= level < s.levels.len()
            && s.levels[level].items.len() > 0 {
            taken_at(s, s.without_first_of(level), level, seen)
        } else {
            nothing
        },
    }
}

/// What a sequence of operations does, as seen from a level.
pub open spec fn perform_all<T>(
    s: PriorityState<T>,
    ops: Seq<Operation<T>>,
    seen: int,
) -> Outcome<T>
    decreases ops.len(),
{
    if ops.len() == 0 {
        Outcome { state: s, accepted: Seq::empty(), taken: Seq::empty() }
    } else {
        let before = perform_all(s, ops.drop_last(), seen);
        let last = perform(before.state, ops.last(), seen);
        Outcome {
            state: last.state,
            accepted: before.accepted + last.accepted,
            taken: before.taken + last.taken,
        }
    }
}

/// How many of the operations are pops of the next item.
pub open spec fn pops<T>(ops: Seq<Operation<T>>) -> nat
    decreases ops.len(),
{
    if ops.len() == 0 {
        0
    } else {
        pops(ops.drop_last()) + if ops.last() is Pop {
            1nat
        } else {
            0nat
        }
    }
}

/// What `highest_below` finds.
proof fn lemma_highest_below<T>(s: PriorityState<T>, n: int)
    requires
        n <= s.levels.len(),
    ensures
        match s.highest_below(n) {
            Some(level) => {
                &&& 0 <= level < n
                &&& s.levels[level].items.len() > 0
                &&& forall|i: int|
                    level < i < n ==> (#[trigger] s.levels[i]).items.len() == 0
            },
            None => forall|i: int| 0 <= i < n ==> (#[trigger] s.levels[i]).items.len() == 0,
        },
    decreases n,
{
    if n > 0 {
        lemma_highest_below(s, n - 1);
    }
}

/// What `first_in_turn` finds: the level at the smallest offset that holds an
/// item.
proof fn lemma_first_in_turn<T>(s: PriorityState<T>, offset: int)
    requires
        s.wf(),
        1 <= offset <= s.levels.len() + 1,
    ensures
        match s.first_in_turn(offset) {
            Some(level) => {
                &&& 0 <= level < s.levels.len()
                &&& s.levels[level].items.len() > 0
                &&& exists|o: int|
                    offset <= o <= s.levels.len() && level == #[trigger] priority::turn(
                        s.current,
                        o,
                        s.levels.len() as int,
                    ) && forall|p: int|
                        offset <= p < o ==> s.levels[#[trigger] priority::turn(
                            s.current,
                            p,
                            s.levels.len() as int,
                        )].items.len() == 0
            },
            None => forall|p: int|
                offset <= p <= s.levels.len() ==> s.levels[#[trigger] priority::turn(
                    s.current,
                    p,
                    s.levels.len() as int,
                )].items.len() == 0,
        },
    decreases s.levels.len() + 1 - offset,
{
    let levels = s.levels.len() as int;
    if offset <= levels {
        let level = priority::turn(s.current, offset, levels);
        if s.levels[level].items.len() == 0 {
            lemma_first_in_turn(s, offset + 1);
            if s.first_in_turn(offset + 1) is Some {
                let found = s.first_in_turn(offset + 1).unwrap();
                let o = choose|o: int|
                    offset + 1 <= o <= levels && found == #[trigger] priority::turn(
                        s.current,
                        o,
                        levels,
                    ) && forall|p: int|
                        offset + 1 <= p < o ==> s.levels[#[trigger] priority::turn(
                            s.current,
                            p,
                            levels,
                        )].items.len() == 0;
                assert forall|p: int| offset <= p < o implies s.levels[#[trigger] priority::turn(
                    s.current,
                    p,
                    levels,
                )].items.len() == 0 by {}
                assert(found == priority::turn(s.current, o, levels));
            }
        }
    }
}

/// The level that the next pop takes from exists and holds an item; there is
/// none only if all levels are empty.
pub proof fn law_pop_finds_an_item<T>(s: PriorityState<T>)
    requires
        s.wf(),
    ensures
        match s.next_level() {
            Some(level) => 0 <= level < s.levels.len() && s.levels[level].items.len() > 0,
            None => forall|i: int|
                0 <= i < s.levels.len() ==> (#[trigger] s.levels[i]).items.len() == 0,
        },
{
    lemma_highest_below(s, s.levels.len() as int);
    lemma_first_in_turn(s, 1);
    if s.config.fair_queuing && s.next_level() is None {
        let levels = s.levels.len() as int;
        assert forall|i: int| 0 <= i < levels implies (#[trigger] s.levels[i]).items.len() == 0 by {
            let p = if i < s.current {
                s.current - i
            } else {
                s.current + levels - i
            };
            assert(priority::turn(s.current, p, levels) == i);
        }
    }
}

/// Without fair queuing the most urgent item comes first: a pop takes the oldest
/// item of the highest level that holds one.
pub proof fn law_most_urgent_first<T>(s: PriorityState<T>, level: int)
    requires
        s.wf(),
        !s.config.fair_queuing,
        s.next_level() == Some(level),
    ensures
        0 <= level < s.levels.len(),
        s.levels[level].items.len() > 0,
        forall|i: int| level < i < s.levels.len() ==> (#[trigger] s.levels[i]).items.len() == 0,
{
    lemma_highest_below(s, s.levels.len() as int);
}

/// Growing often enough makes room and never makes a capacity smaller.
proof fn lemma_grown_repeatedly(config: crate::config::Config, capacity: nat, needed: nat)
    requires
        config.valid(),
        0 < capacity,
        needed <= usize::MAX,
    ensures
        priority::grown_repeatedly(config, capacity, needed) >= capacity,
        priority::grown_repeatedly(config, capacity, needed) >= needed,
    decreases
            if capacity < needed {
                needed - capacity
            } else {
                0
            },
{
    if capacity < needed {
        binary64::law_growth_is_strict(config.growth_factor, capacity);
        lemma_grown_repeatedly(config, config.growth_factor.product_ceil(capacity), needed);
    }
}

/// One operation keeps the invariant, and loses, invents and reorders nothing at
/// any level.
proof fn lemma_perform<T>(s: PriorityState<T>, op: Operation<T>, seen: int)
    requires
        s.wf(),
        0 <= seen < s.levels.len(),
    ensures
        perform(s, op, seen).state.wf(),
        perform(s, op, seen).state.config == s.config,
        s.levels[seen].items + perform(s, op, seen).accepted == perform(s, op, seen).taken
            + perform(s, op, seen).state.levels[seen].items,
{
    let out = perform(s, op, seen);
    law_pop_finds_an_item(s);
    match op {
        Operation::Push(level, items) => {
            if 0 <= level < s.levels.len() && s.accepts(level, items.len()) {
                lemma_grown_repeatedly(
                    s.config.base,
                    s.levels[level].capacity,
                    s.levels[level].items.len() + items.len(),
                );
            }
        },
        _ => {},
    }
    assert(s.levels[seen].items + out.accepted =~= out.taken + out.state.levels[seen].items);
}

/// Whatever is done to a buffer, every level stays within its capacity, and
/// every capacity within the configured limits.
pub proof fn law_levels_stay_bounded<T>(s: PriorityState<T>, ops: Seq<Operation<T>>, seen: int)
    requires
        s.wf(),
        0 <= seen < s.levels.len(),
    ensures
        perform_all(s, ops, seen).state.wf(),
        perform_all(s, ops, seen).state.config == s.config,
    decreases ops.len(),
{
    if ops.len() > 0 {
        law_levels_stay_bounded(s, ops.drop_last(), seen);
        lemma_perform(perform_all(s, ops.drop_last(), seen).state, ops.last(), seen);
    }
}

/// Within a level first in is first out, and nothing is lost or invented: what
/// the level held and took in is, in that order, what it gave out followed by
/// what it still holds.
pub proof fn law_first_in_first_out_within_level<T>(
    s: PriorityState<T>,
    ops: Seq<Operation<T>>,
    seen: int,
)
    requires
        s.wf(),
        0 <= seen < s.levels.len(),
    ensures
        s.levels[seen].items + perform_all(s, ops, seen).accepted == perform_all(
            s,
            ops,
            seen,
        ).taken + perform_all(s, ops, seen).state.levels[seen].items,
    decreases ops.len(),
{
    let out = perform_all(s, ops, seen);
    let held = s.levels[seen].items;
    if ops.len() == 0 {
        assert(held + out.accepted =~= out.taken + out.state.levels[seen].items);
    } else {
        let before = perform_all(s, ops.drop_last(), seen);
        let last = perform(before.state, ops.last(), seen);
        law_first_in_first_out_within_level(s, ops.drop_last(), seen);
        law_levels_stay_bounded(s, ops.drop_last(), seen);
        lemma_perform(before.state, ops.last(), seen);
        let middle = before.state.levels[seen].items;
        assert(held + out.accepted =~= (held + before.accepted) + last.accepted);
        assert((before.taken + middle) + last.accepted =~= before.taken + (middle
            + last.accepted));
        assert(before.taken + (last.taken + last.state.levels[seen].items) =~= out.taken
            + out.state.levels[seen].items);
    }
}

/// Counting in two goes is counting in one.
proof fn lemma_advanced(counter: u64, n: nat, m: nat)
    ensures
        priority::advanced(priority::advanced(counter, n), m) == priority::advanced(
            counter,
            n + m,
        ),
        priority::advanced(counter, 0) == counter,
{
}

/// One operation counts its items.
proof fn lemma_statistics<T>(s: PriorityState<T>, op: Operation<T>, seen: int)
    requires
        s.wf(),
        0 <= seen < s.levels.len(),
    ensures
        perform(s, op, seen).state.pushed[seen] == priority::advanced(
            s.pushed[seen],
            perform(s, op, seen).accepted.len(),
        ),
        perform(s, op, seen).state.popped[seen] == priority::advanced(
            s.popped[seen],
            perform(s, op, seen).taken.len(),
        ),
{
    law_pop_finds_an_item(s);
}

/// The statistics count the items that went in and came out at each level.
pub proof fn law_statistics_count_items<T>(s: PriorityState<T>, ops: Seq<Operation<T>>, seen: int)
    requires
        s.wf(),
        0 <= seen < s.levels.len(),
    ensures
        perform_all(s, ops, seen).state.pushed[seen] == priority::advanced(
            s.pushed[seen],
            perform_all(s, ops, seen).accepted.len(),
        ),
        perform_all(s, ops, seen).state.popped[seen] == priority::advanced(
            s.popped[seen],
            perform_all(s, ops, seen).taken.len(),
        ),
    decreases ops.len(),
{
    if ops.len() > 0 {
        let before = perform_all(s, ops.drop_last(), seen);
        law_statistics_count_items(s, ops.drop_last(), seen);
        law_levels_stay_bounded(s, ops.drop_last(), seen);
        let last = perform(before.state, ops.last(), seen);
        let out = perform_all(s, ops, seen);
        lemma_statistics(before.state, ops.last(), seen);
        lemma_advanced(s.pushed[seen], before.accepted.len(), last.accepted.len());
        lemma_advanced(s.popped[seen], before.taken.len(), last.taken.len());
        assert(out.accepted.len() == before.accepted.len() + last.accepted.len());
        assert(out.taken.len() == before.taken.len() + last.taken.len());
    } else {
        lemma_advanced(s.pushed[seen], 0, 0);
        lemma_advanced(s.popped[seen], 0, 0);
    }
}

/// How far below `current` a level lies in the order of turns; a full round for
/// the level whose turn is used up.
pub open spec fn turns_until<T>(s: PriorityState<T>, level: int) -> int {
    if level < s.current {
        s.current - level
    } else if level == s.current && s.served < s.config.max_consecutive_per_priority {
        0
    } else {
        s.current + s.levels.len() - level
    }
}

/// How many pops can go elsewhere before a level that holds an item is served.
pub open spec fn longest_wait<T>(s: PriorityState<T>, level: int) -> int {
    let most = s.config.max_consecutive_per_priority as int;
    if turns_until(s, level) == 0 {
        0
    } else {
        (most - s.served) + (turns_until(s, level) - 1) * most
    }
}

/// No level waits longer than all other levels together may be served in a row.
pub proof fn law_wait_is_bounded<T>(s: PriorityState<T>, level: int)
    requires
        s.wf(),
        0 <= level < s.levels.len(),
    ensures
        0 <= longest_wait(s, level) <= (s.levels.len() - 1)
            * s.config.max_consecutive_per_priority,
{
    let most = s.config.max_consecutive_per_priority as int;
    let turns = turns_until(s, level);
    let levels = s.levels.len() as int;
    assert(0 <= turns <= levels);
    assert((levels - 1) * most >= 0) by (nonlinear_arith)
        requires
            levels >= 1,
            most >= 0,
    ;
    if turns > 0 {
        assert((turns - 1) * most >= 0) by (nonlinear_arith)
            requires
                turns >= 1,
                most >= 0,
        ;
        if turns < levels {
            assert(most + (turns - 1) * most <= (levels - 1) * most) by (nonlinear_arith)
                requires
                    turns <= levels - 1,
                    most >= 0,
            ;
        }
    }
}

/// A pop that goes elsewhere brings a waiting level nearer to its turn.
proof fn lemma_pop_shortens_wait<T>(s: PriorityState<T>, level: int, served: int)
    requires
        s.wf(),
        s.config.fair_queuing,
        0 <= level < s.levels.len(),
        s.levels[level].items.len() > 0,
        s.next_level() == Some(served),
        served != level,
    ensures
        longest_wait(s, level) > 0,
        longest_wait(s.after_pop_at(served), level) < longest_wait(s, level),
{
    let most = s.config.max_consecutive_per_priority as int;
    let levels = s.levels.len() as int;
    let turns = turns_until(s, level);
    let after = s.after_pop_at(served);
    lemma_perform(s, Operation::Pop, level);
    law_wait_is_bounded(after, level);
    if s.turn_goes_on() {
        assert(turns_until(after, level) == turns);
        assert((turns - 1) * most >= 0) by (nonlinear_arith)
            requires
                turns >= 1,
                most >= 0,
        ;
    } else {
        lemma_first_in_turn(s, 1);
        let o = choose|o: int|
            1 <= o <= levels && served == #[trigger] priority::turn(s.current, o, levels)
                && forall|p: int|
                1 <= p < o ==> s.levels[#[trigger] priority::turn(
                    s.current,
                    p,
                    levels,
                )].items.len() == 0;
        assert(priority::turn(s.current, turns, levels) == level);
        assert(o < turns);
        assert(turns_until(after, level) <= turns - o);
        let left = turns_until(after, level);
        if left > 0 {
            assert((left - 1) * most <= (turns - 2) * most) by (nonlinear_arith)
                requires
                    left <= turns - 1,
                    most >= 0,
            ;
            assert((turns - 1) * most == (turns - 2) * most + most) by (nonlinear_arith);
        } else {
            assert((turns - 1) * most >= most) by (nonlinear_arith)
                requires
                    turns >= 2,
                    most >= 0,
            ;
        }
    }
}

/// An operation other than a pop of the next item leaves the turns as they are.
proof fn lemma_turns_change_with_pops<T>(s: PriorityState<T>, op: Operation<T>, level: int)
    requires
        !(op is Pop),
    ensures
        longest_wait(perform(s, op, level).state, level) == longest_wait(s, level),
{
}

/// With fair queuing no level starves: as long as a level holds an item and gets
/// none of its items served, only so many pops can have happened, whatever is
/// pushed meanwhile. The level is served within one pop more than all other
/// levels together may be served in a row.
pub proof fn law_no_level_starves<T>(s: PriorityState<T>, ops: Seq<Operation<T>>, level: int)
    requires
        s.wf(),
        s.config.fair_queuing,
        0 <= level < s.levels.len(),
        s.levels[level].items.len() > 0,
        perform_all(s, ops, level).taken.len() == 0,
    ensures
        pops(ops) <= longest_wait(s, level),
        pops(ops) <= (s.levels.len() - 1) * s.config.max_consecutive_per_priority,
{
    law_wait_is_bounded(s, level);
    lemma_waiting(s, ops, level);
    law_levels_stay_bounded(s, ops, level);
    law_wait_is_bounded(perform_all(s, ops, level).state, level);
}

/// Each pop so far has used up a part of the wait, and the item is still there.
proof fn lemma_waiting<T>(s: PriorityState<T>, ops: Seq<Operation<T>>, level: int)
    requires
        s.wf(),
        s.config.fair_queuing,
        0 <= level < s.levels.len(),
        s.levels[level].items.len() > 0,
        perform_all(s, ops, level).taken.len() == 0,
    ensures
        perform_all(s, ops, level).state.levels[level].items.len() > 0,
        pops(ops) + longest_wait(perform_all(s, ops, level).state, level) <= longest_wait(
            s,
            level,
        ),
    decreases ops.len(),
{
    law_first_in_first_out_within_level(s, ops, level);
    let out = perform_all(s, ops, level);
    assert((s.levels[level].items + out.accepted).len() == (out.taken
        + out.state.levels[level].items).len());
    if ops.len() > 0 {
        let before = perform_all(s, ops.drop_last(), level);
        lemma_waiting(s, ops.drop_last(), level);
        law_levels_stay_bounded(s, ops.drop_last(), level);
        law_pop_finds_an_item(before.state);
        if ops.last() is Pop {
            let served = before.state.next_level().unwrap();
            lemma_pop_shortens_wait(before.state, level, served);
        } else {
            lemma_turns_change_with_pops(before.state, ops.last(), level);
        }
    }
}

/// With fair queuing a level that has had its share in a row does not get the
/// next pop while another one waits.
pub proof fn law_turns_are_limited<T>(s: PriorityState<T>, waiting: int)
    requires
        s.wf(),
        s.config.fair_queuing,
        s.served == s.config.max_consecutive_per_priority,
        0 <= waiting < s.levels.len(),
        waiting != s.current,
        s.levels[waiting].items.len() > 0,
    ensures
        s.next_level() is Some,
        s.next_level() != Some(s.current),
{
    let levels = s.levels.len() as int;
    lemma_first_in_turn(s, 1);
    let p = turns_until(s, waiting);
    assert(priority::turn(s.current, p, levels) == waiting);
    assert(priority::turn(s.current, levels, levels) == s.current);
}

/// Whether every pop of the next item takes from one level while another level
/// holds an item.
pub open spec fn pops_stay_at<T>(s: PriorityState<T>, ops: Seq<Operation<T>>, level: int) -> bool
    decreases ops.len(),
{
    if ops.len() == 0 {
        true
    } else {
        let before = perform_all(s, ops.drop_last(), level).state;
        &&& pops_stay_at(s, ops.drop_last(), level)
        &&& ops.last() is Pop ==> before.next_level() == Some(level) && exists|waiting: int|
            0 <= waiting < before.levels.len() && waiting != level && (
            #[trigger] before.levels[waiting]).items.len() > 0
    }
}

/// With fair queuing no level gets more than its share in a row: of pops that all
/// take from one level, while another level waits at each of them, there are no
/// more than the configuration allows, whatever is done between them.
pub proof fn law_no_level_gets_more_than_its_share<T>(
    s: PriorityState<T>,
    ops: Seq<Operation<T>>,
    level: int,
)
    requires
        s.wf(),
        s.config.fair_queuing,
        0 <= level < s.levels.len(),
        pops_stay_at(s, ops, level),
    ensures
        pops(ops) <= s.config.max_consecutive_per_priority,
{
    lemma_share_is_counted(s, ops, level);
    law_levels_stay_bounded(s, ops, level);
}

/// Pops that stay at a level are counted as served in a row.
proof fn lemma_share_is_counted<T>(s: PriorityState<T>, ops: Seq<Operation<T>>, level: int)
    requires
        s.wf(),
        s.config.fair_queuing,
        0 <= level < s.levels.len(),
        pops_stay_at(s, ops, level),
    ensures
        pops(ops) > 0 ==> perform_all(s, ops, level).state.current == level,
        perform_all(s, ops, level).state.served >= pops(ops),
    decreases ops.len(),
{
    if ops.len() > 0 {
        let before = perform_all(s, ops.drop_last(), level).state;
        lemma_share_is_counted(s, ops.drop_last(), level);
        law_levels_stay_bounded(s, ops.drop_last(), level);
        if ops.last() is Pop {
            let waiting = choose|waiting: int|
                0 <= waiting < before.levels.len() && waiting != level && (
                #[trigger] before.levels[waiting]).items.len() > 0;
            law_pop_finds_an_item(before);
            if pops(ops.drop_last()) > 0 && !before.turn_goes_on() {
                law_turns_are_limited(before, waiting);
            }
        }
    }
}

/// Pushing one item as a batch is pushing the item.
pub proof fn law_single_push_grows_once<T>(s: PriorityState<T>, level: int, item: T)
    requires
        s.wf(),
        0 <= level < s.levels.len(),
        s.accepts(level, 1),
    ensures
        s.with_items(level, seq![item]).levels[level] == s.levels[level].extended(seq![item]),
{
    let before = s.levels[level];
    if before.items.len() == before.capacity {
        binary64::law_growth_is_strict(s.config.base.growth_factor, before.capacity);
        reveal_with_fuel(priority::grown_repeatedly, 2);
    }
}

/// Whether a level holds an item each time the next item is popped.
pub open spec fn holds_at_each_pop<T>(
    s: PriorityState<T>,
    ops: Seq<Operation<T>>,
    level: int,
) -> bool
    decreases ops.len(),
{
    if ops.len() == 0 {
        true
    } else {
        let before = perform_all(s, ops.drop_last(), level).state;
        &&& holds_at_each_pop(s, ops.drop_last(), level)
        &&& ops.last() is Pop ==> before.levels[level].items.len() > 0
    }
}

/// How many pops of the next item took it from a level.
pub open spec fn pops_at<T>(s: PriorityState<T>, ops: Seq<Operation<T>>, level: int) -> nat
    decreases ops.len(),
{
    if ops.len() == 0 {
        0
    } else {
        let before = perform_all(s, ops.drop_last(), level).state;
        pops_at(s, ops.drop_last(), level) + if ops.last() is Pop && before.next_level() == Some(
            level,
        ) {
            1nat
        } else {
            0nat
        }
    }
}

/// With fair queuing the turn is where the last pop went, and only a pop of the
/// next item moves it.
pub proof fn law_turn_moves_with_pops<T>(s: PriorityState<T>, op: Operation<T>, seen: int)
    requires
        s.wf(),
    ensures
        ({
            let after = perform(s, op, seen).state;
            &&& !(op is Pop) ==> after.current == s.current && after.served == s.served
            &&& op is Pop && s.config.fair_queuing && s.next_level() is Some ==> s.next_level()
                == Some(after.current)
            &&& op is Pop && s.next_level() is None ==> after == s
        }),
{
}

/// With fair queuing a level gets its full share: once a pop has moved the turn
/// to a level, that pop and those that follow all go to the level, up to as many
/// as the configuration allows, as long as the level holds an item at each of
/// them, whatever the other levels hold and whatever is done between the pops.
pub proof fn law_level_gets_its_full_share<T>(
    s: PriorityState<T>,
    ops: Seq<Operation<T>>,
    level: int,
)
    requires
        s.wf(),
        s.config.fair_queuing,
        0 <= level < s.levels.len(),
        s.current != level,
        s.next_level() == Some(level),
        ops.len() > 0,
        ops[0] is Pop,
        holds_at_each_pop(s, ops, level),
        pops(ops) <= s.config.max_consecutive_per_priority,
    ensures
        pops_at(s, ops, level) == pops(ops),
{
    lemma_share_from_the_start(s, ops, level);
}

/// The pops since the turn began are the ones counted as served in a row.
proof fn lemma_share_from_the_start<T>(
    s: PriorityState<T>,
    ops: Seq<Operation<T>>,
    level: int,
)
    requires
        s.wf(),
        s.config.fair_queuing,
        0 <= level < s.levels.len(),
        s.next_level() == Some(level),
        !s.turn_goes_on(),
        ops.len() > 0,
        ops[0] is Pop,
        holds_at_each_pop(s, ops, level),
        pops(ops) <= s.config.max_consecutive_per_priority,
    ensures
        pops_at(s, ops, level) == pops(ops),
        perform_all(s, ops, level).state.current == level,
        perform_all(s, ops, level).state.served == pops(ops),
    decreases ops.len(),
{
    let before = perform_all(s, ops.drop_last(), level).state;
    if ops.len() == 1 {
        assert(ops.drop_last().len() == 0);
        reveal_with_fuel(pops, 2);
        reveal_with_fuel(pops_at, 2);
    } else {
        lemma_share_from_the_start(s, ops.drop_last(), level);
        law_levels_stay_bounded(s, ops.drop_last(), level);
    }
}

/// The first turn of a new buffer is level 0's, and it gets its full share of it:
/// if it holds an item at each pop, so many pops go to it.
pub proof fn law_first_turn_is_a_full_share<T>(s: PriorityState<T>, ops: Seq<Operation<T>>)
    requires
        s.wf(),
        s.config.fair_queuing,
        s.current == 0,
        s.served == 0,
        holds_at_each_pop(s, ops, 0),
        pops(ops) <= s.config.max_consecutive_per_priority,
    ensures
        pops_at(s, ops, 0) == pops(ops),
        perform_all(s, ops, 0).state.current == 0,
        perform_all(s, ops, 0).state.served == pops(ops),
    decreases ops.len(),
{
    if ops.len() > 0 {
        law_first_turn_is_a_full_share(s, ops.drop_last());
        law_levels_stay_bounded(s, ops.drop_last(), 0);
    }
}

/// A level that has had its full share while no other level waits goes on with a
/// share of its own: the next pops all go to it again, as many as the
/// configuration allows, even if other levels get items meanwhile.
pub proof fn law_share_begins_anew<T>(
    s: PriorityState<T>,
    ops: Seq<Operation<T>>,
    more: Seq<Operation<T>>,
    level: int,
)
    requires
        s.wf(),
        s.config.fair_queuing,
        0 <= level < s.levels.len(),
        s.current != level,
        s.next_level() == Some(level),
        ops.len() > 0,
        ops[0] is Pop,
        holds_at_each_pop(s, ops, level),
        pops(ops) == s.config.max_consecutive_per_priority,
        forall|i: int|
            0 <= i < s.levels.len() && i != level ==> (#[trigger] perform_all(
                s,
                ops,
                level,
            ).state.levels[i]).items.len() == 0,
        more.len() > 0,
        more[0] is Pop,
        perform_all(s, ops, level).state.levels[level].items.len() > 0,
        holds_at_each_pop(perform_all(s, ops, level).state, more, level),
        pops(more) <= s.config.max_consecutive_per_priority,
    ensures
        pops_at(perform_all(s, ops, level).state, more, level) == pops(more),
{
    let middle = perform_all(s, ops, level).state;
    lemma_share_from_the_start(s, ops, level);
    law_levels_stay_bounded(s, ops, level);
    law_pop_finds_an_item(middle);
    lemma_share_from_the_start(middle, more, level);
}

/// With fair queuing the turn goes downwards: a pop that leaves the level whose
/// turn it was takes from the next lower level that holds an item, or, if there is
/// none below, from the highest level that holds one.
pub proof fn law_turn_goes_downwards<T>(s: PriorityState<T>, level: int)
    requires
        s.wf(),
        s.config.fair_queuing,
        s.next_level() == Some(level),
        level != s.current,
    ensures
        level < s.current ==> forall|i: int|
            level < i < s.current ==> (#[trigger] s.levels[i]).items.len() == 0,
        level > s.current ==> forall|i: int|
            (0 <= i < s.current || level < i < s.levels.len()) ==> (
            #[trigger] s.levels[i]).items.len() == 0,
{
    let levels = s.levels.len() as int;
    lemma_first_in_turn(s, 1);
    let o = choose|o: int|
        1 <= o <= levels && level == #[trigger] priority::turn(s.current, o, levels) && forall|
            p: int,
        |
            1 <= p < o ==> s.levels[#[trigger] priority::turn(
                s.current,
                p,
                levels,
            )].items.len() == 0;
    assert forall|i: int|
        (level < i < s.current || (level > s.current && (0 <= i < s.current || level < i
            < levels))) implies (#[trigger] s.levels[i]).items.len() == 0 by {
        let p = if i < s.current {
            s.current - i
        } else {
            s.current + levels - i
        };
        assert(priority::turn(s.current, p, levels) == i);
        assert(p < o);
    }
}

/// The turn leaves a level only for a reason: the level is empty, or it has had
/// as many items in a row as the configuration allows. It stays at a level that
/// has had its share only if no other level holds an item.
pub proof fn law_turn_leaves_for_a_reason<T>(s: PriorityState<T>, level: int)
    requires
        s.wf(),
        s.config.fair_queuing,
        s.next_level() == Some(level),
    ensures
        level != s.current ==> s.levels[s.current].items.len() == 0 || s.served
            == s.config.max_consecutive_per_priority,
        level == s.current && s.served == s.config.max_consecutive_per_priority ==> forall|i: int|
            0 <= i < s.levels.len() && i != level ==> (#[trigger] s.levels[i]).items.len() == 0,
{
    assert forall|i: int|
        level == s.current && s.served == s.config.max_consecutive_per_priority && 0 <= i
            < s.levels.len() && i != level implies (#[trigger] s.levels[i]).items.len() == 0 by {
        if s.levels[i].items.len() > 0 {
            law_turns_are_limited(s, i);
        }
    }
}

/// A priority below the number of levels stands for the level of that number, and
/// any other for the highest level: the pushed items are the last ones there, in
/// their order, and all other levels are as they were.
pub proof fn law_priority_is_the_level<T>(
    s: PriorityState<T>,
    priority: priority::Priority,
    items: Seq<T>,
)
    requires
        s.wf(),
        s.accepts(s.level_of(priority), items.len()),
    ensures
        ({
            let after = s.with_items(s.level_of(priority), items);
            let level = if priority < s.levels.len() {
                priority as int
            } else {
                s.levels.len() - 1
            };
            &&& after.levels.len() == s.levels.len()
            &&& after.levels[level].items == s.levels[level].items + items
            &&& forall|i: int|
                0 <= i < s.levels.len() && i != level ==> #[trigger] after.levels[i] == s.levels[i]
        }),
{
}

/// In strict order an item of a higher priority comes before one of a lower
/// priority: after a push at a priority that has a level, the next pop takes from
/// that level or from a higher one.
pub proof fn law_higher_priority_comes_first<T>(
    s: PriorityState<T>,
    priority: priority::Priority,
    item: T,
)
    requires
        s.wf(),
        !s.config.fair_queuing,
        priority < s.levels.len(),
        s.accepts(s.level_of(priority), 1),
    ensures
        ({
            let after = s.with_items(s.level_of(priority), seq![item]);
            after.next_level() matches Some(level) && level >= priority
        }),
        s.levels[priority as int].items.len() == 0 && (forall|i: int|
            priority < i < s.levels.len() ==> (#[trigger] s.levels[i]).items.len() == 0) ==> s.with_items(
            s.level_of(priority),
            seq![item],
        ).popped_items(1) == seq![item],
{
    let after = s.with_items(s.level_of(priority), seq![item]);
    lemma_perform(s, Operation::Push(s.level_of(priority), seq![item]), 0);
    law_priority_is_the_level(s, priority, seq![item]);
    law_pop_finds_an_item(after);
    let level = after.next_level().unwrap();
    law_most_urgent_first(after, level);
    assert(after.levels[priority as int].items.len() > 0);
    reveal_with_fuel(PriorityState::popped_items, 2);
    if s.levels[priority as int].items.len() == 0 && (forall|i: int|
        priority < i < s.levels.len() ==> (#[trigger] s.levels[i]).items.len() == 0) {
        if level > priority {
            assert(after.levels[level] == s.levels[level]);
        }
        assert(after.popped_items(1) =~= seq![item]);
    }
}

/// Two items pushed at different priorities that have a level come out of an
/// empty buffer in strict order with the higher priority first, in whichever
/// order they were pushed.
pub proof fn law_strict_order_of_two<T>(
    s: PriorityState<T>,
    low: priority::Priority,
    high: priority::Priority,
    x: T,
    y: T,
)
    requires
        s.wf(),
        !s.config.fair_queuing,
        low < high < s.levels.len(),
        forall|i: int| 0 <= i < s.levels.len() ==> (#[trigger] s.levels[i]).items.len() == 0,
    ensures
        s.with_items(s.level_of(low), seq![x]).with_items(
            s.level_of(high),
            seq![y],
        ).popped_items(2) == seq![y, x],
        s.with_items(s.level_of(high), seq![y]).with_items(
            s.level_of(low),
            seq![x],
        ).popped_items(2) == seq![y, x],
{
    let first = Operation::Push(s.level_of(low), seq![x]);
    let second = Operation::Push(s.level_of(high), seq![y]);
    let with_low = s.with_items(s.level_of(low), seq![x]);
    let with_high = s.with_items(s.level_of(high), seq![y]);
    assert(s.levels[low as int].wf() && s.levels[high as int].wf());
    lemma_perform(s, first, 0);
    lemma_perform(s, second, 0);
    lemma_perform(with_low, second, 0);
    lemma_perform(with_high, first, 0);
    lemma_two_pops(with_low.with_items(s.level_of(high), seq![y]), low as int, high as int, x, y);
    lemma_two_pops(with_high.with_items(s.level_of(low), seq![x]), low as int, high as int, x, y);
}

/// Two pops take the item of the higher level, and then that of the lower one.
proof fn lemma_two_pops<T>(s: PriorityState<T>, low: int, high: int, x: T, y: T)
    requires
        s.wf(),
        !s.config.fair_queuing,
        0 <= low < high < s.levels.len(),
        forall|i: int|
            0 <= i < s.levels.len() && i != low && i != high ==> (
            #[trigger] s.levels[i]).items.len() == 0,
        s.levels[low].items == seq![x],
        s.levels[high].items == seq![y],
    ensures
        s.popped_items(2) == seq![y, x],
{
    law_pop_finds_an_item(s);
    let level = s.next_level().unwrap();
    law_most_urgent_first(s, level);
    assert(s.levels[high].items.len() > 0);
    assert(level == high);
    let after = s.after_pop_at(high);
    lemma_perform(s, Operation::Pop, high);
    law_pop_finds_an_item(after);
    assert(after.levels[low].items.len() > 0);
    law_most_urgent_first(after, after.next_level().unwrap());
    assert(after.next_level() == Some(low));
    reveal_with_fuel(PriorityState::popped_items, 3);
    assert(s.popped_items(2) =~= seq![y, x]);
}

/// Popping in two goes is popping in one, and one pop gives the oldest item of the
/// level whose turn it is.
pub proof fn law_batches_are_single_pops<T>(s: PriorityState<T>, n: nat, m: nat)
    requires
        s.wf(),
    ensures
        s.popped_items(n + m) == s.popped_items(n) + s.after_pops(n).popped_items(m),
        s.after_pops(n + m) == s.after_pops(n).after_pops(m),
        s.next_level() matches Some(level) ==> s.popped_items(1) == seq![s.levels[level].items[0]]
            && s.after_pops(1) == perform(s, Operation::Pop, 0).state,
        s.next_level() is None ==> s.popped_items(n) == Seq::<T>::empty() && s.after_pops(n) == s,
        s.popped_items(0) == Seq::<T>::empty(),
        s.after_pops(0) == s,
    decreases n,
{
    reveal_with_fuel(PriorityState::popped_items, 2);
    reveal_with_fuel(PriorityState::after_pops, 2);
    match s.next_level() {
        Some(level) => {
            assert(s.popped_items(1) =~= seq![s.levels[level].items[0]]);
            if n > 0 {
                let after = s.after_pop_at(level);
                lemma_perform(s, Operation::Pop, 0);
                law_batches_are_single_pops(after, (n - 1) as nat, m);
                assert((n + m - 1) as nat == (n - 1) as nat + m);
                assert(s.popped_items(n + m) =~= s.popped_items(n) + s.after_pops(
                    n,
                ).popped_items(m));
            } else {
                assert(s.popped_items(n + m) =~= s.popped_items(0) + s.popped_items(m));
            }
        },
        None => {
            assert(s.popped_items(n + m) =~= Seq::<T>::empty());
            assert(s.popped_items(m) =~= Seq::<T>::empty());
            assert(s.popped_items(n) =~= Seq::<T>::empty());
            assert(Seq::<T>::empty() + Seq::<T>::empty() =~= Seq::<T>::empty());
        },
    }
}

/// Replacing one level changes the sum of the lengths by as much as that level.
proof fn lemma_total_len<T>(
    levels: Seq<crate::buffer::BufferState<T>>,
    level: int,
    by: crate::buffer::BufferState<T>,
    n: int,
)
    requires
        0 <= level < levels.len(),
        0 <= n <= levels.len(),
    ensures
        level < n ==> priority::total_len(levels.update(level, by), n) == priority::total_len(
            levels,
            n,
        ) - levels[level].items.len() + by.items.len(),
        level >= n ==> priority::total_len(levels.update(level, by), n) == priority::total_len(
            levels,
            n,
        ),
    decreases n,
{
    if n > 0 {
        lemma_total_len(levels, level, by, n - 1);
    }
}

/// No level is longer than all of them together.
proof fn lemma_total_len_is_a_sum<T>(levels: Seq<crate::buffer::BufferState<T>>, level: int, n: int)
    requires
        0 <= level < n <= levels.len(),
    ensures
        priority::total_len(levels, n) >= levels[level].items.len(),
    decreases n,
{
    if level < n - 1 {
        lemma_total_len_is_a_sum(levels, level, n - 1);
    }
}

/// The sum of the lengths is zero for empty levels, and positive for others.
proof fn lemma_total_len_of_empty<T>(levels: Seq<crate::buffer::BufferState<T>>, n: int)
    requires
        0 <= n <= levels.len(),
    ensures
        priority::total_len(levels, n) == 0 <==> forall|i: int|
            0 <= i < n ==> (#[trigger] levels[i]).items.len() == 0,
    decreases n,
{
    if n > 0 {
        lemma_total_len_of_empty(levels, n - 1);
        assert forall|i: int|
            priority::total_len(levels, n) == 0 && 0 <= i < n implies (
        #[trigger] levels[i]).items.len() == 0 by {
            lemma_total_len_is_a_sum(levels, i, n);
        }
    }
}

/// The length of a buffer counts the items of all levels: an empty buffer has
/// none, a push adds as many as it took in, and a pop takes one away.
pub proof fn law_length_counts_all_levels<T>(s: PriorityState<T>, op: Operation<T>)
    requires
        s.wf(),
    ensures
        ({
            let n = s.levels.len() as int;
            let before = priority::total_len(s.levels, n);
            let after = priority::total_len(perform(s, op, 0).state.levels, n);
            &&& before == 0 <==> forall|i: int|
                0 <= i < n ==> (#[trigger] s.levels[i]).items.len() == 0
            &&& op matches Operation::Push(level, items) ==> {
                if 0 <= level < n && s.levels[level].items.len() + items.len()
                    <= s.config.base.max_capacity {
                    after == before + items.len()
                } else {
                    after == before
                }
            }
            &&& op is Pop ==> if before == 0 {
                after == 0
            } else {
                after == before - 1
            }
            &&& op matches Operation::PopFrom(level) ==> if 0 <= level < n
                && s.levels[level].items.len() > 0 {
                after == before - 1
            } else {
                after == before
            }
        }),
{
    let n = s.levels.len() as int;
    lemma_total_len_of_empty(s.levels, n);
    law_pop_finds_an_item(s);
    let after = perform(s, op, 0).state;
    match op {
        Operation::Push(level, items) => {
            if 0 <= level < n && s.accepts(level, items.len()) {
                lemma_total_len(s.levels, level, after.levels[level], n);
                assert(after.levels =~= s.levels.update(level, after.levels[level]));
            }
        },
        Operation::Pop => {
            if s.next_level() is Some {
                let level = s.next_level().unwrap();
                lemma_total_len(s.levels, level, after.levels[level], n);
                assert(after.levels =~= s.levels.update(level, after.levels[level]));
            }
        },
        Operation::PopFrom(level) => {
            if 0 <= level < n && s.levels[level].items.len() > 0 {
                lemma_total_len(s.levels, level, after.levels[level], n);
                assert(after.levels =~= s.levels.update(level, after.levels[level]));
            }
        },
    }
}

/// The totals count all items that went in and came out, whatever the level, and
/// go around at the largest `u64`.
pub proof fn law_totals_count_items<T>(s: PriorityState<T>, op: Operation<T>)
    requires
        s.wf(),
    ensures
        ({
            let after = perform(s, op, 0).state;
            let n = s.levels.len() as int;
            let held = priority::total_len(s.levels, n);
            let left = priority::total_len(after.levels, n);
            let wrap = 0x1_0000_0000_0000_0000int;
            &&& op is Push ==> after.total_pushed == (s.total_pushed + (left - held)) % wrap
                && after.total_popped == s.total_popped
            &&& !(op is Push) ==> after.total_popped == (s.total_popped + (held - left)) % wrap
                && after.total_pushed == s.total_pushed
        }),
{
    law_length_counts_all_levels(s, op);
    law_pop_finds_an_item(s);
    lemma_total_len_of_empty(s.levels, s.levels.len() as int);
}

/// Taking an item out of a level leaves all other levels, with their counts, as
/// they were, and shrinks the level by the configured threshold.
pub proof fn law_pop_touches_one_level<T>(s: PriorityState<T>, level: int)
    requires
        s.wf(),
        0 <= level < s.levels.len(),
        s.levels[level].items.len() > 0,
    ensures
        ({
            let after = s.without_first_of(level);
            &&& after.levels[level].items == s.levels[level].items.skip(1)
            &&& crate::buffer_laws::shrinks_by_threshold(s.levels[level], after.levels[level])
            &&& after.levels.len() == s.levels.len()
            &&& forall|i: int|
                #![trigger after.levels[i]]
                #![trigger after.popped[i]]
                0 <= i < s.levels.len() && i != level ==> after.levels[i] == s.levels[i]
                    && after.popped[i] == s.popped[i]
            &&& after.pushed == s.pushed
            &&& after.config == s.config
        }),
        s.next_level() == Some(level) ==> s.after_pop_at(level).levels == s.without_first_of(
            level,
        ).levels,
{
    crate::buffer_laws::law_removal_shrinks_by_the_threshold(s.levels[level], 1);
}

/// A capacity after growing by the factor so many times.
pub open spec fn grown_times(config: crate::config::Config, capacity: nat, times: nat) -> nat
    decreases times,
{
    if times == 0 {
        capacity
    } else {
        config.growth_factor.product_ceil(grown_times(config, capacity, (times - 1) as nat))
    }
}

/// Growing once before growing so many times is growing once more.
proof fn lemma_grown_times(config: crate::config::Config, capacity: nat, times: nat)
    ensures
        grown_times(config, config.growth_factor.product_ceil(capacity), times) == grown_times(
            config,
            capacity,
            times + 1,
        ),
    decreases times,
{
    reveal_with_fuel(grown_times, 2);
    if times > 0 {
        lemma_grown_times(config, capacity, (times - 1) as nat);
    }
}

/// How often a capacity grows to hold what is needed.
proof fn lemma_growth_times(config: crate::config::Config, capacity: nat, needed: nat) -> (times:
    nat)
    requires
        config.valid(),
        0 < capacity,
        needed <= usize::MAX,
    ensures
        priority::grown_repeatedly(config, capacity, needed) == grown_times(
            config,
            capacity,
            times,
        ),
        forall|t: nat| t < times ==> #[trigger] grown_times(config, capacity, t) < needed,
    decreases
            if capacity < needed {
                needed - capacity
            } else {
                0
            },
{
    if capacity < needed {
        binary64::law_growth_is_strict(config.growth_factor, capacity);
        let next = config.growth_factor.product_ceil(capacity);
        let rest = lemma_growth_times(config, next, needed);
        lemma_grown_times(config, capacity, rest);
        assert forall|t: nat| t < rest + 1 implies #[trigger] grown_times(config, capacity, t)
            < needed by {
            if t > 0 {
                lemma_grown_times(config, capacity, (t - 1) as nat);
                assert(grown_times(config, next, (t - 1) as nat) < needed);
            }
        }
        rest + 1
    } else {
        0
    }
}

/// How far a level grows: by the factor, as often as it takes to hold what is
/// needed and no more often, and never above the maximum.
pub proof fn law_level_grows_by_the_factor<T>(s: PriorityState<T>, level: int, items: Seq<T>)
    requires
        s.wf(),
        0 <= level < s.levels.len(),
        s.accepts(level, items.len()),
    ensures
        ({
            let before = s.levels[level];
            let after = s.with_items(level, items).levels[level];
            let needed = before.items.len() + items.len();
            let max = s.config.base.max_capacity;
            &&& needed <= before.capacity ==> after.capacity == before.capacity
            &&& needed <= after.capacity <= max
            &&& exists|times: nat|
                #![trigger grown_times(s.config.base, before.capacity, times)]
                {
                    &&& after.capacity == grown_times(s.config.base, before.capacity, times) || (
                    after.capacity == max && grown_times(s.config.base, before.capacity, times)
                        > max)
                    &&& forall|t: nat|
                        t < times ==> #[trigger] grown_times(s.config.base, before.capacity, t)
                            < needed
                }
        }),
{
    let before = s.levels[level];
    let needed = before.items.len() + items.len();
    assert(before.wf());
    lemma_grown_repeatedly(s.config.base, before.capacity, needed);
    let times = lemma_growth_times(s.config.base, before.capacity, needed);
    assert(grown_times(s.config.base, before.capacity, times) == priority::grown_repeatedly(
        s.config.base,
        before.capacity,
        needed,
    ));
}

/// A level takes items in if and only if they fit under the maximum.
pub proof fn law_level_has_room_up_to_the_maximum<T>(s: PriorityState<T>, level: int, n: nat)
    requires
        s.wf(),
        0 <= level < s.levels.len(),
    ensures
        s.accepts(level, n) <==> s.levels[level].items.len() + n <= s.config.base.max_capacity,
{
}

/// Clearing empties every level, brings the initial capacities back, and leaves
/// the statistics and the turn alone.
pub proof fn law_clearing_empties_all_levels<T>(s: PriorityState<T>)
    requires
        s.wf(),
    ensures
        ({
            let after = s.cleared();
            &&& after.levels.len() == s.levels.len()
            &&& forall|i: int|
                0 <= i < s.levels.len() ==> (#[trigger] after.levels[i]).items.len() == 0
                    && after.levels[i].capacity == s.config.base.initial_capacity
                    && after.levels[i].config == s.config.base
            &&& after.total_pushed == s.total_pushed
            &&& after.total_popped == s.total_popped
            &&& after.pushed == s.pushed
            &&& after.popped == s.popped
            &&& after.current == s.current
            &&& after.served == s.served
            &&& after.config == s.config
        }),
{
}

/// What a usable priority configuration is, and which broken rule is reported.
pub proof fn law_usable_priority_configurations(config: priority::PriorityConfig)
    ensures
        config.valid() <==> config.base.valid() && 0 < config.priority_levels <= 256
            && config.max_consecutive_per_priority > 0,
        !config.base.valid() ==> config.defect() == config.base.defect(),
        config.base.valid() && config.priority_levels == 0 ==> config.defect() == Some(
            "priority_levels must be greater than 0"@,
        ),
        config.base.valid() && config.priority_levels > 256 ==> config.defect() == Some(
            "priority_levels must be <= 256"@,
        ),
        config.base.valid() && 0 < config.priority_levels <= 256
            && config.max_consecutive_per_priority == 0 ==> config.defect() == Some(
            "max_consecutive_per_priority must be greater than 0"@,
        ),
{
}

} // verus!
