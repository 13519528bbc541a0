//! A buffer with a queue for each of several priority levels.

use crate::buffer::{into_deque, release_memory, BufferState};
use crate::config;
use crate::config::Config;
use crate::error::{BufferError, BufferResult};
use crate::priority_laws;
use crate::priority_laws::Operation;
use crate::text;
use crate::text::{decimal_text, join};
use std::collections::VecDeque;
use vstd::prelude::*;
use vstd::std_specs::vecdeque::*;
use vstd::string::*;

verus! {

/// The number of priority levels unless configured otherwise.
pub const DEFAULT_PRIORITY_LEVELS: usize = 3;

/// The largest number of priority levels.
const MAX_PRIORITY_LEVELS: usize = 256;

/// A priority: the larger, the more urgent.
pub type Priority = u8;

/// The configuration of a priority buffer.
#[derive(Debug)]
pub struct PriorityConfig {
    /// The limits and the sizing rules of each queue.
    pub base: Config,
    /// The number of priority levels.
    pub priority_levels: usize,
    /// Whether all levels get their turn. If not, the most urgent item always
    /// comes first.
    pub fair_queuing: bool,
    /// How many items in a row one level may get when all get their turn.
    pub max_consecutive_per_priority: usize,
}

impl PriorityConfig {
    /// The first rule that the configuration breaks, if it breaks one.
    pub open spec fn defect(self) -> Option<Seq<char>> {
        if !self.base.valid() {
            self.base.defect()
        } else if self.priority_levels == 0 {
            Some("priority_levels must be greater than 0"@)
        } else if self.priority_levels > 256 {
            Some("priority_levels must be <= 256"@)
        } else if self.max_consecutive_per_priority == 0 {
            Some("max_consecutive_per_priority must be greater than 0"@)
        } else {
            None
        }
    }

    /// Whether the configuration breaks no rule.
    pub open spec fn valid(self) -> bool {
        self.defect() is None
    }

    /// The configuration that `default` returns.
    pub open spec fn standard(self) -> bool {
        &&& self.base.standard()
        &&& self.priority_levels == 3
        &&& self.fair_queuing
        &&& self.max_consecutive_per_priority == 10
    }

    /// The default configuration.
    pub fn new() -> (r: Self)
        ensures
            r.standard(),
            r.valid(),
            r.base.standard(),
            r.priority_levels == 3,
            r.fair_queuing,
            r.max_consecutive_per_priority == 10,
    {
        PriorityConfig::default()
    }

    /// The same configuration with other limits and sizing rules.
    pub fn with_base_config(self, config: Config) -> (r: Self)
        ensures
            r == (PriorityConfig { base: config, ..self }),
    {
        PriorityConfig { base: config, ..self }
    }

    /// The same configuration with another number of levels.
    pub fn with_priority_levels(self, levels: usize) -> (r: Self)
        ensures
            r == (PriorityConfig { priority_levels: levels, ..self }),
    {
        PriorityConfig { priority_levels: levels, ..self }
    }

    /// The same configuration with fair queuing switched on or off.
    pub fn with_fair_queuing(self, enabled: bool) -> (r: Self)
        ensures
            r == (PriorityConfig { fair_queuing: enabled, ..self }),
    {
        PriorityConfig { fair_queuing: enabled, ..self }
    }

    /// The same configuration with another limit on items in a row.
    pub fn with_max_consecutive(self, max: usize) -> (r: Self)
        ensures
            r == (PriorityConfig { max_consecutive_per_priority: max, ..self }),
    {
        PriorityConfig { max_consecutive_per_priority: max, ..self }
    }

    /// Checks the configuration.
    pub fn validate(&self) -> (r: BufferResult<()>)
        ensures
            r is Ok <==> self.valid(),
            r matches Err(e) ==> (e matches BufferError::InvalidConfiguration(s) && self.defect()
                == Some(s@)),
    {
        match self.base.validate() {
            Err(e) => {
                return Err(e);
            },
            Ok(()) => {},
        }
        if self.priority_levels == 0 {
            return Err(
                BufferError::InvalidConfiguration(
                    "priority_levels must be greater than 0".to_owned(),
                ),
            );
        }
        if self.priority_levels > MAX_PRIORITY_LEVELS {
            return Err(
                BufferError::InvalidConfiguration("priority_levels must be <= 256".to_owned()),
            );
        }
        if self.max_consecutive_per_priority == 0 {
            return Err(
                BufferError::InvalidConfiguration(
                    "max_consecutive_per_priority must be greater than 0".to_owned(),
                ),
            );
        }
        Ok(())
    }
}

impl Clone for PriorityConfig {
    fn clone(&self) -> (r: Self)
        ensures
            r == *self,
    {
        PriorityConfig {
            base: self.base.clone(),
            priority_levels: self.priority_levels,
            fair_queuing: self.fair_queuing,
            max_consecutive_per_priority: self.max_consecutive_per_priority,
        }
    }
}

impl Default for PriorityConfig {
    fn default() -> (r: Self)
        ensures
            r.standard(),
            r.valid(),
            r.base.standard(),
            r.priority_levels == 3,
            r.fair_queuing,
            r.max_consecutive_per_priority == 10,
    {
        PriorityConfig {
            base: Config::default(),
            priority_levels: DEFAULT_PRIORITY_LEVELS,
            fair_queuing: true,
            max_consecutive_per_priority: 10,
        }
    }
}

/// Statistics about a priority buffer. The counters go around at the largest
/// `u64`.
#[derive(Clone, Debug, Default)]
pub struct PriorityStats {
    /// How many items were pushed.
    pub total_pushed: u64,
    /// How many items were popped.
    pub total_popped: u64,
    /// How many items were pushed at each level.
    pub pushed_per_priority: Vec<u64>,
    /// How many items were popped at each level.
    pub popped_per_priority: Vec<u64>,
    /// How many items each level holds.
    pub len_per_priority: Vec<usize>,
}

/// A counter after `n` more events.
pub open spec fn advanced(counter: u64, n: nat) -> u64 {
    ((counter + n) % 0x1_0000_0000_0000_0000) as u64
}

/// A capacity below `needed` after growing often enough to hold `needed` items.
pub open spec fn grown_repeatedly(config: Config, capacity: nat, needed: nat) -> nat
    decreases
            if capacity < needed {
                needed - capacity
            } else {
                0
            },
{
    if capacity < needed && config.growth_factor.product_ceil(capacity) > capacity {
        grown_repeatedly(config, config.growth_factor.product_ceil(capacity), needed)
    } else {
        capacity
    }
}

/// The level that lies `offset` below `current`, counting on from the top after
/// level 0.
pub open spec fn turn(current: int, offset: int, levels: int) -> int {
    if offset <= current {
        current - offset
    } else {
        current + levels - offset
    }
}

/// The sum of the lengths of the first `n` levels.
pub open spec fn total_len<T>(levels: Seq<BufferState<T>>, n: int) -> nat
    decreases n,
{
    if n <= 0 {
        0
    } else {
        total_len(levels, n - 1) + levels[n - 1].items.len()
    }
}

/// What a priority buffer holds at each level, what it has counted, and whose
/// turn it is.
#[verifier::ext_equal]
pub struct PriorityState<T> {
    /// The queue of each level, the least urgent level first.
    pub levels: Seq<BufferState<T>>,
    /// Items pushed.
    pub total_pushed: u64,
    /// Items popped.
    pub total_popped: u64,
    /// Items pushed at each level.
    pub pushed: Seq<u64>,
    /// Items popped at each level.
    pub popped: Seq<u64>,
    /// The level whose turn it is.
    pub current: int,
    /// How many items in a row that level has got.
    pub served: nat,
    /// The configuration.
    pub config: PriorityConfig,
}

impl<T> PriorityState<T> {
    /// Every level keeps its limits, and the turn is one of the levels' within
    /// its limit.
    pub open spec fn wf(self) -> bool {
        &&& self.config.valid()
        &&& self.levels.len() == self.config.priority_levels
        &&& self.pushed.len() == self.levels.len()
        &&& self.popped.len() == self.levels.len()
        &&& forall|i: int|
            0 <= i < self.levels.len() ==> (#[trigger] self.levels[i]).wf()
                && self.levels[i].config == self.config.base
        &&& 0 <= self.current < self.levels.len()
        &&& self.served <= self.config.max_consecutive_per_priority
    }

    /// The level that a priority stands for: the most urgent one if there is
    /// none for it.
    pub open spec fn level_of(self, priority: Priority) -> int {
        config::smaller(priority as nat, (self.config.priority_levels - 1) as nat) as int
    }

    /// The highest non-empty level below `n`.
    pub open spec fn highest_below(self, n: int) -> Option<int>
        decreases n,
    {
        if n <= 0 {
            None
        } else if self.levels[n - 1].items.len() > 0 {
            Some(n - 1)
        } else {
            self.highest_below(n - 1)
        }
    }

    /// The first non-empty level in turn, from `offset` turns after the present
    /// one.
    pub open spec fn first_in_turn(self, offset: int) -> Option<int>
        decreases self.levels.len() + 1 - offset,
    {
        let level = turn(self.current, offset, self.levels.len() as int);
        if offset > self.levels.len() {
            None
        } else if self.levels[level].items.len() > 0 {
            Some(level)
        } else {
            self.first_in_turn(offset + 1)
        }
    }

    /// Whether the level whose turn it is gets one more item.
    pub open spec fn turn_goes_on(self) -> bool {
        self.served < self.config.max_consecutive_per_priority && self.levels[self.current].items.len()
            > 0
    }

    /// The level that the next pop takes from, if there is an item.
    pub open spec fn next_level(self) -> Option<int> {
        if !self.config.fair_queuing {
            self.highest_below(self.levels.len() as int)
        } else if self.turn_goes_on() {
            Some(self.current)
        } else {
            self.first_in_turn(1)
        }
    }

    /// The state after the oldest item of a level was taken out.
    pub open spec fn without_first_of(self, level: int) -> Self {
        PriorityState {
            levels: self.levels.update(level, self.levels[level].without_oldest(1)),
            total_popped: advanced(self.total_popped, 1),
            popped: self.popped.update(level, advanced(self.popped[level], 1)),
            ..self
        }
    }

    /// The state after a pop that takes from `level`.
    pub open spec fn after_pop_at(self, level: int) -> Self {
        let rest = self.without_first_of(level);
        if !self.config.fair_queuing {
            rest
        } else if self.turn_goes_on() {
            PriorityState { served: self.served + 1, ..rest }
        } else {
            PriorityState { current: level, served: 1, ..rest }
        }
    }

    /// The items that `n` pops give, as long as there are any.
    pub open spec fn popped_items(self, n: nat) -> Seq<T>
        decreases n,
    {
        match self.next_level() {
            Some(level) if n > 0 => seq![self.levels[level].items[0]] + self.after_pop_at(
                level,
            ).popped_items((n - 1) as nat),
            _ => Seq::empty(),
        }
    }

    /// The state after `n` pops, as long as there are any items.
    pub open spec fn after_pops(self, n: nat) -> Self
        decreases n,
    {
        match self.next_level() {
            Some(level) if n > 0 => self.after_pop_at(level).after_pops((n - 1) as nat),
            _ => self,
        }
    }

    /// Whether a level takes in `n` more items.
    pub open spec fn accepts(self, level: int, n: nat) -> bool {
        self.levels[level].accepts(n)
    }

    /// The state after `items` were added at a level.
    pub open spec fn with_items(self, level: int, items: Seq<T>) -> Self {
        let before = self.levels[level];
        let after = BufferState {
            items: before.items + items,
            capacity: config::smaller(
                grown_repeatedly(
                    self.config.base,
                    before.capacity,
                    before.items.len() + items.len(),
                ),
                self.config.base.max_capacity as nat,
            ),
            config: before.config,
        };
        PriorityState {
            levels: self.levels.update(level, after),
            total_pushed: advanced(self.total_pushed, items.len()),
            pushed: self.pushed.update(level, advanced(self.pushed[level], items.len())),
            ..self
        }
    }

    /// The state after everything was thrown away.
    pub open spec fn cleared(self) -> Self {
        PriorityState {
            levels: Seq::new(self.levels.len(), |i: int| self.levels[i].cleared()),
            ..self
        }
    }
}

/// Whose turn it is.
struct FairQueueState {
    current_priority: usize,
    consecutive_count: usize,
}

/// A buffer that gives the more urgent items out first, or each level its turn.
pub struct PriorityCircularBuffer<T> {
    queues: Vec<VecDeque<T>>,
    capacities: Vec<usize>,
    config: PriorityConfig,
    total_pushed: u64,
    total_popped: u64,
    pushed_per_priority: Vec<u64>,
    popped_per_priority: Vec<u64>,
    fair_queue_state: FairQueueState,
}

impl<T> View for PriorityCircularBuffer<T> {
    type V = PriorityState<T>;

    closed spec fn view(&self) -> PriorityState<T> {
        PriorityState {
            levels: Seq::new(self.queues@.len(), |i: int| self.level(i)),
            total_pushed: self.total_pushed,
            total_popped: self.total_popped,
            pushed: self.pushed_per_priority@,
            popped: self.popped_per_priority@,
            current: self.fair_queue_state.current_priority as int,
            served: self.fair_queue_state.consecutive_count as nat,
            config: self.config,
        }
    }
}

impl<T> PriorityCircularBuffer<T> {
    /// The queue of a level.
    spec fn level(&self, i: int) -> BufferState<T> {
        BufferState {
            items: self.queues@[i]@,
            capacity: self.capacities@[i] as nat,
            config: self.config.base,
        }
    }

    /// The invariant of the buffer.
    pub closed spec fn wf(&self) -> bool {
        &&& self@.wf()
        &&& self.capacities@.len() == self.queues@.len()
    }

    /// The invariant holds of what the buffer shows.
    pub proof fn lemma_wf(&self)
        requires
            self.wf(),
        ensures
            self@.wf(),
    {
    }

    /// Creates an empty buffer.
    pub fn new(config: PriorityConfig) -> (r: BufferResult<Self>)
        ensures
            r is Ok <==> config.valid(),
            r matches Ok(b) ==> b.wf() && b@ == (PriorityState {
                levels: Seq::new(
                    config.priority_levels as nat,
                    |i: int| BufferState {
                        items: Seq::<T>::empty(),
                        capacity: config.base.initial_capacity as nat,
                        config: config.base,
                    },
                ),
                total_pushed: 0,
                total_popped: 0,
                pushed: Seq::new(config.priority_levels as nat, |i: int| 0u64),
                popped: Seq::new(config.priority_levels as nat, |i: int| 0u64),
                current: 0,
                served: 0,
                config,
            }),
            r matches Err(e) ==> (e matches BufferError::InvalidConfiguration(s) && config.defect()
                == Some(s@)),
    {
        match config.validate() {
            Err(e) => {
                return Err(e);
            },
            Ok(()) => {},
        }
        let mut queues: Vec<VecDeque<T>> = Vec::new();
        let mut capacities: Vec<usize> = Vec::new();
        let mut pushed_per_priority: Vec<u64> = Vec::new();
        let mut popped_per_priority: Vec<u64> = Vec::new();
        while queues.len() < config.priority_levels
            invariant
                queues@.len() <= config.priority_levels,
                capacities@.len() == queues@.len(),
                pushed_per_priority@.len() == queues@.len(),
                popped_per_priority@.len() == queues@.len(),
                forall|i: int|
                    0 <= i < queues@.len() ==> (#[trigger] queues@[i])@ == Seq::<T>::empty(),
                forall|i: int|
                    0 <= i < queues@.len() ==> #[trigger] capacities@[i]
                        == config.base.initial_capacity,
                forall|i: int| 0 <= i < queues@.len() ==> #[trigger] pushed_per_priority@[i] == 0,
                forall|i: int| 0 <= i < queues@.len() ==> #[trigger] popped_per_priority@[i] == 0,
            decreases config.priority_levels - queues@.len(),
        {
            queues.push(VecDeque::new());
            capacities.push(config.base.initial_capacity);
            pushed_per_priority.push(0);
            popped_per_priority.push(0);
        }
        Ok(
            PriorityCircularBuffer {
                queues,
                capacities,
                config,
                total_pushed: 0,
                total_popped: 0,
                pushed_per_priority,
                popped_per_priority,
                fair_queue_state: FairQueueState { current_priority: 0, consecutive_count: 0 },
            },
        )
    }

    /// The number of priority levels.
    pub fn priority_levels(&self) -> (r: usize)
        ensures
            r == self@.config.priority_levels,
    {
        self.config.priority_levels
    }

    /// The number of items at all levels together, going around at the largest
    /// `usize`.
    pub fn len(&self) -> (r: usize)
        requires
            self.wf(),
        ensures
            r as int == total_len(self@.levels, self@.levels.len() as int) as int % (usize::MAX
                + 1),
            total_len(self@.levels, self@.levels.len() as int) <= usize::MAX ==> r == total_len(
                self@.levels,
                self@.levels.len() as int,
            ),
    {
        let mut sum: usize = 0;
        let mut i: usize = 0;
        proof {
            vstd::arithmetic::div_mod::lemma_small_mod(0, (usize::MAX + 1) as nat);
        }
        while i < self.queues.len()
            invariant
                self.wf(),
                i <= self.queues@.len(),
                sum as int == total_len(self@.levels, i as int) as int % (usize::MAX + 1),
            decreases self.queues@.len() - i,
        {
            let n: usize = self.queues[i].len();
            proof {
                lemma_wrapping_sum(
                    total_len(self@.levels, i as int) as int,
                    n as int,
                    usize::MAX + 1,
                );
                assert(self@.levels[i as int].items.len() == n);
            }
            sum = sum.wrapping_add(n);
            i = i + 1;
        }
        proof {
            if total_len(self@.levels, self@.levels.len() as int) <= usize::MAX {
                vstd::arithmetic::div_mod::lemma_small_mod(
                    total_len(self@.levels, self@.levels.len() as int),
                    (usize::MAX + 1) as nat,
                );
            }
        }
        sum
    }

    /// Whether no level holds an item.
    pub fn is_empty(&self) -> (r: bool)
        requires
            self.wf(),
        ensures
            r == (forall|i: int|
                0 <= i < self@.levels.len() ==> (#[trigger] self@.levels[i]).items.len() == 0),
    {
        let mut i: usize = 0;
        while i < self.queues.len()
            invariant
                self.wf(),
                i <= self.queues@.len(),
                forall|j: int| 0 <= j < i ==> (#[trigger] self@.levels[j]).items.len() == 0,
            decreases self.queues@.len() - i,
        {
            if self.queues[i].len() > 0 {
                proof {
                    assert(self@.levels[i as int].items.len() > 0);
                }
                return false;
            }
            proof {
                assert(self@.levels[i as int].items.len() == 0);
            }
            i = i + 1;
        }
        true
    }

    /// The number of items at the level of a priority; none where there is no
    /// such level.
    pub fn len_at_priority(&self, priority: Priority) -> (r: usize)
        requires
            self.wf(),
        ensures
            r == if (priority as int) < self@.levels.len() {
                self@.levels[priority as int].items.len()
            } else {
                0
            },
    {
        let idx: usize = priority as usize;
        if idx >= self.queues.len() {
            return 0;
        }
        self.queues[idx].len()
    }

    /// The capacity of the level of a priority; none where there is no such
    /// level.
    pub fn capacity_at_priority(&self, priority: Priority) -> (r: usize)
        requires
            self.wf(),
        ensures
            r == if (priority as int) < self@.levels.len() {
                self@.levels[priority as int].capacity
            } else {
                0
            },
    {
        let idx: usize = priority as usize;
        if idx >= self.capacities.len() {
            return 0;
        }
        self.capacities[idx]
    }

    /// Statistics about the buffer.
    pub fn stats(&self) -> (r: PriorityStats)
        requires
            self.wf(),
        ensures
            r.total_pushed == self@.total_pushed,
            r.total_popped == self@.total_popped,
            r.pushed_per_priority@ == self@.pushed,
            r.popped_per_priority@ == self@.popped,
            r.len_per_priority@.len() == self@.levels.len(),
            forall|i: int|
                0 <= i < self@.levels.len() ==> #[trigger] r.len_per_priority@[i]
                    == self@.levels[i].items.len(),
    {
        let mut len_per_priority: Vec<usize> = Vec::new();
        let mut i: usize = 0;
        while i < self.queues.len()
            invariant
                self.wf(),
                i <= self.queues@.len(),
                len_per_priority@.len() == i,
                forall|j: int|
                    0 <= j < i ==> #[trigger] len_per_priority@[j] == self@.levels[j].items.len(),
            decreases self.queues@.len() - i,
        {
            len_per_priority.push(self.queues[i].len());
            i = i + 1;
        }
        let pushed_per_priority = self.pushed_per_priority.clone();
        let popped_per_priority = self.popped_per_priority.clone();
        proof {
            assert(pushed_per_priority@ =~= self.pushed_per_priority@);
            assert(popped_per_priority@ =~= self.popped_per_priority@);
        }
        PriorityStats {
            total_pushed: self.total_pushed,
            total_popped: self.total_popped,
            pushed_per_priority,
            popped_per_priority,
            len_per_priority,
        }
    }

    /// Throws all items away and goes back to the initial capacity. Statistics
    /// and turns stay as they are.
    pub fn clear(&mut self)
        requires
            old(self).wf(),
        ensures
            final(self).wf(),
            final(self)@ == old(self)@.cleared(),
    {
        let capacity: usize = if self.config.base.initial_capacity
            >= self.config.base.min_capacity {
            self.config.base.initial_capacity
        } else {
            self.config.base.min_capacity
        };
        let mut i: usize = 0;
        while i < self.queues.len()
            invariant
                i <= self.queues@.len(),
                self.queues@.len() == old(self).queues@.len(),
                self.capacities@.len() == self.queues@.len(),
                *self == (PriorityCircularBuffer {
                    queues: self.queues,
                    capacities: self.capacities,
                    ..*old(self)
                }),
                forall|j: int|
                    0 <= j < i ==> (#[trigger] self.queues@[j])@ == Seq::<T>::empty(),
                forall|j: int| 0 <= j < i ==> #[trigger] self.capacities@[j] == capacity,
            decreases self.queues@.len() - i,
        {
            let queue = &mut self.queues[i];
            queue.clear();
            release_memory(queue, 0);
            self.capacities.set(i, capacity);
            i = i + 1;
        }
        proof {
            assert(self@.levels =~= old(self)@.cleared().levels);
        }
    }
}

impl<T> PriorityCircularBuffer<T> {
    /// Adds an item at the level of a priority.
    pub fn push_with_priority(&mut self, item: T, priority: Priority) -> (r: BufferResult<()>)
        requires
            old(self).wf(),
        ensures
            final(self).wf(),
            ({
                let level = if (priority as int) < old(self)@.levels.len() {
                    priority as int
                } else {
                    old(self)@.levels.len() - 1
                };
                &&& final(self)@ == priority_laws::perform(
                    old(self)@,
                    Operation::Push(level, seq![item]),
                    level,
                ).state
                &&& match r {
                    Ok(()) => old(self)@.accepts(level, 1) && final(self)@ == old(
                        self,
                    )@.with_items(level, seq![item]),
                    Err(e) => !old(self)@.accepts(level, 1) && final(self)@ == old(self)@ && e
                        == BufferError::MaxCapacityReached(old(self)@.config.base.max_capacity),
                }
            }),
    {
        let idx: usize = self.index_of(priority);
        let ghost before = self.level(idx as int);
        let max_capacity: usize = self.config.base.max_capacity;
        let len: usize = self.queues[idx].len();
        let capacity: usize = self.capacities[idx];
        proof {
            assert(self@.levels[idx as int] == before);
        }
        if len >= max_capacity {
            return Err(BufferError::MaxCapacityReached(max_capacity));
        }
        let mut new_capacity: usize = capacity;
        if len >= capacity && capacity < max_capacity {
            proof {
                crate::binary64::law_growth_is_strict(
                    self.config.base.growth_factor,
                    capacity as nat,
                );
                reveal_with_fuel(grown_repeatedly, 2);
            }
            new_capacity = self.config.base.growth_factor.multiply_ceil(capacity);
            if new_capacity > max_capacity {
                new_capacity = max_capacity;
            }
        }
        self.capacities.set(idx, new_capacity);
        let queue = &mut self.queues[idx];
        queue.push_back(item);
        self.count_pushed(idx, 1);
        proof {
            let after = old(self)@.with_items(idx as int, seq![item]);
            assert(self.level(idx as int).items =~= before.items + seq![item]);
            assert(self.level(idx as int) == after.levels[idx as int]);
            assert(self@.levels =~= after.levels);
            assert(self@.pushed =~= after.pushed);
        }
        Ok(())
    }

    /// The position of the level of a priority.
    fn index_of(&self, priority: Priority) -> (r: usize)
        requires
            self.wf(),
        ensures
            r == self@.level_of(priority),
            r == if (priority as int) < self@.levels.len() {
                priority as int
            } else {
                self@.levels.len() - 1
            },
            r < self@.levels.len(),
    {
        let last: usize = self.config.priority_levels - 1;
        if (priority as usize) < last {
            priority as usize
        } else {
            last
        }
    }

    /// Counts items that were pushed.
    fn count_pushed(&mut self, idx: usize, n: u64)
        requires
            idx < old(self).pushed_per_priority@.len(),
        ensures
            *final(self) == (PriorityCircularBuffer {
                total_pushed: advanced(old(self).total_pushed, n as nat),
                pushed_per_priority: final(self).pushed_per_priority,
                ..*old(self)
            }),
            final(self).pushed_per_priority@ == old(self).pushed_per_priority@.update(
                idx as int,
                advanced(old(self).pushed_per_priority@[idx as int], n as nat),
            ),
    {
        self.total_pushed = self.total_pushed.wrapping_add(n);
        let count: u64 = self.pushed_per_priority[idx];
        self.pushed_per_priority.set(idx, count.wrapping_add(n));
    }

    /// Adds an item at the most urgent level.
    pub fn push_high_priority(&mut self, item: T) -> (r: BufferResult<()>)
        requires
            old(self).wf(),
        ensures
            final(self).wf(),
            ({
                let level = old(self)@.levels.len() - 1;
                match r {
                    Ok(()) => old(self)@.accepts(level, 1) && final(self)@ == old(
                        self,
                    )@.with_items(level, seq![item]),
                    Err(e) => !old(self)@.accepts(level, 1) && final(self)@ == old(self)@ && e
                        == BufferError::MaxCapacityReached(old(self)@.config.base.max_capacity),
                }
            }),
    {
        let max_priority: Priority = (self.config.priority_levels - 1) as Priority;
        self.push_with_priority(item, max_priority)
    }

    /// Adds an item at the least urgent level.
    pub fn push_low_priority(&mut self, item: T) -> (r: BufferResult<()>)
        requires
            old(self).wf(),
        ensures
            final(self).wf(),
            match r {
                Ok(()) => old(self)@.accepts(0, 1) && final(self)@ == old(self)@.with_items(
                    0,
                    seq![item],
                ),
                Err(e) => !old(self)@.accepts(0, 1) && final(self)@ == old(self)@ && e
                    == BufferError::MaxCapacityReached(old(self)@.config.base.max_capacity),
            },
    {
        self.push_with_priority(item, 0)
    }

    /// Adds an item at the middle level.
    pub fn push(&mut self, item: T) -> (r: BufferResult<()>)
        requires
            old(self).wf(),
        ensures
            final(self).wf(),
            ({
                let level = old(self)@.levels.len() as int / 2;
                match r {
                    Ok(()) => old(self)@.accepts(level, 1) && final(self)@ == old(
                        self,
                    )@.with_items(level, seq![item]),
                    Err(e) => !old(self)@.accepts(level, 1) && final(self)@ == old(self)@ && e
                        == BufferError::MaxCapacityReached(old(self)@.config.base.max_capacity),
                }
            }),
    {
        let default_priority: Priority = (self.config.priority_levels / 2) as Priority;
        self.push_with_priority(item, default_priority)
    }

    /// Takes the next item: the oldest of the most urgent level, or of the level
    /// whose turn it is.
    pub fn pop(&mut self) -> (r: BufferResult<T>)
        requires
            old(self).wf(),
        ensures
            final(self).wf(),
            final(self)@ == priority_laws::perform(old(self)@, Operation::Pop, 0).state,
            match old(self)@.next_level() {
                Some(level) => {
                    &&& 0 <= level < old(self)@.levels.len()
                    &&& old(self)@.levels[level].items.len() > 0
                    &&& r matches Ok(item) && item == old(self)@.levels[level].items[0]
                    &&& final(self)@ == old(self)@.after_pop_at(level)
                },
                None => final(self)@ == old(self)@ && (r matches Err(e) && e
                    == BufferError::Empty),
            },
            r is Err <==> forall|i: int|
                0 <= i < old(self)@.levels.len() ==> (#[trigger] old(
                    self,
                )@.levels[i]).items.len() == 0,
    {
        proof {
            crate::priority_laws::law_pop_finds_an_item(self@);
        }
        if self.config.fair_queuing {
            self.pop_fair()
        } else {
            self.pop_strict()
        }
    }

    /// Takes the oldest item of the most urgent level that holds one.
    fn pop_strict(&mut self) -> (r: BufferResult<T>)
        requires
            old(self).wf(),
            !old(self)@.config.fair_queuing,
        ensures
            final(self).wf(),
            match old(self)@.next_level() {
                Some(level) => {
                    &&& 0 <= level < old(self)@.levels.len()
                    &&& old(self)@.levels[level].items.len() > 0
                    &&& r matches Ok(item) && item == old(self)@.levels[level].items[0]
                    &&& final(self)@ == old(self)@.after_pop_at(level)
                },
                None => final(self)@ == old(self)@ && (r matches Err(e) && e
                    == BufferError::Empty),
            },
    {
        let mut n: usize = self.config.priority_levels;
        while n > 0
            invariant
                self.wf(),
                *self == *old(self),
                !self@.config.fair_queuing,
                n <= self@.levels.len(),
                self@.next_level() == self@.highest_below(n as int),
            decreases n,
        {
            match self.take_from(n - 1) {
                Some(item) => {
                    return Ok(item);
                },
                None => {},
            }
            n = n - 1;
        }
        Err(BufferError::Empty)
    }

    /// Takes the oldest item of the level whose turn it is.
    fn pop_fair(&mut self) -> (r: BufferResult<T>)
        requires
            old(self).wf(),
            old(self)@.config.fair_queuing,
        ensures
            final(self).wf(),
            match old(self)@.next_level() {
                Some(level) => {
                    &&& 0 <= level < old(self)@.levels.len()
                    &&& old(self)@.levels[level].items.len() > 0
                    &&& r matches Ok(item) && item == old(self)@.levels[level].items[0]
                    &&& final(self)@ == old(self)@.after_pop_at(level)
                },
                None => final(self)@ == old(self)@ && (r matches Err(e) && e
                    == BufferError::Empty),
            },
    {
        let current: usize = self.fair_queue_state.current_priority;
        let count: usize = self.fair_queue_state.consecutive_count;
        if count < self.config.max_consecutive_per_priority {
            match self.take_from(current) {
                Some(item) => {
                    self.set_turn(current, count + 1);
                    return Ok(item);
                },
                None => {},
            }
        }
        let levels: usize = self.config.priority_levels;
        let mut offset: usize = 1;
        while offset <= levels
            invariant
                self.wf(),
                *self == *old(self),
                self@.config.fair_queuing,
                !self@.turn_goes_on(),
                levels == self@.levels.len() <= 256,
                current == self@.current,
                1 <= offset <= levels + 1,
                self@.first_in_turn(1) == self@.first_in_turn(offset as int),
            decreases levels + 1 - offset,
        {
            let idx: usize = if offset <= current {
                current - offset
            } else {
                current + levels - offset
            };
            match self.take_from(idx) {
                Some(item) => {
                    self.set_turn(idx, 1);
                    return Ok(item);
                },
                None => {},
            }
            offset = offset + 1;
        }
        Err(BufferError::Empty)
    }

    /// Notes whose turn it is.
    fn set_turn(&mut self, current_priority: usize, consecutive_count: usize)
        requires
            old(self).wf(),
            current_priority < old(self)@.levels.len(),
            consecutive_count <= old(self)@.config.max_consecutive_per_priority,
        ensures
            final(self).wf(),
            final(self)@ == (PriorityState {
                current: current_priority as int,
                served: consecutive_count as nat,
                ..old(self)@
            }),
    {
        self.fair_queue_state = FairQueueState { current_priority, consecutive_count };
        proof {
            assert(self@.levels =~= old(self)@.levels);
        }
    }

    /// Takes the oldest item of a level, if it holds one.
    fn take_from(&mut self, idx: usize) -> (r: Option<T>)
        requires
            old(self).wf(),
            idx < old(self)@.levels.len(),
        ensures
            final(self).wf(),
            match r {
                Some(item) => {
                    &&& old(self)@.levels[idx as int].items.len() > 0
                    &&& item == old(self)@.levels[idx as int].items[0]
                    &&& final(self)@ == old(self)@.without_first_of(idx as int)
                },
                None => old(self)@.levels[idx as int].items.len() == 0 && *final(self) == *old(
                    self,
                ),
            },
    {
        let ghost before = self.level(idx as int);
        proof {
            assert(self@.levels[idx as int] == before);
        }
        if self.queues[idx].len() == 0 {
            return None;
        }
        let queue = &mut self.queues[idx];
        let taken: Option<T> = queue.pop_front();
        self.maybe_shrink(idx);
        self.total_popped = self.total_popped.wrapping_add(1);
        let count: u64 = self.popped_per_priority[idx];
        self.popped_per_priority.set(idx, count.wrapping_add(1));
        proof {
            let after = old(self)@.without_first_of(idx as int);
            assert(self.level(idx as int).items =~= before.items.skip(1));
            assert(self.level(idx as int) == before.without_oldest(1));
            assert(self@.levels =~= after.levels);
            assert(self@.popped =~= after.popped);
        }
        taken
    }

    /// Shrinks a level after an item was taken out.
    fn maybe_shrink(&mut self, idx: usize)
        requires
            old(self).config.valid(),
            idx < old(self).queues@.len(),
            old(self).capacities@.len() == old(self).queues@.len(),
        ensures
            *final(self) == (PriorityCircularBuffer {
                queues: final(self).queues,
                capacities: final(self).capacities,
                ..*old(self)
            }),
            final(self).queues@.len() == old(self).queues@.len(),
            forall|i: int|
                0 <= i < old(self).queues@.len() ==> (#[trigger] final(self).queues@[i])@ == old(
                    self,
                ).queues@[i]@,
            final(self).capacities@ == old(self).capacities@.update(
                idx as int,
                old(self).config.base.capacity_after_removal(
                    old(self).capacities@[idx as int] as nat,
                    old(self).queues@[idx as int]@.len(),
                ) as usize,
            ),
    {
        let capacity: usize = self.capacities[idx];
        let target: usize = self.config.base.shrink_capacity(capacity, self.queues[idx].len());
        if target < capacity {
            let queue = &mut self.queues[idx];
            release_memory(queue, target);
        }
        self.capacities.set(idx, target);
    }

    /// Takes the oldest item of the level of a priority.
    pub fn pop_from_priority(&mut self, priority: Priority) -> (r: BufferResult<T>)
        requires
            old(self).wf(),
        ensures
            final(self).wf(),
            final(self)@ == priority_laws::perform(
                old(self)@,
                Operation::PopFrom(priority as int),
                0,
            ).state,
            ({
                let level = priority as int;
                match r {
                    Ok(item) => {
                        &&& level < old(self)@.levels.len()
                        &&& old(self)@.levels[level].items.len() > 0
                        &&& item == old(self)@.levels[level].items[0]
                        &&& final(self)@ == old(self)@.without_first_of(level)
                    },
                    Err(e) => {
                        &&& final(self)@ == old(self)@
                        &&& if level < old(self)@.levels.len() {
                            old(self)@.levels[level].items.len() == 0 && e == BufferError::Empty
                        } else {
                            e matches BufferError::InvalidOperation(s) && s@ == "Priority "@
                                + text::decimal(priority as nat) + " exceeds maximum "@
                                + text::decimal((old(self)@.levels.len() - 1) as nat)
                        }
                    },
                }
            }),
    {
        let idx: usize = priority as usize;
        if idx >= self.queues.len() {
            let subject: String = join("Priority ", decimal_text(idx).as_str());
            let limit: String = decimal_text(self.config.priority_levels - 1);
            let complaint: String = join(" exceeds maximum ", limit.as_str());
            let message: String = join(subject.as_str(), complaint.as_str());
            proof {
                assert(message@ =~= "Priority "@ + text::decimal(priority as nat)
                    + " exceeds maximum "@ + text::decimal((self@.levels.len() - 1) as nat));
            }
            return Err(BufferError::InvalidOperation(message));
        }
        match self.take_from(idx) {
            Some(item) => Ok(item),
            None => Err(BufferError::Empty),
        }
    }

    /// Adds several items at the level of a priority, all of them or none.
    pub fn push_batch_with_priority(&mut self, items: Vec<T>, priority: Priority) -> (r:
        BufferResult<()>)
        requires
            old(self).wf(),
        ensures
            final(self).wf(),
            ({
                let level = if (priority as int) < old(self)@.levels.len() {
                    priority as int
                } else {
                    old(self)@.levels.len() - 1
                };
                &&& final(self)@ == priority_laws::perform(
                    old(self)@,
                    Operation::Push(level, items@),
                    level,
                ).state
                &&& match r {
                    Ok(()) => old(self)@.accepts(level, items@.len()) && final(self)@ == old(
                        self,
                    )@.with_items(level, items@),
                    Err(e) => !old(self)@.accepts(level, items@.len()) && final(self)@ == old(
                        self,
                    )@ && e == BufferError::MaxCapacityReached(
                        old(self)@.config.base.max_capacity,
                    ),
                }
            }),
    {
        let idx: usize = self.index_of(priority);
        let ghost before = self.level(idx as int);
        let ghost after = self@.with_items(idx as int, items@);
        proof {
            assert(self@.levels[idx as int] == before);
        }
        if items.len() == 0 {
            proof {
                assert(before.items + items@ =~= before.items);
                assert(self@.levels =~= after.levels);
                assert(self@.pushed =~= after.pushed);
            }
            return Ok(());
        }
        let max_capacity: usize = self.config.base.max_capacity;
        let len: usize = self.queues[idx].len();
        let num_items: usize = items.len();
        if num_items > max_capacity - len {
            return Err(BufferError::MaxCapacityReached(max_capacity));
        }
        let capacity: usize = self.capacities[idx];
        let new_capacity: usize = self.grow_for(capacity, len + num_items);
        self.capacities.set(idx, new_capacity);
        let mut more: VecDeque<T> = into_deque(items);
        let queue = &mut self.queues[idx];
        queue.append(&mut more);
        self.count_pushed(idx, num_items as u64);
        proof {
            assert(self.level(idx as int) == after.levels[idx as int]);
            assert(self@.levels =~= after.levels);
            assert(self@.pushed =~= after.pushed);
        }
        Ok(())
    }

    /// The capacity of a level that is about to hold `needed` items.
    fn grow_for(&self, capacity: usize, needed: usize) -> (r: usize)
        requires
            self.config.valid(),
            0 < capacity,
            needed <= self.config.base.max_capacity,
        ensures
            r == config::smaller(
                grown_repeatedly(self.config.base, capacity as nat, needed as nat),
                self.config.base.max_capacity as nat,
            ),
            capacity <= self.config.base.max_capacity ==> r >= capacity,
            r >= needed,
    {
        let max_capacity: usize = self.config.base.max_capacity;
        let mut new_capacity: usize = capacity;
        while new_capacity < needed
            invariant
                self.config.valid(),
                0 < capacity <= new_capacity,
                needed <= max_capacity,
                grown_repeatedly(self.config.base, capacity as nat, needed as nat)
                    == grown_repeatedly(self.config.base, new_capacity as nat, needed as nat),
            decreases
                    if new_capacity < needed {
                        needed - new_capacity
                    } else {
                        0
                    },
        {
            proof {
                crate::binary64::law_growth_is_strict(
                    self.config.base.growth_factor,
                    new_capacity as nat,
                );
            }
            new_capacity = self.config.base.growth_factor.multiply_ceil(new_capacity);
        }
        if new_capacity > max_capacity {
            max_capacity
        } else {
            new_capacity
        }
    }

    /// Takes up to `max_items` items, one pop after the other.
    pub fn pop_batch(&mut self, max_items: usize) -> (r: BufferResult<Vec<T>>)
        requires
            old(self).wf(),
        ensures
            final(self).wf(),
            r matches Ok(taken) && taken@ == old(self)@.popped_items(max_items as nat),
            final(self)@ == old(self)@.after_pops(max_items as nat),
    {
        let mut result: Vec<T> = Vec::new();
        while result.len() < max_items
            invariant
                self.wf(),
                result@.len() <= max_items,
                old(self)@.popped_items(max_items as nat) =~= result@ + self@.popped_items(
                    (max_items - result@.len()) as nat,
                ),
                old(self)@.after_pops(max_items as nat) == self@.after_pops(
                    (max_items - result@.len()) as nat,
                ),
            decreases max_items - result@.len(),
        {
            match self.pop() {
                Ok(item) => {
                    result.push(item);
                },
                Err(_) => {
                    return Ok(result);
                },
            }
        }
        Ok(result)
    }
}

/// A wrapped sum stays the remainder of the sum when more is added.
proof fn lemma_wrapping_sum(a: int, b: int, m: int)
    requires
        0 <= a,
        0 <= b < m,
    ensures
        (a + b) % m == if a % m + b < m {
            a % m + b
        } else {
            a % m + b - m
        },
{
    vstd::arithmetic::div_mod::lemma_add_mod_noop(a, b, m);
    vstd::arithmetic::div_mod::lemma_small_mod(b as nat, m as nat);
    vstd::arithmetic::div_mod::lemma_mod_bound(a, m);
    if a % m + b < m {
        vstd::arithmetic::div_mod::lemma_small_mod((a % m + b) as nat, m as nat);
    } else {
        vstd::arithmetic::div_mod::lemma_mod_sub_multiples_vanish(a % m + b, m);
        vstd::arithmetic::div_mod::lemma_small_mod((a % m + b - m) as nat, m as nat);
    }
}

} // verus!
