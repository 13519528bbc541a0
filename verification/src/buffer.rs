//! The dynamically resizable circular buffer.

use crate::buffer_laws;
use crate::buffer_laws::Operation;
use crate::config;
use crate::config::Config;
use crate::error::{BufferError, BufferResult};
use std::collections::VecDeque;
use std::time::Duration;
use vstd::prelude::*;
use vstd::std_specs::vecdeque::*;

verus! {

/// Gives memory of a `VecDeque` back. `VecDeque::shrink_to` keeps the items and
/// their order; how much memory it gives back is left open.
#[verifier::external_body]
pub(crate) fn release_memory<T>(items: &mut VecDeque<T>, min_capacity: usize)
    ensures
        final(items)@ == old(items)@,
{
    items.shrink_to(min_capacity)
}

/// What a buffer holds, how much it may hold before it grows, and its limits.
#[verifier::ext_equal]
pub struct BufferState<T> {
    /// The items, the oldest first.
    pub items: Seq<T>,
    /// The current logical capacity.
    pub capacity: nat,
    /// The limits and the sizing rules.
    pub config: Config,
}

impl<T> BufferState<T> {
    /// The capacity lies within the limits, and the items within the capacity.
    pub open spec fn wf(self) -> bool {
        &&& self.config.valid()
        &&& self.config.min_capacity <= self.capacity <= self.config.max_capacity
        &&& self.items.len() <= self.capacity
    }

    /// Whether `n` more items are within the maximum capacity.
    pub open spec fn accepts(self, n: nat) -> bool {
        self.items.len() + n <= self.config.max_capacity
    }

    /// The state after `more` was added at the back.
    pub open spec fn extended(self, more: Seq<T>) -> Self {
        BufferState {
            items: self.items + more,
            capacity: self.config.capacity_for(self.capacity, self.items.len() + more.len()),
            config: self.config,
        }
    }

    /// The state after the `n` oldest items were taken out at once.
    pub open spec fn without_oldest(self, n: nat) -> Self {
        BufferState {
            items: self.items.skip(n as int),
            capacity: self.config.capacity_after_removal(
                self.capacity,
                (self.items.len() - n) as nat,
            ),
            config: self.config,
        }
    }

    /// The state after everything was thrown away.
    pub open spec fn cleared(self) -> Self {
        BufferState {
            items: Seq::empty(),
            capacity: config::larger(
                self.config.initial_capacity as nat,
                self.config.min_capacity as nat,
            ),
            config: self.config,
        }
    }
}

/// A first-in first-out buffer that grows when it is full and shrinks when
/// little of it is used, within the limits of its configuration.
pub struct DynamicCircularBuffer<T> {
    items: VecDeque<T>,
    capacity: usize,
    config: Config,
}

impl<T> View for DynamicCircularBuffer<T> {
    type V = BufferState<T>;

    closed spec fn view(&self) -> BufferState<T> {
        BufferState { items: self.items@, capacity: self.capacity as nat, config: self.config }
    }
}

impl<T> DynamicCircularBuffer<T> {
    /// The invariant of the buffer.
    pub open spec fn wf(&self) -> bool {
        self@.wf()
    }

    /// Creates an empty buffer.
    pub fn new(config: Config) -> (r: BufferResult<Self>)
        ensures
            r is Ok <==> config.valid(),
            r matches Ok(b) ==> b.wf() && b@ == (BufferState {
                items: Seq::<T>::empty(),
                capacity: config.initial_capacity as nat,
                config,
            }),
            r matches Err(e) ==> (e matches BufferError::InvalidConfiguration(s) && config.defect()
                == Some(s@)),
    {
        match config.validate() {
            Err(e) => Err(e),
            Ok(()) => {
                let capacity: usize = config.initial_capacity;
                Ok(DynamicCircularBuffer { items: VecDeque::new(), capacity, config })
            },
        }
    }

    /// Shrinks the buffer after items were taken out.
    fn shrink_if_underused(&mut self)
        requires
            old(self).wf(),
        ensures
            final(self).wf(),
            final(self)@ == old(self)@.without_oldest(0),
    {
        let target: usize = self.config.shrink_capacity(self.capacity, self.items.len());
        proof {
            assert(self@.items.skip(0) =~= self@.items);
        }
        if target < self.capacity {
            release_memory(&mut self.items, target);
            self.capacity = target;
        }
    }

    /// Adds an item at the back.
    pub fn push(&mut self, item: T) -> (r: BufferResult<()>)
        requires
            old(self).wf(),
        ensures
            final(self).wf(),
            final(self)@ == buffer_laws::perform(old(self)@, Operation::Push(item)).state,
            match r {
                Ok(()) => old(self)@.accepts(1) && final(self)@ == old(self)@.extended(seq![item]),
                Err(e) => !old(self)@.accepts(1) && final(self)@ == old(self)@ && e
                    == BufferError::MaxCapacityReached(old(self)@.config.max_capacity),
            },
    {
        let len: usize = self.items.len();
        if len >= self.config.max_capacity {
            return Err(BufferError::MaxCapacityReached(self.config.max_capacity));
        }
        self.capacity = self.config.fit_capacity(self.capacity, len + 1);
        self.items.push_back(item);
        proof {
            assert(self@.items =~= old(self)@.items + seq![item]);
        }
        Ok(())
    }

    /// Takes the oldest item.
    pub fn pop(&mut self) -> (r: BufferResult<T>)
        requires
            old(self).wf(),
        ensures
            final(self).wf(),
            final(self)@ == buffer_laws::perform(old(self)@, Operation::Pop).state,
            match r {
                Ok(item) => old(self)@.items.len() > 0 && item == old(self)@.items[0]
                    && final(self)@ == old(self)@.without_oldest(1),
                Err(e) => old(self)@.items.len() == 0 && final(self)@ == old(self)@ && e
                    == BufferError::Empty,
            },
    {
        match self.items.pop_front() {
            Some(item) => {
                self.shrink_if_underused();
                proof {
                    assert(self@.items =~= old(self)@.items.skip(1));
                }
                Ok(item)
            },
            None => Err(BufferError::Empty),
        }
    }

    /// Adds several items at the back, all of them or none.
    pub fn push_batch(&mut self, items: Vec<T>) -> (r: BufferResult<()>)
        requires
            old(self).wf(),
        ensures
            final(self).wf(),
            final(self)@ == buffer_laws::perform(old(self)@, Operation::PushBatch(items@)).state,
            match r {
                Ok(()) => old(self)@.accepts(items@.len()) && final(self)@ == old(self)@.extended(
                    items@,
                ),
                Err(e) => !old(self)@.accepts(items@.len()) && final(self)@ == old(self)@ && e
                    == BufferError::MaxCapacityReached(old(self)@.config.max_capacity),
            },
    {
        if items.len() == 0 {
            proof {
                assert(self@.items + items@ =~= self@.items);
            }
            return Ok(());
        }
        let len: usize = self.items.len();
        if items.len() > self.config.max_capacity - len {
            return Err(BufferError::MaxCapacityReached(self.config.max_capacity));
        }
        self.capacity = self.config.fit_capacity(self.capacity, len + items.len());
        let mut more: VecDeque<T> = into_deque(items);
        self.items.append(&mut more);
        Ok(())
    }

    /// Takes up to `max_items` of the oldest items; none from an empty buffer.
    pub fn pop_batch(&mut self, max_items: usize) -> (r: BufferResult<Vec<T>>)
        requires
            old(self).wf(),
        ensures
            final(self).wf(),
            final(self)@ == buffer_laws::perform(
                old(self)@,
                Operation::PopBatch(max_items as nat),
            ).state,
            r matches Ok(taken) && taken@ == buffer_laws::perform(
                old(self)@,
                Operation::PopBatch(max_items as nat),
            ).taken,
            r matches Ok(taken) && {
                if max_items == 0 || old(self)@.items.len() == 0 {
                    taken@ == Seq::<T>::empty() && final(self)@ == old(self)@
                } else {
                    let n = if max_items <= old(self)@.items.len() {
                        max_items as nat
                    } else {
                        old(self)@.items.len()
                    };
                    taken@ == old(self)@.items.take(n as int) && final(self)@ == old(
                        self,
                    )@.without_oldest(n)
                }
            },
    {
        if max_items == 0 || self.items.len() == 0 {
            return Ok(Vec::new());
        }
        let n: usize = if max_items < self.items.len() {
            max_items
        } else {
            self.items.len()
        };
        let taken = take_front(&mut self.items, n);
        self.shrink_if_underused();
        proof {
            assert(self@.items =~= old(self)@.items.skip(n as int));
        }
        Ok(taken)
    }

    /// Takes up to `max_items` of the oldest items, and reports an empty buffer
    /// as an error.
    pub fn pop_batch_nonempty(&mut self, max_items: usize) -> (r: BufferResult<Vec<T>>)
        requires
            old(self).wf(),
        ensures
            final(self).wf(),
            match r {
                Ok(taken) => {
                    let n = if max_items <= old(self)@.items.len() {
                        max_items as nat
                    } else {
                        old(self)@.items.len()
                    };
                    &&& max_items == 0 || old(self)@.items.len() > 0
                    &&& taken@ == old(self)@.items.take(n as int)
                    &&& final(self)@ == if max_items == 0 {
                        old(self)@
                    } else {
                        old(self)@.without_oldest(n)
                    }
                },
                Err(e) => max_items > 0 && old(self)@.items.len() == 0 && final(self)@ == old(
                    self,
                )@ && e == BufferError::Empty,
            },
    {
        if max_items > 0 && self.items.len() == 0 {
            return Err(BufferError::Empty);
        }
        proof {
            assert(self@.items.take(0) =~= Seq::<T>::empty());
        }
        self.pop_batch(max_items)
    }

    /// The number of items.
    pub fn len(&self) -> (r: usize)
        ensures
            r == self@.items.len(),
    {
        self.items.len()
    }

    /// Whether there is no item.
    pub fn is_empty(&self) -> (r: bool)
        ensures
            r == (self@.items.len() == 0),
    {
        self.items.len() == 0
    }

    /// The current logical capacity.
    pub fn capacity(&self) -> (r: usize)
        ensures
            r == self@.capacity,
    {
        self.capacity
    }

    /// The configuration of the buffer.
    pub fn config(&self) -> (r: &Config)
        ensures
            *r == self@.config,
    {
        &self.config
    }

    /// Throws all items away and goes back to the initial capacity.
    pub fn clear(&mut self)
        requires
            old(self).wf(),
        ensures
            final(self).wf(),
            final(self)@ == old(self)@.cleared(),
    {
        self.items.clear();
        release_memory(&mut self.items, 0);
        self.capacity = if self.config.initial_capacity >= self.config.min_capacity {
            self.config.initial_capacity
        } else {
            self.config.min_capacity
        };
    }

    /// Clones of all items, the oldest first.
    pub fn iter(&self) -> (r: Vec<T>) where T: Clone
        ensures
            r@.len() == self@.items.len(),
            forall|i: int|
                0 <= i < r@.len() ==> cloned::<T>(self@.items[i], #[trigger] r@[i]),
    {
        let mut r: Vec<T> = Vec::new();
        let mut i: usize = 0;
        while i < self.items.len()
            invariant
                i <= self.items@.len(),
                r@.len() == i,
                forall|j: int| 0 <= j < i ==> cloned::<T>(self.items@[j], #[trigger] r@[j]),
            decreases self.items@.len() - i,
        {
            r.push(self.items[i].clone());
            i = i + 1;
        }
        r
    }

    /// Takes all items, the oldest first.
    pub fn drain(&mut self) -> (r: Vec<T>)
        requires
            old(self).wf(),
        ensures
            final(self).wf(),
            final(self)@ == buffer_laws::perform(old(self)@, Operation::Drain).state,
            r@ == old(self)@.items,
            final(self)@ == old(self)@.without_oldest(old(self)@.items.len()),
    {
        let n: usize = self.items.len();
        let taken = take_front(&mut self.items, n);
        self.shrink_if_underused();
        proof {
            assert(taken@ =~= old(self)@.items);
            assert(self@.items =~= old(self)@.items.skip(n as int));
        }
        taken
    }
}

/// Moves the items of a vector into a deque.
pub(crate) fn into_deque<T>(items: Vec<T>) -> (r: VecDeque<T>)
    ensures
        r@ == items@,
{
    let ghost all = items@;
    let mut rest = items;
    let mut r: VecDeque<T> = VecDeque::new();
    while rest.len() > 0
        invariant
            rest@ + r@ =~= all,
        decreases rest@.len(),
    {
        match rest.pop() {
            Some(item) => {
                r.push_front(item);
            },
            None => {},
        }
    }
    r
}

/// Takes the `n` oldest items of a deque.
pub(crate) fn take_front<T>(items: &mut VecDeque<T>, n: usize) -> (r: Vec<T>)
    requires
        n <= old(items)@.len(),
    ensures
        r@ == old(items)@.take(n as int),
        final(items)@ == old(items)@.skip(n as int),
{
    let mut r: Vec<T> = Vec::new();
    while r.len() < n
        invariant
            r@.len() <= n <= old(items)@.len(),
            r@ =~= old(items)@.take(r@.len() as int),
            items@ =~= old(items)@.skip(r@.len() as int),
        decreases n - r@.len(),
    {
        match items.pop_front() {
            Some(item) => {
                r.push(item);
            },
            None => {},
        }
    }
    r
}

/// The result of an operation that was given a time limit: what it returned if
/// it finished, and a timeout otherwise.
pub fn within<U>(outcome: Option<BufferResult<U>>, limit: Duration) -> (r: BufferResult<U>)
    ensures
        r == match outcome {
            Some(result) => result,
            None => Err(BufferError::Timeout(limit)),
        },
{
    match outcome {
        Some(result) => result,
        None => Err(BufferError::Timeout(limit)),
    }
}

} // verus!
