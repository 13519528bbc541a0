//! A multi-producer single-consumer queue on a ring of slots.
//!
//! Every method is one step of a producer or of the consumer; whoever shares a
//! queue between threads lets them take their steps one after the other.

use crate::config;
use crate::config::Config;
use crate::error::{BufferError, BufferResult};
use crate::lock_free_laws;
use crate::lock_free_laws::Step;
use crate::ring;
use crate::ring::RingBuffer;
use vstd::arithmetic::div_mod::*;
use vstd::arithmetic::power2::*;
use vstd::prelude::*;
use vstd::string::*;

verus! {

/// `2^32`: a packed word holds a position modulo this number.
pub const POSITIONS: u64 = 0x1_0000_0000;

/// A generation and a position in one word, the generation in the upper half.
pub open spec fn packed(position: nat, generation: u32) -> nat {
    generation as nat * (POSITIONS as nat) + position % (POSITIONS as nat)
}

/// One more than `n`, going around at the largest `usize`.
pub open spec fn bumped(n: usize) -> usize {
    if n == usize::MAX {
        0
    } else {
        (n + 1) as usize
    }
}

/// One more than `n`, going around at the largest `u32`.
pub open spec fn next_generation(n: u32) -> u32 {
    if n == u32::MAX {
        0
    } else {
        (n + 1) as u32
    }
}

/// Packs a position and a generation into one word.
pub fn pack_head(position: usize, generation: u32) -> (r: u64)
    ensures
        r == packed(position as nat, generation),
{
    generation as u64 * POSITIONS + position as u64 % POSITIONS
}

/// The position and the generation of a packed word.
pub fn unpack_head(head: u64) -> (r: (usize, u32))
    ensures
        r.0 == head % POSITIONS,
        r.1 == head / POSITIONS,
        r.0 == head % 0x1_0000_0000,
        r.1 == head / 0x1_0000_0000,
{
    ((head % POSITIONS) as usize, (head / POSITIONS) as u32)
}

/// Unpacking gives back what was packed, and packing what was unpacked.
pub proof fn law_packing_is_reversible(position: nat, generation: u32, head: u64)
    requires
        position < POSITIONS,
    ensures
        packed(position, generation) <= u64::MAX,
        packed(position, generation) % POSITIONS as nat == position,
        packed(position, generation) / POSITIONS as nat == generation,
        packed((head % POSITIONS) as nat, (head / POSITIONS) as u32) == head,
{
}

/// The lower half of a packed word holds the lower thirty-two bits of the
/// position, and the upper half the generation.
pub proof fn law_packed_halves(position: nat, generation: u32)
    ensures
        packed(position, generation) % 0x1_0000_0000 == position % 0x1_0000_0000,
        packed(position, generation) / 0x1_0000_0000 == generation,
{
}

/// Statistics about a queue.
#[derive(Clone, Debug)]
pub struct QueueStats {
    /// How many messages the queue took in.
    pub messages_enqueued: usize,
    /// How many messages the queue gave out.
    pub messages_dequeued: usize,
    /// How many messages the queue refused.
    pub messages_dropped: usize,
    /// How many messages the queue holds.
    pub current_size: usize,
    /// How many messages the queue can hold at present.
    pub current_capacity: usize,
}

/// What a queue holds, how much it may hold, and what it has counted.
#[verifier::ext_equal]
pub struct QueueState<T> {
    /// The messages, the oldest first.
    pub items: Seq<T>,
    /// How many messages fit at present.
    pub capacity: nat,
    /// How often the ring was replaced, modulo `2^32`.
    pub generation: u32,
    /// Whether a replacement of the ring was announced and is not done.
    pub resizing: bool,
    /// Messages taken in, going around at the largest `usize`.
    pub enqueued: usize,
    /// Messages given out, going around at the largest `usize`.
    pub dequeued: usize,
    /// Messages refused, going around at the largest `usize`.
    pub dropped: usize,
    /// The limits and the sizing rules.
    pub config: Config,
}

impl<T> QueueState<T> {
    /// The messages fit in the capacity, the capacity lies within the limits,
    /// and every message that was taken in was given out or is still there.
    pub open spec fn wf(self) -> bool {
        &&& self.config.valid()
        &&& self.items.len() <= self.capacity
        &&& self.config.min_capacity <= self.capacity <= self.config.max_capacity
        &&& self.balanced()
    }

    /// The messages given out and the messages still there make up those taken
    /// in, as far as counters that go around can tell.
    pub open spec fn balanced(self) -> bool {
        ||| self.dequeued + self.items.len() == self.enqueued
        ||| self.dequeued + self.items.len() == self.enqueued + usize::MAX + 1
    }

    /// The capacity that a replacement of the ring is made for.
    pub open spec fn resize_target(self) -> nat {
        config::smaller(
            self.config.growth_factor.product_ceil(self.capacity),
            self.config.max_capacity as nat,
        )
    }

    /// Whether a larger ring can take the place of the present one.
    pub open spec fn can_grow(self) -> bool {
        self.resize_target() > self.capacity && ring::ring_possible::<T>(self.resize_target())
    }

    /// The state after the ring was replaced by a larger one, if that can be.
    pub open spec fn resized(self) -> Self {
        if self.can_grow() {
            QueueState {
                capacity: config::smaller(
                    ring::next_power_of_two(self.resize_target()),
                    self.config.max_capacity as nat,
                ),
                generation: next_generation(self.generation),
                resizing: false,
                ..self
            }
        } else {
            QueueState { resizing: false, ..self }
        }
    }

    /// A replacement of the ring keeps the state well formed and, if it can be,
    /// makes room.
    pub proof fn lemma_resized(self)
        requires
            self.wf(),
        ensures
            self.resized().wf(),
            self.can_grow() ==> self.resized().capacity >= self.resize_target(),
            self.can_grow() ==> self.resized().capacity > self.capacity,
    {
        let k = ring::lemma_next_power_of_two(self.resize_target());
    }

    /// The state after a message was refused.
    pub open spec fn refused(self) -> Self {
        QueueState { dropped: bumped(self.dropped), ..self }
    }

    /// The state after a message was put at the back.
    pub open spec fn appended(self, item: T) -> Self {
        QueueState { items: self.items.push(item), enqueued: bumped(self.enqueued), ..self }
    }

    /// The state with enough room for one more message, as far as possible.
    pub open spec fn with_room(self) -> Self {
        if self.items.len() < self.capacity || self.capacity >= self.config.max_capacity {
            self
        } else {
            self.resized()
        }
    }

    /// The state after the oldest message was taken out.
    pub open spec fn advanced(self) -> Self {
        let rest = QueueState {
            items: self.items.skip(1),
            dequeued: bumped(self.dequeued),
            ..self
        };
        if rest.items.len() * 2 > rest.capacity && rest.capacity < rest.config.max_capacity
            && !rest.resizing {
            rest.resized()
        } else {
            rest
        }
    }
}

/// A first-in first-out queue of messages.
pub struct LockFreeMPSCQueue<T> {
    ring: RingBuffer<T>,
    capacity: usize,
    // The lower half of the position behind the newest message, and the
    // generation.
    head: u64,
    // The position of the oldest message, modulo `2^64`.
    tail: u64,
    len: usize,
    resizing: bool,
    config: Config,
    messages_enqueued: usize,
    messages_dequeued: usize,
    messages_dropped: usize,
}

/// The slot of the position that lies `i` after `tail`.
spec fn slot_at(tail: int, i: int, slots: int) -> int {
    (tail + i) % slots
}

/// Positions taken modulo `2^64` have the slots of the positions themselves.
proof fn lemma_slot_of_wrapped_position(position: int, k: nat)
    requires
        k <= 63,
        0 <= position,
    ensures
        (position % 0x1_0000_0000_0000_0000) % (pow2(k) as int) == position % (pow2(k) as int),
{
    lemma2_to64();
    lemma_pow2_pos(k);
    lemma_pow2_pos((64 - k) as nat);
    lemma_pow2_adds(k, (64 - k) as nat);
    lemma_mod_mod(position, pow2(k) as int, pow2((64 - k) as nat) as int);
}

/// Positions that lie less than the number of slots apart have different slots.
proof fn lemma_slots_differ(tail: int, i: int, j: int, slots: int)
    requires
        0 < slots,
        0 <= i < j < slots,
    ensures
        slot_at(tail, i, slots) != slot_at(tail, j, slots),
{
    if slot_at(tail, i, slots) == slot_at(tail, j, slots) {
        lemma_mod_equivalence(tail + j, tail + i, slots);
        lemma_small_mod((j - i) as nat, slots as nat);
    }
}

impl<T> View for LockFreeMPSCQueue<T> {
    type V = QueueState<T>;

    closed spec fn view(&self) -> QueueState<T> {
        QueueState {
            items: self.messages(),
            capacity: self.capacity as nat,
            generation: (self.head / POSITIONS) as u32,
            resizing: self.resizing,
            enqueued: self.messages_enqueued,
            dequeued: self.messages_dequeued,
            dropped: self.messages_dropped,
            config: self.config,
        }
    }
}

impl<T> LockFreeMPSCQueue<T> {
    /// The values in the slots from the tail on.
    spec fn messages(&self) -> Seq<T> {
        Seq::new(
            self.len as nat,
            |i: int| self.ring@[slot_at(self.tail as int, i, self.ring@.len() as int)]->Some_0,
        )
    }

    /// The slots of the messages are filled.
    spec fn filled(&self) -> bool {
        forall|i: int|
            0 <= i < self.len ==> (#[trigger] self.ring@[slot_at(
                self.tail as int,
                i,
                self.ring@.len() as int,
            )]) is Some
    }

    /// The invariant of the queue.
    pub closed spec fn wf(&self) -> bool {
        &&& self@.wf()
        &&& self.ring.wf()
        &&& self.head % POSITIONS == (self.tail + self.len) % (POSITIONS as int)
        &&& self.capacity == config::smaller(self.ring@.len(), self.config.max_capacity as nat)
        &&& self.filled()
    }

    /// The invariant holds of what the queue shows.
    pub proof fn lemma_wf(&self)
        requires
            self.wf(),
        ensures
            self@.wf(),
    {
    }

    /// Creates an empty queue.
    pub fn new(config: Config) -> (r: BufferResult<Self>)
        ensures
            r is Ok <==> config.valid() && ring::ring_possible::<T>(config.initial_capacity as nat),
            r matches Ok(q) ==> q.wf() && q@ == (QueueState {
                items: Seq::<T>::empty(),
                capacity: config::smaller(
                    ring::next_power_of_two(config.initial_capacity as nat),
                    config.max_capacity as nat,
                ),
                generation: 0,
                resizing: false,
                enqueued: 0,
                dequeued: 0,
                dropped: 0,
                config,
            }),
            r matches Err(e) ==> if config.valid() {
                e matches BufferError::ResizeError(s) && s@ == "Invalid capacity"@
            } else {
                e matches BufferError::InvalidConfiguration(s) && config.defect() == Some(s@)
            },
    {
        match config.validate() {
            Err(e) => Err(e),
            Ok(()) => match RingBuffer::new(config.initial_capacity) {
                Err(e) => Err(e),
                Ok(ring) => {
                    let capacity: usize = usable_capacity(&ring, &config);
                    proof {
                        let k = ring::lemma_next_power_of_two(config.initial_capacity as nat);
                    }
                    let q = LockFreeMPSCQueue {
                        ring,
                        capacity,
                        head: 0,
                        tail: 0,
                        len: 0,
                        resizing: false,
                        config,
                        messages_enqueued: 0,
                        messages_dequeued: 0,
                        messages_dropped: 0,
                    };
                    proof {
                        assert(q@.items =~= Seq::<T>::empty());
                    }
                    Ok(q)
                },
            },
        }
    }

    /// Announces a replacement of the ring. Producers are refused until it is
    /// done. Only one can be announced at a time.
    pub fn begin_resize(&mut self) -> (r: bool)
        requires
            old(self).wf(),
        ensures
            final(self).wf(),
            r == !old(self)@.resizing,
            final(self)@ == (QueueState { resizing: true, ..old(self)@ }),
            final(self)@ == lock_free_laws::perform(old(self)@, Step::BeginResize).state,
    {
        if self.resizing {
            return false;
        }
        self.resizing = true;
        proof {
            assert(self@.items =~= old(self)@.items);
        }
        true
    }

    /// Replaces the ring by a larger one, if there can be one, and lets the
    /// producers in again.
    pub fn complete_resize(&mut self) -> (r: BufferResult<()>)
        requires
            old(self).wf(),
        ensures
            final(self).wf(),
            final(self)@ == old(self)@.resized(),
            final(self)@ == lock_free_laws::perform(old(self)@, Step::CompleteResize).state,
            r is Err <==> old(self)@.resize_target() > old(self)@.capacity && !old(
                self,
            )@.can_grow(),
            r matches Err(e) ==> (e matches BufferError::ResizeError(s) && s@
                == "Invalid capacity"@),
    {
        self.resizing = false;
        proof {
            assert(self@.items =~= old(self)@.items);
        }
        let mut target: usize = self.config.growth_factor.multiply_ceil(self.capacity);
        if target > self.config.max_capacity {
            target = self.config.max_capacity;
        }
        if target <= self.capacity {
            return Ok(());
        }
        match RingBuffer::new(target) {
            Err(e) => Err(e),
            Ok(ring) => {
                proof {
                    let k = ring::lemma_next_power_of_two(target as nat);
                }
                self.move_to(ring);
                Ok(())
            },
        }
    }

    /// Moves all messages to another ring and counts a new generation.
    fn move_to(&mut self, ring: RingBuffer<T>)
        requires
            old(self).wf(),
            ring.wf(),
            ring@.len() >= old(self)@.capacity,
            old(self)@.items.len() <= ring@.len(),
        ensures
            final(self).wf(),
            final(self)@ == (QueueState {
                capacity: config::smaller(ring@.len(), old(self)@.config.max_capacity as nat),
                generation: next_generation(old(self)@.generation),
                ..old(self)@
            }),
    {
        let mut new_ring = ring;
        let (head_position, generation) = unpack_head(self.head);
        let len: usize = self.len();
        let ghost tail = self.tail as int;
        let ghost old_slots = self.ring@.len() as int;
        let ghost new_slots = new_ring@.len() as int;
        let ghost items = self@.items;
        proof {
            let k = self.ring.lemma_wf();
            let n = new_ring.lemma_wf();
        }
        let mut i: usize = 0;
        while i < len
            invariant
                self.ring.wf(),
                new_ring.wf(),
                self.ring@.len() == old_slots,
                new_ring@.len() == new_slots,
                self.tail == tail,
                *self == (LockFreeMPSCQueue { ring: self.ring, ..*old(self) }),
                i <= len,
                len == items.len(),
                len <= old_slots,
                len <= new_slots,
                forall|j: int|
                    i <= j < len ==> (#[trigger] self.ring@[slot_at(tail, j, old_slots)]) == Some(
                        items[j],
                    ),
                forall|j: int|
                    0 <= j < i ==> (#[trigger] new_ring@[slot_at(tail, j, new_slots)]) == Some(
                        items[j],
                    ),
            decreases len - i,
        {
            proof {
                let k = self.ring.lemma_wf();
                let n = new_ring.lemma_wf();
                lemma_slot_of_wrapped_position(tail + i, k);
                lemma_slot_of_wrapped_position(tail + i, n);
                assert(self.ring@[slot_at(tail, i as int, old_slots)] == Some(items[i as int]));
                assert forall|j: int| i < j < len implies (#[trigger] slot_at(tail, j, old_slots)) != slot_at(
                    tail,
                    i as int,
                    old_slots,
                ) by {
                    lemma_slots_differ(tail, i as int, j, old_slots);
                }
                assert forall|j: int| 0 <= j < i implies (#[trigger] slot_at(tail, j, new_slots)) != slot_at(
                    tail,
                    i as int,
                    new_slots,
                ) by {
                    lemma_slots_differ(tail, j, i as int, new_slots);
                }
            }
            let position: u64 = self.tail.wrapping_add(i as u64);
            match self.ring.read(position) {
                Some(item) => {
                    new_ring.write(position, item);
                },
                None => {},
            }
            i = i + 1;
        }
        let next: u32 = if generation == u32::MAX {
            0
        } else {
            generation + 1
        };
        self.head = pack_head(head_position, next);
        self.capacity = usable_capacity(&new_ring, &self.config);
        self.ring = new_ring;
        proof {
            law_packing_is_reversible(head_position as nat, next, 0);
            assert(self@.items =~= old(self)@.items);
        }
    }

    /// Puts a message at the back, replacing a full ring by a larger one as
    /// long as the configuration allows it.
    pub fn try_enqueue(&mut self, item: T) -> (r: BufferResult<()>)
        requires
            old(self).wf(),
        ensures
            final(self).wf(),
            final(self)@ == lock_free_laws::perform(old(self)@, Step::Enqueue(item)).state,
            ({
                let before = old(self)@;
                let ready = before.with_room();
                if before.resizing {
                    &&& r matches Err(BufferError::ResizeError(s)) && s@ == "Resize in progress"@
                    &&& final(self)@ == before.refused()
                } else if before.items.len() >= before.capacity && before.capacity
                    >= before.config.max_capacity {
                    &&& r matches Err(e) && e == BufferError::MaxCapacityReached(
                        before.config.max_capacity,
                    )
                    &&& final(self)@ == before.refused()
                } else if ready.items.len() >= ready.capacity {
                    &&& r matches Err(e) && e == BufferError::Full
                    &&& final(self)@ == before.refused()
                } else {
                    &&& r is Ok
                    &&& final(self)@ == ready.appended(item)
                }
            }),
    {
        if self.resizing {
            self.count_refusal();
            return Err(BufferError::ResizeError("Resize in progress".to_owned()));
        }
        if self.len() >= self.capacity {
            if self.capacity >= self.config.max_capacity {
                self.count_refusal();
                return Err(BufferError::MaxCapacityReached(self.config.max_capacity));
            }
            proof {
                self@.lemma_resized();
            }
            let _ = self.resize();
            if self.len() >= self.capacity {
                self.count_refusal();
                return Err(BufferError::Full);
            }
        }
        self.append(item);
        Ok(())
    }

    /// Counts a refused message.
    fn count_refusal(&mut self)
        requires
            old(self).wf(),
        ensures
            final(self).wf(),
            final(self)@ == old(self)@.refused(),
    {
        self.messages_dropped = self.messages_dropped.wrapping_add(1);
        proof {
            assert(self@.items =~= old(self)@.items);
        }
    }

    /// Writes a message to the next free slot.
    fn append(&mut self, item: T)
        requires
            old(self).wf(),
            old(self)@.items.len() < old(self)@.capacity,
        ensures
            final(self).wf(),
            final(self)@ == old(self)@.appended(item),
    {
        let (half, generation) = unpack_head(self.head);
        let next: usize = ((half as u64 + 1) % POSITIONS) as usize;
        let position: u64 = self.tail.wrapping_add(self.len as u64);
        let ghost slots = self.ring@.len() as int;
        let ghost tail = self.tail as int;
        let ghost len = self.len as int;
        proof {
            let k = self.ring.lemma_wf();
            lemma_slot_of_wrapped_position(tail + len, k);
            assert(position as int % slots == slot_at(tail, len, slots));
            assert forall|j: int| 0 <= j < len implies (#[trigger] slot_at(tail, j, slots)) != slot_at(
                tail,
                len,
                slots,
            ) by {
                lemma_slots_differ(tail, j, len, slots);
            }
            law_packing_is_reversible(next as nat, generation, 0);
        }
        self.ring.write(position, item);
        self.head = pack_head(next, generation);
        self.len = self.len + 1;
        self.messages_enqueued = self.messages_enqueued.wrapping_add(1);
        proof {
            assert(self@.items =~= old(self)@.items.push(item));
        }
    }

    /// Takes the oldest message, and has the ring replaced by a larger one when
    /// more than half of it is still in use.
    pub fn try_dequeue(&mut self) -> (r: BufferResult<Option<T>>)
        requires
            old(self).wf(),
        ensures
            final(self).wf(),
            final(self)@ == lock_free_laws::perform(old(self)@, Step::Dequeue).state,
            r matches Ok(taken) && match taken {
                Some(item) => old(self)@.items.len() > 0 && item == old(self)@.items[0]
                    && final(self)@ == old(self)@.advanced(),
                None => old(self)@.items.len() == 0 && final(self)@ == old(self)@,
            },
    {
        if self.len() == 0 {
            return Ok(None);
        }
        let item: T = self.take_oldest();
        self.try_resize_if_needed();
        Ok(Some(item))
    }

    /// Takes the oldest message out of its slot.
    fn take_oldest(&mut self) -> (r: T)
        requires
            old(self).wf(),
            old(self)@.items.len() > 0,
        ensures
            final(self).wf(),
            r == old(self)@.items[0],
            final(self)@ == (QueueState {
                items: old(self)@.items.skip(1),
                dequeued: bumped(old(self)@.dequeued),
                ..old(self)@
            }),
    {
        let ghost slots = self.ring@.len() as int;
        let ghost tail = self.tail as int;
        let ghost len = self.len as int;
        proof {
            let k = self.ring.lemma_wf();
            assert(self.ring@[slot_at(tail, 0, slots)] is Some);
            assert forall|j: int| 1 <= j < len implies (#[trigger] slot_at(tail, j, slots)) != slot_at(
                tail,
                0,
                slots,
            ) by {
                lemma_slots_differ(tail, 0, j, slots);
            }
            assert forall|j: int| 0 <= j < len - 1 implies #[trigger] slot_at(
                (tail + 1) % 0x1_0000_0000_0000_0000,
                j,
                slots,
            ) == slot_at(tail, j + 1, slots) by {
                lemma_slot_of_wrapped_position(tail + 1, k);
                lemma_add_mod_noop((tail + 1) % 0x1_0000_0000_0000_0000, j, slots);
                lemma_add_mod_noop(tail + 1, j, slots);
            }
        }
        let taken: Option<T> = self.ring.read(self.tail);
        self.tail = self.tail.wrapping_add(1);
        self.len = self.len - 1;
        self.messages_dequeued = self.messages_dequeued.wrapping_add(1);
        proof {
            assert(self.filled());
            assert(self@.items =~= old(self)@.items.skip(1));
        }
        taken.unwrap()
    }

    /// Has the ring replaced by a larger one if more than half of it is in use
    /// and no replacement was announced. If there can be none, the present ring
    /// stays in use.
    fn try_resize_if_needed(&mut self)
        requires
            old(self).wf(),
        ensures
            final(self).wf(),
            final(self)@ == if old(self)@.items.len() * 2 > old(self)@.capacity && old(
                self,
            )@.capacity < old(self)@.config.max_capacity && !old(self)@.resizing {
                old(self)@.resized()
            } else {
                old(self)@
            },
    {
        let len: usize = self.len();
        if len > self.capacity - len && self.capacity < self.config.max_capacity {
            let _ = self.resize();
        }
    }

    /// Replaces the ring by a larger one, if there can be one and no
    /// replacement was announced.
    fn resize(&mut self) -> (r: BufferResult<()>)
        requires
            old(self).wf(),
        ensures
            final(self).wf(),
            final(self)@ == if old(self)@.resizing {
                old(self)@
            } else {
                old(self)@.resized()
            },
            r is Err <==> !old(self)@.resizing && old(self)@.resize_target() > old(
                self,
            )@.capacity && !old(self)@.can_grow(),
    {
        if self.begin_resize() {
            self.complete_resize()
        } else {
            Ok(())
        }
    }

    /// The number of messages.
    pub fn len(&self) -> (r: usize)
        requires
            self.wf(),
        ensures
            r == self@.items.len(),
    {
        self.len
    }

    /// Whether there is no message.
    pub fn is_empty(&self) -> (r: bool)
        requires
            self.wf(),
        ensures
            r == (self@.items.len() == 0),
    {
        self.len() == 0
    }

    /// How many messages fit at present.
    pub fn capacity(&self) -> (r: usize)
        ensures
            r == self@.capacity,
    {
        self.capacity
    }

    /// Statistics about the queue.
    pub fn stats(&self) -> (r: QueueStats)
        requires
            self.wf(),
        ensures
            r.messages_enqueued == self@.enqueued,
            r.messages_dequeued == self@.dequeued,
            r.messages_dropped == self@.dropped,
            r.current_size == self@.items.len(),
            r.current_capacity == self@.capacity,
    {
        QueueStats {
            messages_enqueued: self.messages_enqueued,
            messages_dequeued: self.messages_dequeued,
            messages_dropped: self.messages_dropped,
            current_size: self.len(),
            current_capacity: self.capacity,
        }
    }
}

/// How much of a ring may be used.
fn usable_capacity<T>(ring: &RingBuffer<T>, config: &Config) -> (r: usize)
    ensures
        r == config::smaller(ring@.len(), config.max_capacity as nat),
{
    if ring.slot_count() <= config.max_capacity {
        ring.slot_count()
    } else {
        config.max_capacity
    }
}

} // verus!
