//! A ring of slots that is addressed by ever-growing positions.

use crate::error::{BufferError, BufferResult};
use std::alloc::Layout;
use vstd::arithmetic::power2::*;
use vstd::bits::*;
use vstd::layout;
use vstd::prelude::*;
use vstd::string::*;

verus! {

/// The smallest power of two that is not below `n`.
pub open spec fn next_power_of_two(n: nat) -> nat
    decreases n,
{
    if n <= 1 {
        1
    } else {
        2 * next_power_of_two((n + 1) / 2)
    }
}

/// Whether a ring for `n` items of type `T` can be counted and allocated.
pub open spec fn ring_possible<T>(n: nat) -> bool {
    &&& next_power_of_two(n) <= usize::MAX
    &&& next_power_of_two(n) * layout::size_of::<Option<T>>() <= isize::MAX
}

/// `next_power_of_two` is a power of two, is not below its argument, and is
/// less than twice as large.
pub proof fn lemma_next_power_of_two(n: nat) -> (k: nat)
    ensures
        next_power_of_two(n) == pow2(k),
        next_power_of_two(n) >= n,
        n > 0 ==> next_power_of_two(n) < 2 * n,
    decreases n,
{
    lemma2_to64();
    if n <= 1 {
        0
    } else {
        let j = lemma_next_power_of_two((n + 1) / 2);
        lemma_pow2_unfold(j + 1);
        if n % 2 == 1 {
            lemma_next_power_of_two_even(j, (n + 1) / 2);
        }
        j + 1
    }
}

/// A power of two strictly below `2 * n` that is not below `n` leaves room for
/// the odd number just under `2 * n`.
proof fn lemma_next_power_of_two_even(j: nat, n: nat)
    requires
        pow2(j) < 2 * n,
        n >= 2,
    ensures
        pow2(j) < 2 * n - 1,
{
    if j == 0 {
        lemma2_to64();
    } else {
        lemma_pow2_unfold(j);
    }
}

/// `next_power_of_two` is the smallest power of two that is not below its
/// argument.
pub proof fn law_smallest_power_of_two(n: nat, k: nat)
    requires
        pow2(k) >= n,
    ensures
        n <= next_power_of_two(n) <= pow2(k),
        exists|j: nat| next_power_of_two(n) == #[trigger] pow2(j),
{
    let j = lemma_next_power_of_two(n);
    assert(next_power_of_two(n) == pow2(j));
    if pow2(k) < pow2(j) {
        if j <= k {
            if j < k {
                lemma_pow2_strictly_increases(j, k);
            }
        } else {
            lemma_pow2_unfold(j);
            if k < j - 1 {
                lemma_pow2_strictly_increases(k, (j - 1) as nat);
            }
            lemma_pow2_pos(k);
        }
    }
}

/// A ring can be had if and only if some power of two of slots holds the items,
/// can be counted and can be allocated.
pub proof fn law_ring_needs_a_power_of_two<T>(n: nat)
    ensures
        ring_possible::<T>(n) <==> exists|k: nat|
            n <= #[trigger] pow2(k) <= usize::MAX && pow2(k) * layout::size_of::<Option<T>>()
                <= isize::MAX,
{
    let j = lemma_next_power_of_two(n);
    if ring_possible::<T>(n) {
        assert(pow2(j) <= usize::MAX);
    }
    if exists|k: nat|
        n <= #[trigger] pow2(k) <= usize::MAX && pow2(k) * layout::size_of::<Option<T>>()
            <= isize::MAX {
        let k = choose|k: nat|
            n <= #[trigger] pow2(k) <= usize::MAX && pow2(k) * layout::size_of::<Option<T>>()
                <= isize::MAX;
        law_smallest_power_of_two(n, k);
        let size = layout::size_of::<Option<T>>();
        assert(next_power_of_two(n) * size <= pow2(k) * size) by (nonlinear_arith)
            requires
                next_power_of_two(n) <= pow2(k),
                0 <= size,
        ;
    }
}

/// The smallest power of two that is not below `n`, if it is a `usize`.
fn round_up_to_power_of_two(n: usize) -> (r: Option<usize>)
    ensures
        match r {
            Some(p) => p == next_power_of_two(n as nat),
            None => next_power_of_two(n as nat) > usize::MAX,
        },
    decreases n,
{
    if n <= 1 {
        return Some(1);
    }
    match round_up_to_power_of_two(n / 2 + n % 2) {
        Some(p) if p <= usize::MAX / 2 => Some(2 * p),
        _ => None,
    }
}

/// Whether `n` values of type `T` fit in one allocation. `Layout::array` fails
/// exactly when their total size exceeds the largest `isize`.
#[verifier::external_body]
fn array_fits<T>(n: usize) -> (r: bool)
    ensures
        r == (n * layout::size_of::<T>() <= isize::MAX),
{
    Layout::array::<T>(n).is_ok()
}

/// A fixed number of slots, a power of two, each of which may hold a value.
pub struct RingBuffer<T> {
    slots: Vec<Option<T>>,
    mask: usize,
}

impl<T> View for RingBuffer<T> {
    type V = Seq<Option<T>>;

    closed spec fn view(&self) -> Seq<Option<T>> {
        self.slots@
    }
}

impl<T> RingBuffer<T> {
    /// The number of slots is a power of two within the limit.
    pub closed spec fn wf(&self) -> bool {
        &&& 0 < self.slots@.len() <= usize::MAX
        &&& self.mask == self.slots@.len() - 1
        &&& exists|k: nat| self.slots@.len() == #[trigger] pow2(k)
    }

    /// What is known of the number of slots.
    pub proof fn lemma_wf(&self) -> (k: nat)
        requires
            self.wf(),
        ensures
            k <= 63,
            self@.len() == pow2(k),
            0 < self@.len() <= usize::MAX,
    {
        let k = choose|k: nat| self.slots@.len() == #[trigger] pow2(k);
        lemma2_to64();
        if k > 64 {
            lemma_pow2_strictly_increases(64, k);
        }
        k
    }

    /// Creates a ring of empty slots, enough for `capacity` items.
    pub fn new(capacity: usize) -> (r: BufferResult<Self>)
        ensures
            r is Ok <==> ring_possible::<T>(capacity as nat),
            r matches Ok(ring) ==> {
                &&& ring.wf()
                &&& ring@.len() == next_power_of_two(capacity as nat)
                &&& forall|i: int| 0 <= i < ring@.len() ==> (#[trigger] ring@[i]) is None
            },
            r matches Err(e) ==> (e matches BufferError::ResizeError(s) && s@
                == "Invalid capacity"@),
    {
        let ghost k = lemma_next_power_of_two(capacity as nat);
        let count: usize = match round_up_to_power_of_two(capacity) {
            Some(count) => count,
            None => {
                return Err(BufferError::ResizeError("Invalid capacity".to_owned()));
            },
        };
        if !array_fits::<Option<T>>(count) {
            return Err(BufferError::ResizeError("Invalid capacity".to_owned()));
        }
        let mut slots: Vec<Option<T>> = Vec::with_capacity(count);
        while slots.len() < count
            invariant
                slots@.len() <= count,
                forall|i: int| 0 <= i < slots@.len() ==> (#[trigger] slots@[i]) is None,
            decreases count - slots@.len(),
        {
            slots.push(None);
        }
        proof {
            lemma_pow2_pos(k);
            assert(slots@.len() == pow2(k));
        }
        Ok(RingBuffer { slots, mask: count - 1 })
    }

    /// The number of slots.
    pub fn slot_count(&self) -> (r: usize)
        ensures
            r == self@.len(),
    {
        self.slots.len()
    }

    /// The slot of a position.
    fn slot_of(&self, position: u64) -> (r: usize)
        requires
            self.wf(),
        ensures
            r == position as nat % self@.len(),
            r < self@.len(),
    {
        proof {
            let k = self.lemma_wf();
            lemma_u64_low_bits_mask_is_mod(position, k);
            assert(low_bits_mask(k) == self.mask);
        }
        (position & self.mask as u64) as usize
    }

    /// Puts a value in the slot of a position.
    pub fn write(&mut self, position: u64, value: T)
        requires
            old(self).wf(),
        ensures
            final(self).wf(),
            final(self)@ == old(self)@.update(
                (position as nat % old(self)@.len()) as int,
                Some(value),
            ),
    {
        let slot: usize = self.slot_of(position);
        self.slots.set(slot, Some(value));
    }

    /// Takes the value out of the slot of a position.
    pub fn read(&mut self, position: u64) -> (r: Option<T>)
        requires
            old(self).wf(),
        ensures
            final(self).wf(),
            r == old(self)@[(position as nat % old(self)@.len()) as int],
            final(self)@ == old(self)@.update((position as nat % old(self)@.len()) as int, None),
    {
        let slot: usize = self.slot_of(position);
        let mut r: Option<T> = None;
        self.slots.set_and_swap(slot, &mut r);
        r
    }
}

} // verus!
