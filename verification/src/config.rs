//! The configuration of a buffer and the sizing rules that it gives.

use crate::binary64::Binary64;
use crate::error::BufferError;
use std::time::Duration;
use vstd::prelude::*;
use vstd::string::*;

verus! {

/// The bit pattern of `2.0`.
const TWO_BITS: u64 = 0x4000_0000_0000_0000;

/// The bit pattern of `0.25`.
const QUARTER_BITS: u64 = 0x3FD0_0000_0000_0000;

/// The limits of a buffer and how it grows and shrinks between them.
#[derive(Debug)]
pub struct Config {
    /// The capacity of a new buffer.
    pub initial_capacity: usize,
    /// The capacity below which the buffer never shrinks.
    pub min_capacity: usize,
    /// The capacity above which the buffer never grows.
    pub max_capacity: usize,
    /// What the capacity is multiplied by when the buffer grows, and divided
    /// by when it shrinks.
    pub growth_factor: Binary64,
    /// The share of the capacity at or below which the buffer shrinks.
    pub shrink_threshold: Binary64,
    /// How long a push may take; no method applies it by itself.
    pub push_timeout: Option<Duration>,
    /// How long a pop may take; no method applies it by itself.
    pub pop_timeout: Option<Duration>,
}

/// The larger of two numbers.
pub open spec fn larger(a: nat, b: nat) -> nat {
    if a >= b {
        a
    } else {
        b
    }
}

/// The smaller of two numbers.
pub open spec fn smaller(a: nat, b: nat) -> nat {
    if a <= b {
        a
    } else {
        b
    }
}

impl Config {
    /// The first rule that the configuration breaks, if it breaks one.
    pub open spec fn defect(self) -> Option<Seq<char>> {
        if self.min_capacity == 0 || self.max_capacity == 0 {
            Some("Capacities must be greater than zero"@)
        } else if self.min_capacity > self.max_capacity {
            Some("min_capacity cannot be greater than max_capacity"@)
        } else if self.initial_capacity < self.min_capacity || self.initial_capacity
            > self.max_capacity {
            Some("initial_capacity must be between min_capacity and max_capacity"@)
        } else if !self.growth_factor.above_one() {
            Some("growth_factor must be greater than 1.0"@)
        } else if !self.shrink_threshold.between_zero_and_one() {
            Some("shrink_threshold must be between 0 and 1"@)
        } else {
            None
        }
    }

    /// Whether the configuration breaks no rule.
    pub open spec fn valid(self) -> bool {
        self.defect() is None
    }

    /// The capacity after growing from `capacity` to hold `needed` items.
    pub open spec fn grown(self, capacity: nat, needed: nat) -> nat {
        smaller(
            larger(self.growth_factor.product_ceil(capacity), needed),
            self.max_capacity as nat,
        )
    }

    /// The capacity of a buffer that is about to hold `needed` items.
    pub open spec fn capacity_for(self, capacity: nat, needed: nat) -> nat {
        if needed > capacity {
            self.grown(capacity, needed)
        } else {
            capacity
        }
    }

    /// Whether a buffer with `len` items uses so little of its capacity that
    /// it shrinks.
    pub open spec fn underused(self, capacity: nat, len: nat) -> bool {
        len <= self.shrink_threshold.product_trunc(capacity) && capacity > self.min_capacity
    }

    /// The capacity of a buffer after items were taken out and `len` are left.
    pub open spec fn capacity_after_removal(self, capacity: nat, len: nat) -> nat {
        if self.underused(capacity, len) {
            let target = larger(
                larger(self.growth_factor.quotient_floor(capacity), len),
                self.min_capacity as nat,
            );
            smaller(target, capacity)
        } else {
            capacity
        }
    }

    /// The configuration that `default` returns.
    pub open spec fn standard(self) -> bool {
        &&& self.initial_capacity == 1024
        &&& self.min_capacity == 1024
        &&& self.max_capacity == 65536
        &&& self.growth_factor.bits == 0x4000_0000_0000_0000
        &&& self.shrink_threshold.bits == 0x3FD0_0000_0000_0000
        &&& self.push_timeout is None
        &&& self.pop_timeout is None
    }

    /// Checks the configuration.
    pub fn validate(&self) -> (r: Result<(), BufferError>)
        ensures
            r is Ok <==> self.valid(),
            r matches Err(e) ==> (e matches BufferError::InvalidConfiguration(s) && self.defect()
                == Some(s@)),
    {
        if self.min_capacity == 0 || self.max_capacity == 0 {
            return Err(
                BufferError::InvalidConfiguration(
                    "Capacities must be greater than zero".to_owned(),
                ),
            );
        }
        if self.min_capacity > self.max_capacity {
            return Err(
                BufferError::InvalidConfiguration(
                    "min_capacity cannot be greater than max_capacity".to_owned(),
                ),
            );
        }
        if self.initial_capacity < self.min_capacity || self.initial_capacity > self.max_capacity {
            return Err(
                BufferError::InvalidConfiguration(
                    "initial_capacity must be between min_capacity and max_capacity".to_owned(),
                ),
            );
        }
        if !self.growth_factor.is_above_one() {
            return Err(
                BufferError::InvalidConfiguration(
                    "growth_factor must be greater than 1.0".to_owned(),
                ),
            );
        }
        if !self.shrink_threshold.is_between_zero_and_one() {
            return Err(
                BufferError::InvalidConfiguration(
                    "shrink_threshold must be between 0 and 1".to_owned(),
                ),
            );
        }
        Ok(())
    }

    /// The capacity of a buffer that is about to hold `needed` items.
    pub(crate) fn fit_capacity(&self, capacity: usize, needed: usize) -> (r: usize)
        requires
            self.valid(),
            capacity > 0,
        ensures
            r == self.capacity_for(capacity as nat, needed as nat),
    {
        if needed > capacity {
            let mut target: usize = self.growth_factor.multiply_ceil(capacity);
            if target < needed {
                target = needed;
            }
            if target > self.max_capacity {
                target = self.max_capacity;
            }
            target
        } else {
            capacity
        }
    }

    /// The capacity of a buffer after items were taken out and `len` are left.
    pub(crate) fn shrink_capacity(&self, capacity: usize, len: usize) -> (r: usize)
        requires
            self.valid(),
        ensures
            r == self.capacity_after_removal(capacity as nat, len as nat),
    {
        if len <= self.shrink_threshold.multiply_trunc(capacity) && capacity > self.min_capacity {
            let mut target: usize = self.growth_factor.divide_floor(capacity);
            if target < len {
                target = len;
            }
            if target < self.min_capacity {
                target = self.min_capacity;
            }
            if target < capacity {
                target
            } else {
                capacity
            }
        } else {
            capacity
        }
    }

    /// The same configuration with another initial capacity.
    pub fn with_initial_capacity(self, capacity: usize) -> (r: Self)
        ensures
            r == (Config { initial_capacity: capacity, ..self }),
    {
        Config { initial_capacity: capacity, ..self }
    }

    /// The same configuration with another minimum capacity.
    pub fn with_min_capacity(self, capacity: usize) -> (r: Self)
        ensures
            r == (Config { min_capacity: capacity, ..self }),
    {
        Config { min_capacity: capacity, ..self }
    }

    /// The same configuration with another maximum capacity.
    pub fn with_max_capacity(self, capacity: usize) -> (r: Self)
        ensures
            r == (Config { max_capacity: capacity, ..self }),
    {
        Config { max_capacity: capacity, ..self }
    }

    /// The same configuration with another growth factor.
    pub fn with_growth_factor(self, factor: Binary64) -> (r: Self)
        ensures
            r == (Config { growth_factor: factor, ..self }),
    {
        Config { growth_factor: factor, ..self }
    }

    /// The same configuration with another shrink threshold.
    pub fn with_shrink_threshold(self, threshold: Binary64) -> (r: Self)
        ensures
            r == (Config { shrink_threshold: threshold, ..self }),
    {
        Config { shrink_threshold: threshold, ..self }
    }

    /// The same configuration with a push timeout.
    pub fn with_push_timeout(self, timeout: Duration) -> (r: Self)
        ensures
            r == (Config { push_timeout: Some(timeout), ..self }),
    {
        Config { push_timeout: Some(timeout), ..self }
    }

    /// The same configuration with a pop timeout.
    pub fn with_pop_timeout(self, timeout: Duration) -> (r: Self)
        ensures
            r == (Config { pop_timeout: Some(timeout), ..self }),
    {
        Config { pop_timeout: Some(timeout), ..self }
    }
}

impl Clone for Config {
    fn clone(&self) -> (r: Self)
        ensures
            r == *self,
    {
        Config {
            initial_capacity: self.initial_capacity,
            min_capacity: self.min_capacity,
            max_capacity: self.max_capacity,
            growth_factor: self.growth_factor,
            shrink_threshold: self.shrink_threshold,
            push_timeout: self.push_timeout,
            pop_timeout: self.pop_timeout,
        }
    }
}

impl Default for Config {
    fn default() -> (r: Self)
        ensures
            r.standard(),
            r.valid(),
            r.initial_capacity == 1024,
            r.min_capacity == 1024,
            r.max_capacity == 65536,
            r.growth_factor.bits == 0x4000_0000_0000_0000,
            r.shrink_threshold.bits == 0x3FD0_0000_0000_0000,
            r.push_timeout is None,
            r.pop_timeout is None,
    {
        let r = Config {
            initial_capacity: 1024,
            min_capacity: 1024,
            max_capacity: 65536,
            growth_factor: Binary64::from_bits(TWO_BITS),
            shrink_threshold: Binary64::from_bits(QUARTER_BITS),
            push_timeout: None,
            pop_timeout: None,
        };
        proof {
            crate::binary64::lemma_standard_factors();
        }
        r
    }
}

/// A buffer that has to grow gets room for what it is about to hold, gets
/// larger, and stays within its maximum.
pub proof fn law_growth_makes_room(config: Config, capacity: nat, needed: nat)
    requires
        config.valid(),
        0 < capacity < needed <= config.max_capacity,
    ensures
        needed <= config.capacity_for(capacity, needed) <= config.max_capacity,
        config.capacity_for(capacity, needed) > capacity,
{
}

/// A buffer never shrinks below its minimum or below what it holds, and taking
/// items out never makes it larger.
pub proof fn law_shrinking_keeps_bounds(config: Config, capacity: nat, len: nat)
    requires
        config.valid(),
        config.min_capacity <= capacity,
        len <= capacity,
    ensures
        larger(len, config.min_capacity as nat) <= config.capacity_after_removal(capacity, len)
            <= capacity,
{
}

/// What a usable configuration is: positive limits with the initial capacity
/// between them, a growth factor above one, and a threshold between zero and one.
pub proof fn law_usable_configurations(config: Config)
    ensures
        config.valid() <==> 0 < config.min_capacity <= config.initial_capacity
            <= config.max_capacity && config.growth_factor.above_one()
            && config.shrink_threshold.between_zero_and_one(),
{
}

/// The first of the broken rules is the one that is reported.
pub proof fn law_first_broken_rule_is_reported(config: Config)
    ensures
        ({
            let positive = config.min_capacity > 0 && config.max_capacity > 0;
            let ordered = config.min_capacity <= config.max_capacity;
            let within = config.min_capacity <= config.initial_capacity <= config.max_capacity;
            let grows = config.growth_factor.above_one();
            let shrinks = config.shrink_threshold.between_zero_and_one();
            &&& !positive ==> config.defect() == Some("Capacities must be greater than zero"@)
            &&& positive && !ordered ==> config.defect() == Some(
                "min_capacity cannot be greater than max_capacity"@,
            )
            &&& positive && ordered && !within ==> config.defect() == Some(
                "initial_capacity must be between min_capacity and max_capacity"@,
            )
            &&& positive && ordered && within && !grows ==> config.defect() == Some(
                "growth_factor must be greater than 1.0"@,
            )
            &&& positive && ordered && within && grows && !shrinks ==> config.defect() == Some(
                "shrink_threshold must be between 0 and 1"@,
            )
            &&& positive && ordered && within && grows && shrinks ==> config.defect() is None
        }),
{
}

/// How far a buffer grows: not at all as long as there is room; otherwise to the
/// capacity times the growth factor, rounded up, or to what is needed where that
/// is more, but never above the maximum.
pub proof fn law_growth_goes_by_the_factor(config: Config, capacity: nat, needed: nat)
    requires
        config.valid(),
        0 < capacity <= config.max_capacity,
        needed <= config.max_capacity,
    ensures
        ({
            let grown = config.capacity_for(capacity, needed);
            let product = config.growth_factor.product_ceil(capacity);
            &&& needed <= capacity ==> grown == capacity
            &&& needed > capacity ==> needed <= grown <= config.max_capacity
            &&& needed > capacity && needed <= product <= config.max_capacity ==> grown == product
            &&& needed > capacity && product > config.max_capacity ==> grown == config.max_capacity
            &&& needed > capacity && product < needed ==> grown == needed
        }),
{
}

/// When and how far a buffer shrinks, by the configured threshold and factor. It
/// keeps its capacity if more than the threshold's share of it is in use, or if
/// it is at its minimum. Otherwise it gets the capacity divided by the growth
/// factor, rounded down, but no less than it holds and no less than the minimum.
pub proof fn law_shrinking_goes_by_the_threshold(config: Config, capacity: nat, len: nat)
    requires
        config.valid(),
        config.min_capacity <= capacity,
        len <= capacity,
    ensures
        ({
            let after = config.capacity_after_removal(capacity, len);
            let share = config.shrink_threshold.product_trunc(capacity);
            let quotient = config.growth_factor.quotient_floor(capacity);
            &&& len > share ==> after == capacity
            &&& capacity == config.min_capacity ==> after == capacity
            &&& len <= share && capacity > config.min_capacity ==> {
                &&& after <= capacity
                &&& after >= len
                &&& after >= config.min_capacity
                &&& quotient < capacity ==> after >= quotient
                &&& after < capacity ==> after == quotient || after == len || after
                    == config.min_capacity
                &&& quotient < capacity && len < capacity ==> after < capacity
                &&& quotient >= capacity ==> after == capacity
            }
        }),
{
}

} // verus!
