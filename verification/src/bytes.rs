//! Little-endian numbers and sums of bytes.

use vstd::arithmetic::power::*;
use vstd::prelude::*;

verus! {

/// The `width` lowest bytes of a number, the lowest first.
pub open spec fn le_bytes(n: nat, width: nat) -> Seq<u8>
    decreases width,
{
    if width == 0 {
        Seq::empty()
    } else {
        seq![(n % 256) as u8] + le_bytes(n / 256, (width - 1) as nat)
    }
}

/// The number that has the given bytes, the lowest first.
pub open spec fn le_value(bytes: Seq<u8>) -> nat
    decreases bytes.len(),
{
    if bytes.len() == 0 {
        0
    } else {
        bytes[0] as nat + 256 * le_value(bytes.skip(1))
    }
}

/// The sum of all bytes.
pub open spec fn byte_sum(bytes: Seq<u8>) -> nat
    decreases bytes.len(),
{
    if bytes.len() == 0 {
        0
    } else {
        byte_sum(bytes.drop_last()) + bytes.last() as nat
    }
}

/// There are as many bytes as asked for.
pub proof fn lemma_le_bytes_len(n: nat, width: nat)
    ensures
        le_bytes(n, width).len() == width,
    decreases width,
{
    if width > 0 {
        lemma_le_bytes_len(n / 256, (width - 1) as nat);
    }
}

/// A number below the limit of its width is what its bytes stand for.
pub proof fn law_le_bytes_are_reversible(n: nat, width: nat)
    requires
        n < pow(256, width),
    ensures
        le_value(le_bytes(n, width)) == n,
    decreases width,
{
    if width == 0 {
        lemma_pow0(256);
    } else {
        let rest = (width - 1) as nat;
        reveal(pow);
        assert(pow(256, width) == 256 * pow(256, rest));
        law_le_bytes_are_reversible(n / 256, rest);
        lemma_le_bytes_len(n / 256, rest);
        assert(le_bytes(n, width).skip(1) =~= le_bytes(n / 256, rest));
    }
}

/// A zero has no byte but zero.
pub proof fn lemma_le_bytes_of_zero(width: nat)
    ensures
        le_bytes(0, width).len() == width,
        forall|i: int| 0 <= i < width ==> #[trigger] le_bytes(0, width)[i] == 0,
    decreases width,
{
    if width > 0 {
        lemma_le_bytes_of_zero((width - 1) as nat);
    }
}

/// Bytes further on weigh 256 times as much for each byte before them.
pub proof fn law_le_value_is_positional(low: Seq<u8>, high: Seq<u8>)
    ensures
        le_value(low + high) == le_value(low) + pow(256, low.len()) * le_value(high),
    decreases low.len(),
{
    if low.len() == 0 {
        lemma_pow0(256);
        assert(low + high =~= high);
    } else {
        let rest = low.skip(1);
        law_le_value_is_positional(rest, high);
        assert((low + high).skip(1) =~= rest + high);
        reveal(pow);
        assert(pow(256, low.len()) == 256 * pow(256, rest.len()));
        let p = pow(256, rest.len());
        let v = le_value(high) as int;
        assert(256 * (p * v) == (256 * p) * v) by (nonlinear_arith);
    }
}

/// The number that four bytes stand for.
pub proof fn law_le_value_of_four(bytes: Seq<u8>)
    requires
        bytes.len() == 4,
    ensures
        le_value(bytes) == bytes[0] + 0x100 * bytes[1] + 0x1_0000 * bytes[2] + 0x100_0000
            * bytes[3],
{
    reveal_with_fuel(le_value, 5);
}

/// The sum of eight bytes.
pub proof fn law_byte_sum_of_eight(bytes: Seq<u8>)
    requires
        bytes.len() == 8,
    ensures
        byte_sum(bytes) == bytes[0] + bytes[1] + bytes[2] + bytes[3] + bytes[4] + bytes[5]
            + bytes[6] + bytes[7],
{
    reveal_with_fuel(byte_sum, 9);
}

/// The sum of some bytes grows by each byte that is added, at whichever end.
pub proof fn law_byte_sum_adds_up(bytes: Seq<u8>, more: Seq<u8>, byte: u8)
    ensures
        byte_sum(bytes + more) == byte_sum(bytes) + byte_sum(more),
        byte_sum(seq![byte]) == byte,
        byte_sum(Seq::empty()) == 0,
    decreases more.len(),
{
    reveal_with_fuel(byte_sum, 2);
    if more.len() == 0 {
        assert(bytes + more =~= bytes);
    } else {
        law_byte_sum_adds_up(bytes, more.drop_last(), byte);
        assert((bytes + more).drop_last() =~= bytes + more.drop_last());
    }
}

/// The limits of four and of eight bytes.
pub proof fn lemma_le_limits()
    ensures
        pow(256, 4) == 0x1_0000_0000,
        pow(256, 8) == 0x1_0000_0000_0000_0000,
{
    reveal(pow);
    reveal_with_fuel(pow, 9);
}

/// Bytes stand for a number below the limit of their width.
pub proof fn lemma_le_value_bound(bytes: Seq<u8>)
    ensures
        le_value(bytes) < pow(256, bytes.len()),
    decreases bytes.len(),
{
    if bytes.len() == 0 {
        lemma_pow0(256);
    } else {
        lemma_le_value_bound(bytes.skip(1));
        reveal(pow);
        assert(pow(256, bytes.len()) == 256 * pow(256, (bytes.len() - 1) as nat));
    }
}

/// The bytes of a number, the lowest first.
pub fn encode_le(n: u64, width: usize) -> (r: Vec<u8>)
    ensures
        r@ == le_bytes(n as nat, width as nat),
{
    let mut r: Vec<u8> = Vec::new();
    let mut rest: u64 = n;
    while r.len() < width
        invariant
            r@.len() <= width,
            le_bytes(n as nat, width as nat) =~= r@ + le_bytes(
                rest as nat,
                (width - r@.len()) as nat,
            ),
        decreases width - r@.len(),
    {
        r.push((rest % 256) as u8);
        rest = rest / 256;
    }
    r
}

/// The number whose `width` bytes start at `start`.
pub fn decode_le(bytes: &[u8], start: usize, width: usize) -> (r: u64)
    requires
        start + width <= bytes@.len(),
        width <= 8,
    ensures
        r == le_value(bytes@.subrange(start as int, start + width)),
{
    let len: usize = bytes.len();
    let mut r: u64 = 0;
    let mut i: usize = width;
    proof {
        assert(bytes@.subrange(start + width, start + width) =~= Seq::<u8>::empty());
    }
    while i > 0
        invariant
            i <= width <= 8,
            start + width <= len == bytes@.len(),
            r == le_value(bytes@.subrange(start + i, start + width)),
        decreases i,
    {
        let ghost part = bytes@.subrange(start + i - 1, start + width);
        proof {
            assert(part.skip(1) =~= bytes@.subrange(start + i, start + width));
            lemma_le_value_bound(part);
            lemma_pow_increases(256, part.len(), 8);
            lemma_le_limits();
        }
        i = i - 1;
        r = bytes[start + i] as u64 + 256 * r;
    }
    r
}

/// The sum of all bytes on top of `start`, going around at the largest `u32`.
pub fn sum_bytes(start: u32, bytes: &[u8]) -> (r: u32)
    ensures
        r == (start + byte_sum(bytes@)) % 0x1_0000_0000,
{
    let mut sum: u32 = start;
    let mut i: usize = 0;
    proof {
        assert(bytes@.take(0) =~= Seq::<u8>::empty());
    }
    while i < bytes.len()
        invariant
            i <= bytes@.len(),
            sum == (start + byte_sum(bytes@.take(i as int))) % 0x1_0000_0000,
        decreases bytes@.len() - i,
    {
        proof {
            assert(bytes@.take(i + 1).drop_last() =~= bytes@.take(i as int));
        }
        sum = sum.wrapping_add(bytes[i] as u32);
        i = i + 1;
    }
    proof {
        assert(bytes@.take(bytes@.len() as int) =~= bytes@);
    }
    sum
}

/// A copy of a range of bytes.
pub fn copy_range(bytes: &[u8], start: usize, end: usize) -> (r: Vec<u8>)
    requires
        start <= end <= bytes@.len(),
    ensures
        r@ == bytes@.subrange(start as int, end as int),
{
    let mut r: Vec<u8> = Vec::new();
    let mut i: usize = start;
    while i < end
        invariant
            start <= i <= end <= bytes@.len(),
            r@ =~= bytes@.subrange(start as int, i as int),
        decreases end - i,
    {
        r.push(bytes[i]);
        i = i + 1;
    }
    r
}

} // verus!
