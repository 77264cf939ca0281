//! Distances as integers.
//!
//! A creature compares squared distances in the total order that IEEE 754
//! defines on floating-point values. That order is an order on bit patterns,
//! and this module maps each single-precision bit pattern to an integer that
//! sorts the same way, so that the comparison itself can be done, and
//! reasoned about, on integers.

use vstd::prelude::*;

verus! {

/// Whether the sign bit of the pattern is set.
pub open spec fn is_negative(bits: u32) -> bool {
    bits >= 0x8000_0000
}

/// The pattern without its sign bit.
pub open spec fn magnitude(bits: u32) -> int {
    if bits >= 0x8000_0000 {
        bits - 0x8000_0000
    } else {
        bits as int
    }
}

/// Whether `a` comes strictly before `b` in the total order: every negative
/// pattern before every positive one, positive patterns by rising magnitude,
/// negative patterns by falling magnitude.
pub open spec fn precedes(a: u32, b: u32) -> bool {
    if is_negative(a) {
        !is_negative(b) || magnitude(a) > magnitude(b)
    } else {
        !is_negative(b) && magnitude(a) < magnitude(b)
    }
}

/// The integer that stands for `bits` in the total order.
pub open spec fn order_key(bits: u32) -> int {
    if bits < 0x8000_0000 {
        bits as int
    } else {
        0x7FFF_FFFF - bits
    }
}

/// Keys sort as the patterns do, and distinct patterns have distinct keys.
pub proof fn lemma_order_key_orders(a: u32, b: u32)
    ensures
        order_key(a) < order_key(b) <==> precedes(a, b),
        order_key(a) == order_key(b) <==> a == b,
        i32::MIN <= order_key(a) <= i32::MAX,
{
}

/// The key of a single-precision bit pattern in the total order.
pub fn total_order_key(bits: u32) -> (key: i32)
    ensures
        key == order_key(bits),
{
    if bits < 0x8000_0000 {
        bits as i32
    } else {
        (0x7FFF_FFFFi64 - bits as i64) as i32
    }
}

} // verus!
