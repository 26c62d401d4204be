//! Comparisons of IEEE-754 numbers that are held as their bit patterns.
use vstd::prelude::*;

verus! {

/// Where a 32-bit pattern stands in the order of the numbers that the patterns
/// denote; both zeros stand at 0.
pub open spec fn rank_single(bits: u32) -> int {
    if bits < 0x8000_0000 {
        bits as int
    } else {
        0x8000_0000 - bits
    }
}

/// Whether a 32-bit pattern denotes no number.
pub open spec fn nan_single(bits: u32) -> bool {
    rank_single(bits) > 0x7f80_0000 || rank_single(bits) < -0x7f80_0000
}

/// `a < b` of the denoted numbers; false where one of them is none.
pub open spec fn lt_single(a: u32, b: u32) -> bool {
    !nan_single(a) && !nan_single(b) && rank_single(a) < rank_single(b)
}

/// `a <= b` of the denoted numbers; false where one of them is none.
pub open spec fn le_single(a: u32, b: u32) -> bool {
    !nan_single(a) && !nan_single(b) && rank_single(a) <= rank_single(b)
}

/// Where a 64-bit pattern stands in the order of the denoted numbers.
pub open spec fn rank_double(bits: u64) -> int {
    if bits < 0x8000_0000_0000_0000 {
        bits as int
    } else {
        0x8000_0000_0000_0000 - bits
    }
}

/// Whether a 64-bit pattern denotes no number.
pub open spec fn nan_double(bits: u64) -> bool {
    rank_double(bits) > 0x7ff0_0000_0000_0000 || rank_double(bits) < -0x7ff0_0000_0000_0000
}

/// `a < b` of the denoted numbers; false where one of them is none.
pub open spec fn lt_double(a: u64, b: u64) -> bool {
    !nan_double(a) && !nan_double(b) && rank_double(a) < rank_double(b)
}

/// `a <= b` of the denoted numbers; false where one of them is none.
pub open spec fn le_double(a: u64, b: u64) -> bool {
    !nan_double(a) && !nan_double(b) && rank_double(a) <= rank_double(b)
}

fn order_single(bits: u32) -> (rank: i64)
    ensures
        rank == rank_single(bits),
{
    if bits < 0x8000_0000 {
        bits as i64
    } else {
        0x8000_0000 - bits as i64
    }
}

fn number_single(bits: u32) -> (number: bool)
    ensures
        number == !nan_single(bits),
{
    let rank: i64 = order_single(bits);
    rank <= 0x7f80_0000 && rank >= -0x7f80_0000
}

/// Whether `a < b`.
pub fn less_single(a: u32, b: u32) -> (less: bool)
    ensures
        less == lt_single(a, b),
{
    number_single(a) && number_single(b) && order_single(a) < order_single(b)
}

/// Whether `a <= b`.
pub fn at_most_single(a: u32, b: u32) -> (at_most: bool)
    ensures
        at_most == le_single(a, b),
{
    number_single(a) && number_single(b) && order_single(a) <= order_single(b)
}

/// Whether the pattern denotes no number.
pub fn is_nan_single(bits: u32) -> (nan: bool)
    ensures
        nan == nan_single(bits),
{
    !number_single(bits)
}

fn order_double(bits: u64) -> (rank: i64)
    ensures
        rank == rank_double(bits),
{
    if bits < 0x8000_0000_0000_0000 {
        bits as i64
    } else {
        -((bits - 0x8000_0000_0000_0000) as i64)
    }
}

fn number_double(bits: u64) -> (number: bool)
    ensures
        number == !nan_double(bits),
{
    let rank: i64 = order_double(bits);
    rank <= 0x7ff0_0000_0000_0000 && rank >= -0x7ff0_0000_0000_0000
}

/// Whether `a < b`.
pub fn less_double(a: u64, b: u64) -> (less: bool)
    ensures
        less == lt_double(a, b),
{
    number_double(a) && number_double(b) && order_double(a) < order_double(b)
}

/// Whether `a <= b`.
pub fn at_most_double(a: u64, b: u64) -> (at_most: bool)
    ensures
        at_most == le_double(a, b),
{
    number_double(a) && number_double(b) && order_double(a) <= order_double(b)
}

/// Whether the pattern denotes no number.
pub fn is_nan_double(bits: u64) -> (nan: bool)
    ensures
        nan == nan_double(bits),
{
    !number_double(bits)
}

/// `low <= value <= high`.
pub open spec fn between_double(value: u64, low: u64, high: u64) -> bool {
    le_double(low, value) && le_double(value, high)
}

/// Whether `value` is in the closed range from `low` to `high`.
pub fn inrange(value: u64, low: u64, high: u64) -> (inside: bool)
    ensures
        inside == between_double(value, low, high),
{
    at_most_double(low, value) && at_most_double(value, high)
}

/// Of two different numbers exactly one is less; equal numbers have one rank.
pub proof fn law_order_single(a: u32, b: u32)
    requires
        !nan_single(a),
        !nan_single(b),
    ensures
        lt_single(a, b) == !le_single(b, a),
        le_single(a, b) == (lt_single(a, b) || rank_single(a) == rank_single(b)),
        rank_single(a) == rank_single(b) ==> a == b || (rank_single(a) == 0 && rank_single(b) == 0),
{
}

} // verus!
