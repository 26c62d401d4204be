//! The test signals of a field, from which its noise is measured.
use vstd::prelude::*;

use crate::ieee;
use crate::ieee::inrange;

verus! {

/// The double 90.0.
pub const WHITE_MIN: u64 = 0x4056_8000_0000_0000;

/// The double 110.0.
pub const WHITE_MAX: u64 = 0x405b_8000_0000_0000;

/// Whether a mean level, a double, is white.
pub open spec fn is_white(level: u64) -> bool {
    ieee::between_double(level, WHITE_MIN, WHITE_MAX)
}

/// The first place with a white level; `levels` holds the mean level of each.
pub fn white_place(levels: &[u64]) -> (place: Option<usize>)
    ensures
        match place {
            Some(place) => place < levels@.len() && is_white(levels@[place as int]) && forall|
                i: int,
            |
                0 <= i < place ==> !is_white(#[trigger] levels@[i]),
            None => forall|i: int| 0 <= i < levels@.len() ==> !is_white(#[trigger] levels@[i]),
        },
{
    let mut place: usize = 0;
    while place < levels.len()
        invariant
            place <= levels@.len(),
            forall|i: int| 0 <= i < place ==> !is_white(#[trigger] levels@[i]),
        decreases levels@.len() - place,
    {
        if inrange(levels[place], WHITE_MIN, WHITE_MAX) {
            return Some(place);
        }
        place = place + 1;
    }
    None
}

/// How far an encoded sample is above the zero level, in 16 bits.
pub open spec fn above_zero(value: u16, zero: u16) -> u16 {
    if value >= zero {
        (value - zero) as u16
    } else {
        (value - zero + 0x1_0000) as u16
    }
}

/// How far encoded samples are above the zero level, in 16 bits.
pub fn samples_above_zero(values: &[u16], zero: u16) -> (above: Vec<u16>)
    ensures
        above@ == Seq::new(values@.len(), |i: int| above_zero(values@[i], zero)),
{
    let mut above: Vec<u16> = Vec::new();
    let mut index: usize = 0;
    while index < values.len()
        invariant
            index == above@.len() <= values@.len(),
            forall|i: int| 0 <= i < index ==> #[trigger] above@[i] == above_zero(values@[i], zero),
        decreases values@.len() - index,
    {
        above.push(values[index].wrapping_sub(zero));
        index = index + 1;
    }
    proof {
        assert(above@ =~= Seq::new(values@.len(), |i: int| above_zero(values@[i], zero)));
    }
    above
}

/// The double infinity, without its sign.
pub const INFINITE_SIZE: u64 = 0x7ff0_0000_0000_0000;

/// A measured ratio, where it is finite.
pub fn finite_ratio(ratio: u64) -> (kept: Option<u64>)
    ensures
        kept == if ratio % 0x8000_0000_0000_0000 < INFINITE_SIZE {
            Some(ratio)
        } else {
            None
        },
{
    if ratio % 0x8000_0000_0000_0000 < INFINITE_SIZE {
        Some(ratio)
    } else {
        None
    }
}

} // verus!
