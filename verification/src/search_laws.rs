//! What the searches in a signal find, over its samples.
use vstd::prelude::*;

use crate::ieee;
use crate::search;
use crate::search::{MatchState, SearchError};

verus! {

/// Where a single stands in the order of numbers; both zeros stand at nought.
pub open spec fn place_of(bits: u32) -> int {
    if bits < 0x8000_0000 {
        bits as int
    } else {
        0x8000_0000 - bits
    }
}

/// That a single is a number.
pub open spec fn is_number(bits: u32) -> bool {
    bits <= 0x7f80_0000 || 0x8000_0000 <= bits <= 0xff80_0000
}

/// That a sample has reached a level from below, or from above.
pub open spec fn at_level(sample: u32, target: u32, rising: bool) -> bool {
    &&& is_number(sample)
    &&& is_number(target)
    &&& if rising {
        place_of(target) <= place_of(sample)
    } else {
        place_of(sample) <= place_of(target)
    }
}

/// That one single is less than another.
pub open spec fn lower(a: u32, b: u32) -> bool {
    is_number(a) && is_number(b) && place_of(a) < place_of(b)
}

/// Singles are ordered by their patterns: the positive ones as these, the negative ones
/// the other way round and below them, and what is no number is neither less than
/// anything nor greater. The orders are the opposite of each other.
pub proof fn law_order_of_singles(a: u32, b: u32)
    ensures
        ieee::lt_single(a, b) == lower(a, b),
        ieee::le_single(a, b) == (is_number(a) && is_number(b) && place_of(a) <= place_of(b)),
        ieee::nan_single(a) == !is_number(a),
        a < b < 0x7f80_0000 ==> ieee::lt_single(a, b),
        0x8000_0000 <= a < b < 0xff80_0000 ==> ieee::lt_single(b, a),
        !(ieee::lt_single(a, b) && ieee::lt_single(b, a)),
        is_number(a) && is_number(b) ==> ieee::lt_single(a, b) != ieee::le_single(b, a),
{
}

/// Doubles are ordered in the same way.
pub proof fn law_order_of_doubles(a: u64, b: u64)
    ensures
        a < b <= 0x7ff0_0000_0000_0000 ==> ieee::lt_double(a, b),
        0x8000_0000_0000_0000 <= a < b <= 0xfff0_0000_0000_0000 ==> ieee::lt_double(b, a),
        0 < b <= 0x7ff0_0000_0000_0000 && 0x8000_0000_0000_0000 <= a <= 0xfff0_0000_0000_0000
            ==> ieee::lt_double(a, b) && !ieee::le_double(b, a),
        0x7ff0_0000_0000_0000 < a < 0x8000_0000_0000_0000 || 0xfff0_0000_0000_0000 < a
            ==> !ieee::lt_double(a, b) && !ieee::lt_double(b, a) && !ieee::le_double(a, b)
            && !ieee::le_double(b, a) && ieee::nan_double(a),
        !(ieee::lt_double(a, b) && ieee::lt_double(b, a)),
        ieee::lt_double(a, b) ==> ieee::le_double(a, b),
        !ieee::nan_double(a) && !ieee::nan_double(b) ==> ieee::lt_double(a, b) != ieee::le_double(
            b,
            a,
        ),
{
}

proof fn lemma_first_reached(data: Seq<u32>, target: u32, rising: bool, from: int, to: int)
    ensures
        match search::first_reached(data, target, rising, from, to) {
            Some(place) => from <= place < to && at_level(data[place], target, rising) && forall|
                i: int,
            |
                from <= i < place ==> !at_level(#[trigger] data[i], target, rising),
            None => forall|i: int|
                from <= i < to ==> !at_level(#[trigger] data[i], target, rising),
        },
    decreases to - from,
{
    if from < to {
        lemma_first_reached(data, target, rising, from + 1, to);
    }
}

/// A crossing is searched for from the second sample on at the earliest, and over the
/// sample where the search begins and `count` more, as far as there are any. It is at the
/// first of them that has reached the level, from below where a rising edge is asked for
/// (1) or the signal begins below the level and either is (0), and else from above. There
/// is none where none of them has, nor where the signal is past the level already.
pub proof fn law_crossing(
    data: Seq<u32>,
    start_offset: int,
    target: u32,
    count: int,
    edge: int,
)
    ensures
        ({
            let found = search::crossing_of(data, start_offset, target, count, edge);
            let start = if start_offset > 1 {
                start_offset
            } else {
                1
            };
            let from = if start_offset < 0 {
                data.len() + start_offset
            } else {
                start_offset
            };
            let rising = edge == 1 || edge == 0 && lower(data[start], target);
            let past = rising && lower(target, data[from]) || !rising && (edge == 0 || edge == -1)
                && lower(data[from], target);
            let out = start >= data.len() || from < 0 || from >= data.len();
            &&& out ==> found == Err::<Option<int>, SearchError>(SearchError::StartOutOfRange)
            &&& !out && past ==> found == Ok::<Option<int>, SearchError>(None)
            &&& !out && !past ==> match found {
                Ok(Some(place)) => {
                    &&& start <= place < data.len()
                    &&& place <= start + count
                    &&& at_level(data[place], target, rising)
                    &&& forall|i: int|
                        start <= i < place ==> !at_level(#[trigger] data[i], target, rising)
                },
                Ok(None) => forall|i: int|
                    start <= i < data.len() && i <= start + count ==> !at_level(
                        #[trigger] data[i],
                        target,
                        rising,
                    ),
                Err(_) => false,
            }
        }),
{
    let start = search::search_start(start_offset);
    let rising = search::is_rising(data, target, edge, start);
    let end = if count + 1 <= 0 {
        start
    } else if start + count + 1 < data.len() {
        start + count + 1
    } else {
        data.len() as int
    };
    lemma_first_reached(data, target, rising, start, end);
}

/// That a signal goes through a level up to a sample: it was on one side before, and is
/// at the level or on the other side there.
pub open spec fn through(data: Seq<u32>, target: u32, rising: bool, index: int) -> bool {
    &&& at_level(data[index], target, rising)
    &&& if rising {
        lower(data[index - 1], target)
    } else {
        lower(target, data[index - 1])
    }
}

/// The first sample up to which a signal goes through a level is found.
pub proof fn law_first_passing(data: Seq<u32>, target: u32, rising: bool, from: int, to: int)
    ensures
        match search::first_passing(data, target, rising, from, to) {
            Some(place) => from <= place < to && through(data, target, rising, place) && forall|
                i: int,
            |
                from <= i < place ==> !#[trigger] through(data, target, rising, i),
            None => forall|i: int|
                from <= i < to ==> !#[trigger] through(data, target, rising, i),
        },
    decreases to - from,
{
    if from < to {
        law_first_passing(data, target, rising, from + 1, to);
    }
}

/// That the power at a bin is above that at both its neighbours.
pub open spec fn peak_at(power: Seq<u32>, index: int) -> bool {
    lower(power[index - 1], power[index]) && lower(power[index + 1], power[index])
}

/// The peak nearest to the carrier is a peak that no other is nearer than, and the first
/// of those. There is none only where no peak has a distance that is finite.
pub proof fn law_best_peak(power: Seq<u32>, distances: Seq<u64>, count: int)
    ensures
        ({
            let (best, least) = search::best_peak(power, distances, count);
            match best {
                Some(found) => {
                    &&& 0 < found < count
                    &&& peak_at(power, found)
                    &&& least == distances[found]
                    &&& forall|i: int|
                        0 < i < count && #[trigger] peak_at(power, i) ==> !ieee::lt_double(
                            distances[i],
                            distances[found],
                        )
                    &&& forall|i: int|
                        0 < i < found && #[trigger] peak_at(power, i) && ieee::lt_double(
                            distances[i],
                            0x7ff0_0000_0000_0000,
                        ) ==> ieee::lt_double(distances[found], distances[i])
                    &&& ieee::lt_double(distances[found], 0x7ff0_0000_0000_0000)
                },
                None => least == 0x7ff0_0000_0000_0000 && forall|i: int|
                    0 < i < count && #[trigger] peak_at(power, i) ==> !ieee::lt_double(
                        distances[i],
                        0x7ff0_0000_0000_0000,
                    ),
            }
        }),
    decreases count,
{
    if count > 1 {
        law_best_peak(power, distances, count - 1);
        assert(search::is_peak(power, count - 1) == peak_at(power, count - 1));
    }
}

proof fn lemma_match(distances: Seq<u32>, state: MatchState, stop: int)
    requires
        state.at <= stop < distances.len() - 1,
        forall|i: int|
            state.at <= i < stop ==> !lower(#[trigger] distances[i], distances[i + 1]),
        stop == distances.len() - 2 || lower(distances[stop], distances[stop + 1]),
    ensures
        match search::match_from(distances, state) {
            Some(found) => (found == state.best->0 && state.best is Some && forall|i: int|
                state.at <= i <= stop ==> !ieee::le_single(#[trigger] distances[i], state.least))
                || {
                &&& state.at <= found <= stop
                &&& ieee::le_single(distances[found], state.least)
                &&& forall|i: int|
                    state.at <= i <= stop && ieee::le_single(#[trigger] distances[i], state.least)
                        ==> ieee::le_single(distances[found], distances[i]) && (i > found ==> lower(
                        distances[found],
                        distances[i],
                    ))
            },
            None => state.best is None && forall|i: int|
                state.at <= i <= stop ==> !ieee::le_single(#[trigger] distances[i], state.least),
        },
    decreases stop - state.at,
{
    let here = distances[state.at];
    let better = ieee::le_single(here, state.least);
    let next = MatchState {
        at: state.at + 1,
        best: if better {
            Some(state.at)
        } else {
            state.best
        },
        least: if better {
            here
        } else {
            state.least
        },
    };
    if state.at < stop {
        assert(!lower(here, distances[state.at + 1]));
        lemma_match(distances, next, stop);
        assert(search::match_from(distances, state) == search::match_from(distances, next));
    } else if !ieee::lt_single(here, distances[state.at + 1]) {
        assert(search::match_from(distances, next) == next.best);
    }
}

/// The pulse of a line is searched for from `next` on, as long as the pulses get no
/// further away, but for the last one. Of those up to there that are within the limit it
/// is the nearest, and the last of the nearest.
pub proof fn law_best_pulse(distances: Seq<u32>, next: int, limit: u32, stop: int)
    requires
        next <= stop < distances.len() - 1,
        forall|i: int| next <= i < stop ==> !lower(#[trigger] distances[i], distances[i + 1]),
        stop == distances.len() - 2 || lower(distances[stop], distances[stop + 1]),
    ensures
        match search::best_pulse(distances, next, limit) {
            Some(found) => {
                &&& next <= found <= stop
                &&& ieee::le_single(distances[found], limit)
                &&& forall|i: int|
                    next <= i <= stop && ieee::le_single(#[trigger] distances[i], limit)
                        ==> ieee::le_single(distances[found], distances[i]) && (i > found ==> lower(
                        distances[found],
                        distances[i],
                    ))
            },
            None => forall|i: int|
                next <= i <= stop ==> !ieee::le_single(#[trigger] distances[i], limit),
        },
{
    lemma_match(distances, MatchState { at: next, best: None, least: limit }, stop);
}

/// A line takes the best pulse unless that has no place, which stands as -1.0. The next
/// line searches behind a pulse that was taken, from one that has no place again, and
/// where this one did if there was none.
pub proof fn law_pulse_taken(places: Seq<u32>, next: int, best: Option<int>)
    ensures
        best is Some && places[best->0] != 0xbf80_0000 ==> search::taken_pulse(places, best) == best
            && search::next_search(places, next, best) == best->0 + 1,
        best is Some && places[best->0] == 0xbf80_0000 ==> search::taken_pulse(places, best) is None
            && search::next_search(places, next, best) == best->0,
        best is None ==> search::taken_pulse(places, best) is None && search::next_search(
            places,
            next,
            best,
        ) == next,
{
}

/// The burst is searched over the sample behind the strong one and fifteen more, as far
/// as there are any.
pub proof fn law_burst_end(len: int, start: int)
    requires
        0 <= start < len,
    ensures
        start < search::burst_end(len, start) <= len,
        search::burst_end(len, start) == len || search::burst_end(len, start) - (start + 1) == 16,
        len - start <= 17 ==> search::burst_end(len, start) == len,
{
}

/// The magnitude of a single is never negative, has the same for both signs, and is
/// nought only for the zeros.
pub proof fn law_magnitude(bits: u32)
    ensures
        search::magnitude(bits) < 0x8000_0000,
        bits < 0x8000_0000 ==> search::magnitude(bits) == bits && search::magnitude(
            (bits + 0x8000_0000) as u32,
        ) == bits,
        search::magnitude(bits) == 0 <==> place_of(bits) == 0,
{
}

/// A local minimum is less than both its neighbours, so that neither end of a signal is one.
pub proof fn law_minimum(data: Seq<u32>, index: int)
    requires
        0 <= index < data.len(),
    ensures
        search::is_minimum(data, index) <==> 0 < index < data.len() - 1 && lower(
            data[index],
            data[index - 1],
        ) && lower(data[index], data[index + 1]),
{
}

/// A signal changes its sign between two numbers where exactly one of them has the sign bit;
/// where either is no number it counts as a change.
pub proof fn law_sign_change(data: Seq<u32>, index: int)
    requires
        0 <= index < data.len() - 1,
    ensures
        !is_number(data[index]) || !is_number(data[index + 1]) ==> search::crosses_zero(
            data,
            index,
        ),
        is_number(data[index]) && is_number(data[index + 1]) ==> (search::crosses_zero(data, index)
            <==> (data[index] >= 0x8000_0000) != (data[index + 1] >= 0x8000_0000)),
{
}

/// A sample of a burst is strong where it lies above the threshold or below the same one
/// with the other sign.
pub proof fn law_strong(area: Seq<u32>, threshold: u32, index: int)
    requires
        is_number(threshold),
        threshold < 0x8000_0000,
        is_number(area[index]),
    ensures
        search::strong(area, threshold, index) <==> place_of(area[index]) > threshold || place_of(
            area[index],
        ) < -threshold,
{
}

} // verus!
