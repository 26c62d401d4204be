//! Searches in buffers of single-precision bit patterns.
use vstd::prelude::*;

use crate::field_order::MINUS_ONE;
use crate::ieee;
use crate::ieee::{at_most_single, is_nan_single, less_double, less_single};
use crate::slices::resolve_signed_index;

verus! {

/// Whether the sample is below both its neighbours; the ends are their own
/// neighbours.
pub open spec fn is_minimum(data: Seq<u32>, index: int) -> bool {
    let after = if index + 1 < data.len() {
        data[index + 1]
    } else {
        data.last()
    };
    let before = if index > 0 {
        data[index - 1]
    } else {
        data[0]
    };
    ieee::lt_single(data[index], after) && ieee::lt_single(data[index], before)
}

/// Whether the signal changes its sign after the sample, or is no number there.
pub open spec fn crosses_zero(data: Seq<u32>, index: int) -> bool {
    let here = data[index];
    let next = data[index + 1];
    ieee::nan_single(here) || ieee::nan_single(next) || (here < 0x8000_0000) != (next
        < 0x8000_0000)
}

/// That the places are those below `count` at which `pred` holds, in order.
pub open spec fn places_of(places: Seq<i64>, pred: spec_fn(int) -> bool, count: int) -> bool {
    &&& forall|k: int| 0 <= k < places.len() ==> 0 <= #[trigger] places[k] < count
    &&& forall|k: int| 0 <= k < places.len() ==> pred(#[trigger] places[k] as int)
    &&& forall|k: int, l: int|
        0 <= k < l < places.len() ==> #[trigger] places[k] < #[trigger] places[l]
    &&& forall|i: int| 0 <= i < count && #[trigger] pred(i) ==> places.contains(i as i64)
}

proof fn lemma_places_push(
    places: Seq<i64>,
    pred: spec_fn(int) -> bool,
    count: int,
    found: bool,
)
    requires
        0 <= count < i64::MAX,
        places_of(places, pred, count),
        found == pred(count),
    ensures
        places_of(
            if found {
                places.push(count as i64)
            } else {
                places
            },
            pred,
            count + 1,
        ),
{
    let next = if found {
        places.push(count as i64)
    } else {
        places
    };
    assert forall|i: int| 0 <= i < count + 1 && #[trigger] pred(i) implies next.contains(
        i as i64,
    ) by {
        if i < count {
            assert(places.contains(i as i64));
            let k = choose|k: int| 0 <= k < places.len() && places[k] == i as i64;
            assert(next[k] == i as i64);
        } else {
            assert(next[places.len() as int] == i as i64);
        }
    }
}

/// The places of the local minima of a signal, in order.
pub fn argrelmin(data: &[u32]) -> (minima: Vec<i64>)
    requires
        data@.len() < i64::MAX,
    ensures
        places_of(minima@, |i: int| is_minimum(data@, i), data@.len() as int),
{
    let ghost pred = |i: int| is_minimum(data@, i);
    let mut minima: Vec<i64> = Vec::new();
    let mut index: usize = 0;
    while index < data.len()
        invariant
            index <= data@.len() < i64::MAX,
            pred == (|i: int| is_minimum(data@, i)),
            places_of(minima@, pred, index as int),
        decreases data@.len() - index,
    {
        let after: u32 = if data.len() - index > 1 {
            data[index + 1]
        } else {
            data[data.len() - 1]
        };
        let before: u32 = if index > 0 {
            data[index - 1]
        } else {
            data[0]
        };
        let found: bool = less_single(data[index], after) && less_single(data[index], before);
        proof {
            assert(found == pred(index as int));
            lemma_places_push(minima@, pred, index as int, found);
        }
        if found {
            minima.push(index as i64);
        }
        index = index + 1;
    }
    minima
}

/// The places after which the signal changes its sign, in order.
pub fn zero_cross_det(data: &[u32]) -> (crossings: Vec<i64>)
    requires
        data@.len() < i64::MAX,
    ensures
        places_of(
            crossings@,
            |i: int| crosses_zero(data@, i),
            if data@.len() > 0 {
                data@.len() - 1
            } else {
                0
            },
        ),
{
    let ghost pred = |i: int| crosses_zero(data@, i);
    let mut crossings: Vec<i64> = Vec::new();
    if data.len() == 0 {
        return crossings;
    }
    let mut index: usize = 0;
    while index < data.len() - 1
        invariant
            index <= data@.len() - 1,
            0 < data@.len() < i64::MAX,
            pred == (|i: int| crosses_zero(data@, i)),
            places_of(crossings@, pred, index as int),
        decreases data@.len() - index,
    {
        let here: u32 = data[index];
        let next: u32 = data[index + 1];
        let found: bool = is_nan_single(here) || is_nan_single(next) || (here < 0x8000_0000) != (
        next < 0x8000_0000);
        proof {
            assert(found == pred(index as int));
            lemma_places_push(crossings@, pred, index as int, found);
        }
        if found {
            crossings.push(index as i64);
        }
        index = index + 1;
    }
    crossings
}

/// The local minima of a signal come in ascending order.
pub proof fn law_minima_ascending(data: Seq<u32>, minima: Seq<i64>)
    requires
        places_of(minima, |i: int| is_minimum(data, i), data.len() as int),
    ensures
        crate::arbitrage::ascending(minima),
{
}

/// Why no crossing was searched for.
#[derive(Clone, Copy, Debug, PartialEq, Eq, Structural)]
pub enum SearchError {
    /// The search would begin outside the signal.
    StartOutOfRange,
}

/// Whether the sample has reached the level, coming from below or from above.
pub open spec fn reached(data: Seq<u32>, target: u32, rising: bool, index: int) -> bool {
    if rising {
        ieee::le_single(target, data[index])
    } else {
        ieee::le_single(data[index], target)
    }
}

/// The first sample from `from` up to `to` that has reached the level.
pub open spec fn first_reached(
    data: Seq<u32>,
    target: u32,
    rising: bool,
    from: int,
    to: int,
) -> Option<int>
    decreases to - from,
{
    if from >= to {
        None
    } else if reached(data, target, rising, from) {
        Some(from)
    } else {
        first_reached(data, target, rising, from + 1, to)
    }
}

/// Where a search begins: never at the first sample.
pub open spec fn search_start(start_offset: int) -> int {
    if start_offset < 1 {
        1
    } else {
        start_offset
    }
}

/// The sample at which a crossing is judged to have begun already.
pub open spec fn edge_place(len: int, start_offset: int) -> Option<int> {
    if 0 <= start_offset < len {
        Some(start_offset)
    } else if start_offset < 0 && len + start_offset >= 0 {
        Some(len + start_offset)
    } else {
        None
    }
}

/// Whether the level is to be reached from below: as asked (1 for yes, 0 for
/// whichever way the signal must go, anything else for no).
pub open spec fn is_rising(data: Seq<u32>, target: u32, edge: int, start: int) -> bool {
    edge == 1 || (edge == 0 && ieee::lt_single(data[start], target))
}

/// The sample at which the signal has reached the level, if it does within
/// `count` samples and was not past it where the search begins.
pub open spec fn crossing_of(
    data: Seq<u32>,
    start_offset: int,
    target: u32,
    count: int,
    edge: int,
) -> Result<Option<int>, SearchError> {
    let start = search_start(start_offset);
    let rising = is_rising(data, target, edge, start);
    let falling = !rising && (edge == 0 || edge == -1);
    if start >= data.len() || edge_place(data.len() as int, start_offset) is None {
        Err(SearchError::StartOutOfRange)
    } else {
        let value = data[edge_place(data.len() as int, start_offset)->0];
        let end = if count + 1 <= 0 {
            start
        } else if start + count + 1 < data.len() {
            start + count + 1
        } else {
            data.len() as int
        };
        if (rising && ieee::lt_single(target, value)) || (falling && ieee::lt_single(value, target)) {
            Ok(None)
        } else {
            Ok(first_reached(data, target, rising, start, end))
        }
    }
}

/// Finds the sample at which the signal has reached a level.
#[verifier::loop_isolation(false)]
pub fn calczc_do(
    data: &[u32],
    start_offset: isize,
    target: u32,
    count: isize,
    edge: i64,
) -> (result: Result<Option<usize>, SearchError>)
    ensures
        match result {
            Ok(Some(place)) => crossing_of(
                data@,
                start_offset as int,
                target,
                count as int,
                edge as int,
            ) == Ok::<Option<int>, SearchError>(Some(place as int)) && 0 < place < data@.len(),
            Ok(None) => crossing_of(
                data@,
                start_offset as int,
                target,
                count as int,
                edge as int,
            ) == Ok::<Option<int>, SearchError>(None),
            Err(error) => crossing_of(
                data@,
                start_offset as int,
                target,
                count as int,
                edge as int,
            ) == Err::<Option<int>, SearchError>(error),
        },
{
    let start: usize = if start_offset < 1 {
        1
    } else {
        start_offset as usize
    };
    if start >= data.len() {
        return Err(SearchError::StartOutOfRange);
    }
    let rising: bool = edge == 1 || (edge == 0 && less_single(data[start], target));
    let falling: bool = !rising && (edge == 0 || edge == -1);
    let edge_index: usize = match resolve_signed_index(data.len(), start_offset) {
        Some(index) => index,
        None => return Err(SearchError::StartOutOfRange),
    };
    let value: u32 = data[edge_index];
    if (rising && less_single(target, value)) || (falling && less_single(value, target)) {
        return Ok(None);
    }
    let end: usize = if count < 0 {
        start
    } else if data.len() - start > count as usize {
        if data.len() - start - 1 > count as usize {
            start + count as usize + 1
        } else {
            data.len()
        }
    } else {
        data.len()
    };
    let mut at: usize = start;
    while at < end
        invariant
            0 < start <= at,
            end <= data@.len(),
            first_reached(data@, target, rising, start as int, end as int) == first_reached(
                data@,
                target,
                rising,
                at as int,
                end as int,
            ),
        decreases end - at,
    {
        let here: bool = if rising {
            at_most_single(target, data[at])
        } else {
            at_most_single(data[at], target)
        };
        if here {
            return Ok(Some(at));
        }
        at = at + 1;
    }
    Ok(None)
}

/// Whether the signal goes through the level between the sample before and the
/// sample at `index`.
pub open spec fn passes(data: Seq<u32>, target: u32, rising: bool, index: int) -> bool {
    if rising {
        ieee::lt_single(data[index - 1], target) && ieee::le_single(target, data[index])
    } else {
        ieee::lt_single(target, data[index - 1]) && ieee::le_single(data[index], target)
    }
}

/// The first sample from `from` up to `to` at which the signal goes through the
/// level.
pub open spec fn first_passing(
    data: Seq<u32>,
    target: u32,
    rising: bool,
    from: int,
    to: int,
) -> Option<int>
    decreases to - from,
{
    if from >= to {
        None
    } else if passes(data, target, rising, from) {
        Some(from)
    } else {
        first_passing(data, target, rising, from + 1, to)
    }
}

/// The sample within `count` samples at which a colour burst goes through zero,
/// in whichever direction it must.
#[verifier::loop_isolation(false)]
pub fn burst_crossing(data: &[u32], start: usize, count: usize) -> (place: Option<usize>)
    requires
        start < data@.len(),
    ensures
        ({
            let end = if start + count + 1 < data@.len() {
                start + count + 1
            } else {
                data@.len() as int
            };
            let rising = ieee::lt_single(data@[start as int], 0);
            match place {
                Some(place) => start < place < data@.len() && first_passing(
                    data@,
                    0,
                    rising,
                    start + 1,
                    end,
                ) == Some(place as int),
                None => first_passing(data@, 0, rising, start + 1, end) is None,
            }
        }),
{
    let rising: bool = less_single(data[start], 0);
    let end: usize = if data.len() - start > count {
        if data.len() - start - 1 > count {
            start + count + 1
        } else {
            data.len()
        }
    } else {
        data.len()
    };
    let mut at: usize = start + 1;
    while at < end
        invariant
            start < at,
            end <= data@.len(),
            first_passing(data@, 0, rising, start + 1, end as int) == first_passing(
                data@,
                0,
                rising,
                at as int,
                end as int,
            ),
        decreases end - at,
    {
        let here: bool = if rising {
            less_single(data[at - 1], 0) && at_most_single(0, data[at])
        } else {
            less_single(0, data[at - 1]) && at_most_single(data[at], 0)
        };
        if here {
            return Some(at);
        }
        at = at + 1;
    }
    None
}

/// Whether there are no samples, or one of them is below `min` or above `max`.
pub fn slice_empty_or_out_of_range(values: &[u32], min: u32, max: u32) -> (bad: bool)
    ensures
        bad == (values@.len() == 0 || exists|i: int|
            0 <= i < values@.len() && (ieee::lt_single(#[trigger] values@[i], min)
                || ieee::lt_single(max, values@[i]))),
{
    if values.len() == 0 {
        return true;
    }
    let mut index: usize = 0;
    while index < values.len()
        invariant
            index <= values@.len(),
            forall|i: int|
                0 <= i < index ==> !(ieee::lt_single(#[trigger] values@[i], min)
                    || ieee::lt_single(max, values@[i])),
        decreases values@.len() - index,
    {
        if less_single(values[index], min) || less_single(max, values[index]) {
            proof {
                assert(ieee::lt_single(values@[index as int], min) || ieee::lt_single(
                    max,
                    values@[index as int],
                ));
            }
            return true;
        }
        index = index + 1;
    }
    false
}

/// The pattern of the magnitude.
pub open spec fn magnitude(bits: u32) -> u32 {
    if bits < 0x8000_0000 {
        bits
    } else {
        (bits - 0x8000_0000) as u32
    }
}

/// What stands for no number.
pub const NOT_A_NUMBER: u32 = 0x7fc0_0000;

/// The greatest magnitude of the samples; no number where one of them is none.
pub fn nb_absmax(values: &[u32]) -> (greatest: u32)
    ensures
        if exists|i: int| 0 <= i < values@.len() && ieee::nan_single(#[trigger] values@[i]) {
            greatest == NOT_A_NUMBER
        } else {
            &&& forall|i: int|
                0 <= i < values@.len() ==> magnitude(#[trigger] values@[i]) <= greatest
            &&& greatest == 0 || exists|i: int|
                0 <= i < values@.len() && magnitude(#[trigger] values@[i]) == greatest
        },
{
    let mut greatest: u32 = 0;
    let mut index: usize = 0;
    while index < values.len()
        invariant
            index <= values@.len(),
            forall|i: int| 0 <= i < index ==> !ieee::nan_single(#[trigger] values@[i]),
            forall|i: int| 0 <= i < index ==> magnitude(#[trigger] values@[i]) <= greatest,
            greatest == 0 || exists|i: int|
                0 <= i < index && magnitude(#[trigger] values@[i]) == greatest,
        decreases values@.len() - index,
    {
        let bits: u32 = values[index];
        if is_nan_single(bits) {
            proof {
                assert(ieee::nan_single(values@[index as int]));
            }
            return NOT_A_NUMBER;
        }
        let size: u32 = if bits < 0x8000_0000 {
            bits
        } else {
            bits - 0x8000_0000
        };
        if size > greatest {
            greatest = size;
            proof {
                assert(magnitude(values@[index as int]) == greatest);
            }
        }
        index = index + 1;
    }
    greatest
}

/// Whether the sample of a burst is strong enough to search from.
pub open spec fn strong(area: Seq<u32>, threshold: u32, index: int) -> bool {
    ieee::lt_single(threshold, magnitude(area[index]))
}

/// Where a burst search stops: after at most 16 samples.
pub open spec fn burst_end(len: int, start: int) -> int {
    if start + 17 < len {
        start + 17
    } else {
        len
    }
}

/// From the first strong sample from `from` up to `end` on, the sample at which
/// a burst goes through zero, and whether it rises there.
pub fn burst_seek(area: &[u32], from: usize, end: usize, threshold: u32) -> (found: Option<
    (usize, bool),
>)
    requires
        end <= area@.len(),
    ensures
        match found {
            Some((place, rising)) => exists|start: int|
                from <= start < end && #[trigger] strong(area@, threshold, start) && (forall|i: int|
                    from <= i < start ==> !#[trigger] strong(area@, threshold, i)) && rising
                    == ieee::lt_single(area@[start], 0) && first_passing(
                    area@,
                    0,
                    rising,
                    start + 1,
                    burst_end(area@.len() as int, start),
                ) == Some(place as int) && start < place < area@.len(),
            None => (forall|i: int|
                from <= i < end ==> !#[trigger] strong(area@, threshold, i)) || exists|start: int|
                from <= start < end && #[trigger] strong(area@, threshold, start) && (forall|i: int|
                    from <= i < start ==> !#[trigger] strong(area@, threshold, i))
                    && first_passing(
                    area@,
                    0,
                    ieee::lt_single(area@[start], 0),
                    start + 1,
                    burst_end(area@.len() as int, start),
                ) is None,
        },
{
    let mut at: usize = from;
    while at < end
        invariant
            end <= area@.len(),
            from <= at,
            forall|i: int| from <= i < at ==> !#[trigger] strong(area@, threshold, i),
        decreases end - at,
    {
        let bits: u32 = area[at];
        let size: u32 = if bits < 0x8000_0000 {
            bits
        } else {
            bits - 0x8000_0000
        };
        if less_single(threshold, size) {
            proof {
                assert(strong(area@, threshold, at as int));
            }
            return match burst_crossing(area, at, 16) {
                Some(place) => Some((place, less_single(bits, 0))),
                None => None,
            };
        }
        at = at + 1;
    }
    None
}

/// How many of the first crossings rise in an even half cycle, or fall in an odd
/// one.
pub open spec fn rising_of(rising: Seq<bool>, cycles: Seq<i32>, count: nat) -> nat
    decreases count,
{
    if count == 0 {
        0
    } else {
        let before = rising_of(rising, cycles, (count - 1) as nat);
        if rising[count - 1] != (cycles[count - 1] % 2 != 0) {
            before + 1
        } else {
            before
        }
    }
}

/// How many of the crossings rise in an even half cycle, or fall in an odd one.
pub fn count_rising(rising: &[bool], cycles: &[i32]) -> (count: usize)
    requires
        rising@.len() == cycles@.len(),
    ensures
        count == rising_of(rising@, cycles@, rising@.len()),
        count <= rising@.len(),
{
    let mut count: usize = 0;
    let mut index: usize = 0;
    while index < rising.len()
        invariant
            count <= index <= rising@.len() == cycles@.len(),
            count == rising_of(rising@, cycles@, index as nat),
        decreases rising@.len() - index,
    {
        let odd: bool = cycles[index] % 2 != 0;
        proof {
            assert(odd == (cycles@[index as int] % 2 != 0));
        }
        if rising[index] != odd {
            count = count + 1;
        }
        index = index + 1;
    }
    count
}

/// Whether the bin is above both its neighbours.
pub open spec fn is_peak(power: Seq<u32>, index: int) -> bool {
    ieee::lt_single(power[index - 1], power[index]) && ieee::lt_single(
        power[index + 1],
        power[index],
    )
}

/// The double infinity.
pub const INFINITE: u64 = 0x7ff0_0000_0000_0000;

/// Of the peaks below `count` the one nearest to the carrier, with its
/// distance: the first of the nearest.
pub open spec fn best_peak(power: Seq<u32>, distances: Seq<u64>, count: int) -> (Option<int>, u64)
    decreases count,
{
    if count <= 1 {
        (None, INFINITE)
    } else {
        let (best, least) = best_peak(power, distances, count - 1);
        let index = count - 1;
        if is_peak(power, index) && ieee::lt_double(distances[index], least) {
            (Some(index), distances[index])
        } else {
            (best, least)
        }
    }
}

/// The inner bin with a local peak of power that is nearest to the carrier.
/// `distances` holds for each bin how far it lies from the carrier.
pub fn carrier_peak(power: &[u32], distances: &[u64]) -> (found: Option<usize>)
    requires
        power@.len() == distances@.len(),
    ensures
        match found {
            Some(index) => best_peak(power@, distances@, power@.len() - 1).0 == Some(index as int)
                && 0 < index < power@.len() - 1,
            None => best_peak(power@, distances@, power@.len() - 1).0 is None,
        },
{
    let mut best: Option<usize> = None;
    let mut least: u64 = INFINITE;
    if power.len() < 2 {
        return None;
    }
    let mut index: usize = 1;
    while index < power.len() - 1
        invariant
            1 <= index <= power@.len() - 1,
            power@.len() == distances@.len(),
            best_peak(power@, distances@, index as int).1 == least,
            match best {
                Some(found) => best_peak(power@, distances@, index as int).0 == Some(found as int)
                    && 0 < found < index,
                None => best_peak(power@, distances@, index as int).0 is None,
            },
        decreases power@.len() - index,
    {
        if less_single(power[index - 1], power[index]) && less_single(power[index + 1], power[index])
            && less_double(distances[index], least) {
            best = Some(index);
            least = distances[index];
        }
        index = index + 1;
    }
    best
}

/// What a search for the pulse of a line knows: where it looks, and the best
/// pulse so far with its distance.
pub struct MatchState {
    pub at: int,
    pub best: Option<int>,
    pub least: u32,
}

/// The search for the pulse of a line from `state` on: until the pulses get
/// further away again, or the last but one was looked at.
pub open spec fn match_from(distances: Seq<u32>, state: MatchState) -> Option<int>
    decreases distances.len() - state.at,
{
    if state.at >= distances.len() - 1 {
        state.best
    } else {
        let here = distances[state.at];
        let better = ieee::le_single(here, state.least);
        let best = if better {
            Some(state.at)
        } else {
            state.best
        };
        if ieee::lt_single(here, distances[state.at + 1]) {
            best
        } else {
            match_from(
                distances,
                MatchState {
                    at: state.at + 1,
                    best,
                    least: if better {
                        here
                    } else {
                        state.least
                    },
                },
            )
        }
    }
}

/// The pulse that a line takes: the best one, unless it has no place.
pub open spec fn taken_pulse(places: Seq<u32>, best: Option<int>) -> Option<int> {
    match best {
        Some(index) if places[index] != MINUS_ONE => Some(index),
        _ => None,
    }
}

/// Where the next line's search begins: after the pulse that was taken.
pub open spec fn next_search(places: Seq<u32>, next: int, best: Option<int>) -> int {
    match best {
        Some(index) => if places[index] != MINUS_ONE {
            index + 1
        } else {
            index
        },
        None => next,
    }
}

/// The best pulse for a line, from `next` on.
pub open spec fn best_pulse(distances: Seq<u32>, next: int, limit: u32) -> Option<int> {
    if next < distances.len() {
        match_from(distances, MatchState { at: next, best: None, least: limit })
    } else {
        None
    }
}

/// Follows a list of pulses while lines are matched to it.
pub struct LineMatcher {
    next: usize,
}

impl LineMatcher {
    /// The first pulse that the next line can have.
    pub closed spec fn at(self) -> nat {
        self.next as nat
    }

    pub fn new() -> (matcher: LineMatcher)
        ensures
            matcher.at() == 0,
    {
        LineMatcher { next: 0 }
    }

    /// The pulse of the next line, if it has one. `places` are those of the
    /// pulses, -1.0 for none; `distances` holds how far each pulse lies from
    /// where the line should begin, `limit` how far it may be.
    pub fn match_line(&mut self, places: &[u32], distances: &[u32], limit: u32) -> (found: Option<
        usize,
    >)
        requires
            places@.len() == distances@.len(),
        ensures
            ({
                let best = best_pulse(distances@, old(self).at() as int, limit);
                &&& match found {
                    Some(index) => taken_pulse(places@, best) == Some(index as int)
                        && old(self).at() <= index < places@.len(),
                    None => taken_pulse(places@, best) is None,
                }
                &&& final(self).at() == next_search(places@, old(self).at() as int, best)
            }),
    {
        let first: usize = self.next;
        if first >= distances.len() {
            return None;
        }
        let mut at: usize = first;
        let mut best: Option<usize> = None;
        let mut least: u32 = limit;
        let ghost expected = best_pulse(distances@, first as int, limit);
        let mut looking: bool = true;
        while looking && at < distances.len() - 1
            invariant
                first <= at < distances@.len(),
                match best {
                    Some(index) => first <= index <= at && index < distances@.len() - 1,
                    None => true,
                },
                looking ==> expected == match_from(
                    distances@,
                    MatchState {
                        at: at as int,
                        best: match best {
                            Some(index) => Some(index as int),
                            None => None,
                        },
                        least,
                    },
                ),
                !looking ==> expected == (match best {
                    Some(index) => Some(index as int),
                    None => None,
                }),
            decreases distances@.len() - at, looking as int,
        {
            let here: u32 = distances[at];
            if at_most_single(here, least) {
                least = here;
                best = Some(at);
            }
            if less_single(here, distances[at + 1]) {
                looking = false;
            } else {
                at = at + 1;
            }
        }
        match best {
            Some(index) => {
                if places[index] != MINUS_ONE {
                    self.next = index + 1;
                } else {
                    self.next = index;
                    best = None;
                }
            },
            None => {},
        }
        best
    }
}

/// Lines take different pulses, in their order.
pub proof fn law_lines_advance(places: Seq<u32>, distances: Seq<u32>, next: int, limit: u32)
    requires
        0 <= next,
        places.len() == distances.len(),
        taken_pulse(places, best_pulse(distances, next, limit)) is Some,
    ensures
        ({
            let best = best_pulse(distances, next, limit);
            next <= taken_pulse(places, best)->0 < next_search(places, next, best)
        }),
{
    lemma_match(distances, MatchState { at: next, best: None, least: limit });
}

proof fn lemma_match(distances: Seq<u32>, state: MatchState)
    ensures
        match match_from(distances, state) {
            Some(index) => state.best == Some(index) || state.at <= index,
            None => true,
        },
    decreases distances.len() - state.at,
{
    if state.at < distances.len() - 1 {
        let here = distances[state.at];
        let better = ieee::le_single(here, state.least);
        if !ieee::lt_single(here, distances[state.at + 1]) {
            lemma_match(
                distances,
                MatchState {
                    at: state.at + 1,
                    best: if better {
                        Some(state.at)
                    } else {
                        state.best
                    },
                    least: if better {
                        here
                    } else {
                        state.least
                    },
                },
            );
        }
    }
}

} // verus!
