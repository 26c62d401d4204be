//! Which samples and pulses a window, a pulse or a measurement takes, over the buffers.
use vstd::prelude::*;

use crate::arbitrage;
use crate::count_laws;
use crate::count_laws::picked;
use crate::levels;
use crate::pulses;
use crate::pulses::SampleRange;
use crate::search_laws::{is_number, place_of};
use crate::slices;
use crate::vits;

verus! {

/// A bound counts from the front, or from the end where negative, and falls into the
/// buffer.
pub proof fn law_slice_bound(len: nat, index: int)
    ensures
        0 <= slices::slice_bound(len, index) <= len,
        0 <= index <= len ==> slices::slice_bound(len, index) == index,
        -len <= index < 0 ==> len - slices::slice_bound(len, index) == -index,
        index > len ==> slices::slice_bound(len, index) == len,
        index < -len ==> slices::slice_bound(len, index) == 0,
{
}

/// The window of a pulse holds exactly the samples from its start up to its end that the
/// buffer has, in order, and there is none where it has none of them.
pub proof fn law_pulse_window<T>(data: Seq<T>, start: int, len: int)
    ensures
        match slices::pulse_window(data, start, len) {
            Some(window) => {
                let from = if start < 0 {
                    0
                } else {
                    start
                };
                &&& window.len() > 0
                &&& forall|p: int|
                    0 <= p < data.len() && start <= p < start + len ==> 0 <= p - from
                        < window.len() && #[trigger] data[p] == window[p - from]
                &&& forall|k: int|
                    0 <= k < window.len() ==> 0 <= from + k < data.len() && start <= from + k
                        < start + len && #[trigger] window[k] == data[from + k]
            },
            None => forall|p: int|
                #![trigger data[p]]
                0 <= p < data.len() ==> !(start <= p < start + len),
        },
{
}

/// The blanking level of a line is measured four samples inside its back porch at both
/// ends, a line further on in each line, and only where the field has all of it.
pub proof fn law_porch_window(
    line: int,
    outlinelen: int,
    backporch: (usize, usize),
    len: int,
)
    ensures
        match slices::porch_window(line, outlinelen, backporch, len) {
            Some((start, end)) => {
                &&& start - 4 == line * outlinelen + backporch.0
                &&& end + 4 == line * outlinelen + backporch.1
                &&& start < end <= len
            },
            None => backporch.1 - backporch.0 <= 8 || line * outlinelen + backporch.1 - 4 > len,
        },
{
}

/// That the samples from `start` up to `end` are at or below a level and those at both
/// ends above it.
pub open spec fn dips(signal: Seq<u32>, level: u32, start: int, end: int) -> bool {
    &&& 0 < start < end < signal.len()
    &&& place_of(signal[start - 1]) > place_of(level)
    &&& place_of(signal[end]) > place_of(level)
    &&& forall|k: int| start <= k < end ==> place_of(#[trigger] signal[k]) <= place_of(level)
}

/// That lists hold the starts and lengths of all such stretches with a length in the
/// range, in order.
pub open spec fn lists_dips(
    signal: Seq<u32>,
    level: u32,
    lengths_ok: SampleRange,
    starts: Seq<i64>,
    lengths: Seq<i64>,
) -> bool {
    &&& starts.len() == lengths.len()
    &&& forall|i: int|
        0 <= i < starts.len() ==> dips(
            signal,
            level,
            (#[trigger] starts[i]) as int,
            starts[i] + lengths[i],
        ) && lengths_ok.min <= lengths[i] <= lengths_ok.max
    &&& forall|i: int, j: int|
        0 <= i < j < starts.len() ==> (#[trigger] starts[i]) < (#[trigger] starts[j])
    &&& forall|start: int, end: int|
        #[trigger] dips(signal, level, start, end) && lengths_ok.min <= end - start
            <= lengths_ok.max ==> exists|i: int|
            0 <= i < starts.len() && #[trigger] starts[i] == start && lengths[i] == end - start
}

/// In a signal of numbers the pulses are exactly the stretches at or below the level,
/// between samples above it, whose length is in the range: one at the level still counts
/// as low. They are found in order, none twice.
pub proof fn law_pulses_dip(signal: Seq<u32>, level: u32, lengths_ok: SampleRange)
    requires
        0 < signal.len() <= i64::MAX,
        is_number(level),
        forall|k: int| 0 <= k < signal.len() ==> is_number(#[trigger] signal[k]),
    ensures
        lists_dips(
            signal,
            level,
            lengths_ok,
            pulses::pulse_starts(signal, level, lengths_ok),
            pulses::pulse_lengths(signal, level, lengths_ok),
        ),
{
    let starts = pulses::pulse_starts(signal, level, lengths_ok);
    let lengths = pulses::pulse_lengths(signal, level, lengths_ok);
    pulses::law_pulses(signal, level, lengths_ok);
    assert forall|i: int| 0 <= i < starts.len() implies dips(
        signal,
        level,
        (#[trigger] starts[i]) as int,
        starts[i] + lengths[i],
    ) && lengths_ok.min <= lengths[i] <= lengths_ok.max by {
        lemma_dips(signal, level, starts[i] as int, starts[i] + lengths[i]);
        assert(lengths_ok.has(lengths[i] as int));
    }
    assert forall|start: int, end: int|
        #[trigger] dips(signal, level, start, end) && lengths_ok.min <= end - start
            <= lengths_ok.max implies exists|i: int|
        0 <= i < starts.len() && #[trigger] starts[i] == start && lengths[i] == end - start by {
        lemma_dips(signal, level, start, end);
        assert(pulses::is_pulse(signal, level, start, end));
        assert(lengths_ok.has(end - start));
    }
}

proof fn lemma_dips(signal: Seq<u32>, level: u32, start: int, end: int)
    requires
        is_number(level),
        forall|k: int| 0 <= k < signal.len() ==> is_number(#[trigger] signal[k]),
    ensures
        dips(signal, level, start, end) <==> pulses::is_pulse(signal, level, start, end),
{
    if 0 < start < end < signal.len() {
        assert(is_number(signal[start - 1]));
        assert(is_number(signal[start]));
        assert(is_number(signal[end]));
        assert(pulses::inside(signal, level, start - 1) == pulses::low(signal, level, start - 1));
        assert forall|k: int| start <= k < end implies pulses::high(signal, level, k) == (place_of(
            #[trigger] signal[k],
        ) > place_of(level)) by {
            assert(is_number(signal[k]));
        }
        if pulses::is_pulse(signal, level, start, end) {
            assert forall|k: int| start <= k < end implies place_of(#[trigger] signal[k])
                <= place_of(level) by {
                assert(!pulses::high(signal, level, k));
            }
        }
        if dips(signal, level, start, end) {
            assert forall|k: int| start <= k < end implies !pulses::high(signal, level, k) by {
                assert(place_of(signal[k]) <= place_of(level));
            }
        }
    }
}

/// A thinned-out signal has every `divisor`-th sample from the first on, and no fewer
/// than the signal has.
pub proof fn law_decimated(signal: Seq<u32>, divisor: int)
    requires
        0 < divisor,
    ensures
        ({
            let thin = pulses::decimated(signal, divisor);
            &&& forall|i: int| 0 <= i < thin.len() ==> #[trigger] thin[i] == signal[i * divisor]
            &&& thin.len() * divisor >= signal.len()
            &&& signal.len() > 0 ==> (thin.len() - 1) * divisor < signal.len()
            &&& divisor == 1 ==> thin == signal
        }),
{
    let n = signal.len() as int;
    let count = (n + divisor - 1) / divisor;
    vstd::arithmetic::div_mod::lemma_fundamental_div_mod(n + divisor - 1, divisor);
    let rest = (n + divisor - 1) % divisor;
    assert(count * divisor == n + divisor - 1 - rest) by (nonlinear_arith)
        requires
            n + divisor - 1 == divisor * count + rest,
    ;
    assert((count - 1) * divisor == count * divisor - divisor) by (nonlinear_arith);
    assert(count >= 0) by (nonlinear_arith)
        requires
            count * divisor >= n,
            n >= 0,
            divisor > 0,
    ;
    if divisor == 1 {
        assert(pulses::decimated(signal, divisor) =~= signal);
    }
}

/// Pulled levels are the last ones, in order, as many as are averaged or all.
pub proof fn law_last_values<T>(values: Seq<T>, window: int)
    requires
        0 <= window,
    ensures
        ({
            let last = levels::last_values(values, window);
            &&& last.len() == if values.len() < window {
                values.len() as int
            } else {
                window
            }
            &&& forall|k: int|
                0 <= k < last.len() ==> #[trigger] last[k] == values[values.len() - last.len() + k]
        }),
{
}

/// The straight parts of an envelope behind the first are as long as a block, but for
/// what the end of the signal cuts off, and the first begins half a block in.
pub proof fn law_envelope_parts(n: int, decimation: int, block: int)
    requires
        decimation > 1,
        block > 0,
        levels::segment_end(n, decimation, block) < n,
        (decimation - 1) / 2 + 1 < n,
    ensures
        levels::segment_end(n, decimation, block) - levels::segment_start(n, decimation, block)
            == decimation,
        levels::segment_start(n, decimation, 0) == (decimation + 1) / 2,
{
    assert(2 * (block + 1) * decimation == 2 * block * decimation + 2 * decimation)
        by (nonlinear_arith);
    assert(2 * (block - 1 + 1) * decimation == 2 * block * decimation) by (nonlinear_arith);
    assert(2 * block * decimation >= 0) by (nonlinear_arith)
        requires
            block >= 0,
            decimation > 1,
    ;
    let x = 2 * block * decimation;
    assert((x + 2 * decimation + decimation - 2) / 2 == (x + decimation - 2) / 2 + decimation);
}

/// The stretch of pulses before one that lie less than 600 samples apart goes as far back
/// as they do, and no further than the second pulse.
pub proof fn law_close_before(starts: Seq<i64>, at: int)
    requires
        1 <= at < starts.len(),
    ensures
        ({
            let first = levels::close_before(starts, at);
            &&& 1 <= first <= at
            &&& forall|i: int|
                first < i <= at ==> (#[trigger] starts[i]) - starts[i - 1] < 600
            &&& first > 1 ==> starts[first] - starts[first - 1] >= 600
        }),
    decreases at,
{
    if at > 1 && starts[at] - starts[at - 1] < 600 {
        law_close_before(starts, at - 1);
    }
}

/// Among pulses in order, the stretch behind one goes to the last pulse.
pub proof fn law_close_after(starts: Seq<i64>, at: int)
    requires
        at < starts.len(),
        forall|i: int, j: int|
            at <= i < j < starts.len() ==> (#[trigger] starts[i]) <= (#[trigger] starts[j]),
    ensures
        levels::close_after(starts, at) == starts.len() - 1,
    decreases starts.len() - at,
{
    if at < starts.len() - 1 {
        assert(starts[at] <= starts[at + 1]);
        law_close_after(starts, at + 1);
    }
}

/// The signal is black behind the pulses with a length in the range among the five before
/// the blanking interval and those behind it; none is taken before the second pulse. An
/// interval without all of its vertical syncs reaches back over the pulses that lie close
/// before it and, among pulses in order, to the last pulse, so that only those before it
/// are left.
pub proof fn law_black_pulses(
    starts: Seq<i64>,
    lengths: Seq<i64>,
    range: SampleRange,
    first: int,
    last: int,
    whole: bool,
)
    requires
        0 <= first <= last < starts.len() <= usize::MAX - 6,
        forall|i: int, j: int|
            last <= i < j < starts.len() ==> (#[trigger] starts[i]) <= (#[trigger] starts[j]),
    ensures
        ({
            let found = levels::black_pulses(starts, lengths, range, first, last, whole);
            let fits = |i: int| range.min <= lengths[i] <= range.max;
            let before = if whole {
                first
            } else {
                levels::close_before(starts, first)
            };
            let left = if before <= 1 {
                Seq::<int>::empty()
            } else {
                picked(
                    fits,
                    if before < 6 {
                        1
                    } else {
                        before - 5
                    },
                    before,
                )
            };
            let right = if !whole || last + 2 >= starts.len() {
                Seq::<int>::empty()
            } else {
                picked(
                    fits,
                    last + 1,
                    if last + 6 < starts.len() {
                        starts.len() - 1
                    } else {
                        starts.len() as int
                    },
                )
            };
            &&& found.len() == left.len() + right.len()
            &&& forall|k: int| 0 <= k < left.len() ==> #[trigger] found[k] == left[k]
            &&& forall|k: int|
                left.len() <= k < found.len() ==> #[trigger] found[k] == right[k - left.len()]
        }),
{
    let before = if whole {
        first
    } else {
        levels::close_before(starts, first)
    };
    lemma_close_before(starts, first);
    law_close_after(starts, last);
    let from = if before - 5 > 1 {
        before - 5
    } else {
        1
    };
    count_laws::law_pulses_between(lengths, range, from, before);
    let end = starts.len() - 1;
    let to = if last + 6 > end {
        end + 1
    } else {
        end
    };
    count_laws::law_pulses_between(lengths, range, last + 1, to);
}

proof fn lemma_close_before(starts: Seq<i64>, at: int)
    ensures
        levels::close_before(starts, at) <= at,
    decreases at,
{
    if at > 1 && starts[at] - starts[at - 1] < levels::PULSE_SPACING {
        lemma_close_before(starts, at - 1);
    }
}

/// Where vertical syncs are searched for. With a single minimum that is at the minimum
/// and a vertical sync further on, if the signal has it, or else as far before, or at the
/// beginning; with none it is nowhere. With more, every serration counts as often as
/// there are minima from it up to the next one, where a vertical sync fits beside it.
pub proof fn law_arbitrated(
    vsynclen: i64,
    minima: Seq<i64>,
    serrations: Seq<i64>,
    datalen: i64,
)
    requires
        arbitrage::sums_fit(vsynclen, minima, datalen),
    ensures
        ({
            let places = arbitrage::arbitrated(vsynclen, minima, serrations, datalen);
            &&& minima.len() == 0 ==> places.len() == 0
            &&& minima.len() == 1 ==> {
                &&& places.len() == 2
                &&& places[0] == minima[0]
                &&& minima[0] + vsynclen < datalen - 1 ==> places[1] == minima[0] + vsynclen
                &&& minima[0] + vsynclen >= datalen - 1 && minima[0] > vsynclen ==> places[1]
                    == minima[0] - vsynclen
                &&& minima[0] + vsynclen >= datalen - 1 && minima[0] <= vsynclen ==> places[1] == 0
            }
            &&& minima.len() > 1 ==> places == arbitrage::supported(
                vsynclen,
                minima,
                serrations,
                datalen,
                serrations.len(),
            )
        }),
{
}

/// A serration more among those that count adds itself, once for each minimum from it up
/// to the next serration, or from it on where it is the last: none where no vertical sync
/// fits on either side of it.
pub proof fn law_supported_times(
    vsynclen: i64,
    minima: Seq<i64>,
    serrations: Seq<i64>,
    datalen: i64,
    count: nat,
)
    requires
        count < serrations.len(),
    ensures
        ({
            let before = arbitrage::supported(vsynclen, minima, serrations, datalen, count);
            let after = arbitrage::supported(vsynclen, minima, serrations, datalen, count + 1);
            let edge = serrations[count as int];
            let next = if count + 1 == serrations.len() {
                edge
            } else {
                serrations[count as int + 1]
            };
            let times = picked(|i: int| edge <= minima[i] <= next, 0, minima.len() as int).len();
            &&& after.len() == before.len() + if edge < vsynclen && edge + vsynclen >= datalen {
                0
            } else {
                times as int
            }
            &&& forall|k: int| 0 <= k < before.len() ==> #[trigger] after[k] == before[k]
            &&& forall|k: int| before.len() <= k < after.len() ==> #[trigger] after[k] == edge
        }),
{
    let edge = serrations[count as int];
    let next = arbitrage::next_serration(serrations, count as int);
    count_laws::law_count_in(minima, edge, next);
}

/// How far a sample is above the zero level is counted in 16 bits: adding the level again
/// gives the sample back, whichever is the greater.
pub proof fn law_above_zero(value: u16, zero: u16)
    ensures
        (vits::above_zero(value, zero) + zero) % 0x1_0000 == value,
{
}

/// A level is white from 90 to 110.
pub proof fn law_white(level: u64)
    ensures
        vits::is_white(level) <==> 0x4056_8000_0000_0000 <= level <= 0x405b_8000_0000_0000,
{
}

} // verus!
