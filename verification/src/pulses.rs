//! Pulses below a level in a signal of single-precision bit patterns.
use vstd::prelude::*;

use crate::ieee;
use crate::ieee::{at_most_single, less_single};

verus! {

/// A number of samples, both ends included.
#[derive(Clone, Copy, Debug, PartialEq, Eq, Structural)]
pub struct SampleRange {
    pub min: i64,
    pub max: i64,
}

impl SampleRange {
    pub open spec fn has(self, value: int) -> bool {
        self.min <= value <= self.max
    }

    /// Whether the value is in the range.
    pub fn contains(self, value: i64) -> (inside: bool)
        ensures
            inside == self.has(value as int),
    {
        self.min <= value && value <= self.max
    }
}

/// Whether the sample is at or below the level.
pub open spec fn low(signal: Seq<u32>, level: u32, index: int) -> bool {
    ieee::le_single(signal[index], level)
}

/// Whether the sample is above the level.
pub open spec fn high(signal: Seq<u32>, level: u32, index: int) -> bool {
    ieee::lt_single(level, signal[index])
}

/// Whether the signal is low at `index`: the last sample up to there that is
/// low or high is low.
pub open spec fn inside(signal: Seq<u32>, level: u32, index: int) -> bool
    decreases index + 1,
{
    if index < 0 {
        false
    } else if low(signal, level, index) {
        true
    } else if high(signal, level, index) {
        false
    } else {
        inside(signal, level, index - 1)
    }
}

/// Whether the signal first goes low at `start`, after being not low, and first
/// goes high again at `end`.
pub open spec fn is_pulse(signal: Seq<u32>, level: u32, start: int, end: int) -> bool {
    &&& 0 < start < end < signal.len()
    &&& low(signal, level, start)
    &&& !inside(signal, level, start - 1)
    &&& high(signal, level, end)
    &&& forall|k: int| start <= k < end ==> !high(signal, level, k)
}

/// That the lists hold exactly the pulses of the signal that end before `stop`
/// and have a length in the range, in order.
pub open spec fn lists_pulses(
    signal: Seq<u32>,
    level: u32,
    lengths_ok: SampleRange,
    stop: int,
    starts: Seq<i64>,
    lengths: Seq<i64>,
) -> bool {
    &&& starts.len() == lengths.len()
    &&& forall|i: int|
        0 <= i < starts.len() ==> {
            &&& is_pulse(signal, level, (#[trigger] starts[i]) as int, starts[i] + lengths[i])
            &&& lengths_ok.has(lengths[i] as int)
            &&& starts[i] + lengths[i] < stop
        }
    &&& forall|i: int, j: int|
        0 <= i < j < starts.len() ==> (#[trigger] starts[i]) < (#[trigger] starts[j])
    &&& forall|start: int, end: int|
        #[trigger] is_pulse(signal, level, start, end) && end < stop && lengths_ok.has(end - start)
            ==> exists|i: int| 0 <= i < starts.len() && #[trigger] starts[i] == start && lengths[i]
            == end - start
}

/// What a walk through the first samples of a signal has found.
pub struct Scan {
    pub in_pulse: bool,
    pub start: int,
    pub starts: Seq<i64>,
    pub lengths: Seq<i64>,
}

/// The walk through the first `count` samples.
pub open spec fn scan(signal: Seq<u32>, level: u32, lengths_ok: SampleRange, count: nat) -> Scan
    decreases count,
{
    if count == 0 {
        Scan {
            in_pulse: low(signal, level, 0),
            start: 0,
            starts: Seq::empty(),
            lengths: Seq::empty(),
        }
    } else {
        let before = scan(signal, level, lengths_ok, (count - 1) as nat);
        let at = count - 1;
        if !leaves(signal, level, before.in_pulse, at) {
            before
        } else if !before.in_pulse {
            Scan { in_pulse: true, start: at, ..before }
        } else if before.start != 0 && lengths_ok.has(at - before.start) {
            Scan {
                in_pulse: false,
                start: before.start,
                starts: before.starts.push(before.start as i64),
                lengths: before.lengths.push((at - before.start) as i64),
            }
        } else {
            Scan { in_pulse: false, ..before }
        }
    }
}

/// The starts of the pulses of a signal.
pub open spec fn pulse_starts(signal: Seq<u32>, level: u32, lengths_ok: SampleRange) -> Seq<i64> {
    scan(signal, level, lengths_ok, signal.len()).starts
}

/// The lengths of the pulses of a signal.
pub open spec fn pulse_lengths(signal: Seq<u32>, level: u32, lengths_ok: SampleRange) -> Seq<i64> {
    scan(signal, level, lengths_ok, signal.len()).lengths
}

proof fn lemma_inside(signal: Seq<u32>, level: u32, from: int, to: int)
    requires
        0 <= from <= to,
        low(signal, level, from),
        forall|k: int| from < k <= to ==> !high(signal, level, k),
    ensures
        inside(signal, level, to),
    decreases to - from,
{
    if from < to {
        lemma_inside(signal, level, from, to - 1);
    }
}

/// Whether the sample leaves the state: high in a pulse, low outside of one.
pub open spec fn leaves(signal: Seq<u32>, level: u32, in_pulse: bool, index: int) -> bool {
    if in_pulse {
        high(signal, level, index)
    } else {
        low(signal, level, index)
    }
}

/// Whether a sample in the chunk is above the level, or at or below it.
pub fn chunk_crosses(chunk: &[u32], level: u32, above: bool) -> (crosses: bool)
    ensures
        crosses == exists|i: int|
            0 <= i < chunk@.len() && #[trigger] leaves(chunk@, level, above, i),
{
    let mut crosses = false;
    let mut index: usize = 0;
    while index < chunk.len()
        invariant
            index <= chunk@.len(),
            crosses == exists|i: int|
                0 <= i < index && #[trigger] leaves(chunk@, level, above, i),
        decreases chunk@.len() - index,
    {
        let here: bool = if above {
            less_single(level, chunk[index])
        } else {
            at_most_single(chunk[index], level)
        };
        crosses = crosses || here;
        proof {
            assert(here == leaves(chunk@, level, above, index as int));
        }
        index = index + 1;
    }
    crosses
}

/// What a walk through the signal knows before sample `at`.
spec fn walked(
    signal: Seq<u32>,
    level: u32,
    at: int,
    in_pulse: bool,
    start: int,
) -> bool {
    &&& 0 <= at <= signal.len()
    &&& if at == 0 {
        in_pulse == low(signal, level, 0) && start == 0
    } else {
        &&& in_pulse == inside(signal, level, at - 1)
        &&& in_pulse ==> {
            &&& 0 <= start < at
            &&& low(signal, level, start)
            &&& !inside(signal, level, start - 1)
            &&& forall|k: int| start <= k < at ==> !high(signal, level, k)
        }
    }
}

proof fn lemma_no_end(
    signal: Seq<u32>,
    level: u32,
    at: int,
    in_pulse: bool,
    start: int,
    lengths_ok: SampleRange,
    starts: Seq<i64>,
    lengths: Seq<i64>,
)
    requires
        walked(signal, level, at, in_pulse, start),
        at < signal.len(),
        !in_pulse || !high(signal, level, at),
        lists_pulses(signal, level, lengths_ok, at, starts, lengths),
    ensures
        lists_pulses(signal, level, lengths_ok, at + 1, starts, lengths),
{
    assert forall|a: int, b: int| #[trigger] is_pulse(signal, level, a, b) && b < at + 1
        && lengths_ok.has(b - a) implies exists|i: int|
        0 <= i < starts.len() && #[trigger] starts[i] == a && lengths[i] == b - a by {
        if b == at {
            lemma_inside(signal, level, a, b - 1);
        }
    }
}

proof fn lemma_end(
    signal: Seq<u32>,
    level: u32,
    at: int,
    start: int,
    lengths_ok: SampleRange,
    starts: Seq<i64>,
    lengths: Seq<i64>,
)
    requires
        walked(signal, level, at, true, start),
        0 < at < signal.len() <= i64::MAX,
        high(signal, level, at),
        lists_pulses(signal, level, lengths_ok, at, starts, lengths),
    ensures
        ({
            let kept = start != 0 && lengths_ok.has(at - start);
            let longer_starts = if kept {
                starts.push(start as i64)
            } else {
                starts
            };
            let longer_lengths = if kept {
                lengths.push((at - start) as i64)
            } else {
                lengths
            };
            lists_pulses(signal, level, lengths_ok, at + 1, longer_starts, longer_lengths)
        }),
{
    let kept = start != 0 && lengths_ok.has(at - start);
    let longer_starts = if kept {
        starts.push(start as i64)
    } else {
        starts
    };
    let longer_lengths = if kept {
        lengths.push((at - start) as i64)
    } else {
        lengths
    };
    assert forall|i: int, j: int| 0 <= i < j < longer_starts.len() implies (
    #[trigger] longer_starts[i]) < (#[trigger] longer_starts[j]) by {
        if j == starts.len() {
            let a = starts[i] as int;
            let b = a + lengths[i];
            if a >= start {
                assert(high(signal, level, b));
            }
        }
    }
    assert forall|a: int, b: int| #[trigger] is_pulse(signal, level, a, b) && b < at + 1
        && lengths_ok.has(b - a) implies exists|i: int|
        0 <= i < longer_starts.len() && #[trigger] longer_starts[i] == a && longer_lengths[i] == b
            - a by {
        if b == at {
            if start < a {
                lemma_inside(signal, level, start, a - 1);
            }
            if a < start {
                lemma_inside(signal, level, a, start - 1);
            }
            assert(longer_starts[starts.len() as int] == a);
        } else {
            let i = choose|i: int|
                0 <= i < starts.len() && #[trigger] starts[i] == a && lengths[i] == b - a;
            assert(longer_starts[i] == a);
        }
    }
}

proof fn lemma_scan(signal: Seq<u32>, level: u32, lengths_ok: SampleRange, count: nat)
    requires
        count <= signal.len() <= i64::MAX,
        0 < signal.len(),
    ensures
        ({
            let s = scan(signal, level, lengths_ok, count);
            &&& walked(signal, level, count as int, s.in_pulse, s.start)
            &&& lists_pulses(signal, level, lengths_ok, count as int, s.starts, s.lengths)
        }),
    decreases count,
{
    if count > 0 {
        let before = scan(signal, level, lengths_ok, (count - 1) as nat);
        let after = scan(signal, level, lengths_ok, count);
        let at = count - 1;
        lemma_scan(signal, level, lengths_ok, (count - 1) as nat);
        reveal_with_fuel(inside, 2);
        if before.in_pulse && high(signal, level, at) {
            lemma_end(
                signal,
                level,
                at,
                before.start,
                lengths_ok,
                before.starts,
                before.lengths,
            );
        } else {
            lemma_no_end(
                signal,
                level,
                at,
                before.in_pulse,
                before.start,
                lengths_ok,
                before.starts,
                before.lengths,
            );
        }
        assert(walked(signal, level, count as int, after.in_pulse, after.start));
    }
}

/// A walk finds exactly the pulses of a signal that have a length in the
/// range, in order. A pulse that the signal opens with, or ends in, is none.
pub proof fn law_pulses(signal: Seq<u32>, level: u32, lengths_ok: SampleRange)
    requires
        0 < signal.len() <= i64::MAX,
    ensures
        lists_pulses(
            signal,
            level,
            lengths_ok,
            signal.len() as int,
            pulse_starts(signal, level, lengths_ok),
            pulse_lengths(signal, level, lengths_ok),
        ),
{
    lemma_scan(signal, level, lengths_ok, signal.len());
}

/// Samples that leave the state alone change nothing.
proof fn lemma_skip(
    signal: Seq<u32>,
    level: u32,
    lengths_ok: SampleRange,
    at: nat,
    end: nat,
)
    requires
        at <= end,
        forall|k: int|
            at <= k < end ==> !#[trigger] leaves(
                signal,
                level,
                scan(signal, level, lengths_ok, at).in_pulse,
                k,
            ),
    ensures
        scan(signal, level, lengths_ok, end) == scan(signal, level, lengths_ok, at),
    decreases end - at,
{
    if at < end {
        lemma_skip(signal, level, lengths_ok, at, (end - 1) as nat);
    }
}

/// The starts and lengths of the pulses at or below `level` whose length is in
/// the range. A pulse that the signal opens with, or ends in, is not counted.
pub fn findpulses_raw(sync_ref: &[u32], level: u32, lengths_ok: SampleRange) -> (pulses: (
    Vec<i64>,
    Vec<i64>,
))
    requires
        0 < sync_ref@.len() <= i64::MAX,
    ensures
        pulses.0@ == pulse_starts(sync_ref@, level, lengths_ok),
        pulses.1@ == pulse_lengths(sync_ref@, level, lengths_ok),
        lists_pulses(
            sync_ref@,
            level,
            lengths_ok,
            sync_ref@.len() as int,
            pulses.0@,
            pulses.1@,
        ),
{
    let total: usize = sync_ref.len();
    let ghost signal = sync_ref@;
    let mut in_pulse: bool = at_most_single(sync_ref[0], level);
    let mut starts: Vec<i64> = Vec::new();
    let mut lengths: Vec<i64> = Vec::new();
    let mut start: usize = 0;
    let mut at: usize = 0;
    while at < total
        invariant
            total == sync_ref@.len(),
            signal == sync_ref@,
            0 < total <= i64::MAX,
            at <= total,
            start <= at,
            scan(signal, level, lengths_ok, at as nat) == (Scan {
                in_pulse,
                start: start as int,
                starts: starts@,
                lengths: lengths@,
            }),
        decreases total - at,
    {
        // The signal crosses the level rarely: a chunk without a crossing out
        // of the current state is skipped whole.
        let end: usize = if total - at > 64 {
            at + 64
        } else {
            total
        };
        let chunk = vstd::slice::slice_subrange(sync_ref, at, end);
        if chunk_crosses(chunk, level, in_pulse) {
            while at < end
                invariant
                    at <= end <= total == sync_ref@.len(),
                    signal == sync_ref@,
                    0 < total <= i64::MAX,
                    start <= at,
                    scan(signal, level, lengths_ok, at as nat) == (Scan {
                        in_pulse,
                        start: start as int,
                        starts: starts@,
                        lengths: lengths@,
                    }),
                decreases end - at,
            {
                let value: u32 = sync_ref[at];
                let ghost before = scan(signal, level, lengths_ok, at as nat);
                if in_pulse {
                    if less_single(level, value) {
                        let length: usize = at - start;
                        if lengths_ok.contains(length as i64) && start != 0 {
                            starts.push(start as i64);
                            lengths.push(length as i64);
                        }
                        in_pulse = false;
                    }
                } else if at_most_single(value, level) {
                    start = at;
                    in_pulse = true;
                }
                at = at + 1;
                proof {
                    let after = scan(signal, level, lengths_ok, at as nat);
                    assert(after.in_pulse == in_pulse);
                    assert(after.start == start);
                    assert(after.starts =~= starts@);
                    assert(after.lengths =~= lengths@);
                }
            }
        } else {
            proof {
                assert forall|k: int| at <= k < end implies !#[trigger] leaves(
                    signal,
                    level,
                    in_pulse,
                    k,
                ) by {
                    assert(chunk@[k - at] == signal[k]);
                    assert(!leaves(chunk@, level, in_pulse, k - at));
                }
                lemma_skip(signal, level, lengths_ok, at as nat, end as nat);
            }
            at = end;
        }
    }
    proof {
        law_pulses(signal, level, lengths_ok);
    }
    (starts, lengths)
}

/// Every `divisor`-th sample of a signal, the first one among them.
pub open spec fn decimated(signal: Seq<u32>, divisor: int) -> Seq<u32> {
    Seq::new(((signal.len() + divisor - 1) / divisor) as nat, |i: int| signal[i * divisor])
}

/// Every `divisor`-th sample of a signal.
pub fn decimate(signal: &[u32], divisor: usize) -> (result: Vec<u32>)
    requires
        0 < divisor,
        signal@.len() + divisor <= usize::MAX,
    ensures
        result@ == decimated(signal@, divisor as int),
{
    let mut result: Vec<u32> = Vec::new();
    let mut at: usize = 0;
    proof {
        assert(0 * divisor == 0) by (nonlinear_arith);
    }
    while at < signal.len()
        invariant
            0 < divisor,
            signal@.len() + divisor <= usize::MAX,
            at == result@.len() * divisor,
            at < signal@.len() + divisor,
            forall|i: int| 0 <= i < result@.len() ==> #[trigger] result@[i] == signal@[i * divisor],
            forall|i: int|
                0 <= i < result@.len() ==> 0 <= #[trigger] (i * divisor) < signal@.len(),
        decreases signal@.len() + divisor - at,
    {
        let ghost count = result@.len() as int;
        result.push(signal[at]);
        proof {
            assert(result@[count] == signal@[count * divisor]);
            assert((count + 1) * divisor == count * divisor + divisor) by (nonlinear_arith);
        }
        at = at + divisor;
    }
    proof {
        let count = result@.len() as int;
        let total = signal@.len() as int;
        let d = divisor as int;
        assert((total + d - 1) / d == count) by (nonlinear_arith)
            requires
                d > 0,
                total <= count * d < total + d,
        ;
        assert(result@ =~= decimated(signal@, d));
    }
    result
}

/// The pulses of a decimated signal, in samples of the whole one.
pub fn findpulses_arr_reduced(
    sync_ref: &[u32],
    level: u32,
    divisor: usize,
    lengths_ok: SampleRange,
) -> (pulses: (Vec<i64>, Vec<i64>))
    requires
        0 < divisor,
        0 < sync_ref@.len(),
        sync_ref@.len() + divisor <= i64::MAX,
        sync_ref@.len() + divisor <= usize::MAX,
    ensures
        pulses.0@ == scaled(
            pulse_starts(decimated(sync_ref@, divisor as int), level, lengths_ok),
            divisor as int,
        ),
        pulses.1@ == scaled(
            pulse_lengths(decimated(sync_ref@, divisor as int), level, lengths_ok),
            divisor as int,
        ),
{
    let reduced: Vec<u32> = decimate(sync_ref, divisor);
    let ghost total = sync_ref@.len() as int;
    let ghost d = divisor as int;
    proof {
        let n = reduced@.len() as int;
        assert(n == (total + d - 1) / d);
        assert(0 < n && (n - 1) * d < total) by (nonlinear_arith)
            requires
                n == (total + d - 1) / d,
                d > 0,
                total > 0,
        ;
        assert(n <= total) by (nonlinear_arith)
            requires
                n == (total + d - 1) / d,
                d > 0,
                total > 0,
        ;
    }
    let (starts, lengths) = findpulses_raw(reduced.as_slice(), level, lengths_ok);
    proof {
        let n = reduced@.len() as int;
        assert forall|i: int| 0 <= i < starts@.len() implies {
            &&& 0 <= #[trigger] starts@[i] * d <= i64::MAX
            &&& 0 <= lengths@[i] * d <= i64::MAX
        } by {
            let a = starts@[i] as int;
            let b = lengths@[i] as int;
            assert(is_pulse(reduced@, level, a, a + b));
            assert(0 <= a * d <= (n - 1) * d && 0 <= b * d <= (n - 1) * d) by (nonlinear_arith)
                requires
                    0 <= a <= n - 1,
                    0 <= b <= n - 1,
                    d > 0,
            ;
            assert((n - 1) * d < total) by (nonlinear_arith)
                requires
                    n == (total + d - 1) / d,
                    d > 0,
                    total > 0,
            ;
        }
    }
    let wide_starts = scale(&starts, divisor as i64);
    proof {
        assert forall|i: int| 0 <= i < lengths@.len() implies 0 <= #[trigger] lengths@[i] * d
            <= i64::MAX by {
            assert(0 <= starts@[i] * d);
        }
    }
    let wide_lengths = scale(&lengths, divisor as i64);
    (wide_starts, wide_lengths)
}

/// The values times a factor.
pub open spec fn scaled(values: Seq<i64>, factor: int) -> Seq<i64> {
    Seq::new(values.len(), |i: int| (values[i] * factor) as i64)
}

fn scale(values: &Vec<i64>, factor: i64) -> (result: Vec<i64>)
    requires
        forall|i: int|
            0 <= i < values@.len() ==> i64::MIN <= #[trigger] values@[i] * factor <= i64::MAX,
    ensures
        result@ == scaled(values@, factor as int),
{
    let mut result: Vec<i64> = Vec::with_capacity(values.len());
    let mut index: usize = 0;
    while index < values.len()
        invariant
            index <= values@.len(),
            result@ == scaled(values@.take(index as int), factor as int),
            forall|i: int|
                0 <= i < values@.len() ==> i64::MIN <= #[trigger] values@[i] * factor <= i64::MAX,
        decreases values@.len() - index,
    {
        let value: i64 = values[index];
        proof {
            assert(i64::MIN <= values@[index as int] * factor <= i64::MAX);
        }
        result.push(value * factor);
        index = index + 1;
        proof {
            assert(result@ =~= scaled(values@.take(index as int), factor as int));
        }
    }
    proof {
        assert(values@.take(values@.len() as int) =~= values@);
    }
    result
}

} // verus!
