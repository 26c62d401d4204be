//! Finding the start of a field in a damaged pulse train.
//!
//! The search looks, in this order, for the end of the long vertical syncs, for
//! their start, for the end of the blanking interval and for its start. Lengths
//! and distances are compared with bounds that stand for real numbers.
use vstd::prelude::*;

use crate::ieee;
use crate::ieee::less_double;
use crate::pulses::SampleRange;
use crate::vblank::{PulseSample, PulseType, RealBound};

verus! {

/// The bounds of a search.
#[derive(Clone, Copy, Debug, PartialEq, Eq, Structural)]
pub struct Line0Limits {
    /// Pulses further apart than this are left alone.
    pub spacing: RealBound,
    /// Distances that pass for half a line.
    pub half: SampleRange,
    /// Distances that pass for a line.
    pub full: SampleRange,
    /// A pulse is short below this.
    pub short: RealBound,
    /// A pulse is long above this.
    pub long: RealBound,
    /// A start is late above this: half a frame.
    pub late: RealBound,
}

/// A start that was reckoned from a pulse pattern.
#[derive(Clone, Copy, Debug, PartialEq, Eq, Structural)]
pub struct Estimate {
    /// The start, a double.
    pub value: u64,
    /// The places that pass for it.
    pub near: SampleRange,
}

/// How the length of a pulse between equalising pulses and horizontal syncs
/// tells which of both it is.
#[derive(Clone, Copy, Debug, PartialEq, Eq, Structural)]
pub struct ShapeMeasure {
    /// Whether horizontal syncs are so much longer that lengths tell.
    pub distinct: bool,
    /// Below this it passes for an equalising pulse.
    pub eq_loose: RealBound,
    /// Below this it surely is one.
    pub eq_tight: RealBound,
    /// Above this it passes for a horizontal sync.
    pub hsync_loose: RealBound,
    /// Above this it surely is one.
    pub hsync_tight: RealBound,
}

/// How the picture in the gaps around a pulse differs.
#[derive(Clone, Copy, Debug, PartialEq, Eq, Structural)]
pub struct GapMeasure {
    /// The gaps before and after are alike, the next one is not.
    pub next_differs: bool,
    /// The gap before is unlike both others.
    pub both_differ: bool,
}

/// What was measured around a pulse.
pub struct PivotMeasure {
    /// For ten pulses back, eleven, and so on: how many of three neighbouring
    /// pulses lie an odd number of half lines before.
    pub phase: Vec<i64>,
    /// The starts 2, 2.5, 3, 4.5, 5, 5.5 and 6 lines before.
    pub estimates: [Estimate; 7],
    /// The starts 7, 8 and 9 lines before, by lines measured after.
    pub far_estimates: [Estimate; 3],
    /// The pulse as the last of a blanking interval.
    pub ending: ShapeMeasure,
    /// The pulse as the first of a blanking interval.
    pub opening: ShapeMeasure,
    pub gap: GapMeasure,
}

/// A pulse train with what was measured around each pulse.
pub struct Line0Input {
    pub pulses: Vec<PulseSample>,
    pub measures: Vec<PivotMeasure>,
    pub limits: Line0Limits,
    pub relaxed: bool,
    pub frame_lines: i64,
}

impl Line0Input {
    /// That every pulse has its measures: the phases of up to thirty pulses back.
    pub open spec fn wf(self) -> bool {
        &&& self.measures@.len() == self.pulses@.len()
        &&& forall|i: int|
            10 <= i < self.measures@.len() ==> (#[trigger] self.measures@[i]).phase@.len() >= (if i
                < 30 {
                i
            } else {
                30
            }) - 9
    }
}

/// What a search has found.
#[derive(Clone, Copy, Debug, PartialEq, Eq, Structural)]
pub struct Line0Search {
    /// The pulse that a field starts with.
    pub line0: Option<i64>,
    /// The first start that was reckoned, a double.
    pub backup: Option<u64>,
    /// Whether it is a first field: 1 or 0, or -1.
    pub first_field: i64,
    /// How sure that is, in percent, or -1.
    pub confidence: i64,
    /// The same of the reckoned start.
    pub backup_first_field: i64,
    pub backup_confidence: i64,
}

/// Whether a start is that of a pulse.
pub open spec fn starts_at(pulses: Seq<PulseSample>, start: i64) -> bool {
    exists|i: int| 0 <= i < pulses.len() && #[trigger] pulses[i].start == start
}

/// What holds of a search at every step: a start is that of a pulse, a kind is
/// known or not, and a confidence is a percentage or not known.
pub open spec fn plausible(s: Line0Search, pulses: Seq<PulseSample>) -> bool {
    &&& s.line0 is Some ==> starts_at(pulses, s.line0->0)
    &&& -1 <= s.first_field <= 1
    &&& -1 <= s.confidence <= 100
    &&& -1 <= s.backup_first_field <= 1
    &&& -1 <= s.backup_confidence <= 100
}

/// The pulse train without pulses that come too early. Where two lie too close
/// together, `next_fits` tells whether the second fits its neighbours better.
pub open spec fn filtered(
    raw: Seq<PulseSample>,
    spacing: RealBound,
    next_fits: Seq<bool>,
    index: int,
) -> Seq<PulseSample>
    decreases raw.len() - index,
{
    if index >= raw.len() {
        Seq::empty()
    } else if index == 0 || index >= raw.len() - 2 {
        seq![raw[index]] + filtered(raw, spacing, next_fits, index + 1)
    } else if raw[index + 1].start - raw[index].start > spacing.floor && raw[index].start
        - raw[index - 1].start > spacing.floor {
        seq![raw[index]] + filtered(raw, spacing, next_fits, index + 1)
    } else if next_fits[index] {
        seq![raw[index + 1]] + filtered(raw, spacing, next_fits, index + 2)
    } else {
        seq![raw[index]] + filtered(raw, spacing, next_fits, index + 2)
    }
}

/// There is no pulse to search from.
#[derive(Clone, Copy, Debug, PartialEq, Eq, Structural)]
pub struct NoRawPulses;

impl NoRawPulses {
    /// The message of the error.
    pub fn message(self) -> (text: String)
        ensures
            text@ == "get_line0_fallback expects at least one raw pulse"@,
    {
        "get_line0_fallback expects at least one raw pulse".to_owned()
    }
}

/// The pulse train without pulses that come too early, unless there are none at
/// all.
pub fn filter_pulses(raw: &[PulseSample], spacing: RealBound, next_fits: &[bool]) -> (result: Result<
    Vec<PulseSample>,
    NoRawPulses,
>)
    requires
        next_fits@.len() == raw@.len(),
    ensures
        match result {
            Ok(kept) => raw@.len() > 0 && kept@ == filtered(raw@, spacing, next_fits@, 0),
            Err(_) => raw@.len() == 0,
        },
{
    if raw.len() == 0 {
        return Err(NoRawPulses);
    }
    let mut result: Vec<PulseSample> = Vec::with_capacity(raw.len());
    let mut index: usize = 0;
    let count: usize = raw.len();
    while index < count
        invariant
            count == raw@.len() == next_fits@.len(),
            index <= count,
            filtered(raw@, spacing, next_fits@, 0) == result@ + filtered(
                raw@,
                spacing,
                next_fits@,
                index as int,
            ),
        decreases count - index,
    {
        let ghost before = result@;
        let ghost rest = filtered(raw@, spacing, next_fits@, index as int);
        if index == 0 || count - index <= 2 || (raw[index + 1].start as i128
            - raw[index].start as i128 > spacing.floor as i128 && raw[index].start as i128 - raw[
        index - 1].start as i128 > spacing.floor as i128) {
            result.push(raw[index]);
            index = index + 1;
        } else {
            if next_fits[index] {
                result.push(raw[index + 1]);
            } else {
                result.push(raw[index]);
            }
            index = index + 2;
        }
        proof {
            assert(before + rest =~= result@ + filtered(raw@, spacing, next_fits@, index as int));
        }
    }
    proof {
        assert(result@ + Seq::<PulseSample>::empty() =~= result@);
    }
    Ok(result)
}

/// How far a pulse lies after the one before.
pub open spec fn gap_before(pulses: Seq<PulseSample>, index: int) -> int {
    pulses[index].start - pulses[index - 1].start
}

fn spaced(pulses: &Vec<PulseSample>, index: usize, range: SampleRange) -> (inside: bool)
    requires
        0 < index < pulses@.len(),
    ensures
        inside == range.has(gap_before(pulses@, index as int)),
{
    let distance: i128 = pulses[index].start as i128 - pulses[index - 1].start as i128;
    range.min as i128 <= distance && distance <= range.max as i128
}

pub open spec fn is_short(pulse: PulseSample, limits: Line0Limits) -> bool {
    pulse.len < limits.short.ceil
}

pub open spec fn is_long(pulse: PulseSample, limits: Line0Limits) -> bool {
    pulse.len > limits.long.floor
}

/// Whether the two pulses before and the two after lie half a line apart.
pub open spec fn half_spaced(input: Line0Input, index: int) -> bool {
    let pulses = input.pulses@;
    let half = input.limits.half;
    &&& half.has(gap_before(pulses, index - 1))
    &&& half.has(gap_before(pulses, index))
    &&& half.has(gap_before(pulses, index + 1))
    &&& half.has(gap_before(pulses, index + 2))
}

/// The end of the long syncs: two long pulses, then three short ones.
pub open spec fn long_syncs_end(input: Line0Input, index: int) -> bool {
    let pulses = input.pulses@;
    let limits = input.limits;
    &&& half_spaced(input, index)
    &&& is_long(pulses[index - 2], limits)
    &&& is_long(pulses[index - 1], limits)
    &&& is_short(pulses[index], limits)
    &&& is_short(pulses[index + 1], limits)
    &&& is_short(pulses[index + 2], limits)
}

/// The start of the long syncs: two short pulses, then three long ones.
pub open spec fn long_syncs_start(input: Line0Input, index: int) -> bool {
    let pulses = input.pulses@;
    let limits = input.limits;
    &&& half_spaced(input, index)
    &&& is_short(pulses[index - 2], limits)
    &&& is_short(pulses[index - 1], limits)
    &&& is_long(pulses[index], limits)
    &&& is_long(pulses[index + 1], limits)
    &&& is_long(pulses[index + 2], limits)
}

/// Whether the pulse, the two before and the two after are short.
pub open spec fn all_short(input: Line0Input, index: int) -> bool {
    let pulses = input.pulses@;
    let limits = input.limits;
    &&& is_short(pulses[index - 2], limits)
    &&& is_short(pulses[index - 1], limits)
    &&& is_short(pulses[index], limits)
    &&& is_short(pulses[index + 1], limits)
    &&& is_short(pulses[index + 2], limits)
}

/// The end of a blanking interval: half lines, then lines.
pub open spec fn blanking_end(input: Line0Input, index: int) -> bool {
    let pulses = input.pulses@;
    let limits = input.limits;
    &&& input.relaxed || limits.half.has(gap_before(pulses, index - 2))
    &&& limits.half.has(gap_before(pulses, index - 1))
    &&& limits.half.has(gap_before(pulses, index))
    &&& limits.full.has(gap_before(pulses, index + 1))
    &&& limits.full.has(gap_before(pulses, index + 2))
    &&& all_short(input, index)
}

/// The start of a blanking interval: lines, then half lines.
pub open spec fn blanking_start(input: Line0Input, index: int) -> bool {
    let pulses = input.pulses@;
    let limits = input.limits;
    &&& limits.full.has(gap_before(pulses, index - 1))
    &&& limits.full.has(gap_before(pulses, index))
    &&& limits.half.has(gap_before(pulses, index + 1))
    &&& limits.half.has(gap_before(pulses, index + 2))
    &&& input.relaxed || limits.half.has(gap_before(pulses, index + 3))
    &&& all_short(input, index)
}

/// How many half lines follow, `counted` being there already, until a line
/// follows or `end` is reached; none where anything else comes.
pub open spec fn half_lines(
    pulses: Seq<PulseSample>,
    limits: Line0Limits,
    index: int,
    end: int,
    counted: int,
) -> int
    decreases end - index,
{
    if index >= end {
        counted
    } else if index + 1 >= pulses.len() {
        0
    } else if !is_short(pulses[index], limits) || !is_short(pulses[index + 1], limits) {
        0
    } else if limits.half.has(gap_before(pulses, index + 1)) {
        half_lines(pulses, limits, index + 1, end, counted + 1)
    } else if limits.full.has(gap_before(pulses, index + 1)) {
        counted
    } else {
        0
    }
}

fn count_half_lines(pulses: &Vec<PulseSample>, limits: &Line0Limits, index: usize) -> (count: i64)
    requires
        index < pulses@.len(),
    ensures
        count == half_lines(pulses@, *limits, index as int, index + 9, 0),
{
    let mut at: usize = index;
    let mut count: i64 = 0;
    while count < 9
        invariant
            0 <= count <= 9,
            at == index + count,
            at < pulses@.len(),
            half_lines(pulses@, *limits, index as int, index + 9, 0) == half_lines(
                pulses@,
                *limits,
                at as int,
                index + 9,
                count as int,
            ),
        decreases 9 - count,
    {
        if pulses.len() - at <= 1 {
            return 0;
        }
        if !(pulses[at].len < limits.short.ceil && pulses[at + 1].len < limits.short.ceil) {
            return 0;
        }
        if spaced(pulses, at + 1, limits.half) {
            count = count + 1;
        } else if spaced(pulses, at + 1, limits.full) {
            return count;
        } else {
            return 0;
        }
        at = at + 1;
    }
    count
}

/// Votes on the phase: all even, all odd, mixed.
#[derive(Clone, Copy, Debug, PartialEq, Eq, Structural)]
pub struct PhaseVotes {
    pub even: i64,
    pub odd: i64,
    pub mixed: i64,
}

/// The votes with one more.
pub open spec fn voted(votes: PhaseVotes, phase: i64) -> PhaseVotes {
    if phase == 0 {
        PhaseVotes { even: (votes.even + 1) as i64, ..votes }
    } else if phase == 3 {
        PhaseVotes { odd: (votes.odd + 1) as i64, ..votes }
    } else {
        PhaseVotes { mixed: (votes.mixed + 1) as i64, ..votes }
    }
}

/// The votes from `at` up to `end`, until five of them are decisive.
pub open spec fn phase_votes(phase: Seq<i64>, at: int, end: int, votes: PhaseVotes) -> PhaseVotes
    decreases end - at,
{
    if at >= end {
        votes
    } else {
        let next = voted(votes, phase[at]);
        if next.even + next.odd >= 5 {
            next
        } else {
            phase_votes(phase, at + 1, end, next)
        }
    }
}

pub open spec fn no_votes() -> PhaseVotes {
    PhaseVotes { even: 0, odd: 0, mixed: 0 }
}

/// Counts the votes from `first` up to `end`, until five of them are decisive.
pub fn count_phase_votes(phase: &Vec<i64>, first: usize, end: usize) -> (votes: PhaseVotes)
    requires
        first < end <= phase@.len(),
        end < 0x1_0000_0000,
    ensures
        votes == phase_votes(phase@, first as int, end as int, no_votes()),
        0 <= votes.even,
        0 <= votes.odd,
        0 <= votes.mixed,
        1 <= votes.even + votes.odd + votes.mixed <= end - first,
{
    let mut votes = PhaseVotes { even: 0, odd: 0, mixed: 0 };
    let mut at: usize = first;
    while at < end
        invariant
            first <= at <= end <= phase@.len(),
            end < 0x1_0000_0000,
            0 <= votes.even,
            0 <= votes.odd,
            0 <= votes.mixed,
            votes.even + votes.odd + votes.mixed == at - first,
            phase_votes(phase@, first as int, end as int, no_votes()) == phase_votes(
                phase@,
                at as int,
                end as int,
                votes,
            ),
        decreases end - at,
    {
        let value: i64 = phase[at];
        if value == 0 {
            votes.even = votes.even + 1;
        } else if value == 3 {
            votes.odd = votes.odd + 1;
        } else {
            votes.mixed = votes.mixed + 1;
        }
        at = at + 1;
        if votes.even + votes.odd >= 5 {
            return votes;
        }
    }
    votes
}

/// Where the greatest of three values stands. Of equal ones the first wins, but
/// the last needs more than both others.
pub open spec fn greatest3(a: int, b: int, c: int) -> usize {
    if b > a && b >= c {
        1
    } else if c > a && c > b {
        2
    } else {
        0
    }
}

pub fn argmax3(values: [i64; 3]) -> (index: usize)
    ensures
        index == greatest3(values@[0] as int, values@[1] as int, values@[2] as int),
{
    if values[1] > values[0] && values[1] >= values[2] {
        1
    } else if values[2] > values[0] && values[2] > values[1] {
        2
    } else {
        0
    }
}

/// The place that is named holds the greatest value, and the first such place.
pub proof fn law_greatest3(values: Seq<int>)
    requires
        values.len() == 3,
    ensures
        ({
            let best = greatest3(values[0], values[1], values[2]) as int;
            &&& forall|i: int| 0 <= i < 3 ==> values[i] <= values[best]
            &&& forall|i: int| 0 <= i < best ==> values[i] < values[best]
        }),
{
}

/// The share of `count` in all votes, in percent.
pub fn phase_confidence(count: i64, phase_cnt: [i64; 3]) -> (percent: i64)
    requires
        0 <= count <= 0x1_0000_0000,
        0 <= phase_cnt@[0] <= 0x1_0000_0000,
        0 <= phase_cnt@[1] <= 0x1_0000_0000,
        0 <= phase_cnt@[2] <= 0x1_0000_0000,
        phase_cnt@[0] + phase_cnt@[1] + phase_cnt@[2] > 0,
    ensures
        percent == count * 100 / (phase_cnt@[0] + phase_cnt@[1] + phase_cnt@[2]),
        count <= phase_cnt@[0] + phase_cnt@[1] + phase_cnt@[2] ==> 0 <= percent <= 100,
{
    proof {
        let all = phase_cnt@[0] + phase_cnt@[1] + phase_cnt@[2];
        assert(0 <= count <= all ==> 0 <= (count * 100) / all <= 100) by (nonlinear_arith)
            requires
                all > 0,
        ;
    }
    count * 100 / (phase_cnt[0] + phase_cnt[1] + phase_cnt[2])
}

/// What the votes say: the phase that won, and its share in percent.
pub open spec fn vote_result(votes: PhaseVotes) -> (usize, int) {
    let winner = greatest3(votes.even as int, votes.odd as int, votes.mixed as int);
    let count = if winner == 0 {
        votes.even as int
    } else {
        votes.odd as int
    };
    (winner, count * 100 / (votes.even + votes.odd + votes.mixed))
}

fn tally(votes: PhaseVotes) -> (result: (usize, i64))
    requires
        0 <= votes.even,
        0 <= votes.odd,
        0 <= votes.mixed,
        1 <= votes.even + votes.odd + votes.mixed <= 0x1_0000_0000,
    ensures
        result.0 == vote_result(votes).0,
        result.1 == vote_result(votes).1,
        0 <= result.1 <= 100,
{
    let counts: [i64; 3] = [votes.even, votes.odd, votes.mixed];
    let winner: usize = argmax3(counts);
    let count: i64 = if winner == 0 {
        votes.even
    } else {
        votes.odd
    };
    (winner, phase_confidence(count, counts))
}

/// The place in a pivot's phases behind the last that is looked at: pulses from
/// ten back to `depth` back, or to the first pulse.
pub open spec fn phase_end(index: int, depth: int) -> int {
    (if index < depth {
        index
    } else {
        depth
    }) - 9
}

/// What a pattern says of a field: which estimate to take, whether it is a
/// first field and how sure that is.
#[derive(Clone, Copy, Debug, PartialEq, Eq, Structural)]
pub struct Guess {
    pub estimate: Option<usize>,
    pub first_field: i64,
    pub confidence: i64,
}

/// The field that ends with the long syncs at `index`: by the half lines that
/// follow, or else by the phase of the pulses before. What is not told stays.
pub open spec fn guess_after_long(input: Line0Input, index: int, s: Line0Search) -> Guess {
    let count = half_lines(input.pulses@, input.limits, index, index + 9, 0);
    let wide = input.frame_lines == 625;
    let votes = phase_votes(input.measures@[index].phase@, 5, phase_end(index, 30), no_votes());
    let (winner, share) = vote_result(votes);
    if count == 4 && wide {
        Guess { estimate: Some(4), first_field: 0, confidence: 100 }
    } else if count == 5 && wide {
        Guess { estimate: Some(3), first_field: 1, confidence: 100 }
    } else if count == 5 {
        Guess { estimate: Some(5), first_field: 0, confidence: 100 }
    } else if count == 6 && input.frame_lines == 525 {
        Guess { estimate: Some(6), first_field: 1, confidence: s.confidence }
    } else if winner == 0 {
        if wide {
            Guess { estimate: Some(4), first_field: 0, confidence: share as i64 }
        } else {
            Guess { estimate: Some(6), first_field: 1, confidence: share as i64 }
        }
    } else if winner == 1 {
        if wide {
            Guess { estimate: Some(3), first_field: 1, confidence: share as i64 }
        } else {
            Guess { estimate: Some(5), first_field: 0, confidence: share as i64 }
        }
    } else {
        Guess { estimate: None, first_field: s.first_field, confidence: s.confidence }
    }
}

/// The first pulse from `at` up to `end` that is near.
pub open spec fn first_near(
    pulses: Seq<PulseSample>,
    near: SampleRange,
    at: int,
    end: int,
) -> Option<i64>
    decreases end - at,
{
    if at >= end {
        None
    } else if near.has(pulses[at].start as int) {
        Some(pulses[at].start)
    } else {
        first_near(pulses, near, at + 1, end)
    }
}

fn find_near(pulses: &Vec<PulseSample>, near: SampleRange, first: usize, end: usize) -> (found:
    Option<i64>)
    requires
        end <= pulses@.len(),
    ensures
        found == first_near(pulses@, near, first as int, end as int),
        found is Some ==> starts_at(pulses@, found->0),
{
    let mut at: usize = first;
    while at < end
        invariant
            end <= pulses@.len(),
            first_near(pulses@, near, first as int, end as int) == first_near(
                pulses@,
                near,
                at as int,
                end as int,
            ),
        decreases end - at,
    {
        if near.contains(pulses[at].start) {
            return Some(pulses[at].start);
        }
        at = at + 1;
    }
    None
}

/// `index` less `count`, but not below nought.
pub open spec fn back(index: int, count: int) -> int {
    if index < count {
        0
    } else {
        index - count
    }
}

/// The search with a reckoned start, unless it has one.
pub open spec fn with_backup(s: Line0Search, value: u64, guess: Guess) -> Line0Search {
    if s.backup is None {
        Line0Search {
            backup: Some(value),
            backup_first_field: guess.first_field,
            backup_confidence: guess.confidence,
            ..s
        }
    } else {
        s
    }
}

/// The first try at `index`: the end of the long syncs.
pub open spec fn first_step(input: Line0Input, s: Line0Search, index: int) -> Line0Search {
    if !long_syncs_end(input, index) {
        s
    } else {
        let guess = guess_after_long(input, index, s);
        let told = Line0Search {
            first_field: guess.first_field,
            confidence: guess.confidence,
            ..s
        };
        match guess.estimate {
            None => told,
            Some(k) => {
                let estimate = input.measures@[index].estimates@[k as int];
                let kept = with_backup(told, estimate.value, guess);
                let (from, to) = if input.relaxed {
                    (back(index, 20), index)
                } else {
                    (back(index, 16), back(index, 4))
                };
                Line0Search {
                    line0: match first_near(input.pulses@, estimate.near, from, to) {
                        Some(start) => Some(start),
                        None => kept.line0,
                    },
                    ..kept
                }
            },
        }
    }
}

/// The first try from `index` on.
pub open spec fn first_try(input: Line0Input, s: Line0Search, index: int) -> Line0Search
    decreases input.pulses@.len() - index,
{
    if s.line0 is Some || index >= input.pulses@.len() - 2 {
        s
    } else {
        first_try(input, first_step(input, s, index), index + 1)
    }
}

/// Whether no start was found, or one that is late.
pub open spec fn missing_or_late(s: Line0Search, late: RealBound) -> bool {
    match s.line0 {
        Some(start) => start > late.floor,
        None => true,
    }
}

/// A start that a candidate gives: the field's kind follows it where the start
/// is a new one or the candidate is surer.
pub open spec fn with_candidate(s: Line0Search, start: i64, guess: Guess) -> Line0Search {
    Line0Search {
        line0: Some(start),
        first_field: if s.line0 != Some(start) || guess.confidence > s.confidence {
            guess.first_field
        } else {
            s.first_field
        },
        ..s
    }
}

/// A candidate's reckoned start, and the pulse from `from` up to `to` that is
/// near it, where there is one.
pub open spec fn tried(
    input: Line0Input,
    s: Line0Search,
    estimate: Estimate,
    guess: Guess,
    from: int,
    to: int,
) -> Line0Search {
    let kept = with_backup(s, estimate.value, guess);
    match first_near(input.pulses@, estimate.near, from, to) {
        Some(start) => with_candidate(kept, start, guess),
        None => kept,
    }
}

/// The field that the long syncs at `index` open.
pub open spec fn guess_before_long(input: Line0Input, index: int) -> Guess {
    let votes = phase_votes(input.measures@[index].phase@, 0, phase_end(index, 25), no_votes());
    let (winner, share) = vote_result(votes);
    if winner == 0 {
        Guess {
            estimate: Some(
                if input.frame_lines == 625 {
                    0
                } else {
                    2
                },
            ),
            first_field: 1,
            confidence: share as i64,
        }
    } else if winner == 1 {
        Guess { estimate: Some(1), first_field: 0, confidence: share as i64 }
    } else {
        Guess { estimate: None, first_field: 0, confidence: 0 }
    }
}

/// The second try at `index`: the start of the long syncs.
pub open spec fn second_step(input: Line0Input, s: Line0Search, index: int) -> Line0Search {
    if !long_syncs_start(input, index) {
        s
    } else {
        let guess = guess_before_long(input, index);
        match guess.estimate {
            None => s,
            Some(k) => {
                let (from, to) = if input.relaxed {
                    (back(index, 15), index)
                } else {
                    (back(index, 10), back(index, 3))
                };
                tried(input, s, input.measures@[index].estimates@[k as int], guess, from, to)
            },
        }
    }
}

/// The second try from `index` on.
pub open spec fn second_try(input: Line0Input, s: Line0Search, index: int) -> Line0Search
    decreases input.pulses@.len() - index,
{
    if !missing_or_late(s, input.limits.late) || index >= input.pulses@.len() - 2 {
        s
    } else {
        second_try(input, second_step(input, s, index), index + 1)
    }
}

/// The field whose blanking interval ends at `index`, by the pulse's length.
pub open spec fn guess_at_end(input: Line0Input, index: int) -> Guess {
    let length = input.pulses@[index].len;
    let shape = input.measures@[index].ending;
    let wide = input.frame_lines == 625;
    if shape.distinct && length < shape.eq_loose.ceil {
        Guess {
            estimate: Some(
                if wide {
                    0
                } else {
                    1
                },
            ),
            first_field: 0,
            confidence: if length < shape.eq_tight.ceil {
                80
            } else {
                60
            },
        }
    } else if shape.distinct && length > shape.hsync_loose.floor {
        Guess {
            estimate: Some(
                if wide {
                    0
                } else {
                    2
                },
            ),
            first_field: 1,
            confidence: if length > shape.hsync_tight.floor {
                80
            } else {
                60
            },
        }
    } else {
        Guess { estimate: None, first_field: 0, confidence: 0 }
    }
}

/// The third try at `index`: the end of the blanking interval.
pub open spec fn third_step(input: Line0Input, s: Line0Search, index: int) -> Line0Search {
    if !blanking_end(input, index) {
        s
    } else {
        let guess = guess_at_end(input, index);
        match guess.estimate {
            None => s,
            Some(k) => {
                let (from, to) = if input.relaxed {
                    (back(index, 25), index)
                } else {
                    (back(index, 20), back(index, 4))
                };
                tried(input, s, input.measures@[index].far_estimates@[k as int], guess, from, to)
            },
        }
    }
}

/// The third try from `index` on.
pub open spec fn third_try(input: Line0Input, s: Line0Search, index: int) -> Line0Search
    decreases input.pulses@.len() - index,
{
    if !missing_or_late(s, input.limits.late) || index >= input.pulses@.len() - 2 {
        s
    } else {
        third_try(input, third_step(input, s, index), index + 1)
    }
}

/// A start that the fourth try gives: both kind and confidence follow it where
/// it is a new one or the candidate is surer.
pub open spec fn with_opening(s: Line0Search, start: i64, first_field: i64, confidence: i64) -> Line0Search {
    if s.line0 != Some(start) || confidence > s.confidence {
        Line0Search { line0: Some(start), first_field, confidence, ..s }
    } else {
        s
    }
}

/// The fourth try at `index`, by the length of the pulse.
pub open spec fn opening_by_shape(input: Line0Input, s: Line0Search, index: int) -> Line0Search {
    let length = input.pulses@[index].len;
    let shape = input.measures@[index].opening;
    let first_field = if input.frame_lines == 625 {
        0
    } else {
        1i64
    };
    if shape.distinct && length < shape.eq_loose.ceil {
        with_opening(
            s,
            input.pulses@[index - 1].start,
            first_field,
            if length < shape.eq_tight.ceil {
                60
            } else {
                40
            },
        )
    } else if shape.distinct && length > shape.hsync_loose.floor {
        with_opening(
            s,
            input.pulses@[index].start,
            first_field,
            if length > shape.hsync_tight.floor {
                60
            } else {
                40
            },
        )
    } else {
        s
    }
}

/// The fourth try at `index`: the start of the blanking interval. Where lengths
/// do not tell, the picture between the pulses may.
pub open spec fn fourth_step(input: Line0Input, s: Line0Search, index: int) -> Line0Search {
    if !blanking_start(input, index) {
        s
    } else {
        let shaped = opening_by_shape(input, s, index);
        let gap = input.measures@[index].gap;
        if shaped.line0 is Some {
            shaped
        } else if gap.next_differs {
            Line0Search {
                line0: Some(input.pulses@[index - 1].start),
                first_field: if input.frame_lines == 625 {
                    0
                } else {
                    shaped.first_field
                },
                confidence: 20,
                ..shaped
            }
        } else if gap.both_differ {
            Line0Search {
                line0: Some(input.pulses@[index].start),
                first_field: if input.frame_lines == 625 {
                    0
                } else {
                    1
                },
                confidence: 20,
                ..shaped
            }
        } else {
            shaped
        }
    }
}

/// The fourth try from `index` on.
pub open spec fn fourth_try(input: Line0Input, s: Line0Search, index: int) -> Line0Search
    decreases input.pulses@.len() - index,
{
    if !missing_or_late(s, input.limits.late) || index >= input.pulses@.len() - 3 {
        s
    } else {
        fourth_try(input, fourth_step(input, s, index), index + 1)
    }
}

/// What stands for a field whose kind is not known.
pub const NO_FIELD: i64 = -1;

pub open spec fn no_search() -> Line0Search {
    Line0Search {
        line0: None,
        backup: None,
        first_field: NO_FIELD,
        confidence: NO_FIELD,
        backup_first_field: NO_FIELD,
        backup_confidence: NO_FIELD,
    }
}

/// What all four tries find.
pub open spec fn searched(input: Line0Input) -> Line0Search {
    let s = first_try(input, no_search(), 15);
    let s = second_try(input, s, 10);
    let s = third_try(input, s, 10);
    fourth_try(input, s, 2)
}

fn is_half_spaced(input: &Line0Input, index: usize) -> (spaced: bool)
    requires
        2 <= index,
        index + 2 < input.pulses@.len(),
    ensures
        spaced == half_spaced(*input, index as int),
{
    let total: usize = input.pulses.len();
    assert(index + 2 < total);
    spaced(&input.pulses, index - 1, input.limits.half) && spaced(
        &input.pulses,
        index,
        input.limits.half,
    ) && spaced(&input.pulses, index + 1, input.limits.half) && spaced(
        &input.pulses,
        index + 2,
        input.limits.half,
    )
}

fn short_at(input: &Line0Input, index: usize) -> (short: bool)
    requires
        index < input.pulses@.len(),
    ensures
        short == is_short(input.pulses@[index as int], input.limits),
{
    input.pulses[index].len < input.limits.short.ceil
}

fn long_at(input: &Line0Input, index: usize) -> (long: bool)
    requires
        index < input.pulses@.len(),
    ensures
        long == is_long(input.pulses@[index as int], input.limits),
{
    input.pulses[index].len > input.limits.long.floor
}

fn all_short_at(input: &Line0Input, index: usize) -> (short: bool)
    requires
        2 <= index,
        index + 2 < input.pulses@.len(),
    ensures
        short == all_short(*input, index as int),
{
    let total: usize = input.pulses.len();
    assert(index + 2 < total);
    short_at(input, index - 2) && short_at(input, index - 1) && short_at(input, index) && short_at(
        input,
        index + 1,
    ) && short_at(input, index + 2)
}

fn capped(index: usize, depth: usize) -> (end: usize)
    requires
        10 <= index,
        10 <= depth,
    ensures
        end == phase_end(index as int, depth as int),
{
    (if index < depth {
        index
    } else {
        depth
    }) - 9
}

fn try_first(input: &Line0Input, s: Line0Search, index: usize) -> (result: Line0Search)
    requires
        input.wf(),
        15 <= index,
        index + 2 < input.pulses@.len(),
    ensures
        result == first_step(*input, s, index as int),
        plausible(s, input.pulses@) ==> plausible(result, input.pulses@),
{
    let total: usize = input.pulses.len();
    assert(index + 2 < total);
    let matches: bool = is_half_spaced(input, index) && long_at(input, index - 2) && long_at(
        input,
        index - 1,
    ) && short_at(input, index) && short_at(input, index + 1) && short_at(input, index + 2);
    if !matches {
        return s;
    }
    let count: i64 = count_half_lines(&input.pulses, &input.limits, index);
    let wide: bool = input.frame_lines == 625;
    let guess: Guess = if count == 4 && wide {
        Guess { estimate: Some(4), first_field: 0, confidence: 100 }
    } else if count == 5 && wide {
        Guess { estimate: Some(3), first_field: 1, confidence: 100 }
    } else if count == 5 {
        Guess { estimate: Some(5), first_field: 0, confidence: 100 }
    } else if count == 6 && input.frame_lines == 525 {
        Guess { estimate: Some(6), first_field: 1, confidence: s.confidence }
    } else {
        let votes = count_phase_votes(&input.measures[index].phase, 5, capped(index, 30));
        let (winner, share) = tally(votes);
        if winner == 0 {
            if wide {
                Guess { estimate: Some(4), first_field: 0, confidence: share }
            } else {
                Guess { estimate: Some(6), first_field: 1, confidence: share }
            }
        } else if winner == 1 {
            if wide {
                Guess { estimate: Some(3), first_field: 1, confidence: share }
            } else {
                Guess { estimate: Some(5), first_field: 0, confidence: share }
            }
        } else {
            Guess { estimate: None, first_field: s.first_field, confidence: s.confidence }
        }
    };
    proof {
        assert(guess == guess_after_long(*input, index as int, s));
    }
    let mut result = s;
    result.first_field = guess.first_field;
    result.confidence = guess.confidence;
    match guess.estimate {
        None => {},
        Some(k) => {
            let estimate: Estimate = input.measures[index].estimates[k];
            if result.backup.is_none() {
                result.backup = Some(estimate.value);
                result.backup_first_field = guess.first_field;
                result.backup_confidence = guess.confidence;
            }
            let (from, to) = if input.relaxed {
                (index.saturating_sub(20), index)
            } else {
                (index.saturating_sub(16), index - 4)
            };
            match find_near(&input.pulses, estimate.near, from, to) {
                Some(start) => {
                    result.line0 = Some(start);
                },
                None => {},
            }
        },
    }
    result
}

fn try_candidate(
    input: &Line0Input,
    s: Line0Search,
    estimate: Estimate,
    guess: Guess,
    from: usize,
    to: usize,
) -> (result: Line0Search)
    requires
        to <= input.pulses@.len(),
    ensures
        result == tried(*input, s, estimate, guess, from as int, to as int),
        plausible(s, input.pulses@) && -1 <= guess.first_field <= 1 && -1 <= guess.confidence
            <= 100 ==> plausible(result, input.pulses@),
{
    let mut result = s;
    if result.backup.is_none() {
        result.backup = Some(estimate.value);
        result.backup_first_field = guess.first_field;
        result.backup_confidence = guess.confidence;
    }
    match find_near(&input.pulses, estimate.near, from, to) {
        Some(start) => {
            let same: bool = match result.line0 {
                Some(found) => found == start,
                None => false,
            };
            if !same || guess.confidence > result.confidence {
                result.first_field = guess.first_field;
            }
            result.line0 = Some(start);
        },
        None => {},
    }
    result
}

fn try_second(input: &Line0Input, s: Line0Search, index: usize) -> (result: Line0Search)
    requires
        input.wf(),
        10 <= index,
        index + 2 < input.pulses@.len(),
    ensures
        result == second_step(*input, s, index as int),
        plausible(s, input.pulses@) ==> plausible(result, input.pulses@),
{
    let total: usize = input.pulses.len();
    assert(index + 2 < total);
    let matches: bool = is_half_spaced(input, index) && short_at(input, index - 2) && short_at(
        input,
        index - 1,
    ) && long_at(input, index) && long_at(input, index + 1) && long_at(input, index + 2);
    if !matches {
        return s;
    }
    let votes = count_phase_votes(&input.measures[index].phase, 0, capped(index, 25));
    let (winner, share) = tally(votes);
    if winner != 0 && winner != 1 {
        return s;
    }
    let (k, first_field): (usize, i64) = if winner == 1 {
        (1, 0)
    } else if input.frame_lines == 625 {
        (0, 1)
    } else {
        (2, 1)
    };
    let guess = Guess { estimate: Some(k), first_field, confidence: share };
    proof {
        assert(guess == guess_before_long(*input, index as int));
    }
    let (from, to) = if input.relaxed {
        (index.saturating_sub(15), index)
    } else {
        (index - 10, index - 3)
    };
    try_candidate(input, s, input.measures[index].estimates[k], guess, from, to)
}

fn try_third(input: &Line0Input, s: Line0Search, index: usize) -> (result: Line0Search)
    requires
        input.wf(),
        10 <= index,
        index + 2 < input.pulses@.len(),
    ensures
        result == third_step(*input, s, index as int),
        plausible(s, input.pulses@) ==> plausible(result, input.pulses@),
{
    let total: usize = input.pulses.len();
    assert(index + 2 < total);
    let matches: bool = (input.relaxed || spaced(&input.pulses, index - 2, input.limits.half))
        && spaced(&input.pulses, index - 1, input.limits.half) && spaced(
        &input.pulses,
        index,
        input.limits.half,
    ) && spaced(&input.pulses, index + 1, input.limits.full) && spaced(
        &input.pulses,
        index + 2,
        input.limits.full,
    ) && all_short_at(input, index);
    if !matches {
        return s;
    }
    let length: i64 = input.pulses[index].len;
    let shape: ShapeMeasure = input.measures[index].ending;
    let wide: bool = input.frame_lines == 625;
    let (k, first_field, confidence): (usize, i64, i64) = if shape.distinct && length
        < shape.eq_loose.ceil {
        (
            if wide {
                0
            } else {
                1
            },
            0,
            if length < shape.eq_tight.ceil {
                80
            } else {
                60
            },
        )
    } else if shape.distinct && length > shape.hsync_loose.floor {
        (
            if wide {
                0
            } else {
                2
            },
            1,
            if length > shape.hsync_tight.floor {
                80
            } else {
                60
            },
        )
    } else {
        return s;
    };
    let guess = Guess { estimate: Some(k), first_field, confidence };
    proof {
        assert(guess == guess_at_end(*input, index as int));
    }
    let (from, to) = if input.relaxed {
        (index.saturating_sub(25), index)
    } else {
        (index.saturating_sub(20), index - 4)
    };
    try_candidate(input, s, input.measures[index].far_estimates[k], guess, from, to)
}

fn open_at(s: Line0Search, start: i64, first_field: i64, confidence: i64) -> (result: Line0Search)
    ensures
        result == with_opening(s, start, first_field, confidence),
{
    let same: bool = match s.line0 {
        Some(found) => found == start,
        None => false,
    };
    if !same || confidence > s.confidence {
        Line0Search { line0: Some(start), first_field, confidence, ..s }
    } else {
        s
    }
}

fn try_fourth(input: &Line0Input, s: Line0Search, index: usize) -> (result: Line0Search)
    requires
        input.wf(),
        2 <= index,
        index + 3 < input.pulses@.len(),
    ensures
        result == fourth_step(*input, s, index as int),
        plausible(s, input.pulses@) ==> plausible(result, input.pulses@),
{
    let total: usize = input.pulses.len();
    assert(index + 3 < total);
    let matches: bool = spaced(&input.pulses, index - 1, input.limits.full) && spaced(
        &input.pulses,
        index,
        input.limits.full,
    ) && spaced(&input.pulses, index + 1, input.limits.half) && spaced(
        &input.pulses,
        index + 2,
        input.limits.half,
    ) && (input.relaxed || spaced(&input.pulses, index + 3, input.limits.half)) && all_short_at(
        input,
        index,
    );
    if !matches {
        return s;
    }
    let length: i64 = input.pulses[index].len;
    let shape: ShapeMeasure = input.measures[index].opening;
    let gap: GapMeasure = input.measures[index].gap;
    let wide: bool = input.frame_lines == 625;
    let first_field: i64 = if wide {
        0
    } else {
        1
    };
    let mut result: Line0Search = if shape.distinct && length < shape.eq_loose.ceil {
        let confidence: i64 = if length < shape.eq_tight.ceil {
            60
        } else {
            40
        };
        open_at(s, input.pulses[index - 1].start, first_field, confidence)
    } else if shape.distinct && length > shape.hsync_loose.floor {
        let confidence: i64 = if length > shape.hsync_tight.floor {
            60
        } else {
            40
        };
        open_at(s, input.pulses[index].start, first_field, confidence)
    } else {
        s
    };
    proof {
        assert(result == opening_by_shape(*input, s, index as int));
    }
    if result.line0.is_none() {
        if gap.next_differs {
            result.line0 = Some(input.pulses[index - 1].start);
            if wide {
                result.first_field = 0;
            }
            result.confidence = 20;
        } else if gap.both_differ {
            result.line0 = Some(input.pulses[index].start);
            result.first_field = first_field;
            result.confidence = 20;
        }
    }
    result
}

fn is_missing_or_late(s: &Line0Search, late: RealBound) -> (missing: bool)
    ensures
        missing == missing_or_late(*s, late),
{
    match s.line0 {
        Some(start) => start > late.floor,
        None => true,
    }
}

/// Searches a pulse train for the start of a field, in four tries.
pub fn search_line0(input: &Line0Input) -> (found: Line0Search)
    requires
        input.wf(),
    ensures
        found == searched(*input),
        plausible(found, input.pulses@),
{
    let count: usize = input.pulses.len();
    let mut s = Line0Search {
        line0: None,
        backup: None,
        first_field: NO_FIELD,
        confidence: NO_FIELD,
        backup_first_field: NO_FIELD,
        backup_confidence: NO_FIELD,
    };
    let ghost start = s;
    let mut index: usize = 15;
    while s.line0.is_none() && index < count && count - index > 2
        invariant
            count == input.pulses@.len(),
            input.wf(),
            15 <= index,
            index <= count || index == 15,
            plausible(s, input.pulses@),
            first_try(*input, start, 15) == first_try(*input, s, index as int),
        decreases count + 15 - index,
    {
        s = try_first(input, s, index);
        index = index + 1;
    }
    let ghost first = s;
    index = 10;
    while is_missing_or_late(&s, input.limits.late) && index < count && count - index > 2
        invariant
            count == input.pulses@.len(),
            input.wf(),
            10 <= index,
            index <= count || index == 10,
            plausible(s, input.pulses@),
            second_try(*input, first, 10) == second_try(*input, s, index as int),
        decreases count + 10 - index,
    {
        s = try_second(input, s, index);
        index = index + 1;
    }
    let ghost second = s;
    index = 10;
    while is_missing_or_late(&s, input.limits.late) && index < count && count - index > 2
        invariant
            count == input.pulses@.len(),
            input.wf(),
            10 <= index,
            index <= count || index == 10,
            plausible(s, input.pulses@),
            third_try(*input, second, 10) == third_try(*input, s, index as int),
        decreases count + 10 - index,
    {
        s = try_third(input, s, index);
        index = index + 1;
    }
    let ghost third = s;
    index = 2;
    while is_missing_or_late(&s, input.limits.late) && index < count && count - index > 3
        invariant
            count == input.pulses@.len(),
            input.wf(),
            2 <= index,
            index <= count || index == 2,
            plausible(s, input.pulses@),
            fourth_try(*input, third, 2) == fourth_try(*input, s, index as int),
        decreases count + 2 - index,
    {
        s = try_fourth(input, s, index);
        index = index + 1;
    }
    s
}

/// Where a field starts.
#[derive(Clone, Copy, Debug, PartialEq, Eq, Structural)]
pub enum Line0Place {
    /// At a pulse.
    Pulse { start: i64 },
    /// At a reckoned place, a double.
    Reckoned { value: u64 },
    /// Three lines before a pulse.
    ThreeLinesBefore { start: i64 },
}

/// A start that was settled on.
#[derive(Clone, Copy, Debug, PartialEq, Eq, Structural)]
pub struct Line0Found {
    pub place: Option<Line0Place>,
    pub first_field: i64,
    pub confidence: i64,
}

/// Of the pulse that was found and the start that was reckoned first, the one
/// to take. `shifted` is the found pulse less most of half a frame, `limit` half
/// a frame, both doubles.
pub open spec fn settled(
    s: Line0Search,
    late: RealBound,
    shifted: u64,
    limit: u64,
    relaxed: bool,
) -> Line0Found {
    let from_backup = match (s.line0, s.backup) {
        (Some(start), Some(backup)) => start > late.floor && (ieee::lt_double(backup, shifted) || (
        relaxed && ieee::lt_double(backup, limit))),
        (None, Some(_)) => true,
        _ => false,
    };
    if from_backup {
        Line0Found {
            place: Some(Line0Place::Reckoned { value: s.backup->0 }),
            first_field: s.backup_first_field,
            confidence: (s.backup_confidence - 20) as i64,
        }
    } else {
        Line0Found {
            place: match s.line0 {
                Some(start) => Some(Line0Place::Pulse { start }),
                None => None,
            },
            first_field: s.first_field,
            confidence: s.confidence,
        }
    }
}

/// Of the pulse that was found and the start that was reckoned first, the one
/// to take.
pub fn settle(s: Line0Search, late: RealBound, shifted: u64, limit: u64, relaxed: bool) -> (found:
    Line0Found)
    requires
        s.backup_confidence >= i64::MIN + 20,
    ensures
        found == settled(s, late, shifted, limit, relaxed),
{
    match s.backup {
        Some(backup) => {
            let from_backup: bool = match s.line0 {
                Some(start) => start > late.floor && (less_double(backup, shifted) || (relaxed
                    && less_double(backup, limit))),
                None => true,
            };
            if from_backup {
                return Line0Found {
                    place: Some(Line0Place::Reckoned { value: backup }),
                    first_field: s.backup_first_field,
                    confidence: s.backup_confidence - 20,
                };
            }
        },
        None => {},
    }
    let place: Option<Line0Place> = match s.line0 {
        Some(start) => Some(Line0Place::Pulse { start }),
        None => None,
    };
    Line0Found { place, first_field: s.first_field, confidence: s.confidence }
}

/// Where the field before lets this one be expected; all doubles.
pub struct Expectation {
    pub line0: u64,
    /// The kind that alternation asks for.
    pub first_field: Option<i64>,
    /// For each pulse its distance from the expected start.
    pub distances: Vec<u64>,
    /// How far a pulse may be off.
    pub range: u64,
    /// Half a frame.
    pub limit: u64,
    /// Five lines before the window.
    pub earliest: u64,
}

/// The double 1000000.0.
pub const MILLION: u64 = 0x412e_8480_0000_0000;

/// The place of the pulse from the first `count` that is nearest, with its
/// distance: the first of the nearest ones that are in range.
pub open spec fn nearest(distances: Seq<u64>, range: u64, count: nat) -> (Option<int>, u64)
    decreases count,
{
    if count == 0 {
        (None, MILLION)
    } else {
        let (best, least) = nearest(distances, range, (count - 1) as nat);
        let here = distances[count - 1];
        if ieee::lt_double(here, range) && ieee::lt_double(here, least) {
            (Some(count - 1), here)
        } else {
            (best, least)
        }
    }
}

/// The place of the nearest pulse that is in range.
pub fn nearest_pulse(distances: &Vec<u64>, range: u64) -> (found: Option<usize>)
    ensures
        match found {
            Some(index) => index < distances@.len() && nearest(
                distances@,
                range,
                distances@.len(),
            ).0 == Some(index as int),
            None => nearest(distances@, range, distances@.len()).0 is None,
        },
{
    let mut best: Option<usize> = None;
    let mut least: u64 = MILLION;
    let mut index: usize = 0;
    while index < distances.len()
        invariant
            index <= distances@.len(),
            nearest(distances@, range, index as nat).1 == least,
            match best {
                Some(found) => found < index && nearest(distances@, range, index as nat).0 == Some(
                    found as int,
                ),
                None => nearest(distances@, range, index as nat).0 is None,
            },
        decreases distances@.len() - index,
    {
        let here: u64 = distances[index];
        if less_double(here, range) && less_double(here, least) {
            best = Some(index);
            least = here;
        }
        index = index + 1;
    }
    best
}

/// Whether a settled start is missing or late.
pub open spec fn still_open(found: Line0Found, late: RealBound, limit: u64) -> bool {
    match found.place {
        Some(Line0Place::Pulse { start }) => start > late.floor,
        Some(Line0Place::Reckoned { value }) => ieee::lt_double(limit, value),
        Some(Line0Place::ThreeLinesBefore { .. }) => false,
        None => true,
    }
}

/// A start with the kind that alternation asks for.
pub open spec fn as_expected(
    found: Line0Found,
    place: Line0Place,
    first_field: Option<i64>,
    confidence: i64,
) -> Line0Found {
    match first_field {
        Some(first_field) => Line0Found { place: Some(place), first_field, confidence },
        None => Line0Found { place: Some(place), ..found },
    }
}

/// A start that is missing or late, replaced by the pulse nearest to where the
/// field before lets it be expected, or, where relaxed, by that place itself.
pub open spec fn with_expectation(
    found: Line0Found,
    pulses: Seq<PulseSample>,
    late: RealBound,
    expected: Option<Expectation>,
    relaxed: bool,
) -> Line0Found {
    match expected {
        None => found,
        Some(expected) => {
            let best = nearest(expected.distances@, expected.range, expected.distances@.len()).0;
            if !still_open(found, late, expected.limit) || !ieee::lt_double(
                expected.line0,
                expected.limit,
            ) || !ieee::lt_double(expected.earliest, expected.line0) {
                found
            } else if best is Some {
                as_expected(
                    found,
                    Line0Place::Pulse { start: pulses[best->0].start },
                    expected.first_field,
                    50,
                )
            } else if relaxed && ieee::lt_double(0, expected.line0) {
                as_expected(
                    found,
                    Line0Place::Reckoned { value: expected.line0 },
                    expected.first_field,
                    40,
                )
            } else {
                found
            }
        },
    }
}

fn take_expected(
    found: Line0Found,
    place: Line0Place,
    first_field: Option<i64>,
    confidence: i64,
) -> (result: Line0Found)
    ensures
        result == as_expected(found, place, first_field, confidence),
{
    match first_field {
        Some(first_field) => Line0Found { place: Some(place), first_field, confidence },
        None => Line0Found { place: Some(place), ..found },
    }
}

/// Replaces a start that is missing or late by one that the field before lets
/// expect.
pub fn apply_expectation(
    found: Line0Found,
    pulses: &Vec<PulseSample>,
    late: RealBound,
    expected: &Option<Expectation>,
    relaxed: bool,
) -> (result: Line0Found)
    requires
        *expected is Some ==> (*expected)->0.distances@.len() == pulses@.len(),
    ensures
        result == with_expectation(found, pulses@, late, *expected, relaxed),
{
    match expected {
        None => found,
        Some(expected) => {
            let open: bool = match found.place {
                Some(Line0Place::Pulse { start }) => start > late.floor,
                Some(Line0Place::Reckoned { value }) => less_double(expected.limit, value),
                Some(Line0Place::ThreeLinesBefore { .. }) => false,
                None => true,
            };
            if !open || !less_double(expected.line0, expected.limit) || !less_double(
                expected.earliest,
                expected.line0,
            ) {
                return found;
            }
            match nearest_pulse(&expected.distances, expected.range) {
                Some(index) => take_expected(
                    found,
                    Line0Place::Pulse { start: pulses[index].start },
                    expected.first_field,
                    50,
                ),
                None => {
                    if relaxed && less_double(0, expected.line0) {
                        take_expected(
                            found,
                            Line0Place::Reckoned { value: expected.line0 },
                            expected.first_field,
                            40,
                        )
                    } else {
                        found
                    }
                },
            }
        },
    }
}

/// The first pulse from `index` on with a length in the range.
pub open spec fn first_long(raw: Seq<PulseSample>, range: SampleRange, index: int) -> Option<i64>
    decreases raw.len() - index,
{
    if index >= raw.len() {
        None
    } else if range.has(raw[index].len as int) {
        Some(raw[index].start)
    } else {
        first_long(raw, range, index + 1)
    }
}

/// The last horizontal sync before the first pulse that starts after `place`.
pub open spec fn last_hsync_before(
    types: Seq<PulseType>,
    starts: Seq<i64>,
    place: i64,
    index: int,
    found: Option<i64>,
) -> Option<i64>
    decreases starts.len() - index,
{
    if index >= starts.len() || starts[index] > place {
        found
    } else {
        last_hsync_before(
            types,
            starts,
            place,
            index + 1,
            if types[index] == PulseType::Hsync {
                Some(starts[index])
            } else {
                found
            },
        )
    }
}

/// The last resort: the last horizontal sync before the first long pulse, or
/// three lines before that pulse.
pub open spec fn last_resort_of(
    raw: Seq<PulseSample>,
    range: SampleRange,
    types: Seq<PulseType>,
    starts: Seq<i64>,
) -> Option<Line0Place> {
    match first_long(raw, range, 0) {
        None => None,
        Some(long) => match last_hsync_before(types, starts, long, 0, None) {
            Some(start) => Some(Line0Place::Pulse { start }),
            None => Some(Line0Place::ThreeLinesBefore { start: long }),
        },
    }
}

/// The last resort: the last horizontal sync before the first long pulse, or
/// three lines before that pulse.
pub fn last_resort(
    raw: &[PulseSample],
    range: SampleRange,
    types: &[PulseType],
    starts: &[i64],
) -> (place: Option<Line0Place>)
    requires
        types@.len() == starts@.len(),
    ensures
        place == last_resort_of(raw@, range, types@, starts@),
{
    let mut long: Option<i64> = None;
    let mut index: usize = 0;
    while index < raw.len() && long.is_none()
        invariant
            index <= raw@.len(),
            first_long(raw@, range, 0) == (match long {
                Some(start) => Some(start),
                None => first_long(raw@, range, index as int),
            }),
        decreases raw@.len() - index,
    {
        if range.contains(raw[index].len) {
            long = Some(raw[index].start);
        }
        index = index + 1;
    }
    let place: i64 = match long {
        Some(start) => start,
        None => return None,
    };
    let mut found: Option<i64> = None;
    let mut at: usize = 0;
    while at < starts.len() && starts[at] <= place
        invariant
            at <= starts@.len() == types@.len(),
            last_hsync_before(types@, starts@, place, 0, None) == last_hsync_before(
                types@,
                starts@,
                place,
                at as int,
                found,
            ),
        decreases starts@.len() - at,
    {
        if types[at] == PulseType::Hsync {
            found = Some(starts[at]);
        }
        at = at + 1;
    }
    match found {
        Some(start) => Some(Line0Place::Pulse { start }),
        None => Some(Line0Place::ThreeLinesBefore { start: place }),
    }
}

/// What remains of a search: a settled start, or else the last resort, of which
/// nothing is known but the place.
pub open spec fn concluded(found: Line0Found, resort: Option<Line0Place>) -> Line0Found {
    if found.place is Some {
        found
    } else {
        Line0Found { place: resort, first_field: NO_FIELD, confidence: NO_FIELD }
    }
}

/// Takes a settled start, or else the last resort.
pub fn conclude(found: Line0Found, resort: Option<Line0Place>) -> (result: Line0Found)
    ensures
        result == concluded(found, resort),
{
    if found.place.is_some() {
        found
    } else {
        Line0Found { place: resort, first_field: NO_FIELD, confidence: NO_FIELD }
    }
}

} // verus!
