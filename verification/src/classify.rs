//! The sync pulses of a field: which of them are horizontal syncs, which belong
//! to a blanking interval, and how long its lines are.
use vstd::prelude::*;

use crate::field_order::{InterFieldState, MINUS_ONE, NOT_KNOWN};
use crate::pulses;
use crate::pulses::{findpulses_raw, SampleRange};
use crate::slices;
use crate::slices::demod_checked_slice;
use crate::vblank;
use crate::vblank::{
    run_vblank_state_machine, PulseRanges, PulseSample, PulseTrain, PulseType, QualityRanges,
    RealBound, ValidPulses,
};

verus! {

/// Why the pulses of a field cannot be classified.
#[derive(Clone, Copy, Debug, PartialEq, Eq, Structural)]
pub enum ClassifyError {
    /// There are not as many lengths as starts.
    UnequalLists,
    /// A long pulse lies outside the signal.
    EmptyWindow,
}

impl ClassifyError {
    /// The message of an error.
    pub open spec fn text(self) -> Seq<char> {
        match self {
            ClassifyError::UnequalLists => "raw pulse starts and lengths must have equal length"@,
            ClassifyError::EmptyWindow => "long-pulse correction slice is empty"@,
        }
    }

    /// The message of an error.
    pub fn message(self) -> (text: String)
        ensures
            text@ == self.text(),
    {
        match self {
            ClassifyError::UnequalLists => "raw pulse starts and lengths must have equal length".to_owned(),
            ClassifyError::EmptyWindow => "long-pulse correction slice is empty".to_owned(),
        }
    }
}

/// The pulses of a signal, how many of them have been looked at, and those that
/// were taken.
#[verifier::ext_equal]
pub struct Classified {
    pub raw: Seq<PulseSample>,
    pub index: nat,
    pub valid: PulseTrain,
}

/// What the classification waits for.
#[derive(Clone, Copy, Debug, PartialEq, Eq, Structural)]
pub enum Request {
    /// Nothing: all pulses have been looked at.
    Finished,
    /// The level at which a pulse that is too long is looked at again; `first`
    /// is the signal where it begins, a single.
    Level { first: u32 },
    /// Where the sections would end that open with the pulses from `from` up to
    /// `to`.
    Sections { from: usize, to: usize },
}

impl Classified {
    /// The pulse to be looked at.
    pub open spec fn current(self) -> PulseSample {
        self.raw[self.index as int]
    }

    /// Whether that pulse is a horizontal sync.
    pub open spec fn at_hsync(self, ranges: PulseRanges) -> bool {
        ranges.hsync.has(self.current().len as int)
    }

    /// Whether it is too long for one.
    pub open spec fn at_long(self, ranges: PulseRanges) -> bool {
        !self.at_hsync(ranges) && ranges.long_hsync.has(self.current().len as int)
    }

    /// Whether a blanking interval begins with it.
    pub open spec fn at_blanking(self, ranges: PulseRanges) -> bool {
        &&& !self.at_hsync(ranges)
        &&& !self.at_long(ranges)
        &&& self.index > 2
        &&& ranges.eq.has(self.current().len as int)
        &&& vblank::last_type(self.valid) == Some(PulseType::Hsync)
    }

    /// The first pulse from here on that is neither a horizontal sync nor passed
    /// over.
    pub open spec fn advanced(self, ranges: PulseRanges, quality: QualityRanges) -> Classified
        decreases self.raw.len() - self.index,
    {
        if self.index >= self.raw.len() {
            self
        } else if self.at_hsync(ranges) {
            Classified {
                index: self.index + 1,
                valid: self.valid.with(PulseType::Hsync, self.current().start, quality),
                ..self
            }.advanced(ranges, quality)
        } else if self.at_long(ranges) || self.at_blanking(ranges) {
            self
        } else {
            Classified { index: self.index + 1, ..self }.advanced(ranges, quality)
        }
    }

    /// The signal under the current pulse.
    pub open spec fn window(self, demod: Seq<u32>) -> Option<Seq<u32>> {
        slices::pulse_window(demod, self.current().start as int, self.current().len as int)
    }

    /// What is waited for at a pulse.
    pub open spec fn wanted(self, demod: Seq<u32>, ranges: PulseRanges) -> Result<
        Request,
        ClassifyError,
    > {
        if self.index >= self.raw.len() {
            Ok(Request::Finished)
        } else if self.at_long(ranges) {
            match self.window(demod) {
                Some(window) => Ok(Request::Level { first: window[0] }),
                None => Err(ClassifyError::EmptyWindow),
            }
        } else {
            Ok(Request::Sections { from: (self.index - 2) as usize, to: self.section_stop() as usize })
        }
    }

    /// Where the pulses end that can belong to a blanking interval.
    pub open spec fn section_stop(self) -> int {
        if self.index + 24 < self.raw.len() {
            (self.index + 24) as int
        } else {
            self.raw.len() as int
        }
    }

    /// A long pulse looked at again: what falls below the level inside it takes
    /// its place; otherwise it is passed over.
    pub open spec fn corrected(
        self,
        demod: Seq<u32>,
        level: u32,
        lengths_ok: SampleRange,
    ) -> Classified {
        let window = self.window(demod)->0;
        let starts = pulses::pulse_starts(window, level, lengths_ok);
        let lengths = pulses::pulse_lengths(window, level, lengths_ok);
        if starts.len() > 0 {
            Classified {
                raw: self.raw.update(
                    self.index as int,
                    PulseSample {
                        start: (self.current().start + starts[0]) as i64,
                        len: lengths[0],
                    },
                ),
                ..self
            }
        } else {
            Classified { index: self.index + 1, ..self }
        }
    }

    /// A blanking interval followed to its end: its pulses are taken; otherwise
    /// the current one is passed over.
    pub open spec fn followed(
        self,
        ends: Seq<RealBound>,
        ranges: PulseRanges,
        quality: QualityRanges,
    ) -> Classified {
        let around = self.raw.subrange(self.index - 2, self.section_stop());
        let run = vblank::vblank_run(around, ends, ranges, quality, around.len());
        let count = run.train.types.len();
        if run.done {
            Classified {
                raw: self.raw,
                index: (self.index + count - 2) as nat,
                valid: PulseTrain {
                    types: self.valid.types + run.train.types.subrange(2, count as int),
                    starts: self.valid.starts + run.train.starts.subrange(2, count as int),
                    good: self.valid.good + run.train.good.subrange(2, count as int),
                },
            }
        } else {
            Classified { index: self.index + 1, ..self }
        }
    }
}

/// The pulses of a field while they are classified.
pub struct Classifier {
    raw: Vec<PulseSample>,
    index: usize,
    valid: ValidPulses,
}

impl View for Classifier {
    type V = Classified;

    closed spec fn view(&self) -> Classified {
        Classified { raw: self.raw@, index: self.index as nat, valid: self.valid@ }
    }
}

/// The kinds that a blanking interval takes at least before a pulse of a kind.
proof fn lemma_train(
    around: Seq<PulseSample>,
    ends: Seq<RealBound>,
    ranges: PulseRanges,
    quality: QualityRanges,
    count: nat,
)
    requires
        count <= around.len(),
    ensures
        ({
            let run = vblank::vblank_run(around, ends, ranges, quality, count);
            &&& run.train.wf()
            &&& run.train.types.len() <= count
            &&& vblank::last_type(run.train) == Some(PulseType::Eqpl1) ==> run.train.types.len()
                >= 2
            &&& vblank::last_type(run.train) == Some(PulseType::Vsync) ==> run.train.types.len()
                >= 2
            &&& vblank::last_type(run.train) == Some(PulseType::Eqpl2) ==> run.train.types.len()
                >= 3
            &&& run.done ==> run.train.types.len() >= 3
        }),
    decreases count,
{
    if count > 0 {
        lemma_train(around, ends, ranges, quality, (count - 1) as nat);
    }
}

/// A pulse that is found inside another begins after it and is shorter.
pub proof fn law_correction_shortens(
    state: Classified,
    demod: Seq<u32>,
    level: u32,
    lengths_ok: SampleRange,
)
    requires
        state.index < state.raw.len(),
        demod.len() <= i64::MAX,
        state.window(demod) is Some,
        state.corrected(demod, level, lengths_ok).index == state.index,
    ensures
        state.corrected(demod, level, lengths_ok).current().start > state.current().start,
        0 < state.corrected(demod, level, lengths_ok).current().len < state.current().len,
{
    let window = state.window(demod)->0;
    pulses::law_pulses(window, level, lengths_ok);
}

impl Classifier {
    /// The pulses with these starts and lengths, none looked at.
    pub fn new(starts: &[i64], lengths: &[i64]) -> (result: Result<Classifier, ClassifyError>)
        ensures
            match result {
                Ok(classifier) => starts@.len() == lengths@.len() && classifier@ == (Classified {
                    raw: Seq::new(
                        starts@.len(),
                        |i: int| PulseSample { start: starts@[i], len: lengths@[i] },
                    ),
                    index: 0,
                    valid: PulseTrain::empty(),
                }),
                Err(error) => starts@.len() != lengths@.len() && error
                    == ClassifyError::UnequalLists,
            },
    {
        if starts.len() != lengths.len() {
            return Err(ClassifyError::UnequalLists);
        }
        let mut raw: Vec<PulseSample> = Vec::with_capacity(starts.len());
        let mut index: usize = 0;
        while index < starts.len()
            invariant
                index == raw@.len() <= starts@.len() == lengths@.len(),
                forall|i: int|
                    0 <= i < index ==> #[trigger] raw@[i] == (PulseSample {
                        start: starts@[i],
                        len: lengths@[i],
                    }),
            decreases starts@.len() - index,
        {
            raw.push(PulseSample { start: starts[index], len: lengths[index] });
            index = index + 1;
        }
        let classifier = Classifier { raw, index: 0, valid: ValidPulses::new() };
        proof {
            assert(classifier@.raw =~= Seq::new(
                starts@.len(),
                |i: int| PulseSample { start: starts@[i], len: lengths@[i] },
            ));
        }
        Ok(classifier)
    }

    /// The pulses as they stand.
    pub fn raw_pulses(&self) -> (pulses: &Vec<PulseSample>)
        ensures
            pulses@ == self@.raw,
    {
        &self.raw
    }

    /// The pulses that were taken.
    pub fn into_valid(self) -> (valid: ValidPulses)
        ensures
            valid@ == self@.valid,
    {
        self.valid
    }

    /// Takes the horizontal syncs up to the first pulse that needs a closer
    /// look, and tells what that look needs.
    pub fn advance(
        &mut self,
        demod: &[u32],
        ranges: &PulseRanges,
        quality: &QualityRanges,
    ) -> (request: Result<Request, ClassifyError>)
        requires
            old(self)@.valid.wf(),
        ensures
            final(self)@ == old(self)@.advanced(*ranges, *quality),
            request == final(self)@.wanted(demod@, *ranges),
            final(self)@.valid.wf(),
            final(self)@.raw == old(self)@.raw,
            request matches Ok(Request::Sections { from, to }) ==> final(self)@.at_blanking(*ranges)
                && from == final(self)@.index - 2 && from < to <= final(self)@.raw.len(),
            request matches Ok(Request::Level { first }) ==> final(self)@.index
                < final(self)@.raw.len() && final(self)@.window(demod@) is Some,
    {
        let total: usize = self.raw.len();
        let ghost goal = self@.advanced(*ranges, *quality);
        while self.index < total
            invariant
                total == self.raw@.len(),
                self.raw@ == old(self)@.raw,
                self@.valid.wf(),
                goal == self@.advanced(*ranges, *quality),
                goal == old(self)@.advanced(*ranges, *quality),
            decreases total - self.index,
        {
            let pulse: PulseSample = self.raw[self.index];
            if ranges.hsync.contains(pulse.len) {
                let ghost before = self@;
                self.valid.push(PulseType::Hsync, pulse.start, quality);
                self.index = self.index + 1;
                proof {
                    assert(self@ =~= Classified {
                        index: before.index + 1,
                        valid: before.valid.with(PulseType::Hsync, pulse.start, *quality),
                        ..before
                    });
                }
                continue ;
            }
            if ranges.long_hsync.contains(pulse.len) {
                let window = demod_checked_slice(demod, pulse.start, pulse.len);
                return match window {
                    Some(window) => Ok(Request::Level { first: window[0] }),
                    None => Err(ClassifyError::EmptyWindow),
                };
            }
            let taken: usize = self.valid.types.len();
            if self.index > 2 && ranges.eq.contains(pulse.len) && taken > 0
                && self.valid.types[taken - 1] == PulseType::Hsync {
                let to: usize = if total - self.index > 24 {
                    self.index + 24
                } else {
                    total
                };
                return Ok(Request::Sections { from: self.index - 2, to });
            }
            let ghost before = self@;
            self.index = self.index + 1;
            proof {
                assert(self@ =~= Classified { index: before.index + 1, ..before });
            }
        }
        Ok(Request::Finished)
    }

    /// Looks at a long pulse again, at the level asked for.
    pub fn correct(
        &mut self,
        demod: &[u32],
        level: u32,
        lengths_ok: SampleRange,
    ) -> (result: Result<(), ClassifyError>)
        requires
            old(self)@.index < old(self)@.raw.len(),
            demod@.len() <= i64::MAX,
        ensures
            match result {
                Ok(()) => old(self)@.window(demod@) is Some && final(self)@
                    == old(self)@.corrected(demod@, level, lengths_ok),
                Err(error) => old(self)@.window(demod@) is None && error
                    == ClassifyError::EmptyWindow && final(self)@ == old(self)@,
            },
    {
        let total: usize = self.raw.len();
        assert(self.index < total);
        let pulse: PulseSample = self.raw[self.index];
        let window: &[u32] = match demod_checked_slice(demod, pulse.start, pulse.len) {
            Some(window) => window,
            None => return Err(ClassifyError::EmptyWindow),
        };
        let (starts, lengths) = findpulses_raw(window, level, lengths_ok);
        if starts.len() > 0 {
            let start: i64 = pulse.start + starts[0];
            self.raw.set(self.index, PulseSample { start, len: lengths[0] });
        } else {
            self.index = self.index + 1;
        }
        proof {
            assert(self@ =~= old(self)@.corrected(demod@, level, lengths_ok));
        }
        Ok(())
    }

    /// Follows a blanking interval, with the section ends asked for.
    pub fn follow(&mut self, ends: &[RealBound], ranges: &PulseRanges, quality: &QualityRanges)
        requires
            old(self)@.valid.wf(),
            2 < old(self)@.index < old(self)@.raw.len(),
            ends@.len() == old(self)@.section_stop() - old(self)@.index + 2,
        ensures
            final(self)@ == old(self)@.followed(ends@, *ranges, *quality),
            final(self)@.valid.wf(),
            old(self)@.index < final(self)@.index <= final(self)@.raw.len(),
            final(self)@.raw == old(self)@.raw,
            final(self)@.valid.types.len() > old(self)@.valid.types.len() ==> final(self)@.index
                - old(self)@.index == final(self)@.valid.types.len()
                - old(self)@.valid.types.len(),
            final(self)@.valid.types.len() <= old(self)@.valid.types.len() ==> final(self)@.valid
                == old(self)@.valid && final(self)@.index == old(self)@.index + 1,
    {
        let total: usize = self.raw.len();
        let from: usize = self.index - 2;
        let to: usize = if total - self.index > 24 {
            self.index + 24
        } else {
            total
        };
        let around: &[PulseSample] = vstd::slice::slice_subrange(self.raw.as_slice(), from, to);
        let (done, train) = run_vblank_state_machine(around, ends, ranges, quality);
        proof {
            lemma_train(around@, ends@, *ranges, *quality, around@.len());
        }
        if done {
            let count: usize = train.types.len();
            let ghost before = self@.valid;
            let mut next: usize = 2;
            while next < count
                invariant
                    2 <= next <= count,
                    train@.wf(),
                    count == train@.types.len(),
                    self.raw@ == old(self)@.raw,
                    self.index == old(self)@.index,
                    before.wf(),
                    self@.valid.types == before.types + train@.types.subrange(2, next as int),
                    self@.valid.starts == before.starts + train@.starts.subrange(2, next as int),
                    self@.valid.good == before.good + train@.good.subrange(2, next as int),
                decreases count - next,
            {
                self.valid.types.push(train.types[next]);
                self.valid.starts.push(train.starts[next]);
                self.valid.good.push(train.good[next]);
                next = next + 1;
                proof {
                    assert(self@.valid.types =~= before.types + train@.types.subrange(
                        2,
                        next as int,
                    ));
                    assert(self@.valid.starts =~= before.starts + train@.starts.subrange(
                        2,
                        next as int,
                    ));
                    assert(self@.valid.good =~= before.good + train@.good.subrange(2, next as int));
                }
            }
            self.index = self.index + (count - 2);
        } else {
            self.index = self.index + 1;
        }
        proof {
            assert(self@ =~= old(self)@.followed(ends@, *ranges, *quality));
        }
    }
}

/// The lengths of the pulses that can be horizontal syncs.
pub open spec fn plausible_lengths(pulses: Seq<PulseSample>, range: SampleRange) -> Seq<i64>
    decreases pulses.len(),
{
    if pulses.len() == 0 {
        Seq::empty()
    } else {
        let before = plausible_lengths(pulses.drop_last(), range);
        if range.has(pulses.last().len as int) {
            before.push(pulses.last().len)
        } else {
            before
        }
    }
}

/// The lengths of the pulses that can be horizontal syncs, in their order.
pub fn hsync_lengths(pulses: &[PulseSample], range: SampleRange) -> (lengths: Vec<i64>)
    ensures
        lengths@ == plausible_lengths(pulses@, range),
{
    let mut lengths: Vec<i64> = Vec::new();
    let mut index: usize = 0;
    while index < pulses.len()
        invariant
            index <= pulses@.len(),
            lengths@ == plausible_lengths(pulses@.take(index as int), range),
        decreases pulses@.len() - index,
    {
        proof {
            let next = pulses@.take(index + 1);
            assert(next.drop_last() =~= pulses@.take(index as int));
            assert(next.last() == pulses@[index as int]);
        }
        let len: i64 = pulses[index].len;
        if range.contains(len) {
            lengths.push(len);
        }
        index = index + 1;
    }
    proof {
        assert(pulses@.take(index as int) =~= pulses@);
    }
    lengths
}

/// Whether `count` horizontal syncs follow each other from `start` on, with none
/// before them and none after.
pub open spec fn is_run(types: Seq<PulseType>, start: int, count: int) -> bool {
    &&& 0 <= start < start + count <= types.len()
    &&& forall|i: int| start <= i < start + count ==> #[trigger] types[i] == PulseType::Hsync
    &&& start == 0 || types[start - 1] != PulseType::Hsync
    &&& start + count == types.len() || types[start + count] != PulseType::Hsync
}

/// The first of the longest runs of horizontal syncs: where it starts and how
/// many they are.
pub fn longest_hsync_run(types: &[PulseType]) -> (found: Option<(usize, usize)>)
    ensures
        match found {
            Some((start, count)) => is_run(types@, start as int, count as int) && forall|
                other: int,
                size: int,
            |
                #[trigger] is_run(types@, other, size) ==> size < count || (size == count && start
                    <= other),
            None => forall|i: int|
                0 <= i < types@.len() ==> #[trigger] types@[i] != PulseType::Hsync,
        },
{
    let total: usize = types.len();
    let mut best: Option<(usize, usize)> = None;
    let mut at: usize = 0;
    while at < total
        invariant
            at <= total == types@.len(),
            at == 0 || at == total || types@[at as int] != PulseType::Hsync || types@[at - 1]
                != PulseType::Hsync,
            match best {
                Some((start, count)) => is_run(types@, start as int, count as int) && start + count
                    <= at && forall|other: int, size: int|
                    #[trigger] is_run(types@, other, size) && other < at ==> size < count || (size
                        == count && start <= other),
                None => forall|i: int| 0 <= i < at ==> #[trigger] types@[i] != PulseType::Hsync,
            },
        decreases total - at,
    {
        if types[at] != PulseType::Hsync {
            proof {
                assert forall|other: int, size: int|
                    #[trigger] is_run(types@, other, size) && other < at + 1 implies other < at by {
                    assert(types@[other] == PulseType::Hsync);
                }
            }
            at = at + 1;
            continue ;
        }
        let start: usize = at;
        while at < total && types[at] == PulseType::Hsync
            invariant
                start <= at <= total == types@.len(),
                forall|i: int| start <= i < at ==> #[trigger] types@[i] == PulseType::Hsync,
            decreases total - at,
        {
            at = at + 1;
        }
        let count: usize = at - start;
        let longer: bool = match best {
            Some((_, most)) => count > most,
            None => true,
        };
        proof {
            assert(is_run(types@, start as int, count as int));
            assert forall|other: int, size: int|
                #[trigger] is_run(types@, other, size) && other < start implies best is Some by {
                assert(types@[other] == PulseType::Hsync);
            }
            assert forall|other: int, size: int|
                #[trigger] is_run(types@, other, size) && start <= other < at implies other == start
                && size == count by {
                if other > start {
                    assert(types@[other - 1] == PulseType::Hsync);
                }
                if size < count {
                    assert(types@[start + size] == PulseType::Hsync);
                }
                if size > count {
                    assert(types@[start + count] == PulseType::Hsync);
                }
            }
        }
        if longer {
            best = Some((start, count));
        }
    }
    best
}

/// The lengths of the lines of a run, but for its last, that are in the range.
pub open spec fn sound_lines(starts: Seq<i64>, range: SampleRange, from: int, to: int) -> Seq<i64>
    decreases to - from,
{
    if from >= to {
        Seq::empty()
    } else {
        let before = sound_lines(starts, range, from, to - 1);
        let length = starts[to - 1] - starts[to - 2];
        if range.has(length) {
            before.push(length as i64)
        } else {
            before
        }
    }
}

/// The lengths of the lines of a run of horizontal syncs, but for its last, as
/// far as they are in the range.
pub fn run_line_lengths(starts: &[i64], run: Option<(usize, usize)>, range: SampleRange) -> (lengths:
    Vec<i64>)
    requires
        run matches Some((start, count)) ==> 0 < count && start + count <= starts@.len(),
    ensures
        lengths@ == match run {
            Some((start, count)) => sound_lines(starts@, range, start + 1, start + count - 1),
            None => Seq::empty(),
        },
{
    let mut lengths: Vec<i64> = Vec::new();
    let (start, count) = match run {
        Some(run) => run,
        None => return lengths,
    };
    let total: usize = starts.len();
    assert(start + count <= total);
    let to: usize = start + count - 1;
    let mut index: usize = start + 1;
    while index < to
        invariant
            start < index,
            to < starts@.len(),
            to == start + count - 1,
            index <= to || index == start + 1,
            lengths@ == sound_lines(starts@, range, start + 1, index as int),
        decreases to - index,
    {
        let length: i128 = starts[index] as i128 - starts[index - 1] as i128;
        if range.min as i128 <= length && length <= range.max as i128 {
            lengths.push(length as i64);
        }
        index = index + 1;
    }
    lengths
}

/// Whether a field without pulses is given up.
pub fn gives_up(pulse_count: usize, state: &InterFieldState, fallback_vsync: bool) -> (given_up: bool)
    ensures
        given_up == (pulse_count == 0 && (state.prev_first_hsync_loc == MINUS_ONE
            || fallback_vsync)),
{
    pulse_count == 0 && (state.prev_first_hsync_loc == MINUS_ONE || fallback_vsync)
}

/// Which field is expected: the other one, where the one before is known.
pub fn expected_first_field(state: &InterFieldState) -> (expected: Option<i64>)
    requires
        -1 <= state.prev_first_field <= 1,
    ensures
        expected == if state.prev_first_hsync_readloc != NOT_KNOWN && state.prev_first_field
            != NOT_KNOWN {
            Some((1 - state.prev_first_field) as i64)
        } else {
            None
        },
{
    if state.prev_first_hsync_readloc != NOT_KNOWN && state.prev_first_field != NOT_KNOWN {
        Some(1 - state.prev_first_field)
    } else {
        None
    }
}

} // verus!
