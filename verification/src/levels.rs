//! Sync and blanking levels: how they are remembered, and when measured ones are
//! taken. A level is a single.
use vstd::prelude::*;

use crate::ieee;
use crate::ieee::{is_nan_single, less_single};
use crate::pulses::SampleRange;

verus! {

/// The last values of a list.
pub open spec fn last_values<T>(values: Seq<T>, window: int) -> Seq<T> {
    if values.len() > window {
        values.subrange(values.len() - window, values.len() as int)
    } else {
        values
    }
}

/// Values of which the last few are averaged.
pub struct StackableMa<T> {
    window_average: usize,
    min_watermark: usize,
    stack: Vec<T>,
}

impl<T: Copy> StackableMa<T> {
    /// The values that are held.
    pub closed spec fn values(self) -> Seq<T> {
        self.stack@
    }

    /// How many values are averaged.
    pub closed spec fn window(self) -> nat {
        self.window_average as nat
    }

    /// How many values are too few.
    pub closed spec fn watermark(self) -> nat {
        self.min_watermark as nat
    }

    /// No values.
    pub fn new(min_watermark: usize, window_average: usize) -> (average: StackableMa<T>)
        ensures
            average.values() == Seq::<T>::empty(),
            average.window() == window_average,
            average.watermark() == min_watermark,
    {
        StackableMa { window_average, min_watermark, stack: Vec::new() }
    }

    /// Adds a value.
    pub fn push(&mut self, value: T)
        ensures
            final(self).values() == old(self).values().push(value),
            final(self).window() == old(self).window(),
            final(self).watermark() == old(self).watermark(),
    {
        self.stack.push(value);
    }

    /// Forgets all but the last values and hands those out.
    pub fn pull(&mut self) -> (window: Vec<T>)
        ensures
            final(self).values() == last_values(
                old(self).values(),
                old(self).window() as int,
            ),
            window@ == final(self).values(),
            final(self).window() == old(self).window(),
            final(self).watermark() == old(self).watermark(),
    {
        let count: usize = self.stack.len();
        let from: usize = if count > self.window_average {
            count - self.window_average
        } else {
            0
        };
        let mut kept: Vec<T> = Vec::new();
        let mut window: Vec<T> = Vec::new();
        let mut index: usize = from;
        while index < count
            invariant
                from <= index <= count == self.stack@.len(),
                kept@ == self.stack@.subrange(from as int, index as int),
                window@ == kept@,
            decreases count - index,
        {
            kept.push(self.stack[index]);
            window.push(self.stack[index]);
            index = index + 1;
            proof {
                assert(kept@ =~= self.stack@.subrange(from as int, index as int));
                assert(window@ =~= kept@);
            }
        }
        proof {
            assert(kept@ =~= last_values(self.stack@, self.window_average as int));
        }
        self.stack = kept;
        window
    }

    /// Whether there are enough values.
    pub fn has_values(&self) -> (enough: bool)
        ensures
            enough == (self.values().len() > self.watermark()),
    {
        self.stack.len() > self.min_watermark
    }

    /// How many values are held.
    pub fn size(&self) -> (count: usize)
        ensures
            count == self.values().len(),
    {
        self.stack.len()
    }
}

/// Pulling again changes nothing.
pub proof fn law_pull_again<T>(values: Seq<T>, window: int)
    requires
        0 <= window,
    ensures
        last_values(last_values(values, window), window) == last_values(values, window),
        last_values(values, window).len() <= window,
{
    assert(last_values(last_values(values, window), window) =~= last_values(values, window));
}

/// A pair of levels, or what they are averaged from.
pub struct LevelPair {
    pub sync: Vec<u32>,
    pub blank: Vec<u32>,
}

/// Levels that were measured in the pulses of a blanking interval.
pub struct VsyncSerrationState {
    levels_sync: StackableMa<u32>,
    levels_blank: StackableMa<u32>,
    sync_level_bias: u32,
    found_serration: bool,
}

/// What is known of the levels.
#[verifier::ext_equal]
pub struct LevelMemory {
    pub sync: Seq<u32>,
    pub blank: Seq<u32>,
}

impl LevelMemory {
    /// Nothing.
    pub open spec fn empty() -> LevelMemory {
        LevelMemory { sync: Seq::empty(), blank: Seq::empty() }
    }

    /// One more pair.
    pub open spec fn with(self, sync: u32, blank: u32) -> LevelMemory {
        LevelMemory { sync: self.sync.push(sync), blank: self.blank.push(blank) }
    }

    /// The last pairs.
    pub open spec fn latest(self, depth: int) -> LevelMemory {
        LevelMemory {
            sync: last_values(self.sync, depth),
            blank: last_values(self.blank, depth),
        }
    }

    /// Whether more than `few` of both are known.
    pub open spec fn more_than(self, few: int) -> bool {
        self.sync.len() > few && self.blank.len() > few
    }
}

/// How many measured pairs are averaged.
pub const SERRATION_DEPTH: usize = 2;

/// How many measured pairs are too few.
pub const SERRATION_WATERMARK: usize = 1;

impl VsyncSerrationState {
    pub closed spec fn memory(self) -> LevelMemory {
        LevelMemory { sync: self.levels_sync.values(), blank: self.levels_blank.values() }
    }

    /// The lowest level of the last field.
    pub closed spec fn bias(self) -> u32 {
        self.sync_level_bias
    }

    /// Whether the last field had a blanking interval to measure.
    pub closed spec fn found(self) -> bool {
        self.found_serration
    }

    pub closed spec fn wf(self) -> bool {
        &&& self.levels_sync.window() == SERRATION_DEPTH
        &&& self.levels_blank.window() == SERRATION_DEPTH
        &&& self.levels_sync.watermark() == SERRATION_WATERMARK
        &&& self.levels_blank.watermark() == SERRATION_WATERMARK
    }

    /// Nothing measured.
    pub fn new() -> (state: VsyncSerrationState)
        ensures
            state.wf(),
            state.memory() == LevelMemory::empty(),
            state.bias() == crate::search::NOT_A_NUMBER,
            !state.found(),
    {
        VsyncSerrationState {
            levels_sync: StackableMa::new(SERRATION_WATERMARK, SERRATION_DEPTH),
            levels_blank: StackableMa::new(SERRATION_WATERMARK, SERRATION_DEPTH),
            sync_level_bias: crate::search::NOT_A_NUMBER,
            found_serration: false,
        }
    }

    /// Adds a pair.
    pub fn push_levels_internal(&mut self, sync: u32, blank: u32)
        requires
            old(self).wf(),
        ensures
            final(self).wf(),
            final(self).memory() == old(self).memory().with(sync, blank),
            final(self).bias() == old(self).bias(),
            final(self).found() == old(self).found(),
    {
        self.levels_sync.push(sync);
        self.levels_blank.push(blank);
    }

    /// Begins with a field whose lowest level is `bias`.
    pub fn begin_pass(&mut self, bias: u32)
        requires
            old(self).wf(),
        ensures
            final(self).wf(),
            final(self).memory() == old(self).memory(),
            final(self).bias() == bias,
            !final(self).found(),
    {
        self.found_serration = false;
        self.sync_level_bias = bias;
    }

    /// Takes the pair of a blanking interval, if there was one.
    pub fn take_levels(&mut self, levels: Option<(u32, u32)>)
        requires
            old(self).wf(),
        ensures
            final(self).wf(),
            final(self).bias() == old(self).bias(),
            match levels {
                Some((sync, blank)) => final(self).memory() == old(self).memory().with(sync, blank)
                    && final(self).found(),
                None => final(self).memory() == old(self).memory() && final(self).found()
                    == old(self).found(),
            },
    {
        match levels {
            Some((sync, blank)) => {
                self.found_serration = true;
                self.push_levels_internal(sync, blank);
            },
            None => {},
        }
    }

    /// The last pairs.
    pub fn pull_levels(&mut self) -> (pair: LevelPair)
        requires
            old(self).wf(),
        ensures
            final(self).wf(),
            final(self).memory() == old(self).memory().latest(SERRATION_DEPTH as int),
            pair.sync@ == final(self).memory().sync,
            pair.blank@ == final(self).memory().blank,
            old(self).memory().sync.len() >= 2 ==> pair.sync@.len() == 2,
            old(self).memory().blank.len() >= 2 ==> pair.blank@.len() == 2,
            final(self).bias() == old(self).bias(),
            final(self).found() == old(self).found(),
    {
        LevelPair { sync: self.levels_sync.pull(), blank: self.levels_blank.pull() }
    }

    /// Whether enough pairs are known.
    pub fn has_levels(&self) -> (enough: bool)
        requires
            self.wf(),
        ensures
            enough == self.memory().more_than(SERRATION_WATERMARK as int),
            enough <==> self.memory().sync.len() >= 2 && self.memory().blank.len() >= 2,
    {
        self.levels_sync.has_values() && self.levels_blank.has_values()
    }

    /// Whether the last field had a blanking interval to measure.
    pub fn found_serration(&self) -> (found: bool)
        ensures
            found == self.found(),
    {
        self.found_serration
    }

    /// The lowest level of the last field.
    pub fn sync_level_bias(&self) -> (bias: u32)
        ensures
            bias == self.bias(),
    {
        self.sync_level_bias
    }
}

/// Levels of whole fields.
pub struct FieldStateState {
    blanklevels: StackableMa<u32>,
    synclevels: StackableMa<u32>,
}

impl FieldStateState {
    pub closed spec fn memory(self) -> LevelMemory {
        LevelMemory { sync: self.synclevels.values(), blank: self.blanklevels.values() }
    }

    /// How many levels are averaged.
    pub closed spec fn depth(self) -> nat {
        self.blanklevels.window()
    }

    pub closed spec fn wf(self) -> bool {
        &&& self.blanklevels.window() == self.synclevels.window()
        &&& self.blanklevels.watermark() == 0
        &&& self.synclevels.watermark() == 0
    }

    /// Nothing known; `depth` levels are averaged.
    pub fn new(depth: usize) -> (state: FieldStateState)
        ensures
            state.wf(),
            state.memory() == LevelMemory::empty(),
            state.depth() == depth,
    {
        FieldStateState { blanklevels: StackableMa::new(0, depth), synclevels: StackableMa::new(
            0,
            depth,
        ) }
    }

    /// Adds a sync level.
    pub fn set_sync_level(&mut self, level: u32)
        requires
            old(self).wf(),
        ensures
            final(self).wf(),
            final(self).depth() == old(self).depth(),
            final(self).memory() == (LevelMemory {
                sync: old(self).memory().sync.push(level),
                ..old(self).memory()
            }),
    {
        self.synclevels.push(level);
    }

    /// Adds a pair.
    pub fn set_levels(&mut self, sync: u32, blank: u32)
        requires
            old(self).wf(),
        ensures
            final(self).wf(),
            final(self).depth() == old(self).depth(),
            final(self).memory() == old(self).memory().with(sync, blank),
    {
        self.blanklevels.push(blank);
        self.set_sync_level(sync);
    }

    /// The last sync levels.
    pub fn pull_sync_level(&mut self) -> (levels: Vec<u32>)
        requires
            old(self).wf(),
        ensures
            final(self).wf(),
            final(self).depth() == old(self).depth(),
            final(self).memory() == (LevelMemory {
                sync: last_values(old(self).memory().sync, old(self).depth() as int),
                ..old(self).memory()
            }),
            levels@ == final(self).memory().sync,
    {
        self.synclevels.pull()
    }

    /// The last pairs; nothing where no blanking level is known.
    pub fn pull_levels(&mut self) -> (pair: Option<LevelPair>)
        requires
            old(self).wf(),
        ensures
            final(self).wf(),
            final(self).depth() == old(self).depth(),
            ({
                let latest = old(self).memory().latest(old(self).depth() as int);
                if latest.blank.len() == 0 {
                    final(self).memory() == (LevelMemory {
                        blank: latest.blank,
                        ..old(self).memory()
                    }) && pair is None
                } else {
                    final(self).memory() == latest && (latest.sync.len() == 0 ==> pair is None) && (
                    latest.sync.len() > 0 ==> pair is Some && pair->0.sync@ == latest.sync
                        && pair->0.blank@ == latest.blank)
                }
            }),
    {
        let blank = self.blanklevels.pull();
        if blank.len() == 0 {
            return None;
        }
        let sync = self.pull_sync_level();
        if sync.len() == 0 {
            return None;
        }
        Some(LevelPair { sync, blank })
    }

    /// Whether both levels are known.
    pub fn has_levels(&self) -> (known: bool)
        requires
            self.wf(),
        ensures
            known == self.memory().more_than(0),
    {
        self.blanklevels.has_values() && self.synclevels.has_values()
    }
}

/// What was made of the levels of a field's pulses.
pub enum LevelOutcome {
    /// They are taken.
    Taken { sync: u32, blank: u32 },
    /// Those of earlier fields are taken.
    Remembered(LevelPair),
    /// There are none.
    Unknown,
}

/// The black level, as far as it is above the sync level.
pub open spec fn black_above(sync: u32, black: Option<u32>) -> Option<u32> {
    match black {
        Some(black) => if ieee::lt_single(black, sync) || ieee::nan_single(black) {
            None
        } else {
            Some(black)
        },
        None => None,
    }
}

impl FieldStateState {
    /// Judges the levels of a field's pulses: `sync` over `vsync_count` vertical
    /// syncs, `black` where it was measured, and whether they are plausible. A
    /// pair that is taken is kept where `store` says so.
    pub fn settle_levels(
        &mut self,
        sync: u32,
        black: Option<u32>,
        plausible: bool,
        vsync_count: usize,
        store: bool,
    ) -> (outcome: LevelOutcome)
        requires
            old(self).wf(),
        ensures
            final(self).wf(),
            final(self).depth() == old(self).depth(),
            ({
                let latest = old(self).memory().latest(old(self).depth() as int);
                match black_above(sync, black) {
                    Some(blank) if !ieee::nan_single(sync) => if plausible && vsync_count > 3 {
                        outcome == LevelOutcome::Taken { sync, blank } && final(self).memory() == (
                        if store {
                            old(self).memory().with(sync, blank)
                        } else {
                            old(self).memory()
                        })
                    } else {
                        outcome is Unknown && final(self).memory() == old(self).memory()
                    },
                    _ => if latest.blank.len() > 0 && latest.sync.len() > 0 {
                        outcome is Remembered && outcome->Remembered_0.sync@ == latest.sync
                            && outcome->Remembered_0.blank@ == latest.blank && final(self).memory()
                            == latest
                    } else {
                        outcome is Unknown && final(self).memory() == if latest.blank.len() > 0 {
                            latest
                        } else {
                            LevelMemory { blank: latest.blank, ..old(self).memory() }
                        }
                    },
                }
            }),
    {
        let above: Option<u32> = match black {
            Some(black) => if less_single(black, sync) || is_nan_single(black) {
                None
            } else {
                Some(black)
            },
            None => None,
        };
        match above {
            Some(blank) if !is_nan_single(sync) => {
                if plausible && vsync_count > 3 {
                    if store {
                        self.set_levels(sync, blank);
                    }
                    LevelOutcome::Taken { sync, blank }
                } else {
                    LevelOutcome::Unknown
                }
            },
            _ => {
                match self.pull_levels() {
                    Some(pair) => LevelOutcome::Remembered(pair),
                    None => LevelOutcome::Unknown,
                }
            },
        }
    }
}

/// Where the levels of a field come from.
#[derive(Clone, Copy, Debug, PartialEq, Eq, Structural)]
pub enum LevelSource {
    /// From its own blanking interval.
    Serration,
    /// From earlier fields.
    Field,
    /// From the video system.
    Defaults,
    /// They are not known.
    Unknown,
}

/// Where the levels of a field come from; `plausible` tells of those from its own
/// blanking interval.
pub fn level_source(serration: bool, field: bool, plausible: bool) -> (source: LevelSource)
    ensures
        source == if serration && plausible {
            LevelSource::Serration
        } else if field {
            LevelSource::Field
        } else if serration {
            LevelSource::Defaults
        } else {
            LevelSource::Unknown
        },
{
    if serration {
        if plausible {
            LevelSource::Serration
        } else if field {
            LevelSource::Field
        } else {
            LevelSource::Defaults
        }
    } else if field {
        LevelSource::Field
    } else {
        LevelSource::Unknown
    }
}

/// Whether a signal whose levels are not known is moved so that its lowest level
/// becomes the sync level.
pub fn recenters(
    disable_dc_offset: bool,
    bias: u32,
    lowest: u32,
    sync: u32,
    plausible: bool,
) -> (moved: bool)
    ensures
        moved == (!disable_dc_offset && !(ieee::lt_single(lowest, bias) && ieee::lt_single(
            bias,
            sync,
        )) && plausible),
{
    !(disable_dc_offset || (less_single(lowest, bias) && less_single(bias, sync))) && plausible
}

/// How many of the first samples are below a level.
pub open spec fn below(data: Seq<u32>, level: u32, count: nat) -> nat
    decreases count,
{
    if count == 0 {
        0
    } else {
        below(data, level, (count - 1) as nat) + if ieee::lt_single(data[count - 1], level) {
            1nat
        } else {
            0nat
        }
    }
}

/// How many samples are below the sync level and below the blanking level.
pub fn level_counts(data: &[u32], sync: u32, blank: u32) -> (counts: (usize, usize))
    ensures
        counts.0 == below(data@, sync, data@.len()),
        counts.1 == below(data@, blank, data@.len()),
        counts.0 <= data@.len(),
        counts.1 <= data@.len(),
{
    let mut below_sync: usize = 0;
    let mut below_blank: usize = 0;
    let mut index: usize = 0;
    while index < data.len()
        invariant
            below_sync <= index <= data@.len(),
            below_blank <= index,
            below_sync == below(data@, sync, index as nat),
            below_blank == below(data@, blank, index as nat),
        decreases data@.len() - index,
    {
        if less_single(data[index], sync) {
            below_sync = below_sync + 1;
        }
        if less_single(data[index], blank) {
            below_blank = below_blank + 1;
        }
        index = index + 1;
    }
    (below_sync, below_blank)
}

/// How many of the lengths are in the range.
pub open spec fn lengths_in(lengths: Seq<i64>, range: SampleRange, count: nat) -> nat
    decreases count,
{
    if count == 0 {
        0
    } else {
        lengths_in(lengths, range, (count - 1) as nat) + if range.has(lengths[count - 1] as int) {
            1nat
        } else {
            0nat
        }
    }
}

/// How many of the lengths are in the range.
pub fn count_lengths(lengths: &[i64], range: SampleRange) -> (count: usize)
    ensures
        count == lengths_in(lengths@, range, lengths@.len()),
        count <= lengths@.len(),
{
    let mut count: usize = 0;
    let mut index: usize = 0;
    while index < lengths.len()
        invariant
            count <= index <= lengths@.len(),
            count == lengths_in(lengths@, range, index as nat),
        decreases lengths@.len() - index,
    {
        if range.contains(lengths[index]) {
            count = count + 1;
        }
        index = index + 1;
    }
    count
}

/// What comes next in a search for the sync level.
#[derive(Clone, Copy, Debug, PartialEq, Eq, Structural)]
pub enum LevelStep {
    /// The pulses at this level are the ones.
    Stop,
    /// Those at an earlier level were.
    Back { level: u32 },
    /// A higher level is to be looked at.
    Raise,
    /// No level is left to look at: the pulses at this one have to do.
    Exhausted,
}

/// A search for the level at which the vertical syncs of a field appear.
#[verifier::ext_equal]
pub struct SearchView {
    pub retries: nat,
    /// The best level so far, with its vertical syncs and long pulses.
    pub candidate: Option<(u32, nat, nat)>,
    /// Whether the level after the best one is still to be looked at.
    pub check_next: bool,
}

/// How many levels are looked at.
pub const LEVEL_RETRIES: usize = 30;

/// How many pulses a field has at least.
pub const ENOUGH_PULSES: usize = 200;

impl SearchView {
    /// One level fewer to look at.
    pub open spec fn raised(self) -> (SearchView, LevelStep) {
        (
            SearchView { retries: (self.retries - 1) as nat, ..self },
            if self.retries == 1 {
                LevelStep::Exhausted
            } else {
                LevelStep::Raise
            },
        )
    }

    /// What a level gives: how many pulses it has, how many vertical syncs and
    /// how many long pulses are among them.
    pub open spec fn looked(self, level: u32, pulses: nat, vsyncs: nat, long: nat) -> (
        SearchView,
        LevelStep,
    ) {
        if pulses <= ENOUGH_PULSES || (vsyncs <= 4 && long == 0) {
            self.raised()
        } else if (vsyncs == 12 || long == 2) && !self.check_next {
            (self, LevelStep::Stop)
        } else {
            match self.candidate {
                Some((best, most_vsyncs, most_long)) => if vsyncs > most_vsyncs || long
                    > most_long {
                    SearchView {
                        candidate: Some((level, vsyncs, long)),
                        check_next: true,
                        ..self
                    }.raised()
                } else if vsyncs < most_vsyncs || long < most_long || !self.check_next {
                    (self, LevelStep::Back { level: best })
                } else {
                    SearchView { check_next: false, ..self }.raised()
                },
                None => SearchView {
                    candidate: Some((level, vsyncs, long)),
                    check_next: true,
                    ..self
                }.raised(),
            }
        }
    }
}

/// A search for the level at which the vertical syncs of a field appear.
pub struct LevelSearch {
    retries: usize,
    candidate: Option<(u32, usize, usize)>,
    check_next: bool,
}

impl View for LevelSearch {
    type V = SearchView;

    closed spec fn view(&self) -> SearchView {
        SearchView {
            retries: self.retries as nat,
            candidate: match self.candidate {
                Some((level, vsyncs, long)) => Some((level, vsyncs as nat, long as nat)),
                None => None,
            },
            check_next: self.check_next,
        }
    }
}

impl LevelSearch {
    /// No level looked at.
    pub fn new() -> (search: LevelSearch)
        ensures
            search@ == (SearchView {
                retries: LEVEL_RETRIES as nat,
                candidate: None,
                check_next: true,
            }),
            search@.retries == 30,
    {
        LevelSearch { retries: LEVEL_RETRIES, candidate: None, check_next: true }
    }

    /// What a level gives. Each step but the last leaves one level fewer to look
    /// at.
    pub fn look(&mut self, level: u32, pulses: usize, vsyncs: usize, long: usize) -> (step:
        LevelStep)
        requires
            old(self)@.retries > 0,
        ensures
            (final(self)@, step) == old(self)@.looked(
                level,
                pulses as nat,
                vsyncs as nat,
                long as nat,
            ),
            step == LevelStep::Raise ==> 0 < final(self)@.retries < old(self)@.retries,
    {
        if pulses > ENOUGH_PULSES && (vsyncs > 4 || long >= 1) {
            if (vsyncs == 12 || long == 2) && !self.check_next {
                return LevelStep::Stop;
            }
            match self.candidate {
                Some((best, most_vsyncs, most_long)) => {
                    if vsyncs > most_vsyncs || long > most_long {
                        self.candidate = Some((level, vsyncs, long));
                        self.check_next = true;
                    } else if vsyncs < most_vsyncs || long < most_long || !self.check_next {
                        return LevelStep::Back { level: best };
                    } else {
                        self.check_next = false;
                    }
                },
                None => {
                    self.candidate = Some((level, vsyncs, long));
                    self.check_next = true;
                },
            }
        }
        self.retries = self.retries - 1;
        if self.retries == 0 {
            LevelStep::Exhausted
        } else {
            LevelStep::Raise
        }
    }
}

/// The first `count` pulses that have a length in the range.
pub open spec fn pulses_in(lengths: Seq<i64>, range: SampleRange, count: nat) -> Seq<usize>
    decreases count,
{
    if count == 0 {
        Seq::empty()
    } else {
        let before = pulses_in(lengths, range, (count - 1) as nat);
        if range.has(lengths[count - 1] as int) {
            before.push((count - 1) as usize)
        } else {
            before
        }
    }
}

proof fn lemma_pulses_in(lengths: Seq<i64>, range: SampleRange, count: nat)
    requires
        count <= lengths.len() <= usize::MAX,
    ensures
        forall|i: int|
            0 <= i < pulses_in(lengths, range, count).len() ==> #[trigger] pulses_in(
                lengths,
                range,
                count,
            )[i] < count,
    decreases count,
{
    if count > 0 {
        lemma_pulses_in(lengths, range, (count - 1) as nat);
        let before = pulses_in(lengths, range, (count - 1) as nat);
        let all = pulses_in(lengths, range, count);
        assert forall|i: int| 0 <= i < all.len() implies #[trigger] all[i] < count by {
            if i < before.len() {
                assert(before[i] < count - 1);
            }
        }
    }
}

/// The pulses that have a length in the range.
pub fn vsync_locations(lengths: &[i64], range: SampleRange) -> (locations: Vec<usize>)
    ensures
        locations@ == pulses_in(lengths@, range, lengths@.len()),
        forall|i: int| 0 <= i < locations@.len() ==> #[trigger] locations@[i] < lengths@.len(),
{
    let total: usize = lengths.len();
    let mut locations: Vec<usize> = Vec::new();
    let mut index: usize = 0;
    while index < total
        invariant
            index <= total == lengths@.len(),
            locations@ == pulses_in(lengths@, range, index as nat),
        decreases total - index,
    {
        if range.contains(lengths[index]) {
            locations.push(index);
        }
        index = index + 1;
    }
    proof {
        lemma_pulses_in(lengths@, range, lengths@.len());
    }
    locations
}

/// How close two pulses of a blanking interval are at most, in samples.
pub const PULSE_SPACING: i64 = 600;

/// The first pulse of those that follow each other closely up to `at`.
pub open spec fn close_before(starts: Seq<i64>, at: int) -> int
    decreases at,
{
    if at > 1 && starts[at] - starts[at - 1] < PULSE_SPACING {
        close_before(starts, at - 1)
    } else {
        at
    }
}

/// The last pulse from `at` on before one that comes more than the spacing
/// earlier.
pub open spec fn close_after(starts: Seq<i64>, at: int) -> int
    decreases starts.len() - at,
{
    if at < starts.len() - 1 && starts[at] - starts[at + 1] < PULSE_SPACING {
        close_after(starts, at + 1)
    } else {
        at
    }
}

/// The pulses from `from` up to `to` that have a length in the range.
pub open spec fn pulses_between(
    lengths: Seq<i64>,
    range: SampleRange,
    from: int,
    to: int,
) -> Seq<usize>
    decreases to - from,
{
    if from >= to {
        Seq::empty()
    } else {
        let before = pulses_between(lengths, range, from, to - 1);
        if range.has(lengths[to - 1] as int) {
            before.push((to - 1) as usize)
        } else {
            before
        }
    }
}

/// The pulses around the blanking interval between the vertical syncs `first`
/// and `last` after which the signal is black.
pub open spec fn black_pulses(
    starts: Seq<i64>,
    lengths: Seq<i64>,
    range: SampleRange,
    first: int,
    last: int,
    whole: bool,
) -> Seq<usize> {
    let end = starts.len() - 1;
    let before = if whole {
        first
    } else {
        close_before(starts, first)
    };
    let after = if whole {
        last
    } else {
        close_after(starts, last)
    };
    let left = if before > 1 {
        pulses_between(
            lengths,
            range,
            if before - 5 > 1 {
                before - 5
            } else {
                1
            },
            before,
        )
    } else {
        Seq::empty()
    };
    let right = if after < end - 1 {
        pulses_between(
            lengths,
            range,
            after + 1,
            if after + 6 > end {
                end + 1
            } else {
                end
            },
        )
    } else {
        Seq::empty()
    };
    left + right
}

proof fn lemma_between(lengths: Seq<i64>, range: SampleRange, from: int, to: int)
    requires
        0 <= from,
        to <= lengths.len() <= usize::MAX,
    ensures
        forall|i: int|
            0 <= i < pulses_between(lengths, range, from, to).len() ==> from
                <= #[trigger] pulses_between(lengths, range, from, to)[i] < to,
    decreases to - from,
{
    if from < to {
        lemma_between(lengths, range, from, to - 1);
        let before = pulses_between(lengths, range, from, to - 1);
        let all = pulses_between(lengths, range, from, to);
        assert forall|i: int| 0 <= i < all.len() implies from <= #[trigger] all[i] < to by {
            if i < before.len() {
                assert(from <= before[i] < to - 1);
            }
        }
    }
}

fn push_between(
    lengths: &[i64],
    range: SampleRange,
    from: usize,
    to: usize,
    places: &mut Vec<usize>,
)
    requires
        to <= lengths@.len(),
    ensures
        final(places)@ == old(places)@ + pulses_between(
            lengths@,
            range,
            from as int,
            to as int,
        ),
{
    let ghost before = places@;
    let mut index: usize = from;
    proof {
        assert(places@ =~= before + pulses_between(lengths@, range, from as int, from as int));
    }
    while index < to
        invariant
            from <= index,
            index <= to || index == from,
            to <= lengths@.len(),
            places@ == before + pulses_between(lengths@, range, from as int, index as int),
        decreases to - index,
    {
        if range.contains(lengths[index]) {
            places.push(index);
        }
        index = index + 1;
        proof {
            assert(places@ =~= before + pulses_between(
                lengths@,
                range,
                from as int,
                index as int,
            ));
        }
    }
    proof {
        assert(pulses_between(lengths@, range, from as int, to as int) =~= pulses_between(
            lengths@,
            range,
            from as int,
            index as int,
        ));
    }
}

/// The pulses around a blanking interval after which the signal is black.
/// `locations` are its vertical syncs; twelve of them are all it has. Nothing
/// where there are none.
pub fn blacklevel_pulses(
    starts: &[i64],
    lengths: &[i64],
    range: SampleRange,
    locations: &[usize],
) -> (places: Option<Vec<usize>>)
    requires
        starts@.len() == lengths@.len(),
        forall|i: int| 0 <= i < locations@.len() ==> #[trigger] locations@[i] < starts@.len(),
    ensures
        match places {
            Some(places) => locations@.len() > 0 && places@ == black_pulses(
                starts@,
                lengths@,
                range,
                locations@[0] as int,
                locations@.last() as int,
                locations@.len() == 12,
            ) && forall|i: int| 0 <= i < places@.len() ==> #[trigger] places@[i] < starts@.len(),
            None => locations@.len() == 0,
        },
{
    let count: usize = locations.len();
    if count == 0 {
        return None;
    }
    let total: usize = starts.len();
    let mut before: usize = locations[0];
    let mut after: usize = locations[count - 1];
    if count != 12 {
        while before > 1 && (starts[before] as i128) - (starts[before - 1] as i128)
            < PULSE_SPACING as i128
            invariant
                before < total == starts@.len(),
                close_before(starts@, before as int) == close_before(
                    starts@,
                    locations@[0] as int,
                ),
            decreases before,
        {
            before = before - 1;
        }
        while after < total - 1 && (starts[after] as i128) - (starts[after + 1] as i128)
            < PULSE_SPACING as i128
            invariant
                after < total == starts@.len(),
                count == locations@.len() > 0,
                close_after(starts@, after as int) == close_after(
                    starts@,
                    locations@[count - 1] as int,
                ),
            decreases total - after,
        {
            after = after + 1;
        }
    }
    let mut places: Vec<usize> = Vec::new();
    if before > 1 {
        let from: usize = if before > 6 {
            before - 5
        } else {
            1
        };
        push_between(lengths, range, from, before, &mut places);
        proof {
            lemma_between(lengths@, range, from as int, before as int);
        }
    }
    proof {
        assert(Seq::<usize>::empty() + pulses_between(
            lengths@,
            range,
            if before - 5 > 1 {
                before - 5
            } else {
                1
            },
            before as int,
        ) =~= pulses_between(
            lengths@,
            range,
            if before - 5 > 1 {
                before - 5
            } else {
                1
            },
            before as int,
        ));
    }
    let ghost left = places@;
    if total - 1 > after && total - 1 - after > 1 {
        let to: usize = if total - 1 - after < 6 {
            total
        } else {
            total - 1
        };
        push_between(lengths, range, after + 1, to, &mut places);
        proof {
            lemma_between(lengths@, range, after + 1, to as int);
        }
    } else {
        proof {
            assert(places@ =~= left + Seq::<usize>::empty());
        }
    }
    Some(places)
}

/// The part of a signal in which the pulses around a place are searched.
pub fn serration_block(len: usize, pos: usize, span: usize) -> (block: (usize, usize))
    requires
        0 < len,
        pos - span <= len - 1,
    ensures
        block.0 == if pos > span {
            pos - span
        } else {
            0
        },
        block.1 == if pos + span < len - 1 {
            pos + span
        } else {
            len - 1
        },
        block.0 <= block.1 < len,
{
    let start: usize = if pos > span {
        pos - span
    } else {
        0
    };
    let end: usize = if pos < len - 1 && len - 1 - pos > span {
        pos + span
    } else {
        len - 1
    };
    (start, end)
}

/// The first `count` places where the distance to the next one is in the range.
pub open spec fn pairs_in(places: Seq<i64>, range: SampleRange, count: nat) -> Seq<int>
    decreases count,
{
    if count == 0 {
        Seq::empty()
    } else {
        let before = pairs_in(places, range, (count - 1) as nat);
        if range.has(places[count as int] - places[count - 1]) {
            before.push(count - 1)
        } else {
            before
        }
    }
}

/// The first and the last of nine to twelve pulses, by the places where the
/// signal crosses a level and the distances between them; nothing where there
/// are fewer or more.
pub fn serration_edges(crossings: &[i64], range: SampleRange) -> (edges: Option<(i64, i64)>)
    ensures
        ({
            let pairs = pairs_in(
                crossings@,
                range,
                if crossings@.len() > 0 {
                    (crossings@.len() - 1) as nat
                } else {
                    0
                },
            );
            match edges {
                Some((first, last)) => 9 <= pairs.len() <= 12 && first == crossings@[pairs[0]]
                    && last == crossings@[pairs.last()],
                None => !(9 <= pairs.len() <= 12),
            }
        }),
{
    let total: usize = crossings.len();
    let mut count: usize = 0;
    let mut first: i64 = 0;
    let mut last: i64 = 0;
    let mut index: usize = 0;
    while index + 1 < total
        invariant
            index < total || (index == 0 && total == 0),
            total == crossings@.len(),
            count <= index,
            ({
                let pairs = pairs_in(crossings@, range, index as nat);
                &&& count == pairs.len()
                &&& count > 0 ==> first == crossings@[pairs[0]] && last == crossings@[pairs.last()]
            }),
        decreases total - index,
    {
        let distance: i128 = crossings[index + 1] as i128 - crossings[index] as i128;
        if range.min as i128 <= distance && distance <= range.max as i128 {
            if count == 0 {
                first = crossings[index];
            }
            last = crossings[index];
            count = count + 1;
        }
        index = index + 1;
    }
    if 9 <= count && count <= 12 {
        Some((first, last))
    } else {
        None
    }
}

/// The part of the signal that the pulses of a blanking interval take, from the
/// first of them to half a pulse after the last; nothing where it is too short or
/// too long for one. The places are counted from `start` on.
pub fn serration_span(
    len: usize,
    start: usize,
    first: usize,
    last: usize,
    eq_pulselen: usize,
    range: SampleRange,
) -> (span: Option<(usize, usize)>)
    requires
        0 < len <= i64::MAX,
        first <= last,
        last + eq_pulselen / 2 <= usize::MAX,
        first <= len - 1,
        start + last + eq_pulselen / 2 <= len || start + len - 1 <= len,
    ensures
        ({
            let stop = if last + eq_pulselen / 2 < len - 1 {
                last + eq_pulselen / 2
            } else {
                len - 1
            };
            match span {
                Some((from, to)) => from == start + first && to == start + stop && range.has(
                    to - from,
                ) && from <= to <= len,
                None => !range.has(stop - first),
            }
        }),
{
    let reach: usize = last + eq_pulselen / 2;
    let stop: usize = if reach < len - 1 {
        reach
    } else {
        len - 1
    };
    let size: i64 = (stop - first) as i64;
    if range.contains(size) {
        Some((start + first, start + stop))
    } else {
        None
    }
}

/// A signal with its first samples in front of it, turned round.
pub fn reflect_pad<T: Copy>(data: &[T], padding: usize) -> (padded: Vec<T>)
    ensures
        ({
            let front = if padding < data@.len() {
                padding as int
            } else {
                data@.len() as int
            };
            padded@ == data@.take(front).reverse() + data@
        }),
{
    let front: usize = if padding < data.len() {
        padding
    } else {
        data.len()
    };
    let mut padded: Vec<T> = Vec::new();
    let mut left: usize = front;
    while left > 0
        invariant
            left <= front <= data@.len(),
            padded@ == data@.subrange(left as int, front as int).reverse(),
        decreases left,
    {
        left = left - 1;
        padded.push(data[left]);
        proof {
            assert(padded@ =~= data@.subrange(left as int, front as int).reverse());
        }
    }
    let ghost mirrored = padded@;
    proof {
        assert(mirrored =~= data@.take(front as int).reverse());
        assert(padded@ =~= mirrored + data@.take(0));
    }
    let mut index: usize = 0;
    while index < data.len()
        invariant
            index <= data@.len(),
            padded@ == mirrored + data@.take(index as int),
        decreases data@.len() - index,
    {
        padded.push(data[index]);
        index = index + 1;
        proof {
            assert(padded@ =~= mirrored + data@.take(index as int));
        }
    }
    proof {
        assert(data@.take(index as int) =~= data@);
    }
    padded
}

/// A part of an envelope that runs straight from the middle of one block to the
/// middle of the next.
#[derive(Clone, Copy, Debug, PartialEq, Eq, Structural)]
pub struct EnvelopeSegment {
    /// The block it starts from.
    pub block: usize,
    pub from: usize,
    pub to: usize,
}

/// How an envelope of block averages is spread over the samples.
pub struct EnvelopePlan {
    pub block_count: usize,
    /// The samples before this one have the level of the first block.
    pub lead: usize,
    pub segments: Vec<EnvelopeSegment>,
    /// The samples from this one on have the level of the last block.
    pub tail: usize,
}

/// Where the straight part that starts from a block ends.
pub open spec fn segment_end(n: int, decimation: int, block: int) -> int {
    let end = (2 * (block + 1) * decimation + decimation - 2) / 2 + 1;
    if end < n {
        end
    } else {
        n
    }
}

/// Where the straight part that starts from a block begins.
pub open spec fn segment_start(n: int, decimation: int, block: int) -> int {
    let lead = (decimation - 1) / 2 + 1;
    let first = if lead < n {
        lead
    } else {
        n
    };
    if block == 0 {
        first
    } else {
        segment_end(n, decimation, block - 1)
    }
}

proof fn lemma_segment(n: int, decimation: int, block: int)
    requires
        decimation > 1,
        block >= 0,
        n >= 0,
    ensures
        segment_start(n, decimation, block) <= segment_end(n, decimation, block) <= n,
{
    assert(2 * (block + 1) * decimation == 2 * block * decimation + 2 * decimation)
        by (nonlinear_arith);
    assert(2 * block * decimation >= 0) by (nonlinear_arith)
        requires
            block >= 0,
            decimation > 1,
    ;
}

/// How the envelope of blocks of `decimation` samples is spread over `n` of them:
/// the first level, straight parts from block to block, the last level.
pub fn envelope_plan(n: usize, decimation: usize) -> (plan: EnvelopePlan)
    requires
        1 < decimation <= n,
        2 * n + 2 * decimation <= usize::MAX,
    ensures
        plan.block_count == n / decimation,
        plan.block_count > 0,
        plan.lead == segment_start(n as int, decimation as int, 0),
        plan.segments@.len() == plan.block_count - 1,
        forall|k: int|
            0 <= k < plan.segments@.len() ==> #[trigger] plan.segments@[k] == (EnvelopeSegment {
                block: k as usize,
                from: segment_start(n as int, decimation as int, k) as usize,
                to: segment_end(n as int, decimation as int, k) as usize,
            }),
        plan.tail == segment_start(n as int, decimation as int, plan.block_count - 1),
        plan.lead <= plan.tail <= n,
{
    let block_count: usize = n / decimation;
    proof {
        assert(block_count >= 1) by (nonlinear_arith)
            requires
                block_count == n / decimation,
                1 < decimation <= n,
        ;
        assert(block_count * decimation <= n) by (nonlinear_arith)
            requires
                block_count == n / decimation,
                1 < decimation,
        ;
    }
    let half: usize = (decimation - 1) / 2 + 1;
    let lead: usize = if half < n {
        half
    } else {
        n
    };
    let mut segments: Vec<EnvelopeSegment> = Vec::new();
    let mut from: usize = lead;
    let mut block: usize = 0;
    while block < block_count - 1
        invariant
            1 < decimation <= n,
            2 * n + 2 * decimation <= usize::MAX,
            0 < block_count,
            block_count * decimation <= n,
            block <= block_count - 1,
            from == segment_start(n as int, decimation as int, block as int),
            lead == segment_start(n as int, decimation as int, 0),
            lead <= from <= n,
            segments@.len() == block,
            forall|k: int|
                0 <= k < block ==> #[trigger] segments@[k] == (EnvelopeSegment {
                    block: k as usize,
                    from: segment_start(n as int, decimation as int, k) as usize,
                    to: segment_end(n as int, decimation as int, k) as usize,
                }),
        decreases block_count - block,
    {
        proof {
            lemma_segment(n as int, decimation as int, block as int);
            assert((block + 1) * decimation <= n) by (nonlinear_arith)
                requires
                    block + 1 <= block_count,
                    block_count * decimation <= n,
                    decimation > 1,
            ;
            assert(2 * (block + 1) * decimation == 2 * ((block + 1) * decimation))
                by (nonlinear_arith);
        }
        let whole: usize = (block + 1) * decimation;
        let end: usize = (2 * whole + decimation - 2) / 2 + 1;
        let to: usize = if end < n {
            end
        } else {
            n
        };
        segments.push(EnvelopeSegment { block, from, to });
        from = to;
        block = block + 1;
    }
    EnvelopePlan { block_count, lead, segments, tail: from }
}

/// The parts of an envelope follow each other without a gap, and no sample is in
/// two of them.
pub proof fn law_envelope_tiles(n: int, decimation: int, block: int)
    requires
        n >= 0,
        decimation > 1,
        block >= 0,
    ensures
        segment_start(n, decimation, block) <= segment_end(n, decimation, block),
        segment_start(n, decimation, block + 1) == segment_end(n, decimation, block),
{
    lemma_segment(n, decimation, block);
}

} // verus!
