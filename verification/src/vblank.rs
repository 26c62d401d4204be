//! Classification of the pulses around a vertical blanking interval.
use vstd::prelude::*;

use crate::pulses::SampleRange;

verus! {

/// The kind of a sync pulse. Across a field boundary the order is horizontal
/// sync, equalising, vertical sync, equalising, horizontal sync.
#[derive(Clone, Copy, Debug, PartialEq, Eq, Structural)]
pub enum PulseType {
    Hsync,
    Eqpl1,
    Vsync,
    Eqpl2,
}

/// A pulse of the sync signal.
#[derive(Clone, Copy, Debug, PartialEq, Eq, Structural)]
pub struct PulseSample {
    pub start: i64,
    pub len: i64,
}

/// A real number, as far as it can be compared with whole ones.
#[derive(Clone, Copy, Debug, PartialEq, Eq, Structural)]
pub struct RealBound {
    /// The greatest whole number that is not above it.
    pub floor: i64,
    /// The least whole number that is not below it.
    pub ceil: i64,
}

/// The pulse lengths of each kind.
#[derive(Clone, Copy, Debug, PartialEq, Eq, Structural)]
pub struct PulseRanges {
    pub hsync: SampleRange,
    /// From the longest horizontal sync to three times that.
    pub long_hsync: SampleRange,
    pub eq: SampleRange,
    pub vsync: SampleRange,
}

/// The distances between neighbouring pulses that are taken as sound.
#[derive(Clone, Copy, Debug, PartialEq, Eq, Structural)]
pub struct QualityRanges {
    /// Between two pulses of a blanking interval.
    pub blanking: SampleRange,
    /// Between two horizontal syncs.
    pub lines: SampleRange,
    /// Between a horizontal sync and another pulse.
    pub mixed: SampleRange,
}

impl QualityRanges {
    /// The range for a pair of pulses.
    pub open spec fn expected(self, first: PulseType, second: PulseType) -> SampleRange {
        if first != PulseType::Hsync && second != PulseType::Hsync {
            self.blanking
        } else if first == PulseType::Hsync && second == PulseType::Hsync {
            self.lines
        } else {
            self.mixed
        }
    }
}

/// Whether two neighbouring pulses lie as far apart as they should.
pub fn pulse_qualitycheck(
    prev_pulse_type: PulseType,
    prev_pulse_start: i64,
    pulse_type: PulseType,
    pulse_start: i64,
    quality: &QualityRanges,
) -> (good: bool)
    ensures
        good == quality.expected(prev_pulse_type, pulse_type).has(pulse_start - prev_pulse_start),
{
    let range: SampleRange = if prev_pulse_type != PulseType::Hsync && pulse_type
        != PulseType::Hsync {
        quality.blanking
    } else if prev_pulse_type == PulseType::Hsync && pulse_type == PulseType::Hsync {
        quality.lines
    } else {
        quality.mixed
    };
    let distance: i128 = pulse_start as i128 - prev_pulse_start as i128;
    range.min as i128 <= distance && distance <= range.max as i128
}

/// Classified pulses: kind, place, and whether the distance to the pulse before
/// is sound.
#[verifier::ext_equal]
pub struct PulseTrain {
    pub types: Seq<PulseType>,
    pub starts: Seq<i64>,
    pub good: Seq<bool>,
}

impl PulseTrain {
    pub open spec fn empty() -> PulseTrain {
        PulseTrain { types: Seq::empty(), starts: Seq::empty(), good: Seq::empty() }
    }

    pub open spec fn wf(self) -> bool {
        self.types.len() == self.starts.len() == self.good.len()
    }

    /// The train with one more pulse.
    pub open spec fn with(
        self,
        pulse_type: PulseType,
        start: i64,
        quality: QualityRanges,
    ) -> PulseTrain {
        PulseTrain {
            types: self.types.push(pulse_type),
            starts: self.starts.push(start),
            good: self.good.push(
                self.types.len() > 0 && quality.expected(self.types.last(), pulse_type).has(
                    start - self.starts.last(),
                ),
            ),
        }
    }
}

/// Classified pulses.
pub struct ValidPulses {
    pub types: Vec<PulseType>,
    pub starts: Vec<i64>,
    pub good: Vec<bool>,
}

impl View for ValidPulses {
    type V = PulseTrain;

    open spec fn view(&self) -> PulseTrain {
        PulseTrain { types: self.types@, starts: self.starts@, good: self.good@ }
    }
}

impl ValidPulses {
    pub fn new() -> (pulses: ValidPulses)
        ensures
            pulses@ == PulseTrain::empty(),
    {
        let pulses = ValidPulses { types: Vec::new(), starts: Vec::new(), good: Vec::new() };
        proof {
            assert(pulses@ =~= PulseTrain::empty());
        }
        pulses
    }

    /// Appends a pulse and tests its distance to the one before.
    pub fn push(&mut self, pulse_type: PulseType, start: i64, quality: &QualityRanges)
        requires
            old(self)@.wf(),
        ensures
            final(self)@ == old(self)@.with(pulse_type, start, *quality),
            final(self)@.wf(),
    {
        let ghost before = self@;
        let count: usize = self.types.len();
        let good: bool = count > 0 && pulse_qualitycheck(
            self.types[count - 1],
            self.starts[count - 1],
            pulse_type,
            start,
            quality,
        );
        self.types.push(pulse_type);
        self.starts.push(start);
        self.good.push(good);
        proof {
            assert(self@ =~= before.with(pulse_type, start, *quality));
        }
    }
}

/// How far a blanking interval has been followed.
#[verifier::ext_equal]
pub struct VblankRun {
    pub train: PulseTrain,
    /// Before this place the section does not end.
    pub section_end: RealBound,
    /// Whether the next change of kind opens a section.
    pub opening: bool,
    /// Whether the interval has been left.
    pub done: bool,
}

/// The kind of the last pulse.
pub open spec fn last_type(train: PulseTrain) -> Option<PulseType> {
    if train.types.len() > 0 {
        Some(train.types.last())
    } else {
        None
    }
}

/// The kind that a pulse has after one of kind `state`.
pub open spec fn next_type(
    state: Option<PulseType>,
    pulse: PulseSample,
    section_end: RealBound,
    ranges: PulseRanges,
) -> Option<PulseType> {
    let hsync = ranges.hsync.has(pulse.len as int);
    let eq = ranges.eq.has(pulse.len as int);
    let vsync = ranges.vsync.has(pulse.len as int);
    match state {
        None => if hsync {
            Some(PulseType::Hsync)
        } else {
            None
        },
        Some(PulseType::Hsync) => if hsync {
            Some(PulseType::Hsync)
        } else if eq {
            Some(PulseType::Eqpl1)
        } else if vsync {
            Some(PulseType::Vsync)
        } else {
            None
        },
        Some(PulseType::Eqpl1) => if eq {
            Some(PulseType::Eqpl1)
        } else if vsync {
            Some(PulseType::Vsync)
        } else if hsync {
            Some(PulseType::Hsync)
        } else {
            None
        },
        Some(PulseType::Vsync) => if eq {
            Some(PulseType::Eqpl2)
        } else if vsync {
            Some(PulseType::Vsync)
        } else if pulse.start > section_end.floor && hsync {
            Some(PulseType::Hsync)
        } else {
            None
        },
        Some(PulseType::Eqpl2) => if eq {
            Some(PulseType::Eqpl2)
        } else if hsync {
            Some(PulseType::Hsync)
        } else {
            None
        },
    }
}

/// Whether a change of kind opens a section of equalising or vertical syncs.
pub open spec fn opens_section(state: Option<PulseType>, found: Option<PulseType>) -> bool {
    ||| state == Some(PulseType::Hsync) && found == Some(PulseType::Eqpl1)
    ||| state == Some(PulseType::Eqpl1) && found == Some(PulseType::Vsync)
    ||| state == Some(PulseType::Vsync) && found == Some(PulseType::Eqpl2)
}

/// One pulse of a blanking interval; `own_end` is where a section that opens
/// with the pulse ends.
pub open spec fn vblank_step(
    run: VblankRun,
    pulse: PulseSample,
    own_end: RealBound,
    ranges: PulseRanges,
    quality: QualityRanges,
) -> VblankRun {
    let state = last_type(run.train);
    let found = next_type(state, pulse, run.section_end, ranges);
    let opening = run.opening || opens_section(state, found);
    let done = state == Some(PulseType::Eqpl2) && found == Some(PulseType::Hsync);
    match found {
        None => VblankRun { opening, done, ..run },
        Some(pulse_type) => if found != state && pulse.start < run.section_end.ceil {
            VblankRun { opening, done, ..run }
        } else {
            VblankRun {
                train: run.train.with(pulse_type, pulse.start, quality),
                section_end: if found != state && opening {
                    own_end
                } else {
                    run.section_end
                },
                opening: opening && found == state,
                done,
            }
        },
    }
}

/// The first `count` pulses of a blanking interval, as far as it lasts.
pub open spec fn vblank_run(
    pulses: Seq<PulseSample>,
    ends: Seq<RealBound>,
    ranges: PulseRanges,
    quality: QualityRanges,
    count: nat,
) -> VblankRun
    decreases count,
{
    if count == 0 {
        VblankRun {
            train: PulseTrain::empty(),
            section_end: RealBound { floor: 0, ceil: 0 },
            opening: false,
            done: false,
        }
    } else {
        let before = vblank_run(pulses, ends, ranges, quality, (count - 1) as nat);
        if before.done {
            before
        } else {
            vblank_step(before, pulses[count - 1], ends[count - 1], ranges, quality)
        }
    }
}

/// The kind that a pulse has after one of kind `state`.
fn classify_next(
    state: Option<PulseType>,
    pulse: PulseSample,
    section_end: RealBound,
    ranges: &PulseRanges,
) -> (found: Option<PulseType>)
    ensures
        found == next_type(state, pulse, section_end, *ranges),
{
    let hsync: bool = ranges.hsync.contains(pulse.len);
    let eq: bool = ranges.eq.contains(pulse.len);
    let vsync: bool = ranges.vsync.contains(pulse.len);
    match state {
        None => if hsync {
            Some(PulseType::Hsync)
        } else {
            None
        },
        Some(PulseType::Hsync) => if hsync {
            Some(PulseType::Hsync)
        } else if eq {
            Some(PulseType::Eqpl1)
        } else if vsync {
            Some(PulseType::Vsync)
        } else {
            None
        },
        Some(PulseType::Eqpl1) => if eq {
            Some(PulseType::Eqpl1)
        } else if vsync {
            Some(PulseType::Vsync)
        } else if hsync {
            Some(PulseType::Hsync)
        } else {
            None
        },
        Some(PulseType::Vsync) => if eq {
            Some(PulseType::Eqpl2)
        } else if vsync {
            Some(PulseType::Vsync)
        } else if pulse.start > section_end.floor && hsync {
            Some(PulseType::Hsync)
        } else {
            None
        },
        Some(PulseType::Eqpl2) => if eq {
            Some(PulseType::Eqpl2)
        } else if hsync {
            Some(PulseType::Hsync)
        } else {
            None
        },
    }
}

/// Follows the pulses of a blanking interval until the first horizontal sync
/// after it. Tells whether it was reached, and the pulses that were taken.
pub fn run_vblank_state_machine(
    pulses: &[PulseSample],
    ends: &[RealBound],
    ranges: &PulseRanges,
    quality: &QualityRanges,
) -> (result: (bool, ValidPulses))
    requires
        pulses@.len() == ends@.len(),
    ensures
        ({
            let run = vblank_run(pulses@, ends@, *ranges, *quality, pulses@.len());
            &&& result.0 == run.done
            &&& result.1@ == run.train
            &&& result.1@.wf()
        }),
{
    let mut valid = ValidPulses::new();
    let mut section_end = RealBound { floor: 0, ceil: 0 };
    let mut opening = false;
    let mut done = false;
    let mut index: usize = 0;
    while index < pulses.len() && !done
        invariant
            index <= pulses@.len() == ends@.len(),
            valid@.wf(),
            vblank_run(pulses@, ends@, *ranges, *quality, index as nat) == (VblankRun {
                train: valid@,
                section_end,
                opening,
                done,
            }),
        decreases pulses@.len() - index,
    {
        let pulse: PulseSample = pulses[index];
        let count: usize = valid.types.len();
        let state: Option<PulseType> = if count > 0 {
            Some(valid.types[count - 1])
        } else {
            None
        };
        let ghost before = vblank_run(pulses@, ends@, *ranges, *quality, index as nat);
        proof {
            assert(state == last_type(valid@));
        }
        let found: Option<PulseType> = classify_next(state, pulse, section_end, ranges);
        if (state == Some(PulseType::Hsync) && found == Some(PulseType::Eqpl1)) || (state == Some(
            PulseType::Eqpl1,
        ) && found == Some(PulseType::Vsync)) || (state == Some(PulseType::Vsync) && found
            == Some(PulseType::Eqpl2)) {
            opening = true;
        }
        done = state == Some(PulseType::Eqpl2) && found == Some(PulseType::Hsync);
        match found {
            None => {},
            Some(pulse_type) => {
                let changed: bool = found != state;
                if !(changed && pulse.start < section_end.ceil) {
                    if changed && opening {
                        section_end = ends[index];
                        opening = false;
                    }
                    valid.push(pulse_type, pulse.start, quality);
                }
            },
        }
        index = index + 1;
        proof {
            assert(vblank_run(pulses@, ends@, *ranges, *quality, index as nat) =~= (VblankRun {
                train: valid@,
                section_end,
                opening,
                done,
            }));
        }
    }
    proof {
        if done {
            lemma_done_stays(
                pulses@,
                ends@,
                *ranges,
                *quality,
                index as nat,
                pulses@.len(),
            );
        }
    }
    (done, valid)
}

proof fn lemma_done_stays(
    pulses: Seq<PulseSample>,
    ends: Seq<RealBound>,
    ranges: PulseRanges,
    quality: QualityRanges,
    early: nat,
    late: nat,
)
    requires
        early <= late,
        vblank_run(pulses, ends, ranges, quality, early).done,
    ensures
        vblank_run(pulses, ends, ranges, quality, late) == vblank_run(
            pulses,
            ends,
            ranges,
            quality,
            early,
        ),
    decreases late,
{
    if early < late {
        lemma_done_stays(pulses, ends, ranges, quality, early, (late - 1) as nat);
    }
}

/// Whether a pulse of the second kind may follow one of the first.
pub open spec fn may_follow(first: PulseType, second: PulseType) -> bool {
    match first {
        PulseType::Hsync => second != PulseType::Eqpl2,
        PulseType::Eqpl1 => second != PulseType::Eqpl2,
        PulseType::Vsync => second != PulseType::Eqpl1,
        PulseType::Eqpl2 => second == PulseType::Eqpl2 || second == PulseType::Hsync,
    }
}

/// The pulses that are taken open with a horizontal sync and keep the order of
/// a blanking interval.
pub proof fn law_pulse_order(
    pulses: Seq<PulseSample>,
    ends: Seq<RealBound>,
    ranges: PulseRanges,
    quality: QualityRanges,
    count: nat,
)
    ensures
        ({
            let train = vblank_run(pulses, ends, ranges, quality, count).train;
            &&& train.wf()
            &&& train.types.len() <= count
            &&& train.types.len() > 0 ==> train.types[0] == PulseType::Hsync
            &&& forall|i: int|
                0 < i < train.types.len() ==> may_follow(
                    train.types[i - 1],
                    #[trigger] train.types[i],
                )
        }),
    decreases count,
{
    if count > 0 {
        law_pulse_order(pulses, ends, ranges, quality, (count - 1) as nat);
        let before = vblank_run(pulses, ends, ranges, quality, (count - 1) as nat).train;
        let train = vblank_run(pulses, ends, ranges, quality, count).train;
        assert forall|i: int| 0 < i < train.types.len() implies may_follow(
            train.types[i - 1],
            #[trigger] train.types[i],
        ) by {
            if i < before.types.len() {
                assert(train.types[i] == before.types[i]);
                assert(train.types[i - 1] == before.types[i - 1]);
            } else {
                assert(train.types[i - 1] == before.types.last());
            }
        }
    }
}

/// What was measured of a classified pulse.
#[derive(Clone, Copy, Debug, PartialEq, Eq, Structural)]
pub struct PulseMeasure {
    /// Its distance from the pulse before, in half lines, rounded.
    pub half_lines: i64,
    /// Whether it lies more than a field after the first pulse.
    pub past_field: bool,
}

/// The place of a length that was not measured, in half lines.
pub const UNMEASURED: i64 = -2;

/// The pulses at which the sections of the two blanking intervals begin and
/// end, and the distances that tell the order of fields.
#[verifier::ext_equal]
pub struct SectionsView {
    /// For both intervals: the first equalising pulse, the first vertical sync,
    /// the first equalising pulse after it, the last pulse.
    pub marks: Seq<Option<usize>>,
    /// For both intervals: the half lines before the first equalising pulse,
    /// and after the last.
    pub lengths: Seq<i64>,
    /// Whether the second interval is being followed.
    pub second: bool,
}

/// The sections with what the pulse at `index` adds.
pub open spec fn sections_step(
    sections: SectionsView,
    train: PulseTrain,
    measures: Seq<PulseMeasure>,
    index: int,
) -> SectionsView {
    if index == 0 || !train.good[index] {
        sections
    } else {
        let second = sections.second || measures[index].past_field;
        let base = if second {
            4int
        } else {
            0int
        };
        let length_base = if second {
            2int
        } else {
            0int
        };
        let before = train.types[index - 1];
        let here = train.types[index];
        let marks = sections.marks;
        let lengths = sections.lengths;
        if before == PulseType::Hsync && here != PulseType::Hsync {
            SectionsView {
                marks: marks.update(base, Some(index as usize)),
                lengths: lengths.update(length_base, measures[index].half_lines),
                second,
            }
        } else if before == PulseType::Eqpl1 && here == PulseType::Vsync {
            SectionsView { marks: marks.update(base + 1, Some(index as usize)), lengths, second }
        } else if before == PulseType::Vsync && here == PulseType::Eqpl2 {
            SectionsView { marks: marks.update(base + 2, Some(index as usize)), lengths, second }
        } else if before != PulseType::Hsync && here == PulseType::Hsync {
            SectionsView {
                marks: marks.update(base + 3, Some((index - 1) as usize)),
                lengths: lengths.update(length_base + 1, measures[index].half_lines),
                second,
            }
        } else {
            SectionsView { marks, lengths, second }
        }
    }
}

/// The sections that the first `count` pulses show.
pub open spec fn sections_of(train: PulseTrain, measures: Seq<PulseMeasure>, count: nat) -> SectionsView
    decreases count,
{
    if count == 0 {
        SectionsView {
            marks: Seq::new(8, |i: int| None),
            lengths: Seq::new(4, |i: int| UNMEASURED),
            second: false,
        }
    } else {
        sections_step(
            sections_of(train, measures, (count - 1) as nat),
            train,
            measures,
            count - 1,
        )
    }
}

/// The pulses at which the sections of the leading and of the trailing blanking
/// interval begin and end, and the distances that tell the order of fields.
pub fn measure_vblank_sections(pulses: &ValidPulses, measures: &[PulseMeasure]) -> (result: (
    [Option<usize>; 8],
    [i64; 4],
))
    requires
        pulses@.wf(),
        measures@.len() == pulses@.types.len(),
    ensures
        ({
            let sections = sections_of(pulses@, measures@, measures@.len());
            &&& result.0@ == sections.marks
            &&& result.1@ == sections.lengths
        }),
{
    let mut marks: [Option<usize>; 8] = [None, None, None, None, None, None, None, None];
    let mut lengths: [i64; 4] = [UNMEASURED, UNMEASURED, UNMEASURED, UNMEASURED];
    let mut second = false;
    let mut index: usize = 0;
    proof {
        assert(sections_of(pulses@, measures@, 0) =~= (SectionsView {
            marks: marks@,
            lengths: lengths@,
            second,
        }));
    }
    while index < measures.len()
        invariant
            index <= measures@.len() == pulses@.types.len(),
            pulses@.wf(),
            sections_of(pulses@, measures@, index as nat) == (SectionsView {
                marks: marks@,
                lengths: lengths@,
                second,
            }),
        decreases measures@.len() - index,
    {
        if index > 0 && pulses.good[index] {
            let measure: PulseMeasure = measures[index];
            second = second || measure.past_field;
            let base: usize = if second {
                4
            } else {
                0
            };
            let length_base: usize = if second {
                2
            } else {
                0
            };
            let before: PulseType = pulses.types[index - 1];
            let here: PulseType = pulses.types[index];
            if before == PulseType::Hsync && here != PulseType::Hsync {
                marks[base] = Some(index);
                lengths[length_base] = measure.half_lines;
            } else if before == PulseType::Eqpl1 && here == PulseType::Vsync {
                marks[base + 1] = Some(index);
            } else if before == PulseType::Vsync && here == PulseType::Eqpl2 {
                marks[base + 2] = Some(index);
            } else if before != PulseType::Hsync && here == PulseType::Hsync {
                marks[base + 3] = Some(index - 1);
                lengths[length_base + 1] = measure.half_lines;
            }
        }
        index = index + 1;
        proof {
            assert(sections_of(pulses@, measures@, index as nat) =~= (SectionsView {
                marks: marks@,
                lengths: lengths@,
                second,
            }));
        }
    }
    (marks, lengths)
}

} // verus!
