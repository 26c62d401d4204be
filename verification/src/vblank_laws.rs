//! What the classified pulses of a blanking interval are, and what the measures of
//! its sections say, over the pulses themselves.
use vstd::prelude::*;

use crate::vblank;
use crate::vblank::{
    PulseMeasure, PulseRanges, PulseSample, PulseTrain, PulseType, QualityRanges, RealBound,
};

verus! {

/// Where among the first `count` pulses those lie that were taken.
pub open spec fn taken_places(
    pulses: Seq<PulseSample>,
    ends: Seq<RealBound>,
    ranges: PulseRanges,
    quality: QualityRanges,
    count: nat,
) -> Seq<int>
    decreases count,
{
    if count == 0 {
        Seq::empty()
    } else {
        let before = taken_places(pulses, ends, ranges, quality, (count - 1) as nat);
        let now = vblank::vblank_run(pulses, ends, ranges, quality, count).train.types.len();
        if now > before.len() {
            before.push(count - 1)
        } else {
            before
        }
    }
}

/// That a pulse has the length of its kind.
pub open spec fn fits_kind(ranges: PulseRanges, kind: PulseType, len: i64) -> bool {
    match kind {
        PulseType::Hsync => ranges.hsync.min <= len <= ranges.hsync.max,
        PulseType::Eqpl1 => ranges.eq.min <= len <= ranges.eq.max,
        PulseType::Vsync => ranges.vsync.min <= len <= ranges.vsync.max,
        PulseType::Eqpl2 => ranges.eq.min <= len <= ranges.eq.max,
    }
}

/// That two neighbours lie as far apart as they should: two horizontal syncs by the
/// distance of lines, two pulses of a blanking interval by that of its pulses, one
/// of each by that of both.
pub open spec fn sound_gap(
    quality: QualityRanges,
    first: PulseType,
    second: PulseType,
    gap: int,
) -> bool {
    if first == PulseType::Hsync && second == PulseType::Hsync {
        quality.lines.min <= gap <= quality.lines.max
    } else if first == PulseType::Hsync || second == PulseType::Hsync {
        quality.mixed.min <= gap <= quality.mixed.max
    } else {
        quality.blanking.min <= gap <= quality.blanking.max
    }
}

/// The pulses of an interval are taken from the train in their order, each at most
/// once, under its own start and with a kind that has its length; each is sound by
/// its distance from the one taken before.
pub proof fn law_taken_pulses(
    pulses: Seq<PulseSample>,
    ends: Seq<RealBound>,
    ranges: PulseRanges,
    quality: QualityRanges,
    count: nat,
)
    ensures
        ({
            let train = vblank::vblank_run(pulses, ends, ranges, quality, count).train;
            let places = taken_places(pulses, ends, ranges, quality, count);
            &&& train.types.len() == train.starts.len() == train.good.len() == places.len()
            &&& forall|i: int| 0 <= i < places.len() ==> 0 <= #[trigger] places[i] < count
            &&& forall|i: int, j: int|
                0 <= i < j < places.len() ==> #[trigger] places[i] < #[trigger] places[j]
            &&& forall|i: int|
                0 <= i < places.len() ==> #[trigger] train.starts[i] == pulses[places[i]].start
            &&& forall|i: int|
                0 <= i < places.len() ==> fits_kind(
                    ranges,
                    #[trigger] train.types[i],
                    pulses[places[i]].len,
                )
            &&& forall|i: int|
                0 <= i < places.len() ==> #[trigger] train.good[i] == (i > 0 && sound_gap(
                    quality,
                    train.types[i - 1],
                    train.types[i],
                    train.starts[i] - train.starts[i - 1],
                ))
        }),
    decreases count,
{
    if count > 0 {
        law_taken_pulses(pulses, ends, ranges, quality, (count - 1) as nat);
        let before = vblank::vblank_run(pulses, ends, ranges, quality, (count - 1) as nat).train;
        let train = vblank::vblank_run(pulses, ends, ranges, quality, count).train;
        let old_places = taken_places(pulses, ends, ranges, quality, (count - 1) as nat);
        let places = taken_places(pulses, ends, ranges, quality, count);
        if train.types.len() > before.types.len() {
            assert(places == old_places.push(count - 1));
            assert forall|i: int| 0 <= i < places.len() implies #[trigger] train.good[i] == (i > 0
                && sound_gap(
                quality,
                train.types[i - 1],
                train.types[i],
                train.starts[i] - train.starts[i - 1],
            )) by {
                if i < before.types.len() {
                    assert(train.good[i] == before.good[i]);
                    assert(train.types[i] == before.types[i]);
                    assert(train.starts[i] == before.starts[i]);
                    if i > 0 {
                        assert(train.types[i - 1] == before.types[i - 1]);
                        assert(train.starts[i - 1] == before.starts[i - 1]);
                    }
                }
            }
            assert forall|i: int| 0 <= i < places.len() implies fits_kind(
                ranges,
                #[trigger] train.types[i],
                pulses[places[i]].len,
            ) by {
                if i < before.types.len() {
                    assert(train.types[i] == before.types[i]);
                    assert(places[i] == old_places[i]);
                }
            }
            assert forall|i: int| 0 <= i < places.len() implies #[trigger] train.starts[i]
                == pulses[places[i]].start by {
                if i < before.types.len() {
                    assert(train.starts[i] == before.starts[i]);
                    assert(places[i] == old_places[i]);
                }
            }
        }
    }
}

/// That a section of equalising pulses or of vertical syncs opens at a place of a
/// train.
pub open spec fn section_opens(types: Seq<PulseType>, i: int) -> bool {
    &&& 0 < i < types.len()
    &&& {
        ||| types[i - 1] == PulseType::Hsync && types[i] == PulseType::Eqpl1
        ||| types[i - 1] == PulseType::Eqpl1 && types[i] == PulseType::Vsync
        ||| types[i - 1] == PulseType::Vsync && types[i] == PulseType::Eqpl2
    }
}

/// A section lasts: the kind does not change again before the place where the
/// section that a pulse opened was to end.
pub proof fn law_sections_last(
    pulses: Seq<PulseSample>,
    ends: Seq<RealBound>,
    ranges: PulseRanges,
    quality: QualityRanges,
    count: nat,
)
    ensures
        ({
            let run = vblank::vblank_run(pulses, ends, ranges, quality, count);
            let train = run.train;
            let places = taken_places(pulses, ends, ranges, quality, count);
            &&& forall|e: int, i: int|
                #![trigger section_opens(train.types, e), train.types[i]]
                section_opens(train.types, e) && e < i < train.types.len() && train.types[i]
                    != train.types[i - 1] && (forall|k: int|
                    e < k < i ==> #[trigger] train.types[k] == train.types[e])
                    ==> pulses[places[i]].start >= ends[places[e]].ceil
            &&& forall|e: int|
                #![trigger section_opens(train.types, e)]
                section_opens(train.types, e) && (forall|k: int|
                    e < k < train.types.len() ==> #[trigger] train.types[k] == train.types[e])
                    ==> run.section_end == ends[places[e]]
        }),
    decreases count,
{
    if count > 0 {
        law_sections_last(pulses, ends, ranges, quality, (count - 1) as nat);
        law_taken_pulses(pulses, ends, ranges, quality, (count - 1) as nat);
        law_taken_pulses(pulses, ends, ranges, quality, count);
        let old_run = vblank::vblank_run(pulses, ends, ranges, quality, (count - 1) as nat);
        let run = vblank::vblank_run(pulses, ends, ranges, quality, count);
        let before = old_run.train;
        let train = run.train;
        let old_places = taken_places(pulses, ends, ranges, quality, (count - 1) as nat);
        let places = taken_places(pulses, ends, ranges, quality, count);
        let last = before.types.len() as int;
        if train.types.len() > before.types.len() {
            assert(forall|k: int| 0 <= k < last ==> train.types[k] == before.types[k]);
            assert(forall|k: int| 0 <= k < last ==> places[k] == old_places[k]);
            assert forall|e: int, i: int|
                #![trigger section_opens(train.types, e), train.types[i]]
                section_opens(train.types, e) && e < i < train.types.len() && train.types[i]
                    != train.types[i - 1] && (forall|k: int|
                    e < k < i ==> #[trigger] train.types[k] == train.types[e]) implies pulses[
            places[i]].start >= ends[places[e]].ceil by {
                assert(section_opens(before.types, e));
                assert forall|k: int| e < k < i implies #[trigger] before.types[k]
                    == before.types[e] by {
                    assert(train.types[k] == train.types[e]);
                }
                if i < last {
                    assert(before.types[i] != before.types[i - 1]);
                }
            }
            assert forall|e: int|
                #![trigger section_opens(train.types, e)]
                section_opens(train.types, e) && (forall|k: int|
                    e < k < train.types.len() ==> #[trigger] train.types[k] == train.types[e])
                implies run.section_end == ends[places[e]] by {
                if e < last {
                    assert(section_opens(before.types, e));
                    assert forall|k: int| e < k < last implies #[trigger] before.types[k]
                        == before.types[e] by {
                        assert(train.types[k] == train.types[e]);
                    }
                    assert(train.types[last] == train.types[e]);
                    if e < last - 1 {
                        assert(train.types[last - 1] == train.types[e]);
                    }
                }
            }
        }
    }
}

/// The next pulse of an interval that has not been left is taken if it has the
/// length of the kind that was taken last: vertical syncs go on unless the pulse
/// passes for an equalising one. A first pulse is taken if it has the length of a
/// horizontal sync, and no other.
pub proof fn law_kind_goes_on(
    pulses: Seq<PulseSample>,
    ends: Seq<RealBound>,
    ranges: PulseRanges,
    quality: QualityRanges,
    count: nat,
)
    requires
        !vblank::vblank_run(pulses, ends, ranges, quality, count).done,
    ensures
        ({
            let run = vblank::vblank_run(pulses, ends, ranges, quality, count);
            let next = vblank::vblank_run(pulses, ends, ranges, quality, count + 1);
            let types = run.train.types;
            let len = pulses[count as int].len;
            let start = pulses[count as int].start;
            &&& types.len() == 0 && fits_kind(ranges, PulseType::Hsync, len) && start
                >= run.section_end.ceil ==> next.train.types == types.push(PulseType::Hsync)
            &&& types.len() == 0 && !fits_kind(ranges, PulseType::Hsync, len)
                ==> next.train.types == types
            &&& types.len() > 0 && types.last() != PulseType::Vsync && fits_kind(
                ranges,
                types.last(),
                len,
            ) ==> next.train.types == types.push(types.last())
            &&& types.len() > 0 && types.last() == PulseType::Vsync && fits_kind(
                ranges,
                PulseType::Vsync,
                len,
            ) && !fits_kind(ranges, PulseType::Eqpl2, len) ==> next.train.types == types.push(
                PulseType::Vsync,
            )
            &&& types.len() > 0 && types.last() == PulseType::Hsync && !fits_kind(
                ranges,
                PulseType::Hsync,
                len,
            ) && fits_kind(ranges, PulseType::Eqpl1, len) && start >= run.section_end.ceil
                ==> next.train.types == types.push(PulseType::Eqpl1)
            &&& types.len() > 0 && types.last() == PulseType::Eqpl1 && !fits_kind(
                ranges,
                PulseType::Eqpl1,
                len,
            ) && fits_kind(ranges, PulseType::Vsync, len) && start >= run.section_end.ceil
                ==> next.train.types == types.push(PulseType::Vsync)
            &&& types.len() > 0 && types.last() == PulseType::Vsync && fits_kind(
                ranges,
                PulseType::Eqpl2,
                len,
            ) && start >= run.section_end.ceil ==> next.train.types == types.push(
                PulseType::Eqpl2,
            )
            &&& types.len() > 0 && types.last() == PulseType::Eqpl2 && !fits_kind(
                ranges,
                PulseType::Eqpl2,
                len,
            ) && fits_kind(ranges, PulseType::Hsync, len) && start >= run.section_end.ceil
                ==> next.train.types == types.push(PulseType::Hsync) && next.done
            &&& next.done <==> types.len() > 0 && types.last() == PulseType::Eqpl2 && !fits_kind(
                ranges,
                PulseType::Eqpl2,
                len,
            ) && fits_kind(ranges, PulseType::Hsync, len)
        }),
{
    let run = vblank::vblank_run(pulses, ends, ranges, quality, count);
    let next = vblank::vblank_run(pulses, ends, ranges, quality, count + 1);
    assert(next == vblank::vblank_step(
        run,
        pulses[count as int],
        ends[count as int],
        ranges,
        quality,
    ));
}

/// An interval can also break off or skip a section. Behind a horizontal sync a vertical
/// one may follow at once, and behind the first equalising pulses a horizontal one; behind
/// a vertical sync a horizontal one only where it starts past the end of the section. What
/// has no such length, or would change the kind before the section was to end, is passed
/// over.
pub proof fn law_kind_changes(
    pulses: Seq<PulseSample>,
    ends: Seq<RealBound>,
    ranges: PulseRanges,
    quality: QualityRanges,
    count: nat,
)
    requires
        !vblank::vblank_run(pulses, ends, ranges, quality, count).done,
        vblank::vblank_run(pulses, ends, ranges, quality, count).train.types.len() > 0,
    ensures
        ({
            let run = vblank::vblank_run(pulses, ends, ranges, quality, count);
            let next = vblank::vblank_run(pulses, ends, ranges, quality, count + 1);
            let types = run.train.types;
            let last = types[types.len() - 1];
            let len = pulses[count as int].len;
            let start = pulses[count as int].start;
            let hsync = fits_kind(ranges, PulseType::Hsync, len);
            let eq = fits_kind(ranges, PulseType::Eqpl1, len);
            let vsync = fits_kind(ranges, PulseType::Vsync, len);
            let past = start >= run.section_end.ceil;
            &&& last == PulseType::Hsync && !hsync && !eq && vsync && past ==> next.train.types
                == types.push(PulseType::Vsync)
            &&& last == PulseType::Eqpl1 && !eq && !vsync && hsync && past ==> next.train.types
                == types.push(PulseType::Hsync)
            &&& last == PulseType::Vsync && !eq && !vsync && hsync && start > run.section_end.floor
                && past ==> next.train.types == types.push(PulseType::Hsync)
            &&& last == PulseType::Vsync && !eq && !vsync && start <= run.section_end.floor
                ==> next.train == run.train
            &&& !hsync && !eq && !vsync ==> next.train == run.train
            &&& last == PulseType::Eqpl2 && !eq && !hsync ==> next.train == run.train
            &&& !past && next.train.types.len() > types.len() ==> next.train.types == types.push(
                last,
            )
        }),
{
    let run = vblank::vblank_run(pulses, ends, ranges, quality, count);
    let next = vblank::vblank_run(pulses, ends, ranges, quality, count + 1);
    assert(next == vblank::vblank_step(
        run,
        pulses[count as int],
        ends[count as int],
        ranges,
        quality,
    ));
}

/// That the pulse at `i` would open a section behind the last pulse that was taken before
/// it: the first equalising pulse behind a horizontal sync, the first vertical sync behind
/// those, or the first equalising pulse behind vertical syncs.
pub open spec fn would_open(
    pulses: Seq<PulseSample>,
    ends: Seq<RealBound>,
    ranges: PulseRanges,
    quality: QualityRanges,
    i: int,
) -> bool {
    let types = vblank::vblank_run(pulses, ends, ranges, quality, i as nat).train.types;
    let last = types[types.len() - 1];
    let hsync = fits_kind(ranges, PulseType::Hsync, pulses[i].len);
    let eq = fits_kind(ranges, PulseType::Eqpl1, pulses[i].len);
    let vsync = fits_kind(ranges, PulseType::Vsync, pulses[i].len);
    &&& types.len() > 0
    &&& {
        ||| last == PulseType::Hsync && !hsync && eq
        ||| last == PulseType::Eqpl1 && !eq && vsync
        ||| last == PulseType::Vsync && eq
    }
}

/// That the pulse at `i` was taken and changed the kind.
pub open spec fn changed_kind(
    pulses: Seq<PulseSample>,
    ends: Seq<RealBound>,
    ranges: PulseRanges,
    quality: QualityRanges,
    i: int,
) -> bool {
    let before = vblank::vblank_run(pulses, ends, ranges, quality, i as nat).train.types;
    let after = vblank::vblank_run(pulses, ends, ranges, quality, (i + 1) as nat).train.types;
    &&& after.len() > before.len()
    &&& before.len() == 0 || after[after.len() - 1] != before[before.len() - 1]
}

/// That since the kind last changed a pulse would have opened a section.
pub open spec fn section_due(
    pulses: Seq<PulseSample>,
    ends: Seq<RealBound>,
    ranges: PulseRanges,
    quality: QualityRanges,
    count: int,
) -> bool {
    exists|i: int|
        0 <= i < count && #[trigger] would_open(pulses, ends, ranges, quality, i) && forall|j: int|
            i <= j < count ==> !#[trigger] changed_kind(pulses, ends, ranges, quality, j)
}

proof fn lemma_section_due(
    pulses: Seq<PulseSample>,
    ends: Seq<RealBound>,
    ranges: PulseRanges,
    quality: QualityRanges,
    count: int,
)
    requires
        0 <= count,
    ensures
        section_due(pulses, ends, ranges, quality, count + 1) <==> {
            &&& !changed_kind(pulses, ends, ranges, quality, count)
            &&& section_due(pulses, ends, ranges, quality, count) || would_open(
                pulses,
                ends,
                ranges,
                quality,
                count,
            )
        },
{
    if section_due(pulses, ends, ranges, quality, count + 1) {
        let i = choose|i: int|
            0 <= i < count + 1 && #[trigger] would_open(pulses, ends, ranges, quality, i)
                && forall|j: int|
                i <= j < count + 1 ==> !#[trigger] changed_kind(pulses, ends, ranges, quality, j);
        assert(!changed_kind(pulses, ends, ranges, quality, count));
        if i < count {
            assert(would_open(pulses, ends, ranges, quality, i));
        }
    }
    if !changed_kind(pulses, ends, ranges, quality, count) {
        if section_due(pulses, ends, ranges, quality, count) {
            let i = choose|i: int|
                0 <= i < count && #[trigger] would_open(pulses, ends, ranges, quality, i)
                    && forall|j: int|
                    i <= j < count ==> !#[trigger] changed_kind(pulses, ends, ranges, quality, j);
            assert(would_open(pulses, ends, ranges, quality, i));
        }
        if would_open(pulses, ends, ranges, quality, count) {
            assert(section_due(pulses, ends, ranges, quality, count + 1));
        }
    }
}

/// The end of a section is that of the pulse that changes the kind while a section is due,
/// whether that pulse opens it or one that came too early would have; any other pulse
/// leaves the end as it was.
pub proof fn law_section_ends(
    pulses: Seq<PulseSample>,
    ends: Seq<RealBound>,
    ranges: PulseRanges,
    quality: QualityRanges,
    count: nat,
)
    ensures
        ({
            let run = vblank::vblank_run(pulses, ends, ranges, quality, count);
            let next = vblank::vblank_run(pulses, ends, ranges, quality, count + 1);
            let due = section_due(pulses, ends, ranges, quality, count as int) || would_open(
                pulses,
                ends,
                ranges,
                quality,
                count as int,
            );
            &&& !run.done ==> run.opening == section_due(
                pulses,
                ends,
                ranges,
                quality,
                count as int,
            )
            &&& !run.done ==> next.section_end == if changed_kind(
                pulses,
                ends,
                ranges,
                quality,
                count as int,
            ) && due {
                ends[count as int]
            } else {
                run.section_end
            }
        }),
    decreases count,
{
    let run = vblank::vblank_run(pulses, ends, ranges, quality, count);
    let next = vblank::vblank_run(pulses, ends, ranges, quality, count + 1);
    if count > 0 {
        law_section_ends(pulses, ends, ranges, quality, (count - 1) as nat);
        lemma_section_due(pulses, ends, ranges, quality, count - 1);
        let before = vblank::vblank_run(pulses, ends, ranges, quality, (count - 1) as nat);
        if !before.done {
            assert(run == vblank::vblank_step(
                before,
                pulses[count - 1],
                ends[count - 1],
                ranges,
                quality,
            ));
        }
    }
    if !run.done {
        assert(next == vblank::vblank_step(
            run,
            pulses[count as int],
            ends[count as int],
            ranges,
            quality,
        ));
    }
}

/// A whole blanking interval is followed to its end: horizontal syncs, a section of
/// equalising pulses, one of vertical syncs and one of equalising pulses again, each
/// beginning no earlier than the one before was to end, and a horizontal sync. Every
/// pulse of it is taken, with its own kind.
pub proof fn law_whole_interval(
    pulses: Seq<PulseSample>,
    ends: Seq<RealBound>,
    ranges: PulseRanges,
    quality: QualityRanges,
    first_eq: int,
    first_vsync: int,
    second_eq: int,
    last: int,
    count: nat,
)
    requires
        0 < first_eq < first_vsync < second_eq < last < pulses.len(),
        count <= last + 1,
        forall|i: int|
            0 <= i <= last ==> 0 <= (#[trigger] pulses[i]).start,
        forall|len: i64|
            !(#[trigger] fits_kind(ranges, PulseType::Hsync, len) && fits_kind(
                ranges,
                PulseType::Eqpl1,
                len,
            )),
        forall|len: i64|
            !(#[trigger] fits_kind(ranges, PulseType::Vsync, len) && fits_kind(
                ranges,
                PulseType::Eqpl1,
                len,
            )),
        forall|i: int|
            0 <= i < first_eq || i == last ==> fits_kind(
                ranges,
                PulseType::Hsync,
                (#[trigger] pulses[i]).len,
            ),
        forall|i: int|
            first_eq <= i < first_vsync || second_eq <= i < last ==> fits_kind(
                ranges,
                PulseType::Eqpl1,
                (#[trigger] pulses[i]).len,
            ),
        forall|i: int|
            first_vsync <= i < second_eq ==> fits_kind(
                ranges,
                PulseType::Vsync,
                (#[trigger] pulses[i]).len,
            ),
        pulses[first_vsync].start >= ends[first_eq].ceil,
        pulses[second_eq].start >= ends[first_vsync].ceil,
        pulses[last].start >= ends[second_eq].ceil,
    ensures
        ({
            let run = vblank::vblank_run(pulses, ends, ranges, quality, count);
            &&& run.done <==> count == last + 1
            &&& run.train.types.len() == count
            &&& forall|i: int|
                0 <= i < count ==> #[trigger] run.train.types[i] == (if i < first_eq || i == last {
                    PulseType::Hsync
                } else if i < first_vsync {
                    PulseType::Eqpl1
                } else if i < second_eq {
                    PulseType::Vsync
                } else {
                    PulseType::Eqpl2
                })
            &&& forall|i: int| 0 <= i < count ==> #[trigger] run.train.starts[i] == pulses[i].start
            &&& count <= first_eq ==> run.section_end.ceil == 0 && !run.opening
            &&& first_eq < count <= first_vsync ==> run.section_end == ends[first_eq]
                && !run.opening
            &&& first_vsync < count <= second_eq ==> run.section_end == ends[first_vsync]
                && !run.opening
            &&& second_eq < count <= last ==> run.section_end == ends[second_eq] && !run.opening
        }),
    decreases count,
{
    if count > 0 {
        law_whole_interval(
            pulses,
            ends,
            ranges,
            quality,
            first_eq,
            first_vsync,
            second_eq,
            last,
            (count - 1) as nat,
        );
        vblank::law_pulse_order(pulses, ends, ranges, quality, (count - 1) as nat);
        let run = vblank::vblank_run(pulses, ends, ranges, quality, (count - 1) as nat);
        let here = pulses[count - 1];
        let next = vblank::vblank_run(pulses, ends, ranges, quality, count);
        let at = count - 1;
        assert(!run.done);
        assert(next == vblank::vblank_step(run, here, ends[at], ranges, quality));
        assert(!(fits_kind(ranges, PulseType::Hsync, here.len) && fits_kind(
            ranges,
            PulseType::Eqpl1,
            here.len,
        )));
        assert(!(fits_kind(ranges, PulseType::Vsync, here.len) && fits_kind(
            ranges,
            PulseType::Eqpl1,
            here.len,
        )));
        if at > 0 {
            assert(run.train.types[at - 1] == run.train.types.last());
        }
        let kind = if at < first_eq || at == last {
            PulseType::Hsync
        } else if at < first_vsync {
            PulseType::Eqpl1
        } else if at < second_eq {
            PulseType::Vsync
        } else {
            PulseType::Eqpl2
        };
        assert(fits_kind(ranges, kind, here.len)) by {
            assert(here == pulses[at]);
        }
        assert(vblank::next_type(vblank::last_type(run.train), here, run.section_end, ranges)
            == Some(kind));
        assert(here.start >= run.section_end.ceil || Some(kind) == vblank::last_type(run.train));
        assert(next.train == run.train.with(kind, here.start, quality));
    }
}

/// A place of a train where sections meet: 0 where the first pulse of a blanking
/// interval follows a horizontal sync, 1 where vertical syncs follow equalising
/// pulses, 2 where equalising pulses follow vertical syncs, 3 where a horizontal
/// sync follows the last pulse of the interval.
pub open spec fn meets(types: Seq<PulseType>, i: int, kind: int) -> bool {
    ||| kind == 0 && types[i - 1] == PulseType::Hsync && types[i] != PulseType::Hsync
    ||| kind == 1 && types[i - 1] == PulseType::Eqpl1 && types[i] == PulseType::Vsync
    ||| kind == 2 && types[i - 1] == PulseType::Vsync && types[i] == PulseType::Eqpl2
    ||| kind == 3 && types[i - 1] != PulseType::Hsync && types[i] == PulseType::Hsync
}

/// Whether a pulse belongs to the trailing interval: a sound pulse up to it lies past
/// the field.
pub open spec fn trails(train: PulseTrain, measures: Seq<PulseMeasure>, i: int) -> bool {
    exists|j: int| 0 < j <= i && #[trigger] train.good[j] && measures[j].past_field
}

/// That `found` is the last sound place before `count` where sections of an interval
/// meet in a way; nothing where there is none.
pub open spec fn last_meeting(
    train: PulseTrain,
    measures: Seq<PulseMeasure>,
    trailing: bool,
    kind: int,
    count: int,
    found: Option<int>,
) -> bool {
    match found {
        None => forall|i: int|
            0 < i < count && #[trigger] train.good[i] && meets(train.types, i, kind) ==> trails(
                train,
                measures,
                i,
            ) != trailing,
        Some(place) => {
            &&& 0 < place < count
            &&& train.good[place]
            &&& meets(train.types, place, kind)
            &&& trails(train, measures, place) == trailing
            &&& forall|i: int|
                place < i < count && #[trigger] train.good[i] && meets(train.types, i, kind)
                    ==> trails(train, measures, i) != trailing
        },
    }
}

/// A place that a mark names; the mark of the last pulse lies one before the meeting.
pub open spec fn marked_place(mark: Option<usize>, kind: int) -> Option<int> {
    match mark {
        None => None,
        Some(place) => Some(
            if kind == 3 {
                place + 1
            } else {
                place as int
            },
        ),
    }
}

/// The half lines at a place, or that they were not measured.
pub open spec fn length_at(measures: Seq<PulseMeasure>, place: Option<int>) -> int {
    match place {
        None => -2,
        Some(place) => measures[place].half_lines as int,
    }
}

/// What is measured of the blanking intervals: of the leading one and of the trailing
/// one each the last sound place where its sections meet, four marks each, and the
/// half lines before its first equalising pulse and after its last, two lengths
/// each. A pulse past the field has no part in the leading interval, nor one before
/// it in the trailing one.
pub proof fn law_sections_measured(
    train: PulseTrain,
    measures: Seq<PulseMeasure>,
    count: nat,
)
    requires
        train.wf(),
        count <= train.types.len() <= usize::MAX,
        measures.len() == train.types.len(),
    ensures
        ({
            let found = vblank::sections_of(train, measures, count);
            &&& found.marks.len() == 8
            &&& found.lengths.len() == 4
            &&& forall|kind: int|
                0 <= kind < 4 ==> last_meeting(
                    train,
                    measures,
                    false,
                    kind,
                    count as int,
                    marked_place(#[trigger] found.marks[kind], kind),
                )
            &&& forall|k: int|
                4 <= k < 8 ==> last_meeting(
                    train,
                    measures,
                    true,
                    k - 4,
                    count as int,
                    marked_place(#[trigger] found.marks[k], k - 4),
                )
            &&& found.lengths[0] == length_at(measures, marked_place(found.marks[0], 0))
            &&& found.lengths[1] == length_at(measures, marked_place(found.marks[3], 3))
            &&& found.lengths[2] == length_at(measures, marked_place(found.marks[4], 0))
            &&& found.lengths[3] == length_at(measures, marked_place(found.marks[7], 3))
            &&& found.second == trails(train, measures, count - 1)
        }),
    decreases count,
{
    if count > 0 {
        law_sections_measured(train, measures, (count - 1) as nat);
        let before = vblank::sections_of(train, measures, (count - 1) as nat);
        let found = vblank::sections_of(train, measures, count);
        let at = count - 1;
        lemma_trails_next(train, measures, at);
        assert(found == vblank::sections_step(before, train, measures, at));
        assert forall|kind: int| 0 <= kind < 4 implies last_meeting(
            train,
            measures,
            false,
            kind,
            count as int,
            marked_place(#[trigger] found.marks[kind], kind),
        ) by {
            assert(last_meeting(
                train,
                measures,
                false,
                kind,
                at,
                marked_place(before.marks[kind], kind),
            ));
            lemma_last_meeting(train, measures, false, kind, at, marked_place(before.marks[kind], kind));
        }
        assert forall|k: int| 4 <= k < 8 implies last_meeting(
            train,
            measures,
            true,
            k - 4,
            count as int,
            marked_place(#[trigger] found.marks[k], k - 4),
        ) by {
            assert(last_meeting(
                train,
                measures,
                true,
                k - 4,
                at,
                marked_place(before.marks[k], k - 4),
            ));
            lemma_last_meeting(
                train,
                measures,
                true,
                k - 4,
                at,
                marked_place(before.marks[k], k - 4),
            );
        }
    }
}

proof fn lemma_trails_next(train: PulseTrain, measures: Seq<PulseMeasure>, at: int)
    requires
        0 <= at,
    ensures
        trails(train, measures, at) == (trails(train, measures, at - 1) || (at > 0
            && train.good[at] && measures[at].past_field)),
{
    if trails(train, measures, at - 1) {
        let j = choose|j: int| 0 < j <= at - 1 && #[trigger] train.good[j] && measures[j].past_field;
        assert(0 < j <= at && train.good[j]);
    }
}

proof fn lemma_last_meeting(
    train: PulseTrain,
    measures: Seq<PulseMeasure>,
    trailing: bool,
    kind: int,
    at: int,
    before: Option<int>,
)
    requires
        last_meeting(train, measures, trailing, kind, at, before),
        0 <= at,
    ensures
        at > 0 && train.good[at] && meets(train.types, at, kind) && trails(train, measures, at)
            == trailing ==> last_meeting(train, measures, trailing, kind, at + 1, Some(at)),
        !(at > 0 && train.good[at] && meets(train.types, at, kind) && trails(train, measures, at)
            == trailing) ==> last_meeting(train, measures, trailing, kind, at + 1, before),
{
}

/// A field whose intervals have the distances of a signature measures that signature:
/// `a` half lines before the first equalising pulse of the leading interval and `b`
/// after its last, `c` and `d` the same of the trailing one.
pub proof fn law_distances_measured(
    train: PulseTrain,
    measures: Seq<PulseMeasure>,
    a: i64,
    b: i64,
    c: i64,
    d: i64,
)
    requires
        train.wf(),
        train.types.len() <= usize::MAX,
        measures.len() == train.types.len(),
        forall|i: int|
            0 < i < train.types.len() && #[trigger] train.good[i] && train.types[i - 1]
                == PulseType::Hsync && train.types[i] != PulseType::Hsync
                ==> measures[i].half_lines == if trails(train, measures, i) {
                c
            } else {
                a
            },
        forall|i: int|
            0 < i < train.types.len() && #[trigger] train.good[i] && train.types[i - 1]
                != PulseType::Hsync && train.types[i] == PulseType::Hsync
                ==> measures[i].half_lines == if trails(train, measures, i) {
                d
            } else {
                b
            },
        exists|i: int| last_meeting(train, measures, false, 0, train.types.len() as int, Some(i)),
        exists|i: int| last_meeting(train, measures, false, 3, train.types.len() as int, Some(i)),
        exists|i: int| last_meeting(train, measures, true, 0, train.types.len() as int, Some(i)),
        exists|i: int| last_meeting(train, measures, true, 3, train.types.len() as int, Some(i)),
    ensures
        vblank::sections_of(train, measures, train.types.len()).lengths == seq![a, b, c, d],
{
    let count = train.types.len();
    law_sections_measured(train, measures, count);
    let found = vblank::sections_of(train, measures, count);
    let p = choose|i: int| last_meeting(train, measures, false, 0, count as int, Some(i));
    let q = choose|i: int| last_meeting(train, measures, false, 3, count as int, Some(i));
    let r = choose|i: int| last_meeting(train, measures, true, 0, count as int, Some(i));
    let s = choose|i: int| last_meeting(train, measures, true, 3, count as int, Some(i));
    assert(train.good[p] && train.good[q] && train.good[r] && train.good[s]);
    assert(last_meeting(train, measures, false, 0, count as int, marked_place(found.marks[0], 0)));
    assert(last_meeting(train, measures, false, 3, count as int, marked_place(found.marks[3], 3)));
    assert(last_meeting(train, measures, true, 0, count as int, marked_place(found.marks[4], 0)));
    assert(last_meeting(train, measures, true, 3, count as int, marked_place(found.marks[7], 3)));
    assert(found.lengths =~= seq![a, b, c, d]);
}

} // verus!
