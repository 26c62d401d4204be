//! What the classification of a field's pulses comes to, over the pulses themselves.
use vstd::prelude::*;

use crate::classify::{Classified, ClassifyError, Request};
use crate::pulses;
use crate::pulses::SampleRange;
use crate::slice_laws;
use crate::slices;
use crate::vblank;
use crate::vblank::{PulseRanges, PulseSample, PulseTrain, PulseType, QualityRanges, RealBound};
use crate::vblank_laws;
use crate::vblank_laws::{fits_kind, sound_gap, taken_places};

verus! {

/// How many of the pulses from `from` up to `to` have the length of a horizontal
/// sync.
pub open spec fn line_syncs(
    raw: Seq<PulseSample>,
    ranges: PulseRanges,
    from: int,
    to: int,
) -> nat
    decreases to - from,
{
    if from >= to {
        0
    } else {
        line_syncs(raw, ranges, from, to - 1) + if fits_kind(
            ranges,
            PulseType::Hsync,
            raw[to - 1].len,
        ) {
            1nat
        } else {
            0nat
        }
    }
}

/// That a train begins with another one.
pub open spec fn extends(train: PulseTrain, before: PulseTrain) -> bool {
    let count = before.types.len() as int;
    &&& train.wf()
    &&& before.types.len() <= train.types.len()
    &&& train.types.take(count) == before.types
    &&& train.starts.take(count) == before.starts
    &&& train.good.take(count) == before.good
}

/// That a pulse calls for a closer look: it is too long for a horizontal sync, or it
/// has the length of an equalising pulse, is not one of the first three, and a
/// horizontal sync was taken last.
pub open spec fn calls(len: i64, ranges: PulseRanges, i: int, after_hsync: bool) -> bool {
    &&& !fits_kind(ranges, PulseType::Hsync, len)
    &&& {
        ||| ranges.long_hsync.min <= len <= ranges.long_hsync.max
        ||| i > 2 && fits_kind(ranges, PulseType::Eqpl1, len) && after_hsync
    }
}

/// That the last pulse of a train is a horizontal sync.
pub open spec fn ends_in_hsync(train: PulseTrain) -> bool {
    train.types.len() > 0 && train.types[train.types.len() - 1] == PulseType::Hsync
}

/// That a train holds, at this place, a horizontal sync with this start.
pub open spec fn taken_at(train: PulseTrain, place: int, start: i64) -> bool {
    &&& 0 <= place < train.types.len()
    &&& train.types[place] == PulseType::Hsync
    &&& train.starts[place] == start
}

proof fn lemma_line_syncs(raw: Seq<PulseSample>, ranges: PulseRanges, from: int, to: int)
    requires
        from < to,
    ensures
        line_syncs(raw, ranges, from, to) == line_syncs(raw, ranges, from + 1, to) + if fits_kind(
            ranges,
            PulseType::Hsync,
            raw[from].len,
        ) {
            1nat
        } else {
            0nat
        },
    decreases to - from,
{
    if from + 1 < to {
        lemma_line_syncs(raw, ranges, from, to - 1);
    } else {
        assert(line_syncs(raw, ranges, from, from) == 0);
        assert(line_syncs(raw, ranges, from + 1, to) == 0);
    }
}

/// Going on takes every pulse with the length of a horizontal sync as one, in its
/// place, and adds no other.
pub proof fn law_line_syncs_taken(state: Classified, ranges: PulseRanges, quality: QualityRanges)
    requires
        state.valid.wf(),
        state.index <= state.raw.len(),
    ensures
        ({
            let after = state.advanced(ranges, quality);
            let raw = state.raw;
            let from = state.index as int;
            let count = state.valid.types.len() as int;
            &&& after.raw == raw
            &&& state.index <= after.index <= raw.len()
            &&& extends(after.valid, state.valid)
            &&& after.valid.types.len() == count + line_syncs(
                raw,
                ranges,
                from,
                after.index as int,
            )
            &&& forall|i: int|
                from <= i < after.index && fits_kind(
                    ranges,
                    PulseType::Hsync,
                    (#[trigger] raw[i]).len,
                ) ==> taken_at(after.valid, count + line_syncs(raw, ranges, from, i), raw[i].start)
        }),
    decreases state.raw.len() - state.index,
{
    let raw = state.raw;
    let from = state.index as int;
    let count = state.valid.types.len() as int;
    let after = state.advanced(ranges, quality);
    assert(line_syncs(raw, ranges, from, from) == 0);
    assert(state.valid.types.take(count) =~= state.valid.types);
    assert(state.valid.starts.take(count) =~= state.valid.starts);
    assert(state.valid.good.take(count) =~= state.valid.good);
    if state.index < raw.len() && (state.at_hsync(ranges) || !(state.at_long(ranges)
        || state.at_blanking(ranges))) {
        let next = if state.at_hsync(ranges) {
            Classified {
                index: state.index + 1,
                valid: state.valid.with(PulseType::Hsync, raw[from].start, quality),
                ..state
            }
        } else {
            Classified { index: state.index + 1, ..state }
        };
        let grown = next.valid.types.len() as int;
        law_line_syncs_taken(next, ranges, quality);
        assert(after == next.advanced(ranges, quality));
        lemma_line_syncs(raw, ranges, from, after.index as int);
        assert(state.at_hsync(ranges) <==> fits_kind(ranges, PulseType::Hsync, raw[from].len));
        assert(next.valid.types.take(count) =~= state.valid.types);
        assert(next.valid.starts.take(count) =~= state.valid.starts);
        assert(next.valid.good.take(count) =~= state.valid.good);
        assert(after.valid.types.take(count) =~= after.valid.types.take(grown).take(count));
        assert(after.valid.starts.take(count) =~= after.valid.starts.take(grown).take(count));
        assert(after.valid.good.take(count) =~= after.valid.good.take(grown).take(count));
        if state.at_hsync(ranges) {
            assert(after.valid.types.take(grown)[count] == after.valid.types[count]);
            assert(after.valid.starts.take(grown)[count] == after.valid.starts[count]);
            assert(taken_at(after.valid, count, raw[from].start));
        }
        assert forall|i: int|
            from <= i < after.index && fits_kind(
                ranges,
                PulseType::Hsync,
                (#[trigger] raw[i]).len,
            ) implies taken_at(
            after.valid,
            count + line_syncs(raw, ranges, from, i),
            raw[i].start,
        ) by {
            if i > from {
                lemma_line_syncs(raw, ranges, from, i);
            }
        }
    }
}

/// What going on adds are horizontal syncs alone, each sound exactly where it stands
/// at a sound distance behind the pulse before it.
pub proof fn law_added_line_syncs(state: Classified, ranges: PulseRanges, quality: QualityRanges)
    requires
        state.valid.wf(),
        state.index <= state.raw.len(),
    ensures
        ({
            let train = state.advanced(ranges, quality).valid;
            forall|p: int|
                state.valid.types.len() <= p < train.types.len() ==> #[trigger] train.types[p]
                    == PulseType::Hsync && train.good[p] == (p > 0 && sound_gap(
                    quality,
                    train.types[p - 1],
                    PulseType::Hsync,
                    train.starts[p] - train.starts[p - 1],
                ))
        }),
    decreases state.raw.len() - state.index,
{
    let raw = state.raw;
    let from = state.index as int;
    let count = state.valid.types.len() as int;
    let after = state.advanced(ranges, quality);
    if state.index < raw.len() {
        if state.at_hsync(ranges) {
            let next = Classified {
                index: state.index + 1,
                valid: state.valid.with(PulseType::Hsync, raw[from].start, quality),
                ..state
            };
            law_added_line_syncs(next, ranges, quality);
            law_line_syncs_taken(next, ranges, quality);
            assert(after == next.advanced(ranges, quality));
            assert(after.valid.types.take(count + 1)[count] == after.valid.types[count]);
            assert(after.valid.starts.take(count + 1)[count] == after.valid.starts[count]);
            assert(after.valid.good.take(count + 1)[count] == after.valid.good[count]);
            if count > 0 {
                assert(after.valid.types.take(count + 1)[count - 1] == after.valid.types[count - 1]);
                assert(after.valid.starts.take(count + 1)[count - 1] == after.valid.starts[count
                    - 1]);
            }
        } else if !state.at_long(ranges) && !state.at_blanking(ranges) {
            law_added_line_syncs(Classified { index: state.index + 1, ..state }, ranges, quality);
        }
    }
}

/// Going on passes over no pulse that calls for a closer look, and stops at the first
/// that does, or behind the last pulse.
pub proof fn law_stops_where_called(
    state: Classified,
    ranges: PulseRanges,
    quality: QualityRanges,
)
    requires
        state.valid.wf(),
        state.index <= state.raw.len(),
    ensures
        ({
            let after = state.advanced(ranges, quality);
            let raw = state.raw;
            let from = state.index as int;
            &&& forall|i: int|
                from <= i < after.index ==> !calls(
                    (#[trigger] raw[i]).len,
                    ranges,
                    i,
                    line_syncs(raw, ranges, from, i) > 0 || ends_in_hsync(state.valid),
                )
            &&& after.index < raw.len() ==> calls(
                raw[after.index as int].len,
                ranges,
                after.index as int,
                ends_in_hsync(after.valid),
            )
        }),
    decreases state.raw.len() - state.index,
{
    let raw = state.raw;
    let from = state.index as int;
    let after = state.advanced(ranges, quality);
    assert(line_syncs(raw, ranges, from, from) == 0);
    if state.index < raw.len() && (state.at_hsync(ranges) || !(state.at_long(ranges)
        || state.at_blanking(ranges))) {
        let next = if state.at_hsync(ranges) {
            Classified {
                index: state.index + 1,
                valid: state.valid.with(PulseType::Hsync, raw[from].start, quality),
                ..state
            }
        } else {
            Classified { index: state.index + 1, ..state }
        };
        law_stops_where_called(next, ranges, quality);
        assert(after == next.advanced(ranges, quality));
        assert(state.at_hsync(ranges) <==> fits_kind(ranges, PulseType::Hsync, raw[from].len));
        assert forall|i: int| from <= i < after.index implies !calls(
            (#[trigger] raw[i]).len,
            ranges,
            i,
            line_syncs(raw, ranges, from, i) > 0 || ends_in_hsync(state.valid),
        ) by {
            if i > from {
                lemma_line_syncs(raw, ranges, from, i);
            }
        }
    }
}

/// Following a blanking interval looks at the pulses from two before the current one
/// to twenty-four behind it. Where it is followed to its end, the pulses that were
/// taken, but for the first two, are added, and the next pulse to be looked at lies
/// exactly as many further on as were added: nothing behind the interval is passed
/// over. Otherwise nothing is added and only the current pulse is passed over.
pub proof fn law_interval_added(
    state: Classified,
    ends: Seq<RealBound>,
    ranges: PulseRanges,
    quality: QualityRanges,
)
    requires
        state.valid.wf(),
        2 < state.index < state.raw.len(),
    ensures
        ({
            let after = state.followed(ends, ranges, quality);
            let stop = if state.index + 24 < state.raw.len() {
                (state.index + 24) as int
            } else {
                state.raw.len() as int
            };
            let around = state.raw.subrange(state.index - 2, stop);
            let places = taken_places(around, ends, ranges, quality, around.len());
            let count = state.valid.types.len() as int;
            let added = after.valid.types.len() - count;
            &&& after.raw == state.raw
            &&& extends(after.valid, state.valid)
            &&& vblank::vblank_run(around, ends, ranges, quality, around.len()).done
                <==> added > 0
            &&& added > 0 ==> after.index == state.index + added && added == places.len() - 2
            &&& added == 0 ==> after.index == state.index + 1 && after.valid == state.valid
            &&& state.index < after.index <= state.raw.len()
            &&& forall|p: int|
                count <= p < after.valid.types.len() ==> {
                    let at = state.index - 2 + places[p - count + 2];
                    &&& state.index - 2 <= at < stop
                    &&& #[trigger] after.valid.starts[p] == state.raw[at].start
                    &&& fits_kind(ranges, after.valid.types[p], state.raw[at].len)
                }
            &&& forall|p: int|
                count < p < after.valid.types.len() ==> #[trigger] after.valid.good[p]
                    == sound_gap(
                    quality,
                    after.valid.types[p - 1],
                    after.valid.types[p],
                    after.valid.starts[p] - after.valid.starts[p - 1],
                )
        }),
{
    let after = state.followed(ends, ranges, quality);
    let around = state.raw.subrange(state.index - 2, state.section_stop());
    let run = vblank::vblank_run(around, ends, ranges, quality, around.len());
    let total = run.train.types.len() as int;
    let count = state.valid.types.len() as int;
    let places = taken_places(around, ends, ranges, quality, around.len());
    vblank_laws::law_taken_pulses(around, ends, ranges, quality, around.len());
    lemma_interval_size(around, ends, ranges, quality, around.len());
    lemma_at_most(around, ends, ranges, quality, around.len());
    if run.done {
        assert(after.valid.types.take(count) =~= state.valid.types);
        assert(after.valid.starts.take(count) =~= state.valid.starts);
        assert(after.valid.good.take(count) =~= state.valid.good);
        assert forall|p: int| count <= p < after.valid.types.len() implies {
            let at = state.index - 2 + places[p - count + 2];
            &&& state.index - 2 <= at < state.section_stop()
            &&& #[trigger] after.valid.starts[p] == state.raw[at].start
            &&& fits_kind(ranges, after.valid.types[p], state.raw[at].len)
        } by {
            let k = p - count + 2;
            assert(after.valid.types[p] == run.train.types[k]);
            assert(after.valid.starts[p] == run.train.starts[k]);
            assert(around[places[k]] == state.raw[state.index - 2 + places[k]]);
        }
        assert forall|p: int| count < p < after.valid.types.len() implies
            #[trigger] after.valid.good[p] == sound_gap(
            quality,
            after.valid.types[p - 1],
            after.valid.types[p],
            after.valid.starts[p] - after.valid.starts[p - 1],
        ) by {
            let k = p - count + 2;
            assert(after.valid.good[p] == run.train.good[k]);
            assert(after.valid.types[p] == run.train.types[k]);
            assert(after.valid.types[p - 1] == run.train.types[k - 1]);
            assert(after.valid.starts[p] == run.train.starts[k]);
            assert(after.valid.starts[p - 1] == run.train.starts[k - 1]);
        }
    } else {
        assert(after.valid.types.take(count) =~= state.valid.types);
        assert(after.valid.starts.take(count) =~= state.valid.starts);
        assert(after.valid.good.take(count) =~= state.valid.good);
    }
}

proof fn lemma_at_most(
    pulses: Seq<PulseSample>,
    ends: Seq<RealBound>,
    ranges: PulseRanges,
    quality: QualityRanges,
    count: nat,
)
    ensures
        vblank::vblank_run(pulses, ends, ranges, quality, count).train.types.len() <= count,
{
    vblank::law_pulse_order(pulses, ends, ranges, quality, count);
}

proof fn lemma_interval_size(
    pulses: Seq<PulseSample>,
    ends: Seq<RealBound>,
    ranges: PulseRanges,
    quality: QualityRanges,
    count: nat,
)
    ensures
        ({
            let run = vblank::vblank_run(pulses, ends, ranges, quality, count);
            let last = vblank::last_type(run.train);
            &&& last == Some(PulseType::Eqpl1) || last == Some(PulseType::Vsync)
                ==> run.train.types.len() >= 2
            &&& last == Some(PulseType::Eqpl2) ==> run.train.types.len() >= 3
            &&& run.done ==> run.train.types.len() >= 3
        }),
    decreases count,
{
    if count > 0 {
        lemma_interval_size(pulses, ends, ranges, quality, (count - 1) as nat);
    }
}

/// A long pulse that was looked at again gives way to the first pulse at or below the level
/// inside it, which starts as far behind the start of the window as it was found, with its
/// own length; nothing else changes. Where there is none, it is passed over.
pub proof fn law_long_pulse_replaced(
    state: Classified,
    demod: Seq<u32>,
    level: u32,
    lengths_ok: SampleRange,
    window: Seq<u32>,
)
    requires
        state.index < state.raw.len(),
        demod.len() <= i64::MAX,
        0 <= state.raw[state.index as int].start,
        slices::pulse_window(
            demod,
            state.raw[state.index as int].start as int,
            state.raw[state.index as int].len as int,
        ) == Some(window),
    ensures
        ({
            let after = state.corrected(demod, level, lengths_ok);
            let at = state.index as int;
            let starts = pulses::pulse_starts(window, level, lengths_ok);
            let new = after.raw[at];
            &&& after.valid == state.valid
            &&& after.raw.len() == state.raw.len()
            &&& forall|i: int|
                0 <= i < state.raw.len() && i != at ==> #[trigger] after.raw[i] == state.raw[i]
            &&& starts.len() == 0 ==> after.index == at + 1 && new == state.raw[at]
            &&& starts.len() > 0 ==> {
                &&& after.index == at
                &&& pulses::is_pulse(
                    window,
                    level,
                    new.start - state.raw[at].start,
                    new.start - state.raw[at].start + new.len,
                )
                &&& lengths_ok.min <= new.len <= lengths_ok.max
                &&& forall|start: int, end: int|
                    #[trigger] pulses::is_pulse(window, level, start, end) && lengths_ok.min <= end
                        - start <= lengths_ok.max ==> state.raw[at].start + start >= new.start
            }
        }),
{
    slice_laws::law_pulse_window(
        demod,
        state.raw[state.index as int].start as int,
        state.raw[state.index as int].len as int,
    );
    let starts = pulses::pulse_starts(window, level, lengths_ok);
    let lengths = pulses::pulse_lengths(window, level, lengths_ok);
    assert(window.len() <= demod.len()) by {
        let last = window.len() - 1;
        assert(window[last] == window[last]);
    }
    pulses::law_pulses(window, level, lengths_ok);
    if starts.len() > 0 {
        let at = state.index as int;
        let start = state.raw[at].start as int;
        assert(window[starts[0] as int] == demod[start + starts[0]]);
        assert forall|first: int, end: int|
            #[trigger] pulses::is_pulse(window, level, first, end) && lengths_ok.min <= end - first
                <= lengths_ok.max implies first >= starts[0] by {
            assert(lengths_ok.has(end - first));
            let i = choose|i: int|
                0 <= i < starts.len() && #[trigger] starts[i] == first && lengths[i] == end - first;
            if i > 0 {
                assert(starts[0] < starts[i]);
            }
        }
    }
}

/// What a classification waits for: nothing behind the last pulse; at a long pulse the level,
/// told by the first sample under it, or it fails where there is none; and at any other the
/// ends of the sections of the pulses from two before it up to twenty-four behind it.
pub proof fn law_waits_for(state: Classified, demod: Seq<u32>, ranges: PulseRanges)
    requires
        state.index <= state.raw.len() <= usize::MAX,
        state.index < state.raw.len() && !(ranges.long_hsync.min
            <= state.raw[state.index as int].len <= ranges.long_hsync.max) ==> state.index >= 2,
    ensures
        ({
            let wanted = state.wanted(demod, ranges);
            let pulse = state.raw[state.index as int];
            let long = !fits_kind(ranges, PulseType::Hsync, pulse.len) && ranges.long_hsync.min
                <= pulse.len <= ranges.long_hsync.max;
            let window = slices::pulse_window(demod, pulse.start as int, pulse.len as int);
            &&& wanted == Ok::<Request, ClassifyError>(Request::Finished) <==> state.index
                == state.raw.len()
            &&& state.index < state.raw.len() && long && window is None ==> wanted == Err::<
                Request,
                ClassifyError,
            >(ClassifyError::EmptyWindow)
            &&& state.index < state.raw.len() && long && window is Some ==> wanted == Ok::<
                Request,
                ClassifyError,
            >(Request::Level { first: (window->0)[0] })
            &&& 2 <= state.index < state.raw.len() && !long ==> match wanted {
                Ok(Request::Sections { from, to }) => from + 2 == state.index && (to
                    == state.raw.len() && to <= state.index + 24 || to == state.index + 24 && to
                    < state.raw.len()),
                _ => false,
            }
        }),
{
}

/// A step of a classification: going on, a long pulse looked at again, or a blanking
/// interval followed.
pub enum Step {
    Advance,
    Correct { demod: Seq<u32>, level: u32, lengths_ok: SampleRange },
    Follow { ends: Seq<RealBound> },
}

/// The classification after a step.
pub open spec fn stepped(
    state: Classified,
    step: Step,
    ranges: PulseRanges,
    quality: QualityRanges,
) -> Classified {
    match step {
        Step::Advance => state.advanced(ranges, quality),
        Step::Correct { demod, level, lengths_ok } => state.corrected(demod, level, lengths_ok),
        Step::Follow { ends } => state.followed(ends, ranges, quality),
    }
}

/// That a step can be made: the pulse that it looks at is there, and an interval is
/// followed only from a pulse that cannot be a horizontal sync, nor is a long pulse
/// looked at again that is none.
pub open spec fn can_step(state: Classified, step: Step, ranges: PulseRanges) -> bool {
    match step {
        Step::Advance => true,
        Step::Correct { .. } => state.index < state.raw.len() && !fits_kind(
            ranges,
            PulseType::Hsync,
            state.raw[state.index as int].len,
        ),
        Step::Follow { .. } => 2 < state.index < state.raw.len() && !fits_kind(
            ranges,
            PulseType::Hsync,
            state.raw[state.index as int].len,
        ),
    }
}

/// The classification after the first `count` steps.
pub open spec fn course(
    state: Classified,
    steps: Seq<Step>,
    ranges: PulseRanges,
    quality: QualityRanges,
    count: nat,
) -> Classified
    decreases count,
{
    if count == 0 {
        state
    } else {
        stepped(
            course(state, steps, ranges, quality, (count - 1) as nat),
            steps[count - 1],
            ranges,
            quality,
        )
    }
}

/// That the train holds a horizontal sync at this start.
pub open spec fn has_hsync_at(train: PulseTrain, start: i64) -> bool {
    exists|p: int|
        0 <= p < train.types.len() && #[trigger] train.types[p] == PulseType::Hsync
            && train.starts[p] == start
}

/// That a pulse was passed with an interval that was followed to its end.
pub open spec fn in_interval(
    state: Classified,
    steps: Seq<Step>,
    ranges: PulseRanges,
    quality: QualityRanges,
    count: int,
    i: int,
) -> bool {
    exists|k: int|
        0 <= k < count && #[trigger] steps[k] is Follow && ({
            let before = course(state, steps, ranges, quality, k as nat);
            let after = course(state, steps, ranges, quality, (k + 1) as nat);
            &&& before.index <= i < after.index
            &&& after.index - before.index == after.valid.types.len() - before.valid.types.len()
        })
}

/// No line sync is lost: in a whole classification, every pulse that was passed and
/// has the length of a horizontal sync is in the train as one, at its own start,
/// unless it was passed with a blanking interval that was followed to its end, which
/// passes exactly as many pulses as it adds. What was taken stays as it was taken.
pub proof fn law_no_line_sync_lost(
    state: Classified,
    steps: Seq<Step>,
    ranges: PulseRanges,
    quality: QualityRanges,
    count: nat,
)
    requires
        state.valid.wf(),
        state.index <= state.raw.len(),
        count <= steps.len(),
        forall|k: int|
            0 <= k < count ==> can_step(
                course(state, steps, ranges, quality, k as nat),
                #[trigger] steps[k],
                ranges,
            ),
    ensures
        ({
            let now = course(state, steps, ranges, quality, count);
            &&& state.index <= now.index <= now.raw.len() == state.raw.len()
            &&& extends(now.valid, state.valid)
            &&& forall|i: int|
                now.index <= i < now.raw.len() && i > now.index ==> #[trigger] now.raw[i]
                    == state.raw[i]
            &&& forall|i: int|
                state.index <= i < now.index && fits_kind(
                    ranges,
                    PulseType::Hsync,
                    (#[trigger] now.raw[i]).len,
                ) ==> has_hsync_at(now.valid, now.raw[i].start) || in_interval(
                    state,
                    steps,
                    ranges,
                    quality,
                    count as int,
                    i,
                )
        }),
    decreases count,
{
    if count == 0 {
        let n = state.valid.types.len() as int;
        assert(state.valid.types.take(n) =~= state.valid.types);
        assert(state.valid.starts.take(n) =~= state.valid.starts);
        assert(state.valid.good.take(n) =~= state.valid.good);
    } else {
        law_no_line_sync_lost(state, steps, ranges, quality, (count - 1) as nat);
        let before = course(state, steps, ranges, quality, (count - 1) as nat);
        let now = course(state, steps, ranges, quality, count);
        let step = steps[count - 1];
        assert(can_step(before, step, ranges));
        let n = state.valid.types.len() as int;
        let m = before.valid.types.len() as int;
        match step {
            Step::Advance => {
                law_line_syncs_taken(before, ranges, quality);
            },
            Step::Correct { demod, level, lengths_ok } => {
                assert(now.valid.types.take(m) =~= before.valid.types);
                assert(now.valid.starts.take(m) =~= before.valid.starts);
                assert(now.valid.good.take(m) =~= before.valid.good);
            },
            Step::Follow { ends } => {
                law_interval_added(before, ends, ranges, quality);
            },
        }
        assert(extends(now.valid, before.valid));
        assert(now.valid.types.take(n) =~= now.valid.types.take(m).take(n));
        assert(now.valid.starts.take(n) =~= now.valid.starts.take(m).take(n));
        assert(now.valid.good.take(n) =~= now.valid.good.take(m).take(n));
        assert forall|start: i64| has_hsync_at(before.valid, start) implies has_hsync_at(
            now.valid,
            start,
        ) by {
            let p = choose|p: int|
                0 <= p < before.valid.types.len() && #[trigger] before.valid.types[p]
                    == PulseType::Hsync && before.valid.starts[p] == start;
            assert(now.valid.types[p] == now.valid.types.take(m)[p]);
            assert(now.valid.starts[p] == now.valid.starts.take(m)[p]);
        }
        assert forall|i: int|
            in_interval(state, steps, ranges, quality, count - 1, i) implies in_interval(
            state,
            steps,
            ranges,
            quality,
            count as int,
            i,
        ) by {
            let k = choose|k: int|
                0 <= k < count - 1 && #[trigger] steps[k] is Follow && ({
                    let before = course(state, steps, ranges, quality, k as nat);
                    let after = course(state, steps, ranges, quality, (k + 1) as nat);
                    &&& before.index <= i < after.index
                    &&& after.index - before.index == after.valid.types.len()
                        - before.valid.types.len()
                });
            assert(0 <= k < count && steps[k] is Follow);
        }
        assert forall|i: int|
            state.index <= i < now.index && fits_kind(
                ranges,
                PulseType::Hsync,
                (#[trigger] now.raw[i]).len,
            ) implies has_hsync_at(now.valid, now.raw[i].start) || in_interval(
            state,
            steps,
            ranges,
            quality,
            count as int,
            i,
        ) by {
            if i < before.index {
                assert(now.raw[i] == before.raw[i]);
            } else {
                match step {
                    Step::Advance => {
                        let place = m + line_syncs(before.raw, ranges, before.index as int, i);
                        assert(before.raw[i] == now.raw[i]);
                        assert(taken_at(now.valid, place, now.raw[i].start));
                        assert(now.valid.types[place] == PulseType::Hsync);
                    },
                    Step::Correct { .. } => {
                        assert(i == before.index);
                        assert(now.raw[i] == before.raw[i]);
                    },
                    Step::Follow { .. } => {
                        let k = count - 1;
                        assert(before.raw[i] == now.raw[i]);
                        if now.valid.types.len() == m {
                            assert(i == before.index);
                        } else {
                            assert(steps[k] is Follow && course(
                                state,
                                steps,
                                ranges,
                                quality,
                                k as nat,
                            ) == before && course(
                                state,
                                steps,
                                ranges,
                                quality,
                                (k + 1) as nat,
                            ) == now);
                        }
                    },
                }
            }
        }
    }
}

} // verus!
