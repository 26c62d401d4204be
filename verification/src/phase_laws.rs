//! How lines follow the colour phase and the edges of their sync pulses.
use vstd::prelude::*;

use crate::chroma;
use crate::count_laws;
use crate::count_laws::picked;
use crate::phase;
use crate::phase::{BurstError, BurstPlace, PhaseState};
use crate::refine::{LeftEdge, RefineView, RightEdge};
use crate::request::{ColorSystem, LineSystem};

verus! {

/// A change of the track takes the turn of the other one from the next line on and leaves
/// the phase of this line alone; another change takes it back. Where the track does not
/// change, the next line has the phase that was looked at ahead.
pub proof fn law_track_changes(state: PhaseState, first: i64, second: i64)
    requires
        state.wf(),
        state.rotation == Some((first, second)),
        state.next_phase is None,
    ensures
        ({
            let changed = state.checked(true);
            let turn = if state.index == 0 {
                second
            } else {
                first
            };
            &&& changed.current_phase == state.current_phase
            &&& changed.track_rotation == turn
            &&& changed.index + state.index == 1
            &&& changed.begun().current_phase == (state.current_phase + turn) % 4
            &&& changed.checked(true) == state
            &&& state.checked(false).index == state.index
            &&& state.checked(false).current_phase == state.current_phase
            &&& state.checked(false).next_phase == Some(state.begun().current_phase)
        }),
{
}

/// The lines of a field that are more than sixteen lines away from both its ends and whose
/// phase differs from that of the line before by this many quarters.
pub open spec fn turned_lines(
    lines: Seq<usize>,
    quarters: Seq<u8>,
    end: int,
    quarter: u8,
) -> nat {
    picked(
        |i: int| 16 < lines[i] < end - 16 && quarters[i] % 4 == quarter,
        0,
        lines.len() as int,
    ).len()
}

/// In NTSC a field was read with the wrong track where more lines are turned by half than
/// not at all; else where more of them are turned by none or half than by a quarter
/// either way.
pub proof fn law_wrong_track(lines: Seq<usize>, quarters: Seq<u8>, end: int)
    ensures
        phase::wrong_track(lines, quarters, end, true) == (turned_lines(lines, quarters, end, 2)
            > turned_lines(lines, quarters, end, 0)),
        phase::wrong_track(lines, quarters, end, false) == (turned_lines(lines, quarters, end, 0)
            + turned_lines(lines, quarters, end, 2) > turned_lines(lines, quarters, end, 1)
            + turned_lines(lines, quarters, end, 3)),
{
    count_laws::law_quarters(lines, quarters, end, 0, lines.len());
    count_laws::law_quarters(lines, quarters, end, 1, lines.len());
    count_laws::law_quarters(lines, quarters, end, 2, lines.len());
    count_laws::law_quarters(lines, quarters, end, 3, lines.len());
}

/// The burst of a line is looked at with as much again before it, and up to as much
/// behind the end of a burst that would begin there. Where the signal has all of that, the
/// measured part begins with the burst itself, as does that of the reference wave, and
/// leaves out as much at the end as at the beginning.
pub proof fn law_burst_place(
    place: BurstPlace,
    chroma_len: int,
    carrier_lens: Seq<usize>,
    wave_len: int,
)
    requires
        chroma_len <= usize::MAX,
        wave_len <= usize::MAX,
        0 <= place.area.0 < place.area.1,
        place.area.1 - place.area.0 <= (place.line - place.lineoffset) * place.outwidth
            + place.area.0,
        (place.line - place.lineoffset) * place.outwidth + place.area.0 + place.area.1
            <= chroma_len,
        place.phase < carrier_lens.len(),
        chroma_len <= carrier_lens[place.phase as int],
        chroma_len <= wave_len,
    ensures
        ({
            let burst = place.area.1 - place.area.0;
            let begin = (place.line - place.lineoffset) * place.outwidth + place.area.0;
            match phase::burst_place(place, chroma_len, carrier_lens, wave_len) {
                Ok(window) => {
                    &&& window.start + burst == begin
                    &&& window.end == begin + place.area.1
                    &&& window.start + window.inner_start == begin
                    &&& window.end - (window.start + window.inner_end) == burst
                    &&& window.wave_start == begin
                },
                Err(_) => false,
            }
        }),
{
}

/// A burst whose end lies before its start, that the signal has nothing of, whose line has
/// no carrier, or that is longer than the carrier is refused for that reason.
pub proof fn law_burst_refused(
    place: BurstPlace,
    chroma_len: int,
    carrier_lens: Seq<usize>,
    wave_len: int,
)
    requires
        0 <= chroma_len <= usize::MAX,
    ensures
        ({
            let found = phase::burst_place(place, chroma_len, carrier_lens, wave_len);
            let begin = (place.line - place.lineoffset) * place.outwidth + 2 * place.area.0
                - place.area.1;
            &&& place.area.1 < place.area.0 <==> found == Err::<
                phase::BurstWindow,
                BurstError,
            >(BurstError::EndBeforeStart)
            &&& place.area.0 <= place.area.1 && begin >= chroma_len ==> found
                == Err::<phase::BurstWindow, BurstError>(BurstError::Empty)
            &&& found is Ok ==> place.phase < carrier_lens.len() && found->Ok_0.end
                <= carrier_lens[place.phase as int] && found->Ok_0.end <= chroma_len
            &&& found == Err::<phase::BurstWindow, BurstError>(BurstError::PhaseOutOfRange)
                ==> place.phase >= carrier_lens.len()
        }),
{
}

/// What a line comes to by the edges of its sync pulse. The rising edge has the last
/// word: where it tells, the line begins by it and is good. Else a line that was good and
/// whose falling edge bore a second look begins there, and any other is bad and begins
/// where it was taken to begin at first. No other line is touched.
pub proof fn law_line_refined(state: RefineView, left: LeftEdge, right: Option<RightEdge>)
    requires
        state.wf(),
        state.bad_lines_kept(),
        !state.half_done,
        state.line < state.initial.len(),
    ensures
        ({
            let after = state.after_left(left).after_right(right);
            let line = state.line as int;
            let settled = state.bad[line] == 0 && left is Settled;
            &&& after.line == state.line + 1
            &&& !after.half_done
            &&& after.initial == state.initial
            &&& after.places.len() == state.places.len() && after.bad.len() == state.bad.len()
            &&& forall|i: int|
                0 <= i < state.places.len() && i != line ==> #[trigger] after.places[i]
                    == state.places[i]
            &&& forall|i: int|
                0 <= i < state.bad.len() && i != line ==> #[trigger] after.bad[i] == state.bad[i]
            &&& right is Some ==> after.places[line] == right->0.place && after.bad[line] == 0
                && after.porch == right->0.porch
            &&& right is None && settled ==> after.places[line] == left->place && after.bad[line]
                == 0 && after.porch == left->porch
            &&& right is None && !settled ==> after.places[line] == state.initial[line]
                && after.bad[line] == 1 && after.porch == state.porch
        }),
{
}

/// The lines from the fourth to the seventh, and in PAL also the second and the third, are
/// passed over: they are bad and stay where they are.
pub proof fn law_lines_passed_over(state: RefineView, is_pal: bool)
    requires
        state.wf(),
        !state.half_done,
    ensures
        ({
            let after = state.passed(is_pal);
            let over = |line: int| 3 <= line <= 6 || is_pal && 1 <= line <= 6;
            &&& after.places == state.places
            &&& after.initial == state.initial
            &&& after.porch == state.porch
            &&& state.line <= after.line <= state.initial.len()
            &&& after.line < state.initial.len() ==> !over(after.line as int)
            &&& forall|i: int| state.line <= i < after.line ==> #[trigger] over(i)
            &&& after.bad.len() == state.bad.len()
            &&& forall|i: int|
                0 <= i < state.bad.len() ==> #[trigger] after.bad[i] == if state.line <= i
                    < after.line {
                    1
                } else {
                    state.bad[i]
                }
        }),
    decreases state.initial.len() - state.line,
{
    let line = state.line as int;
    if state.line < state.initial.len() && (3 <= line <= 6 || is_pal && 1 <= line <= 2) {
        let next = RefineView {
            bad: state.bad.update(line, 1),
            line: state.line + 1,
            ..state
        };
        law_lines_passed_over(next, is_pal);
    }
}

/// When the burst of a field matters: its phase is followed only where chroma is written,
/// and in 525 lines only in colour; it moves the lines only in NTSC colour of 525 lines,
/// unless that is switched off; it is surveyed instead exactly in monochrome of 525 lines;
/// and only in 525 lines is the number in the colour sequence left to it.
pub proof fn law_burst_matters(
    system: LineSystem,
    color: ColorSystem,
    write_chroma: bool,
    disable_burst_hsync: bool,
)
    ensures
        ({
            let used = chroma::burst_use_of(system, color, write_chroma, disable_burst_hsync);
            let narrow = system == LineSystem::Line525;
            &&& !write_chroma ==> !used.follows_phase && !used.moves_lines
            &&& write_chroma && !narrow ==> used.follows_phase && !used.moves_lines
            &&& write_chroma && narrow ==> used.follows_phase == (color
                != ColorSystem::Monochrome) && used.moves_lines == (color == ColorSystem::Ntsc
                && !disable_burst_hsync)
            &&& used.surveys == (narrow && color == ColorSystem::Monochrome)
            &&& narrow ==> used.field_phase_id is None
            &&& !narrow ==> used.field_phase_id == Some(1i64)
        }),
{
}

/// A burst near the beginning of the signal is looked at from the first sample on, and any
/// other from as much before it as it is long; never past the end of the signal. Of what is
/// wrong with it the first of these is told: that its end lies before its start, that nothing
/// of it is there, that its line has no carrier, and that the carrier ends before it.
pub proof fn law_burst_in_signal(
    place: BurstPlace,
    chroma_len: int,
    carrier_lens: Seq<usize>,
    wave_len: int,
    start: int,
    end: int,
)
    requires
        0 <= chroma_len <= usize::MAX,
        wave_len <= usize::MAX,
        place.area.0 <= place.area.1,
        ({
            let before = (place.line - place.lineoffset) * place.outwidth + 2 * place.area.0
                - place.area.1;
            start == if before < 0 {
                0
            } else {
                before
            }
        }),
        ({
            let behind = start + 2 * place.area.1 - place.area.0;
            end == if behind > chroma_len {
                chroma_len
            } else if behind < 0 {
                0
            } else {
                behind
            }
        }),
    ensures
        ({
            let found = phase::burst_place(place, chroma_len, carrier_lens, wave_len);
            &&& found is Ok ==> found->Ok_0.start == start && found->Ok_0.end == end
                && found->Ok_0.wave_start == start + place.area.1 - place.area.0
            &&& start >= end ==> found == Err::<phase::BurstWindow, BurstError>(BurstError::Empty)
            &&& start < end && place.phase >= carrier_lens.len() ==> found == Err::<
                phase::BurstWindow,
                BurstError,
            >(BurstError::PhaseOutOfRange)
            &&& start < end && place.phase < carrier_lens.len() && end
                > carrier_lens[place.phase as int] ==> found == Err::<
                phase::BurstWindow,
                BurstError,
            >(BurstError::CarrierTooShort)
            &&& start < end && place.phase < carrier_lens.len() && end
                <= carrier_lens[place.phase as int] ==> found is Ok || found == Err::<
                phase::BurstWindow,
                BurstError,
            >(BurstError::WaveTooShort)
        }),
{
}

} // verus!
