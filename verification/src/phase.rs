//! The colour phase of the lines of a field: which of the four carriers each of
//! them was recorded with, and where its burst lies.
use vstd::prelude::*;

use crate::slices::{resolve_slice_bound, slice_bound};

verus! {

/// The carrier after a turn by `track_rotation` quarters.
pub fn rotated_phase(current_phase: usize, track_rotation: i64) -> (phase: usize)
    ensures
        phase == (current_phase + track_rotation) % 4,
        phase < 4,
{
    let turned: i128 = current_phase as i128 + track_rotation as i128;
    match turned.checked_rem_euclid(4) {
        Some(phase) => phase as usize,
        None => 0,
    }
}

/// The number of a field in the colour sequence, from 1 to 4.
pub fn field_phase_id(first_field: bool, second_phase: bool) -> (id: i64)
    ensures
        id == if first_field {
            if second_phase {
                1int
            } else {
                3
            }
        } else if second_phase {
            4
        } else {
            2
        },
{
    match (first_field, second_phase) {
        (true, true) => 1,
        (false, false) => 2,
        (true, false) => 3,
        (false, true) => 4,
    }
}

/// How the colour phase of a field turns from line to line.
#[derive(Clone, Copy, Debug, PartialEq, Eq)]
pub struct PhaseState {
    /// The turns of the two tracks, where they differ.
    pub rotation: Option<(i64, i64)>,
    pub starting_index: i64,
    /// The track that is being read.
    pub index: i64,
    /// By how many quarters a line is turned.
    pub track_rotation: i64,
    pub current_phase: usize,
    /// The carrier of the next line, where it has been measured already.
    pub next_phase: Option<usize>,
}

/// The track that a field was to start with is not one of the two.
#[derive(Clone, Copy, Debug, PartialEq, Eq, Structural)]
pub struct UnknownTrack;

impl UnknownTrack {
    /// The message of the error.
    pub fn message(self) -> (text: String)
        ensures
            text@ == "chroma rotation index must be 0 or 1"@,
    {
        "chroma rotation index must be 0 or 1".to_owned()
    }
}

/// The other track.
pub open spec fn other_track(index: int) -> int {
    (index + 1) % 2
}

/// The turn of a track.
pub open spec fn turn_of(rotation: (i64, i64), index: int) -> i64 {
    if index == 0 {
        rotation.0
    } else {
        rotation.1
    }
}

impl PhaseState {
    pub open spec fn wf(self) -> bool {
        &&& self.rotation is Some ==> 0 <= self.index <= 1 && 0 <= self.starting_index <= 1
            && self.track_rotation == turn_of(self.rotation->0, self.index as int)
        &&& self.rotation is None ==> self.index == 0
        &&& self.current_phase < 4
    }

    /// Before the first line. Where the tracks differ, `start` is the track;
    /// otherwise it is the turn.
    pub fn new(rotation: Option<(i64, i64)>, start: Option<i64>) -> (result: Result<
        PhaseState,
        UnknownTrack,
    >)
        ensures
            ({
                let starting_index = match start {
                    Some(start) => start,
                    None => 0,
                };
                match result {
                    Ok(state) => (rotation is Some ==> 0 <= starting_index <= 1) && state == (
                    PhaseState {
                        rotation,
                        starting_index,
                        index: if rotation is Some {
                            starting_index
                        } else {
                            0
                        },
                        track_rotation: match rotation {
                            Some(rotation) => turn_of(rotation, starting_index as int),
                            None => starting_index,
                        },
                        current_phase: 0,
                        next_phase: None,
                    }) && state.wf(),
                    Err(_) => rotation is Some && !(0 <= starting_index <= 1),
                }
            }),
    {
        let starting_index: i64 = match start {
            Some(start) => start,
            None => 0,
        };
        match rotation {
            Some((first, second)) => {
                if starting_index != 0 && starting_index != 1 {
                    return Err(UnknownTrack);
                }
                Ok(
                    PhaseState {
                        rotation,
                        starting_index,
                        index: starting_index,
                        track_rotation: if starting_index == 0 {
                            first
                        } else {
                            second
                        },
                        current_phase: 0,
                        next_phase: None,
                    },
                )
            },
            None => Ok(
                PhaseState {
                    rotation,
                    starting_index,
                    index: 0,
                    track_rotation: starting_index,
                    current_phase: 0,
                    next_phase: None,
                },
            ),
        }
    }

    /// The next line.
    pub open spec fn begun(self) -> PhaseState {
        PhaseState {
            current_phase: match self.next_phase {
                Some(phase) => phase,
                None => ((self.current_phase + self.track_rotation) % 4) as usize,
            },
            next_phase: None,
            ..self
        }
    }

    /// Goes on to the next line and tells whether its burst has been measured
    /// already.
    pub fn begin_line(&mut self) -> (measured: bool)
        requires
            old(self).wf(),
            old(self).next_phase matches Some(phase) ==> phase < 4,
        ensures
            *final(self) == old(self).begun(),
            measured == (old(self).next_phase is Some),
            final(self).wf(),
    {
        match self.next_phase {
            Some(phase) => {
                self.current_phase = phase;
                self.next_phase = None;
                true
            },
            None => {
                self.current_phase = rotated_phase(self.current_phase, self.track_rotation);
                false
            },
        }
    }

    /// The carrier of the line after this one, if the track does not change.
    pub fn phase_ahead(&self) -> (phase: usize)
        ensures
            phase == (self.current_phase + self.track_rotation) % 4,
            phase < 4,
    {
        rotated_phase(self.current_phase, self.track_rotation)
    }

    /// The track changes after this line, or the line after it is as expected.
    pub open spec fn checked(self, changed: bool) -> PhaseState {
        if changed {
            PhaseState {
                index: other_track(self.index as int) as i64,
                track_rotation: match self.rotation {
                    Some(rotation) => turn_of(rotation, other_track(self.index as int)),
                    None => self.track_rotation,
                },
                ..self
            }
        } else {
            PhaseState {
                next_phase: Some(((self.current_phase + self.track_rotation) % 4) as usize),
                ..self
            }
        }
    }

    /// Takes into account whether the track changes after this line.
    pub fn check_track(&mut self, changed: bool)
        requires
            old(self).wf(),
            old(self).rotation is Some,
        ensures
            *final(self) == old(self).checked(changed),
            final(self).wf(),
            final(self).next_phase matches Some(phase) ==> phase < 4 || old(self).next_phase
                == Some(phase),
    {
        if changed {
            self.index = if self.index == 0 {
                1
            } else {
                0
            };
            match self.rotation {
                Some((first, second)) => {
                    self.track_rotation = if self.index == 0 {
                        first
                    } else {
                        second
                    };
                },
                None => {},
            }
        } else {
            self.next_phase = Some(self.phase_ahead());
        }
    }

    /// The track that the next field starts with: the other one, unless the track
    /// has changed.
    pub fn next_start(&self) -> (index: i64)
        requires
            self.wf(),
        ensures
            index == if self.rotation is Some && self.index == self.starting_index {
                other_track(self.index as int)
            } else {
                self.index as int
            },
    {
        if self.rotation.is_some() && self.index == self.starting_index {
            if self.index == 0 {
                1
            } else {
                0
            }
        } else {
            self.index
        }
    }
}

/// A number of lines on one track.
pub open spec fn lines_on(state: PhaseState, count: nat) -> PhaseState
    decreases count,
{
    if count == 0 {
        state
    } else {
        lines_on(state, (count - 1) as nat).begun()
    }
}

/// While the track does not change, each line is turned by the same quarters.
pub proof fn law_phase_turns(state: PhaseState, count: nat)
    requires
        state.wf(),
        state.next_phase is None,
    ensures
        lines_on(state, count).current_phase == (state.current_phase + count
            * state.track_rotation) % 4,
        lines_on(state, count).next_phase is None,
        lines_on(state, count).track_rotation == state.track_rotation,
    decreases count,
{
    if count > 0 {
        law_phase_turns(state, (count - 1) as nat);
        let turn = state.track_rotation as int;
        let before = state.current_phase + (count - 1) * turn;
        assert(state.current_phase + count * turn == before + turn) by (nonlinear_arith)
            requires
                before == state.current_phase + (count - 1) * turn,
        ;
        vstd::arithmetic::div_mod::lemma_add_mod_noop(before, turn, 4);
        vstd::arithmetic::div_mod::lemma_add_mod_noop(before % 4, turn, 4);
        vstd::arithmetic::div_mod::lemma_mod_twice(before, 4);
    } else {
        vstd::arithmetic::div_mod::lemma_small_mod(state.current_phase as nat, 4);
        assert(0 * state.track_rotation == 0);
    }
}

/// Looking ahead does not change what a line gets, where the track does not
/// change.
pub proof fn law_lookahead(state: PhaseState)
    requires
        state.wf(),
        state.next_phase is None,
    ensures
        state.checked(false).begun() == state.begun(),
{
}

/// How many lines at the top and the bottom of a field are not looked at.
pub const BURST_CHECK_SKIP_LINES: usize = 16;

/// Whether the line after this one is looked at for a change of the track: near
/// the bottom of the field.
pub fn checks_rotation(line: usize, lineoffset: usize, outlinecount: usize) -> (checked: bool)
    requires
        lineoffset + outlinecount <= usize::MAX,
        BURST_CHECK_SKIP_LINES <= lineoffset + outlinecount,
    ensures
        checked == (line >= lineoffset + outlinecount - BURST_CHECK_SKIP_LINES && line + 1
            < lineoffset + outlinecount),
{
    let end: usize = lineoffset + outlinecount;
    line >= end - BURST_CHECK_SKIP_LINES && line < end && line + 1 < end
}

/// Whether the line is far enough from the top and the bottom.
pub open spec fn in_middle(line: int, end: int) -> bool {
    BURST_CHECK_SKIP_LINES < line < end - BURST_CHECK_SKIP_LINES
}

/// Whether the line is far enough from the top and the bottom.
pub fn is_in_middle(line: usize, end: usize) -> (middle: bool)
    ensures
        middle == in_middle(line as int, end as int),
{
    line > BURST_CHECK_SKIP_LINES && end > BURST_CHECK_SKIP_LINES && line < end
        - BURST_CHECK_SKIP_LINES
}

/// How many of the first lines in the middle of a field differ from the line
/// before by `quarter` quarters.
pub open spec fn quarter_count(
    lines: Seq<usize>,
    quarters: Seq<u8>,
    end: int,
    quarter: u8,
    count: nat,
) -> nat
    decreases count,
{
    if count == 0 {
        0
    } else {
        quarter_count(lines, quarters, end, quarter, (count - 1) as nat) + if in_middle(
            lines[count - 1] as int,
            end,
        ) && quarters[count - 1] % 4 == quarter {
            1nat
        } else {
            0nat
        }
    }
}

/// Whether the phases say that the field was read with the wrong track.
pub open spec fn wrong_track(
    lines: Seq<usize>,
    quarters: Seq<u8>,
    end: int,
    is_ntsc: bool,
) -> bool {
    let count = |quarter: u8| quarter_count(lines, quarters, end, quarter, lines.len());
    if is_ntsc {
        count(0) < count(2)
    } else {
        count(1) + count(3) < count(0) + count(2)
    }
}

/// Whether the phases say that the field was read with the wrong track.
/// `quarters` holds for each of the lines by how many quarters its phase differs
/// from the line before.
pub fn flips_track(lines: &[usize], quarters: &[u8], end: usize, is_ntsc: bool) -> (flips: bool)
    requires
        lines@.len() == quarters@.len(),
    ensures
        flips == wrong_track(lines@, quarters@, end as int, is_ntsc),
{
    let total: usize = lines.len();
    let mut none: usize = 0;
    let mut one: usize = 0;
    let mut two: usize = 0;
    let mut three: usize = 0;
    let mut index: usize = 0;
    while index < total
        invariant
            index <= total == lines@.len() == quarters@.len(),
            none + one + two + three <= index,
            none == quarter_count(lines@, quarters@, end as int, 0, index as nat),
            one == quarter_count(lines@, quarters@, end as int, 1, index as nat),
            two == quarter_count(lines@, quarters@, end as int, 2, index as nat),
            three == quarter_count(lines@, quarters@, end as int, 3, index as nat),
        decreases total - index,
    {
        if is_in_middle(lines[index], end) {
            let quarter: u8 = quarters[index] % 4;
            if quarter == 0 {
                none = none + 1;
            } else if quarter == 1 {
                one = one + 1;
            } else if quarter == 2 {
                two = two + 1;
            } else {
                three = three + 1;
            }
        }
        index = index + 1;
    }
    if is_ntsc {
        none < two
    } else {
        one + three < none + two
    }
}

/// Why the burst of a line cannot be measured.
#[derive(Clone, Copy, Debug, PartialEq, Eq, Structural)]
pub enum BurstError {
    /// The burst ends before it begins.
    EndBeforeStart,
    /// It lies outside the signal.
    Empty,
    /// There is no such carrier.
    PhaseOutOfRange,
    /// The carrier is too short.
    CarrierTooShort,
    /// The reference wave is too short.
    WaveTooShort,
}

impl BurstError {
    /// The message of an error.
    pub open spec fn text(self) -> Seq<char> {
        match self {
            BurstError::EndBeforeStart => "burst area end precedes start"@,
            BurstError::Empty => "empty burst window"@,
            BurstError::PhaseOutOfRange => "heterodyne phase row is out of range"@,
            BurstError::CarrierTooShort => "burst window exceeds heterodyne row length"@,
            BurstError::WaveTooShort => "burst window exceeds reference waveform length"@,
        }
    }

    /// The message of an error.
    pub fn message(self) -> (text: String)
        ensures
            text@ == self.text(),
    {
        match self {
            BurstError::EndBeforeStart => "burst area end precedes start".to_owned(),
            BurstError::Empty => "empty burst window".to_owned(),
            BurstError::PhaseOutOfRange => "heterodyne phase row is out of range".to_owned(),
            BurstError::CarrierTooShort => "burst window exceeds heterodyne row length".to_owned(),
            BurstError::WaveTooShort =>
            "burst window exceeds reference waveform length".to_owned(),
        }
    }
}

/// Where the burst of a line lies.
#[derive(Clone, Copy, Debug, PartialEq, Eq, Structural)]
pub struct BurstWindow {
    /// The burst with as much again before and after it.
    pub start: usize,
    pub end: usize,
    /// The part of that which is measured, counted from `start`.
    pub inner_start: usize,
    pub inner_end: usize,
    /// The place in the reference wave that the measured part begins at.
    pub wave_start: usize,
}

/// The greater of two numbers.
pub open spec fn greater(a: int, b: int) -> int {
    if a > b {
        a
    } else {
        b
    }
}

/// The lesser of two numbers.
pub open spec fn least(a: int, b: int) -> int {
    if a < b {
        a
    } else {
        b
    }
}

/// What is known of a burst before it is looked for.
#[derive(Clone, Copy, Debug, PartialEq, Eq)]
pub struct BurstPlace {
    /// Where the burst begins and ends in a line.
    pub area: (isize, isize),
    pub line: usize,
    pub lineoffset: usize,
    pub outwidth: usize,
    /// The carrier of the line.
    pub phase: usize,
}

/// Where the burst of a line lies in a signal of `chroma_len` samples, with
/// carriers and a reference wave of these lengths.
pub open spec fn burst_place(
    place: BurstPlace,
    chroma_len: int,
    carrier_lens: Seq<usize>,
    wave_len: int,
) -> Result<BurstWindow, BurstError> {
    let padding = place.area.1 - place.area.0;
    let line_start = (place.line - place.lineoffset) * place.outwidth;
    let start = greater(0, line_start + place.area.0 - padding);
    let end = least(chroma_len, greater(0, start + place.area.1 + padding));
    let inner_start = least(padding, end - start);
    let inner_end = greater(0, end - start - padding);
    let whole = 0 < padding && inner_start <= inner_end;
    if padding < 0 {
        Err(BurstError::EndBeforeStart)
    } else if start >= end {
        Err(BurstError::Empty)
    } else if place.phase >= carrier_lens.len() {
        Err(BurstError::PhaseOutOfRange)
    } else if end > carrier_lens[place.phase as int] {
        Err(BurstError::CarrierTooShort)
    } else if start + padding + (if whole {
        inner_end - inner_start
    } else {
        0
    }) > wave_len {
        Err(BurstError::WaveTooShort)
    } else {
        Ok(
            BurstWindow {
                start: start as usize,
                end: end as usize,
                inner_start: if whole {
                    inner_start as usize
                } else {
                    0
                },
                inner_end: if whole {
                    inner_end as usize
                } else {
                    0
                },
                wave_start: (start + padding) as usize,
            },
        )
    }
}

/// Where the burst of a line lies in a signal of `chroma_len` samples, with
/// carriers and a reference wave of these lengths. A window that is found lies
/// inside the signal, the carrier and the wave.
pub fn burst_window(
    place: BurstPlace,
    chroma_len: usize,
    carrier_lens: &[usize],
    wave_len: usize,
) -> (result: Result<BurstWindow, BurstError>)
    requires
        isize::MIN <= (place.line - place.lineoffset) * place.outwidth <= isize::MAX,
    ensures
        result == burst_place(place, chroma_len as int, carrier_lens@, wave_len as int),
        result matches Ok(window) ==> {
            &&& window.start < window.end <= chroma_len
            &&& place.phase < carrier_lens@.len()
            &&& window.end <= carrier_lens@[place.phase as int]
            &&& window.inner_start <= window.inner_end <= window.end - window.start
            &&& window.wave_start + window.inner_end - window.inner_start <= wave_len
        },
{
    let padding: i128 = place.area.1 as i128 - place.area.0 as i128;
    if padding < 0 {
        return Err(BurstError::EndBeforeStart);
    }
    let line_start: i128 = (place.line as i128 - place.lineoffset as i128) * (place.outwidth
        as i128);
    let from: i128 = line_start + place.area.0 as i128 - padding;
    let start: i128 = if from > 0 {
        from
    } else {
        0
    };
    let to: i128 = start + place.area.1 as i128 + padding;
    let reach: i128 = if to > 0 {
        to
    } else {
        0
    };
    let end: i128 = if reach < chroma_len as i128 {
        reach
    } else {
        chroma_len as i128
    };
    if start >= end {
        return Err(BurstError::Empty);
    }
    if place.phase >= carrier_lens.len() {
        return Err(BurstError::PhaseOutOfRange);
    }
    if end > carrier_lens[place.phase] as i128 {
        return Err(BurstError::CarrierTooShort);
    }
    let size: i128 = end - start;
    let inner_start: i128 = if padding < size {
        padding
    } else {
        size
    };
    let inner_end: i128 = if size > padding {
        size - padding
    } else {
        0
    };
    let whole: bool = padding > 0 && inner_start <= inner_end;
    let measured: i128 = if whole {
        inner_end - inner_start
    } else {
        0
    };
    if start + padding + measured > wave_len as i128 {
        return Err(BurstError::WaveTooShort);
    }
    Ok(
        BurstWindow {
            start: start as usize,
            end: end as usize,
            inner_start: if whole {
                inner_start as usize
            } else {
                0
            },
            inner_end: if whole {
                inner_end as usize
            } else {
                0
            },
            wave_start: (start + padding) as usize,
        },
    )
}

/// The samples of a line in a field of `len` samples; none where they lie outside.
pub fn line_window(len: usize, line: usize, lineoffset: usize, outlinelen: usize) -> (window: Option<
    (usize, usize),
>)
    requires
        isize::MIN <= (line - lineoffset) * outlinelen,
        (line - lineoffset) * outlinelen + outlinelen <= isize::MAX,
    ensures
        ({
            let start = slice_bound(len as nat, (line - lineoffset) * outlinelen);
            let end = slice_bound(len as nat, (line - lineoffset) * outlinelen + outlinelen);
            match window {
                Some((from, to)) => from == start && to == end && start < end <= len,
                None => start >= end,
            }
        }),
{
    proof {
        lemma_line_start(line - lineoffset, outlinelen as int);
    }
    let start: isize = if line >= lineoffset {
        ((line - lineoffset) * outlinelen) as isize
    } else {
        let back: i128 = ((lineoffset - line) as i128) * (outlinelen as i128);
        (-back) as isize
    };
    let end: isize = (start as i128 + outlinelen as i128) as isize;
    let from: usize = resolve_slice_bound(len, start);
    let to: usize = resolve_slice_bound(len, end);
    if from < to {
        Some((from, to))
    } else {
        None
    }
}

proof fn lemma_line_start(lines: int, width: int)
    requires
        0 <= width,
    ensures
        0 <= lines ==> 0 <= lines * width,
        lines <= 0 ==> lines * width <= 0,
        (-lines) * width == -(lines * width),
{
    assert(0 <= lines ==> 0 <= lines * width) by (nonlinear_arith)
        requires
            0 <= width,
    ;
    assert(lines <= 0 ==> lines * width <= 0) by (nonlinear_arith)
        requires
            0 <= width,
    ;
    assert((-lines) * width == -(lines * width)) by (nonlinear_arith);
}

} // verus!
