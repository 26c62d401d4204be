//! The shape of a field, and what becomes of one once its pulses are known.
use vstd::prelude::*;

use crate::ieee;
use crate::ieee::is_nan_single;
use crate::phase::field_phase_id;
use crate::request::LineSystem;

verus! {

/// How many lines of a field are put out.
pub fn output_line_count(system: LineSystem) -> (count: usize)
    ensures
        count == match system {
            LineSystem::Line405 => 203int,
            LineSystem::Line525 => 263,
            LineSystem::Line625 => 313,
            LineSystem::Line819 => 410,
        },
        count == system.lines() / 2 + 1,
{
    system.line_count() / 2 + 1
}

/// Where the back porch of a line begins and ends.
pub fn back_porch(system: LineSystem) -> (porch: (usize, usize))
    ensures
        porch == if system == LineSystem::Line525 {
            (74usize, 124usize)
        } else {
            (96usize, 160usize)
        },
{
    if system == LineSystem::Line525 {
        (74, 124)
    } else {
        (96, 160)
    }
}

/// How many lines of a field are looked at: all that are put out, and the
/// blanking interval after them.
pub fn processed_lines(outlinecount: usize, lineoffset: usize) -> (count: usize)
    requires
        outlinecount + lineoffset + 10 <= usize::MAX,
    ensures
        count == outlinecount + lineoffset + 10,
{
    outlinecount + lineoffset + 10
}

/// How many lines a field has while its lines are searched.
pub fn searched_linecount(first_field: bool) -> (count: usize)
    ensures
        count == if first_field {
            263int
        } else {
            262
        },
{
    if first_field {
        263
    } else {
        262
    }
}

/// How many lines a field has, and which of them is the first that is put out.
pub open spec fn field_lines(system: LineSystem, first_field: bool) -> (int, int) {
    (
        match (system, first_field) {
            (LineSystem::Line525, true) => 263int,
            (LineSystem::Line525, false) => 262,
            (LineSystem::Line405, true) => 203,
            (LineSystem::Line405, false) => 202,
            (LineSystem::Line819, true) => 410,
            (LineSystem::Line819, false) => 409,
            (LineSystem::Line625, true) => 312,
            (LineSystem::Line625, false) => 313,
        },
        if system == LineSystem::Line525 {
            0
        } else if first_field {
            2
        } else {
            3
        },
    )
}

/// How many lines a field has, and which of them is the first that is put out.
pub fn final_lines(system: LineSystem, first_field: bool) -> (lines: (usize, usize))
    ensures
        (lines.0 as int, lines.1 as int) == field_lines(system, first_field),
{
    let count: usize = match (system, first_field) {
        (LineSystem::Line525, true) => 263,
        (LineSystem::Line525, false) => 262,
        (LineSystem::Line405, true) => 203,
        (LineSystem::Line405, false) => 202,
        (LineSystem::Line819, true) => 410,
        (LineSystem::Line819, false) => 409,
        (LineSystem::Line625, true) => 312,
        (LineSystem::Line625, false) => 313,
    };
    let offset: usize = if system == LineSystem::Line525 {
        0
    } else if first_field {
        2
    } else {
        3
    };
    (count, offset)
}

/// The two fields of a frame have all its lines.
pub proof fn law_fields_make_a_frame(system: LineSystem)
    ensures
        field_lines(system, true).0 + field_lines(system, false).0 == system.lines(),
{
}

/// The number of a field: one more than that of the field before, unless the
/// input did not advance.
pub fn next_field_number(prev: Option<(u64, i64)>, readloc: u64) -> (number: i64)
    requires
        prev matches Some((_, number)) ==> number < i64::MAX,
    ensures
        number == match prev {
            Some((prev_readloc, prev_number)) => if readloc > prev_readloc {
                prev_number + 1
            } else {
                prev_number as int
            },
            None => 0,
        },
{
    match prev {
        Some((prev_readloc, prev_number)) => if readloc > prev_readloc {
            prev_number + 1
        } else {
            prev_number
        },
        None => 0,
    }
}

/// Whether the levels of a field are measured: unless those of earlier fields are
/// to be used, are known, and did for the last one.
pub fn detects_levels(saved_levels: bool, has_levels: bool, line_issues: bool) -> (detects: bool)
    ensures
        detects == !(saved_levels && has_levels && !line_issues),
{
    !saved_levels || !has_levels || line_issues
}

/// Whether the pulses of a field are searched again with new levels: where none
/// were found or they do not tell where it begins, and the levels are not new.
pub fn retries_with_levels(
    line0_found: Option<bool>,
    sync_confidence: i64,
    detected: bool,
) -> (retries: bool)
    ensures
        retries == (!detected && (line0_found != Some(true) || sync_confidence == 0)),
{
    let needed: bool = match line0_found {
        Some(found) => !found || sync_confidence == 0,
        None => true,
    };
    needed && !detected
}

/// How many lines may be bad.
pub const MAX_BAD_LINES: usize = 30;

/// How many of the first lines are bad.
pub open spec fn bad_lines(linebad: Seq<u8>, count: nat) -> nat
    decreases count,
{
    if count == 0 {
        0
    } else {
        bad_lines(linebad, (count - 1) as nat) + if linebad[count - 1] != 0 {
            1nat
        } else {
            0nat
        }
    }
}

/// Whether so many lines are bad that the levels are measured again.
pub fn has_line_issues(linebad: &[u8]) -> (issues: bool)
    ensures
        issues == (bad_lines(linebad@, linebad@.len()) >= MAX_BAD_LINES),
        issues <==> bad_lines(linebad@, linebad@.len()) > 29,
{
    let mut count: usize = 0;
    let mut index: usize = 0;
    while index < linebad.len()
        invariant
            count <= index <= linebad@.len(),
            count == bad_lines(linebad@, index as nat),
        decreases linebad@.len() - index,
    {
        if linebad[index] != 0 {
            count = count + 1;
        }
        index = index + 1;
    }
    count >= MAX_BAD_LINES
}

/// What becomes of a field.
#[derive(Clone, Copy, Debug, PartialEq, Eq, Structural)]
pub enum FieldFate {
    /// It has no pulses: a tenth of a second is skipped.
    NoPulses,
    /// Where it begins is not known: a hundred lines are skipped.
    NoStart,
    /// The input does not hold all its lines: it is read again from a little
    /// before its first line.
    TooShort,
    /// It is decoded; the next one begins before its blanking interval.
    UntilBlanking,
    /// It is decoded; the next one begins at this line.
    UntilLine { line: usize },
}

impl FieldFate {
    /// Whether the field is decoded.
    pub open spec fn decodes(self) -> bool {
        self is UntilBlanking || self is UntilLine
    }

    /// Whether the field is decoded.
    pub fn is_valid(self) -> (valid: bool)
        ensures
            valid == self.decodes(),
    {
        match self {
            FieldFate::UntilBlanking => true,
            FieldFate::UntilLine { .. } => true,
            _ => false,
        }
    }
}

/// What becomes of a field, by whether it has pulses, whether its first line was
/// found, whether the input holds all its lines, and whether the next blanking
/// interval was found.
pub fn field_fate(
    pulses: bool,
    first_line: bool,
    lines_left: bool,
    blanking: bool,
    outlinecount: usize,
) -> (fate: FieldFate)
    requires
        7 <= outlinecount,
    ensures
        fate == if !pulses {
            FieldFate::NoPulses
        } else if !first_line {
            FieldFate::NoStart
        } else if !lines_left {
            FieldFate::TooShort
        } else if blanking {
            FieldFate::UntilBlanking
        } else {
            FieldFate::UntilLine { line: (outlinecount - 7) as usize }
        },
        fate.decodes() == (pulses && first_line && lines_left),
{
    if !pulses {
        FieldFate::NoPulses
    } else if !first_line {
        FieldFate::NoStart
    } else if !lines_left {
        FieldFate::TooShort
    } else if blanking {
        FieldFate::UntilBlanking
    } else {
        FieldFate::UntilLine { line: outlinecount - 7 }
    }
}

/// How many lines of a field are looked at for a burst.
pub const SURVEYED_LINES: usize = 266;

/// How many of the first lines have a burst.
pub open spec fn measured(survey: Seq<Option<bool>>, count: nat) -> nat
    decreases count,
{
    if count == 0 {
        0
    } else {
        measured(survey, (count - 1) as nat) + if survey[count - 1] is Some {
            1nat
        } else {
            0nat
        }
    }
}

/// How many of the first even lines have a burst that rises.
pub open spec fn rising_even(survey: Seq<Option<bool>>, count: nat) -> nat
    decreases count,
{
    if count == 0 {
        0
    } else {
        rising_even(survey, (count - 1) as nat) + if (count - 1) % 2 == 0 && survey[count - 1]
            == Some(true) {
            1nat
        } else {
            0nat
        }
    }
}

/// Whether the bursts say that a field is the first or the fourth of the colour
/// sequence. The survey holds for each line whether its burst rises, if it has
/// one.
pub fn is_field14(survey: &[Option<bool>]) -> (field14: bool)
    ensures
        field14 == (rising_even(survey@, survey@.len()) > measured(survey@, survey@.len()) / 4),
{
    let mut rising: usize = 0;
    let mut count: usize = 0;
    let mut line: usize = 0;
    while line < survey.len()
        invariant
            line <= survey@.len(),
            rising <= line,
            count <= line,
            rising == rising_even(survey@, line as nat),
            count == measured(survey@, line as nat),
        decreases survey@.len() - line,
    {
        match survey[line] {
            Some(up) => {
                count = count + 1;
                if line % 2 == 0 && up {
                    rising = rising + 1;
                }
            },
            None => {},
        }
        line = line + 1;
    }
    rising > count / 4
}

/// Marks the lines that have no burst, but for the first.
pub fn mark_unmeasured(survey: &[Option<bool>], linebad: &mut Vec<u8>)
    ensures
        final(linebad)@ == Seq::new(
            old(linebad)@.len(),
            |line: int| if 1 <= line < survey@.len() && survey@[line] is None {
                1u8
            } else {
                old(linebad)@[line]
            },
        ),
{
    let ghost before = linebad@;
    let mut line: usize = 1;
    while line < survey.len() && line < linebad.len()
        invariant
            1 <= line,
            linebad@.len() == before.len(),
            forall|i: int|
                0 <= i < before.len() ==> #[trigger] linebad@[i] == if 1 <= i < line && i
                    < survey@.len() && survey@[i] is None {
                    1u8
                } else {
                    before[i]
                },
        decreases survey@.len() - line,
    {
        if survey[line].is_none() {
            linebad.set(line, 1);
        }
        line = line + 1;
    }
    proof {
        assert(linebad@ =~= Seq::new(
            before.len(),
            |line: int| if 1 <= line < survey@.len() && survey@[line] is None {
                1u8
            } else {
                before[line]
            },
        ));
    }
}

/// Whether the burst of a line can tell where it begins.
pub open spec fn adjustable(
    survey: Seq<Option<bool>>,
    places: Seq<u32>,
    linebad: Seq<u8>,
    line: int,
) -> bool {
    &&& 0 <= line < survey.len()
    &&& line < places.len()
    &&& line < linebad.len()
    &&& survey[line] is Some
    &&& !ieee::nan_single(places[line])
    &&& linebad[line] == 0
}

/// For each line of a survey, whether its burst can tell where it begins.
pub fn adjustable_lines(survey: &[Option<bool>], places: &[u32], linebad: &[u8]) -> (lines: Vec<
    bool,
>)
    ensures
        lines@.len() == survey@.len(),
        forall|line: int|
            0 <= line < survey@.len() ==> #[trigger] lines@[line] == adjustable(
                survey@,
                places@,
                linebad@,
                line,
            ),
{
    let mut lines: Vec<bool> = Vec::new();
    let mut line: usize = 0;
    while line < survey.len()
        invariant
            line == lines@.len() <= survey@.len(),
            forall|i: int|
                0 <= i < line ==> #[trigger] lines@[i] == adjustable(
                    survey@,
                    places@,
                    linebad@,
                    i,
                ),
        decreases survey@.len() - line,
    {
        let good: bool = line < places.len() && line < linebad.len() && survey[line].is_some()
            && !is_nan_single(places[line]) && linebad[line] == 0;
        lines.push(good);
        line = line + 1;
    }
    lines
}

/// The line whose adjustment a line gets: its own where that is sound, otherwise
/// that of the last line before it that is; none where there is no such line.
pub open spec fn adjustment_line(sound: Seq<bool>, line: int) -> Option<int>
    decreases line + 1,
{
    if line < 0 {
        None
    } else if sound[line] {
        Some(line)
    } else {
        adjustment_line(sound, line - 1)
    }
}

/// For each line the one whose adjustment it gets. `sound` tells which lines have
/// an adjustment near the median.
pub fn adjustment_sources(sound: &[bool]) -> (sources: Vec<Option<usize>>)
    ensures
        sources@.len() == sound@.len(),
        forall|line: int|
            0 <= line < sound@.len() ==> match #[trigger] sources@[line] {
                Some(source) => adjustment_line(sound@, line) == Some(source as int) && source
                    <= line && sound@[source as int],
                None => adjustment_line(sound@, line) is None,
            },
{
    let mut sources: Vec<Option<usize>> = Vec::new();
    let mut last: Option<usize> = None;
    let mut line: usize = 0;
    while line < sound.len()
        invariant
            line == sources@.len() <= sound@.len(),
            match last {
                Some(source) => adjustment_line(sound@, line - 1) == Some(source as int) && source
                    < line && sound@[source as int],
                None => adjustment_line(sound@, line - 1) is None,
            },
            forall|i: int|
                0 <= i < line ==> match #[trigger] sources@[i] {
                    Some(source) => adjustment_line(sound@, i) == Some(source as int) && source
                        <= i && sound@[source as int],
                    None => adjustment_line(sound@, i) is None,
                },
        decreases sound@.len() - line,
    {
        if sound[line] {
            last = Some(line);
        }
        sources.push(last);
        line = line + 1;
    }
    sources
}

/// The number of a field in the colour sequence, by its bursts; 1 where no burst
/// can tell.
pub fn surveyed_phase_id(any_adjustable: bool, first_field: bool, field14: bool) -> (id: i64)
    ensures
        id == if !any_adjustable {
            1int
        } else if first_field {
            if field14 {
                1
            } else {
                3
            }
        } else if field14 {
            4
        } else {
            2
        },
{
    if any_adjustable {
        field_phase_id(first_field, field14)
    } else {
        1
    }
}

/// How many lines at the top of a field are not moved by their burst.
pub const UNMOVED_LINES: usize = 9;

/// The lines over which the spacing of a field is judged: at least three.
pub fn confidence_span(len: usize, lineoffset: usize, linecount: usize) -> (span: Option<
    (usize, usize),
>)
    requires
        lineoffset + linecount <= usize::MAX,
    ensures
        ({
            let end = if lineoffset + linecount < len {
                lineoffset + linecount
            } else {
                len as int
            };
            match span {
                Some((from, to)) => from == lineoffset && to == end && to - from >= 3 && to <= len,
                None => end - lineoffset < 3,
            }
        }),
{
    let reach: usize = lineoffset + linecount;
    let end: usize = if reach < len {
        reach
    } else {
        len
    };
    if end >= lineoffset && end - lineoffset >= 3 {
        Some((lineoffset, end))
    } else {
        None
    }
}

/// How sure it is that the lines of a field were found, in percent: less where the
/// spacing jumps.
pub fn sync_confidence(current: i64, jumps: Option<bool>) -> (confidence: i64)
    ensures
        confidence == match jumps {
            Some(true) => if current < 45 {
                current as int
            } else {
                45
            },
            Some(false) => if current < 100 {
                current as int
            } else {
                100
            },
            None => current as int,
        },
{
    match jumps {
        Some(true) => if current < 45 {
            current
        } else {
            45
        },
        Some(false) => if current < 100 {
            current
        } else {
            100
        },
        None => current,
    }
}

/// Which of the two tracks a field was read with.
pub fn track_of(track_phase: i64, field_number: i64) -> (track: usize)
    requires
        0 <= track_phase <= 1,
        0 <= field_number,
    ensures
        track == (track_phase + field_number) % 2,
{
    let odd: bool = field_number % 2 == 1;
    if (track_phase == 1) != odd {
        1
    } else {
        0
    }
}

} // verus!
