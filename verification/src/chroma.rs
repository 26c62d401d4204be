//! The chroma of a field: which steps turn it into colour, and on which samples
//! they work.
use vstd::prelude::*;

use crate::request::{ColorSystem, LineSystem};

verus! {

/// How the burst of a field is used to find its lines.
#[derive(Clone, Copy, Debug, PartialEq, Eq, Structural)]
pub struct BurstUse {
    /// Whether the phase of every line is followed.
    pub follows_phase: bool,
    /// Whether the lines are moved by their phase.
    pub moves_lines: bool,
    /// Whether the bursts are surveyed line by line instead.
    pub surveys: bool,
    /// The number in the colour sequence, where the burst does not matter.
    pub field_phase_id: Option<i64>,
}

/// How the burst of a field is used to find its lines.
pub open spec fn burst_use_of(
    system: LineSystem,
    color: ColorSystem,
    write_chroma: bool,
    disable_burst_hsync: bool,
) -> BurstUse {
    let ntsc_lines = system == LineSystem::Line525;
    let coloured = color != ColorSystem::Monochrome;
    BurstUse {
        follows_phase: write_chroma && (!ntsc_lines || coloured),
        moves_lines: ntsc_lines && color == ColorSystem::Ntsc && write_chroma
            && !disable_burst_hsync,
        surveys: ntsc_lines && !coloured,
        field_phase_id: if ntsc_lines {
            None
        } else {
            Some(1)
        },
    }
}

/// How the burst of a field is used to find its lines.
pub fn burst_use(
    system: LineSystem,
    color: ColorSystem,
    write_chroma: bool,
    disable_burst_hsync: bool,
) -> (used: BurstUse)
    ensures
        used == burst_use_of(system, color, write_chroma, disable_burst_hsync),
{
    if system != LineSystem::Line525 {
        return BurstUse {
            follows_phase: write_chroma,
            moves_lines: false,
            surveys: false,
            field_phase_id: Some(1),
        };
    }
    if color != ColorSystem::Monochrome {
        BurstUse {
            follows_phase: write_chroma,
            moves_lines: write_chroma && !disable_burst_hsync && color == ColorSystem::Ntsc,
            surveys: false,
            field_phase_id: None,
        }
    } else {
        BurstUse { follows_phase: false, moves_lines: false, surveys: true, field_phase_id: None }
    }
}

/// Lines are moved by their phase only where it is followed, and a burst is never
/// both followed and surveyed.
pub proof fn law_burst_use(
    system: LineSystem,
    color: ColorSystem,
    write_chroma: bool,
    disable_burst_hsync: bool,
)
    ensures
        ({
            let used = burst_use_of(system, color, write_chroma, disable_burst_hsync);
            &&& used.moves_lines ==> used.follows_phase
            &&& !(used.follows_phase && used.surveys)
        }),
{
}

/// How the chroma of a field is decoded.
#[derive(Clone, Copy, Debug, PartialEq, Eq, Structural)]
pub enum ChromaPath {
    /// It is not.
    Skipped,
    /// Its carrier is multiplied.
    Multiplied,
    /// It is mixed with a carrier.
    Mixed {
        /// Whether what follows the burst is made twice as strong first.
        deemphasis: bool,
        /// Whether the phase is turned so that the burst lies at zero.
        turned: bool,
        /// How far apart the lines are that are combed, if any are.
        comb: Option<usize>,
    },
}

/// How the chroma of a field is decoded.
pub fn chroma_path(
    write_chroma: bool,
    color: ColorSystem,
    multiplies: bool,
    disable_phase_correction: bool,
    disable_comb: bool,
) -> (path: ChromaPath)
    ensures
        path == if !write_chroma || color == ColorSystem::Monochrome {
            ChromaPath::Skipped
        } else if multiplies {
            ChromaPath::Multiplied
        } else {
            ChromaPath::Mixed {
                deemphasis: color == ColorSystem::Ntsc,
                turned: color == ColorSystem::Ntsc && !disable_phase_correction,
                comb: if disable_comb {
                    None
                } else if color == ColorSystem::Ntsc {
                    Some(1usize)
                } else {
                    Some(2usize)
                },
            }
        },
{
    if !write_chroma || color == ColorSystem::Monochrome {
        return ChromaPath::Skipped;
    }
    if multiplies {
        return ChromaPath::Multiplied;
    }
    let is_ntsc: bool = color == ColorSystem::Ntsc;
    ChromaPath::Mixed {
        deemphasis: is_ntsc,
        turned: is_ntsc && !disable_phase_correction,
        comb: if disable_comb {
            None
        } else if is_ntsc {
            Some(1)
        } else {
            Some(2)
        },
    }
}

/// How many samples after the burst are left alone.
pub const BURST_MARGIN: usize = 5;

/// The samples of a line that follow its burst.
pub fn after_burst(line: usize, outlinelen: usize, burst_end: usize) -> (window: (usize, usize))
    requires
        burst_end + BURST_MARGIN <= outlinelen,
        (line + 1) * outlinelen <= usize::MAX,
    ensures
        window.0 == line * outlinelen + burst_end + BURST_MARGIN,
        window.0 - burst_end - 5 == line * outlinelen,
        window.1 == (line + 1) * outlinelen,
        window.0 <= window.1,
{
    proof {
        assert(line * outlinelen + outlinelen == (line + 1) * outlinelen) by (nonlinear_arith);
        assert(0 <= line * outlinelen) by (nonlinear_arith);
    }
    let start: usize = line * outlinelen;
    (start + burst_end + BURST_MARGIN, start + outlinelen)
}

/// How many lines at the top of a field have no colour.
pub const COLOURLESS_LINES: usize = 16;

/// The level of a sample without colour.
pub const ZERO_LEVEL: u16 = 32_767;

/// A line of a field and its burst.
#[derive(Clone, Copy, Debug, PartialEq, Eq, Structural)]
pub struct ColourLine {
    pub start: usize,
    pub end: usize,
    pub burst_start: usize,
    pub burst_end: usize,
}

/// The lines of a field that have colour: all but the first few.
pub fn colour_lines(
    len: usize,
    line_len: usize,
    lines: usize,
    burst_start: usize,
    burst_end: usize,
) -> (found: Vec<ColourLine>)
    requires
        COLOURLESS_LINES < lines,
        lines * line_len <= len,
        burst_start <= burst_end <= line_len,
    ensures
        found@.len() == lines - COLOURLESS_LINES,
        found@.len() + 16 == lines,
        forall|k: int|
            0 <= k < found@.len() ==> {
                let line = #[trigger] found@[k];
                &&& line.start == (k + COLOURLESS_LINES) * line_len
                &&& line.end == line.start + line_len <= len
                &&& line.burst_start == line.start + burst_start
                &&& line.burst_end == line.start + burst_end
            },
{
    let mut found: Vec<ColourLine> = Vec::new();
    let mut line: usize = COLOURLESS_LINES;
    while line < lines
        invariant
            COLOURLESS_LINES <= line <= lines,
            lines * line_len <= len,
            burst_start <= burst_end <= line_len,
            found@.len() == line - COLOURLESS_LINES,
            forall|k: int|
                0 <= k < found@.len() ==> {
                    let line = #[trigger] found@[k];
                    &&& line.start == (k + COLOURLESS_LINES) * line_len
                    &&& line.end == line.start + line_len <= len
                    &&& line.burst_start == line.start + burst_start
                    &&& line.burst_end == line.start + burst_end
                },
        decreases lines - line,
    {
        proof {
            assert((line + 1) * line_len <= lines * line_len) by (nonlinear_arith)
                requires
                    line + 1 <= lines,
            ;
            assert((line + 1) * line_len == line * line_len + line_len) by (nonlinear_arith);
            assert(0 <= line * line_len) by (nonlinear_arith);
        }
        let start: usize = line * line_len;
        found.push(
            ColourLine {
                start,
                end: start + line_len,
                burst_start: start + burst_start,
                burst_end: start + burst_end,
            },
        );
        line = line + 1;
    }
    found
}

} // verus!
