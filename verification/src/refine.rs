//! Where the lines of a field begin, refined by the edges of their sync pulses.
//! A place is a single.
use vstd::prelude::*;

use crate::field_order::MINUS_ONE;
use crate::ieee;
use crate::ieee::less_single;

verus! {

/// There are not as many flags as lines.
#[derive(Clone, Copy, Debug, PartialEq, Eq, Structural)]
pub struct UnequalLines;

impl UnequalLines {
    /// The message of the error.
    pub fn message(self) -> (text: String)
        ensures
            text@ == "linebad length doesn't match linelocs length"@,
    {
        "linebad length doesn't match linelocs length".to_owned()
    }
}

/// What the falling edge of a sync pulse tells.
#[derive(Clone, Copy, Debug, PartialEq, Eq, Structural)]
pub enum LeftEdge {
    /// There is none.
    Missed,
    /// The signal around it is out of range.
    OutOfRange,
    /// It lies here, and does not bear a second look.
    Unsettled { crossing: u32 },
    /// A second look found it here, with this level before it.
    Settled { place: u32, porch: u32 },
}

/// What the rising edge of a sync pulse tells: where the line begins by it, and
/// the level after it.
#[derive(Clone, Copy, Debug, PartialEq, Eq, Structural)]
pub struct RightEdge {
    pub place: u32,
    pub porch: u32,
}

/// The lines of a field while they are refined.
#[verifier::ext_equal]
pub struct RefineView {
    pub initial: Seq<u32>,
    pub places: Seq<u32>,
    /// 1 for a line that was not found, 0 otherwise.
    pub bad: Seq<u8>,
    /// The level around the last sync pulse, or -1.0.
    pub porch: u32,
    /// How many lines have been looked at.
    pub line: nat,
    /// Whether the falling edge of the current line has been looked at.
    pub half_done: bool,
}

/// Whether a line is in the blanking interval, where no sync pulse tells where it
/// begins.
pub open spec fn skipped(line: int, is_pal: bool) -> bool {
    3 <= line <= 6 || (is_pal && 1 <= line <= 2)
}

impl RefineView {
    pub open spec fn wf(self) -> bool {
        &&& self.initial.len() == self.places.len() == self.bad.len()
        &&& self.line <= self.initial.len()
        &&& self.half_done ==> self.line < self.initial.len()
    }

    /// The lines of the blanking interval passed over, and marked.
    pub open spec fn passed(self, is_pal: bool) -> RefineView
        decreases self.initial.len() - self.line,
    {
        if self.line < self.initial.len() && skipped(self.line as int, is_pal) {
            RefineView {
                bad: self.bad.update(self.line as int, 1),
                line: self.line + 1,
                ..self
            }.passed(is_pal)
        } else {
            self
        }
    }

    /// The falling edge of the current line taken into account.
    pub open spec fn after_left(self, left: LeftEdge) -> RefineView {
        let line = self.line as int;
        let bad_line = RefineView { bad: self.bad.update(line, 1), half_done: true, ..self };
        if self.bad[line] != 0 {
            bad_line
        } else {
            match left {
                LeftEdge::Missed => bad_line,
                LeftEdge::OutOfRange => RefineView {
                    places: self.places.update(line, self.initial[line]),
                    ..bad_line
                },
                LeftEdge::Unsettled { crossing } => RefineView {
                    places: self.places.update(line, crossing),
                    ..bad_line
                },
                LeftEdge::Settled { place, porch } => RefineView {
                    places: self.places.update(line, place),
                    porch,
                    half_done: true,
                    ..self
                },
            }
        }
    }

    /// The rising edge of the current line taken into account: it decides where
    /// there is one; a line that was not found stays where it was.
    pub open spec fn after_right(self, right: Option<RightEdge>) -> RefineView {
        let line = self.line as int;
        match right {
            Some(edge) => RefineView {
                places: self.places.update(line, edge.place),
                bad: self.bad.update(line, 0),
                porch: edge.porch,
                line: self.line + 1,
                half_done: false,
                ..self
            },
            None => RefineView {
                places: if self.bad[line] != 0 {
                    self.places.update(line, self.initial[line])
                } else {
                    self.places
                },
                line: self.line + 1,
                half_done: false,
                ..self
            },
        }
    }

    /// That the lines that were not found are where they were, and so are those
    /// that have not been looked at.
    pub open spec fn bad_lines_kept(self) -> bool {
        &&& forall|i: int|
            0 <= i < self.line && self.bad[i] != 0 ==> #[trigger] self.places[i] == self.initial[i]
        &&& forall|i: int|
            self.line < i < self.initial.len() ==> #[trigger] self.places[i] == self.initial[i]
        &&& !self.half_done && self.line < self.initial.len() ==> self.places[self.line as int]
            == self.initial[self.line as int]
    }
}

/// A line that was not found stays where it was, whatever the edges tell.
pub proof fn law_bad_lines_kept(
    state: RefineView,
    is_pal: bool,
    left: LeftEdge,
    right: Option<RightEdge>,
)
    requires
        state.wf(),
        state.bad_lines_kept(),
    ensures
        !state.half_done ==> state.passed(is_pal).wf() && state.passed(is_pal).bad_lines_kept(),
        !state.half_done && state.line < state.initial.len() ==> state.after_left(left).wf()
            && state.after_left(left).bad_lines_kept(),
        state.half_done ==> state.after_right(right).wf() && state.after_right(
            right,
        ).bad_lines_kept(),
    decreases state.initial.len() - state.line,
{
    if !state.half_done && state.line < state.initial.len() && skipped(state.line as int, is_pal) {
        let next = RefineView {
            bad: state.bad.update(state.line as int, 1),
            line: state.line + 1,
            ..state
        };
        law_bad_lines_kept(next, is_pal, left, right);
    }
}

/// The lines of a field while they are refined.
pub struct LineRefiner {
    initial: Vec<u32>,
    places: Vec<u32>,
    bad: Vec<u8>,
    porch: u32,
    line: usize,
    half_done: bool,
}

impl View for LineRefiner {
    type V = RefineView;

    closed spec fn view(&self) -> RefineView {
        RefineView {
            initial: self.initial@,
            places: self.places@,
            bad: self.bad@,
            porch: self.porch,
            line: self.line as nat,
            half_done: self.half_done,
        }
    }
}

impl LineRefiner {
    /// Lines with their places and flags, none looked at.
    pub fn new(initial: &[u32], linebad: &[u8]) -> (result: Result<LineRefiner, UnequalLines>)
        ensures
            match result {
                Ok(refiner) => initial@.len() == linebad@.len() && refiner@ == (RefineView {
                    initial: initial@,
                    places: initial@,
                    bad: linebad@,
                    porch: MINUS_ONE,
                    line: 0,
                    half_done: false,
                }) && refiner@.wf() && refiner@.bad_lines_kept(),
                Err(_) => initial@.len() != linebad@.len(),
            },
    {
        if linebad.len() != initial.len() {
            return Err(UnequalLines);
        }
        let refiner = LineRefiner {
            initial: vstd::slice::slice_to_vec(initial),
            places: vstd::slice::slice_to_vec(initial),
            bad: vstd::slice::slice_to_vec(linebad),
            porch: MINUS_ONE,
            line: 0,
            half_done: false,
        };
        proof {
            assert(refiner@.initial =~= initial@);
            assert(refiner@.places =~= initial@);
            assert(refiner@.bad =~= linebad@);
        }
        Ok(refiner)
    }

    /// The next line to be looked at, if there is one.
    pub fn next(&mut self, is_pal: bool) -> (line: Option<usize>)
        requires
            old(self)@.wf(),
            !old(self)@.half_done,
        ensures
            final(self)@ == old(self)@.passed(is_pal),
            final(self)@.wf(),
            !final(self)@.half_done,
            match line {
                Some(line) => line == final(self)@.line < final(self)@.initial.len(),
                None => final(self)@.line == final(self)@.initial.len(),
            },
    {
        let ghost goal = self@.passed(is_pal);
        while self.line < self.initial.len() && ((3 <= self.line && self.line <= 6) || (is_pal && 1
            <= self.line && self.line <= 2))
            invariant
                self@.wf(),
                !self@.half_done,
                goal == self@.passed(is_pal),
            decreases self.initial@.len() - self.line,
        {
            let ghost before = self@;
            self.bad.set(self.line, 1);
            self.line = self.line + 1;
            proof {
                assert(self@ =~= RefineView {
                    bad: before.bad.update(before.line as int, 1),
                    line: before.line + 1,
                    ..before
                });
            }
        }
        if self.line < self.initial.len() {
            Some(self.line)
        } else {
            None
        }
    }

    /// Whether the falling edge of the current line is worth a look.
    pub fn wants_left(&self) -> (wanted: bool)
        requires
            self@.wf(),
            self@.line < self@.initial.len(),
        ensures
            wanted == (self@.bad[self@.line as int] == 0),
    {
        self.bad[self.line] == 0
    }

    /// The level around the last sync pulse, where it is known.
    pub fn porch(&self) -> (level: Option<u32>)
        ensures
            level == if ieee::lt_single(0, self@.porch) {
                Some(self@.porch)
            } else {
                None
            },
    {
        if less_single(0, self.porch) {
            Some(self.porch)
        } else {
            None
        }
    }

    /// Takes the falling edge of the current line into account, and tells where
    /// the line begins by it.
    pub fn left(&mut self, left: LeftEdge) -> (place: u32)
        requires
            old(self)@.wf(),
            !old(self)@.half_done,
            old(self)@.line < old(self)@.initial.len(),
        ensures
            final(self)@ == old(self)@.after_left(left),
            final(self)@.wf(),
            place == final(self)@.places[final(self)@.line as int],
    {
        let line: usize = self.line;
        self.half_done = true;
        if self.bad[line] != 0 {
            self.bad.set(line, 1);
        } else {
            match left {
                LeftEdge::Missed => {
                    self.bad.set(line, 1);
                },
                LeftEdge::OutOfRange => {
                    self.bad.set(line, 1);
                    self.places.set(line, self.initial[line]);
                },
                LeftEdge::Unsettled { crossing } => {
                    self.bad.set(line, 1);
                    self.places.set(line, crossing);
                },
                LeftEdge::Settled { place, porch } => {
                    self.places.set(line, place);
                    self.porch = porch;
                },
            }
        }
        proof {
            assert(self@ =~= old(self)@.after_left(left));
        }
        self.places[line]
    }

    /// Takes the rising edge of the current line into account, and goes on to the
    /// next line.
    pub fn right(&mut self, right: Option<RightEdge>)
        requires
            old(self)@.wf(),
            old(self)@.half_done,
        ensures
            final(self)@ == old(self)@.after_right(right),
            final(self)@.wf(),
            !final(self)@.half_done,
    {
        let line: usize = self.line;
        let total: usize = self.initial.len();
        assert(line < total);
        match right {
            Some(edge) => {
                self.places.set(line, edge.place);
                self.bad.set(line, 0);
                self.porch = edge.porch;
            },
            None => {
                if self.bad[line] != 0 {
                    self.places.set(line, self.initial[line]);
                }
            },
        }
        self.line = line + 1;
        self.half_done = false;
        proof {
            assert(self@ =~= old(self)@.after_right(right));
        }
    }

    /// Where the lines begin, and which of them were not found.
    pub fn finish(self) -> (lines: (Vec<u32>, Vec<u8>))
        ensures
            lines.0@ == self@.places,
            lines.1@ == self@.bad,
    {
        (self.places, self.bad)
    }
}

} // verus!
