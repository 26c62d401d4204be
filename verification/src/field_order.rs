//! The order of fields, and where the first line of a field begins. Lines are
//! counted in half lines.
use vstd::prelude::*;

use crate::ieee;
use crate::ieee::{at_most_single, less_single};
use crate::vblank::PulseType;

verus! {

/// What one field leaves behind for the next.
#[derive(Clone, Copy, Debug, PartialEq, Eq, Structural)]
pub struct InterFieldState {
    /// Where the field before was read, or -1.
    pub prev_first_hsync_readloc: i64,
    /// Where its first line began, a single, or -1.0.
    pub prev_first_hsync_loc: u32,
    /// By how many lines that was off the estimate, a single, or -1.0.
    pub prev_first_hsync_diff: u32,
    /// Whether it was a first field: 1 or 0, or -1.
    pub prev_first_field: i64,
    pub track_phase: Option<i64>,
    pub compute_linelocs_issues: bool,
}

/// What stands for a place or a field that is not known.
pub const NOT_KNOWN: i64 = -1;

/// The single -1.0.
pub const MINUS_ONE: u32 = 0xbf80_0000;

/// The single -0.5.
pub const MINUS_HALF: u32 = 0xbf00_0000;

/// The single 0.5.
pub const HALF: u32 = 0x3f00_0000;

impl InterFieldState {
    /// The state before the first field.
    pub fn new(track_phase: Option<i64>) -> (state: InterFieldState)
        ensures
            state == (InterFieldState {
                prev_first_hsync_readloc: NOT_KNOWN,
                prev_first_hsync_loc: MINUS_ONE,
                prev_first_hsync_diff: MINUS_ONE,
                prev_first_field: NOT_KNOWN,
                track_phase,
                compute_linelocs_issues: false,
            }),
    {
        InterFieldState {
            prev_first_hsync_readloc: NOT_KNOWN,
            prev_first_hsync_loc: MINUS_ONE,
            prev_first_hsync_diff: MINUS_ONE,
            prev_first_field: NOT_KNOWN,
            track_phase,
            compute_linelocs_issues: false,
        }
    }

    /// What a field leaves behind whose pulses were classified: where its first
    /// line began, if that was found, and which field it was.
    pub fn after_field(
        self,
        readloc: i64,
        first_hsync_loc: Option<u32>,
        prev_hsync_diff: u32,
        first_field: bool,
    ) -> (state: InterFieldState)
        ensures
            state == (InterFieldState {
                prev_first_hsync_readloc: if first_hsync_loc is Some {
                    readloc
                } else {
                    self.prev_first_hsync_readloc
                },
                prev_first_hsync_loc: match first_hsync_loc {
                    Some(loc) => loc,
                    None => self.prev_first_hsync_loc,
                },
                prev_first_hsync_diff: if first_hsync_loc is Some {
                    prev_hsync_diff
                } else {
                    self.prev_first_hsync_diff
                },
                prev_first_field: if first_field {
                    1
                } else {
                    0
                },
                ..self
            }),
    {
        let mut state = self;
        match first_hsync_loc {
            Some(loc) => {
                state.prev_first_hsync_readloc = readloc;
                state.prev_first_hsync_loc = loc;
                state.prev_first_hsync_diff = prev_hsync_diff;
            },
            None => {},
        }
        state.prev_first_field = if first_field {
            1
        } else {
            0
        };
        state
    }
}

/// Where a field was found to begin by other means.
#[derive(Clone, Copy, Debug, PartialEq, Eq, Structural)]
pub struct Line0FallbackResult {
    /// The place, a single.
    pub line0: u32,
    /// Whether it is a first field: 1 or 0, or -1.
    pub first_field: i64,
    /// How sure that is, in percent, or -1.
    pub first_field_confidence: i64,
}

/// The half lines before the first equalising pulse and after the last, at the
/// start of a field and at its end.
pub open spec fn signature(is_ntsc: bool, first_field: bool) -> Seq<i64> {
    if is_ntsc {
        if first_field {
            seq![2i64, 1i64, 1i64, 2i64]
        } else {
            seq![1i64, 2i64, 2i64, 1i64]
        }
    } else {
        if first_field {
            seq![1i64, 1i64, 2i64, 2i64]
        } else {
            seq![2i64, 2i64, 1i64, 1i64]
        }
    }
}

/// The same distances in progressive video.
pub open spec fn progressive_signature(is_ntsc: bool) -> Seq<i64> {
    if is_ntsc {
        seq![2i64, 1i64, 2i64, 1i64]
    } else {
        seq![1i64, 1i64, 1i64, 1i64]
    }
}

/// The distances of a first field, of a second field and of progressive video.
pub fn field_order_signatures(is_ntsc: bool) -> (signatures: ([i64; 4], [i64; 4], [i64; 4]))
    ensures
        signatures.0@ == signature(is_ntsc, true),
        signatures.1@ == signature(is_ntsc, false),
        signatures.2@ == progressive_signature(is_ntsc),
{
    let signatures: ([i64; 4], [i64; 4], [i64; 4]) = if is_ntsc {
        ([2, 1, 1, 2], [1, 2, 2, 1], [2, 1, 2, 1])
    } else {
        ([1, 1, 2, 2], [2, 2, 1, 1], [1, 1, 1, 1])
    };
    proof {
        assert(signatures.0@ =~= signature(is_ntsc, true));
        assert(signatures.1@ =~= signature(is_ntsc, false));
        assert(signatures.2@ =~= progressive_signature(is_ntsc));
    }
    signatures
}

/// How many of the first `count` distances are those of the signature.
pub open spec fn agreement(lengths: Seq<i64>, expected: Seq<i64>, count: nat) -> nat
    decreases count,
{
    if count == 0 {
        0
    } else {
        agreement(lengths, expected, (count - 1) as nat) + if lengths[count - 1]
            == expected[count - 1] {
            1nat
        } else {
            0nat
        }
    }
}

/// Whether the field is a first field, before any confidence is weighed.
pub open spec fn presumed_first(
    first: int,
    second: int,
    state: InterFieldState,
    fallback: Option<Line0FallbackResult>,
) -> bool {
    if state.prev_first_field == NOT_KNOWN {
        ||| first + second == 0
        ||| first > second
        ||| fallback is Some && fallback->0.first_field == 1
    } else {
        state.prev_first_field == 0
    }
}

/// The confidence, in percent, that a signature must reach.
pub open spec fn needed_confidence(
    asked: i64,
    state: InterFieldState,
    fallback: Option<Line0FallbackResult>,
) -> i64 {
    if (fallback is None || fallback->0.line0 == MINUS_ONE) && ieee::lt_single(
        state.prev_first_hsync_loc,
        0,
    ) && asked > 50 {
        50
    } else {
        asked
    }
}

/// Whether the field is a first field. Each distance that agrees with a
/// signature counts a quarter. A signature decides where it has the needed
/// confidence and more than the other; a fallback decides where it is surer than
/// both.
pub open spec fn is_first_field(
    lengths: Seq<i64>,
    is_ntsc: bool,
    state: InterFieldState,
    asked: i64,
    fallback: Option<Line0FallbackResult>,
) -> bool {
    let first = agreement(lengths, signature(is_ntsc, true), 4) as int;
    let second = agreement(lengths, signature(is_ntsc, false), 4) as int;
    let needed = needed_confidence(asked, state, fallback);
    if fallback is Some && fallback->0.first_field_confidence > 25 * first
        && fallback->0.first_field_confidence > 25 * second {
        fallback->0.first_field == 1
    } else if first > second && 25 * first >= needed {
        true
    } else if second > first && 25 * second >= needed {
        false
    } else {
        presumed_first(first, second, state, fallback)
    }
}

proof fn lemma_agreement(lengths: Seq<i64>, is_ntsc: bool, count: nat)
    requires
        count <= 4,
        lengths.len() == 4,
    ensures
        agreement(lengths, signature(is_ntsc, true), count) + agreement(
            lengths,
            signature(is_ntsc, false),
            count,
        ) <= count,
    decreases count,
{
    if count > 0 {
        lemma_agreement(lengths, is_ntsc, (count - 1) as nat);
        assert(signature(is_ntsc, true)[count - 1] != signature(is_ntsc, false)[count - 1]) by {
            if count == 1 {
            } else if count == 2 {
            } else if count == 3 {
            } else {
                assert(count == 4);
            }
        }
    }
}

/// Whether the field is progressive: every distance is that of progressive video.
pub open spec fn is_progressive(lengths: Seq<i64>, is_ntsc: bool) -> bool {
    agreement(lengths, progressive_signature(is_ntsc), 4) == 4
}

/// Decides whether the field is a first field, and whether it is progressive.
pub fn decide_field_order(
    field_order_lengths: [i64; 4],
    is_ntsc: bool,
    inter_field_state: &InterFieldState,
    field_order_confidence: i64,
    fallback: Option<Line0FallbackResult>,
) -> (result: (bool, bool))
    ensures
        result.0 == is_first_field(
            field_order_lengths@,
            is_ntsc,
            *inter_field_state,
            field_order_confidence,
            fallback,
        ),
        result.1 == is_progressive(field_order_lengths@, is_ntsc),
{
    let (fallback_line0, fallback_first, fallback_confidence) = match fallback {
        Some(found) => (found.line0, found.first_field, found.first_field_confidence),
        None => (MINUS_ONE, NOT_KNOWN, NOT_KNOWN),
    };
    let (first_lengths, second_lengths, progressive_lengths) = field_order_signatures(is_ntsc);
    let mut consensus: i64 = 0;
    let mut detected: i64 = 0;
    let mut progressive_consensus: i64 = 0;
    let mut index: usize = 0;
    while index < 4
        invariant
            index <= 4,
            first_lengths@ == signature(is_ntsc, true),
            second_lengths@ == signature(is_ntsc, false),
            progressive_lengths@ == progressive_signature(is_ntsc),
            consensus == agreement(field_order_lengths@, first_lengths@, index as nat),
            detected == consensus + agreement(field_order_lengths@, second_lengths@, index as nat),
            progressive_consensus == agreement(
                field_order_lengths@,
                progressive_lengths@,
                index as nat,
            ),
            progressive_consensus <= index,
            consensus <= index,
            detected <= 2 * index,
        decreases 4 - index,
    {
        let length: i64 = field_order_lengths[index];
        if length == first_lengths[index] {
            consensus = consensus + 1;
            detected = detected + 1;
        }
        if length == second_lengths[index] {
            detected = detected + 1;
        }
        if length == progressive_lengths[index] {
            progressive_consensus = progressive_consensus + 1;
        }
        index = index + 1;
    }
    proof {
        lemma_agreement(field_order_lengths@, is_ntsc, 4);
    }
    let mut first_field: bool = if inter_field_state.prev_first_field == NOT_KNOWN {
        detected == 0 || 2 * consensus > detected || fallback_first == 1
    } else {
        inter_field_state.prev_first_field == 0
    };
    let first_confidence: i64 = 25 * consensus;
    let second_confidence: i64 = 25 * (detected - consensus);
    if detected > 0 {
        let needed: i64 = if fallback_line0 == MINUS_ONE && less_single(
            inter_field_state.prev_first_hsync_loc,
            0,
        ) && field_order_confidence > 50 {
            50
        } else {
            field_order_confidence
        };
        if first_confidence >= needed && first_confidence > second_confidence {
            first_field = true;
        } else if second_confidence >= needed && first_confidence < second_confidence {
            first_field = false;
        }
    }
    if fallback_confidence > first_confidence && fallback_confidence > second_confidence {
        first_field = fallback_first == 1;
    }
    (first_field, progressive_consensus == 4)
}

/// All four distances of a signature decide the order whatever went before,
/// unless more than a hundred percent is asked or a fallback is surer.
pub proof fn law_full_signature_decides(
    is_ntsc: bool,
    first_field: bool,
    state: InterFieldState,
    asked: i64,
    fallback: Option<Line0FallbackResult>,
)
    requires
        asked <= 100,
        fallback is Some ==> fallback->0.first_field_confidence <= 100,
    ensures
        is_first_field(signature(is_ntsc, first_field), is_ntsc, state, asked, fallback)
            == first_field,
{
    let lengths = signature(is_ntsc, first_field);
    reveal_with_fuel(agreement, 5);
    assert(agreement(lengths, signature(is_ntsc, first_field), 4) == 4);
    assert(agreement(lengths, signature(is_ntsc, !first_field), 4) == 0);
}

/// Progressive video is told exactly by all four of its distances, which are those
/// of neither a first field nor a second one.
pub proof fn law_progressive_signature(lengths: Seq<i64>, is_ntsc: bool)
    requires
        lengths.len() == 4,
    ensures
        is_progressive(lengths, is_ntsc) <==> lengths == progressive_signature(is_ntsc),
        !is_progressive(signature(is_ntsc, true), is_ntsc),
        !is_progressive(signature(is_ntsc, false), is_ntsc),
{
    reveal_with_fuel(agreement, 5);
    let expected = progressive_signature(is_ntsc);
    if is_progressive(lengths, is_ntsc) {
        assert(lengths =~= expected);
    }
}

/// Without any distance that fits and without a fallback, fields alternate.
pub proof fn law_fields_alternate(lengths: Seq<i64>, is_ntsc: bool, state: InterFieldState, asked: i64)
    requires
        lengths.len() == 4,
        forall|i: int| 0 <= i < 4 ==> lengths[i] != 1 && lengths[i] != 2,
        state.prev_first_field == 0 || state.prev_first_field == 1,
    ensures
        is_first_field(lengths, is_ntsc, state, asked, None) == (state.prev_first_field == 0),
{
    reveal_with_fuel(agreement, 5);
    assert(lengths[0] != 1 && lengths[1] != 1 && lengths[2] != 1 && lengths[3] != 1);
    assert(agreement(lengths, signature(is_ntsc, true), 4) == 0);
    assert(agreement(lengths, signature(is_ntsc, false), 4) == 0);
}

/// Where the sections of the blanking intervals of a field should lie, in half
/// lines from its line 0.
#[derive(Clone, Copy, Debug, PartialEq, Eq)]
pub struct VblankLayout {
    /// For both intervals: the first equalising pulse, the first vertical sync,
    /// the first equalising pulse after it, the last pulse.
    pub lines: [i64; 8],
    /// The first line after the leading interval.
    pub hsync_start: i64,
    /// Lines of the field before, not in half lines.
    pub previous_field_lines: i64,
    /// Lines of the field, not in half lines.
    pub current_field_lines: i64,
}

/// How many lines can be counted in half lines.
pub const MAX_LINES: i64 = 0x1000_0000_0000_0000;

/// Where the sections should lie, given the lines of both fields and the
/// number of pulses in a section.
pub fn vblank_layout(
    first_field: bool,
    is_ntsc: bool,
    field_lines: [i64; 2],
    num_eq_pulses: i64,
) -> (layout: VblankLayout)
    requires
        -MAX_LINES <= field_lines@[0] <= MAX_LINES,
        -MAX_LINES <= field_lines@[1] <= MAX_LINES,
        -MAX_LINES <= num_eq_pulses <= MAX_LINES,
    ensures
        ({
            let expected = signature(is_ntsc, first_field);
            let field = if first_field {
                field_lines@[0]
            } else {
                field_lines@[1]
            };
            &&& layout.current_field_lines == field
            &&& layout.previous_field_lines == (if first_field {
                field_lines@[1]
            } else {
                field_lines@[0]
            })
            &&& forall|k: int|
                0 <= k < 8 ==> #[trigger] layout.lines@[k] == (if k < 4 {
                    expected[0] as int
                } else {
                    2 * field + expected[2]
                }) + (k % 4) * num_eq_pulses - (if k % 4 == 3 {
                    1int
                } else {
                    0int
                })
            &&& layout.hsync_start == expected[0] + 3 * num_eq_pulses - 1 + expected[1]
        }),
{
    let (first_lengths, second_lengths, _) = field_order_signatures(is_ntsc);
    let expected: [i64; 4] = if first_field {
        first_lengths
    } else {
        second_lengths
    };
    let (previous_field_lines, current_field_lines) = if first_field {
        (field_lines[1], field_lines[0])
    } else {
        (field_lines[0], field_lines[1])
    };
    proof {
        assert(expected@ == signature(is_ntsc, first_field));
    }
    let n: i64 = num_eq_pulses;
    let a: i64 = expected[0];
    let b: i64 = 2 * current_field_lines + expected[2];
    let lines: [i64; 8] = [
        a,
        a + n,
        a + 2 * n,
        a + 3 * n - 1,
        b,
        b + n,
        b + 2 * n,
        b + 3 * n - 1,
    ];
    let hsync_start: i64 = lines[3] + expected[1];
    let layout = VblankLayout { lines, hsync_start, previous_field_lines, current_field_lines };
    proof {
        assert forall|k: int| 0 <= k < 8 implies #[trigger] layout.lines@[k] == (if k < 4 {
            a as int
        } else {
            b as int
        }) + (k % 4) * n - (if k % 4 == 3 {
            1int
        } else {
            0int
        }) by {
            if k == 0 || k == 4 {
                assert((k % 4) * n == 0) by (nonlinear_arith)
                    requires
                        k % 4 == 0,
                ;
            } else if k == 1 || k == 5 {
                assert((k % 4) * n == n) by (nonlinear_arith)
                    requires
                        k % 4 == 1,
                ;
            } else if k == 2 || k == 6 {
                assert((k % 4) * n == 2 * n) by (nonlinear_arith)
                    requires
                        k % 4 == 2,
                ;
            } else {
                assert(k == 3 || k == 7);
                assert((k % 4) * n == 3 * n) by (nonlinear_arith)
                    requires
                        k % 4 == 3,
                ;
            }
        }
    }
    layout
}

/// Whether two sections of one blanking interval can be compared: `base` is 0
/// for the leading interval, 4 for the trailing one.
pub open spec fn pair_within(marks: Seq<Option<usize>>, base: int, a: int, b: int) -> bool {
    base <= a < b < base + 4 && marks[a] is Some && marks[b] is Some
}

/// Whether sections of both intervals can be compared.
pub open spec fn pair_across(marks: Seq<Option<usize>>, a: int, b: int) -> bool {
    0 <= a < 4 && 4 <= b < 8 && marks[a] is Some && marks[b] is Some
}

/// The pairs of sections of one blanking interval whose pulses were found, each
/// once, the earlier section first.
pub fn pairs_within(marks: &[Option<usize>; 8], trailing: bool) -> (pairs: Vec<(usize, usize)>)
    ensures
        ({
            let base = if trailing {
                4int
            } else {
                0int
            };
            &&& forall|k: int|
                0 <= k < pairs@.len() ==> pair_within(
                    marks@,
                    base,
                    (#[trigger] pairs@[k]).0 as int,
                    pairs@[k].1 as int,
                )
            &&& forall|a: int, b: int|
                #[trigger] pair_within(marks@, base, a, b) ==> pairs@.contains(
                    (a as usize, b as usize),
                )
            &&& ordered_pairs(pairs@)
            &&& pairs@.len() <= 6
        }),
{
    let base: usize = if trailing {
        4
    } else {
        0
    };
    let mut pairs: Vec<(usize, usize)> = Vec::new();
    let mut a: usize = 0;
    while a < 3
        invariant
            a <= 3,
            base == 0 || base == 4,
            pairs@.len() <= (if a == 0 {
                0int
            } else if a == 1 {
                3
            } else if a == 2 {
                5
            } else {
                6
            }),
            forall|k: int|
                0 <= k < pairs@.len() ==> pair_within(
                    marks@,
                    base as int,
                    (#[trigger] pairs@[k]).0 as int,
                    pairs@[k].1 as int,
                ) && pairs@[k].0 < base + a,
            forall|x: int, y: int|
                #[trigger] pair_within(marks@, base as int, x, y) && x < base + a
                    ==> pairs@.contains((x as usize, y as usize)),
            ordered_pairs(pairs@),
        decreases 3 - a,
    {
        let ghost start = pairs@.len();
        let mut b: usize = a + 1;
        while b < 4
            invariant
                a < 3,
                a < b <= 4,
                base == 0 || base == 4,
                start <= pairs@.len() <= start + b - a - 1,
                forall|k: int|
                    0 <= k < pairs@.len() ==> pair_within(
                        marks@,
                        base as int,
                        (#[trigger] pairs@[k]).0 as int,
                        pairs@[k].1 as int,
                    ) && (pairs@[k].0 < base + a || (pairs@[k].0 == base + a && pairs@[k].1 < base
                        + b)),
                forall|x: int, y: int|
                    #[trigger] pair_within(marks@, base as int, x, y) && (x < base + a || (x == base
                        + a && y < base + b)) ==> pairs@.contains((x as usize, y as usize)),
                ordered_pairs(pairs@),
            decreases 4 - b,
        {
            let ghost before = pairs@;
            if marks[base + a].is_some() && marks[base + b].is_some() {
                proof {
                    lemma_pushed_pair(before, (base + a) as usize, (base + b) as usize);
                    assert(pair_within(marks@, base as int, base + a, base + b));
                }
                pairs.push((base + a, base + b));
            }
            b = b + 1;
        }
        a = a + 1;
    }
    pairs
}

/// That pairs come in the order of their first places, then of their second.
pub open spec fn ordered_pairs(pairs: Seq<(usize, usize)>) -> bool {
    forall|k: int, l: int|
        0 <= k < l < pairs.len() ==> (#[trigger] pairs[k]).0 < (#[trigger] pairs[l]).0 || (
        pairs[k].0 == pairs[l].0 && pairs[k].1 < pairs[l].1)
}

proof fn lemma_pushed_pair(pairs: Seq<(usize, usize)>, a: usize, b: usize)
    ensures
        pairs.push((a, b)).contains((a, b)),
        forall|x: usize, y: usize|
            pairs.contains((x, y)) ==> #[trigger] pairs.push((a, b)).contains((x, y)),
{
    let after = pairs.push((a, b));
    assert(after[pairs.len() as int] == (a, b));
    assert forall|x: usize, y: usize| pairs.contains((x, y)) implies #[trigger] after.contains(
        (x, y),
    ) by {
        let k = choose|k: int| 0 <= k < pairs.len() && pairs[k] == (x, y);
        assert(after[k] == (x, y));
    }
}

/// The pairs of sections of both blanking intervals whose pulses were found, each
/// once.
pub fn pairs_across(marks: &[Option<usize>; 8]) -> (pairs: Vec<(usize, usize)>)
    ensures
        forall|k: int|
            0 <= k < pairs@.len() ==> pair_across(
                marks@,
                (#[trigger] pairs@[k]).0 as int,
                pairs@[k].1 as int,
            ),
        forall|a: int, b: int|
            #[trigger] pair_across(marks@, a, b) ==> pairs@.contains((a as usize, b as usize)),
        ordered_pairs(pairs@),
{
    let mut pairs: Vec<(usize, usize)> = Vec::new();
    let mut a: usize = 0;
    while a < 4
        invariant
            a <= 4,
            forall|k: int|
                0 <= k < pairs@.len() ==> pair_across(
                    marks@,
                    (#[trigger] pairs@[k]).0 as int,
                    pairs@[k].1 as int,
                ) && pairs@[k].0 < a,
            forall|x: int, y: int|
                #[trigger] pair_across(marks@, x, y) && x < a ==> pairs@.contains(
                    (x as usize, y as usize),
                ),
            ordered_pairs(pairs@),
        decreases 4 - a,
    {
        let mut b: usize = 4;
        while b < 8
            invariant
                a < 4,
                4 <= b <= 8,
                forall|k: int|
                    0 <= k < pairs@.len() ==> pair_across(
                        marks@,
                        (#[trigger] pairs@[k]).0 as int,
                        pairs@[k].1 as int,
                    ) && (pairs@[k].0 < a || (pairs@[k].0 == a && pairs@[k].1 < b)),
                forall|x: int, y: int|
                    #[trigger] pair_across(marks@, x, y) && (x < a || (x == a && y < b))
                        ==> pairs@.contains((x as usize, y as usize)),
                ordered_pairs(pairs@),
            decreases 8 - b,
        {
            let ghost before = pairs@;
            if marks[a].is_some() && marks[b].is_some() {
                proof {
                    lemma_pushed_pair(before, a, b);
                    assert(pair_across(marks@, a as int, b as int));
                }
                pairs.push((a, b));
            }
            b = b + 1;
        }
        a = a + 1;
    }
    pairs
}

/// What the place of the first line is taken from.
#[derive(Clone, Copy, Debug, PartialEq, Eq, Structural)]
pub enum HsyncSource {
    /// Both blanking intervals, which agree.
    Both,
    /// A fallback.
    Fallback,
    /// The leading interval alone.
    Leading,
    /// The trailing interval alone.
    Trailing,
    /// The field before.
    Estimate,
    /// Nothing: the place is not known.
    Unknown,
}

/// What the place of the first line is taken from: `leading` and `trailing`
/// count the pulse pairs of each interval that lie as far apart as they should.
pub open spec fn hsync_source_of(
    leading: nat,
    trailing: nat,
    agree: bool,
    has_fallback: bool,
    prev_loc: u32,
) -> HsyncSource {
    let no_previous = ieee::le_single(prev_loc, 0);
    if leading != 0 && trailing != 0 && agree {
        HsyncSource::Both
    } else if has_fallback {
        HsyncSource::Fallback
    } else if leading == 6 || (no_previous && leading > trailing) {
        HsyncSource::Leading
    } else if trailing == 6 || (no_previous && trailing > leading) {
        HsyncSource::Trailing
    } else if ieee::lt_single(0, prev_loc) {
        HsyncSource::Estimate
    } else {
        HsyncSource::Unknown
    }
}

/// What the place of the first line is taken from. `agree` tells whether the
/// places that both intervals give lie within half a line.
pub fn hsync_source(
    leading: usize,
    trailing: usize,
    agree: bool,
    has_fallback: bool,
    inter_field_state: &InterFieldState,
) -> (source: HsyncSource)
    ensures
        source == hsync_source_of(
            leading as nat,
            trailing as nat,
            agree,
            has_fallback,
            inter_field_state.prev_first_hsync_loc,
        ),
{
    let no_previous: bool = at_most_single(inter_field_state.prev_first_hsync_loc, 0);
    if leading != 0 && trailing != 0 && agree {
        HsyncSource::Both
    } else if has_fallback {
        HsyncSource::Fallback
    } else if leading == 6 || (no_previous && leading != 0 && leading > trailing) {
        HsyncSource::Leading
    } else if trailing == 6 || (no_previous && trailing != 0 && trailing > leading) {
        HsyncSource::Trailing
    } else if less_single(0, inter_field_state.prev_first_hsync_loc) {
        HsyncSource::Estimate
    } else {
        HsyncSource::Unknown
    }
}

/// Whether the last difference from the estimate is small enough to be added
/// to the next one.
pub fn uses_last_difference(inter_field_state: &InterFieldState) -> (uses: bool)
    ensures
        uses == (ieee::le_single(MINUS_HALF, inter_field_state.prev_first_hsync_diff)
            && ieee::le_single(inter_field_state.prev_first_hsync_diff, HALF)),
        uses <==> inter_field_state.prev_first_hsync_diff <= 0x3f00_0000 || 0x8000_0000
            <= inter_field_state.prev_first_hsync_diff <= 0xbf00_0000,
{
    at_most_single(MINUS_HALF, inter_field_state.prev_first_hsync_diff) && at_most_single(
        inter_field_state.prev_first_hsync_diff,
        HALF,
    )
}

/// Whether the pulse is a sound horizontal sync.
pub open spec fn sound_hsync(types: Seq<PulseType>, good: Seq<bool>, index: int) -> bool {
    types[index] == PulseType::Hsync && good[index]
}

/// Whether a sound horizontal sync before `count` lies past the field.
pub open spec fn past_field(
    types: Seq<PulseType>,
    good: Seq<bool>,
    lines: Seq<i64>,
    current_field_lines: int,
    count: int,
) -> bool {
    exists|i: int|
        0 <= i < count && #[trigger] sound_hsync(types, good, i) && lines[i] > current_field_lines
}

/// Whether a pulse takes part in the refinement of the place of the first line:
/// a sound horizontal sync at or after the first line, up to the first one that
/// lies past the field.
pub open spec fn refines(
    types: Seq<PulseType>,
    good: Seq<bool>,
    lines: Seq<i64>,
    hsync_start: int,
    current_field_lines: int,
    index: int,
) -> bool {
    &&& sound_hsync(types, good, index)
    &&& !past_field(types, good, lines, current_field_lines, index + 1)
    &&& 2 * lines[index] >= hsync_start
}

/// The pulses that refine the place of the first line, in order. `lines` holds
/// for each pulse the line that it is nearest to.
pub fn refinement_pulses(
    types: &[PulseType],
    good: &[bool],
    lines: &[i64],
    hsync_start: i64,
    current_field_lines: i64,
) -> (indices: Vec<usize>)
    requires
        types@.len() == good@.len() == lines@.len(),
    ensures
        forall|k: int|
            0 <= k < indices@.len() ==> #[trigger] indices@[k] < types@.len() && refines(
                types@,
                good@,
                lines@,
                hsync_start as int,
                current_field_lines as int,
                indices@[k] as int,
            ),
        forall|k: int, l: int|
            0 <= k < l < indices@.len() ==> #[trigger] indices@[k] < #[trigger] indices@[l],
        forall|i: int|
            0 <= i < types@.len() && #[trigger] refines(
                types@,
                good@,
                lines@,
                hsync_start as int,
                current_field_lines as int,
                i,
            ) ==> indices@.contains(i as usize),
{
    let mut indices: Vec<usize> = Vec::new();
    let mut index: usize = 0;
    while index < types.len()
        invariant_except_break
            !past_field(types@, good@, lines@, current_field_lines as int, index as int),
            forall|i: int|
                0 <= i < index && #[trigger] refines(
                    types@,
                    good@,
                    lines@,
                    hsync_start as int,
                    current_field_lines as int,
                    i,
                ) ==> indices@.contains(i as usize),
        invariant
            index <= types@.len(),
            types@.len() == good@.len() == lines@.len(),
            forall|k: int|
                0 <= k < indices@.len() ==> #[trigger] indices@[k] < index && refines(
                    types@,
                    good@,
                    lines@,
                    hsync_start as int,
                    current_field_lines as int,
                    indices@[k] as int,
                ),
            forall|k: int, l: int|
                0 <= k < l < indices@.len() ==> #[trigger] indices@[k] < #[trigger] indices@[l],
        ensures
            forall|i: int|
                0 <= i < types@.len() && #[trigger] refines(
                    types@,
                    good@,
                    lines@,
                    hsync_start as int,
                    current_field_lines as int,
                    i,
                ) ==> indices@.contains(i as usize),
        decreases types@.len() - index,
    {
        if types[index] == PulseType::Hsync && good[index] {
            proof {
                assert(sound_hsync(types@, good@, index as int));
            }
            if lines[index] > current_field_lines {
                proof {
                    assert forall|i: int|
                        index <= i < types@.len() implies !#[trigger] refines(
                        types@,
                        good@,
                        lines@,
                        hsync_start as int,
                        current_field_lines as int,
                        i,
                    ) by {
                        assert(past_field(
                            types@,
                            good@,
                            lines@,
                            current_field_lines as int,
                            i + 1,
                        ));
                    }
                }
                break;
            }
            proof {
                assert(!past_field(
                    types@,
                    good@,
                    lines@,
                    current_field_lines as int,
                    index + 1,
                ));
            }
            if 2 * (lines[index] as i128) >= hsync_start as i128 {
                let ghost before = indices@;
                indices.push(index);
                proof {
                    assert forall|i: int|
                        0 <= i < index + 1 && #[trigger] refines(
                            types@,
                            good@,
                            lines@,
                            hsync_start as int,
                            current_field_lines as int,
                            i,
                        ) implies indices@.contains(i as usize) by {
                        if i == index {
                            assert(indices@[before.len() as int] == index);
                        } else {
                            assert(before.contains(i as usize));
                            let k = choose|k: int| 0 <= k < before.len() && before[k] == i as usize;
                            assert(indices@[k] == i as usize);
                        }
                    }
                }
            }
        }
        index = index + 1;
    }
    indices
}

} // verus!
