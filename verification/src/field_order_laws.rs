//! How the distances around the blanking intervals tell the order of fields.
use vstd::prelude::*;

use crate::field_order;
use crate::field_order::{HsyncSource, InterFieldState, Line0FallbackResult};
use crate::ieee;
use crate::vblank::PulseType;

verus! {

/// How many of four distances, in half lines, are these.
pub open spec fn alike(lengths: Seq<i64>, a: i64, b: i64, c: i64, d: i64) -> int {
    (if lengths[0] == a {
        1int
    } else {
        0int
    }) + (if lengths[1] == b {
        1int
    } else {
        0int
    }) + (if lengths[2] == c {
        1int
    } else {
        0int
    }) + (if lengths[3] == d {
        1int
    } else {
        0int
    })
}

/// How many distances are those of a first field: in 525-line video a line before the
/// leading interval, half a line after it, half a line before the trailing one and a
/// line after it; else half a line around the leading interval and a line around the
/// trailing one.
pub open spec fn as_first(lengths: Seq<i64>, is_ntsc: bool) -> int {
    if is_ntsc {
        alike(lengths, 2, 1, 1, 2)
    } else {
        alike(lengths, 1, 1, 2, 2)
    }
}

/// How many distances are those of a second field, in which each is the other one.
pub open spec fn as_second(lengths: Seq<i64>, is_ntsc: bool) -> int {
    if is_ntsc {
        alike(lengths, 1, 2, 2, 1)
    } else {
        alike(lengths, 2, 2, 1, 1)
    }
}

proof fn lemma_agreement(lengths: Seq<i64>, is_ntsc: bool)
    requires
        lengths.len() == 4,
    ensures
        field_order::agreement(lengths, field_order::signature(is_ntsc, true), 4) == as_first(
            lengths,
            is_ntsc,
        ),
        field_order::agreement(lengths, field_order::signature(is_ntsc, false), 4) == as_second(
            lengths,
            is_ntsc,
        ),
{
    reveal_with_fuel(field_order::agreement, 5);
}

/// The order of a field. A fallback that is surer, in percent, than a quarter for
/// each distance that agrees decides. Else the order decides that more distances
/// agree with, where they reach what is asked; half will do where no place is known,
/// neither of a fallback nor of a field before. Else the field follows the one
/// before; and where that is not known, it is a first field if no distance tells, if
/// more tell for one, or if a fallback says so.
pub proof fn law_order_of_field(
    lengths: Seq<i64>,
    is_ntsc: bool,
    state: InterFieldState,
    asked: i64,
    fallback: Option<Line0FallbackResult>,
)
    requires
        lengths.len() == 4,
    ensures
        ({
            let first = as_first(lengths, is_ntsc);
            let second = as_second(lengths, is_ntsc);
            let told = field_order::is_first_field(lengths, is_ntsc, state, asked, fallback);
            let surer = fallback is Some && fallback->0.first_field_confidence > 25 * first
                && fallback->0.first_field_confidence > 25 * second;
            let nowhere = (fallback is None || fallback->0.line0 == 0xbf80_0000)
                && ieee::lt_single(state.prev_first_hsync_loc, 0);
            let reached = |count: int| 25 * count >= asked || (nowhere && count >= 2);
            &&& surer ==> told == (fallback->0.first_field == 1)
            &&& !surer && first > second && reached(first) ==> told
            &&& !surer && second > first && reached(second) ==> !told
            &&& !surer && !(first > second && reached(first)) && !(second > first && reached(
                second,
            )) && state.prev_first_field != -1 ==> told == (state.prev_first_field == 0)
            &&& !surer && !(first > second && reached(first)) && !(second > first && reached(
                second,
            )) && state.prev_first_field == -1 ==> told == ((first == 0 && second == 0) || first
                > second || (fallback is Some && fallback->0.first_field == 1))
        }),
{
    lemma_agreement(lengths, is_ntsc);
}

/// Distances of both orders exclude each other: none is that of a first field and of
/// a second one.
pub proof fn law_orders_exclude(lengths: Seq<i64>, is_ntsc: bool)
    requires
        lengths.len() == 4,
    ensures
        0 <= as_first(lengths, is_ntsc),
        0 <= as_second(lengths, is_ntsc),
        as_first(lengths, is_ntsc) + as_second(lengths, is_ntsc) <= 4,
        field_order::is_progressive(lengths, is_ntsc) ==> as_first(lengths, is_ntsc) == 2
            && as_second(lengths, is_ntsc) == 2,
{
    field_order::law_progressive_signature(lengths, is_ntsc);
}

/// Whole signatures, in half lines, are told apart whatever was before, if no more
/// than certainty is asked and no fallback is surer; progressive video has its own.
pub proof fn law_whole_signatures(
    state: InterFieldState,
    asked: i64,
    fallback: Option<Line0FallbackResult>,
)
    requires
        asked <= 100,
        fallback is Some ==> fallback->0.first_field_confidence <= 100,
    ensures
        field_order::is_first_field(seq![2, 1, 1, 2], true, state, asked, fallback),
        !field_order::is_first_field(seq![1, 2, 2, 1], true, state, asked, fallback),
        field_order::is_first_field(seq![1, 1, 2, 2], false, state, asked, fallback),
        !field_order::is_first_field(seq![2, 2, 1, 1], false, state, asked, fallback),
        forall|lengths: Seq<i64>|
            lengths.len() == 4 ==> (#[trigger] field_order::is_progressive(lengths, true)
                <==> lengths == seq![2i64, 1i64, 2i64, 1i64]),
        forall|lengths: Seq<i64>|
            lengths.len() == 4 ==> (#[trigger] field_order::is_progressive(lengths, false)
                <==> lengths == seq![1i64, 1i64, 1i64, 1i64]),
{
    law_order_of_field(seq![2, 1, 1, 2], true, state, asked, fallback);
    law_order_of_field(seq![1, 2, 2, 1], true, state, asked, fallback);
    law_order_of_field(seq![1, 1, 2, 2], false, state, asked, fallback);
    law_order_of_field(seq![2, 2, 1, 1], false, state, asked, fallback);
    assert forall|lengths: Seq<i64>| lengths.len() == 4 implies (
    #[trigger] field_order::is_progressive(lengths, true) <==> lengths == seq![
        2i64,
        1i64,
        2i64,
        1i64,
    ]) by {
        field_order::law_progressive_signature(lengths, true);
    }
    assert forall|lengths: Seq<i64>| lengths.len() == 4 implies (
    #[trigger] field_order::is_progressive(lengths, false) <==> lengths == seq![
        1i64,
        1i64,
        1i64,
        1i64,
    ]) by {
        field_order::law_progressive_signature(lengths, false);
    }
}

/// What the first line is taken from: both intervals where both have pairs and
/// agree; else a fallback; else an interval of which all six pairs fit, or, where no
/// place is known of the field before, that has more of them, the leading one first;
/// else the field before. Nothing is known only where none of these is there.
pub proof fn law_source_of_first_line(
    leading: nat,
    trailing: nat,
    agree: bool,
    has_fallback: bool,
    prev_loc: u32,
)
    ensures
        ({
            let source = field_order::hsync_source_of(
                leading,
                trailing,
                agree,
                has_fallback,
                prev_loc,
            );
            let both = leading > 0 && trailing > 0 && agree;
            let fresh = ieee::le_single(prev_loc, 0);
            &&& source == HsyncSource::Both <==> both
            &&& source == HsyncSource::Fallback <==> !both && has_fallback
            &&& !both && !has_fallback && leading == 6 ==> source == HsyncSource::Leading
            &&& !both && !has_fallback && leading != 6 && trailing == 6 && !(fresh && leading
                > trailing) ==> source == HsyncSource::Trailing
            &&& !both && !has_fallback && leading != 6 && trailing != 6 && fresh && leading
                > trailing ==> source == HsyncSource::Leading
            &&& !both && !has_fallback && leading != 6 && trailing != 6 && fresh && leading
                < trailing ==> source == HsyncSource::Trailing
            &&& source == HsyncSource::Leading ==> leading > 0 && (leading == 6 || leading
                > trailing)
            &&& source == HsyncSource::Trailing ==> trailing > 0 && (trailing == 6 || trailing
                > leading)
            &&& source == HsyncSource::Estimate ==> ieee::lt_single(0, prev_loc) && leading != 6
                && trailing != 6
            &&& source == HsyncSource::Unknown ==> !ieee::lt_single(0, prev_loc) && leading != 6
                && trailing != 6
        }),
{
}

/// The pulses that the first line is refined by are the sound horizontal syncs that lie no
/// earlier than the first line of the picture, counted in half lines, up to the first sound
/// one that lies past the field.
pub proof fn law_refining_pulses(
    types: Seq<PulseType>,
    good: Seq<bool>,
    lines: Seq<i64>,
    hsync_start: int,
    current_field_lines: int,
    index: int,
)
    requires
        0 <= index,
    ensures
        field_order::refines(types, good, lines, hsync_start, current_field_lines, index) <==> {
            &&& types[index] == PulseType::Hsync && good[index]
            &&& lines[index] + lines[index] >= hsync_start
            &&& forall|i: int|
                0 <= i <= index && types[i] == PulseType::Hsync && good[i] ==> #[trigger] lines[i]
                    <= current_field_lines
        },
{
    let past = field_order::past_field(types, good, lines, current_field_lines, index + 1);
    if past {
        let i = choose|i: int|
            0 <= i < index + 1 && #[trigger] field_order::sound_hsync(types, good, i) && lines[i]
                > current_field_lines;
        assert(lines[i] > current_field_lines);
    } else {
        assert forall|i: int|
            0 <= i <= index && types[i] == PulseType::Hsync && good[i] implies #[trigger] lines[i]
            <= current_field_lines by {
            assert(field_order::sound_hsync(types, good, i));
        }
    }
}

} // verus!
