//! What the search for the start of a field finds, over the pulses themselves.
use vstd::prelude::*;

use crate::field_order;
use crate::ieee;
use crate::line0;
use crate::line0::{Expectation, Line0Found, Line0Input, Line0Limits, Line0Place, Line0Search};
use crate::pulses::SampleRange;
use crate::vblank::{PulseSample, PulseType, RealBound};

verus! {

/// How far the pulse behind this one starts after it.
pub open spec fn gap_after(pulses: Seq<PulseSample>, i: int) -> int {
    pulses[i + 1].start - pulses[i].start
}

/// That a distance passes for half a line.
pub open spec fn half_line(limits: Line0Limits, distance: int) -> bool {
    limits.half.min <= distance <= limits.half.max
}

/// That a distance passes for a line.
pub open spec fn whole_line(limits: Line0Limits, distance: int) -> bool {
    limits.full.min <= distance <= limits.full.max
}

/// That the pulses from `from` up to `to` are short.
pub open spec fn short_from(
    pulses: Seq<PulseSample>,
    limits: Line0Limits,
    from: int,
    to: int,
) -> bool {
    forall|i: int| from <= i < to ==> (#[trigger] pulses[i]).len < limits.short.ceil
}

/// That the pulses from `from` up to `to` are long.
pub open spec fn long_from(
    pulses: Seq<PulseSample>,
    limits: Line0Limits,
    from: int,
    to: int,
) -> bool {
    forall|i: int| from <= i < to ==> (#[trigger] pulses[i]).len > limits.long.floor
}

/// That half lines lie behind each of the pulses from `from` up to `to`.
pub open spec fn half_lines_from(
    pulses: Seq<PulseSample>,
    limits: Line0Limits,
    from: int,
    to: int,
) -> bool {
    forall|i: int| from <= i < to ==> half_line(limits, #[trigger] gap_after(pulses, i))
}

/// That lines lie behind each of the pulses from `from` up to `to`.
pub open spec fn lines_from(
    pulses: Seq<PulseSample>,
    limits: Line0Limits,
    from: int,
    to: int,
) -> bool {
    forall|i: int| from <= i < to ==> whole_line(limits, #[trigger] gap_after(pulses, i))
}

/// Two long syncs and behind them three short pulses, the first of them at `index`,
/// all half a line apart.
pub open spec fn syncs_end(input: Line0Input, index: int) -> bool {
    let pulses = input.pulses@;
    &&& long_from(pulses, input.limits, index - 2, index)
    &&& short_from(pulses, input.limits, index, index + 3)
    &&& half_lines_from(pulses, input.limits, index - 2, index + 2)
}

/// Two short pulses and behind them three long syncs, the first of them at `index`,
/// all half a line apart.
pub open spec fn syncs_start(input: Line0Input, index: int) -> bool {
    let pulses = input.pulses@;
    &&& short_from(pulses, input.limits, index - 2, index)
    &&& long_from(pulses, input.limits, index, index + 3)
    &&& half_lines_from(pulses, input.limits, index - 2, index + 2)
}

/// That from `index` on `count` half lines and then a line follow, between short
/// pulses.
pub open spec fn half_lines_then_line(
    pulses: Seq<PulseSample>,
    limits: Line0Limits,
    index: int,
    count: int,
) -> bool {
    &&& index + count + 1 < pulses.len()
    &&& short_from(pulses, limits, index, index + count + 2)
    &&& half_lines_from(pulses, limits, index, index + count)
    &&& whole_line(limits, gap_after(pulses, index + count))
    &&& !half_line(limits, gap_after(pulses, index + count))
}

proof fn lemma_half_lines(
    pulses: Seq<PulseSample>,
    limits: Line0Limits,
    at: int,
    end: int,
    counted: int,
    more: int,
)
    requires
        0 <= more < end - at,
        0 <= counted,
        counted + more > 0,
    ensures
        line0::half_lines(pulses, limits, at, end, counted) == counted + more
            <==> half_lines_then_line(pulses, limits, at, more),
    decreases more,
{
    let here = line0::half_lines(pulses, limits, at, end, counted);
    if half_lines_then_line(pulses, limits, at, more) {
        assert(pulses[at].len < limits.short.ceil);
        assert(pulses[at + 1].len < limits.short.ceil);
        if more > 0 {
            assert(half_line(limits, gap_after(pulses, at)));
            assert forall|i: int| at + 1 <= i < at + 1 + (more - 1) implies half_line(
                limits,
                #[trigger] gap_after(pulses, i),
            ) by {}
            assert(half_lines_then_line(pulses, limits, at + 1, more - 1));
            lemma_half_lines(pulses, limits, at + 1, end, counted + 1, more - 1);
        } else {
            assert(gap_after(pulses, at) == line0::gap_before(pulses, at + 1));
        }
    }
    if here == counted + more {
        assert(at < end);
        assert(at + 1 < pulses.len());
        assert(gap_after(pulses, at) == line0::gap_before(pulses, at + 1));
        if limits.half.has(line0::gap_before(pulses, at + 1)) {
            if more > 0 {
                lemma_half_lines(pulses, limits, at + 1, end, counted + 1, more - 1);
                assert(half_lines_then_line(pulses, limits, at + 1, more - 1));
                assert(half_lines_then_line(pulses, limits, at, more));
            } else {
                lemma_grows(pulses, limits, at + 1, end, counted + 1);
            }
        } else {
            assert(more == 0);
            assert(half_lines_then_line(pulses, limits, at, more));
        }
    }
}

proof fn lemma_grows(
    pulses: Seq<PulseSample>,
    limits: Line0Limits,
    at: int,
    end: int,
    counted: int,
)
    ensures
        line0::half_lines(pulses, limits, at, end, counted) == 0 || line0::half_lines(
            pulses,
            limits,
            at,
            end,
            counted,
        ) >= counted,
    decreases end - at,
{
    if at < end && at + 1 < pulses.len() {
        lemma_grows(pulses, limits, at + 1, end, counted + 1);
    }
}

/// The half lines behind a pulse are counted right: up to nine of them are looked at,
/// and a count from one to eight says that exactly so many half lines and then a line
/// follow, between short pulses.
pub proof fn law_half_lines_counted(
    pulses: Seq<PulseSample>,
    limits: Line0Limits,
    index: int,
    count: int,
)
    requires
        0 < count < 9,
    ensures
        line0::half_lines(pulses, limits, index, index + 9, 0) == count <==> half_lines_then_line(
            pulses,
            limits,
            index,
            count,
        ),
{
    lemma_half_lines(pulses, limits, index, index + 9, 0, count);
}

/// That none of the pulses from `from` up to `to` starts in a range.
pub open spec fn none_in(pulses: Seq<PulseSample>, near: SampleRange, from: int, to: int) -> bool {
    forall|i: int| from <= i < to ==> !(near.min <= (#[trigger] pulses[i]).start <= near.max)
}

/// That `found` is the start of the first of the pulses from `from` up to `to` that
/// starts in a range, or what was there `before` where there is none.
pub open spec fn first_in(
    pulses: Seq<PulseSample>,
    near: SampleRange,
    from: int,
    to: int,
    before: Option<i64>,
    found: Option<i64>,
) -> bool {
    if none_in(pulses, near, from, to) {
        found == before
    } else {
        exists|j: int|
            from <= j < to && #[trigger] none_in(pulses, near, from, j) && near.min
                <= pulses[j].start <= near.max && found == Some(pulses[j].start)
    }
}

proof fn lemma_first_near(
    pulses: Seq<PulseSample>,
    near: SampleRange,
    at: int,
    end: int,
    before: Option<i64>,
)
    ensures
        first_in(
            pulses,
            near,
            at,
            end,
            before,
            match line0::first_near(pulses, near, at, end) {
                Some(start) => Some(start),
                None => before,
            },
        ),
        line0::first_near(pulses, near, at, end) is None <==> none_in(pulses, near, at, end),
    decreases end - at,
{
    let found = line0::first_near(pulses, near, at, end);
    if at < end {
        assert(none_in(pulses, near, at, at));
        lemma_first_near(pulses, near, at + 1, end, before);
        if !near.has(pulses[at].start as int) && found is Some {
            let j = choose|j: int|
                at + 1 <= j < end && #[trigger] none_in(pulses, near, at + 1, j) && near.min
                    <= pulses[j].start <= near.max && found == Some(pulses[j].start);
            assert(none_in(pulses, near, at, j));
        }
    }
}

/// What a start that was reckoned does to a search: it stays where it is the first, with
/// what is known of the field.
pub open spec fn reckoned(
    s: Line0Search,
    after: Line0Search,
    value: u64,
    first_field: i64,
    confidence: i64,
) -> bool {
    if s.backup is None {
        &&& after.backup == Some(value)
        &&& after.backup_first_field == first_field
        &&& after.backup_confidence == confidence
    } else {
        &&& after.backup == s.backup
        &&& after.backup_first_field == s.backup_first_field
        &&& after.backup_confidence == s.backup_confidence
    }
}

/// How many pulses back a try looks for the pulse that a field starts with: from
/// `farthest` back up to `closest` back, and no farther than the first pulse.
pub open spec fn reach(index: int, pulses_back: int) -> int {
    if index < pulses_back {
        0
    } else {
        index - pulses_back
    }
}

/// What the end of the long syncs at `index` makes of a search where it tells the field:
/// the kind of the field and the start that many lines before the last long sync but
/// one, and the first pulse near that start.
pub open spec fn told_by_syncs_end(
    input: Line0Input,
    s: Line0Search,
    after: Line0Search,
    index: int,
    estimate: int,
    first_field: i64,
    confidence: i64,
) -> bool {
    let start = input.measures@[index].estimates@[estimate];
    &&& after.first_field == first_field
    &&& after.confidence == confidence
    &&& reckoned(s, after, start.value, first_field, confidence)
    &&& first_in(
        input.pulses@,
        start.near,
        reach(
            index,
            if input.relaxed {
                20
            } else {
                16
            },
        ),
        if input.relaxed {
            index
        } else {
            reach(index, 4)
        },
        s.line0,
        after.line0,
    )
}

/// The half lines behind the long syncs tell the field. In 525 lines, five half lines
/// and then a line follow the long syncs of a second field, which starts five and a
/// half lines before the last long sync but one, and six those of a first field, which
/// starts six lines before it. In 625 lines, four follow those of a second field, five
/// lines before, and five those of a first field, four and a half lines before. So the
/// count is what the signature of the field asks for: five equalising pulses in 625
/// lines and six in 525, with a half line or a line behind the last of them.
pub proof fn law_half_lines_tell_field(
    input: Line0Input,
    s: Line0Search,
    index: int,
    count: int,
)
    requires
        syncs_end(input, index),
        0 < count < 9,
        half_lines_then_line(input.pulses@, input.limits, index, count),
    ensures
        ({
            let after = line0::first_step(input, s, index);
            &&& input.frame_lines != 625 && count == 5 ==> told_by_syncs_end(
                input,
                s,
                after,
                index,
                5,
                0,
                100,
            )
            &&& input.frame_lines == 525 && count == 6 ==> told_by_syncs_end(
                input,
                s,
                after,
                index,
                6,
                1,
                s.confidence,
            )
            &&& input.frame_lines == 625 && count == 4 ==> told_by_syncs_end(
                input,
                s,
                after,
                index,
                4,
                0,
                100,
            )
            &&& input.frame_lines == 625 && count == 5 ==> told_by_syncs_end(
                input,
                s,
                after,
                index,
                3,
                1,
                100,
            )
            &&& input.frame_lines == 525 && 5 <= count <= 6 ==> count + field_order::signature(
                true,
                after.first_field == 1,
            )[1] == 7
            &&& input.frame_lines == 625 && 4 <= count <= 5 ==> count + field_order::signature(
                false,
                after.first_field == 1,
            )[1] == 6
        }),
{
    law_half_lines_counted(input.pulses@, input.limits, index, count);
    lemma_syncs_end(input, index);
    let pulses = input.pulses@;
    let (from, to) = if input.relaxed {
        (line0::back(index, 20), index)
    } else {
        (line0::back(index, 16), line0::back(index, 4))
    };
    assert forall|k: int| 0 <= k < 7 implies first_in(
        pulses,
        (#[trigger] input.measures@[index].estimates@[k]).near,
        from,
        to,
        s.line0,
        match line0::first_near(pulses, input.measures@[index].estimates@[k].near, from, to) {
            Some(start) => Some(start),
            None => s.line0,
        },
    ) by {
        lemma_first_near(pulses, input.measures@[index].estimates@[k].near, from, to, s.line0);
    }
}

proof fn lemma_syncs_end(input: Line0Input, index: int)
    ensures
        syncs_end(input, index) <==> line0::long_syncs_end(input, index),
        syncs_start(input, index) <==> line0::long_syncs_start(input, index),
{
    let pulses = input.pulses@;
    let limits = input.limits;
    assert(gap_after(pulses, index - 2) == line0::gap_before(pulses, index - 1));
    assert(gap_after(pulses, index - 1) == line0::gap_before(pulses, index));
    assert(gap_after(pulses, index) == line0::gap_before(pulses, index + 1));
    assert(gap_after(pulses, index + 1) == line0::gap_before(pulses, index + 2));
    if syncs_end(input, index) || syncs_start(input, index) {
        assert(pulses[index - 2] == pulses[index - 2] && pulses[index - 1] == pulses[index - 1]
            && pulses[index] == pulses[index] && pulses[index + 1] == pulses[index + 1]
            && pulses[index + 2] == pulses[index + 2]);
    }
    if line0::long_syncs_end(input, index) {
        assert(long_from(pulses, limits, index - 2, index));
        assert(short_from(pulses, limits, index, index + 3));
        assert(half_lines_from(pulses, limits, index - 2, index + 2));
    }
    if line0::long_syncs_start(input, index) {
        assert(short_from(pulses, limits, index - 2, index));
        assert(long_from(pulses, limits, index, index + 3));
        assert(half_lines_from(pulses, limits, index - 2, index + 2));
    }
}

/// How many of the entries from `from` up to `to` are this value.
pub open spec fn entries(phase: Seq<i64>, value: i64, from: int, to: int) -> nat
    decreases to - from,
{
    if from >= to {
        0
    } else {
        entries(phase, value, from, to - 1) + if phase[to - 1] == value {
            1nat
        } else {
            0nat
        }
    }
}

/// How many of the entries from `from` up to `to` are decisive: nought, all even, or
/// three, all odd.
pub open spec fn decisive(phase: Seq<i64>, from: int, to: int) -> nat {
    entries(phase, 0, from, to) + entries(phase, 3, from, to)
}

/// That a poll of the entries from `from` up to `end` stops at `stop`: behind the fifth
/// decisive entry, or at the end.
pub open spec fn poll(phase: Seq<i64>, from: int, end: int, stop: int) -> bool {
    &&& from < stop <= end
    &&& decisive(phase, from, stop - 1) < 5
    &&& stop == end || decisive(phase, from, stop) == 5
}

proof fn lemma_entries(phase: Seq<i64>, value: i64, from: int, to: int, more: int)
    requires
        to <= more,
    ensures
        entries(phase, value, from, to) <= entries(phase, value, from, more),
        from <= to ==> entries(phase, value, from, to) <= to - from,
        from <= to ==> decisive(phase, from, to) <= to - from,
    decreases more - from,
{
    if from < more {
        if to < more {
            lemma_entries(phase, value, from, to, more - 1);
        } else {
            lemma_entries(phase, value, from, to - 1, to - 1);
        }
    }
}

spec fn votes_up_to(phase: Seq<i64>, from: int, to: int) -> line0::PhaseVotes {
    line0::PhaseVotes {
        even: entries(phase, 0, from, to) as i64,
        odd: entries(phase, 3, from, to) as i64,
        mixed: (to - from - decisive(phase, from, to)) as i64,
    }
}

proof fn lemma_poll(phase: Seq<i64>, from: int, at: int, end: int, stop: int)
    requires
        poll(phase, from, end, stop),
        end - from < 1000,
        from <= at < stop,
    ensures
        line0::phase_votes(phase, at, end, votes_up_to(phase, from, at)) == votes_up_to(
            phase,
            from,
            stop,
        ),
    decreases stop - at,
{
    let next = line0::voted(votes_up_to(phase, from, at), phase[at]);
    lemma_entries(phase, 0, from, at, at);
    lemma_entries(phase, 0, from, at + 1, at + 1);
    lemma_entries(phase, 3, from, at, at);
    lemma_entries(phase, 3, from, at + 1, at + 1);
    assert(next == votes_up_to(phase, from, at + 1));
    if at + 1 < stop {
        lemma_entries(phase, 0, from, at + 1, stop - 1);
        lemma_entries(phase, 3, from, at + 1, stop - 1);
        lemma_poll(phase, from, at + 1, end, stop);
    } else if stop == end {
        assert(line0::phase_votes(phase, end, end, next) == next);
    }
}

/// The votes on a phase are those of the entries up to where the poll stops.
pub proof fn law_votes_counted(phase: Seq<i64>, from: int, end: int, stop: int)
    requires
        poll(phase, from, end, stop),
        end - from < 1000,
    ensures
        ({
            let votes = line0::phase_votes(phase, from, end, line0::no_votes());
            &&& votes.even == entries(phase, 0, from, stop)
            &&& votes.odd == entries(phase, 3, from, stop)
            &&& votes.mixed == stop - from - votes.even - votes.odd
            &&& votes.even + votes.odd <= 5
            &&& 0 <= votes.mixed
        }),
{
    assert(votes_up_to(phase, from, from) == line0::no_votes());
    lemma_poll(phase, from, from, end, stop);
    lemma_entries(phase, 0, from, stop, stop);
    lemma_entries(phase, 3, from, stop, stop);
    lemma_entries(phase, 0, from, stop - 1, stop);
}

/// A poll of any entries stops somewhere.
pub proof fn law_poll_stops(phase: Seq<i64>, from: int, end: int) -> (stop: int)
    requires
        from < end,
    ensures
        poll(phase, from, end, stop),
    decreases end - from,
{
    lemma_poll_stops(phase, from, from, end)
}

proof fn lemma_poll_stops(phase: Seq<i64>, from: int, at: int, end: int) -> (stop: int)
    requires
        from <= at < end,
        decisive(phase, from, at) < 5,
    ensures
        poll(phase, from, end, stop),
    decreases end - at,
{
    if at + 1 == end || decisive(phase, from, at + 1) >= 5 {
        at + 1
    } else {
        lemma_poll_stops(phase, from, at + 1, end)
    }
}

/// That even phases win: there are no fewer of them than of the odd and of the mixed.
pub open spec fn even_wins(even: int, odd: int, mixed: int) -> bool {
    even >= odd && even >= mixed
}

/// That odd phases win: there are more of them than even ones, and no fewer than mixed.
pub open spec fn odd_wins(even: int, odd: int, mixed: int) -> bool {
    odd > even && odd >= mixed
}

/// Where the half lines do not tell the field, the phase of the pulses before does:
/// in 625 lines even phases are those of a second field and odd ones of a first field,
/// and otherwise the other way round. How sure that is is the share of the votes.
/// Mixed phases tell nothing.
#[verifier::spinoff_prover]
pub proof fn law_phase_tells_field(input: Line0Input, s: Line0Search, index: int, stop: int)
    requires
        index >= 15,
        syncs_end(input, index),
        !half_lines_then_line(input.pulses@, input.limits, index, 5),
        input.frame_lines == 625 ==> !half_lines_then_line(input.pulses@, input.limits, index, 4),
        input.frame_lines == 525 ==> !half_lines_then_line(input.pulses@, input.limits, index, 6),
        poll(
            input.measures@[index].phase@,
            5,
            if index < 30 {
                index - 9
            } else {
                21
            },
            stop,
        ),
    ensures
        ({
            let after = line0::first_step(input, s, index);
            let phase = input.measures@[index].phase@;
            let even = entries(phase, 0, 5, stop) as int;
            let odd = entries(phase, 3, 5, stop) as int;
            let mixed = stop - 5 - even - odd;
            let wide = input.frame_lines == 625;
            &&& even_wins(even, odd, mixed) && wide ==> told_by_syncs_end(
                input,
                s,
                after,
                index,
                4,
                0,
                (even * 100 / (stop - 5)) as i64,
            )
            &&& even_wins(even, odd, mixed) && !wide ==> told_by_syncs_end(
                input,
                s,
                after,
                index,
                6,
                1,
                (even * 100 / (stop - 5)) as i64,
            )
            &&& odd_wins(even, odd, mixed) && wide ==> told_by_syncs_end(
                input,
                s,
                after,
                index,
                3,
                1,
                (odd * 100 / (stop - 5)) as i64,
            )
            &&& odd_wins(even, odd, mixed) && !wide ==> told_by_syncs_end(
                input,
                s,
                after,
                index,
                5,
                0,
                (odd * 100 / (stop - 5)) as i64,
            )
            &&& mixed > even && mixed > odd ==> after == s
        }),
{
    let pulses = input.pulses@;
    law_half_lines_counted(pulses, input.limits, index, 4);
    law_half_lines_counted(pulses, input.limits, index, 5);
    law_half_lines_counted(pulses, input.limits, index, 6);
    lemma_syncs_end(input, index);
    let phase = input.measures@[index].phase@;
    let end = line0::phase_end(index, 30);
    law_votes_counted(phase, 5, end, stop);
    let (from, to) = if input.relaxed {
        (line0::back(index, 20), index)
    } else {
        (line0::back(index, 16), line0::back(index, 4))
    };
    lemma_first_near(pulses, input.measures@[index].estimates@[3].near, from, to, s.line0);
    lemma_first_near(pulses, input.measures@[index].estimates@[4].near, from, to, s.line0);
    lemma_first_near(pulses, input.measures@[index].estimates@[5].near, from, to, s.line0);
    lemma_first_near(pulses, input.measures@[index].estimates@[6].near, from, to, s.line0);
}

/// What a candidate for a start makes of a search: its reckoned start, the first pulse
/// near it, and the kind of the field where that pulse is a new one or the candidate
/// is surer. How sure the search is stays.
pub open spec fn told_by_candidate(
    input: Line0Input,
    s: Line0Search,
    after: Line0Search,
    start: line0::Estimate,
    from: int,
    to: int,
    first_field: i64,
    confidence: i64,
) -> bool {
    &&& after.confidence == s.confidence
    &&& reckoned(s, after, start.value, first_field, confidence)
    &&& first_in(input.pulses@, start.near, from, to, s.line0, after.line0)
    &&& after.first_field == if none_in(input.pulses@, start.near, from, to) || after.line0
        == s.line0 && confidence <= s.confidence {
        s.first_field
    } else {
        first_field
    }
}

proof fn lemma_tried(
    input: Line0Input,
    s: Line0Search,
    start: line0::Estimate,
    guess: line0::Guess,
    from: int,
    to: int,
)
    ensures
        told_by_candidate(
            input,
            s,
            line0::tried(input, s, start, guess, from, to),
            start,
            from,
            to,
            guess.first_field,
            guess.confidence,
        ),
{
    lemma_first_near(input.pulses@, start.near, from, to, s.line0);
}

/// At the start of the long syncs the phase of the pulses before tells the field. Even
/// phases are those of a first field, which starts two lines before in 625 lines and
/// three otherwise; odd ones are those of a second field, two and a half lines before.
/// Mixed phases tell nothing.
#[verifier::spinoff_prover]
pub proof fn law_phase_before_syncs(input: Line0Input, s: Line0Search, index: int, stop: int)
    requires
        index >= 10,
        syncs_start(input, index),
        poll(
            input.measures@[index].phase@,
            0,
            if index < 25 {
                index - 9
            } else {
                16
            },
            stop,
        ),
    ensures
        ({
            let after = line0::second_step(input, s, index);
            let phase = input.measures@[index].phase@;
            let even = entries(phase, 0, 0, stop) as int;
            let odd = entries(phase, 3, 0, stop) as int;
            let mixed = stop - even - odd;
            let starts = input.measures@[index].estimates@;
            let from = reach(
                index,
                if input.relaxed {
                    15
                } else {
                    10
                },
            );
            let to = if input.relaxed {
                index
            } else {
                reach(index, 3)
            };
            &&& even_wins(even, odd, mixed) ==> told_by_candidate(
                input,
                s,
                after,
                if input.frame_lines == 625 {
                    starts[0]
                } else {
                    starts[2]
                },
                from,
                to,
                1,
                (even * 100 / stop) as i64,
            )
            &&& odd_wins(even, odd, mixed) ==> told_by_candidate(
                input,
                s,
                after,
                starts[1],
                from,
                to,
                0,
                (odd * 100 / stop) as i64,
            )
            &&& mixed > even && mixed > odd ==> after == s
        }),
{
    lemma_syncs_end(input, index);
    let phase = input.measures@[index].phase@;
    law_votes_counted(phase, 0, line0::phase_end(index, 25), stop);
    let guess = line0::guess_before_long(input, index);
    let (from, to) = if input.relaxed {
        (line0::back(index, 15), index)
    } else {
        (line0::back(index, 10), line0::back(index, 3))
    };
    match guess.estimate {
        Some(k) => {
            lemma_tried(input, s, input.measures@[index].estimates@[k as int], guess, from, to);
        },
        None => {},
    }
}

/// Half lines and behind them lines, between short pulses, the last pulse behind a half
/// line at `index`.
pub open spec fn lines_begin(input: Line0Input, index: int) -> bool {
    let pulses = input.pulses@;
    &&& short_from(pulses, input.limits, index - 2, index + 3)
    &&& input.relaxed || half_line(input.limits, gap_after(pulses, index - 3))
    &&& half_lines_from(pulses, input.limits, index - 2, index)
    &&& lines_from(pulses, input.limits, index, index + 2)
}

/// Lines and behind them half lines, between short pulses, the last pulse behind a line
/// at `index`.
pub open spec fn lines_end(input: Line0Input, index: int) -> bool {
    let pulses = input.pulses@;
    &&& short_from(pulses, input.limits, index - 2, index + 3)
    &&& lines_from(pulses, input.limits, index - 2, index)
    &&& half_lines_from(pulses, input.limits, index, index + 2)
    &&& input.relaxed || half_line(input.limits, gap_after(pulses, index + 2))
}

proof fn lemma_lines(input: Line0Input, index: int)
    ensures
        lines_begin(input, index) <==> line0::blanking_end(input, index),
        lines_end(input, index) <==> line0::blanking_start(input, index),
{
    let pulses = input.pulses@;
    let limits = input.limits;
    assert(gap_after(pulses, index - 3) == line0::gap_before(pulses, index - 2));
    assert(gap_after(pulses, index - 2) == line0::gap_before(pulses, index - 1));
    assert(gap_after(pulses, index - 1) == line0::gap_before(pulses, index));
    assert(gap_after(pulses, index) == line0::gap_before(pulses, index + 1));
    assert(gap_after(pulses, index + 1) == line0::gap_before(pulses, index + 2));
    assert(gap_after(pulses, index + 2) == line0::gap_before(pulses, index + 3));
    if lines_begin(input, index) || lines_end(input, index) {
        assert(pulses[index - 2] == pulses[index - 2] && pulses[index - 1] == pulses[index - 1]
            && pulses[index] == pulses[index] && pulses[index + 1] == pulses[index + 1]
            && pulses[index + 2] == pulses[index + 2]);
    }
    if line0::blanking_end(input, index) {
        assert(short_from(pulses, limits, index - 2, index + 3));
        assert(half_lines_from(pulses, limits, index - 2, index));
        assert(lines_from(pulses, limits, index, index + 2));
    }
    if line0::blanking_start(input, index) {
        assert(short_from(pulses, limits, index - 2, index + 3));
        assert(lines_from(pulses, limits, index - 2, index));
        assert(half_lines_from(pulses, limits, index, index + 2));
    }
}

/// At the end of a blanking interval the length of its last pulse tells the field,
/// where lengths tell: an equalising pulse ends that of a second field, which starts
/// seven lines before in 625 lines and eight otherwise, and a horizontal sync that of a
/// first field, seven or nine lines before. A length that is clear makes it eighty
/// percent sure, and otherwise sixty.
#[verifier::spinoff_prover]
pub proof fn law_length_at_end(input: Line0Input, s: Line0Search, index: int)
    requires
        lines_begin(input, index),
    ensures
        ({
            let after = line0::third_step(input, s, index);
            let length = input.pulses@[index].len;
            let shape = input.measures@[index].ending;
            let starts = input.measures@[index].far_estimates@;
            let from = reach(
                index,
                if input.relaxed {
                    25
                } else {
                    20
                },
            );
            let to = if input.relaxed {
                index
            } else {
                reach(index, 4)
            };
            let wide = input.frame_lines == 625;
            let passes_for_eq = shape.distinct && length < shape.eq_loose.ceil;
            let passes_for_hsync = shape.distinct && !passes_for_eq && length
                > shape.hsync_loose.floor;
            &&& passes_for_eq ==> told_by_candidate(
                input,
                s,
                after,
                if wide {
                    starts[0]
                } else {
                    starts[1]
                },
                from,
                to,
                0,
                if length < shape.eq_tight.ceil {
                    80
                } else {
                    60
                },
            )
            &&& passes_for_hsync ==> told_by_candidate(
                input,
                s,
                after,
                if wide {
                    starts[0]
                } else {
                    starts[2]
                },
                from,
                to,
                1,
                if length > shape.hsync_tight.floor {
                    80
                } else {
                    60
                },
            )
            &&& !passes_for_eq && !passes_for_hsync ==> after == s
        }),
{
    lemma_lines(input, index);
    let guess = line0::guess_at_end(input, index);
    let (from, to) = if input.relaxed {
        (line0::back(index, 25), index)
    } else {
        (line0::back(index, 20), line0::back(index, 4))
    };
    match guess.estimate {
        Some(k) => {
            lemma_tried(input, s, input.measures@[index].far_estimates@[k as int], guess, from, to);
        },
        None => {},
    }
}

/// That a search takes a start with what is known of the field, where the start is a
/// new one or this is surer, and leaves the reckoned start alone.
pub open spec fn opened(
    s: Line0Search,
    after: Line0Search,
    start: i64,
    first_field: i64,
    confidence: i64,
) -> bool {
    &&& after.backup == s.backup
    &&& after.backup_first_field == s.backup_first_field
    &&& after.backup_confidence == s.backup_confidence
    &&& after.line0 == Some(start)
    &&& if s.line0 == Some(start) && confidence <= s.confidence {
        after.first_field == s.first_field && after.confidence == s.confidence
    } else {
        after.first_field == first_field && after.confidence == confidence
    }
}

/// At the start of a blanking interval, where lengths tell, the field starts with the
/// pulse before an equalising pulse, or with a horizontal sync itself: a second field
/// in 625 lines, else a first one. Where they do not tell and nothing was found, the
/// picture in the gaps does: the field starts with the pulse before where only the gap
/// after next differs, and with this pulse where the gap before differs from both.
pub proof fn law_start_of_blanking(input: Line0Input, s: Line0Search, index: int)
    requires
        lines_end(input, index),
    ensures
        ({
            let after = line0::fourth_step(input, s, index);
            let length = input.pulses@[index].len;
            let shape = input.measures@[index].opening;
            let gap = input.measures@[index].gap;
            let first_field: i64 = if input.frame_lines == 625 {
                0
            } else {
                1
            };
            let passes_for_eq = shape.distinct && length < shape.eq_loose.ceil;
            let passes_for_hsync = shape.distinct && !passes_for_eq && length
                > shape.hsync_loose.floor;
            let by_gaps = !passes_for_eq && !passes_for_hsync && s.line0 is None;
            &&& passes_for_eq ==> opened(
                s,
                after,
                input.pulses@[index - 1].start,
                first_field,
                if length < shape.eq_tight.ceil {
                    60
                } else {
                    40
                },
            )
            &&& passes_for_hsync ==> opened(
                s,
                after,
                input.pulses@[index].start,
                first_field,
                if length > shape.hsync_tight.floor {
                    60
                } else {
                    40
                },
            )
            &&& by_gaps && gap.next_differs ==> opened(
                s,
                after,
                input.pulses@[index - 1].start,
                if input.frame_lines == 625 {
                    0
                } else {
                    s.first_field
                },
                20,
            )
            &&& by_gaps && !gap.next_differs && gap.both_differ ==> opened(
                s,
                after,
                input.pulses@[index].start,
                first_field,
                20,
            )
            &&& !passes_for_eq && !passes_for_hsync && (s.line0 is Some || !gap.next_differs
                && !gap.both_differ) ==> after == s
        }),
{
    lemma_lines(input, index);
}

proof fn lemma_first_from(input: Line0Input, s: Line0Search, at: int, index: int)
    requires
        at <= index,
        forall|i: int| at <= i < index ==> !#[trigger] syncs_end(input, i),
    ensures
        line0::first_try(input, s, at) == line0::first_try(input, s, index),
    decreases index - at,
{
    if at < index {
        lemma_syncs_end(input, at);
        assert(!syncs_end(input, at));
        lemma_first_from(input, s, at + 1, index);
    }
}

proof fn lemma_second_from(input: Line0Input, s: Line0Search, at: int, index: int)
    requires
        at <= index,
        forall|i: int| at <= i < index ==> !#[trigger] syncs_start(input, i),
    ensures
        line0::second_try(input, s, at) == line0::second_try(input, s, index),
    decreases index - at,
{
    if at < index {
        lemma_syncs_end(input, at);
        assert(!syncs_start(input, at));
        lemma_second_from(input, s, at + 1, index);
    }
}

proof fn lemma_third_from(input: Line0Input, s: Line0Search, at: int, index: int)
    requires
        at <= index,
        forall|i: int| at <= i < index ==> !#[trigger] lines_begin(input, i),
    ensures
        line0::third_try(input, s, at) == line0::third_try(input, s, index),
    decreases index - at,
{
    if at < index {
        lemma_lines(input, at);
        assert(!lines_begin(input, at));
        lemma_third_from(input, s, at + 1, index);
    }
}

proof fn lemma_fourth_from(input: Line0Input, s: Line0Search, at: int, index: int)
    requires
        at <= index,
        forall|i: int| at <= i < index ==> !#[trigger] lines_end(input, i),
    ensures
        line0::fourth_try(input, s, at) == line0::fourth_try(input, s, index),
    decreases index - at,
{
    if at < index {
        lemma_lines(input, at);
        assert(!lines_end(input, at));
        lemma_fourth_from(input, s, at + 1, index);
    }
}

/// That a search has the same reckoned start, with the same field.
pub open spec fn same_reckoned(s: Line0Search, after: Line0Search) -> bool {
    &&& after.backup == s.backup
    &&& after.backup_first_field == s.backup_first_field
    &&& after.backup_confidence == s.backup_confidence
}

proof fn lemma_keeps_reckoned(input: Line0Input, s: Line0Search, at: int)
    requires
        s.backup is Some,
    ensures
        same_reckoned(s, line0::first_try(input, s, at)),
        same_reckoned(s, line0::second_try(input, s, at)),
        same_reckoned(s, line0::third_try(input, s, at)),
    decreases input.pulses@.len() - at,
{
    if at < input.pulses@.len() - 2 {
        lemma_keeps_reckoned(input, line0::first_step(input, s, at), at + 1);
        lemma_keeps_reckoned(input, line0::second_step(input, s, at), at + 1);
        lemma_keeps_reckoned(input, line0::third_step(input, s, at), at + 1);
    }
}

proof fn lemma_fourth_reckons_nothing(input: Line0Input, s: Line0Search, at: int)
    ensures
        same_reckoned(s, line0::fourth_try(input, s, at)),
    decreases input.pulses@.len() - at,
{
    if at < input.pulses@.len() - 3 {
        lemma_fourth_reckons_nothing(input, line0::fourth_step(input, s, at), at + 1);
    }
}

/// That no pulse from the sixteenth on is the first short one behind long syncs.
pub open spec fn no_syncs_end(input: Line0Input, before: int) -> bool {
    forall|i: int| 15 <= i < before ==> !#[trigger] syncs_end(input, i)
}

/// That no pulse from the eleventh on is the first of long syncs.
pub open spec fn no_syncs_start(input: Line0Input, before: int) -> bool {
    forall|i: int| 10 <= i < before ==> !#[trigger] syncs_start(input, i)
}

/// That lines begin at no pulse from the eleventh on.
pub open spec fn no_lines_begin(input: Line0Input, before: int) -> bool {
    forall|i: int| 10 <= i < before ==> !#[trigger] lines_begin(input, i)
}

/// A search begins with the end of the long syncs, from the sixteenth pulse on. Where
/// the half lines behind the first such end tell the field, that is the field whose
/// start is reckoned, whatever follows; and where a pulse lies near that start and is
/// not late, it is the start that is found.
#[verifier::spinoff_prover]
pub proof fn law_search_by_half_lines(input: Line0Input, index: int, count: int)
    requires
        15 <= index < input.pulses@.len() - 2,
        no_syncs_end(input, index),
        syncs_end(input, index),
        half_lines_then_line(input.pulses@, input.limits, index, count),
        input.frame_lines == 525 && 5 <= count <= 6 || input.frame_lines == 625 && 4 <= count <= 5,
    ensures
        ({
            let found = line0::searched(input);
            let first_field: i64 = if count == if input.frame_lines == 525 {
                6int
            } else {
                5
            } {
                1
            } else {
                0
            };
            let confidence: i64 = if count == 6 {
                -1i64
            } else {
                100
            };
            let start = input.measures@[index].estimates@[if count == 6 {
                6int
            } else if count == 4 {
                4
            } else if input.frame_lines == 525 {
                5
            } else {
                3
            }];
            let from = reach(
                index,
                if input.relaxed {
                    20
                } else {
                    16
                },
            );
            let to = if input.relaxed {
                index
            } else {
                reach(index, 4)
            };
            &&& found.backup == Some(start.value)
            &&& found.backup_first_field == first_field
            &&& found.backup_confidence == confidence
            &&& forall|j: int|
                from <= j < to && #[trigger] none_in(input.pulses@, start.near, from, j)
                    && start.near.min <= input.pulses@[j].start <= start.near.max
                    && input.pulses@[j].start <= input.limits.late.floor ==> {
                    &&& found.line0 == Some(input.pulses@[j].start)
                    &&& found.first_field == first_field
                    &&& found.confidence == confidence
                }
        }),
{
    let none = line0::no_search();
    lemma_first_from(input, none, 15, index);
    law_half_lines_tell_field(input, none, index, count);
    let told = line0::first_step(input, none, index);
    assert(line0::first_try(input, none, 15) == line0::first_try(input, told, index + 1));
    let first = line0::first_try(input, told, index + 1);
    lemma_keeps_reckoned(input, told, index + 1);
    let second = line0::second_try(input, first, 10);
    lemma_keeps_reckoned(input, first, 10);
    let third = line0::third_try(input, second, 10);
    lemma_keeps_reckoned(input, second, 10);
    lemma_fourth_reckons_nothing(input, third, 2);
    let start = input.measures@[index].estimates@[if count == 6 {
        6int
    } else if count == 4 {
        4
    } else if input.frame_lines == 525 {
        5
    } else {
        3
    }];
    let from = reach(
        index,
        if input.relaxed {
            20
        } else {
            16
        },
    );
    let to = if input.relaxed {
        index
    } else {
        reach(index, 4)
    };
    assert forall|j: int|
        from <= j < to && #[trigger] none_in(input.pulses@, start.near, from, j) && start.near.min
            <= input.pulses@[j].start <= start.near.max && input.pulses@[j].start
            <= input.limits.late.floor implies line0::searched(input) == told && told.line0
        == Some(input.pulses@[j].start) by {
        lemma_first_unique(input.pulses@, start.near, from, to, j, told.line0);
    }
}

proof fn lemma_first_unique(
    pulses: Seq<PulseSample>,
    near: SampleRange,
    from: int,
    to: int,
    j: int,
    found: Option<i64>,
)
    requires
        from <= j < to,
        none_in(pulses, near, from, j),
        near.min <= pulses[j].start <= near.max,
        first_in(pulses, near, from, to, None, found),
    ensures
        found == Some(pulses[j].start),
{
    assert(!none_in(pulses, near, from, to));
    let k = choose|k: int|
        from <= k < to && #[trigger] none_in(pulses, near, from, k) && near.min
            <= pulses[k].start <= near.max && found == Some(pulses[k].start);
    if k < j {
        assert(!(near.min <= pulses[k].start <= near.max));
    } else if j < k {
        assert(!(near.min <= pulses[j].start <= near.max));
    }
}

/// Where nothing shows the end of the long syncs, the search goes on with their start,
/// from the eleventh pulse on; the votes at the first one tell the field whose start is
/// reckoned, and a pulse near it that is not late is the start that is found.
#[verifier::spinoff_prover]
pub proof fn law_search_by_syncs_start(input: Line0Input, index: int, stop: int)
    requires
        10 <= index < input.pulses@.len() - 2,
        no_syncs_end(input, input.pulses@.len() - 2),
        no_syncs_start(input, index),
        syncs_start(input, index),
        poll(
            input.measures@[index].phase@,
            0,
            if index < 25 {
                index - 9
            } else {
                16
            },
            stop,
        ),
    ensures
        ({
            let found = line0::searched(input);
            let phase = input.measures@[index].phase@;
            let even = entries(phase, 0, 0, stop) as int;
            let odd = entries(phase, 3, 0, stop) as int;
            let mixed = stop - even - odd;
            let starts = input.measures@[index].estimates@;
            let start = if odd_wins(even, odd, mixed) {
                starts[1]
            } else if input.frame_lines == 625 {
                starts[0]
            } else {
                starts[2]
            };
            let from = reach(
                index,
                if input.relaxed {
                    15
                } else {
                    10
                },
            );
            let to = if input.relaxed {
                index
            } else {
                reach(index, 3)
            };
            even_wins(even, odd, mixed) || odd_wins(even, odd, mixed) ==> {
                &&& found.backup == Some(start.value)
                &&& found.backup_first_field == if even_wins(even, odd, mixed) {
                    1i64
                } else {
                    0
                }
                &&& forall|j: int|
                    from <= j < to && #[trigger] none_in(input.pulses@, start.near, from, j)
                        && start.near.min <= input.pulses@[j].start <= start.near.max
                        && input.pulses@[j].start <= input.limits.late.floor ==> {
                        &&& found.line0 == Some(input.pulses@[j].start)
                        &&& found.first_field == found.backup_first_field
                        &&& found.confidence == -1
                    }
            }
        }),
{
    let none = line0::no_search();
    let last = input.pulses@.len() - 2;
    lemma_first_from(
        input,
        none,
        15,
        if last < 15 {
            15
        } else {
            last
        },
    );
    assert(line0::first_try(input, none, 15) == none);
    lemma_second_from(input, none, 10, index);
    law_phase_before_syncs(input, none, index, stop);
    let told = line0::second_step(input, none, index);
    assert(line0::second_try(input, none, 10) == line0::second_try(input, told, index + 1));
    let second = line0::second_try(input, told, index + 1);
    let third = line0::third_try(input, second, 10);
    if told.backup is Some {
        lemma_keeps_reckoned(input, told, index + 1);
        lemma_keeps_reckoned(input, second, 10);
    }
    lemma_fourth_reckons_nothing(input, third, 2);
    let phase = input.measures@[index].phase@;
    let even = entries(phase, 0, 0, stop) as int;
    let odd = entries(phase, 3, 0, stop) as int;
    let mixed = stop - even - odd;
    let starts = input.measures@[index].estimates@;
    let start = if odd_wins(even, odd, mixed) {
        starts[1]
    } else if input.frame_lines == 625 {
        starts[0]
    } else {
        starts[2]
    };
    let from = reach(
        index,
        if input.relaxed {
            15
        } else {
            10
        },
    );
    let to = if input.relaxed {
        index
    } else {
        reach(index, 3)
    };
    if even_wins(even, odd, mixed) || odd_wins(even, odd, mixed) {
        assert forall|j: int|
            from <= j < to && #[trigger] none_in(input.pulses@, start.near, from, j)
                && start.near.min <= input.pulses@[j].start <= start.near.max
                && input.pulses@[j].start <= input.limits.late.floor implies line0::searched(input)
            == told && told.line0 == Some(input.pulses@[j].start) && !none_in(
            input.pulses@,
            start.near,
            from,
            to,
        ) by {
            lemma_first_unique(input.pulses@, start.near, from, to, j, told.line0);
        }
    }
}

/// Where nothing shows the long syncs, the search goes on with the end of the blanking
/// interval, from the eleventh pulse on; where the length at the first one tells the
/// field, that is the field whose start is reckoned.
pub proof fn law_search_by_end_of_blanking(input: Line0Input, index: int)
    requires
        10 <= index < input.pulses@.len() - 2,
        no_syncs_end(input, input.pulses@.len() - 2),
        no_syncs_start(input, input.pulses@.len() - 2),
        no_lines_begin(input, index),
        lines_begin(input, index),
    ensures
        ({
            let found = line0::searched(input);
            let length = input.pulses@[index].len;
            let shape = input.measures@[index].ending;
            let starts = input.measures@[index].far_estimates@;
            let passes_for_eq = shape.distinct && length < shape.eq_loose.ceil;
            let passes_for_hsync = shape.distinct && !passes_for_eq && length
                > shape.hsync_loose.floor;
            passes_for_eq || passes_for_hsync ==> {
                &&& found.backup == Some(
                    if input.frame_lines == 625 {
                        starts[0]
                    } else if passes_for_eq {
                        starts[1]
                    } else {
                        starts[2]
                    }.value,
                )
                &&& found.backup_first_field == if passes_for_eq {
                    0i64
                } else {
                    1
                }
            }
        }),
{
    let none = line0::no_search();
    let last = input.pulses@.len() - 2;
    lemma_first_from(
        input,
        none,
        15,
        if last < 15 {
            15
        } else {
            last
        },
    );
    assert(line0::first_try(input, none, 15) == none);
    lemma_second_from(input, none, 10, last);
    assert(line0::second_try(input, none, 10) == none);
    lemma_third_from(input, none, 10, index);
    law_length_at_end(input, none, index);
    let told = line0::third_step(input, none, index);
    assert(line0::third_try(input, none, 10) == line0::third_try(input, told, index + 1));
    if told.backup is Some {
        lemma_keeps_reckoned(input, told, index + 1);
    }
    lemma_fourth_reckons_nothing(input, line0::third_try(input, told, index + 1), 2);
}

/// Where none of these patterns shows, no start is reckoned, and the search ends with
/// the start of the blanking interval, from the third pulse on: the first one that
/// tells a start which is not late tells that of the field. Without any there is none.
pub proof fn law_search_by_start_of_blanking(input: Line0Input, index: int)
    requires
        2 <= index,
        no_syncs_end(input, input.pulses@.len() - 2),
        no_syncs_start(input, input.pulses@.len() - 2),
        no_lines_begin(input, input.pulses@.len() - 2),
        forall|i: int| 2 <= i < index ==> !#[trigger] lines_end(input, i),
    ensures
        ({
            let found = line0::searched(input);
            let length = input.pulses@[index].len;
            let shape = input.measures@[index].opening;
            let passes_for_eq = shape.distinct && length < shape.eq_loose.ceil;
            let passes_for_hsync = shape.distinct && !passes_for_eq && length
                > shape.hsync_loose.floor;
            let start = if passes_for_eq {
                input.pulses@[index - 1].start
            } else {
                input.pulses@[index].start
            };
            &&& found.backup is None
            &&& index >= input.pulses@.len() - 3 ==> found.line0 is None && found.first_field == -1
                && found.confidence == -1
            &&& index < input.pulses@.len() - 3 && lines_end(input, index) && (passes_for_eq
                || passes_for_hsync) && start <= input.limits.late.floor ==> {
                &&& found.line0 == Some(start)
                &&& found.first_field == if input.frame_lines == 625 {
                    0i64
                } else {
                    1
                }
            }
        }),
{
    let none = line0::no_search();
    let last = input.pulses@.len() - 2;
    lemma_first_from(
        input,
        none,
        15,
        if last < 15 {
            15
        } else {
            last
        },
    );
    assert(line0::first_try(input, none, 15) == none);
    let behind = if last < 10 {
        10
    } else {
        last
    };
    lemma_second_from(input, none, 10, behind);
    assert(line0::second_try(input, none, 10) == none);
    lemma_third_from(input, none, 10, behind);
    assert(line0::third_try(input, none, 10) == none);
    lemma_fourth_from(input, none, 2, index);
    lemma_fourth_reckons_nothing(input, none, 2);
    if index < input.pulses@.len() - 3 && lines_end(input, index) {
        law_start_of_blanking(input, none, index);
        let told = line0::fourth_step(input, none, index);
        assert(line0::fourth_try(input, none, index) == line0::fourth_try(input, told, index + 1));
    }
}

/// A pulse that was found and is not late is the start, with what is known of it. A late
/// one gives way to the reckoned start where that lies before it by most of half a
/// frame or, where relaxed, within half a frame; where no pulse was found, the reckoned
/// start is taken. The reckoned start is twenty percent less sure.
pub proof fn law_settled(
    s: Line0Search,
    late: RealBound,
    shifted: u64,
    limit: u64,
    relaxed: bool,
)
    requires
        s.backup_confidence >= i64::MIN + 20,
    ensures
        ({
            let found = line0::settled(s, late, shifted, limit, relaxed);
            let as_reckoned = found.place == Some(Line0Place::Reckoned { value: s.backup->0 })
                && found.first_field == s.backup_first_field && found.confidence + 20
                == s.backup_confidence;
            let as_found = found.first_field == s.first_field && found.confidence == s.confidence;
            &&& s.line0 is Some && s.line0->0 <= late.floor ==> as_found && found.place == Some(
                Line0Place::Pulse { start: s.line0->0 },
            )
            &&& s.line0 is Some && s.backup is None ==> as_found && found.place == Some(
                Line0Place::Pulse { start: s.line0->0 },
            )
            &&& s.line0 is None && s.backup is Some ==> as_reckoned
            &&& s.line0 is None && s.backup is None ==> as_found && found.place is None
            &&& s.line0 is Some && s.line0->0 > late.floor && s.backup is Some && (
            ieee::lt_double(s.backup->0, shifted) || relaxed && ieee::lt_double(s.backup->0, limit))
                ==> as_reckoned
            &&& s.line0 is Some && s.backup is Some && !ieee::lt_double(s.backup->0, shifted) && (
            !relaxed || !ieee::lt_double(s.backup->0, limit)) ==> as_found && found.place == Some(
                Line0Place::Pulse { start: s.line0->0 },
            )
        }),
{
}

/// That a distance is in range, and less than a million.
pub open spec fn in_reach(distance: u64, range: u64) -> bool {
    ieee::lt_double(distance, range) && ieee::lt_double(distance, 0x412e_8480_0000_0000)
}

proof fn lemma_nearest(distances: Seq<u64>, range: u64, count: nat)
    requires
        count <= distances.len(),
    ensures
        ({
            let (best, least) = line0::nearest(distances, range, count);
            match best {
                Some(i) => {
                    &&& 0 <= i < count
                    &&& least == distances[i]
                    &&& in_reach(distances[i], range)
                    &&& forall|j: int|
                        0 <= j < count && in_reach(#[trigger] distances[j], range) ==> !ieee::lt_double(
                            distances[j],
                            distances[i],
                        ) && (j < i ==> ieee::lt_double(distances[i], distances[j]))
                },
                None => least == 0x412e_8480_0000_0000 && forall|j: int|
                    0 <= j < count ==> !in_reach(#[trigger] distances[j], range),
            }
        }),
    decreases count,
{
    if count > 0 {
        lemma_nearest(distances, range, (count - 1) as nat);
    }
}

/// The nearest pulse is one in range that none in range is nearer than, and the first
/// of those; there is none only where none is in range.
pub proof fn law_nearest_pulse(distances: Seq<u64>, range: u64)
    ensures
        match line0::nearest(distances, range, distances.len()).0 {
            Some(i) => {
                &&& 0 <= i < distances.len()
                &&& in_reach(distances[i], range)
                &&& forall|j: int|
                    0 <= j < distances.len() && in_reach(#[trigger] distances[j], range)
                        ==> !ieee::lt_double(distances[j], distances[i]) && (j < i
                        ==> ieee::lt_double(distances[i], distances[j]))
            },
            None => forall|j: int|
                0 <= j < distances.len() ==> !in_reach(#[trigger] distances[j], range),
        },
{
    lemma_nearest(distances, range, distances.len());
}

/// What the field before lets expect counts only where no start was found or a late one,
/// and where the expected start lies behind five lines before the window and before
/// half a frame. Then the start is the nearest pulse, fifty percent sure, or, where
/// relaxed and none is in range, the expected place itself, forty percent sure. Without
/// an expected order the field stays what it was taken for.
pub proof fn law_expected_start(
    found: Line0Found,
    pulses: Seq<PulseSample>,
    late: RealBound,
    expected: Expectation,
    relaxed: bool,
    best: int,
)
    requires
        expected.distances@.len() == pulses.len(),
    ensures
        ({
            let result = line0::with_expectation(found, pulses, late, Some(expected), relaxed);
            let distances = expected.distances@;
            let none_near = forall|j: int|
                0 <= j < distances.len() ==> !in_reach(#[trigger] distances[j], expected.range);
            let missing = match found.place {
                Some(Line0Place::Pulse { start }) => start > late.floor,
                Some(Line0Place::Reckoned { value }) => ieee::lt_double(expected.limit, value),
                Some(Line0Place::ThreeLinesBefore { .. }) => false,
                None => true,
            };
            let counts = missing && ieee::lt_double(expected.line0, expected.limit)
                && ieee::lt_double(expected.earliest, expected.line0);
            &&& line0::with_expectation(found, pulses, late, None, relaxed) == found
            &&& !counts ==> result == found
            &&& counts && none_near && !(relaxed && ieee::lt_double(0, expected.line0)) ==> result
                == found
            &&& counts && none_near && relaxed && ieee::lt_double(0, expected.line0) ==> {
                &&& result.place == Some(Line0Place::Reckoned { value: expected.line0 })
                &&& expected.first_field is Some ==> result.first_field == expected.first_field->0
                    && result.confidence == 40
            }
            &&& counts && 0 <= best < pulses.len() && in_reach(distances[best], expected.range) && (
            forall|j: int|
                0 <= j < distances.len() && in_reach(#[trigger] distances[j], expected.range) && j
                    != best ==> ieee::lt_double(distances[best], distances[j])) ==> {
                &&& result.place == Some(Line0Place::Pulse { start: pulses[best].start })
                &&& expected.first_field is Some ==> result.first_field == expected.first_field->0
                    && result.confidence == 50
            }
            &&& expected.first_field is None ==> result.first_field == found.first_field
                && result.confidence == found.confidence
        }),
{
    law_nearest_pulse(expected.distances@, expected.range);
}

proof fn lemma_first_long(raw: Seq<PulseSample>, range: SampleRange, index: int, long: int)
    requires
        0 <= index <= long <= raw.len(),
        forall|i: int| index <= i < long ==> !(range.min <= (#[trigger] raw[i]).len <= range.max),
        long < raw.len() ==> range.min <= raw[long].len <= range.max,
    ensures
        line0::first_long(raw, range, index) == if long < raw.len() {
            Some(raw[long].start)
        } else {
            None
        },
    decreases long - index,
{
    if index < long {
        assert(!(range.min <= raw[index].len <= range.max));
        lemma_first_long(raw, range, index + 1, long);
    }
}

proof fn lemma_last_hsync(
    types: Seq<PulseType>,
    starts: Seq<i64>,
    place: i64,
    index: int,
    found: Option<i64>,
    behind: int,
    last: int,
)
    requires
        types.len() == starts.len(),
        0 <= index <= behind <= starts.len(),
        -1 <= last < behind,
        forall|i: int| index <= i < behind ==> #[trigger] starts[i] <= place,
        behind < starts.len() ==> starts[behind] > place,
        last >= index ==> types[last] == PulseType::Hsync,
        last < index ==> found == if last >= 0 {
            Some(starts[last])
        } else {
            None
        },
        forall|i: int| index <= i < behind && i > last ==> #[trigger] types[i] != PulseType::Hsync,
    ensures
        line0::last_hsync_before(types, starts, place, index, found) == if last >= 0 {
            Some(starts[last])
        } else {
            None
        },
    decreases behind - index,
{
    if index < behind {
        assert(starts[index] <= place);
        assert(index > last ==> types[index] != PulseType::Hsync);
        lemma_last_hsync(
            types,
            starts,
            place,
            index + 1,
            if types[index] == PulseType::Hsync {
                Some(starts[index])
            } else {
                found
            },
            behind,
            last,
        );
    }
}

/// The last resort is found from the first pulse with the length of a long sync: where
/// there is none there is no start; where no horizontal sync was taken up to it the
/// start lies three lines before it, and else it is the last of those. `long` is the
/// place of that pulse, `behind` that of the first pulse taken behind it, and `last`
/// that of the last horizontal sync taken before, or -1.
pub proof fn law_last_resort(
    raw: Seq<PulseSample>,
    range: SampleRange,
    types: Seq<PulseType>,
    starts: Seq<i64>,
    long: int,
    behind: int,
    last: int,
)
    requires
        types.len() == starts.len(),
        0 <= long <= raw.len(),
        forall|i: int| 0 <= i < long ==> !(range.min <= (#[trigger] raw[i]).len <= range.max),
        long < raw.len() ==> range.min <= raw[long].len <= range.max,
        long < raw.len() ==> {
            &&& -1 <= last < behind <= starts.len()
            &&& forall|i: int| 0 <= i < behind ==> #[trigger] starts[i] <= raw[long].start
            &&& behind < starts.len() ==> starts[behind] > raw[long].start
            &&& last >= 0 ==> types[last] == PulseType::Hsync
            &&& forall|i: int| last < i < behind ==> #[trigger] types[i] != PulseType::Hsync
        },
    ensures
        line0::last_resort_of(raw, range, types, starts) == if long == raw.len() {
            None
        } else if last < 0 {
            Some(Line0Place::ThreeLinesBefore { start: raw[long].start })
        } else {
            Some(Line0Place::Pulse { start: starts[last] })
        },
{
    lemma_first_long(raw, range, 0, long);
    if long < raw.len() {
        lemma_last_hsync(types, starts, raw[long].start, 0, None, behind, last);
    }
}

/// A start that was settled on is never replaced, and what the last resort gives leaves
/// the field unknown.
pub proof fn law_concluded(found: Line0Found, resort: Option<Line0Place>)
    ensures
        found.place is Some ==> line0::concluded(found, resort) == found,
        found.place is None ==> {
            let result = line0::concluded(found, resort);
            result.place == resort && result.first_field == -1 && result.confidence == -1
        },
{
}

/// That the pulses around the one at `i` do not come too early.
pub open spec fn well_spaced(raw: Seq<PulseSample>, spacing: RealBound, i: int) -> bool {
    &&& raw[i + 1].start - raw[i].start > spacing.floor
    &&& raw[i].start - raw[i - 1].start > spacing.floor
}

proof fn lemma_filter_keeps(
    raw: Seq<PulseSample>,
    spacing: RealBound,
    next_fits: Seq<bool>,
    index: int,
    from: int,
)
    requires
        0 <= index <= from <= raw.len(),
        forall|i: int|
            0 < i && index <= i < from && i < raw.len() - 2 ==> #[trigger] well_spaced(
                raw,
                spacing,
                i,
            ),
    ensures
        line0::filtered(raw, spacing, next_fits, index) == raw.subrange(index, from)
            + line0::filtered(raw, spacing, next_fits, from),
    decreases from - index,
{
    let whole = line0::filtered(raw, spacing, next_fits, index);
    let rest = line0::filtered(raw, spacing, next_fits, from);
    if index == from {
        assert(whole =~= raw.subrange(index, from) + rest);
    } else {
        assert(0 < index < raw.len() - 2 ==> well_spaced(raw, spacing, index));
        lemma_filter_keeps(raw, spacing, next_fits, index + 1, from);
        assert(seq![raw[index]] + (raw.subrange(index + 1, from) + rest) =~= raw.subrange(
            index,
            from,
        ) + rest);
    }
}

/// A train in which no pulse comes too early stays as it is.
pub proof fn law_well_spaced_pulses_kept(
    raw: Seq<PulseSample>,
    spacing: RealBound,
    next_fits: Seq<bool>,
)
    requires
        forall|i: int| 0 < i < raw.len() - 2 ==> #[trigger] well_spaced(raw, spacing, i),
    ensures
        line0::filtered(raw, spacing, next_fits, 0) == raw,
{
    lemma_filter_keeps(raw, spacing, next_fits, 0, raw.len() as int);
    assert(line0::filtered(raw, spacing, next_fits, raw.len() as int) =~= Seq::empty());
    assert(raw.subrange(0, raw.len() as int) + Seq::<PulseSample>::empty() =~= raw);
}

/// Where the pulse behind the one at `early` is the only one that comes too early, just
/// one of the two is left out: the first where the second fits better, else the second.
pub proof fn law_early_pulse_left_out(
    raw: Seq<PulseSample>,
    spacing: RealBound,
    next_fits: Seq<bool>,
    early: int,
)
    requires
        0 < early < raw.len() - 2,
        raw[early + 1].start - raw[early].start <= spacing.floor,
        forall|i: int|
            0 < i < raw.len() - 2 && i != early && i != early + 1 ==> #[trigger] well_spaced(
                raw,
                spacing,
                i,
            ),
    ensures
        line0::filtered(raw, spacing, next_fits, 0) == if next_fits[early] {
            raw.remove(early)
        } else {
            raw.remove(early + 1)
        },
{
    let count = raw.len() as int;
    lemma_filter_keeps(raw, spacing, next_fits, 0, early);
    assert(!well_spaced(raw, spacing, early));
    lemma_filter_keeps(raw, spacing, next_fits, early + 2, count);
    assert(line0::filtered(raw, spacing, next_fits, count) =~= Seq::empty());
    let tail = raw.subrange(early + 2, count) + Seq::<PulseSample>::empty();
    if next_fits[early] {
        assert(raw.subrange(0, early) + (seq![raw[early + 1]] + tail) =~= raw.remove(early));
    } else {
        assert(raw.subrange(0, early) + (seq![raw[early]] + tail) =~= raw.remove(early + 1));
    }
}

/// The first try ends with any start that is found, even a late one; the others go on from
/// pulse to pulse as long as there is none or a late one, and end with one that is not late.
pub proof fn law_tries_go_on(input: Line0Input, s: Line0Search, index: int)
    requires
        0 <= index < input.pulses@.len() - 3,
    ensures
        s.line0 is Some ==> line0::first_try(input, s, index) == s,
        s.line0 is None ==> line0::first_try(input, s, index) == line0::first_try(
            input,
            line0::first_step(input, s, index),
            index + 1,
        ),
        s.line0 is None || s.line0->0 > input.limits.late.floor ==> {
            &&& line0::second_try(input, s, index) == line0::second_try(
                input,
                line0::second_step(input, s, index),
                index + 1,
            )
            &&& line0::third_try(input, s, index) == line0::third_try(
                input,
                line0::third_step(input, s, index),
                index + 1,
            )
            &&& line0::fourth_try(input, s, index) == line0::fourth_try(
                input,
                line0::fourth_step(input, s, index),
                index + 1,
            )
        },
        s.line0 is Some && s.line0->0 <= input.limits.late.floor ==> {
            &&& line0::second_try(input, s, index) == s
            &&& line0::third_try(input, s, index) == s
            &&& line0::fourth_try(input, s, index) == s
        },
{
}

/// Where the second pulse is the only one that comes too early, the first is kept, and just
/// one of the second and the third is left out: the second where the third fits better.
pub proof fn law_early_second_pulse(
    raw: Seq<PulseSample>,
    spacing: RealBound,
    next_fits: Seq<bool>,
)
    requires
        raw.len() > 3,
        raw[1].start - raw[0].start <= spacing.floor,
        forall|i: int| 1 < i < raw.len() - 2 ==> #[trigger] well_spaced(raw, spacing, i),
    ensures
        line0::filtered(raw, spacing, next_fits, 0) == if next_fits[1] {
            raw.remove(1)
        } else {
            raw.remove(2)
        },
{
    let count = raw.len() as int;
    lemma_filter_keeps(raw, spacing, next_fits, 0, 1);
    assert(!well_spaced(raw, spacing, 1));
    lemma_filter_keeps(raw, spacing, next_fits, 3, count);
    assert(line0::filtered(raw, spacing, next_fits, count) =~= Seq::empty());
    let tail = raw.subrange(3, count) + Seq::<PulseSample>::empty();
    if next_fits[1] {
        assert(raw.subrange(0, 1) + (seq![raw[2]] + tail) =~= raw.remove(1));
    } else {
        assert(raw.subrange(0, 1) + (seq![raw[1]] + tail) =~= raw.remove(2));
    }
}

} // verus!
