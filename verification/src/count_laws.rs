//! What is counted and what is listed, over the places where it holds.
use vstd::prelude::*;

use crate::arbitrage;
use crate::classify;
use crate::cuda;
use crate::field;
use crate::field_order;
use crate::ieee;
use crate::levels;
use crate::phase;
use crate::pulses::SampleRange;
use crate::search;
use crate::vblank::PulseSample;
use crate::vectors::Sos;

verus! {

/// The places from `from` up to `to` at which something holds, in order.
pub open spec fn picked(holds: spec_fn(int) -> bool, from: int, to: int) -> Seq<int>
    decreases to - from,
{
    if from >= to {
        Seq::empty()
    } else {
        let before = picked(holds, from, to - 1);
        if holds(to - 1) {
            before.push(to - 1)
        } else {
            before
        }
    }
}

/// The places are in ascending order, each is one at which it holds, and none of those
/// is missing.
pub proof fn law_picked(holds: spec_fn(int) -> bool, from: int, to: int)
    ensures
        ({
            let places = picked(holds, from, to);
            &&& forall|k: int|
                0 <= k < places.len() ==> from <= #[trigger] places[k] < to && holds(places[k])
            &&& forall|k: int, l: int|
                0 <= k < l < places.len() ==> #[trigger] places[k] < #[trigger] places[l]
            &&& forall|i: int| from <= i < to && #[trigger] holds(i) ==> places.contains(i)
        }),
    decreases to - from,
{
    if from < to {
        law_picked(holds, from, to - 1);
        let before = picked(holds, from, to - 1);
        let places = picked(holds, from, to);
        assert forall|i: int| from <= i < to && #[trigger] holds(i) implies places.contains(i) by {
            if i < to - 1 {
                let k = before.index_of(i);
                assert(before.contains(i));
                assert(places[k] == i);
            } else {
                assert(places[places.len() - 1] == i);
            }
        }
    }
}

/// The bad lines are those with a mark.
pub proof fn law_bad_lines(linebad: Seq<u8>, count: nat)
    ensures
        field::bad_lines(linebad, count) == picked(|i: int| linebad[i] != 0, 0, count as int).len(),
    decreases count,
{
    if count > 0 {
        law_bad_lines(linebad, (count - 1) as nat);
    }
}

/// The measured lines are those with an answer, and of those on even lines the ones
/// that rise are counted.
pub proof fn law_survey(survey: Seq<Option<bool>>, count: nat)
    ensures
        field::measured(survey, count) == picked(
            |i: int| survey[i] is Some,
            0,
            count as int,
        ).len(),
        field::rising_even(survey, count) == picked(
            |i: int| i % 2 == 0 && survey[i] == Some(true),
            0,
            count as int,
        ).len(),
        field::rising_even(survey, count) <= field::measured(survey, count) <= count,
    decreases count,
{
    if count > 0 {
        law_survey(survey, (count - 1) as nat);
    }
}

/// The line from which lines are moved is the last sound one up to a line.
pub proof fn law_adjustment_line(sound: Seq<bool>, line: int)
    requires
        line < sound.len(),
    ensures
        match field::adjustment_line(sound, line) {
            Some(found) => 0 <= found <= line && sound[found] && forall|i: int|
                found < i <= line ==> !#[trigger] sound[i],
            None => forall|i: int| 0 <= i <= line ==> !#[trigger] sound[i],
        },
    decreases line + 1,
{
    if line >= 0 && !sound[line] {
        law_adjustment_line(sound, line - 1);
    }
}

/// The noughts at a place of the sections of a filter, of either sign.
pub proof fn law_zero_words(filter: Seq<Sos>, place: int, count: nat)
    ensures
        cuda::zero_words(filter, place, count) == picked(
            |i: int| filter[i].words[place] == 0 || filter[i].words[place] == 0x8000_0000,
            0,
            count as int,
        ).len(),
        cuda::zero_words(filter, place, count) <= count,
    decreases count,
{
    if count > 0 {
        law_zero_words(filter, place, (count - 1) as nat);
    }
}

/// The edge that a filter needs is three samples for each of its coefficients less the
/// noughts at the ends of both rows, as far as both have them: six more for another
/// section of second order, and three more for one of first order.
pub proof fn law_filter_edge(filter: Seq<Sos>, section: Sos)
    ensures
        ({
            let whole = filter.push(section);
            let before = cuda::filter_edge(filter);
            let b = picked(
                |i: int| filter[i].words[2] == 0 || filter[i].words[2] == 0x8000_0000,
                0,
                filter.len() as int,
            ).len();
            let a = picked(
                |i: int| filter[i].words[5] == 0 || filter[i].words[5] == 0x8000_0000,
                0,
                filter.len() as int,
            ).len();
            let zero = |place: int| section.words[place] == 0 || section.words[place] == 0x8000_0000;
            &&& filter.len() == 0 ==> before == 3
            &&& before == 3 * (2 * filter.len() + 1 - if a < b {
                a
            } else {
                b
            })
            &&& zero(2) && zero(5) ==> cuda::filter_edge(whole) == before + 3
            &&& !zero(2) && !zero(5) ==> cuda::filter_edge(whole) == before + 6
            &&& before >= 3 * (filter.len() + 1)
        }),
{
    let whole = filter.push(section);
    let count = filter.len();
    law_zero_words(filter, 2, count);
    law_zero_words(filter, 5, count);
    lemma_zero_words_push(filter, section, 2, count);
    lemma_zero_words_push(filter, section, 5, count);
    assert(whole[count as int] == section);
    assert(cuda::zero_words(whole, 2, count + 1) == cuda::zero_words(whole, 2, count)
        + if cuda::zero_single(section.words[2]) {
        1nat
    } else {
        0nat
    });
    assert(cuda::zero_words(whole, 5, count + 1) == cuda::zero_words(whole, 5, count)
        + if cuda::zero_single(section.words[5]) {
        1nat
    } else {
        0nat
    });
}

proof fn lemma_zero_words_push(filter: Seq<Sos>, section: Sos, place: int, count: nat)
    requires
        count <= filter.len(),
    ensures
        cuda::zero_words(filter.push(section), place, count) == cuda::zero_words(
            filter,
            place,
            count,
        ),
    decreases count,
{
    if count > 0 {
        lemma_zero_words_push(filter, section, place, (count - 1) as nat);
        assert(filter.push(section)[count - 1] == filter[count - 1]);
    }
}

/// The flagged places are those with a flag, in order.
pub proof fn law_flagged(flags: Seq<u8>, count: nat)
    requires
        count <= usize::MAX,
    ensures
        ({
            let places = picked(|i: int| flags[i] != 0, 0, count as int);
            let listed = cuda::flagged(flags, count);
            &&& listed.len() == places.len()
            &&& forall|k: int| 0 <= k < places.len() ==> #[trigger] listed[k] == places[k]
        }),
    decreases count,
{
    if count > 0 {
        law_flagged(flags, (count - 1) as nat);
    }
}

/// The samples below a level, and the lengths in a range, are counted.
pub proof fn law_levels_counted(
    data: Seq<u32>,
    level: u32,
    lengths: Seq<i64>,
    range: SampleRange,
    count: nat,
)
    ensures
        levels::below(data, level, count) == picked(
            |i: int| ieee::lt_single(data[i], level),
            0,
            count as int,
        ).len(),
        levels::lengths_in(lengths, range, count) == picked(
            |i: int| range.min <= lengths[i] <= range.max,
            0,
            count as int,
        ).len(),
    decreases count,
{
    if count > 0 {
        law_levels_counted(data, level, lengths, range, (count - 1) as nat);
    }
}

/// Of the pulses from one to another, those with a length in the range are listed.
pub proof fn law_pulses_between(lengths: Seq<i64>, range: SampleRange, from: int, to: int)
    requires
        0 <= from,
        to <= usize::MAX,
    ensures
        ({
            let places = picked(|i: int| range.min <= lengths[i] <= range.max, from, to);
            let listed = levels::pulses_between(lengths, range, from, to);
            &&& listed.len() == places.len()
            &&& forall|k: int| 0 <= k < places.len() ==> #[trigger] listed[k] == places[k]
        }),
    decreases to - from,
{
    if from < to {
        law_pulses_between(lengths, range, from, to - 1);
    }
}

/// The pairs of neighbours that lie in the range of each other are listed.
pub proof fn law_pairs_in(places: Seq<i64>, range: SampleRange, count: nat)
    ensures
        levels::pairs_in(places, range, count) == picked(
            |i: int| range.min <= places[i + 1] - places[i] <= range.max,
            0,
            count as int,
        ),
    decreases count,
{
    if count > 0 {
        law_pairs_in(places, range, (count - 1) as nat);
    }
}

/// The lengths of the pulses that can be horizontal syncs are those in the range, in
/// the order of the pulses.
pub proof fn law_plausible_lengths(pulses: Seq<PulseSample>, range: SampleRange)
    ensures
        ({
            let places = picked(
                |i: int| range.min <= pulses[i].len <= range.max,
                0,
                pulses.len() as int,
            );
            let lengths = classify::plausible_lengths(pulses, range);
            &&& lengths.len() == places.len()
            &&& forall|k: int|
                0 <= k < places.len() ==> #[trigger] lengths[k] == pulses[places[k]].len
        }),
    decreases pulses.len(),
{
    if pulses.len() > 0 {
        let last = pulses.len() - 1;
        let before = pulses.drop_last();
        law_plausible_lengths(before, range);
        lemma_picked_alike(
            |i: int| range.min <= before[i].len <= range.max,
            |i: int| range.min <= pulses[i].len <= range.max,
            0,
            last,
        );
        law_picked(|i: int| range.min <= pulses[i].len <= range.max, 0, last);
    }
}

proof fn lemma_picked_alike(
    first: spec_fn(int) -> bool,
    second: spec_fn(int) -> bool,
    from: int,
    to: int,
)
    requires
        forall|i: int| from <= i < to ==> #[trigger] first(i) == second(i),
    ensures
        picked(first, from, to) == picked(second, from, to),
    decreases to - from,
{
    if from < to {
        lemma_picked_alike(first, second, from, to - 1);
        assert(first(to - 1) == second(to - 1));
    }
}

/// The lengths of the lines of a run are the distances between neighbours that are in
/// the range, in order.
pub proof fn law_sound_lines(starts: Seq<i64>, range: SampleRange, from: int, to: int)
    ensures
        ({
            let places = picked(
                |i: int| range.min <= starts[i] - starts[i - 1] <= range.max,
                from,
                to,
            );
            let lengths = classify::sound_lines(starts, range, from, to);
            &&& lengths.len() == places.len()
            &&& forall|k: int|
                0 <= k < places.len() ==> #[trigger] lengths[k] == starts[places[k]]
                    - starts[places[k] - 1]
        }),
    decreases to - from,
{
    if from < to {
        law_sound_lines(starts, range, from, to - 1);
    }
}

/// The crossings that are counted as rising are those that rise in an even half cycle
/// and those that fall in an odd one; turning all of them round leaves the others.
pub proof fn law_rising_crossings(
    rising: Seq<bool>,
    turned: Seq<bool>,
    cycles: Seq<i32>,
    count: nat,
)
    requires
        forall|i: int| 0 <= i < count ==> #[trigger] turned[i] == !rising[i],
    ensures
        search::rising_of(rising, cycles, count) == picked(
            |i: int| rising[i] == (cycles[i] % 2 == 0),
            0,
            count as int,
        ).len(),
        search::rising_of(rising, cycles, count) + search::rising_of(turned, cycles, count)
            == count,
    decreases count,
{
    if count > 0 {
        law_rising_crossings(rising, turned, cycles, (count - 1) as nat);
        assert(turned[count - 1] == !rising[count - 1]);
    }
}

/// The quarters are counted on the lines more than sixteen away from both ends.
pub proof fn law_quarters(
    lines: Seq<usize>,
    quarters: Seq<u8>,
    end: int,
    quarter: u8,
    count: nat,
)
    ensures
        phase::quarter_count(lines, quarters, end, quarter, count) == picked(
            |i: int| 16 < lines[i] < end - 16 && quarters[i] % 4 == quarter,
            0,
            count as int,
        ).len(),
    decreases count,
{
    if count > 0 {
        law_quarters(lines, quarters, end, quarter, (count - 1) as nat);
    }
}

/// The values from one to another, both included, are counted.
pub proof fn law_count_in(values: Seq<i64>, low: i64, high: i64)
    ensures
        arbitrage::count_in(values, low, high) == picked(
            |i: int| low <= values[i] <= high,
            0,
            values.len() as int,
        ).len(),
    decreases values.len(),
{
    if values.len() > 0 {
        let before = values.drop_last();
        law_count_in(before, low, high);
        lemma_picked_alike(
            |i: int| low <= before[i] <= high,
            |i: int| low <= values[i] <= high,
            0,
            values.len() - 1,
        );
    }
}

/// The distances that agree with a signature are counted.
pub proof fn law_agreement(lengths: Seq<i64>, expected: Seq<i64>, count: nat)
    ensures
        field_order::agreement(lengths, expected, count) == picked(
            |i: int| lengths[i] == expected[i],
            0,
            count as int,
        ).len(),
        field_order::agreement(lengths, expected, count) <= count,
        field_order::agreement(lengths, expected, count) == count ==> forall|i: int|
            0 <= i < count ==> #[trigger] lengths[i] == expected[i],
    decreases count,
{
    if count > 0 {
        law_agreement(lengths, expected, (count - 1) as nat);
    }
}

/// A line can be moved by its burst exactly where it was surveyed with an answer, has a place
/// that is a number and is not bad.
pub proof fn law_adjustable(
    survey: Seq<Option<bool>>,
    places: Seq<u32>,
    linebad: Seq<u8>,
    line: int,
)
    requires
        0 <= line < survey.len(),
    ensures
        line >= places.len() || line >= linebad.len() ==> !field::adjustable(
            survey,
            places,
            linebad,
            line,
        ),
        line < places.len() && line < linebad.len() ==> (field::adjustable(
            survey,
            places,
            linebad,
            line,
        ) <==> survey[line] is Some && linebad[line] == 0 && (places[line] <= 0x7f80_0000
            || 0x8000_0000 <= places[line] <= 0xff80_0000)),
{
}

} // verus!
