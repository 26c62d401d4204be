//! What a search for the sync level comes to, over all the levels that it looked at.
use vstd::prelude::*;

use crate::ieee;
use crate::levels;
use crate::levels::{LevelStep, SearchView};
use crate::pulses::SampleRange;

verus! {

/// What was seen at a level: its pulses, and the vertical syncs and the long pulses
/// among them.
pub struct Look {
    pub level: u32,
    pub pulses: nat,
    pub vsyncs: nat,
    pub long: nat,
}

/// Whether a level tells anything: it has more than two hundred pulses, and among
/// them more than four vertical syncs or a long pulse.
pub open spec fn telling(look: Look) -> bool {
    look.pulses > 200 && (look.vsyncs > 4 || look.long > 0)
}

/// The search after these levels.
pub open spec fn after_looks(looks: Seq<Look>) -> SearchView
    decreases looks.len(),
{
    if looks.len() == 0 {
        SearchView { retries: 30, candidate: None, check_next: true }
    } else {
        let last = looks.last();
        after_looks(looks.drop_last()).looked(last.level, last.pulses, last.vsyncs, last.long).0
    }
}

/// What the last of these levels is answered with.
pub open spec fn answer(looks: Seq<Look>) -> LevelStep {
    let last = looks.last();
    after_looks(looks.drop_last()).looked(last.level, last.pulses, last.vsyncs, last.long).1
}

/// That the search went on after each of these levels.
pub open spec fn went_on(looks: Seq<Look>) -> bool
    decreases looks.len(),
{
    looks.len() == 0 || (went_on(looks.drop_last()) && answer(looks) == LevelStep::Raise)
}

/// That no level has more of one and fewer of the other than a level before it.
pub open spec fn no_trade(looks: Seq<Look>) -> bool {
    forall|i: int, j: int|
        #![trigger looks[i], looks[j]]
        0 <= i < j < looks.len() && telling(looks[i]) && telling(looks[j]) ==> !(looks[j].vsyncs
            > looks[i].vsyncs && looks[j].long < looks[i].long) && !(looks[j].vsyncs
            < looks[i].vsyncs && looks[j].long > looks[i].long)
}

/// That `best` is a level that tells something, after which none showed more.
pub open spec fn unbeaten_since(looks: Seq<Look>, best: int) -> bool {
    &&& 0 <= best < looks.len()
    &&& telling(looks[best])
    &&& forall|j: int|
        best < j < looks.len() && telling(#[trigger] looks[j]) ==> looks[j].vsyncs
            <= looks[best].vsyncs && looks[j].long <= looks[best].long
}

/// How a search stands that went on: the level that it holds, and whether one after
/// it showed the same.
proof fn lemma_standing(looks: Seq<Look>) -> (found: (int, int))
    requires
        went_on(looks),
    ensures
        ({
            let state = after_looks(looks);
            let (best, again) = found;
            &&& looks.len() < 30
            &&& state.retries == 30 - looks.len()
            &&& state.candidate is None ==> state.check_next && forall|i: int|
                0 <= i < looks.len() ==> !telling(#[trigger] looks[i])
            &&& state.candidate matches Some((level, vsyncs, long)) ==> {
                &&& unbeaten_since(looks, best)
                &&& looks[best].level == level
                &&& looks[best].vsyncs == vsyncs
                &&& looks[best].long == long
                &&& state.check_next ==> forall|j: int|
                    best < j < looks.len() ==> !telling(#[trigger] looks[j])
                &&& !state.check_next ==> {
                    &&& best < again < looks.len()
                    &&& telling(looks[again])
                    &&& looks[again].vsyncs == vsyncs
                    &&& looks[again].long == long
                }
                &&& no_trade(looks) ==> forall|i: int|
                    0 <= i < looks.len() && telling(#[trigger] looks[i]) ==> looks[i].vsyncs
                        <= vsyncs && looks[i].long <= long
            }
        }),
    decreases looks.len(),
{
    if looks.len() == 0 {
        (0, 0)
    } else {
        let before = looks.drop_last();
        let at = looks.len() - 1;
        let (best, again) = lemma_standing(before);
        let old_state = after_looks(before);
        let state = after_looks(looks);
        let last = looks.last();
        assert(forall|i: int| 0 <= i < at ==> before[i] == looks[i]);
        if no_trade(looks) {
            assert forall|i: int, j: int|
                #![trigger before[i], before[j]]
                0 <= i < j < before.len() && telling(before[i]) && telling(before[j]) implies !(
            before[j].vsyncs > before[i].vsyncs && before[j].long < before[i].long) && !(
            before[j].vsyncs < before[i].vsyncs && before[j].long > before[i].long) by {
                assert(looks[i] == before[i] && looks[j] == before[j]);
            }
            assert(no_trade(before));
        }
        if !telling(last) {
            (best, again)
        } else if old_state.candidate is None {
            (at, 0)
        } else if last.vsyncs > looks[best].vsyncs || last.long > looks[best].long {
            if no_trade(looks) {
                assert(looks[best] == before[best] && looks[at] == last);
            }
            (at, 0)
        } else {
            (best, at)
        }
    }
}

/// At most thirty levels are looked at: the thirtieth ends the search, and none
/// before it does so for want of levels.
pub proof fn law_thirty_levels(looks: Seq<Look>)
    requires
        looks.len() > 0,
        went_on(looks.drop_last()),
    ensures
        looks.len() <= 30,
        answer(looks) == LevelStep::Raise ==> looks.len() < 30,
        answer(looks) == LevelStep::Exhausted ==> looks.len() == 30,
{
    lemma_standing(looks.drop_last());
}

/// A level that tells nothing has no part in the search: the next one is looked at,
/// if any is left.
pub proof fn law_levels_passed_over(looks: Seq<Look>)
    requires
        looks.len() > 0,
        went_on(looks.drop_last()),
        !telling(looks.last()),
    ensures
        answer(looks) == if looks.len() == 30 {
            LevelStep::Exhausted
        } else {
            LevelStep::Raise
        },
        after_looks(looks).candidate == after_looks(looks.drop_last()).candidate,
{
    lemma_standing(looks.drop_last());
}

/// A search goes back only to a level that it looked at, that told something, and
/// after which no level, the current one included, showed more vertical syncs or more
/// long pulses. Where no level showed more of one and fewer of the other than one
/// before it, none at all showed more. And it goes back only because the current
/// level shows fewer than that one, or the same as it and one more already did.
pub proof fn law_goes_back_to_best(looks: Seq<Look>, level: u32)
    requires
        looks.len() > 0,
        went_on(looks.drop_last()),
        answer(looks) == (LevelStep::Back { level }),
    ensures
        exists|best: int|
            {
                &&& 0 <= best < looks.len() - 1
                &&& #[trigger] unbeaten_since(looks, best)
                &&& looks[best].level == level
                &&& telling(looks.last())
                &&& looks.last().vsyncs < looks[best].vsyncs || looks.last().long
                    < looks[best].long || exists|again: int|
                    best < again < looks.len() - 1 && (#[trigger] looks[again]).vsyncs
                        == looks[best].vsyncs && looks[again].long == looks[best].long && telling(
                        looks[again],
                    )
                &&& no_trade(looks) ==> forall|i: int|
                    0 <= i < looks.len() && telling(#[trigger] looks[i]) ==> looks[i].vsyncs
                        <= looks[best].vsyncs && looks[i].long <= looks[best].long
            },
{
    let before = looks.drop_last();
    let (best, again) = lemma_standing(before);
    let at = looks.len() - 1;
    assert(forall|i: int| 0 <= i < at ==> before[i] == looks[i]);
    assert(looks[at] == looks.last());
    assert(before[best] == looks[best]);
    assert forall|j: int| best < j < looks.len() && telling(
        #[trigger] looks[j],
    ) implies looks[j].vsyncs <= looks[best].vsyncs && looks[j].long <= looks[best].long by {
        if j < at {
            assert(before[j] == looks[j]);
        }
    }
    assert(unbeaten_since(looks, best));
    if !after_looks(before).check_next {
        assert(before[again] == looks[again]);
    }
    if no_trade(looks) {
        assert forall|i: int, j: int|
            #![trigger before[i], before[j]]
            0 <= i < j < before.len() && telling(before[i]) && telling(before[j]) implies !(
        before[j].vsyncs > before[i].vsyncs && before[j].long < before[i].long) && !(
        before[j].vsyncs < before[i].vsyncs && before[j].long > before[i].long) by {
            assert(looks[i] == before[i] && looks[j] == before[j]);
        }
        assert(no_trade(before));
        assert forall|i: int| 0 <= i < looks.len() && telling(#[trigger] looks[i]) implies looks[
        i].vsyncs <= looks[best].vsyncs && looks[i].long <= looks[best].long by {
            if i < at {
                assert(before[i] == looks[i]);
            }
        }
    }
}

/// A level with more vertical syncs than every level before it that told something,
/// or with more long pulses, is never answered with going back: the search goes on
/// with it as the best so far, or stops at it.
pub proof fn law_better_level_is_kept(looks: Seq<Look>)
    requires
        looks.len() > 0,
        went_on(looks.drop_last()),
        telling(looks.last()),
        (forall|i: int|
            0 <= i < looks.len() - 1 && telling(#[trigger] looks[i]) ==> looks[i].vsyncs
                < looks.last().vsyncs) || (forall|i: int|
            0 <= i < looks.len() - 1 && telling(#[trigger] looks[i]) ==> looks[i].long
                < looks.last().long),
    ensures
        !(answer(looks) is Back),
        answer(looks) == LevelStep::Stop || (after_looks(looks).candidate == Some(
            (looks.last().level, looks.last().vsyncs, looks.last().long),
        ) && after_looks(looks).check_next && answer(looks) == if looks.len() == 30 {
            LevelStep::Exhausted
        } else {
            LevelStep::Raise
        }),
{
    let before = looks.drop_last();
    let (best, again) = lemma_standing(before);
    if after_looks(before).candidate is Some {
        assert(before[best] == looks[best]);
    }
}

/// A level with fewer vertical syncs than one before it, with no long pulse at any, is
/// answered with going back, unless it has exactly twelve and the best level was
/// already seen twice.
pub proof fn law_worse_level_goes_back(looks: Seq<Look>, better: int)
    requires
        looks.len() > 0,
        went_on(looks.drop_last()),
        forall|i: int| 0 <= i < looks.len() ==> (#[trigger] looks[i]).long == 0,
        telling(looks.last()),
        0 <= better < looks.len() - 1,
        telling(looks[better]),
        looks.last().vsyncs < looks[better].vsyncs,
        looks.last().vsyncs != 12,
    ensures
        answer(looks) is Back,
{
    let before = looks.drop_last();
    let (best, again) = lemma_standing(before);
    assert(forall|i: int| 0 <= i < before.len() ==> before[i] == looks[i]);
    assert(no_trade(before));
    assert(telling(before[better]));
}

/// A search stops only at a level with twelve vertical syncs or two long pulses, and
/// only after some level and a later one showed the same.
pub proof fn law_stops_when_confirmed(looks: Seq<Look>)
    requires
        looks.len() > 0,
        went_on(looks.drop_last()),
        answer(looks) == LevelStep::Stop,
    ensures
        telling(looks.last()),
        looks.last().vsyncs == 12 || looks.last().long == 2,
        exists|best: int, again: int|
            0 <= best < again < looks.len() - 1 && telling(#[trigger] looks[best]) && telling(
                #[trigger] looks[again],
            ) && looks[best].vsyncs == looks[again].vsyncs && looks[best].long
                == looks[again].long,
{
    let before = looks.drop_last();
    let (best, again) = lemma_standing(before);
    assert(before[best] == looks[best] && before[again] == looks[again]);
}

/// Twelve vertical syncs, or two long pulses, seen at three levels in a row without
/// anything else in between end the search at the third.
pub proof fn law_three_alike_stop(looks: Seq<Look>)
    requires
        looks.len() == 3,
        forall|i: int| 0 <= i < 3 ==> telling(#[trigger] looks[i]),
        forall|i: int| 0 <= i < 3 ==> (#[trigger] looks[i]).vsyncs == looks[0].vsyncs,
        forall|i: int| 0 <= i < 3 ==> (#[trigger] looks[i]).long == looks[0].long,
        looks[0].vsyncs == 12 || looks[0].long == 2,
    ensures
        went_on(looks.drop_last()),
        answer(looks) == LevelStep::Stop,
{
    reveal_with_fuel(after_looks, 4);
    reveal_with_fuel(went_on, 4);
    let two = looks.drop_last();
    let one = two.drop_last();
    assert(two.last() == looks[1] && one.last() == looks[0] && looks.last() == looks[2]);
    assert(one.drop_last().len() == 0);
}

/// A black level is taken only where it was measured, is a number and is not below
/// the sync level; and then it is the one that was measured.
pub proof fn law_black_is_above_sync(sync: u32, black: Option<u32>)
    ensures
        match levels::black_above(sync, black) {
            Some(level) => black == Some(level) && !ieee::lt_single(level, sync)
                && !ieee::nan_single(level),
            None => black is None || ieee::lt_single(black->0, sync) || ieee::nan_single(black->0),
        },
{
}

/// The pulses of a range are listed in order, each once, and none is left out.
pub proof fn law_pulses_in(lengths: Seq<i64>, range: SampleRange, count: nat)
    requires
        count <= lengths.len() <= usize::MAX,
    ensures
        ({
            let found = levels::pulses_in(lengths, range, count);
            &&& forall|k: int|
                0 <= k < found.len() ==> #[trigger] found[k] < count && range.min <= lengths[
                found[k] as int] <= range.max
            &&& forall|k: int, l: int|
                0 <= k < l < found.len() ==> #[trigger] found[k] < #[trigger] found[l]
            &&& forall|i: int|
                0 <= i < count && range.min <= #[trigger] lengths[i] <= range.max
                    ==> found.contains(i as usize)
            &&& found.len() == levels::lengths_in(lengths, range, count)
        }),
    decreases count,
{
    if count > 0 {
        law_pulses_in(lengths, range, (count - 1) as nat);
        let before = levels::pulses_in(lengths, range, (count - 1) as nat);
        let found = levels::pulses_in(lengths, range, count);
        assert forall|i: int| 0 <= i < count && range.min <= #[trigger] lengths[i]
            <= range.max implies found.contains(i as usize) by {
            if i < count - 1 {
                let k = choose|k: int| 0 <= k < before.len() && before[k] == i as usize;
                assert(found[k] == i as usize);
            } else {
                assert(found[before.len() as int] == i as usize);
            }
        }
    }
}

/// The levels that are pulled are the last of both kinds, as many as are averaged or all, and
/// enough are known only where more than so many of both are.
pub proof fn law_latest_levels(memory: levels::LevelMemory, depth: int)
    requires
        0 <= depth,
    ensures
        ({
            let latest = memory.latest(depth);
            let sync = if memory.sync.len() < depth {
                memory.sync.len() as int
            } else {
                depth
            };
            let blank = if memory.blank.len() < depth {
                memory.blank.len() as int
            } else {
                depth
            };
            &&& latest.sync == memory.sync.skip(memory.sync.len() - sync)
            &&& latest.blank == memory.blank.skip(memory.blank.len() - blank)
            &&& memory.more_than(depth) <==> memory.sync.len() > depth && memory.blank.len() > depth
        }),
{
    let latest = memory.latest(depth);
    assert(memory.sync.skip(0) =~= memory.sync);
    assert(memory.blank.skip(0) =~= memory.blank);
    if memory.sync.len() > depth {
        assert(latest.sync =~= memory.sync.skip(memory.sync.len() - depth));
    }
    if memory.blank.len() > depth {
        assert(latest.blank =~= memory.blank.skip(memory.blank.len() - depth));
    }
}

} // verus!
