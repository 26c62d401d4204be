//! A whole decode, over the windows of input that it is handed: the way in which the
//! input is cut into windows leaves the fields that come out as they are.
use vstd::prelude::*;

use crate::decoder;
use crate::decoder::{AfterTurn, DecoderView, FieldReport, FieldView, LumaView, Reach, Read};
use crate::request::FieldOrderAction;
use crate::spec::BLOCKSIZE;

verus! {

/// What a read hands on: samples (singles), and where they lie in the input.
#[verifier::ext_equal]
pub struct Supply {
    pub readloc: u64,
    pub start: u64,
    pub blocks: usize,
    pub samples: Seq<u32>,
}

/// A field that was made of samples, as it is put out.
pub struct Picture {
    pub report: FieldReport,
    pub luma: LumaView,
    pub chroma: Option<Seq<u16>>,
}

/// The work on samples, of which only this is known: it depends on what it is
/// handed, and on nothing else. `W` is all that it keeps from turn to turn.
#[verifier::reject_recursive_types(W)]
pub struct Work<W> {
    /// Whether a field waits, and whether it could be decoded.
    pub pending: spec_fn(W) -> Option<bool>,
    /// How far ahead the next field lies.
    pub ahead: spec_fn(W) -> i64,
    /// What the work keeps after a turn with what was read, if anything was.
    pub after: spec_fn(DecoderView, W, Option<Supply>) -> W,
    /// The field of a turn that puts one out.
    pub picture: spec_fn(DecoderView, W, Option<Supply>) -> Picture,
}

/// What stays the same throughout a decode.
pub struct Setting {
    pub readlen: nat,
    pub usable: nat,
    pub action: FieldOrderAction,
    /// The whole input, singles.
    pub input: Seq<u32>,
}

impl Setting {
    /// That blocks overlap, and that places in the input can be counted.
    pub open spec fn valid(self) -> bool {
        &&& 0 < self.usable <= BLOCKSIZE
        &&& self.input.len() <= usize::MAX
    }

    /// Whether this is a window of the input: from its first place up to its second.
    pub open spec fn holds(self, window: (int, int)) -> bool {
        0 <= window.0 <= window.1 <= self.input.len()
    }

    /// The window that holds the whole input.
    pub open spec fn whole(self) -> (int, int) {
        (0, self.input.len() as int)
    }
}

/// How a course stops.
pub enum Stop {
    /// Its turns are used up.
    Turns,
    /// It waits for more input.
    Wait { keep_from: u64 },
    /// The input is used up.
    Ended,
    /// The window begins too late.
    Late,
    /// What is to be read lies beyond all places.
    Beyond,
}

/// A decode that is under way, or that has stopped.
#[verifier::ext_equal]
pub struct Course<W> {
    pub state: DecoderView,
    pub kept: W,
    /// The fields that came out.
    pub output: Seq<FieldView>,
    pub stop: Stop,
    /// The turns that are left.
    pub turns: nat,
}

/// The input that the next turn needs.
pub open spec fn next_reach<W>(
    setting: Setting,
    work: Work<W>,
    state: DecoderView,
    kept: W,
) -> Reach {
    decoder::reach_of(
        state.fdoffset + (work.ahead)(kept),
        setting.readlen as int,
        setting.usable as int,
    )
}

/// What is read of a window. The window that ends with the input is the last.
pub open spec fn window_read(setting: Setting, reach: Reach, window: (int, int)) -> Read {
    decoder::read_of(
        reach,
        setting.usable as int,
        window.0,
        window.1 - window.0,
        window.1 == setting.input.len(),
    )
}

/// What a read of a window hands on.
pub open spec fn supplied(setting: Setting, window: (int, int), read: Read) -> Option<Supply> {
    match read {
        Read::Blocks { readloc, start, first, end, blocks } => Some(
            Supply {
                readloc,
                start,
                blocks,
                samples: setting.input.subrange(window.0, window.1).subrange(
                    first as int,
                    end as int,
                ),
            },
        ),
        _ => None,
    }
}

/// One turn with what was read: the course after it, with the fields of this turn
/// alone. It has ended, or has `turns` more.
pub open spec fn turned<W>(
    setting: Setting,
    work: Work<W>,
    state: DecoderView,
    kept: W,
    supply: Option<Supply>,
    turns: nat,
) -> Course<W> {
    let turn = state.turn((work.pending)(kept));
    let read = state.read_on(
        if turn is Field {
            Some((work.ahead)(kept))
        } else {
            None
        },
    );
    let (after, output) = if turn.followed() == AfterTurn::Place {
        let picture = (work.picture)(state, kept, supply);
        read.placed(picture.report, setting.action, picture.luma, picture.chroma)
    } else {
        (read, Seq::empty())
    };
    Course {
        state: after,
        kept: (work.after)(state, kept, supply),
        output,
        stop: if turn.followed() == AfterTurn::Finish {
            Stop::Ended
        } else {
            Stop::Turns
        },
        turns,
    }
}

/// A decode of at most `turns` turns with one window of the input.
pub open spec fn course<W>(
    setting: Setting,
    work: Work<W>,
    state: DecoderView,
    kept: W,
    window: (int, int),
    turns: nat,
) -> Course<W>
    decreases turns,
{
    let reach = next_reach(setting, work, state, kept);
    let read = window_read(setting, reach, window);
    let here = Course { state, kept, output: Seq::empty(), stop: Stop::Turns, turns };
    if turns == 0 {
        here
    } else if reach.end(setting.usable as int) > u64::MAX {
        Course { stop: Stop::Beyond, ..here }
    } else if decoder::late_for(
        reach,
        setting.usable as int,
        window.0,
        window.1 - window.0,
        window.1 == setting.input.len(),
    ) {
        Course { stop: Stop::Late, ..here }
    } else if read is Wait {
        Course { stop: Stop::Wait { keep_from: read->keep_from }, ..here }
    } else {
        let turn = turned(
            setting,
            work,
            state,
            kept,
            supplied(setting, window, read),
            (turns - 1) as nat,
        );
        if turn.stop is Ended {
            turn
        } else {
            let rest = course(
                setting,
                work,
                turn.state,
                turn.kept,
                window,
                (turns - 1) as nat,
            );
            Course { output: turn.output + rest.output, ..rest }
        }
    }
}

/// A decode of at most `turns` turns that is handed one window after another, each
/// when it waits for more input.
pub open spec fn fed<W>(
    setting: Setting,
    work: Work<W>,
    state: DecoderView,
    kept: W,
    windows: Seq<(int, int)>,
    turns: nat,
) -> Course<W>
    decreases windows.len(),
{
    let first = course(setting, work, state, kept, windows[0], turns);
    if windows.len() <= 1 || !(first.stop is Wait) {
        first
    } else {
        let rest = fed(
            setting,
            work,
            first.state,
            first.kept,
            windows.drop_first(),
            first.turns,
        );
        Course { output: first.output + rest.output, ..rest }
    }
}

/// A read that a window gives is the one that the whole input gives.
proof fn lemma_same_read(setting: Setting, reach: Reach, window: (int, int))
    requires
        setting.valid(),
        setting.holds(window),
        0 <= reach.readloc,
        0 <= reach.first < reach.last,
        !decoder::late_for(
            reach,
            setting.usable as int,
            window.0,
            window.1 - window.0,
            window.1 == setting.input.len(),
        ),
        !(window_read(setting, reach, window) is Wait),
    ensures
        !decoder::late_for(
            reach,
            setting.usable as int,
            0,
            setting.input.len() as int,
            true,
        ),
        !(window_read(setting, reach, setting.whole()) is Wait),
        supplied(setting, window, window_read(setting, reach, window)) == supplied(
            setting,
            setting.whole(),
            window_read(setting, reach, setting.whole()),
        ),
{
    let usable = setting.usable as int;
    assert(0 <= reach.first * usable <= (reach.last - 1) * usable) by (nonlinear_arith)
        requires
            0 <= reach.first <= reach.last - 1,
            0 < usable,
    ;
    let read = window_read(setting, reach, window);
    let whole = window_read(setting, reach, setting.whole());
    if read is Blocks {
        assert(setting.input.subrange(window.0, window.1).subrange(
            read->first as int,
            read->end as int,
        ) =~= setting.input.subrange(0, setting.input.len() as int).subrange(
            whole->first as int,
            whole->end as int,
        ));
    }
}

/// A course over one window is the beginning of the course over the whole input.
proof fn lemma_window_begins_course<W>(
    setting: Setting,
    work: Work<W>,
    state: DecoderView,
    kept: W,
    window: (int, int),
    turns: nat,
)
    requires
        setting.valid(),
        setting.holds(window),
        !(course(setting, work, state, kept, window, turns).stop is Late),
    ensures
        ({
            let part = course(setting, work, state, kept, window, turns);
            let whole = course(setting, work, state, kept, setting.whole(), turns);
            if part.stop is Wait {
                let rest = course(
                    setting,
                    work,
                    part.state,
                    part.kept,
                    setting.whole(),
                    part.turns,
                );
                whole == Course { output: part.output + rest.output, ..rest }
            } else {
                whole == part
            }
        }),
    decreases turns,
{
    let part = course(setting, work, state, kept, window, turns);
    let whole = course(setting, work, state, kept, setting.whole(), turns);
    let reach = next_reach(setting, work, state, kept);
    let read = window_read(setting, reach, window);
    if turns > 0 && reach.end(setting.usable as int) <= u64::MAX {
        if read is Wait {
            assert(whole =~= Course { output: part.output + whole.output, ..whole });
        } else {
            decoder::lemma_reach(
                state.fdoffset + (work.ahead)(kept),
                setting.readlen as int,
                setting.usable as int,
            );
            lemma_same_read(setting, reach, window);
            let turn = turned(
                setting,
                work,
                state,
                kept,
                supplied(setting, window, read),
                (turns - 1) as nat,
            );
            if !(turn.stop is Ended) {
                lemma_window_begins_course(
                    setting,
                    work,
                    turn.state,
                    turn.kept,
                    window,
                    (turns - 1) as nat,
                );
                if part.stop is Wait {
                    let rest = course(
                        setting,
                        work,
                        part.state,
                        part.kept,
                        setting.whole(),
                        part.turns,
                    );
                    assert(whole =~= Course { output: part.output + rest.output, ..rest });
                }
            }
        }
    }
}

/// How the input is cut into windows does not change a decode: handed one window
/// after another, it comes to the same state and puts out the same fields as with
/// the whole input at once, for as many turns as both are followed. The last window
/// ends with the input. Left out are windows that are refused because they begin
/// too late.
pub proof fn law_windows_leave_fields_alike<W>(
    setting: Setting,
    work: Work<W>,
    state: DecoderView,
    kept: W,
    windows: Seq<(int, int)>,
    turns: nat,
)
    requires
        setting.valid(),
        0 < windows.len(),
        forall|i: int| 0 <= i < windows.len() ==> setting.holds(#[trigger] windows[i]),
        windows.last().1 == setting.input.len(),
        !(fed(setting, work, state, kept, windows, turns).stop is Late),
    ensures
        fed(setting, work, state, kept, windows, turns) == course(
            setting,
            work,
            state,
            kept,
            setting.whole(),
            turns,
        ),
    decreases windows.len(),
{
    let first = course(setting, work, state, kept, windows[0], turns);
    lemma_window_begins_course(setting, work, state, kept, windows[0], turns);
    if windows.len() == 1 {
        law_last_window_never_waits(setting, work, state, kept, windows[0], turns);
    }
    if windows.len() > 1 && first.stop is Wait {
        let later = windows.drop_first();
        assert forall|i: int| 0 <= i < later.len() implies setting.holds(
            #[trigger] later[i],
        ) by {
            assert(later[i] == windows[i + 1]);
        }
        law_windows_leave_fields_alike(
            setting,
            work,
            first.state,
            first.kept,
            later,
            first.turns,
        );
    }
}

/// The window that ends with the input never leaves a decode waiting.
pub proof fn law_last_window_never_waits<W>(
    setting: Setting,
    work: Work<W>,
    state: DecoderView,
    kept: W,
    window: (int, int),
    turns: nat,
)
    requires
        window.1 == setting.input.len(),
    ensures
        !(course(setting, work, state, kept, window, turns).stop is Wait),
    decreases turns,
{
    if turns > 0 {
        let reach = next_reach(setting, work, state, kept);
        let turn = turned(
            setting,
            work,
            state,
            kept,
            supplied(setting, window, window_read(setting, reach, window)),
            (turns - 1) as nat,
        );
        law_last_window_never_waits(
            setting,
            work,
            turn.state,
            turn.kept,
            window,
            (turns - 1) as nat,
        );
    }
}

/// Where a decode waits, what lies before the place that it tells to keep is not
/// needed for what it waits for: no window that begins there at the latest is too
/// late for it.
pub proof fn law_kept_input_suffices<W>(
    setting: Setting,
    work: Work<W>,
    state: DecoderView,
    kept: W,
    window: (int, int),
    turns: nat,
    later: (int, int),
)
    requires
        setting.valid(),
        course(setting, work, state, kept, window, turns).stop is Wait,
        later.0 <= course(setting, work, state, kept, window, turns).stop->keep_from,
    ensures
        ({
            let paused = course(setting, work, state, kept, window, turns);
            !(course(setting, work, paused.state, paused.kept, later, 1).stop is Late)
        }),
    decreases turns,
{
    let reach = next_reach(setting, work, state, kept);
    let read = window_read(setting, reach, window);
    decoder::lemma_reach(
        state.fdoffset + (work.ahead)(kept),
        setting.readlen as int,
        setting.usable as int,
    );
    if read is Wait {
        let resumed = turned(
            setting,
            work,
            state,
            kept,
            supplied(setting, later, window_read(setting, reach, later)),
            0,
        );
        assert(course(setting, work, resumed.state, resumed.kept, later, 0).stop is Turns);
    } else {
        let turn = turned(
            setting,
            work,
            state,
            kept,
            supplied(setting, window, read),
            (turns - 1) as nat,
        );
        law_kept_input_suffices(
            setting,
            work,
            turn.state,
            turn.kept,
            window,
            (turns - 1) as nat,
            later,
        );
    }
}

/// Work that never goes back: the next field never lies before the place that the
/// input has been read to.
pub open spec fn never_back<W>(work: Work<W>) -> bool {
    forall|kept: W| 0 <= #[trigger] (work.ahead)(kept)
}

/// That every window after the first begins no later than the place that the decode
/// told to keep when it asked for it.
pub open spec fn windows_kept<W>(
    setting: Setting,
    work: Work<W>,
    state: DecoderView,
    kept: W,
    windows: Seq<(int, int)>,
    turns: nat,
) -> bool
    decreases windows.len(),
{
    let first = course(setting, work, state, kept, windows[0], turns);
    windows.len() > 1 && first.stop is Wait ==> {
        &&& windows[1].0 <= first.stop->keep_from
        &&& windows_kept(
            setting,
            work,
            first.state,
            first.kept,
            windows.drop_first(),
            first.turns,
        )
    }
}

/// What is read from further on begins no earlier.
proof fn lemma_reach_ascends(before: int, after: int, readlen: int, usable: int)
    requires
        before <= after,
        0 < usable,
    ensures
        decoder::reach_of(before, readlen, usable).begin(usable) <= decoder::reach_of(
            after,
            readlen,
            usable,
        ).begin(usable),
{
    let (one, two) = (
        decoder::reach_of(before, readlen, usable),
        decoder::reach_of(after, readlen, usable),
    );
    let size = BLOCKSIZE as int;
    vstd::arithmetic::div_mod::lemma_div_is_ordered(one.readloc, two.readloc, size);
    assert((one.readloc / size) * size <= (two.readloc / size) * size) by (nonlinear_arith)
        requires
            one.readloc / size <= two.readloc / size,
            0 < size,
    ;
    vstd::arithmetic::div_mod::lemma_div_is_ordered(
        (one.readloc / size) * size,
        (two.readloc / size) * size,
        usable,
    );
    assert(one.first * usable <= two.first * usable) by (nonlinear_arith)
        requires
            one.first <= two.first,
            0 < usable,
    ;
}

/// With work that never goes back, a window that is not too late for the first turn
/// is not too late for any; and where the decode waits, the place that it tells to
/// keep is where what it waits for begins.
proof fn lemma_never_late<W>(
    setting: Setting,
    work: Work<W>,
    state: DecoderView,
    kept: W,
    window: (int, int),
    turns: nat,
)
    requires
        setting.valid(),
        never_back(work),
        state.has_pending || (work.ahead)(kept) == 0,
        window.0 <= next_reach(setting, work, state, kept).begin(setting.usable as int),
    ensures
        ({
            let part = course(setting, work, state, kept, window, turns);
            &&& !(part.stop is Late)
            &&& part.state.has_pending || (work.ahead)(part.kept) == 0
            &&& part.stop is Wait ==> part.stop->keep_from == next_reach(
                setting,
                work,
                part.state,
                part.kept,
            ).begin(setting.usable as int)
        }),
    decreases turns,
{
    let usable = setting.usable as int;
    let reach = next_reach(setting, work, state, kept);
    let read = window_read(setting, reach, window);
    let place = state.fdoffset + (work.ahead)(kept);
    decoder::lemma_reach(place, setting.readlen as int, usable);
    decoder::law_read_covers_field(place, setting.readlen as int, usable);
    if turns > 0 && reach.end(usable) <= u64::MAX && !(read is Wait) {
        let turn = turned(
            setting,
            work,
            state,
            kept,
            supplied(setting, window, read),
            (turns - 1) as nat,
        );
        if !(turn.stop is Ended) {
            assert(turn.state.fdoffset == place);
            lemma_reach_ascends(
                place,
                turn.state.fdoffset + (work.ahead)(turn.kept),
                setting.readlen as int,
                usable,
            );
            lemma_never_late(setting, work, turn.state, turn.kept, window, (turns - 1) as nat);
        }
    }
}

/// Input before the place that a decode tells to keep is no longer needed: with work
/// that never goes back, windows that each begin there at the latest are never too
/// late, for however many turns. Before anything has been read nothing lies ahead.
/// Where the last window ends with the input, the decode comes to what it does with
/// the whole input at once.
pub proof fn law_dropped_input_never_needed<W>(
    setting: Setting,
    work: Work<W>,
    state: DecoderView,
    kept: W,
    windows: Seq<(int, int)>,
    turns: nat,
)
    requires
        setting.valid(),
        never_back(work),
        state.has_pending || (work.ahead)(kept) == 0,
        0 < windows.len(),
        forall|i: int| 0 <= i < windows.len() ==> setting.holds(#[trigger] windows[i]),
        windows[0].0 <= next_reach(setting, work, state, kept).begin(setting.usable as int),
        windows_kept(setting, work, state, kept, windows, turns),
    ensures
        !(fed(setting, work, state, kept, windows, turns).stop is Late),
        windows.last().1 == setting.input.len() ==> fed(
            setting,
            work,
            state,
            kept,
            windows,
            turns,
        ) == course(setting, work, state, kept, setting.whole(), turns),
    decreases windows.len(),
{
    let first = course(setting, work, state, kept, windows[0], turns);
    lemma_never_late(setting, work, state, kept, windows[0], turns);
    if windows.len() > 1 && first.stop is Wait {
        let later = windows.drop_first();
        assert forall|i: int| 0 <= i < later.len() implies setting.holds(
            #[trigger] later[i],
        ) by {
            assert(later[i] == windows[i + 1]);
        }
        law_dropped_input_never_needed(
            setting,
            work,
            first.state,
            first.kept,
            later,
            first.turns,
        );
    }
    if windows.last().1 == setting.input.len() {
        law_windows_leave_fields_alike(setting, work, state, kept, windows, turns);
    }
}

} // verus!
