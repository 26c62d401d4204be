//! In which order the fields of a decode come out, over the fields that went in.
use vstd::prelude::*;

use crate::decoder;
use crate::decoder::{DecoderView, Event, FieldReport, FieldView, InfoView, LumaView};
use crate::ieee;
use crate::request::FieldOrderAction;

verus! {

/// That a field is the one that was handed in: its picture, its order as it was found
/// and all that was measured of it.
pub open spec fn holds(
    field: FieldView,
    report: FieldReport,
    luma: LumaView,
    chroma: Option<Seq<u16>>,
) -> bool {
    &&& field.luma == luma
    &&& field.chroma == chroma
    &&& field.field_phase_id_raw == report.field_phase_id
    &&& field.info.detected_first_field == report.detected_first_field
    &&& field.info.disk_loc == report.disk_loc
    &&& field.info.file_loc == report.file_loc
    &&& field.info.vits_metrics == report.vits_metrics
    &&& field.info.drop_outs == decoder::drop_outs_view(report.drop_outs)
    &&& report.field_phase_id is Some ==> field.info.field_phase_id == report.field_phase_id->0
}

/// That an event hands in a field of an order.
pub open spec fn hands_in(event: Event, first: bool) -> bool {
    event is Placed && event->report.detected_first_field == first
}

/// What the event at `k` put out: the fields that came out up to it, without those
/// that came out before.
pub open spec fn came_out(fdoffset: u64, events: Seq<Event>, k: int) -> int {
    decoder::history(fdoffset, events.take(k + 1)).1.len() - decoder::history(
        fdoffset,
        events.take(k),
    ).1.len()
}

/// That `field` is the last one of an order: it was handed in by an event, and no later
/// event with a field of that order put anything out.
pub open spec fn last_of_order(
    fdoffset: u64,
    events: Seq<Event>,
    first: bool,
    field: FieldView,
) -> bool {
    exists|k: int|
        0 <= k < events.len() && #[trigger] hands_in(events[k], first) && holds(
            field,
            events[k]->report,
            events[k]->luma,
            events[k]->chroma,
        ) && none_out_behind(fdoffset, events, first, k)
}

/// That no event behind the one at `k` with a field of an order put anything out.
pub open spec fn none_out_behind(
    fdoffset: u64,
    events: Seq<Event>,
    first: bool,
    k: int,
) -> bool {
    forall|j: int|
        k < j < events.len() && #[trigger] hands_in(events[j], first) ==> came_out(
            fdoffset,
            events,
            j,
        ) == 0
}

proof fn lemma_prefix(fdoffset: u64, events: Seq<Event>, k: int)
    requires
        0 <= k < events.len() - 1,
    ensures
        came_out(fdoffset, events, k) == came_out(fdoffset, events.drop_last(), k),
{
    assert(events.take(k + 1) =~= events.drop_last().take(k + 1));
    assert(events.take(k) =~= events.drop_last().take(k));
}

proof fn lemma_none_behind(fdoffset: u64, events: Seq<Event>, first: bool, k: int)
    requires
        -1 <= k < events.len() - 1,
        none_out_behind(fdoffset, events.drop_last(), first, k),
        hands_in(events.last(), first) ==> came_out(fdoffset, events, events.len() - 1) == 0,
    ensures
        none_out_behind(fdoffset, events, first, k),
{
    assert forall|j: int|
        k < j < events.len() && #[trigger] hands_in(events[j], first) implies came_out(
        fdoffset,
        events,
        j,
    ) == 0 by {
        if j < events.len() - 1 {
            assert(events.drop_last()[j] == events[j]);
            lemma_prefix(fdoffset, events, j);
        }
    }
}

proof fn lemma_kept(
    fdoffset: u64,
    events: Seq<Event>,
    first: bool,
    before: Option<FieldView>,
    after: Option<FieldView>,
)
    requires
        events.len() > 0,
        match before {
            Some(field) => last_of_order(fdoffset, events.drop_last(), first, field),
            None => none_out_behind(fdoffset, events.drop_last(), first, -1),
        },
        (after == before && (hands_in(events.last(), first) ==> came_out(
            fdoffset,
            events,
            events.len() - 1,
        ) == 0)) || (after is Some && hands_in(events.last(), first) && holds(
            after->0,
            events.last()->report,
            events.last()->luma,
            events.last()->chroma,
        )),
    ensures
        match after {
            Some(field) => last_of_order(fdoffset, events, first, field),
            None => none_out_behind(fdoffset, events, first, -1),
        },
{
    let last = events.len() - 1;
    if after is Some && hands_in(events.last(), first) && holds(
        after->0,
        events.last()->report,
        events.last()->luma,
        events.last()->chroma,
    ) {
        assert(events[last] == events.last());
        assert(hands_in(events[last], first));
        assert(none_out_behind(fdoffset, events, first, last));
    } else {
        match before {
            Some(field) => {
                let earlier = events.drop_last();
                let k = choose|k: int|
                    0 <= k < earlier.len() && #[trigger] hands_in(earlier[k], first) && holds(
                        field,
                        earlier[k]->report,
                        earlier[k]->luma,
                        earlier[k]->chroma,
                    ) && none_out_behind(fdoffset, earlier, first, k);
                assert(earlier[k] == events[k]);
                lemma_none_behind(fdoffset, events, first, k);
                assert(hands_in(events[k], first));
            },
            None => {
                lemma_none_behind(fdoffset, events, first, -1);
            },
        }
    }
}

/// The fields that are kept to be put out again, after any course of a decode: one
/// that was found to be a first field and one that was not, each handed in before, with
/// none of its order that came out behind it. There is none only where none of that
/// order came out. Once any field came out there is a first one.
pub proof fn law_kept_fields(fdoffset: u64, events: Seq<Event>)
    ensures
        ({
            let (state, fields) = decoder::history(fdoffset, events);
            &&& match state.last_first {
                Some(field) => field.info.detected_first_field && last_of_order(
                    fdoffset,
                    events,
                    true,
                    field,
                ),
                None => none_out_behind(fdoffset, events, true, -1),
            }
            &&& match state.last_second {
                Some(field) => !field.info.detected_first_field && last_of_order(
                    fdoffset,
                    events,
                    false,
                    field,
                ),
                None => none_out_behind(fdoffset, events, false, -1),
            }
            &&& state.fields.len() == fields.len()
            &&& fields.len() > 0 ==> state.last_first is Some
        }),
    decreases events.len(),
{
    if events.len() > 0 {
        let earlier = events.drop_last();
        law_kept_fields(fdoffset, earlier);
        let (state, before) = decoder::history(fdoffset, earlier);
        let (after, fields) = decoder::history(fdoffset, events);
        let last = events.len() - 1;
        assert(events.take(last) =~= earlier);
        assert(events.take(last + 1) =~= events);
        assert(came_out(fdoffset, events, last) == fields.len() - before.len());
        lemma_kept(fdoffset, events, true, state.last_first, after.last_first);
        lemma_kept(fdoffset, events, false, state.last_second, after.last_second);
    }
}

/// What a decode puts out for a field: nothing, the field itself, or before it one
/// again that came before. What comes last is always the field itself, with the next
/// running number, and a field that comes again is of the other order as it was found,
/// with none of that order that came out behind it.
pub proof fn law_repeated_field(
    fdoffset: u64,
    events: Seq<Event>,
    report: FieldReport,
    action: FieldOrderAction,
    luma: LumaView,
    chroma: Option<Seq<u16>>,
)
    requires
        decoder::history(fdoffset, events).0.fields.len() < usize::MAX,
    ensures
        ({
            let (state, fields) = decoder::history(fdoffset, events);
            let (after, output) = state.placed(report, action, luma, chroma);
            &&& output.len() <= 2
            &&& output.len() > 0 ==> {
                &&& holds(output[output.len() - 1], report, luma, chroma)
                &&& output[output.len() - 1].info.seq_no == fields.len() + 1
                &&& output[output.len() - 1].info.is_duplicate_field == (output.len() == 2)
                &&& report.field_phase_id is None ==> output[output.len()
                    - 1].info.field_phase_id == decoder::sequence_phase_id(
                    report.detected_first_field,
                    fields.len() as int + 1,
                )
            }
            &&& output.len() == 2 ==> {
                &&& output[0].info.detected_first_field != output[1].info.detected_first_field
                &&& output[0].info.detected_first_field != report.detected_first_field
                &&& last_of_order(
                    fdoffset,
                    events,
                    !report.detected_first_field,
                    output[0],
                )
            }
        }),
{
    law_kept_fields(fdoffset, events);
}

/// Whether the field before was put out with this order.
pub open spec fn out_of_order(fields: Seq<InfoView>, first: bool) -> bool {
    fields.len() > 0 && fields[fields.len() - 1].is_first_field == first
}

/// That the last two fields that came out were found to be of this order, as in
/// progressive content.
pub open spec fn same_order_thrice(fields: Seq<InfoView>, first: bool) -> bool {
    &&& fields[fields.len() - 1].detected_first_field == first
    &&& first == (fields.len() > 1 && fields[fields.len() - 2].detected_first_field)
}

/// That a distance, a double, is one field or nearly so: from 0.9 to 1.1.
pub open spec fn about_one_field(distance: u64) -> bool {
    0x3fec_cccc_cccc_cccd <= distance <= 0x3ff1_9999_9999_999a
}

/// That a distance is more than 1.1 fields: one is missing.
pub open spec fn field_missing(distance: u64) -> bool {
    0x3ff1_9999_9999_999a < distance <= 0x7ff0_0000_0000_0000
}

/// That a distance is less than 0.9 fields: one is too many.
pub open spec fn field_too_many(distance: u64) -> bool {
    distance < 0x3fec_cccc_cccc_cccd || 0x8000_0000_0000_0000 <= distance
        <= 0xfff0_0000_0000_0000
}

/// That a field is put out alone, with this order, fault and confidence.
pub open spec fn alone(
    output: Seq<FieldView>,
    is_first_field: bool,
    fault: Option<i64>,
    sync_conf: i64,
) -> bool {
    &&& output.len() == 1
    &&& output[0].info.is_first_field == is_first_field
    &&& output[0].info.decode_faults == fault
    &&& output[0].info.sync_conf == sync_conf
}

/// What comes out for a field of the same order as the one before it. It is turned
/// round in progressive content, or where nothing is to be done about it; else it is
/// put out behind one of the other order again or dropped: always the former or the
/// latter where that was asked for, or by its distance, and, where that does not tell,
/// in turn. A field of the other order comes out as it was found. Nothing comes out
/// before a first field.
pub proof fn law_out_of_order(
    state: DecoderView,
    report: FieldReport,
    action: FieldOrderAction,
    luma: LumaView,
    chroma: Option<Seq<u16>>,
)
    ensures
        ({
            let (after, output) = state.placed(report, action, luma, chroma);
            let first = report.detected_first_field;
            let other = if first {
                state.last_second
            } else {
                state.last_first
            };
            let turned = same_order_thrice(state.fields, first) && about_one_field(report.distance);
            let again = match action {
                FieldOrderAction::Duplicate => true,
                FieldOrderAction::Drop => false,
                FieldOrderAction::Detect => field_missing(report.distance) || (!field_too_many(
                    report.distance,
                ) && !state.duplicate_prev_field),
                FieldOrderAction::Nothing => state.duplicate_prev_field,
            };
            if state.fields.len() == 0 && !first {
                output.len() == 0 && after == state
            } else if !out_of_order(state.fields, first) {
                &&& alone(output, first, None, report.sync_conf)
                &&& after.duplicate_prev_field == state.duplicate_prev_field
                &&& after.seen_first_field == (state.seen_first_field || first)
            } else if turned {
                &&& alone(output, !first, Some(1), 10)
                &&& after.duplicate_prev_field == state.duplicate_prev_field
                &&& after.seen_first_field == state.seen_first_field
            } else {
                &&& after.duplicate_prev_field == again
                &&& after.seen_first_field == state.seen_first_field
                &&& action == FieldOrderAction::Nothing ==> alone(output, !first, Some(4), 0)
                &&& action != FieldOrderAction::Nothing && !again ==> output.len() == 0
                    && after.last_first == state.last_first && after.last_second
                    == state.last_second
                &&& action != FieldOrderAction::Nothing && again && other is Some ==> {
                    &&& output.len() == 2
                    &&& output[0] == other->0
                    &&& output[1].info.is_first_field == first
                    &&& output[1].info.decode_faults == Some(4i64)
                    &&& output[1].info.sync_conf == 0
                }
                &&& action != FieldOrderAction::Nothing && again && other is None ==> output.len()
                    == 0
            }
        }),
{
    let distance = report.distance;
    assert(ieee::between_double(distance, decoder::NEAR, decoder::FAR) == about_one_field(
        distance,
    ));
    assert(ieee::lt_double(decoder::FAR, distance) == field_missing(distance));
    assert(ieee::lt_double(distance, decoder::NEAR) == field_too_many(distance));
}

/// The numbers in the colour sequence run from one to four: fields that alternate from
/// a first field on have them in turn, and every field has that of the one four fields
/// before. First fields have the odd numbers and others the even ones.
pub proof fn law_colour_sequence(first_field: bool, seq_no: int)
    requires
        seq_no >= 1,
    ensures
        ({
            let id = decoder::sequence_phase_id(first_field, seq_no);
            &&& first_field == (seq_no % 2 == 1) ==> id == (seq_no - 1) % 4 + 1
            &&& id == decoder::sequence_phase_id(first_field, seq_no + 4)
            &&& (id - decoder::sequence_phase_id(first_field, seq_no + 2)) % 4 == 2
            &&& 1 <= id <= 4
            &&& (id % 2 == 1) == first_field
        }),
{
}

/// A place is moved by as many samples as asked for, both ways, and never out of the
/// input: the moves back and forth cancel out where neither meets an end.
pub proof fn law_moved(place: int, advance: int)
    requires
        0 <= place <= u64::MAX,
    ensures
        0 <= decoder::moved(place, advance) <= u64::MAX,
        0 <= place + advance <= u64::MAX ==> decoder::moved(place, advance) - place == advance
            && decoder::moved(decoder::moved(place, advance), -advance) == place,
        place + advance < 0 ==> decoder::moved(place, advance) == 0,
        place + advance > u64::MAX ==> decoder::moved(place, advance) == u64::MAX,
{
}

/// A decode begins at its offset with nothing read and nothing put out, as if a missing field
/// had just been made up for: the first field out of order that its distance tells nothing of
/// is dropped.
pub proof fn law_begins(
    fdoffset: u64,
    first: FieldReport,
    report: FieldReport,
    action: FieldOrderAction,
    luma: LumaView,
    chroma: Option<Seq<u16>>,
)
    ensures
        ({
            let (state, fields) = decoder::history(fdoffset, Seq::empty());
            let begun = state.placed(first, action, luma, chroma).0;
            let (after, output) = begun.placed(report, FieldOrderAction::Detect, luma, chroma);
            &&& state.fdoffset == fdoffset
            &&& !state.has_pending && !state.seen_first_field
            &&& state.fields.len() == 0 && fields.len() == 0
            &&& state.last_first is None && state.last_second is None
            &&& first.detected_first_field && report.detected_first_field && about_one_field(
                report.distance,
            ) ==> output.len() == 0 && !after.duplicate_prev_field
        }),
{
    let begun = decoder::fresh(fdoffset).placed(first, action, luma, chroma).0;
    law_out_of_order(decoder::fresh(fdoffset), first, action, luma, chroma);
    if first.detected_first_field {
        lemma_placed_first(fdoffset, first, action, luma, chroma);
    }
    law_out_of_order(begun, report, FieldOrderAction::Detect, luma, chroma);
}

proof fn lemma_placed_first(
    fdoffset: u64,
    first: FieldReport,
    action: FieldOrderAction,
    luma: LumaView,
    chroma: Option<Seq<u16>>,
)
    requires
        first.detected_first_field,
    ensures
        ({
            let begun = decoder::fresh(fdoffset).placed(first, action, luma, chroma).0;
            &&& begun.fields.len() == 1
            &&& begun.fields[0].is_first_field && begun.fields[0].detected_first_field
        }),
{
}

/// What a turn does: the first one only reads; any later one puts out the field that was read
/// before if it could be decoded, and passes it over if it could not; and the decode pauses
/// where none waits. Reading leaves all but the place of the next field alone, which moves by
/// as much as the field asks for.
pub proof fn law_turns(state: DecoderView, pending: Option<bool>, advance: Option<i64>)
    ensures
        ({
            let after = state.turn(pending).followed();
            let read = state.read_on(advance);
            &&& after is Place <==> state.has_pending && pending == Some(true)
            &&& after is Finish <==> state.has_pending && pending is None
            &&& after is Again <==> !state.has_pending || pending == Some(false)
            &&& read.has_pending
            &&& read.fields == state.fields && read.seen_first_field == state.seen_first_field
            &&& read.duplicate_prev_field == state.duplicate_prev_field
            &&& read.last_first == state.last_first && read.last_second == state.last_second
            &&& advance is None ==> read.fdoffset == state.fdoffset
            &&& advance is Some && 0 <= state.fdoffset + advance->0 <= u64::MAX ==> read.fdoffset
                == state.fdoffset + advance->0
        }),
{
}

} // verus!
