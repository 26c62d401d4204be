//! The course of a decode: which input a field is read from, in which order the
//! fields come out, and what is told of them. Numbers with a fraction are held as
//! their bit patterns.
use std::sync::Arc;

use vstd::prelude::*;

use crate::ieee;
use crate::ieee::{inrange, less_double};
use crate::phase::field_phase_id;
use crate::request::{ColorSystem, FieldOrderAction, LineSystem};
use crate::spec::{BLOCKCUT, BLOCKSIZE};

verus! {

/// What demodulates the blocks.
#[derive(Clone, Copy, Debug, PartialEq, Eq, Structural)]
pub enum DecodeBackend {
    Cpu,
    /// A CUDA device. Asking for one where CUDA is not built in is an error.
    Cuda { device_ordinal: usize },
}

impl Default for DecodeBackend {
    fn default() -> (backend: DecodeBackend)
        ensures
            backend == DecodeBackend::Cpu,
    {
        DecodeBackend::Cpu
    }
}

/// A CUDA device was asked for where CUDA is not built in.
#[derive(Clone, Copy, Debug, PartialEq, Eq, Structural)]
pub struct BackendMissing;

impl BackendMissing {
    /// The message of the error.
    pub fn message(self) -> (text: String)
        ensures
            text@
                == "CUDA backend requested, but this build was compiled without the `cuda` feature"@,
    {
        "CUDA backend requested, but this build was compiled without the `cuda` feature".to_owned()
    }
}

/// The luma of a field.
pub enum LumaOutput {
    Encoded(Vec<u16>),
    /// Singles.
    Raw(Vec<u32>),
}

/// The luma of a field.
#[verifier::ext_equal]
pub enum LumaView {
    Encoded(Seq<u16>),
    Raw(Seq<u32>),
}

impl View for LumaOutput {
    type V = LumaView;

    open spec fn view(&self) -> LumaView {
        match self {
            LumaOutput::Encoded(values) => LumaView::Encoded(values@),
            LumaOutput::Raw(values) => LumaView::Raw(values@),
        }
    }
}

/// Signal-to-noise ratios of a field, doubles, where they could be measured.
#[derive(Clone, Copy, Debug, PartialEq, Eq, Structural)]
pub struct VitsMetrics {
    pub w_snr: Option<u64>,
    pub b_psnr: Option<u64>,
}

/// Where the signal of a field dropped out.
pub struct DropOuts {
    pub field_line: Vec<usize>,
    pub startx: Vec<usize>,
    pub endx: Vec<usize>,
}

/// Where the signal of a field dropped out.
#[verifier::ext_equal]
pub struct DropOutsView {
    pub field_line: Seq<usize>,
    pub startx: Seq<usize>,
    pub endx: Seq<usize>,
}

impl View for DropOuts {
    type V = DropOutsView;

    open spec fn view(&self) -> DropOutsView {
        DropOutsView {
            field_line: self.field_line@,
            startx: self.startx@,
            endx: self.endx@,
        }
    }
}

impl Clone for DropOuts {
    fn clone(&self) -> (copy: DropOuts)
        ensures
            copy@ == self@,
    {
        let copy = DropOuts {
            field_line: self.field_line.clone(),
            startx: self.startx.clone(),
            endx: self.endx.clone(),
        };
        proof {
            assert(copy@ =~= self@);
        }
        copy
    }
}

/// The drop-outs of a field, none where there are none.
pub fn drop_outs(field_line: Vec<usize>, startx: Vec<usize>, endx: Vec<usize>) -> (found: Option<
    DropOuts,
>)
    ensures
        match found {
            Some(found) => field_line@.len() > 0 && found@ == (DropOutsView {
                field_line: field_line@,
                startx: startx@,
                endx: endx@,
            }),
            None => field_line@.len() == 0,
        },
{
    if field_line.len() > 0 {
        Some(DropOuts { field_line, startx, endx })
    } else {
        None
    }
}

/// What is told of a field.
pub struct FieldInfoEntry {
    pub is_first_field: bool,
    pub detected_first_field: bool,
    pub is_duplicate_field: bool,
    pub sync_conf: i64,
    pub seq_no: usize,
    /// Where it was read, in fields, a single.
    pub disk_loc: u32,
    /// Where it was read, in samples.
    pub file_loc: u64,
    pub field_phase_id: i64,
    pub vits_metrics: VitsMetrics,
    pub drop_outs: Option<DropOuts>,
    pub decode_faults: Option<i64>,
}

/// What is told of a field.
#[verifier::ext_equal]
pub struct InfoView {
    pub is_first_field: bool,
    pub detected_first_field: bool,
    pub is_duplicate_field: bool,
    pub sync_conf: i64,
    pub seq_no: usize,
    pub disk_loc: u32,
    pub file_loc: u64,
    pub field_phase_id: i64,
    pub vits_metrics: VitsMetrics,
    pub drop_outs: Option<DropOutsView>,
    pub decode_faults: Option<i64>,
}

/// What drop-outs that may be missing hold.
pub open spec fn drop_outs_view(drop_outs: Option<DropOuts>) -> Option<DropOutsView> {
    match drop_outs {
        Some(drop_outs) => Some(drop_outs@),
        None => None,
    }
}

impl View for FieldInfoEntry {
    type V = InfoView;

    open spec fn view(&self) -> InfoView {
        InfoView {
            is_first_field: self.is_first_field,
            detected_first_field: self.detected_first_field,
            is_duplicate_field: self.is_duplicate_field,
            sync_conf: self.sync_conf,
            seq_no: self.seq_no,
            disk_loc: self.disk_loc,
            file_loc: self.file_loc,
            field_phase_id: self.field_phase_id,
            vits_metrics: self.vits_metrics,
            drop_outs: drop_outs_view(self.drop_outs),
            decode_faults: self.decode_faults,
        }
    }
}

impl Clone for FieldInfoEntry {
    fn clone(&self) -> (copy: FieldInfoEntry)
        ensures
            copy@ == self@,
    {
        let drop_outs: Option<DropOuts> = match &self.drop_outs {
            Some(drop_outs) => Some(drop_outs.clone()),
            None => None,
        };
        FieldInfoEntry {
            is_first_field: self.is_first_field,
            detected_first_field: self.detected_first_field,
            is_duplicate_field: self.is_duplicate_field,
            sync_conf: self.sync_conf,
            seq_no: self.seq_no,
            disk_loc: self.disk_loc,
            file_loc: self.file_loc,
            field_phase_id: self.field_phase_id,
            vits_metrics: self.vits_metrics,
            drop_outs,
            decode_faults: self.decode_faults,
        }
    }
}

struct WriteablePicture {
    luma: LumaOutput,
    chroma: Option<Vec<u16>>,
}

/// A field that is put out.
pub struct WriteableField {
    pub info: FieldInfoEntry,
    picture: Arc<WriteablePicture>,
    /// The number in the colour sequence that the signal gave, where the one in
    /// `info` does not come from the running number of the field.
    pub field_phase_id_raw: Option<i64>,
}

/// A field that is put out.
#[verifier::ext_equal]
pub struct FieldView {
    pub info: InfoView,
    pub luma: LumaView,
    pub chroma: Option<Seq<u16>>,
    pub field_phase_id_raw: Option<i64>,
}

/// What a chroma that may be missing holds.
pub open spec fn chroma_view(chroma: Option<Vec<u16>>) -> Option<Seq<u16>> {
    match chroma {
        Some(chroma) => Some(chroma@),
        None => None,
    }
}

impl View for WriteableField {
    type V = FieldView;

    closed spec fn view(&self) -> FieldView {
        FieldView {
            info: self.info@,
            luma: self.picture.luma@,
            chroma: chroma_view(self.picture.chroma),
            field_phase_id_raw: self.field_phase_id_raw,
        }
    }
}

impl Clone for WriteableField {
    fn clone(&self) -> (copy: WriteableField)
        ensures
            copy@ == self@,
    {
        WriteableField {
            info: self.info.clone(),
            picture: self.picture.clone(),
            field_phase_id_raw: self.field_phase_id_raw,
        }
    }
}

impl WriteableField {
    fn new(
        info: FieldInfoEntry,
        luma: LumaOutput,
        chroma: Option<Vec<u16>>,
        field_phase_id_raw: Option<i64>,
    ) -> (field: WriteableField)
        ensures
            field@ == (FieldView {
                info: info@,
                luma: luma@,
                chroma: chroma_view(chroma),
                field_phase_id_raw,
            }),
    {
        WriteableField {
            info,
            picture: Arc::new(WriteablePicture { luma, chroma }),
            field_phase_id_raw,
        }
    }

    /// The luma.
    pub fn luma(&self) -> (luma: &LumaOutput)
        ensures
            luma@ == self@.luma,
    {
        &self.picture.luma
    }

    /// The chroma, where there is any.
    pub fn chroma(&self) -> (chroma: Option<&[u16]>)
        ensures
            match chroma {
                Some(chroma) => self@.chroma == Some(chroma@),
                None => self@.chroma is None,
            },
    {
        match &self.picture.chroma {
            Some(chroma) => Some(chroma.as_slice()),
            None => None,
        }
    }
}

/// What is told of a decode.
#[derive(Clone, Copy, Debug)]
pub struct DecoderMetadata {
    pub system: &'static str,
    pub field_width: usize,
    /// A double, as are the two levels.
    pub sample_rate: u64,
    pub black_16b_ire: u64,
    pub white_16b_ire: u64,
    pub field_height: usize,
    pub colour_burst_start: i64,
    pub colour_burst_end: i64,
    pub active_video_start: i64,
    pub active_video_end: i64,
}

/// What a video system is called.
pub open spec fn system_name(frame_lines: LineSystem, color: ColorSystem) -> Seq<char> {
    if frame_lines == LineSystem::Line525 {
        if color == ColorSystem::Pal {
            "PAL-M"@
        } else {
            "NTSC"@
        }
    } else {
        "PAL"@
    }
}

/// What a video system is called.
pub fn name_system(frame_lines: LineSystem, color: ColorSystem) -> (name: &'static str)
    ensures
        name@ == system_name(frame_lines, color),
{
    match (frame_lines, color) {
        (LineSystem::Line525, ColorSystem::Pal) => "PAL-M",
        (LineSystem::Line525, _) => "NTSC",
        _ => "PAL",
    }
}

/// The input that a field needs.
pub struct Reach {
    pub readloc: int,
    /// The blocks from `first` up to `last`.
    pub first: int,
    pub last: int,
}

/// The input that a field needs that is read from `offset` on: whole blocks, of
/// which each yields `usable` samples.
pub open spec fn reach_of(offset: int, readlen: int, usable: int) -> Reach {
    let readloc = if offset - BLOCKCUT > 0 {
        offset - BLOCKCUT
    } else {
        0
    };
    let begin = (readloc / BLOCKSIZE as int) * BLOCKSIZE;
    let end = begin + (readlen / BLOCKSIZE as int + 2) * BLOCKSIZE;
    Reach { readloc, first: begin / usable, last: end / usable + 1 }
}

impl Reach {
    /// Where the input begins.
    pub open spec fn begin(self, usable: int) -> int {
        self.first * usable
    }

    /// Where it ends.
    pub open spec fn end(self, usable: int) -> int {
        (self.last - 1) * usable + BLOCKSIZE
    }
}

/// The blocks that are read for a field hold all of it.
pub proof fn law_read_covers_field(offset: int, readlen: int, usable: int)
    requires
        0 <= readlen,
        0 < usable <= BLOCKSIZE,
    ensures
        ({
            let reach = reach_of(offset, readlen, usable);
            &&& reach.first < reach.last
            &&& reach.begin(usable) <= reach.readloc
            &&& reach.readloc + readlen <= reach.end(usable)
        }),
{
    let reach = reach_of(offset, readlen, usable);
    let size = BLOCKSIZE as int;
    let begin = (reach.readloc / size) * size;
    let end = begin + (readlen / size + 2) * size;
    vstd::arithmetic::div_mod::lemma_fundamental_div_mod(reach.readloc, size);
    vstd::arithmetic::div_mod::lemma_fundamental_div_mod(readlen, size);
    vstd::arithmetic::div_mod::lemma_fundamental_div_mod(begin, usable);
    vstd::arithmetic::div_mod::lemma_fundamental_div_mod(end, usable);
    vstd::arithmetic::div_mod::lemma_div_is_ordered(begin, end, usable);
    assert((readlen / size + 2) * size == (readlen / size) * size + 2 * size) by (nonlinear_arith);
    assert((end / usable) * usable == usable * (end / usable)) by (nonlinear_arith);
    assert((begin / usable) * usable == usable * (begin / usable)) by (nonlinear_arith);
    assert(reach.last - 1 == end / usable);
}

/// The samples of a block among those that were read.
pub fn block_window(block: usize, usable: usize) -> (window: (usize, usize))
    requires
        block * usable + BLOCKSIZE <= usize::MAX,
    ensures
        window.0 == block * usable,
        window.1 == block * usable + BLOCKSIZE,
{
    proof {
        assert(0 <= block * usable) by (nonlinear_arith);
    }
    let start: usize = block * usable;
    (start, start + BLOCKSIZE)
}

/// What is read for a field.
#[derive(Clone, Copy, Debug, PartialEq, Eq, Structural)]
pub enum Read {
    /// More input is needed; what lies before `keep_from` no longer is.
    Wait { keep_from: u64 },
    /// These blocks: `start` is their place in the input, `first` and `end` their
    /// place in the window.
    Blocks { readloc: u64, start: u64, first: usize, end: usize, blocks: usize },
    /// Nothing: the input ends before.
    Short { readloc: u64 },
}

/// What is read for a field, given a window of `len` samples from `data_start` on
/// that is the last one or not.
pub open spec fn read_of(
    reach: Reach,
    usable: int,
    data_start: int,
    len: int,
    final_chunk: bool,
) -> Read {
    if reach.end(usable) <= data_start + len {
        Read::Blocks {
            readloc: reach.readloc as u64,
            start: reach.begin(usable) as u64,
            first: (reach.begin(usable) - data_start) as usize,
            end: (reach.end(usable) - data_start) as usize,
            blocks: (reach.last - reach.first) as usize,
        }
    } else if final_chunk {
        Read::Short { readloc: reach.readloc as u64 }
    } else {
        Read::Wait { keep_from: reach.begin(usable) as u64 }
    }
}

/// Whether a window begins too late for a read, and no later one could mend that:
/// more input is waited for where it may still come.
pub open spec fn late_for(
    reach: Reach,
    usable: int,
    data_start: int,
    len: int,
    final_chunk: bool,
) -> bool {
    reach.begin(usable) < data_start && (final_chunk || reach.end(usable) <= data_start + len)
}

/// A read that had to wait is resumed with the same input, whatever window holds
/// it: nothing before the place that was to be kept is needed, and any window that
/// begins there at the latest and holds enough gives the same samples of the input.
pub proof fn law_paused_read_resumes(
    reach: Reach,
    usable: int,
    paused: (int, int),
    data_start: int,
    len: int,
    final_chunk: bool,
)
    requires
        0 < usable,
        0 <= reach.readloc <= u64::MAX,
        0 <= reach.first < reach.last,
        0 <= reach.begin(usable) <= u64::MAX,
        0 <= data_start <= reach.begin(usable),
        0 <= len <= usize::MAX,
        read_of(reach, usable, paused.0, paused.1, false) is Wait,
    ensures
        read_of(reach, usable, paused.0, paused.1, false) == (Read::Wait {
            keep_from: reach.begin(usable) as u64,
        }),
        reach.end(usable) <= data_start + len ==> {
            let read = read_of(reach, usable, data_start, len, final_chunk);
            &&& read is Blocks
            &&& read->Blocks_readloc == reach.readloc
            &&& read->start == reach.begin(usable)
            &&& data_start + read->first == reach.begin(usable)
            &&& data_start + read->end == reach.end(usable)
        },
        data_start + len < reach.end(usable) && !final_chunk ==> read_of(
            reach,
            usable,
            data_start,
            len,
            final_chunk,
        ) == read_of(reach, usable, paused.0, paused.1, false),
{
    assert(reach.first * usable <= (reach.last - 1) * usable) by (nonlinear_arith)
        requires
            reach.first <= reach.last - 1,
            0 < usable,
    ;
}

/// A read that has to wait, however often, comes to the same samples as one window
/// that holds the whole input would give. Each window may drop what lies before
/// the place that the one before told to keep.
pub proof fn law_waiting_read_gives_same_samples(
    reach: Reach,
    usable: int,
    input: Seq<u32>,
    windows: Seq<(int, int)>,
)
    requires
        0 < usable,
        0 <= reach.readloc <= u64::MAX,
        0 <= reach.first < reach.last,
        input.len() <= usize::MAX,
        0 < windows.len(),
        forall|i: int|
            0 <= i < windows.len() ==> 0 <= (#[trigger] windows[i]).0 <= windows[i].1
                <= input.len(),
        windows[0].0 <= reach.begin(usable) <= u64::MAX,
        forall|i: int|
            0 < i < windows.len() ==> ({
                let before = read_of(
                    reach,
                    usable,
                    windows[i - 1].0,
                    windows[i - 1].1 - windows[i - 1].0,
                    false,
                );
                before is Wait && (#[trigger] windows[i]).0 <= before->keep_from
            }),
    ensures
        ({
            let (start, end) = windows.last();
            let read = read_of(reach, usable, start, end - start, end == input.len());
            let whole = read_of(reach, usable, 0, input.len() as int, true);
            match read {
                Read::Wait { keep_from } => keep_from == reach.begin(usable),
                Read::Blocks { readloc, start: place, first, end: stop, blocks } => {
                    &&& whole is Blocks
                    &&& whole->Blocks_readloc == readloc
                    &&& whole->start == place
                    &&& whole->blocks == blocks
                    &&& first < stop <= end - start
                    &&& input.subrange(start, end).subrange(first as int, stop as int)
                        == input.subrange(whole->first as int, whole->end as int)
                },
                Read::Short { .. } => whole == read,
            }
        }),
{
    let (start, end) = windows.last();
    assert(windows.last() == windows[windows.len() - 1]);
    lemma_reach_ordered(reach, usable);
    assert(start <= reach.begin(usable));
    let read = read_of(reach, usable, start, end - start, end == input.len());
    let whole = read_of(reach, usable, 0, input.len() as int, true);
    if read is Blocks {
        assert(input.subrange(start, end).subrange(read->first as int, read->end as int)
            =~= input.subrange(whole->first as int, whole->end as int));
    }
}

proof fn lemma_reach_ordered(reach: Reach, usable: int)
    requires
        0 < usable,
        0 <= reach.first < reach.last,
    ensures
        0 <= reach.begin(usable),
        reach.begin(usable) + BLOCKSIZE <= reach.end(usable),
{
    assert(0 <= reach.first * usable <= (reach.last - 1) * usable) by (nonlinear_arith)
        requires
            0 <= reach.first <= reach.last - 1,
            0 < usable,
    ;
}

/// What the next turn of a decode has to work on.
#[derive(Clone, Copy, Debug, PartialEq, Eq, Structural)]
pub enum Turn {
    /// Nothing yet.
    Start,
    /// The field that was read in the turn before.
    Field { valid: bool },
    /// Nothing any more.
    Ended,
}

/// What follows a turn.
#[derive(Clone, Copy, Debug, PartialEq, Eq, Structural)]
pub enum AfterTurn {
    /// Another turn.
    Again,
    /// The field is put out.
    Place,
    /// The decode pauses.
    Finish,
}

impl Turn {
    /// What follows the turn: a field is put out if it could be decoded.
    pub open spec fn followed(self) -> AfterTurn {
        match self {
            Turn::Start => AfterTurn::Again,
            Turn::Field { valid } => if valid {
                AfterTurn::Place
            } else {
                AfterTurn::Again
            },
            Turn::Ended => AfterTurn::Finish,
        }
    }

    /// What follows the turn.
    pub fn after(self) -> (after: AfterTurn)
        ensures
            after == self.followed(),
    {
        match self {
            Turn::Start => AfterTurn::Again,
            Turn::Field { valid } => if valid {
                AfterTurn::Place
            } else {
                AfterTurn::Again
            },
            Turn::Ended => AfterTurn::Finish,
        }
    }
}

/// The double 0.9.
pub const NEAR: u64 = 0x3fec_cccc_cccc_cccd;

/// The double 1.1.
pub const FAR: u64 = 0x3ff1_9999_9999_999a;

/// The fault of a field whose order was turned round.
pub const FAULT_PROGRESSIVE: i64 = 1;

/// The fault of a field before which one is missing.
pub const FAULT_SKIPPED: i64 = 4;

/// What is made of a field by its order.
#[derive(Clone, Copy, Debug, PartialEq, Eq, Structural)]
pub struct Verdict {
    pub is_first_field: bool,
    /// Whether the field before is put out again.
    pub is_duplicate_field: bool,
    /// Whether the field is put out at all.
    pub written: bool,
    /// How sure it is that the field is in order, where that is not by its lines.
    pub sync_conf: Option<i64>,
    pub decode_faults: Option<i64>,
    /// Whether a missing field was last made up for by one that was put out again.
    pub duplicate_prev_field: bool,
}

/// What is made of a field that was taken for a first one or not, `distance`
/// fields (a double) after the one before. Fields must alternate; where two in a
/// row have the same order, one is missing or the content is progressive.
pub open spec fn verdict_of(
    fields: Seq<InfoView>,
    duplicate_prev_field: bool,
    detected: bool,
    distance: u64,
    action: FieldOrderAction,
) -> Verdict {
    let plain = Verdict {
        is_first_field: detected,
        is_duplicate_field: false,
        written: true,
        sync_conf: None,
        decode_faults: None,
        duplicate_prev_field,
    };
    if fields.len() == 0 || fields.last().is_first_field != detected {
        plain
    } else {
        let before = fields.last().detected_first_field;
        let two_before = fields.len() > 1 && fields[fields.len() - 2].detected_first_field;
        if before == detected && two_before == before && ieee::between_double(
            distance,
            NEAR,
            FAR,
        ) {
            Verdict {
                is_first_field: !detected,
                sync_conf: Some(10),
                decode_faults: Some(FAULT_PROGRESSIVE),
                ..plain
            }
        } else {
            let again = match action {
                FieldOrderAction::Duplicate => true,
                FieldOrderAction::Drop => false,
                FieldOrderAction::Detect => if ieee::lt_double(FAR, distance) {
                    true
                } else if ieee::lt_double(distance, NEAR) {
                    false
                } else {
                    !duplicate_prev_field
                },
                FieldOrderAction::Nothing => duplicate_prev_field,
            };
            let skipped = Verdict {
                sync_conf: Some(0),
                decode_faults: Some(FAULT_SKIPPED),
                duplicate_prev_field: again,
                ..plain
            };
            if action == FieldOrderAction::Nothing {
                Verdict { is_first_field: !detected, ..skipped }
            } else if again {
                Verdict { is_duplicate_field: true, ..skipped }
            } else {
                Verdict { written: false, ..skipped }
            }
        }
    }
}

/// A field that is put out by itself has another order than the one before.
pub proof fn law_fields_alternate(
    fields: Seq<InfoView>,
    duplicate_prev_field: bool,
    detected: bool,
    distance: u64,
    action: FieldOrderAction,
)
    requires
        fields.len() > 0,
    ensures
        ({
            let verdict = verdict_of(fields, duplicate_prev_field, detected, distance, action);
            verdict.written && !verdict.is_duplicate_field ==> verdict.is_first_field
                != fields.last().is_first_field
        }),
{
}

/// A fault is told of exactly those fields that have the order of the one before.
pub proof fn law_faults(
    fields: Seq<InfoView>,
    duplicate_prev_field: bool,
    detected: bool,
    distance: u64,
    action: FieldOrderAction,
)
    ensures
        ({
            let verdict = verdict_of(fields, duplicate_prev_field, detected, distance, action);
            &&& verdict.decode_faults is Some <==> fields.len() > 0 && fields.last().is_first_field
                == detected
            &&& verdict.is_duplicate_field || !verdict.written ==> verdict.decode_faults == Some(
                FAULT_SKIPPED,
            )
        }),
{
}

/// What was measured of a field.
pub struct FieldReport {
    /// Whether it was taken for a first field.
    pub detected_first_field: bool,
    /// How many fields (a double) it lies after the one before.
    pub distance: u64,
    pub sync_conf: i64,
    pub disk_loc: u32,
    pub file_loc: u64,
    /// Its number in the colour sequence, where the signal gives it.
    pub field_phase_id: Option<i64>,
    pub vits_metrics: VitsMetrics,
    pub drop_outs: Option<DropOuts>,
}

/// What is told of a field.
pub open spec fn info_of(report: FieldReport, verdict: Verdict, seq_no: nat) -> InfoView {
    InfoView {
        is_first_field: verdict.is_first_field,
        detected_first_field: report.detected_first_field,
        is_duplicate_field: verdict.is_duplicate_field,
        sync_conf: match verdict.sync_conf {
            Some(conf) => conf,
            None => report.sync_conf,
        },
        seq_no: seq_no as usize,
        disk_loc: report.disk_loc,
        file_loc: report.file_loc,
        field_phase_id: match report.field_phase_id {
            Some(id) => id,
            None => sequence_phase_id(report.detected_first_field, seq_no as int) as i64,
        },
        vits_metrics: report.vits_metrics,
        drop_outs: drop_outs_view(report.drop_outs),
        decode_faults: verdict.decode_faults,
    }
}

/// The number in the colour sequence by the running number of a field.
pub open spec fn sequence_phase_id(first_field: bool, seq_no: int) -> int {
    if first_field {
        if (seq_no / 2) % 2 == 0 {
            1
        } else {
            3
        }
    } else if (seq_no / 2) % 2 == 0 {
        4
    } else {
        2
    }
}

/// The state of a decode.
#[verifier::ext_equal]
pub struct DecoderView {
    pub fdoffset: u64,
    pub has_pending: bool,
    /// The fields that were put out.
    pub fields: Seq<InfoView>,
    pub seen_first_field: bool,
    pub duplicate_prev_field: bool,
    /// The last field that was not a first one, and the last that was.
    pub last_second: Option<FieldView>,
    pub last_first: Option<FieldView>,
}

impl DecoderView {
    /// What the next turn works on, given whether a field waits and whether it
    /// could be decoded.
    pub open spec fn turn(self, pending: Option<bool>) -> Turn {
        if !self.has_pending {
            Turn::Start
        } else {
            match pending {
                Some(valid) => Turn::Field { valid },
                None => Turn::Ended,
            }
        }
    }

    /// A turn's input read; where the turn had a field, the next one begins
    /// `advance` samples further on.
    pub open spec fn read_on(self, advance: Option<i64>) -> DecoderView {
        DecoderView {
            has_pending: true,
            fdoffset: match advance {
                Some(advance) => moved(self.fdoffset as int, advance as int) as u64,
                None => self.fdoffset,
            },
            ..self
        }
    }

    /// A field put out: which fields come out, and the state after it.
    pub open spec fn placed(
        self,
        report: FieldReport,
        action: FieldOrderAction,
        luma: LumaView,
        chroma: Option<Seq<u16>>,
    ) -> (DecoderView, Seq<FieldView>) {
        let detected = report.detected_first_field;
        if self.fields.len() == 0 && !detected {
            (self, Seq::empty())
        } else {
            let verdict = verdict_of(
                self.fields,
                self.duplicate_prev_field,
                detected,
                report.distance,
                action,
            );
            let judged = DecoderView {
                duplicate_prev_field: verdict.duplicate_prev_field,
                seen_first_field: self.seen_first_field || (detected && verdict.decode_faults
                    is None),
                ..self
            };
            let field = FieldView {
                info: info_of(report, verdict, self.fields.len() + 1),
                luma,
                chroma,
                field_phase_id_raw: report.field_phase_id,
            };
            let other = if detected {
                self.last_second
            } else {
                self.last_first
            };
            if !verdict.written {
                (judged, Seq::empty())
            } else {
                let kept = DecoderView {
                    last_first: if detected {
                        Some(field)
                    } else {
                        self.last_first
                    },
                    last_second: if detected {
                        self.last_second
                    } else {
                        Some(field)
                    },
                    ..judged
                };
                if !verdict.is_duplicate_field {
                    (
                        DecoderView { fields: self.fields.push(field.info), ..kept },
                        seq![field],
                    )
                } else {
                    match other {
                        Some(other) => (
                            DecoderView {
                                fields: self.fields.push(other.info).push(field.info),
                                ..kept
                            },
                            seq![other, field],
                        ),
                        None => (kept, Seq::empty()),
                    }
                }
            }
        }
    }
}

/// What comes out is told of, in the order in which it comes out.
pub proof fn law_placed_fields_recorded(
    state: DecoderView,
    report: FieldReport,
    action: FieldOrderAction,
    luma: LumaView,
    chroma: Option<Seq<u16>>,
)
    ensures
        ({
            let (after, output) = state.placed(report, action, luma, chroma);
            after.fields == state.fields + output.map_values(|field: FieldView| field.info)
        }),
{
    let (after, output) = state.placed(report, action, luma, chroma);
    assert(after.fields =~= state.fields + output.map_values(|field: FieldView| field.info));
}

/// The first field that comes out is a first field.
pub proof fn law_starts_with_first_field(
    state: DecoderView,
    report: FieldReport,
    action: FieldOrderAction,
    luma: LumaView,
    chroma: Option<Seq<u16>>,
)
    requires
        state.fields.len() == 0,
    ensures
        ({
            let (after, output) = state.placed(report, action, luma, chroma);
            output.len() > 0 ==> output[0].info.is_first_field
                && output[0].info.detected_first_field
        }),
{
}

/// What changes the state of a decode.
pub enum Event {
    /// A turn's input was read.
    Read { advance: Option<i64> },
    /// A field was put out.
    Placed {
        report: FieldReport,
        action: FieldOrderAction,
        luma: LumaView,
        chroma: Option<Seq<u16>>,
    },
}

/// What a decode from `fdoffset` on has come to: its state, and all the fields that
/// came out, in order.
pub open spec fn history(fdoffset: u64, events: Seq<Event>) -> (DecoderView, Seq<FieldView>)
    decreases events.len(),
{
    if events.len() == 0 {
        (fresh(fdoffset), Seq::empty())
    } else {
        let (state, fields) = history(fdoffset, events.drop_last());
        match events.last() {
            Event::Read { advance } => (state.read_on(advance), fields),
            Event::Placed { report, action, luma, chroma } => {
                let (after, output) = state.placed(report, action, luma, chroma);
                (after, fields + output)
            },
        }
    }
}

/// That what is told of a field agrees with itself: its fault with its order and
/// with how sure it is.
pub open spec fn consistent(info: InfoView) -> bool {
    &&& match info.decode_faults {
        None => info.is_first_field == info.detected_first_field,
        Some(fault) => {
            ||| fault == FAULT_SKIPPED && info.sync_conf == 0
            ||| fault == FAULT_PROGRESSIVE && info.sync_conf == 10 && info.is_first_field
                != info.detected_first_field
        },
    }
    &&& info.is_duplicate_field ==> info.decode_faults == Some(FAULT_SKIPPED)
}

/// Of every field that a decode ever puts out: it has no fault, or was turned round
/// or comes after a missing one; a fault of either kind sets how sure it is; the
/// order of a field without one is the one that was found, and that of one that
/// was turned round is the other; and one that another was put out again for comes
/// after a missing one. The same holds of the fields that are kept to be put out
/// again. All that came out is recorded in order, and the first of it is a first
/// field.
pub proof fn law_every_field_consistent(fdoffset: u64, events: Seq<Event>)
    ensures
        ({
            let (state, fields) = history(fdoffset, events);
            &&& forall|i: int| 0 <= i < fields.len() ==> consistent((#[trigger] fields[i]).info)
            &&& fields.len() > 0 ==> fields[0].info.is_first_field
                && fields[0].info.detected_first_field
            &&& state.fields == fields.map_values(|field: FieldView| field.info)
            &&& state.last_first is Some ==> consistent(state.last_first->0.info)
            &&& state.last_second is Some ==> consistent(state.last_second->0.info)
        }),
    decreases events.len(),
{
    if events.len() == 0 {
        assert(Seq::<InfoView>::empty() =~= Seq::<FieldView>::empty().map_values(
            |field: FieldView| field.info,
        ));
    } else {
        law_every_field_consistent(fdoffset, events.drop_last());
        let (state, before) = history(fdoffset, events.drop_last());
        let (after, fields) = history(fdoffset, events);
        match events.last() {
            Event::Read { .. } => {},
            Event::Placed { report, action, luma, chroma } => {
                law_placed_fields_recorded(state, report, action, luma, chroma);
                let output = state.placed(report, action, luma, chroma).1;
                assert forall|i: int| 0 <= i < fields.len() implies consistent(
                    (#[trigger] fields[i]).info,
                ) by {
                    if i < before.len() {
                        assert(fields[i] == before[i]);
                    } else {
                        assert(fields[i] == output[i - before.len()]);
                    }
                }
                assert(after.fields =~= fields.map_values(|field: FieldView| field.info));
            },
        }
    }
}

/// The state of a decode: how far the input has been read, and the fields that
/// came out.
pub struct Decoder {
    fdoffset: u64,
    has_pending: bool,
    fields: Vec<FieldInfoEntry>,
    seen_first_field: bool,
    duplicate_prev_field: bool,
    last_second: Option<WriteableField>,
    last_first: Option<WriteableField>,
}

/// What a field that may be missing holds.
pub open spec fn field_view(field: Option<WriteableField>) -> Option<FieldView> {
    match field {
        Some(field) => Some(field@),
        None => None,
    }
}

/// What a list of fields tells.
pub open spec fn infos(fields: Seq<FieldInfoEntry>) -> Seq<InfoView> {
    fields.map_values(|info: FieldInfoEntry| info@)
}

/// What a list of fields holds.
pub open spec fn field_views(fields: Seq<WriteableField>) -> Seq<FieldView> {
    fields.map_values(|field: WriteableField| field@)
}

impl View for Decoder {
    type V = DecoderView;

    closed spec fn view(&self) -> DecoderView {
        DecoderView {
            fdoffset: self.fdoffset,
            has_pending: self.has_pending,
            fields: infos(self.fields@),
            seen_first_field: self.seen_first_field,
            duplicate_prev_field: self.duplicate_prev_field,
            last_second: field_view(self.last_second),
            last_first: field_view(self.last_first),
        }
    }
}

/// The state before the first field.
pub open spec fn fresh(fdoffset: u64) -> DecoderView {
    DecoderView {
        fdoffset,
        has_pending: false,
        fields: Seq::empty(),
        seen_first_field: false,
        duplicate_prev_field: true,
        last_second: None,
        last_first: None,
    }
}

impl Decoder {
    /// A decode of the input from `fdoffset` on.
    pub fn new(fdoffset: u64) -> (decoder: Decoder)
        ensures
            decoder@ == fresh(fdoffset),
    {
        let decoder = Decoder {
            fdoffset,
            has_pending: false,
            fields: Vec::new(),
            seen_first_field: false,
            duplicate_prev_field: true,
            last_second: None,
            last_first: None,
        };
        proof {
            assert(decoder@ =~= fresh(fdoffset));
        }
        decoder
    }

    /// A decode of the input from `fdoffset` on, with a backend. Only where CUDA
    /// is built in can it be asked for.
    pub fn new_with_backend(fdoffset: u64, backend: DecodeBackend, cuda_built: bool) -> (result:
        Result<Decoder, BackendMissing>)
        ensures
            match result {
                Ok(decoder) => (backend is Cpu || cuda_built) && decoder@ == fresh(fdoffset),
                Err(_) => backend is Cuda && !cuda_built,
            },
    {
        match backend {
            DecodeBackend::Cpu => Ok(Decoder::new(fdoffset)),
            DecodeBackend::Cuda { .. } => if cuda_built {
                Ok(Decoder::new(fdoffset))
            } else {
                Err(BackendMissing)
            },
        }
    }

    /// How far the input has been read.
    pub fn offset(&self) -> (offset: u64)
        ensures
            offset == self@.fdoffset,
    {
        self.fdoffset
    }

    /// What the next turn works on, given whether a field waits and whether it
    /// could be decoded.
    pub fn turn(&self, pending: Option<bool>) -> (turn: Turn)
        ensures
            turn == self@.turn(pending),
    {
        if !self.has_pending {
            Turn::Start
        } else {
            match pending {
                Some(valid) => Turn::Field { valid },
                None => Turn::Ended,
            }
        }
    }

    /// Whether the input that is read next ends at a place that can be counted.
    pub fn within_places(&self, ahead: i64, readlen: usize, usable: usize) -> (within: bool)
        requires
            0 < usable <= BLOCKSIZE,
        ensures
            within == (reach_of(self@.fdoffset + ahead, readlen as int, usable as int).end(
                usable as int,
            ) <= u64::MAX),
    {
        proof {
            lemma_reach(self@.fdoffset + ahead, readlen as int, usable as int);
        }
        let place: i128 = self.fdoffset as i128 + ahead as i128 - BLOCKCUT as i128;
        let readloc: i128 = if place > 0 {
            place
        } else {
            0
        };
        let size: i128 = BLOCKSIZE as i128;
        let begin: i128 = (readloc / size) * size;
        let end: i128 = begin + (readlen as i128 / size + 2) * size;
        (end / usable as i128) * usable as i128 + size <= u64::MAX as i128
    }

    /// The place that is read from, the first block and the one after the last, and
    /// where they begin and end.
    fn reach(&self, ahead: i64, readlen: usize, usable: usize) -> (reach: (
        u64,
        u64,
        u64,
        u64,
        u64,
    ))
        requires
            0 < usable <= BLOCKSIZE,
            reach_of(self@.fdoffset + ahead, readlen as int, usable as int).end(usable as int)
                <= u64::MAX,
        ensures
            ({
                let expected = reach_of(self@.fdoffset + ahead, readlen as int, usable as int);
                &&& reach.0 == expected.readloc
                &&& reach.1 == expected.first
                &&& reach.2 == expected.last
                &&& reach.3 == expected.begin(usable as int)
                &&& reach.4 == expected.end(usable as int)
            }),
    {
        let ghost reach = reach_of(self@.fdoffset + ahead, readlen as int, usable as int);
        proof {
            law_read_covers_field(self@.fdoffset + ahead, readlen as int, usable as int);
            lemma_reach(self@.fdoffset + ahead, readlen as int, usable as int);
        }
        let place: i128 = self.fdoffset as i128 + ahead as i128 - BLOCKCUT as i128;
        let readloc: u64 = if place > 0 {
            place as u64
        } else {
            0
        };
        let size: u64 = BLOCKSIZE as u64;
        let begin: u64 = (readloc / size) * size;
        let end: u64 = begin + (readlen as u64 / size + 2) * size;
        let first_block: u64 = begin / usable as u64;
        let last_block: u64 = end / usable as u64 + 1;
        proof {
            assert(first_block == reach.first);
            assert(last_block == reach.last);
        }
        let start: u64 = first_block * usable as u64;
        let stop: u64 = (last_block - 1) * usable as u64 + size;
        (readloc, first_block, last_block, start, stop)
    }

    /// Whether a window begins too late for what is read next, and no later one
    /// could mend that: more input is waited for where it may still come.
    pub fn begins_late(
        &self,
        ahead: i64,
        readlen: usize,
        usable: usize,
        data_start: u64,
        len: usize,
        final_chunk: bool,
    ) -> (late: bool)
        requires
            0 < usable <= BLOCKSIZE,
            reach_of(self@.fdoffset + ahead, readlen as int, usable as int).end(usable as int)
                <= u64::MAX,
            data_start + len <= u64::MAX,
        ensures
            ({
                let reach = reach_of(self@.fdoffset + ahead, readlen as int, usable as int);
                late == late_for(
                    reach,
                    usable as int,
                    data_start as int,
                    len as int,
                    final_chunk,
                )
            }),
    {
        let (_, _, _, start, stop) = self.reach(ahead, readlen, usable);
        start < data_start && (final_chunk || stop <= data_start + len as u64)
    }

    /// What is read next: `ahead` samples after the place that the input has been
    /// read to. The state stays as it is, so that a read that has to wait is asked
    /// for again with more input.
    pub fn next_read(
        &self,
        ahead: i64,
        readlen: usize,
        usable: usize,
        data_start: u64,
        len: usize,
        final_chunk: bool,
    ) -> (read: Read)
        requires
            0 < usable <= BLOCKSIZE,
            reach_of(self@.fdoffset + ahead, readlen as int, usable as int).end(usable as int)
                <= u64::MAX,
            data_start + len <= u64::MAX,
            ({
                let reach = reach_of(self@.fdoffset + ahead, readlen as int, usable as int);
                !late_for(reach, usable as int, data_start as int, len as int, final_chunk)
            }),
        ensures
            read == read_of(
                reach_of(self@.fdoffset + ahead, readlen as int, usable as int),
                usable as int,
                data_start as int,
                len as int,
                final_chunk,
            ),
            read matches Read::Blocks { first, end, blocks, .. } ==> first < end <= len && blocks
                > 0 && end - first == (blocks - 1) * usable + BLOCKSIZE,
    {
        let ghost reach = reach_of(self@.fdoffset + ahead, readlen as int, usable as int);
        proof {
            law_read_covers_field(self@.fdoffset + ahead, readlen as int, usable as int);
            lemma_reach(self@.fdoffset + ahead, readlen as int, usable as int);
        }
        let (readloc, first_block, last_block, start, stop) = self.reach(ahead, readlen, usable);
        let window_end: u64 = data_start + len as u64;
        if stop <= window_end {
            proof {
                let more = reach.last - reach.first - 1;
                assert((reach.last - 1) * usable - reach.first * usable == more * usable)
                    by (nonlinear_arith)
                    requires
                        more == reach.last - reach.first - 1,
                ;
                assert(more <= more * usable) by (nonlinear_arith)
                    requires
                        0 <= more,
                        0 < usable,
                ;
            }
            Read::Blocks {
                readloc,
                start,
                first: (start - data_start) as usize,
                end: (stop - data_start) as usize,
                blocks: (last_block - first_block) as usize,
            }
        } else if final_chunk {
            Read::Short { readloc }
        } else {
            Read::Wait { keep_from: start }
        }
    }

    /// Notes that a turn's input has been read; where the turn had a field, the
    /// next one begins `advance` samples further on.
    pub fn turn_read(&mut self, advance: Option<i64>)
        ensures
            final(self)@ == old(self)@.read_on(advance),
    {
        self.has_pending = true;
        match advance {
            Some(advance) => {
                let place: i128 = self.fdoffset as i128 + advance as i128;
                self.fdoffset = if place < 0 {
                    0
                } else if place > u64::MAX as i128 {
                    u64::MAX
                } else {
                    place as u64
                };
            },
            None => {},
        }
        proof {
            assert(self@.fields =~= old(self)@.fields);
        }
    }

    /// Where the last field that came out was read, if any came out.
    pub fn last_file_loc(&self) -> (file_loc: Option<u64>)
        ensures
            file_loc == if self@.fields.len() > 0 {
                Some(self@.fields.last().file_loc)
            } else {
                None
            },
    {
        let count: usize = self.fields.len();
        if count > 0 {
            proof {
                assert(self@.fields.last() == self.fields@[count - 1]@);
            }
            Some(self.fields[count - 1].file_loc)
        } else {
            None
        }
    }

    /// Whether a first field has come out in order.
    pub fn seen_first_field(&self) -> (seen: bool)
        ensures
            seen == self@.seen_first_field,
    {
        self.seen_first_field
    }

    fn judge(&self, detected: bool, distance: u64, action: FieldOrderAction) -> (verdict: Verdict)
        ensures
            verdict == verdict_of(
                self@.fields,
                self@.duplicate_prev_field,
                detected,
                distance,
                action,
            ),
    {
        let count: usize = self.fields.len();
        let plain = Verdict {
            is_first_field: detected,
            is_duplicate_field: false,
            written: true,
            sync_conf: None,
            decode_faults: None,
            duplicate_prev_field: self.duplicate_prev_field,
        };
        if count == 0 {
            return plain;
        }
        proof {
            assert(self@.fields.last() == self.fields@[count - 1]@);
            assert(count > 1 ==> self@.fields[count - 2] == self.fields@[count - 2]@);
        }
        if self.fields[count - 1].is_first_field != detected {
            return plain;
        }
        let before: bool = self.fields[count - 1].detected_first_field;
        let two_before: bool = count > 1 && self.fields[count - 2].detected_first_field;
        if before == detected && two_before == before && inrange(distance, NEAR, FAR) {
            return Verdict {
                is_first_field: !detected,
                sync_conf: Some(10),
                decode_faults: Some(FAULT_PROGRESSIVE),
                ..plain
            };
        }
        let again: bool = match action {
            FieldOrderAction::Duplicate => true,
            FieldOrderAction::Drop => false,
            FieldOrderAction::Detect => if less_double(FAR, distance) {
                true
            } else if less_double(distance, NEAR) {
                false
            } else {
                !self.duplicate_prev_field
            },
            FieldOrderAction::Nothing => self.duplicate_prev_field,
        };
        let skipped = Verdict {
            sync_conf: Some(0),
            decode_faults: Some(FAULT_SKIPPED),
            duplicate_prev_field: again,
            ..plain
        };
        if action == FieldOrderAction::Nothing {
            Verdict { is_first_field: !detected, ..skipped }
        } else if again {
            Verdict { is_duplicate_field: true, ..skipped }
        } else {
            Verdict { written: false, ..skipped }
        }
    }

    /// Whether a field is passed over: nothing has come out yet, and it is not a
    /// first field.
    pub fn passes_over(&self, detected: bool) -> (over: bool)
        ensures
            over == (self@.fields.len() == 0 && !detected),
    {
        self.fields.len() == 0 && !detected
    }

    /// Puts a field out.
    pub fn place(
        &mut self,
        report: FieldReport,
        action: FieldOrderAction,
        luma: LumaOutput,
        chroma: Option<Vec<u16>>,
    ) -> (output: Vec<WriteableField>)
        requires
            old(self)@.fields.len() < usize::MAX,
        ensures
            (final(self)@, field_views(output@)) == old(self)@.placed(
                report,
                action,
                luma@,
                chroma_view(chroma),
            ),
    {
        let ghost before = self@;
        let mut output: Vec<WriteableField> = Vec::new();
        let detected: bool = report.detected_first_field;
        let count: usize = self.fields.len();
        if self.passes_over(detected) {
            proof {
                assert(field_views(output@) =~= Seq::empty());
            }
            return output;
        }
        let verdict: Verdict = self.judge(detected, report.distance, action);
        self.duplicate_prev_field = verdict.duplicate_prev_field;
        if detected && verdict.decode_faults.is_none() {
            self.seen_first_field = true;
        }
        let ghost judged = DecoderView {
            duplicate_prev_field: verdict.duplicate_prev_field,
            seen_first_field: before.seen_first_field || (detected && verdict.decode_faults
                is None),
            ..before
        };
        proof {
            assert(self@ =~= judged);
        }
        if !verdict.written {
            proof {
                assert(field_views(output@) =~= Seq::empty());
            }
            return output;
        }
        let seq_no: usize = count + 1;
        let ghost told = info_of(report, verdict, seq_no as nat);
        let phase: i64 = match report.field_phase_id {
            Some(id) => id,
            None => field_phase_id(detected, (seq_no / 2) % 2 == 0),
        };
        let info = FieldInfoEntry {
            is_first_field: verdict.is_first_field,
            detected_first_field: detected,
            is_duplicate_field: verdict.is_duplicate_field,
            sync_conf: match verdict.sync_conf {
                Some(conf) => conf,
                None => report.sync_conf,
            },
            seq_no,
            disk_loc: report.disk_loc,
            file_loc: report.file_loc,
            field_phase_id: phase,
            vits_metrics: report.vits_metrics,
            drop_outs: report.drop_outs,
            decode_faults: verdict.decode_faults,
        };
        proof {
            assert(info@ =~= told);
        }
        let field = WriteableField::new(info, luma, chroma, report.field_phase_id);
        let ghost shown = field@;
        let copy = field.clone();
        let other: Option<WriteableField> = if detected {
            self.last_first = Some(copy);
            match &self.last_second {
                Some(other) => Some(other.clone()),
                None => None,
            }
        } else {
            self.last_second = Some(copy);
            match &self.last_first {
                Some(other) => Some(other.clone()),
                None => None,
            }
        };
        if verdict.is_duplicate_field {
            match other {
                Some(other) => {
                    let ghost first = other@;
                    self.fields.push(other.info.clone());
                    output.push(other);
                    self.fields.push(field.info.clone());
                    output.push(field);
                    proof {
                        assert(self@.fields =~= before.fields.push(first.info).push(shown.info));
                        assert(field_views(output@) =~= seq![first, shown]);
                    }
                },
                None => {
                    proof {
                        assert(self@.fields =~= before.fields);
                        assert(field_views(output@) =~= Seq::empty());
                    }
                },
            }
        } else {
            self.fields.push(field.info.clone());
            output.push(field);
            proof {
                assert(self@.fields =~= before.fields.push(shown.info));
                assert(field_views(output@) =~= seq![shown]);
            }
        }
        output
    }
}

/// A place moved by a number of samples, as far as there are places.
pub open spec fn moved(place: int, advance: int) -> int {
    if place + advance < 0 {
        0
    } else if place + advance > u64::MAX {
        u64::MAX as int
    } else {
        place + advance
    }
}

pub(crate) proof fn lemma_reach(offset: int, readlen: int, usable: int)
    requires
        0 < usable <= BLOCKSIZE,
        0 <= readlen,
    ensures
        ({
            let reach = reach_of(offset, readlen, usable);
            let begin = (reach.readloc / BLOCKSIZE as int) * BLOCKSIZE;
            let end = begin + (readlen / BLOCKSIZE as int + 2) * BLOCKSIZE;
            &&& 0 <= begin <= reach.readloc < end <= reach.readloc + readlen + 2 * BLOCKSIZE
            &&& 0 <= reach.first < reach.last <= end + 1
            &&& 0 <= reach.begin(usable)
            &&& end < reach.end(usable) <= end + BLOCKSIZE
        }),
{
    let reach = reach_of(offset, readlen, usable);
    let size = BLOCKSIZE as int;
    let begin = (reach.readloc / size) * size;
    let end = begin + (readlen / size + 2) * size;
    vstd::arithmetic::div_mod::lemma_fundamental_div_mod(reach.readloc, size);
    vstd::arithmetic::div_mod::lemma_fundamental_div_mod(readlen, size);
    assert((readlen / size + 2) * size == (readlen / size) * size + 2 * size) by (nonlinear_arith);
    vstd::arithmetic::div_mod::lemma_fundamental_div_mod(begin, usable);
    vstd::arithmetic::div_mod::lemma_fundamental_div_mod(end, usable);
    vstd::arithmetic::div_mod::lemma_div_is_ordered(begin, end, usable);
    assert(0 <= begin / usable <= begin && 0 <= end / usable <= end) by (nonlinear_arith)
        requires
            0 <= begin,
            0 <= end,
            0 < usable,
    ;
    assert((end / usable) * usable == usable * (end / usable)) by (nonlinear_arith);
    assert((begin / usable) * usable == usable * (begin / usable)) by (nonlinear_arith);
    assert(0 <= usable * (begin / usable)) by (nonlinear_arith)
        requires
            0 <= begin / usable,
            0 < usable,
    ;
}

} // verus!
