use tape_decode::bytes::{put_i64, put_u16, put_u32, put_u64, Cursor, CursorError};
use tape_decode::cuda::{
    block_middles, check_capability, check_envelope_filter, chroma_layout, cubin_name,
    filter_passes, mirrored_ends, replace_block, sosfiltfilt_edge, spike_blocks, validate_spec,
    BatchLayout, DeviceError, DeviceNeeds, MAX_BATCH_BLOCKS,
};
use tape_decode::decoder::{
    block_window, drop_outs, name_system, AfterTurn, DecodeBackend, Decoder, FieldReport,
    LumaOutput, Read, Turn, VitsMetrics, WriteableField,
};
use tape_decode::ieee::{
    at_most_double, at_most_single, inrange, is_nan_double, is_nan_single, less_double,
    less_single,
};
use tape_decode::request::{ColorSystem, FieldOrderAction, LineSystem};
use tape_decode::slices::{
    clamped_index, clamped_slice, comb_lines, comb_segments, demod_checked_slice,
    demod_slice_bounds, fir_plan, hilbert_plan, line_span, porch_windows, resolve_signed_index,
    resolve_slice_bound, roll, signed_bounds_slice,
};
use tape_decode::text::{complex_split, push_decimal, push_decimals, push_hexadecimal};
use tape_decode::vectors::Sos;

const USABLE: usize = 32_768 - 2048;

fn report(first: bool, distance: f64) -> FieldReport {
    FieldReport {
        detected_first_field: first,
        distance: distance.to_bits(),
        sync_conf: 100,
        disk_loc: 1.5f32.to_bits(),
        file_loc: 77,
        field_phase_id: None,
        vits_metrics: VitsMetrics {
            w_snr: None,
            b_psnr: Some(40.0f64.to_bits()),
        },
        drop_outs: None,
    }
}

fn place(
    decoder: &mut Decoder,
    first: bool,
    distance: f64,
    action: FieldOrderAction,
    mark: u16,
) -> Vec<WriteableField> {
    decoder.place(
        report(first, distance),
        action,
        LumaOutput::Encoded(vec![mark]),
        Some(vec![mark + 1]),
    )
}

fn mark(field: &WriteableField) -> u16 {
    match field.luma() {
        LumaOutput::Encoded(values) => values[0],
        LumaOutput::Raw(_) => panic!("the luma is raw"),
    }
}

#[test]
fn backends_are_what_was_built_in() {
    assert_eq!(DecodeBackend::default(), DecodeBackend::Cpu);
    assert!(Decoder::new_with_backend(0, DecodeBackend::Cpu, false).is_ok());
    let cuda = DecodeBackend::Cuda { device_ordinal: 1 };
    assert!(Decoder::new_with_backend(0, cuda, true).is_ok());
    match Decoder::new_with_backend(0, cuda, false) {
        Ok(_) => panic!("the backend was accepted"),
        Err(error) => assert_eq!(
            error.message(),
            "CUDA backend requested, but this build was compiled without the `cuda` feature"
        ),
    }
}

#[test]
fn fields_come_out_in_order() {
    let mut decoder = Decoder::new(0);
    let action = FieldOrderAction::Detect;
    // Nothing comes out before the first first field.
    assert!(place(&mut decoder, false, 1.0, action, 1).is_empty());
    assert_eq!(decoder.last_file_loc(), None);
    assert!(!decoder.seen_first_field());

    let output = place(&mut decoder, true, 1.0, action, 2);
    assert_eq!(output.len(), 1);
    assert!(decoder.seen_first_field());
    assert_eq!(decoder.last_file_loc(), Some(77));
    let info = &output[0].info;
    assert!(info.is_first_field && info.detected_first_field && !info.is_duplicate_field);
    assert_eq!((info.seq_no, info.sync_conf, info.decode_faults), (1, 100, None));
    assert_eq!(info.field_phase_id, 1);
    assert_eq!(output[0].chroma(), Some(&[3u16][..]));

    let output = place(&mut decoder, false, 1.0, action, 4);
    assert_eq!(output.len(), 1);
    assert!(!output[0].info.is_first_field);
    assert_eq!(output[0].info.field_phase_id, 2);
    assert_eq!(output[0].info.seq_no, 2);
}

#[test]
fn a_missing_field_is_made_up_for() {
    let mut decoder = Decoder::new(0);
    let action = FieldOrderAction::Detect;
    place(&mut decoder, true, 1.0, action, 1);
    place(&mut decoder, false, 1.0, action, 2);
    // Two fields later: the last first field is put out again before it.
    let output = place(&mut decoder, false, 2.0, action, 3);
    assert_eq!(output.iter().map(mark).collect::<Vec<_>>(), vec![1, 3]);
    assert!(output[1].info.is_duplicate_field);
    assert_eq!(output[1].info.decode_faults, Some(4));
    assert_eq!(output[1].info.sync_conf, 0);

    // Too early: the field is dropped.
    assert!(place(&mut decoder, false, 0.5, action, 4).is_empty());

    // Without a remedy the order is turned round.
    let output = place(&mut decoder, false, 2.0, FieldOrderAction::Nothing, 5);
    assert_eq!(output.len(), 1);
    assert!(output[0].info.is_first_field);
    assert!(!output[0].info.detected_first_field);
}

#[test]
fn dropping_and_duplicating_can_be_asked_for() {
    let mut decoder = Decoder::new(0);
    place(&mut decoder, true, 1.0, FieldOrderAction::Drop, 1);
    place(&mut decoder, false, 1.0, FieldOrderAction::Drop, 2);
    assert!(place(&mut decoder, false, 2.0, FieldOrderAction::Drop, 3).is_empty());
    let output = place(&mut decoder, false, 0.5, FieldOrderAction::Duplicate, 4);
    assert_eq!(output.iter().map(mark).collect::<Vec<_>>(), vec![1, 4]);
}

#[test]
fn progressive_content_is_turned_round() {
    let mut decoder = Decoder::new(0);
    let action = FieldOrderAction::Detect;
    place(&mut decoder, true, 1.0, action, 1);
    place(&mut decoder, true, 3.0, action, 2);
    place(&mut decoder, true, 1.0, action, 3);
    let mut decoder = Decoder::new(0);
    place(&mut decoder, true, 1.0, action, 1);
    // With one field before, the one before that counts as no first field.
    let output = place(&mut decoder, true, 1.0, action, 2);
    assert!(output.is_empty());
    let mut decoder = Decoder::new(0);
    place(&mut decoder, true, 1.0, FieldOrderAction::Nothing, 1);
    place(&mut decoder, true, 2.0, FieldOrderAction::Nothing, 2);
    place(&mut decoder, true, 1.0, FieldOrderAction::Nothing, 3);
    let output = place(&mut decoder, true, 1.0, FieldOrderAction::Nothing, 4);
    assert_eq!(output.len(), 1);
    assert_eq!(output[0].info.decode_faults, Some(1));
    assert_eq!(output[0].info.sync_conf, 10);
    assert!(!output[0].info.is_first_field);
}

#[test]
fn reads_wait_for_all_blocks_of_a_field() {
    let decoder = Decoder::new(1_000_000);
    let readlen = 622_592;
    let read = decoder.next_read(0, readlen, USABLE, 0, 1_000_000, false);
    // 998,976 lies in the block at 983,040, which is the thirty-second usable one.
    assert_eq!(read, Read::Wait { keep_from: 983_040 });
    let read = decoder.next_read(0, readlen, USABLE, 983_040, 1_000_000, false);
    let blocks = match read {
        Read::Blocks {
            readloc,
            start,
            first,
            end,
            blocks,
        } => {
            assert_eq!((readloc, start, first), (998_976, 983_040, 0));
            assert_eq!(end, (blocks - 1) * USABLE + 32_768);
            blocks
        }
        _ => panic!("{read:?}"),
    };
    // The block end, 983,040 + 21 * 32,768, lies in the fifty-fifth usable block.
    assert_eq!(blocks, 23);
    assert_eq!(
        decoder.next_read(0, readlen, USABLE, 983_040, 1000, true),
        Read::Short { readloc: 998_976 }
    );
    assert_eq!(
        Decoder::new(500).next_read(0, readlen, USABLE, 0, 0, true),
        Read::Short { readloc: 0 }
    );
    assert_eq!(block_window(2, USABLE), (61_440, 94_208));
}

#[test]
fn turns_follow_each_other() {
    let mut decoder = Decoder::new(1000);
    assert_eq!(decoder.turn(None), Turn::Start);
    assert_eq!(decoder.turn(None).after(), AfterTurn::Again);
    decoder.turn_read(None);
    assert_eq!(decoder.offset(), 1000);
    assert_eq!(decoder.turn(Some(true)), Turn::Field { valid: true });
    assert_eq!(decoder.turn(Some(true)).after(), AfterTurn::Place);
    assert_eq!(decoder.turn(Some(false)).after(), AfterTurn::Again);
    assert_eq!(decoder.turn(None), Turn::Ended);
    assert_eq!(decoder.turn(None).after(), AfterTurn::Finish);
    decoder.turn_read(Some(-300));
    assert_eq!(decoder.offset(), 700);
    decoder.turn_read(Some(-1000));
    assert_eq!(decoder.offset(), 0);
}

#[test]
fn systems_have_names() {
    assert_eq!(name_system(LineSystem::Line525, ColorSystem::Pal), "PAL-M");
    assert_eq!(name_system(LineSystem::Line525, ColorSystem::Ntsc), "NTSC");
    assert_eq!(name_system(LineSystem::Line525, ColorSystem::Monochrome), "NTSC");
    assert_eq!(name_system(LineSystem::Line819, ColorSystem::Secam), "PAL");
    assert!(drop_outs(vec![], vec![], vec![]).is_none());
    let found = drop_outs(vec![7], vec![10], vec![20]).unwrap();
    assert_eq!((found.field_line, found.startx, found.endx), (vec![7], vec![10], vec![20]));
}

#[test]
fn bounds_count_from_the_end_where_negative() {
    assert_eq!(resolve_slice_bound(10, 12), 10);
    assert_eq!(resolve_slice_bound(10, -3), 7);
    assert_eq!(resolve_slice_bound(10, -12), 0);
    assert_eq!(resolve_signed_index(10, 10), None);
    assert_eq!(resolve_signed_index(10, -10), Some(0));
    assert_eq!(resolve_signed_index(10, -11), None);
    let data = [0, 1, 2, 3, 4];
    assert_eq!(signed_bounds_slice(&data, 1, -1), &[1, 2, 3]);
    assert_eq!(signed_bounds_slice(&data, 4, 2), &[] as &[i32]);
    assert_eq!(clamped_slice(&data, 3, 9), &[3, 4]);
    assert_eq!(demod_slice_bounds(5, -2, 3), Some((0, 3)));
    assert_eq!(demod_slice_bounds(5, 5, 9), None);
    assert_eq!(demod_checked_slice(&data, 3, 9), Some(&data[3..]));
    assert_eq!(demod_checked_slice(&data, 9, 9), None);
    assert_eq!(clamped_index(5, -1), 0);
    assert_eq!(clamped_index(5, 9), 4);
}

#[test]
fn buffers_turn_both_ways() {
    let mut values = vec![1, 2, 3, 4, 5];
    roll(&mut values, 2);
    assert_eq!(values, vec![4, 5, 1, 2, 3]);
    roll(&mut values, -2);
    assert_eq!(values, vec![1, 2, 3, 4, 5]);
    roll(&mut values, -7);
    assert_eq!(values, vec![3, 4, 5, 1, 2]);
}

#[test]
fn combs_pair_the_right_lines() {
    let segments = comb_segments(10, 3);
    let mut covered = 0;
    for segment in segments {
        assert_eq!(segment.start, covered);
        covered = segment.end;
    }
    assert_eq!(covered, 10);
    let lines = comb_lines(30 * 4, 4, 1);
    assert_eq!(lines.len(), 12);
    assert!(comb_lines(8, 4, 1).is_empty());
}

#[test]
fn plans_of_windows() {
    let span = line_span(0, 263, 0);
    assert_eq!((span.later, span.earlier, span.double), (1, 0, false));
    let span = line_span(5, 263, 0);
    assert_eq!((span.later, span.earlier, span.double), (6, 4, true));
    let span = line_span(263, 263, 0);
    assert_eq!((span.later, span.earlier, span.double), (263, 262, false));
    let plan = fir_plan(100, -3, 8);
    assert_eq!((plan.head_end, plan.tail_start), (3, 96));
    let plan = hilbert_plan(8);
    assert_eq!((plan.double_end, plan.clear_start), (4, 5));
    let plan = hilbert_plan(7);
    assert_eq!((plan.double_end, plan.clear_start), (4, 4));
    let windows = porch_windows(2, 910, (74, 124), 1000).unwrap();
    assert_eq!(windows, vec![Some((78, 120)), None]);
    assert!(porch_windows(0, 910, (74, 124), 1000).is_none());
}

#[test]
fn patterns_are_ordered_as_numbers() {
    let single = |value: f32| value.to_bits();
    assert!(less_single(single(-1.0), single(1.0)));
    assert!(!less_single(single(-0.0), single(0.0)));
    assert!(at_most_single(single(-0.0), single(0.0)));
    assert!(!at_most_single(single(f32::NAN), single(0.0)));
    assert!(less_single(single(f32::NEG_INFINITY), single(f32::MIN)));
    assert!(is_nan_single(single(f32::NAN)) && !is_nan_single(single(f32::INFINITY)));
    let double = |value: f64| value.to_bits();
    assert!(less_double(double(-2.0), double(-1.0)));
    assert!(at_most_double(double(1.0), double(1.0)));
    assert!(is_nan_double(double(f64::NAN)));
    assert!(inrange(double(0.9), double(0.9), double(1.1)));
    assert!(!inrange(double(f64::NAN), double(0.9), double(1.1)));
}

#[test]
fn cursors_read_little_endian() {
    let mut bytes = Vec::new();
    put_u16(&mut bytes, 0x0102);
    put_u32(&mut bytes, 0x0304_0506);
    put_u64(&mut bytes, 7);
    put_i64(&mut bytes, -2);
    assert_eq!(&bytes[..6], &[2, 1, 6, 5, 4, 3]);
    let mut cursor = Cursor::new(&bytes);
    assert_eq!(cursor.u16(), Ok(0x0102));
    assert_eq!(cursor.u32(), Ok(0x0304_0506));
    assert_eq!(cursor.u64(), Ok(7));
    assert_eq!(cursor.u64(), Ok(u64::MAX - 1));
    assert_eq!(cursor.remaining(), 0);
    assert_eq!(cursor.u8(), Err(CursorError::Truncated));
    assert_eq!(cursor.take(usize::MAX), Err(CursorError::OffsetOverflow));
    assert_eq!(cursor.position(), 22);
}

#[test]
fn numbers_are_spelled() {
    let mut text = String::new();
    push_decimal(&mut text, 0);
    push_decimal(&mut text, 1234);
    push_hexadecimal(&mut text, 0xab, 4);
    push_decimals(&mut text, &vec![1, 20]);
    assert!(text.starts_with("0123400ab"), "{text}");
    assert_eq!(complex_split(b"1.5e-3-2.5e+4"), Some(6));
    assert_eq!(complex_split(b"-1.5+2.5"), Some(4));
    assert_eq!(complex_split(b"-1.5"), None);
    assert_eq!(complex_split(b""), None);
}

fn needs() -> DeviceNeeds {
    DeviceNeeds {
        color_system: ColorSystem::Ntsc,
        ntsc_rate: true,
        notch: false,
        high_boost: false,
        equalizer: false,
        chroma_trap: false,
        nonlinear_deemphasis: false,
        subdeemphasis: false,
        fsc_notch: false,
        export_raw_tbc: false,
    }
}

#[test]
fn devices_take_what_they_support() {
    assert_eq!(validate_spec(&needs()), Ok(()));
    let error = validate_spec(&DeviceNeeds { color_system: ColorSystem::Pal, ..needs() })
        .err()
        .unwrap();
    assert_eq!(
        error.message(),
        "CUDA v1 supports only NTSC VHS at 28,636,363 Hz"
    );
    let error = validate_spec(&DeviceNeeds { fsc_notch: true, ..needs() })
        .err()
        .unwrap();
    assert_eq!(
        error.message(),
        "CUDA v1 does not support modified/custom NTSC VHS block filters"
    );
    assert_eq!(check_capability(7, 5), Ok(()));
    assert_eq!(check_capability(12, 0), Ok(()));
    assert_eq!(
        check_capability(7, 0).err().unwrap().message(),
        "CUDA backend requires compute capability 7.5 or newer; device reports 7.0"
    );
    assert_eq!(cubin_name(8, 6, 0xabc), "demod-sm_86-0000000000000abc.cubin");
}

#[test]
fn batches_have_their_sizes() {
    let layout = BatchLayout::new(3, USABLE);
    assert_eq!(layout.input_len, 2 * USABLE + 32_768);
    assert_eq!(layout.packed_len, 3 * USABLE);
    assert_eq!(layout.spectrum_len, 3 * 16_385);
    assert_eq!(layout.envelope_len, 3 * 32_774);
    assert_eq!(layout.check_input(layout.input_len), Ok(()));
    assert_eq!(
        layout.check_input(5).err().unwrap().message(),
        "CUDA field batch has 5 samples; expected 94208"
    );
}

#[test]
fn filters_are_checked_before_a_device_runs_them() {
    let sos = |b2: f32, a2: f32| Sos {
        words: [
            1.0f32.to_bits(),
            0,
            b2.to_bits(),
            1.0f32.to_bits(),
            0,
            a2.to_bits(),
            0,
            0,
        ],
    };
    assert_eq!(check_envelope_filter(&[sos(0.0, -0.0)]), Ok(()));
    assert_eq!(check_envelope_filter(&[]), Err(DeviceError::NoEnvelopeFilter));
    assert_eq!(
        check_envelope_filter(&[sos(1.0, 0.0)]),
        Err(DeviceError::EnvelopeFilter)
    );
    assert_eq!(sosfiltfilt_edge(&[sos(1.0, 1.0), sos(1.0, 1.0)]), 15);
    assert_eq!(sosfiltfilt_edge(&[sos(0.0, 0.0), sos(1.0, 0.0)]), 12);
    assert_eq!(chroma_layout(100, &[sos(1.0, 1.0)]), Ok((118, 9)));
    assert_eq!(
        chroma_layout(9, &[sos(1.0, 1.0)]).err().unwrap().message(),
        "CUDA chroma field has 9 samples; zero-phase filter requires more than 9"
    );
    assert_eq!(chroma_layout(9, &[]), Err(DeviceError::NoChromaSections));
}

#[test]
fn blocks_come_back_in_place() {
    assert_eq!(spike_blocks(&[0, 1, 0, 9]), vec![1, 3]);
    let mut packed = vec![1, 2, 3, 4, 5, 6];
    replace_block(&mut packed, 1, &[8, 9]);
    assert_eq!(packed, vec![1, 2, 8, 9, 5, 6]);
    let input: Vec<u32> = (0..4000).collect();
    let middles = block_middles(&input, 3, 500);
    assert_eq!(middles.len(), 1500);
    assert_eq!((middles[0], middles[500], middles[1499]), (1024, 1524, 2523));
}

#[test]
fn cubin_cache_key_changes_with_architecture() {
    assert_ne!(cubin_name(7, 5, 1), cubin_name(8, 6, 1));
}

#[test]
fn passes_go_there_and_back_between_two_buffers() {
    let passes = filter_passes(3);
    let sections: Vec<usize> = passes.iter().map(|pass| pass.section).collect();
    let reverse: Vec<bool> = passes.iter().map(|pass| pass.reverse).collect();
    let from_first: Vec<bool> = passes.iter().map(|pass| pass.from_first).collect();
    assert_eq!(sections, vec![0, 1, 2, 0, 1, 2]);
    assert_eq!(reverse, vec![false, false, false, true, true, true]);
    assert_eq!(from_first, vec![true, false, true, false, true, false]);
    assert!(filter_passes(0).is_empty());
}

#[test]
fn fields_are_mirrored_at_their_ends() {
    assert_eq!(
        mirrored_ends(10, 3),
        (vec![3, 2, 1], vec![8, 7, 6])
    );
    assert_eq!(mirrored_ends(1, 0), (vec![], vec![]));
}

#[test]
fn windows_must_not_begin_late() {
    let decoder = Decoder::new(100_000);
    let late = |data_start: u64, len: usize, last: bool| {
        decoder.begins_late(0, 32_768, USABLE, data_start, len, last)
    };
    // The blocks from the third on are read.
    let begin = 3 * USABLE as u64;
    assert!(!late(begin, 10, true));
    assert!(late(begin + 1, 10, true));
    assert!(!late(begin + 1, 10, false));
    assert!(late(begin + 1, 1_000_000, false));
    assert!(!late(begin, 1_000_000, false));
}

#[test]
fn batches_fill_what_a_device_counts() {
    assert_eq!(MAX_BATCH_BLOCKS, 21_845);
    let layout = BatchLayout::new(MAX_BATCH_BLOCKS, USABLE);
    assert!(3 * layout.real_len <= i32::MAX as usize);
    assert!(3 * (layout.real_len + 32_768) > i32::MAX as usize);
}

#[test]
fn reads_stay_within_all_places() {
    assert!(Decoder::new(u64::MAX - 1_000_000).within_places(0, 32_768, USABLE));
    assert!(!Decoder::new(u64::MAX).within_places(0, 32_768, USABLE));
    assert!(!Decoder::new(u64::MAX).within_places(i64::MAX, 32_768, USABLE));
    assert!(Decoder::new(u64::MAX).within_places(i64::MIN, 32_768, USABLE));
    let far = Decoder::new(1 << 63);
    assert_eq!(
        far.next_read(0, 32_768, USABLE, 0, 0, true),
        Read::Short {
            readloc: (1 << 63) - 1024
        }
    );
}

// Hands a window to a decode whose fields are sums of the samples that they are
// read from.
fn hand_over(
    decoder: &mut Decoder,
    pending: &mut Option<u16>,
    input: &[u32],
    window: (usize, usize),
) -> (u64, Vec<WriteableField>) {
    let data = &input[window.0..window.1];
    let (start, last) = (window.0 as u64, window.1 == input.len());
    let mut output = Vec::new();
    loop {
        let turn = decoder.turn(pending.map(|_| true));
        let ahead = if pending.is_some() { 60_000 } else { 0 };
        assert!(!decoder.begins_late(ahead, 32_768, USABLE, start, data.len(), last));
        let next = match decoder.next_read(ahead, 32_768, USABLE, start, data.len(), last) {
            Read::Wait { keep_from } => return (keep_from, output),
            Read::Blocks { first, end, .. } => {
                let sum = data[first..end]
                    .iter()
                    .fold(0u32, |sum, &sample| sum.wrapping_mul(31).wrapping_add(sample));
                Some((sum >> 8) as u16 & 0x7fff)
            }
            Read::Short { .. } => None,
        };
        let field = pending.take();
        *pending = next;
        decoder.turn_read(field.map(|_| ahead));
        match (turn.after(), field) {
            (AfterTurn::Again, _) => {}
            (AfterTurn::Place, Some(sum)) => {
                let first = sum % 5 < 3;
                output.extend(place(decoder, first, 1.2, FieldOrderAction::Duplicate, sum));
            }
            _ => return (decoder.offset(), output),
        }
    }
}

#[test]
fn windows_leave_the_fields_as_they_are() {
    let input: Vec<u32> = (0..1_500_000u32).map(|i| (i / 1000).pow(3) ^ i).collect();
    let told = |fields: &[WriteableField]| -> Vec<(u16, bool, usize, Option<i64>)> {
        fields
            .iter()
            .map(|field| {
                let info = &field.info;
                (mark(field), info.is_first_field, info.seq_no, info.decode_faults)
            })
            .collect()
    };
    let mut whole = Decoder::new(5000);
    let (offset, fields) = hand_over(&mut whole, &mut None, &input, (0, input.len()));
    assert!(fields.len() > 10);

    for step in [40_000, 70_001, 333_333] {
        let mut decoder = Decoder::new(5000);
        let mut pending = None;
        let (mut keep, mut end, mut pieces) = (0, step, Vec::new());
        loop {
            let window = (keep, end.min(input.len()));
            let (kept, output) = hand_over(&mut decoder, &mut pending, &input, window);
            pieces.extend(output);
            if window.1 == input.len() {
                assert_eq!(kept, offset);
                break;
            }
            keep = kept.min(end as u64) as usize;
            end += step;
        }
        assert_eq!(told(&pieces), told(&fields));
    }
}

#[test]
fn what_is_told_of_a_field_agrees_with_itself() {
    let actions = [
        FieldOrderAction::Detect,
        FieldOrderAction::Duplicate,
        FieldOrderAction::Drop,
        FieldOrderAction::Nothing,
    ];
    let mut faults = vec![];
    for action in actions {
        let mut decoder = Decoder::new(0);
        let mut output = Vec::new();
        for turn in 0..60u16 {
            let first = (turn * turn / 3) % 3 != 0;
            let distance = [0.5, 1.0, 1.0, 1.0, 1.5][usize::from(turn) % 5];
            output.extend(place(&mut decoder, first, distance, action, turn));
        }
        assert!(output[0].info.is_first_field && output[0].info.detected_first_field);
        for field in &output {
            let info = &field.info;
            match info.decode_faults {
                None => assert_eq!(info.is_first_field, info.detected_first_field),
                Some(1) => {
                    assert_eq!(info.sync_conf, 10);
                    assert_ne!(info.is_first_field, info.detected_first_field);
                }
                Some(4) => assert_eq!(info.sync_conf, 0),
                other => panic!("{other:?}"),
            }
            assert!(!info.is_duplicate_field || info.decode_faults == Some(4));
            faults.push(info.decode_faults);
        }
    }
    assert!([None, Some(1), Some(4)].iter().all(|fault| faults.contains(fault)));
}

#[test]
fn a_leading_second_field_is_passed_over() {
    let mut decoder = Decoder::new(0);
    assert!(decoder.passes_over(false) && !decoder.passes_over(true));
    assert!(place(&mut decoder, false, 1.0, FieldOrderAction::Detect, 1).is_empty());
    assert_eq!(place(&mut decoder, true, 1.0, FieldOrderAction::Detect, 2).len(), 1);
    assert!(!decoder.passes_over(false));
}
