use tape_decode::chroma::{
    after_burst, burst_use, chroma_path, colour_lines, BurstUse, ChromaPath,
};
use tape_decode::field::{
    adjustable_lines, adjustment_sources, back_porch, confidence_span, detects_levels, field_fate,
    final_lines, has_line_issues, is_field14, mark_unmeasured, next_field_number,
    output_line_count, processed_lines, retries_with_levels, searched_linecount,
    surveyed_phase_id, sync_confidence, track_of, FieldFate,
};
use tape_decode::field_order::{
    decide_field_order, field_order_signatures, hsync_source, pairs_across, pairs_within,
    refinement_pulses,
    uses_last_difference, vblank_layout, HsyncSource, InterFieldState, Line0FallbackResult,
};
use tape_decode::line0::{
    apply_expectation, argmax3, conclude, count_phase_votes, filter_pulses, last_resort,
    nearest_pulse, phase_confidence, settle, Expectation, Line0Found, Line0Place, Line0Search,
    PhaseVotes,
};
use tape_decode::phase::{
    burst_window, checks_rotation, field_phase_id, flips_track, is_in_middle, line_window,
    rotated_phase, BurstError, BurstPlace, BurstWindow, PhaseState,
};
use tape_decode::pulses::SampleRange;
use tape_decode::refine::{LeftEdge, LineRefiner, RightEdge};
use tape_decode::request::{ColorSystem, LineSystem};
use tape_decode::vblank::{PulseSample, PulseType, RealBound};
use tape_decode::vits::{finite_ratio, samples_above_zero, white_place};

fn double(value: f64) -> u64 {
    value.to_bits()
}

fn single(value: f32) -> u32 {
    value.to_bits()
}

#[test]
fn field_orders_have_their_signatures() {
    assert_eq!(
        field_order_signatures(true),
        ([2, 1, 1, 2], [1, 2, 2, 1], [2, 1, 2, 1])
    );
    assert_eq!(
        field_order_signatures(false),
        ([1, 1, 2, 2], [2, 2, 1, 1], [1, 1, 1, 1])
    );
}

#[test]
fn a_full_signature_decides_the_order() {
    let state = InterFieldState::new(None);
    assert!(decide_field_order([2, 1, 1, 2], true, &state, 100, None).0);
    let known = state.after_field(0, Some(single(100.0)), 0, false);
    assert!(!decide_field_order([1, 2, 2, 1], true, &known, 100, None).0);
    assert!(decide_field_order([2, 1, 2, 1], true, &state, 100, None).1);
    assert!(!decide_field_order([2, 1, 2, -2], true, &state, 100, None).1);
    assert!(!decide_field_order([2, 1, 1, 2], true, &state, 100, None).1);
    assert!(decide_field_order([1, 1, 1, 1], false, &known, 100, None).1);
    assert!(!decide_field_order([2, 1, 2, 1], false, &known, 100, None).1);
    assert!(decide_field_order([2, 1, 1, 2], true, &known, 100, None).0);
}

#[test]
fn fields_alternate_where_nothing_was_measured() {
    let first = InterFieldState::new(None).after_field(0, Some(single(100.0)), 0, true);
    assert!(!decide_field_order([-2; 4], true, &first, 100, None).0);
    let second = first.after_field(0, None, 0, false);
    assert!(decide_field_order([-2; 4], true, &second, 100, None).0);
    // A fallback that is surer than both decides.
    let fallback = Some(Line0FallbackResult {
        line0: single(50.0),
        first_field: 1,
        first_field_confidence: 80,
    });
    assert!(decide_field_order([-2; 4], true, &first, 100, fallback).0);
}

#[test]
fn sections_lie_where_the_system_puts_them() {
    let layout = vblank_layout(true, true, [263, 262], 6);
    // In half lines: one line, then three sections of three lines each.
    assert_eq!(layout.lines, [2, 8, 14, 19, 527, 533, 539, 544]);
    assert_eq!(layout.hsync_start, 20);
    assert_eq!(layout.current_field_lines, 263);
    assert_eq!(layout.previous_field_lines, 262);
}

#[test]
fn the_first_line_comes_from_the_surest_source() {
    let fresh = InterFieldState::new(None);
    let later = fresh.after_field(0, Some(single(100.0)), single(0.25), true);
    assert_eq!(hsync_source(3, 3, true, true, &fresh), HsyncSource::Both);
    assert_eq!(hsync_source(3, 3, false, true, &fresh), HsyncSource::Fallback);
    assert_eq!(hsync_source(6, 0, false, false, &later), HsyncSource::Leading);
    assert_eq!(hsync_source(3, 2, false, false, &fresh), HsyncSource::Leading);
    assert_eq!(hsync_source(2, 3, false, false, &fresh), HsyncSource::Trailing);
    assert_eq!(hsync_source(3, 2, false, false, &later), HsyncSource::Estimate);
    assert_eq!(hsync_source(0, 0, false, false, &fresh), HsyncSource::Unknown);
    assert!(uses_last_difference(&later));
    assert!(!uses_last_difference(&fresh));
}

#[test]
fn sound_pulses_refine_the_first_line() {
    let h = PulseType::Hsync;
    let types = [h, h, PulseType::Vsync, h, h, h];
    let good = [true, true, true, false, true, true];
    let lines = [5, 11, 12, 13, 14, 300];
    assert_eq!(
        refinement_pulses(&types, &good, &lines, 20, 263),
        vec![1, 4]
    );
}

#[test]
fn close_pulses_are_thinned() {
    let pulse = |start: i64| PulseSample { start, len: 20 };
    let spacing = RealBound { floor: 270, ceil: 270 };
    let raw = [
        pulse(0),
        pulse(600),
        pulse(700),
        pulse(1200),
        pulse(1800),
        pulse(2400),
    ];
    let first = filter_pulses(&raw, spacing, &[false; 6]).unwrap();
    assert_eq!(
        first.iter().map(|pulse| pulse.start).collect::<Vec<_>>(),
        vec![0, 600, 1200, 1800, 2400]
    );
    let mut next = [false; 6];
    next[1] = true;
    let second = filter_pulses(&raw, spacing, &next).unwrap();
    assert_eq!(
        second.iter().map(|pulse| pulse.start).collect::<Vec<_>>(),
        vec![0, 700, 1200, 1800, 2400]
    );
    assert_eq!(
        filter_pulses(&[], spacing, &[]).err().unwrap().message(),
        "get_line0_fallback expects at least one raw pulse"
    );
}

#[test]
fn sections_are_compared_in_pairs() {
    let marks = [Some(2), None, Some(14), Some(19), None, Some(300), None, None];
    assert_eq!(pairs_within(&marks, false), vec![(0, 2), (0, 3), (2, 3)]);
    assert_eq!(pairs_within(&marks, true), vec![]);
    assert_eq!(pairs_within(&[Some(1); 8], true).len(), 6);
    assert_eq!(pairs_across(&marks), vec![(0, 5), (2, 5), (3, 5)]);
    assert_eq!(pairs_across(&[Some(1); 8]).len(), 16);
}

#[test]
fn votes_stop_at_five_decisive_ones() {
    let votes = count_phase_votes(&vec![0, 0, 1, 3, 0, 0, 3, 3], 0, 8);
    assert_eq!(
        votes,
        PhaseVotes {
            even: 4,
            odd: 1,
            mixed: 1
        }
    );
    assert_eq!(argmax3([4, 1, 1]), 0);
    assert_eq!(argmax3([1, 4, 4]), 1);
    assert_eq!(argmax3([1, 2, 4]), 2);
    assert_eq!(argmax3([2, 2, 2]), 0);
    assert_eq!(phase_confidence(4, [4, 1, 1]), 66);
}

#[test]
fn a_late_start_gives_way_to_the_reckoned_one() {
    let search = Line0Search {
        line0: Some(500_000),
        backup: Some(double(1000.0)),
        first_field: 1,
        confidence: 100,
        backup_first_field: 0,
        backup_confidence: 80,
    };
    let late = RealBound { floor: 157_000, ceil: 157_000 };
    let found = settle(search, late, double(343_000.0), double(157_000.0), false);
    assert_eq!(
        found,
        Line0Found {
            place: Some(Line0Place::Reckoned { value: double(1000.0) }),
            first_field: 0,
            confidence: 60
        }
    );
    let early = Line0Search { line0: Some(5000), ..search };
    assert_eq!(
        settle(early, late, double(-100_000.0), double(157_000.0), false).place,
        Some(Line0Place::Pulse { start: 5000 })
    );
}

#[test]
fn an_expected_start_snaps_to_the_nearest_pulse() {
    let distances = vec![double(900.0), double(100.0), double(200.0)];
    assert_eq!(nearest_pulse(&distances, double(420.0)), Some(1));
    assert_eq!(nearest_pulse(&distances, double(50.0)), None);

    let pulses = vec![
        PulseSample { start: 100, len: 20 },
        PulseSample { start: 1100, len: 20 },
        PulseSample { start: 1400, len: 20 },
    ];
    let nothing = Line0Found {
        place: None,
        first_field: -1,
        confidence: -1,
    };
    let expected = Some(Expectation {
        line0: double(1200.0),
        first_field: Some(0),
        distances: vec![double(1100.0), double(100.0), double(200.0)],
        range: double(420.0),
        limit: double(157_000.0),
        earliest: double(-3000.0),
    });
    let late = RealBound { floor: 157_000, ceil: 157_000 };
    assert_eq!(
        apply_expectation(nothing, &pulses, late, &expected, false),
        Line0Found {
            place: Some(Line0Place::Pulse { start: 1100 }),
            first_field: 0,
            confidence: 50
        }
    );
    assert_eq!(
        apply_expectation(nothing, &pulses, late, &None, false),
        nothing
    );
}

#[test]
fn the_last_resort_is_before_a_long_pulse() {
    let raw = [
        PulseSample { start: 100, len: 47 },
        PulseSample { start: 5000, len: 270 },
    ];
    let range = SampleRange { min: 200, max: 3000 };
    let types = [PulseType::Hsync, PulseType::Hsync];
    assert_eq!(
        last_resort(&raw, range, &types, &[100, 4000]),
        Some(Line0Place::Pulse { start: 4000 })
    );
    assert_eq!(
        last_resort(&raw, range, &[], &[]),
        Some(Line0Place::ThreeLinesBefore { start: 5000 })
    );
    assert_eq!(last_resort(&raw[..1], range, &types, &[100, 4000]), None);
    let nothing = Line0Found {
        place: None,
        first_field: -1,
        confidence: -1,
    };
    assert_eq!(
        conclude(nothing, Some(Line0Place::Pulse { start: 4000 })).place,
        Some(Line0Place::Pulse { start: 4000 })
    );
}

#[test]
fn lines_are_refined_by_their_edges() {
    let initial: Vec<u32> = (0..9).map(|line| single(100.0 * line as f32)).collect();
    let mut refiner = match LineRefiner::new(&initial, &[0; 9]) {
        Ok(refiner) => refiner,
        Err(error) => panic!("{}", error.message()),
    };
    assert_eq!(refiner.next(true), Some(0));
    assert_eq!(refiner.porch(), None);
    refiner.left(LeftEdge::Settled {
        place: single(3.0),
        porch: single(9.0),
    });
    refiner.right(None);
    assert_eq!(refiner.porch(), Some(single(9.0)));
    // The lines of the blanking interval are passed over.
    assert_eq!(refiner.next(true), Some(7));
    assert!(refiner.wants_left());
    assert_eq!(
        refiner.left(LeftEdge::Unsettled {
            crossing: single(701.0)
        }),
        single(701.0)
    );
    refiner.right(None);
    assert_eq!(refiner.next(true), Some(8));
    refiner.left(LeftEdge::Missed);
    refiner.right(Some(RightEdge {
        place: single(802.0),
        porch: single(8.0),
    }));
    assert_eq!(refiner.next(true), None);
    let (places, bad) = refiner.finish();
    assert_eq!(places[0], single(3.0));
    // A line that was not found stays where it was.
    assert_eq!(places[7], single(700.0));
    assert_eq!(places[8], single(802.0));
    assert_eq!(bad, vec![0, 1, 1, 1, 1, 1, 1, 1, 0]);

    match LineRefiner::new(&initial, &[]) {
        Ok(_) => panic!("unequal lines were accepted"),
        Err(error) => assert_eq!(
            error.message(),
            "linebad length doesn't match linelocs length"
        ),
    }
}

#[test]
fn phases_turn_by_quarters() {
    assert_eq!(rotated_phase(0, -1), 3);
    assert_eq!(rotated_phase(3, 1), 0);
    assert_eq!(rotated_phase(2, 5), 3);
    let mut state = match PhaseState::new(Some((-1, 1)), None) {
        Ok(state) => state,
        Err(error) => panic!("{}", error.message()),
    };
    let mut phases = Vec::new();
    for _ in 0..4 {
        assert!(!state.begin_line());
        phases.push(state.current_phase);
    }
    assert_eq!(phases, vec![3, 2, 1, 0]);
    assert_eq!(state.next_start(), 1);
    state.check_track(false);
    assert!(state.begin_line());
    assert_eq!(state.current_phase, 3);
    state.check_track(true);
    assert_eq!(state.phase_ahead(), 0);
    assert_eq!(state.next_start(), 1);

    match PhaseState::new(Some((0, 0)), Some(2)) {
        Ok(_) => panic!("the track was accepted"),
        Err(error) => assert_eq!(error.message(), "chroma rotation index must be 0 or 1"),
    }
    match PhaseState::new(None, Some(2)) {
        Ok(state) => assert_eq!((state.index, state.track_rotation), (0, 2)),
        Err(_) => panic!("the turn was refused"),
    }
}

#[test]
fn fields_have_a_number_in_the_sequence() {
    assert_eq!(field_phase_id(true, true), 1);
    assert_eq!(field_phase_id(false, false), 2);
    assert_eq!(field_phase_id(true, false), 3);
    assert_eq!(field_phase_id(false, true), 4);
}

#[test]
fn tracks_are_checked_near_the_bottom() {
    assert!(!checks_rotation(100, 1, 263));
    assert!(checks_rotation(248, 1, 263));
    assert!(checks_rotation(262, 1, 263));
    assert!(!checks_rotation(263, 1, 263));
    assert!(is_in_middle(17, 264));
    assert!(!is_in_middle(16, 264));
    assert!(!is_in_middle(248, 264));
    let lines = [10, 20, 30, 40, 250];
    assert!(flips_track(&lines, &[0, 2, 2, 0, 0], 264, true));
    assert!(!flips_track(&lines, &[2, 0, 0, 2, 2], 264, true));
    assert!(flips_track(&lines, &[1, 0, 2, 1, 1], 264, false));
    assert!(!flips_track(&lines, &[0, 1, 3, 0, 0], 264, false));
}

#[test]
fn bursts_lie_inside_their_line() {
    let place = BurstPlace {
        area: (70, 120),
        line: 11,
        lineoffset: 1,
        outwidth: 910,
        phase: 2,
    };
    let carriers = [300_000; 4];
    // Ten lines, the burst, and fifty samples before it; the end counts from there.
    assert_eq!(
        burst_window(place, 239_330, &carriers, 300_000),
        Ok(BurstWindow {
            start: 9120,
            end: 9290,
            inner_start: 50,
            inner_end: 120,
            wave_start: 9170
        })
    );
    let fails = |place: BurstPlace, len: usize, carriers: &[usize], wave: usize| {
        burst_window(place, len, carriers, wave).err().unwrap()
    };
    let turned = BurstPlace { area: (120, 70), ..place };
    assert_eq!(fails(turned, 239_330, &carriers, 300_000), BurstError::EndBeforeStart);
    assert_eq!(fails(place, 9000, &carriers, 300_000), BurstError::Empty);
    assert_eq!(
        fails(BurstPlace { phase: 4, ..place }, 239_330, &carriers, 300_000),
        BurstError::PhaseOutOfRange
    );
    assert_eq!(
        fails(place, 239_330, &[100; 4], 300_000),
        BurstError::CarrierTooShort
    );
    assert_eq!(fails(place, 239_330, &carriers, 9200), BurstError::WaveTooShort);
    assert_eq!(
        BurstError::WaveTooShort.message(),
        "burst window exceeds reference waveform length"
    );
    assert_eq!(line_window(9100, 3, 1, 910), Some((1820, 2730)));
    assert_eq!(line_window(9100, 11, 1, 910), None);
    // A line before the first counts from the end.
    assert_eq!(line_window(9100, 0, 2, 910), Some((7280, 8190)));
}

#[test]
fn fields_have_the_lines_of_their_system() {
    assert_eq!(output_line_count(LineSystem::Line405), 203);
    assert_eq!(output_line_count(LineSystem::Line525), 263);
    assert_eq!(output_line_count(LineSystem::Line625), 313);
    assert_eq!(output_line_count(LineSystem::Line819), 410);
    assert_eq!(back_porch(LineSystem::Line525), (74, 124));
    assert_eq!(back_porch(LineSystem::Line625), (96, 160));
    assert_eq!(processed_lines(263, 0), 273);
    assert_eq!(searched_linecount(true), 263);
    assert_eq!(searched_linecount(false), 262);
    assert_eq!(final_lines(LineSystem::Line625, true), (312, 2));
    assert_eq!(final_lines(LineSystem::Line625, false), (313, 3));
    assert_eq!(final_lines(LineSystem::Line405, false), (202, 3));
    assert_eq!(final_lines(LineSystem::Line819, true), (410, 2));
    assert_eq!(final_lines(LineSystem::Line525, true), (263, 0));
}

#[test]
fn fields_are_numbered_while_the_input_advances() {
    assert_eq!(next_field_number(None, 5), 0);
    assert_eq!(next_field_number(Some((4, 7)), 5), 8);
    assert_eq!(next_field_number(Some((5, 7)), 5), 7);
    assert_eq!(track_of(1, 3), 0);
    assert_eq!(track_of(1, 4), 1);
    assert_eq!(track_of(0, 3), 1);
}

#[test]
fn levels_are_measured_when_in_doubt() {
    assert!(detects_levels(false, true, false));
    assert!(detects_levels(true, false, false));
    assert!(detects_levels(true, true, true));
    assert!(!detects_levels(true, true, false));
    assert!(retries_with_levels(None, 100, false));
    assert!(retries_with_levels(Some(false), 100, false));
    assert!(retries_with_levels(Some(true), 0, false));
    assert!(!retries_with_levels(Some(true), 100, false));
    assert!(!retries_with_levels(None, 100, true));
    assert!(!has_line_issues(&[1; 29]));
    assert!(has_line_issues(&[1; 30]));
    assert!(!has_line_issues(&[0; 300]));
}

#[test]
fn each_field_has_a_fate() {
    assert_eq!(field_fate(false, true, true, true, 263), FieldFate::NoPulses);
    assert_eq!(field_fate(true, false, true, true, 263), FieldFate::NoStart);
    assert_eq!(field_fate(true, true, false, true, 263), FieldFate::TooShort);
    assert_eq!(field_fate(true, true, true, true, 263), FieldFate::UntilBlanking);
    assert_eq!(
        field_fate(true, true, true, false, 263),
        FieldFate::UntilLine { line: 256 }
    );
    assert!(FieldFate::UntilBlanking.is_valid());
    assert!(!FieldFate::TooShort.is_valid());
}

#[test]
fn a_survey_of_bursts_tells_the_field() {
    let survey = [
        Some(true),
        Some(true),
        None,
        Some(false),
        Some(true),
        Some(false),
    ];
    // Two of five rise in even lines.
    assert!(is_field14(&survey));
    assert!(!is_field14(&[Some(false), Some(true), Some(false), Some(true)]));
    let mut linebad = vec![0, 0, 0, 1];
    mark_unmeasured(&survey, &mut linebad);
    assert_eq!(linebad, vec![0, 0, 1, 1]);
    assert_eq!(
        adjustable_lines(
            &survey,
            &[0, single(f32::NAN), 0, 0, 0],
            &[0, 0, 1, 1, 0, 0]
        ),
        vec![true, false, false, false, true, false]
    );
    assert_eq!(
        adjustment_sources(&[false, true, false, false, true]),
        vec![None, Some(1), Some(1), Some(1), Some(4)]
    );
    assert_eq!(surveyed_phase_id(false, false, true), 1);
    assert_eq!(surveyed_phase_id(true, false, true), 4);
}

#[test]
fn confidence_falls_where_lines_jump() {
    assert_eq!(confidence_span(300, 2, 263), Some((2, 265)));
    assert_eq!(confidence_span(200, 2, 263), Some((2, 200)));
    assert_eq!(confidence_span(4, 2, 263), None);
    assert_eq!(confidence_span(1, 2, 263), None);
    assert_eq!(sync_confidence(100, Some(true)), 45);
    assert_eq!(sync_confidence(100, Some(false)), 100);
    assert_eq!(sync_confidence(10, Some(true)), 10);
    assert_eq!(sync_confidence(70, None), 70);
}

#[test]
fn bursts_are_used_by_system() {
    assert_eq!(
        burst_use(LineSystem::Line625, ColorSystem::Pal, true, false),
        BurstUse {
            follows_phase: true,
            moves_lines: false,
            surveys: false,
            field_phase_id: Some(1)
        }
    );
    assert_eq!(
        burst_use(LineSystem::Line525, ColorSystem::Ntsc, true, false),
        BurstUse {
            follows_phase: true,
            moves_lines: true,
            surveys: false,
            field_phase_id: None
        }
    );
    assert!(!burst_use(LineSystem::Line525, ColorSystem::Ntsc, true, true).moves_lines);
    assert!(!burst_use(LineSystem::Line525, ColorSystem::Pal, true, false).moves_lines);
    assert!(burst_use(LineSystem::Line525, ColorSystem::Monochrome, true, false).surveys);
}

#[test]
fn chroma_takes_its_path() {
    assert_eq!(
        chroma_path(false, ColorSystem::Ntsc, false, false, false),
        ChromaPath::Skipped
    );
    assert_eq!(
        chroma_path(true, ColorSystem::Secam, true, false, false),
        ChromaPath::Multiplied
    );
    assert_eq!(
        chroma_path(true, ColorSystem::Ntsc, false, false, false),
        ChromaPath::Mixed {
            deemphasis: true,
            turned: true,
            comb: Some(1)
        }
    );
    assert_eq!(
        chroma_path(true, ColorSystem::Pal, false, true, false),
        ChromaPath::Mixed {
            deemphasis: false,
            turned: false,
            comb: Some(2)
        }
    );
    assert_eq!(after_burst(2, 910, 120), (1945, 2730));
    let lines = colour_lines(263 * 910, 910, 263, 70, 120);
    assert_eq!(lines.len(), 247);
    assert_eq!((lines[0].start, lines[0].end), (14_560, 15_470));
    assert_eq!((lines[0].burst_start, lines[0].burst_end), (14_630, 14_680));
}

#[test]
fn white_is_around_a_hundred() {
    let levels = [double(50.0), double(90.0), double(100.0)];
    assert_eq!(white_place(&levels), Some(1));
    assert_eq!(white_place(&[double(110.5), double(f64::NAN)]), None);
    assert_eq!(samples_above_zero(&[1024, 1000, 65535], 1024), vec![0, 65512, 64511]);
    assert_eq!(finite_ratio(double(42.5)), Some(double(42.5)));
    assert_eq!(finite_ratio(double(f64::INFINITY)), None);
    assert_eq!(finite_ratio(double(f64::NAN)), None);
    assert_eq!(finite_ratio(double(-1.5)), Some(double(-1.5)));
}
