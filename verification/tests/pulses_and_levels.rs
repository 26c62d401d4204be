use tape_decode::arbitrage::{vsync_arbitrage, vsync_arbitrage_quadratic_reference};
use tape_decode::classify::{
    expected_first_field, gives_up, hsync_lengths, longest_hsync_run, run_line_lengths,
    Classifier, ClassifyError, Request,
};
use tape_decode::field_order::InterFieldState;
use tape_decode::levels::{
    blacklevel_pulses, count_lengths, envelope_plan, level_counts, level_source, recenters,
    reflect_pad, serration_block, serration_edges, serration_span, vsync_locations,
    EnvelopeSegment, FieldStateState, LevelOutcome, LevelSearch, LevelSource, LevelStep,
    StackableMa, VsyncSerrationState,
};
use tape_decode::ordering::{median_sample_count, sort};
use tape_decode::pulses::{
    chunk_crosses, decimate, findpulses_arr_reduced, findpulses_raw, SampleRange,
};
use tape_decode::search::{
    argrelmin, burst_crossing, burst_seek, calczc_do, carrier_peak, count_rising, nb_absmax,
    slice_empty_or_out_of_range, zero_cross_det, LineMatcher, SearchError, NOT_A_NUMBER,
};
use tape_decode::vblank::{
    measure_vblank_sections, pulse_qualitycheck, run_vblank_state_machine, PulseMeasure,
    PulseRanges, PulseSample, PulseType, QualityRanges, RealBound, ValidPulses,
};

fn bits(values: &[f32]) -> Vec<u32> {
    values.iter().map(|value| value.to_bits()).collect()
}

fn range(min: i64, max: i64) -> SampleRange {
    SampleRange { min, max }
}

fn exactly(value: i64) -> RealBound {
    RealBound {
        floor: value,
        ceil: value,
    }
}

fn ranges() -> PulseRanges {
    PulseRanges {
        hsync: range(40, 54),
        long_hsync: range(55, 162),
        eq: range(15, 30),
        vsync: range(250, 290),
    }
}

fn quality() -> QualityRanges {
    QualityRanges {
        blanking: range(240, 360),
        lines: range(540, 660),
        mixed: range(240, 660),
    }
}

#[test]
fn optimized_arbitrage_preserves_inclusive_boundary_matches() {
    let minima = [0, 5, 10, 20, 21, 30, 40];
    let serrations = [0, 10, 20, 30, 40];
    assert_eq!(
        vsync_arbitrage(7, &minima, &serrations, 64),
        vsync_arbitrage_quadratic_reference(7, &minima, &serrations, 64)
    );
}

#[test]
fn optimized_arbitrage_matches_reference_for_dense_sorted_inputs() {
    let minima = (0..4096)
        .filter(|value| value % 3 != 1)
        .map(i64::from)
        .collect::<Vec<_>>();
    let serrations = (0..4096).step_by(5).map(i64::from).collect::<Vec<_>>();
    assert_eq!(
        vsync_arbitrage(120, &minima, &serrations, 5000),
        vsync_arbitrage_quadratic_reference(120, &minima, &serrations, 5000)
    );
}

#[test]
fn arbitrage_counts_each_minimum_of_an_interval() {
    assert_eq!(
        vsync_arbitrage(7, &[0, 5, 10, 20], &[0, 10, 20], 64),
        vec![0, 0, 0, 10, 10, 20]
    );
    assert_eq!(vsync_arbitrage(7, &[10], &[], 64), vec![10, 17]);
    assert_eq!(vsync_arbitrage(7, &[60], &[], 64), vec![60, 53]);
    assert_eq!(vsync_arbitrage(7, &[3], &[], 5), vec![3, 0]);
    assert_eq!(vsync_arbitrage(7, &[], &[1], 64), Vec::<i64>::new());
}

#[test]
fn arbitrage_takes_any_length() {
    let minima = [-4, 0, 5, 10, 20];
    let serrations = [-10, 0, 10, 20];
    for vsynclen in [-30, -7, 0, 7, i64::MAX] {
        assert_eq!(
            vsync_arbitrage(vsynclen, &minima, &serrations, 12),
            vsync_arbitrage_quadratic_reference(vsynclen, &minima, &serrations, 12)
        );
    }
    assert_eq!(
        vsync_arbitrage(-7, &minima, &serrations, 12),
        vec![-10, -10, 0, 0, 0, 10, 10, 20]
    );
    assert_eq!(vsync_arbitrage(-7, &[10], &[], 64), vec![10, 3]);
    assert_eq!(vsync_arbitrage(-7, &[10], &[], 4), vec![10, 17]);
    assert_eq!(
        vsync_arbitrage(-5, &[i64::MAX - 1], &[], i64::MAX),
        vec![i64::MAX - 1, i64::MAX - 6]
    );
    assert_eq!(vsync_arbitrage(i64::MAX, &[10], &[], 64), vec![10, 0]);
}

#[test]
fn pulses_lie_between_crossings() {
    let signal = bits(&[5.0, 5.0, 1.0, 1.0, 1.0, 5.0, 1.0, 5.0, 5.0, 1.0, 1.0]);
    let level = 2.0f32.to_bits();
    assert_eq!(
        findpulses_raw(&signal, level, range(2, 10)),
        (vec![2], vec![3])
    );
    assert_eq!(
        findpulses_raw(&signal, level, range(1, 10)),
        (vec![2, 6], vec![3, 1])
    );
    // A pulse that the signal opens with is none.
    assert_eq!(
        findpulses_raw(&bits(&[1.0, 1.0, 5.0]), level, range(1, 10)),
        (vec![], vec![])
    );
    assert!(chunk_crosses(&bits(&[1.0, 3.0]), level, true));
    assert!(!chunk_crosses(&bits(&[3.0, 3.0]), level, false));
}

#[test]
fn reduced_pulses_are_scaled_back() {
    let mut signal = vec![5.0f32; 60];
    for value in &mut signal[12..30] {
        *value = 1.0;
    }
    let signal = bits(&signal);
    assert_eq!(decimate(&signal, 3).len(), 20);
    assert_eq!(
        findpulses_arr_reduced(&signal, 2.0f32.to_bits(), 3, range(2, 10)),
        (vec![12], vec![18])
    );
}

#[test]
fn minima_are_below_both_neighbours() {
    assert_eq!(
        argrelmin(&bits(&[3.0, 1.0, 2.0, 2.0, 0.0, -1.0, 5.0])),
        vec![1, 5]
    );
    assert_eq!(argrelmin(&bits(&[1.0, 2.0])), Vec::<i64>::new());
    assert_eq!(argrelmin(&[]), Vec::<i64>::new());
}

#[test]
fn crossings_change_the_sign() {
    assert_eq!(
        zero_cross_det(&bits(&[1.0, -1.0, -2.0, 0.0, -0.0, 3.0])),
        vec![0, 2, 3, 4]
    );
    assert_eq!(zero_cross_det(&bits(&[f32::NAN, 1.0, 1.0])), vec![0]);
}

#[test]
fn a_level_is_reached_from_either_side() {
    let data = bits(&[0.0, 1.0, 2.0, 3.0, 2.0, 1.0]);
    let level = 2.5f32.to_bits();
    assert_eq!(calczc_do(&data, 1, level, 10, 0), Ok(Some(3)));
    assert_eq!(calczc_do(&data, 3, level, 10, 0), Ok(Some(4)));
    assert_eq!(calczc_do(&data, 1, level, 1, 1), Ok(None));
    // Already above where the search begins.
    assert_eq!(calczc_do(&data, 3, level, 10, 1), Ok(None));
    assert_eq!(
        calczc_do(&data, 6, level, 10, 0),
        Err(SearchError::StartOutOfRange)
    );
    assert_eq!(
        calczc_do(&data, -7, level, 10, 0),
        Err(SearchError::StartOutOfRange)
    );
    // Before the first sample the place counts from the end.
    assert_eq!(calczc_do(&data, -1, level, 10, 0), Ok(Some(3)));
}

#[test]
fn ranges_and_magnitudes_of_samples() {
    let min = (-1.0f32).to_bits();
    let max = 1.0f32.to_bits();
    assert!(slice_empty_or_out_of_range(&[], min, max));
    assert!(!slice_empty_or_out_of_range(&bits(&[0.0, 1.0, -1.0]), min, max));
    assert!(slice_empty_or_out_of_range(&bits(&[0.0, 1.5]), min, max));
    assert!(!slice_empty_or_out_of_range(&bits(&[f32::NAN]), min, max));
    assert_eq!(nb_absmax(&bits(&[1.0, -3.0, 2.0])), 3.0f32.to_bits());
    assert_eq!(nb_absmax(&bits(&[1.0, f32::NAN])), NOT_A_NUMBER);
    assert_eq!(nb_absmax(&[]), 0);
}

#[test]
fn bursts_go_through_zero() {
    let area = bits(&[0.1, 2.0, 1.0, -1.0, -2.0, -1.0, 1.0]);
    assert_eq!(burst_crossing(&area, 1, 16), Some(3));
    assert_eq!(burst_crossing(&area, 1, 1), None);
    let threshold = 1.5f32.to_bits();
    assert_eq!(burst_seek(&area, 0, 6, threshold), Some((3, false)));
    assert_eq!(burst_seek(&area, 3, 6, threshold), Some((6, true)));
    assert_eq!(burst_seek(&area, 5, 6, threshold), None);
    assert_eq!(count_rising(&[true, false, true, false], &[0, 1, -1, 2]), 2);
}

#[test]
fn the_nearest_peak_wins() {
    let power = bits(&[0.0, 3.0, 1.0, 5.0, 1.0, 4.0, 0.0]);
    let far: Vec<u64> = [9.0f64, 4.0, 9.0, 2.0, 9.0, 2.0, 9.0]
        .iter()
        .map(|value| value.to_bits())
        .collect();
    assert_eq!(carrier_peak(&power, &far), Some(3));
    assert_eq!(carrier_peak(&power[..3], &far[..3]), Some(1));
    assert_eq!(carrier_peak(&power[..2], &far[..2]), None);
}

#[test]
fn lines_take_the_nearest_pulses_in_order() {
    let places = [100.0f32, 200.0, 290.0, 400.0];
    let place_bits = bits(&places);
    let limit = (100.0f32 / 1.5).to_bits();
    let mut matcher = LineMatcher::new();
    let mut found = Vec::new();
    for expected in [100.0f32, 200.0, 300.0, 400.0] {
        let distances: Vec<f32> = places.iter().map(|place| (place - expected).abs()).collect();
        found.push(matcher.match_line(&place_bits, &bits(&distances), limit));
    }
    // The last pulse has none after it to be compared with.
    assert_eq!(found, vec![Some(0), Some(1), Some(2), None]);
}

#[test]
fn neighbouring_pulses_are_checked_by_kind() {
    let q = quality();
    assert!(pulse_qualitycheck(PulseType::Hsync, 0, PulseType::Hsync, 600, &q));
    assert!(!pulse_qualitycheck(PulseType::Hsync, 0, PulseType::Hsync, 300, &q));
    assert!(pulse_qualitycheck(PulseType::Hsync, 0, PulseType::Eqpl1, 300, &q));
    assert!(!pulse_qualitycheck(PulseType::Eqpl1, 0, PulseType::Vsync, 600, &q));
}

fn blanking_pulses(start: i64) -> Vec<PulseSample> {
    let mut pulses = vec![
        PulseSample { start, len: 47 },
        PulseSample { start: start + 600, len: 47 },
    ];
    let mut at = start + 1200;
    for len in [23; 6] {
        pulses.push(PulseSample { start: at, len });
        at += 300;
    }
    for len in [270; 6] {
        pulses.push(PulseSample { start: at, len });
        at += 300;
    }
    for len in [23; 6] {
        pulses.push(PulseSample { start: at, len });
        at += 300;
    }
    pulses.push(PulseSample { start: at + 300, len: 47 });
    pulses
}

fn section_ends(pulses: &[PulseSample]) -> Vec<RealBound> {
    pulses
        .iter()
        .map(|pulse| exactly(pulse.start + 1740))
        .collect()
}

#[test]
fn a_blanking_interval_is_followed_to_its_end() {
    let pulses = blanking_pulses(1000);
    let (done, train) =
        run_vblank_state_machine(&pulses, &section_ends(&pulses), &ranges(), &quality());
    assert!(done);
    assert_eq!(train.types.len(), 21);
    assert_eq!(train.types[2], PulseType::Eqpl1);
    assert_eq!(train.types[8], PulseType::Vsync);
    assert_eq!(train.types[14], PulseType::Eqpl2);
    assert_eq!(train.types[20], PulseType::Hsync);
    assert!(!train.good[0]);
    assert!(train.good[1..].iter().all(|&good| good));

    // Without the pulses after the vertical sync the interval has no end.
    let (done, train) = run_vblank_state_machine(
        &pulses[..14],
        &section_ends(&pulses[..14]),
        &ranges(),
        &quality(),
    );
    assert!(!done);
    assert_eq!(train.types.len(), 14);
}

#[test]
fn the_sections_of_an_interval_are_measured() {
    let pulses = blanking_pulses(1000);
    let (_, train) =
        run_vblank_state_machine(&pulses, &section_ends(&pulses), &ranges(), &quality());
    let measures: Vec<PulseMeasure> = (0..train.types.len())
        .map(|index| PulseMeasure {
            half_lines: if index == 0 {
                0
            } else {
                (train.starts[index] - train.starts[index - 1]) / 300
            },
            past_field: false,
        })
        .collect();
    let (marks, lengths) = measure_vblank_sections(&train, &measures);
    assert_eq!(
        marks,
        [Some(2), Some(8), Some(14), Some(19), None, None, None, None]
    );
    assert_eq!(lengths, [2, 2, -2, -2]);
}

#[test]
fn pulses_are_classified_with_a_blanking_interval() {
    let mut pulses = vec![
        PulseSample { start: 100, len: 47 },
        PulseSample { start: 400, len: 5 },
    ];
    pulses.extend(blanking_pulses(700));
    let starts: Vec<i64> = pulses.iter().map(|pulse| pulse.start).collect();
    let lengths: Vec<i64> = pulses.iter().map(|pulse| pulse.len).collect();
    let mut classifier = match Classifier::new(&starts, &lengths) {
        Ok(classifier) => classifier,
        Err(error) => panic!("{error:?}"),
    };
    let request = classifier.advance(&[], &ranges(), &quality()).unwrap();
    assert_eq!(request, Request::Sections { from: 2, to: 23 });
    let ends = section_ends(&classifier.raw_pulses()[2..23]);
    classifier.follow(&ends, &ranges(), &quality());
    assert_eq!(
        classifier.advance(&[], &ranges(), &quality()),
        Ok(Request::Finished)
    );
    let valid = classifier.into_valid();
    assert_eq!(valid.types.len(), 22);
    assert_eq!(valid.starts[0], 100);
    assert_eq!(valid.starts[1], 700);
    assert_eq!(valid.types[3], PulseType::Eqpl1);
}

#[test]
fn a_long_pulse_is_looked_at_again() {
    let mut signal = vec![5.0f32; 400];
    for value in &mut signal[110..200] {
        *value = 3.0;
    }
    for value in &mut signal[120..167] {
        *value = 1.0;
    }
    let demod = bits(&signal);
    let mut classifier = match Classifier::new(&[110], &[90]) {
        Ok(classifier) => classifier,
        Err(error) => panic!("{error:?}"),
    };
    assert_eq!(
        classifier.advance(&demod, &ranges(), &quality()),
        Ok(Request::Level {
            first: 3.0f32.to_bits()
        })
    );
    classifier
        .correct(&demod, 2.0f32.to_bits(), range(3, 1000))
        .unwrap();
    assert_eq!(
        classifier.raw_pulses()[0],
        PulseSample { start: 120, len: 47 }
    );
    assert_eq!(
        classifier.advance(&demod, &ranges(), &quality()),
        Ok(Request::Finished)
    );
    assert_eq!(classifier.into_valid().starts, vec![120]);

    let mut outside = match Classifier::new(&[1000], &[90]) {
        Ok(classifier) => classifier,
        Err(error) => panic!("{error:?}"),
    };
    let error = outside.advance(&demod, &ranges(), &quality()).err().unwrap();
    assert_eq!(error, ClassifyError::EmptyWindow);
    assert_eq!(error.message(), "long-pulse correction slice is empty");
    match Classifier::new(&[1], &[]) {
        Ok(_) => panic!("unequal lists were accepted"),
        Err(error) => assert_eq!(
            error.message(),
            "raw pulse starts and lengths must have equal length"
        ),
    }
}

#[test]
fn line_lengths_come_from_the_longest_run() {
    let h = PulseType::Hsync;
    let v = PulseType::Vsync;
    assert_eq!(longest_hsync_run(&[v, h, h, v, h, h, h, v, h, h, h]), Some((4, 3)));
    assert_eq!(longest_hsync_run(&[v, v]), None);
    let starts = [0, 600, 1201, 1799, 2400, 9000];
    assert_eq!(
        run_line_lengths(&starts, Some((0, 6)), range(570, 630)),
        vec![600, 601, 598, 601]
    );
    // The last line of a run is left out.
    assert_eq!(
        run_line_lengths(&starts, Some((0, 2)), range(570, 630)),
        Vec::<i64>::new()
    );
    assert_eq!(
        run_line_lengths(&starts, None, range(570, 630)),
        Vec::<i64>::new()
    );
    assert_eq!(
        hsync_lengths(&blanking_pulses(0), range(30, 60)),
        vec![47, 47, 47]
    );
}

#[test]
fn fields_without_pulses_may_be_given_up() {
    let fresh = InterFieldState::new(None);
    assert!(gives_up(0, &fresh, false));
    assert!(!gives_up(1, &fresh, false));
    let later = fresh.after_field(5, Some(100.0f32.to_bits()), 0, true);
    assert!(!gives_up(0, &later, false));
    assert!(gives_up(0, &later, true));
    assert_eq!(expected_first_field(&fresh), None);
    assert_eq!(expected_first_field(&later), Some(0));
}

#[test]
fn medians_are_the_middle_values() {
    assert_eq!(sort(&vec![3, 1, 2, 1]), vec![1, 1, 2, 3]);
    assert_eq!(median_sample_count(&vec![5, 1, 3]), Some((3, 3)));
    assert_eq!(median_sample_count(&vec![4, 1, 3, 2]), Some((2, 3)));
    assert_eq!(median_sample_count(&vec![]), None);
}

#[test]
fn averages_forget_old_values() {
    let mut average: StackableMa<u32> = StackableMa::new(1, 2);
    average.push(1);
    assert!(!average.has_values());
    average.push(2);
    average.push(3);
    assert!(average.has_values());
    assert_eq!(average.size(), 3);
    assert_eq!(average.pull(), vec![2, 3]);
    assert_eq!(average.pull(), vec![2, 3]);
    assert_eq!(average.size(), 2);
}

#[test]
fn serration_levels_need_two_measurements() {
    let mut state = VsyncSerrationState::new();
    assert_eq!(state.sync_level_bias(), NOT_A_NUMBER);
    state.begin_pass(7);
    state.take_levels(None);
    assert!(!state.found_serration());
    state.take_levels(Some((1, 2)));
    assert!(state.found_serration());
    assert!(!state.has_levels());
    state.push_levels_internal(3, 4);
    assert!(state.has_levels());
    state.push_levels_internal(5, 6);
    let pair = state.pull_levels();
    assert_eq!((pair.sync, pair.blank), (vec![3, 5], vec![4, 6]));
    state.begin_pass(9);
    assert!(!state.found_serration());
    assert_eq!(state.sync_level_bias(), 9);
}

#[test]
fn levels_are_taken_remembered_or_unknown() {
    let low = 1.0f32.to_bits();
    let high = 2.0f32.to_bits();
    let mut state = FieldStateState::new(4);
    assert!(state.pull_levels().is_none());
    assert!(matches!(
        state.settle_levels(low, None, true, 6, true),
        LevelOutcome::Unknown
    ));
    assert!(matches!(
        state.settle_levels(low, Some(high), true, 3, true),
        LevelOutcome::Unknown
    ));
    assert!(matches!(
        state.settle_levels(low, Some(high), false, 6, true),
        LevelOutcome::Unknown
    ));
    match state.settle_levels(low, Some(high), true, 4, true) {
        LevelOutcome::Taken { sync, blank } => assert_eq!((sync, blank), (low, high)),
        _ => panic!("the levels were not taken"),
    }
    assert!(state.has_levels());
    // A black level below the sync level counts for none.
    match state.settle_levels(high, Some(low), true, 4, true) {
        LevelOutcome::Remembered(pair) => {
            assert_eq!((pair.sync, pair.blank), (vec![low], vec![high]))
        }
        _ => panic!("the levels were not remembered"),
    }
    state.set_sync_level(high);
    assert_eq!(state.pull_sync_level(), vec![low, high]);
}

#[test]
fn levels_come_from_the_best_source() {
    assert_eq!(level_source(true, true, true), LevelSource::Serration);
    assert_eq!(level_source(true, true, false), LevelSource::Field);
    assert_eq!(level_source(true, false, false), LevelSource::Defaults);
    assert_eq!(level_source(false, true, false), LevelSource::Field);
    assert_eq!(level_source(false, false, true), LevelSource::Unknown);
    let one = 1.0f32.to_bits();
    let two = 2.0f32.to_bits();
    let three = 3.0f32.to_bits();
    assert!(recenters(false, three, one, two, true));
    assert!(!recenters(false, two, one, three, true));
    assert!(!recenters(true, three, one, two, true));
    assert!(!recenters(false, three, one, two, false));
    assert_eq!(level_counts(&bits(&[0.0, 1.0, 2.0]), two, three), (2, 3));
    assert_eq!(count_lengths(&[1, 5, 9], range(5, 9)), 2);
}

#[test]
fn the_level_search_stops_goes_back_or_gives_up() {
    let mut search = LevelSearch::new();
    assert_eq!(search.look(10, 100, 12, 0), LevelStep::Raise);
    assert_eq!(search.look(20, 300, 12, 0), LevelStep::Raise);
    assert_eq!(search.look(30, 300, 12, 0), LevelStep::Raise);
    // The same count twice in a row is confirmed.
    assert_eq!(search.look(40, 300, 12, 0), LevelStep::Stop);

    let mut search = LevelSearch::new();
    assert_eq!(search.look(20, 300, 8, 0), LevelStep::Raise);
    assert_eq!(search.look(30, 300, 6, 0), LevelStep::Back { level: 20 });

    let mut search = LevelSearch::new();
    for level in 0..29 {
        assert_eq!(search.look(level, 0, 0, 0), LevelStep::Raise);
    }
    assert_eq!(search.look(29, 0, 0, 0), LevelStep::Exhausted);
}

#[test]
fn black_is_measured_around_the_interval() {
    // Lines of 1000 samples, and four vertical syncs 500 samples apart.
    let mut starts: Vec<i64> = (0..10).map(|k| k * 1000).collect();
    starts.extend((0..4).map(|k| 10_000 + k * 500));
    starts.extend((0..10).map(|k| 12_000 + k * 1000));
    let mut lengths = vec![47i64; starts.len()];
    for length in &mut lengths[10..14] {
        *length = 270;
    }
    let locations = vsync_locations(&lengths, range(200, 300));
    assert_eq!(locations, vec![10, 11, 12, 13]);
    // The interval is widened to the end of the signal, so only what lies before
    // it is left.
    assert_eq!(
        blacklevel_pulses(&starts, &lengths, range(40, 60), &locations),
        Some(vec![5, 6, 7, 8, 9])
    );
    assert_eq!(
        blacklevel_pulses(&starts, &lengths, range(40, 60), &[]),
        None
    );
    let twelve: Vec<usize> = (10..22).map(|k| if k < 14 { k } else { 13 }).collect();
    assert_eq!(
        blacklevel_pulses(&starts, &lengths, range(40, 60), &twelve),
        Some(vec![5, 6, 7, 8, 9, 14, 15, 16, 17, 18, 19, 20, 21, 22])
    );
}

#[test]
fn serrations_are_nine_to_twelve_pulses() {
    assert_eq!(serration_block(1000, 500, 300), (200, 800));
    assert_eq!(serration_block(1000, 100, 300), (0, 400));
    assert_eq!(serration_block(1000, 900, 300), (600, 999));
    let crossings: Vec<i64> = (0..20).map(|k| 100 + k * 50 + (k % 2) * 10).collect();
    // Every other distance is 60 samples: ten of them.
    assert_eq!(
        serration_edges(&crossings, range(55, 65)),
        Some((100, 1000))
    );
    assert_eq!(serration_edges(&crossings[..9], range(55, 65)), None);
    assert_eq!(serration_edges(&[], range(0, 1)), None);
    assert_eq!(
        serration_span(5000, 200, 100, 1000, 21, range(900, 920)),
        Some((300, 1210))
    );
    assert_eq!(serration_span(5000, 200, 100, 1000, 21, range(0, 900)), None);
}

#[test]
fn the_front_of_a_signal_is_mirrored() {
    assert_eq!(reflect_pad(&[1, 2, 3, 4], 2), vec![2, 1, 1, 2, 3, 4]);
    assert_eq!(reflect_pad(&[1, 2], 5), vec![2, 1, 1, 2]);
}

#[test]
fn an_envelope_covers_every_sample() {
    let plan = envelope_plan(18, 4);
    assert_eq!(plan.block_count, 4);
    assert_eq!(plan.lead, 2);
    assert_eq!(
        plan.segments,
        vec![
            EnvelopeSegment { block: 0, from: 2, to: 6 },
            EnvelopeSegment { block: 1, from: 6, to: 10 },
            EnvelopeSegment { block: 2, from: 10, to: 14 },
        ]
    );
    assert_eq!(plan.tail, 14);
}

#[test]
fn a_train_is_checked_as_it_grows() {
    let mut train = ValidPulses::new();
    train.push(PulseType::Hsync, 0, &quality());
    train.push(PulseType::Hsync, 600, &quality());
    train.push(PulseType::Hsync, 700, &quality());
    assert_eq!(train.good, vec![false, true, false]);
}
