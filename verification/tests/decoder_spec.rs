use tape_decode::binding::{binding_for, CanonicalError, Surroundings};
use tape_decode::digest::CanonicalNumericPlanIdentity;
use tape_decode::numeric_vectors::NumericVectors;
use tape_decode::plan::PlanFile;
use tape_decode::plan_error::{PlanError, PlanFault, SectionFault};
use tape_decode::request::{
    ColorSystem, DecodeOptions, DecodeProfile, DecodeRequest, DecoderParams, FieldOrderAction,
    LineSystem, NonlinearParams, SysParams, WowInterpolation,
};
use tape_decode::spec::{
    check_audio_notch, check_divisor, check_sharpness, check_track_phase, wanted, DecoderSpec,
    Geometry, Measured, SpecError,
};
use tape_decode::vectors::{
    assign_complex, assign_f32, assign_nested_f32, assign_nested_sos, assign_optional_f32,
    assign_sos, complex_f32, f32_section, nested_f32, nested_sos, optional_f32, sos_section, Sos,
};
use tape_decode::witness::{
    complex_witness_input, fft_witness, half_spectrum_witness_input, real_witness_input,
    scalar_witness, witness_sample, FftTrace, FftTraces,
};

fn sys() -> SysParams {
    SysParams {
        color_system: ColorSystem::Ntsc,
        fsc_mhz: (315.0f64 / 88.0).to_bits(),
        frame_lines: LineSystem::Line525,
        field_lines: [263, 262],
        line_period: 63.555f64.to_bits(),
        active_video_us: [9.45f64.to_bits(), 63.0f64.to_bits()],
        fps: 29.97f64.to_bits(),
        ire0: 3_700_000.0f32.to_bits(),
        hz_ire: 7142.857f32.to_bits(),
        vsync_ire: (-40.0f32).to_bits(),
        color_burst_us: [5.3f64.to_bits(), 7.8f64.to_bits()],
        blacksnr_slice: [1, 10, 20],
        num_pulses: 6,
        hsync_pulse_us: 4.7f64.to_bits(),
        eq_pulse_us: 2.3f64.to_bits(),
        vsync_pulse_us: 27.1f64.to_bits(),
        output_zero: 1024,
        outlinelen: 910,
        outfreq: 14.318f64.to_bits(),
        ld_vits_whitelocs: vec![[20, 14, 12]],
        burst_abs_ref: Some(4416.0f32.to_bits()),
        track_ire0_offset: [0, 0],
        nonlinear_deviation: None,
    }
}

fn request() -> DecodeRequest {
    DecodeRequest {
        decode_profile: DecodeProfile {
            sys_params: sys(),
            decoder_params: DecoderParams {
                is_composite_color: false,
                color_under_carrier: 629_370.0f64.to_bits(),
                chroma_bpf_upper: 1_200_000.0f64.to_bits(),
                chroma_bpf_order: 4,
                chroma_bpf_lower: 60_000.0f64.to_bits(),
                chroma_rotation: Some([-1, 1]),
                chroma_carrier_mult: None,
                chroma_offset: 0,
                chroma_deemphasis_enabled: false,
                chroma_audio_notch_freq: 0,
                nonlinear: NonlinearParams {
                    use_sub_deemphasis: false,
                    highpass_limit_l: 0,
                    highpass_limit_h: 0,
                    exp_scaling: 0,
                    scaling_1: None,
                    scaling_2: None,
                    logistic: None,
                    static_factor: None,
                },
                has_video_eq: false,
                has_fm_audio_channels: false,
                boost_mult: None,
            },
            decode_options: DecodeOptions {
                chroma_afc_fine_tune_fh_ratio: 0.5f64.to_bits(),
                use_fsc_notch_filter: false,
            },
        },
        inputfreq: 28.636_363f64.to_bits(),
        cafc: false,
        chroma_trap: false,
        level_detect_divisor: 3,
        sharpness: 0,
        subdeemp: false,
        fm_audio_notch: 0,
        has_notch: false,
        high_boost: None,
        disable_comb: false,
        fallback_vsync: false,
        skip_chroma: false,
        field_order_action: FieldOrderAction::Detect,
        dod_threshold_p: 0,
        dod_threshold_a: None,
        dod_hysteresis: 0,
        rf_disable_right_hsync: false,
        rf_disable_dc_offset: false,
        rf_field_order_confidence: 100,
        rf_saved_levels: false,
        rf_skip_hsync_refine: false,
        rf_export_raw_tbc: false,
        rf_ire0_adjust: false,
        rf_relaxed_line0: false,
        rf_detect_chroma_track_phase: false,
        rf_disable_burst_hsync: false,
        rf_disable_phase_correction: false,
        video_disable_diff_demod: false,
        video_nldeemp_enabled: false,
        ntscj: false,
        track_phase: None,
        wow_level_adjust_smoothing: None,
        wow_interpolation_method: WowInterpolation::Linear,
        do_dod: true,
        level_adjust: 0.1f32.to_bits(),
    }
}

fn measured() -> Measured {
    Measured {
        divided_rate: 9.5f64.to_bits(),
        y_comb: 0,
        half_frame_lines: 262.5f32.to_bits(),
        vsync_env_decimation: 64,
        geometry: Geometry {
            linelen: 1820,
            bytes_per_field: 477_751,
            field_rate: 60,
            field_rate_fifth: 12,
            field_rate_sixth: 10,
            eq_pulselen_downsampled: 21,
            linelen_downsampled: 606,
        },
    }
}

fn designed() -> NumericVectors {
    NumericVectors {
        video_eq_fft_gain: None,
        chroma_afc_narrowband: vec![],
        rf_chroma_heterodyne: vec![vec![1, 2], vec![3, 4]],
        rf_fsc_wave: vec![(5, 6)],
        chroma_burst_block_fft_gain: vec![7],
        chroma_filter_video_notch: None,
        chroma_filter_deemphasis: None,
        chroma_filter_audio_notch: None,
        chroma_filter_final: vec![Sos { words: [1, 2, 3, 4, 5, 6, 7, 8] }],
        chroma_filter_secam_under: None,
        video_rf_filter: vec![9],
        video_notch_filter: None,
        video_env_post_filter: vec![],
        video_rf_top_fft_gain: None,
        video_filter: vec![(10, 11)],
        video_nl_amplitude_lpf: vec![],
        video_nl_high_pass_f: None,
        video_fsc_notch: None,
        video05_filter: vec![(12, 13)],
        resync_vsync_env_filter: vec![],
        resync_serration_filter_base_0: vec![],
        resync_serration_filter_base_1: vec![],
        resync_serration_filter_envelope: vec![],
    }
}

fn trace(length: u64) -> FftTrace {
    FftTrace {
        length,
        words: vec![length as u32, 1],
    }
}

fn around() -> Surroundings {
    Surroundings {
        request_json: b"{\"request\":1}".to_vec(),
        profile_json: b"{\"profile\":1}".to_vec(),
        traces: FftTraces {
            block_inverse: trace(1),
            block_real_forward: trace(2),
            block_real_inverse: trace(3),
            field_forward: trace(4),
            field_inverse: trace(5),
        },
    }
}

fn spec() -> DecoderSpec {
    match DecoderSpec::new(request(), measured(), designed()) {
        Ok(spec) => spec,
        Err(error) => panic!("{error:?}"),
    }
}

#[test]
fn a_request_comes_to_a_decoder() {
    let spec = spec();
    assert_eq!(spec.scalars.color_system, ColorSystem::Ntsc);
    assert!(spec.scalars.rf_write_chroma);
    assert!(spec.write_chroma());
    assert!(!spec.scalars.rf_disable_comb);
    assert_eq!(spec.scalars.resync_divisor, 3);
    assert_eq!(spec.scalars.video_high_boost_value, None);
    assert_eq!(spec.readlen(), (1820 * 350) / 16384 * 16384);
    assert_eq!(spec.usable_blocksize(), 32768 - 2048);
    assert_eq!(spec.output_lines(), 263);
    assert_eq!(spec.samples_per_field(), 477_751);
    assert!(!spec.chroma_afc_enabled());
    assert_eq!(spec.resync_eq_pulselen(), 63);
    assert_eq!(spec.resync_linelen(), 1818);
}

#[test]
fn refused_settings_are_reported_in_order() {
    let rate = 9.5f64.to_bits();
    let mut r = request();
    r.level_detect_divisor = 0;
    assert_eq!(
        check_divisor(&r, rate),
        Err(SpecError::DivisorUnsupported { divisor: 0 })
    );
    assert_eq!(
        SpecError::DivisorUnsupported { divisor: -7 }.message("28.6"),
        "requested level detection divisor -7 is not supported"
    );
    r.level_detect_divisor = 10;
    assert_eq!(
        check_divisor(&r, 3.9f64.to_bits()),
        Err(SpecError::DivisorTooHigh { divisor: 10 })
    );
    assert_eq!(
        SpecError::DivisorTooHigh { divisor: 10 }.message("28.6"),
        "requested level detection divisor 10 too high for frequency 28.6 MHz"
    );
    assert_eq!(check_divisor(&r, rate), Ok(10));

    r.sharpness = 1;
    assert_eq!(check_sharpness(&r), Err(SpecError::SharpnessWithoutBands));
    r.decode_profile.decoder_params.has_video_eq = true;
    assert_eq!(check_sharpness(&r), Ok(true));

    r.fm_audio_notch = 1.0f64.to_bits();
    assert_eq!(
        check_audio_notch(&r),
        Err(SpecError::AudioNotchWithoutChannels)
    );
    r.fm_audio_notch = f64::EPSILON.to_bits();
    assert_eq!(check_audio_notch(&r), Ok(false));

    r.track_phase = Some(2);
    assert_eq!(check_track_phase(&r), Err(SpecError::TrackPhaseRange));
    r.track_phase = Some(1);
    assert_eq!(check_track_phase(&r), Ok(Some(1)));
    r.decode_profile.sys_params.color_system = ColorSystem::Secam;
    assert_eq!(check_track_phase(&r), Err(SpecError::TrackPhaseSecam));
}

#[test]
fn composite_colour_is_monochrome() {
    let mut r = request();
    r.decode_profile.decoder_params.is_composite_color = true;
    assert!(!wanted(&r).color_under);
    let spec = match DecoderSpec::new(r, measured(), designed()) {
        Ok(spec) => spec,
        Err(error) => panic!("{error:?}"),
    };
    assert_eq!(spec.scalars.color_system, ColorSystem::Monochrome);
    assert!(!spec.write_chroma());
}

#[test]
fn a_plan_gives_back_the_vectors() {
    let (file, identity) = spec()
        .write_canonical_numeric_plan(&request(), true, &around())
        .unwrap();
    assert_eq!(identity.as_bytes(), blake3::hash(&file).as_bytes());

    let mut other = designed();
    other.video_rf_filter = vec![77];
    let (read, again) = match DecoderSpec::new_with_canonical_numeric_plan(
        request(),
        true,
        &file,
        measured(),
        other,
        &around(),
    ) {
        Ok(read) => read,
        Err(error) => panic!("{error:?}"),
    };
    assert_eq!(read.vectors.video_rf_filter, vec![9]);
    assert_eq!(read.vectors.rf_chroma_heterodyne, vec![vec![1, 2], vec![3, 4]]);
    assert_eq!(again.to_text(), identity.to_text());
}

#[test]
fn a_plan_for_another_decoder_is_refused() {
    let (file, _) = spec()
        .write_canonical_numeric_plan(&request(), true, &around())
        .unwrap();
    let mut elsewhere = around();
    elsewhere.request_json = b"{\"request\":2}".to_vec();
    let result = DecoderSpec::new_with_canonical_numeric_plan(
        request(),
        true,
        &file,
        measured(),
        designed(),
        &elsewhere,
    );
    match result {
        Ok(_) => panic!("the plan was accepted"),
        Err(error) => assert_eq!(
            error,
            CanonicalError::Plan {
                error: PlanError::Plan {
                    fault: PlanFault::Options
                }
            }
        ),
    }

    let mut plan = PlanFile::decode(&file).unwrap();
    plan.sections.pop();
    let result = spec().with_plan(&request(), plan, &around());
    match result {
        Ok(_) => panic!("the plan was accepted"),
        Err(error) => assert!(matches!(
            error,
            PlanError::Section {
                flaw: SectionFault::Missing,
                ..
            }
        )),
    }

    let mut plan = PlanFile::decode(&file).unwrap();
    plan.sections.push(f32_section("extra", &vec![1]));
    match spec().with_plan(&request(), plan, &around()) {
        Ok(_) => panic!("the plan was accepted"),
        Err(error) => assert_eq!(
            error,
            PlanError::Section {
                name: "extra".to_string(),
                flaw: SectionFault::Unknown
            }
        ),
    }
}

#[test]
fn unsupported_requests_have_no_plan() {
    let faults = |r: &DecodeRequest, deterministic: bool| {
        match spec().write_canonical_numeric_plan(r, deterministic, &around()) {
            Ok(_) => panic!("the request was accepted"),
            Err(PlanError::Plan { fault }) => fault,
            Err(error) => panic!("{error:?}"),
        }
    };
    assert_eq!(faults(&request(), false), PlanFault::NotDeterministic);
    let mut r = request();
    r.cafc = true;
    assert_eq!(faults(&r, true), PlanFault::Cafc);
    let mut r = request();
    r.chroma_trap = true;
    assert_eq!(faults(&r, true), PlanFault::ChromaTrap);
    let mut r = request();
    r.decode_profile.decoder_params.chroma_carrier_mult = Some(0);
    assert_eq!(faults(&r, true), PlanFault::SecamMethod);
}

#[test]
fn bindings_follow_their_surroundings() {
    let binding = binding_for(&request(), &spec(), &around()).unwrap();
    assert_eq!(binding.field_length, 910 * 263);
    assert_eq!(binding.block_size, 32768);
    assert_eq!(
        binding.request_digest,
        *blake3::hash(b"tape-decode canonical numeric request v1\0{\"request\":1}").as_bytes()
    );
    assert_eq!(binding.scalar_witness_digest, scalar_witness(&spec()).unwrap());
    assert_eq!(binding.fft_witness_digest, fft_witness(&around().traces));

    let mut negative = spec();
    negative.scalars.sys.field_lines = [-1, -2];
    assert_eq!(
        binding_for(&request(), &negative, &around()).err().unwrap(),
        PlanError::Plan {
            fault: PlanFault::NegativeFieldLength
        }
    );

    let mut changed = spec();
    changed.scalars.rf_y_comb = 1;
    assert_ne!(scalar_witness(&changed).unwrap(), scalar_witness(&spec()).unwrap());
}

#[test]
fn transforms_are_witnessed_word_by_word() {
    let mut traces = around().traces;
    let before = fft_witness(&traces);
    traces.field_inverse.words[1] = 2;
    assert_ne!(before, fft_witness(&traces));
    assert_eq!(complex_witness_input(3).len(), 3);
    assert_eq!(real_witness_input(5).len(), 5);
    assert_eq!(half_spectrum_witness_input(3, 4).len(), 3);
    // (1 * 73 + 1 * 29) % 257 - 128 and (1 * 73 + 2 * 29) % 257 - 128.
    assert_eq!(complex_witness_input(2)[1], (-26, 3));
    assert_eq!(witness_sample(1, 1), -26);
}

#[test]
fn vectors_keep_their_bits() {
    let mut target = vec![0, 0];
    assign_f32(&mut target, &f32_section("a", &vec![0x7fc0_0001, 0x8000_0000]));
    assert_eq!(target, vec![0x7fc0_0001, 0x8000_0000]);

    let mut pairs = vec![(0, 0)];
    assign_complex(&mut pairs, &complex_f32("a", &vec![(1, 2)]));
    assert_eq!(pairs, vec![(1, 2)]);

    let one = Sos { words: [1, 2, 3, 4, 5, 6, 7, 8] };
    let zero = Sos { words: [0; 8] };
    let mut sections = vec![zero];
    assign_sos(&mut sections, &sos_section("a", &vec![one]));
    assert_eq!(sections, vec![one]);

    let mut rows = vec![vec![0], vec![0, 0]];
    assign_nested_f32(&mut rows, &nested_f32("a", &vec![vec![1], vec![2, 3]]));
    assert_eq!(rows, vec![vec![1], vec![2, 3]]);

    let mut filters = vec![vec![zero], vec![]];
    assign_nested_sos(&mut filters, &nested_sos("a", &vec![vec![one], vec![]]));
    assert_eq!(filters, vec![vec![one], vec![]]);

    let mut optional = Some(vec![0]);
    assign_optional_f32(&mut optional, &optional_f32("a", &Some(vec![4])));
    assert_eq!(optional, Some(vec![4]));
}

#[test]
fn a_field_that_is_too_long_has_no_binding() {
    let mut long = request();
    long.decode_profile.sys_params.outlinelen = usize::MAX;
    let spec = match DecoderSpec::new(long, measured(), designed()) {
        Ok(spec) => spec,
        Err(error) => panic!("{error:?}"),
    };
    assert_eq!(
        binding_for(&request(), &spec, &around()).err().unwrap(),
        PlanError::Plan {
            fault: PlanFault::FieldLengthOverflow
        }
    );
}

#[test]
fn a_plan_does_not_mend_a_refused_request() {
    let bytes = match spec().write_canonical_numeric_plan(&request(), true, &around()) {
        Ok((bytes, _)) => bytes,
        Err(error) => panic!("{error:?}"),
    };
    let mut refused = request();
    refused.level_detect_divisor = 11;
    let result = DecoderSpec::new_with_canonical_numeric_plan(
        refused,
        true,
        &bytes,
        measured(),
        designed(),
        &around(),
    );
    match result {
        Err(CanonicalError::Spec { fault }) => {
            assert_eq!(fault, SpecError::DivisorUnsupported { divisor: 11 })
        }
        Err(error) => panic!("{error:?}"),
        Ok(_) => panic!("the request was accepted"),
    }
}

#[test]
fn a_plan_is_bound_to_the_rate_of_its_request() {
    let decoder_rate = request().inputfreq;
    let mut faster = request();
    faster.inputfreq = 40.0f64.to_bits();
    let binding = binding_for(&faster, &spec(), &around()).unwrap();
    assert_eq!(spec().scalars.freq, decoder_rate);
    assert_eq!(binding.input_frequency_bits, 40.0f64.to_bits());

    let (file, _) = spec()
        .write_canonical_numeric_plan(&faster, true, &around())
        .unwrap();
    let plan = PlanFile::decode(&file).unwrap();
    assert_eq!(plan.binding.input_frequency_bits, 40.0f64.to_bits());
    assert!(spec().with_plan(&faster, plan, &around()).is_ok());

    let plan = PlanFile::decode(&file).unwrap();
    let error = spec().with_plan(&request(), plan, &around()).err().unwrap();
    assert_eq!(
        error,
        PlanError::Plan {
            fault: PlanFault::InputRate {
                plan: 40.0f64.to_bits(),
                request: decoder_rate
            }
        }
    );
    assert_eq!(
        error.message(),
        format!(
            "numeric-plan input rate mismatch: plan has f64 bits {:016x}, request has {:016x}",
            40.0f64.to_bits(),
            decoder_rate
        )
    );
}

#[test]
fn identities_are_their_bytes() {
    let first = CanonicalNumericPlanIdentity::for_bytes(b"plan");
    let second = CanonicalNumericPlanIdentity::for_bytes(b"plan");
    let other = CanonicalNumericPlanIdentity::for_bytes(b"plam");
    assert_eq!(first.as_bytes(), blake3::hash(b"plan").as_bytes());
    assert!(first == second && first.as_bytes() == second.as_bytes());
    assert!(first != other && first.as_bytes() != other.as_bytes());
}

#[test]
fn every_kind_of_scalar_is_witnessed() {
    let before = scalar_witness(&spec()).unwrap();
    let changes: [fn(&mut DecoderSpec); 13] = [
        |spec| spec.scalars.freq ^= 1,
        |spec| spec.scalars.color_system = ColorSystem::Pal,
        |spec| spec.scalars.sys.frame_lines = LineSystem::Line625,
        |spec| spec.scalars.sys.field_lines = [262, 263],
        |spec| spec.scalars.sys.ld_vits_whitelocs = vec![[20, 12, 14]],
        |spec| spec.scalars.sys.burst_abs_ref = None,
        |spec| spec.scalars.sys.output_zero = -1024,
        |spec| spec.scalars.decoder.chroma_rotation = None,
        |spec| spec.scalars.decoder.nonlinear.logistic = Some((0, 0)),
        |spec| spec.scalars.field_order_action = FieldOrderAction::Nothing,
        |spec| spec.scalars.rf_relaxed_line0 = true,
        |spec| spec.scalars.track_phase = Some(0),
        |spec| spec.scalars.wow_interpolation_method = WowInterpolation::Cubic,
    ];
    let mut seen = vec![before];
    for change in changes {
        let mut changed = spec();
        change(&mut changed);
        let witness = scalar_witness(&changed).unwrap();
        assert!(!seen.contains(&witness));
        seen.push(witness);
    }
    let mut filtered = spec();
    filtered.vectors.video_rf_filter = vec![99];
    assert_eq!(scalar_witness(&filtered).unwrap(), before);
}

#[test]
fn fields_are_read_by_their_lines() {
    let mut spec = spec();
    spec.scalars.sys.frame_lines = LineSystem::Line819;
    assert_eq!(spec.readlen(), 1820 * 500);
    spec.scalars.sys.frame_lines = LineSystem::Line625;
    assert_eq!(spec.readlen(), 1820 * 400);
    spec.geometry.linelen = usize::MAX / 400;
    assert_eq!(spec.readlen(), usize::MAX / 400 * 400);
}
