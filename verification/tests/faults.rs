use tape_decode::binding::validate_binding;
use tape_decode::classify::{ClassifyError, Classifier};
use tape_decode::line0::{
    search_line0, Estimate, GapMeasure, Line0Input, Line0Limits, PivotMeasure, ShapeMeasure,
};
use tape_decode::plan::{is_name, Binding, PlanFile, Section};
use tape_decode::plan_error::{Encoding, PlanError, PlanFault, SectionFault};
use tape_decode::pulses::SampleRange;
use tape_decode::request::{
    color_system_tag, field_order_action_tag, wow_interpolation_tag, ColorSystem,
    FieldOrderAction, LineSystem, WowInterpolation,
};
use tape_decode::section_table::SectionTable;
use tape_decode::vblank::{PulseSample, RealBound};
use tape_decode::vectors::f32_section;

const HEADER_LEN: usize = 212;

fn binding() -> Binding {
    Binding {
        request_digest: [1; 32],
        profile_digest: [2; 32],
        scalar_witness_digest: [3; 32],
        fft_witness_digest: [4; 32],
        input_frequency_bits: 5,
        block_size: 6,
        field_length: 7,
    }
}

fn plan_of(sections: Vec<Section>) -> PlanFile {
    PlanFile {
        binding: binding(),
        sections,
    }
}

fn sealed(mut bytes: Vec<u8>) -> Vec<u8> {
    let payload_len = (bytes.len() - HEADER_LEN) as u64;
    bytes[172..180].copy_from_slice(&payload_len.to_le_bytes());
    let digest = blake3::hash(&bytes[HEADER_LEN..]);
    bytes[180..212].copy_from_slice(digest.as_bytes());
    bytes
}

fn fault(bytes: &[u8]) -> PlanFault {
    match PlanFile::decode(bytes) {
        Err(PlanError::Plan { fault }) => fault,
        Err(error) => panic!("{error:?}"),
        Ok(_) => panic!("the file was accepted"),
    }
}

fn flaw(bytes: &[u8]) -> SectionFault {
    match PlanFile::decode(bytes) {
        Err(PlanError::Section { name, flaw }) => {
            assert_eq!(name, "a");
            flaw
        }
        Err(error) => panic!("{error:?}"),
        Ok(_) => panic!("the file was accepted"),
    }
}

#[test]
fn a_plan_has_at_most_sixty_four_sections() {
    let sections = |count: usize| {
        (0..count)
            .map(|i| f32_section(&format!("s{i}"), &vec![1]))
            .collect::<Vec<_>>()
    };
    assert!(plan_of(sections(64)).encode().is_ok());
    assert_eq!(
        plan_of(sections(65)).encode().err().unwrap(),
        PlanError::Plan {
            fault: PlanFault::TooManySections
        }
    );
    let mut bytes = plan_of(sections(1)).encode().unwrap();
    bytes[168] = 65;
    assert_eq!(fault(&bytes), PlanFault::SectionCount { count: 65 });
}

#[test]
fn damaged_payloads_have_their_faults() {
    let good = plan_of(vec![f32_section("a", &vec![7])]).encode().unwrap();
    let mut bytes = good.clone();
    bytes[HEADER_LEN] ^= 1;
    assert_eq!(fault(&bytes), PlanFault::PayloadDigest);

    let mut bytes = good.clone();
    bytes.push(0);
    assert_eq!(fault(&sealed(bytes)), PlanFault::TrailingBytes { left: 1 });

    // The payload is: name length, name, encoding, rank, one dimension, count, value.
    let mut bytes = good.clone();
    bytes[HEADER_LEN + 4] = 33;
    assert_eq!(flaw(&sealed(bytes)), SectionFault::RankTooLarge);

    let mut bytes = good.clone();
    bytes[HEADER_LEN + 13..HEADER_LEN + 21].copy_from_slice(&(1u64 << 40).to_le_bytes());
    assert_eq!(flaw(&sealed(bytes)), SectionFault::TooLarge);

    let mut bytes = good.clone();
    bytes[HEADER_LEN + 13..HEADER_LEN + 21].copy_from_slice(&2u64.to_le_bytes());
    assert_eq!(flaw(&sealed(bytes)), SectionFault::ValuesTruncated);
}

#[test]
fn tables_compare_shapes_and_then_counts() {
    let table = |section: Section| SectionTable::from_sections(vec![section]).unwrap();
    assert_eq!(
        table(f32_section("a", &vec![1, 2]))
            .take_matching(&f32_section("a", &vec![1]))
            .err()
            .unwrap(),
        PlanError::Shape {
            name: "a".to_string(),
            plan: vec![2],
            decoder: vec![1]
        }
    );
    assert_eq!(
        table(Section::new("a", Encoding::F32, vec![2], vec![1]))
            .take_matching(&f32_section("a", &vec![1, 2]))
            .err()
            .unwrap(),
        PlanError::Section {
            name: "a".to_string(),
            flaw: SectionFault::ValueCount {
                plan_count: 1,
                decoder_count: 2
            }
        }
    );
}

#[test]
fn bindings_differ_in_a_fixed_order() {
    let expected = binding();
    let mut actual = Binding {
        request_digest: [0; 32],
        profile_digest: [0; 32],
        scalar_witness_digest: [0; 32],
        fft_witness_digest: [0; 32],
        input_frequency_bits: 0,
        ..expected
    };
    let fault = |actual: Binding| match validate_binding(actual, expected) {
        Err(PlanError::Plan { fault }) => fault,
        other => panic!("{other:?}"),
    };
    assert_eq!(fault(actual), PlanFault::Profile);
    actual.profile_digest = expected.profile_digest;
    assert_eq!(
        fault(actual),
        PlanFault::InputRate {
            plan: 0,
            request: 5
        }
    );
    actual.input_frequency_bits = expected.input_frequency_bits;
    assert_eq!(fault(actual), PlanFault::Options);
    actual.request_digest = expected.request_digest;
    assert_eq!(fault(actual), PlanFault::ScalarWitness);
    actual.scalar_witness_digest = expected.scalar_witness_digest;
    assert_eq!(fault(actual), PlanFault::FftWitness);
}

#[test]
fn lists_of_pulses_are_equally_long() {
    let error = Classifier::new(&[1, 2], &[3]).err().unwrap();
    assert_eq!(error, ClassifyError::UnequalLists);
    assert_eq!(
        error.message(),
        "raw pulse starts and lengths must have equal length"
    );
}

#[test]
fn settings_have_their_tags() {
    assert!(is_name(b"video_filter_05"));
    assert!(!is_name(b"video-filter"));
    assert_eq!(Encoding::try_from_tag(1), Ok(Encoding::F32));
    assert_eq!(
        Encoding::try_from_tag(0),
        Err(PlanError::Plan {
            fault: PlanFault::UnknownEncoding { tag: 0 }
        })
    );
    let colors = [
        ColorSystem::Ntsc,
        ColorSystem::Pal,
        ColorSystem::Secam,
        ColorSystem::Monochrome,
    ]
    .map(color_system_tag);
    let actions = [
        FieldOrderAction::Detect,
        FieldOrderAction::Duplicate,
        FieldOrderAction::Drop,
        FieldOrderAction::Nothing,
    ]
    .map(field_order_action_tag);
    let methods = [
        WowInterpolation::Linear,
        WowInterpolation::Quadratic,
        WowInterpolation::Cubic,
    ]
    .map(wow_interpolation_tag);
    for tags in [&colors[..], &actions[..], &methods[..]] {
        for (i, tag) in tags.iter().enumerate() {
            assert!(!tags[..i].contains(tag));
        }
    }
    assert_eq!(LineSystem::Line819.line_count(), 819);
}

fn nowhere() -> Estimate {
    Estimate {
        value: 0,
        near: SampleRange { min: 1, max: 0 },
    }
}

fn shapeless() -> ShapeMeasure {
    let bound = RealBound { floor: 0, ceil: 0 };
    ShapeMeasure {
        distinct: false,
        eq_loose: bound,
        eq_tight: bound,
        hsync_loose: bound,
        hsync_tight: bound,
    }
}

fn exactly(value: i64) -> RealBound {
    RealBound {
        floor: value,
        ceil: value,
    }
}

// Lines of a thousand samples up to 11500, five half lines, five long syncs, five
// half lines more, and lines again.
fn blanking(near: bool) -> Line0Input {
    let mut pulses = Vec::new();
    let mut push = |start: i64, len: i64| pulses.push(PulseSample { start, len });
    for line in 0..12 {
        push(500 + 1000 * line, 60);
    }
    for half in 0..5 {
        push(12_000 + 500 * half, 30);
    }
    for half in 0..5 {
        push(14_500 + 500 * half, 400);
    }
    for half in 0..6 {
        push(17_000 + 500 * half, 30);
    }
    for line in 0..4 {
        push(20_500 + 1000 * line, 60);
    }
    let measures = (0..pulses.len())
        .map(|i| {
            let mut estimates = [nowhere(); 7];
            if i == 22 {
                estimates[3] = Estimate {
                    value: 11_500.0f64.to_bits(),
                    near: if near {
                        SampleRange {
                            min: 11_421,
                            max: 11_579,
                        }
                    } else {
                        nowhere().near
                    },
                };
            }
            PivotMeasure {
                phase: vec![0; if i < 10 { 0 } else { i.min(30) - 9 }],
                estimates,
                far_estimates: [nowhere(); 3],
                ending: shapeless(),
                opening: shapeless(),
                gap: GapMeasure {
                    next_differs: false,
                    both_differ: false,
                },
            }
        })
        .collect();
    Line0Input {
        pulses,
        measures,
        limits: Line0Limits {
            spacing: exactly(450),
            half: SampleRange { min: 441, max: 559 },
            full: SampleRange {
                min: 941,
                max: 1059,
            },
            short: exactly(200),
            long: exactly(350),
            late: exactly(312_000),
        },
        relaxed: false,
        frame_lines: 625,
    }
}

#[test]
fn a_field_starts_before_its_long_syncs() {
    let found = search_line0(&blanking(true));
    assert_eq!(found.line0, Some(11_500));
    assert_eq!((found.first_field, found.confidence), (1, 100));
    assert_eq!(found.backup, Some(11_500.0f64.to_bits()));
    assert_eq!(
        (found.backup_first_field, found.backup_confidence),
        (1, 100)
    );

    // Where no pulse lies there, the reckoned start is all there is.
    let found = search_line0(&blanking(false));
    assert_eq!(found.line0, None);
    assert_eq!(found.backup, Some(11_500.0f64.to_bits()));
    assert_eq!(
        (found.backup_first_field, found.backup_confidence),
        (1, 100)
    );
}
