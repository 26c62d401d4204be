use std::io::{Cursor, Read};

use tape_decode::binding::{validate_binding, BoundedRead};
use tape_decode::digest::{domain_digest, CanonicalNumericPlanIdentity};
use tape_decode::plan::{Binding, PlanFile, Section};
use tape_decode::plan_error::{Encoding, PlanError, PlanFault, SectionFault};
use tape_decode::section_table::SectionTable;
use tape_decode::vectors::{complex_f32, f32_section};

const HEADER_LEN: usize = 212;

fn test_binding() -> Binding {
    Binding {
        request_digest: [0x11; 32],
        profile_digest: [0x22; 32],
        scalar_witness_digest: [0x33; 32],
        fft_witness_digest: [0x44; 32],
        input_frequency_bits: 28.636_363_f64.to_bits(),
        block_size: 32768,
        field_length: 478_660,
    }
}

fn test_plan() -> PlanFile {
    PlanFile {
        binding: test_binding(),
        sections: vec![
            f32_section("signed_values", &vec![0x8000_0000, 0x7fc0_1234]),
            complex_f32("complex_values", &vec![(0x3f80_0000, 0xbf80_0000)]),
        ],
    }
}

fn decode_error(bytes: &[u8]) -> PlanError {
    match PlanFile::decode(bytes) {
        Ok(_) => panic!("the file was accepted"),
        Err(error) => error,
    }
}

fn seal(encoded: &mut Vec<u8>) {
    let payload_len = encoded.len() - HEADER_LEN;
    encoded[172..180].copy_from_slice(&(payload_len as u64).to_le_bytes());
    let digest = blake3::hash(&encoded[HEADER_LEN..]);
    encoded[180..212].copy_from_slice(digest.as_bytes());
}

#[test]
fn binary_round_trip_preserves_exact_float_bits() {
    let encoded = test_plan().encode().unwrap();
    let decoded = PlanFile::decode(&encoded).unwrap();
    assert_eq!(decoded.binding, test_binding());
    assert_eq!(decoded.sections, test_plan().sections);
    assert_eq!(decoded.sections[0].values, vec![0x8000_0000, 0x7fc0_1234]);
    assert_eq!(
        CanonicalNumericPlanIdentity::for_bytes(&encoded)
            .to_text()
            .len(),
        64
    );
}

#[test]
fn payload_corruption_is_rejected() {
    let mut encoded = test_plan().encode().unwrap();
    *encoded.last_mut().unwrap() ^= 1;
    let error = decode_error(&encoded).message();
    assert!(error.contains("payload BLAKE3 mismatch"), "{error}");
}

#[test]
fn binding_reports_profile_rate_and_options_separately() {
    let expected = test_binding();

    let mut actual = expected;
    actual.profile_digest[0] ^= 1;
    assert!(validate_binding(actual, expected)
        .err()
        .unwrap()
        .message()
        .contains("different resolved profile"));

    let mut actual = expected;
    actual.input_frequency_bits ^= 1;
    assert!(validate_binding(actual, expected)
        .err()
        .unwrap()
        .message()
        .contains("input rate mismatch"));

    let mut actual = expected;
    actual.request_digest[0] ^= 1;
    assert!(validate_binding(actual, expected)
        .err()
        .unwrap()
        .message()
        .contains("different resolved decode options"));

    let mut actual = expected;
    actual.scalar_witness_digest[0] ^= 1;
    assert!(validate_binding(actual, expected)
        .err()
        .unwrap()
        .message()
        .contains("scalar witness mismatch"));

    let mut actual = expected;
    actual.fft_witness_digest[0] ^= 1;
    assert!(validate_binding(actual, expected)
        .err()
        .unwrap()
        .message()
        .contains("FFT witness mismatch"));
}

#[test]
fn section_shape_mismatch_is_rejected() {
    let one = 1.0f32.to_bits();
    let two = 2.0f32.to_bits();
    let mut sections =
        SectionTable::from_sections(vec![f32_section("values", &vec![one, two])]).unwrap();
    let error = sections
        .take_matching(&f32_section("values", &vec![0]))
        .err()
        .unwrap()
        .message();
    assert!(error.contains("shape mismatch"), "{error}");
}

#[test]
fn trailing_payload_bytes_are_rejected_even_with_valid_digest() {
    let plan = test_plan();
    let mut encoded = plan.encode().unwrap();
    encoded.push(0);
    let payload_len = encoded.len() - HEADER_LEN;
    let payload_len_offset = 172;
    encoded[payload_len_offset..payload_len_offset + 8]
        .copy_from_slice(&(payload_len as u64).to_le_bytes());
    let payload_digest_offset = 180;
    let digest = blake3::hash(&encoded[HEADER_LEN..]);
    encoded[payload_digest_offset..payload_digest_offset + 32].copy_from_slice(digest.as_bytes());
    let error = decode_error(&encoded).message();
    assert!(error.contains("trailing bytes"), "{error}");
}

fn read_bounded(
    input: &mut Cursor<Vec<u8>>,
    advertised_len: u64,
    maximum_len: u64,
) -> Result<Vec<u8>, PlanError> {
    let read = BoundedRead::plan(advertised_len, maximum_len)?;
    let mut bytes = Vec::with_capacity(read.capacity);
    input.take(read.limit).read_to_end(&mut bytes).unwrap();
    read.accept(bytes)
}

#[test]
fn bounded_read_accepts_the_limit_and_rejects_growth_past_it() {
    let mut exact = Cursor::new(vec![0u8; 8]);
    assert_eq!(read_bounded(&mut exact, 8, 8).unwrap().len(), 8);
    assert_eq!(exact.position(), 8);

    // Simulate a file that advertised one byte, then grew before the read.
    let mut grown = Cursor::new(vec![0u8; 32]);
    let error = read_bounded(&mut grown, 1, 8).err().unwrap().message();
    assert!(error.contains("8-byte safety limit"), "{error}");
    assert_eq!(grown.position(), 9, "reader must stop at limit plus one");
}

#[test]
fn bounded_read_has_no_limit_past_the_last() {
    assert_eq!(
        BoundedRead::plan(1, u64::MAX).err().unwrap(),
        PlanError::Plan {
            fault: PlanFault::ReadLimitOverflow
        }
    );
    let read = BoundedRead::plan(100, 8).unwrap();
    assert_eq!((read.limit, read.capacity, read.maximum), (9, 8, 8));
}

#[test]
fn identity_is_the_digest_of_the_file() {
    let identity = CanonicalNumericPlanIdentity::for_bytes(b"tape");
    assert_eq!(identity.as_bytes(), blake3::hash(b"tape").as_bytes());
    assert_eq!(
        identity.to_text(),
        blake3::hash(b"tape").to_hex().to_string()
    );
    assert_eq!(
        domain_digest("domain\0", b"{}"),
        *blake3::hash(b"domain\0{}").as_bytes()
    );
}

#[test]
fn equal_plans_have_equal_files() {
    assert_eq!(test_plan().encode(), test_plan().encode());
    let encoded = test_plan().encode().unwrap();
    let again = PlanFile::decode(&encoded).unwrap().encode().unwrap();
    assert_eq!(encoded, again);
    assert_eq!(&encoded[..8], b"TDNPLAN\0");
}

#[test]
fn every_header_fault_is_reported() {
    let good = test_plan().encode().unwrap();

    assert_eq!(
        decode_error(&good[..100]),
        PlanError::Plan {
            fault: PlanFault::Truncated
        }
    );

    let mut bytes = good.clone();
    bytes[0] ^= 1;
    assert_eq!(
        decode_error(&bytes),
        PlanError::Plan {
            fault: PlanFault::NotAPlan
        }
    );

    let mut bytes = good.clone();
    bytes[8] = 2;
    assert_eq!(
        decode_error(&bytes),
        PlanError::Plan {
            fault: PlanFault::Version { found: 2 }
        }
    );

    let mut bytes = good.clone();
    bytes[12] = 1;
    assert_eq!(
        decode_error(&bytes),
        PlanError::Plan {
            fault: PlanFault::HeaderLength { found: 1 }
        }
    );

    let mut bytes = good.clone();
    bytes.push(0);
    let error = decode_error(&bytes);
    assert!(
        matches!(
            error,
            PlanError::Plan {
                fault: PlanFault::PayloadLength { .. }
            }
        ),
        "{error:?}"
    );
}

#[test]
fn every_section_fault_of_a_file_is_reported() {
    let plan = PlanFile {
        binding: test_binding(),
        sections: vec![f32_section("a", &vec![7])],
    };
    let good = plan.encode().unwrap();
    // The payload is: name length, name, encoding, rank, one dimension, count, value.
    assert_eq!(good.len() - HEADER_LEN, 2 + 1 + 1 + 1 + 8 + 8 + 4);

    let mut bytes = good.clone();
    bytes[HEADER_LEN] = 0;
    seal(&mut bytes);
    assert_eq!(
        decode_error(&bytes),
        PlanError::Plan {
            fault: PlanFault::NameLength { length: 0 }
        }
    );

    let mut bytes = good.clone();
    bytes[HEADER_LEN + 2] = b'A';
    seal(&mut bytes);
    assert_eq!(
        decode_error(&bytes),
        PlanError::Plan {
            fault: PlanFault::NameNotCanonical
        }
    );

    let mut bytes = good.clone();
    bytes[HEADER_LEN + 3] = 9;
    seal(&mut bytes);
    assert_eq!(
        decode_error(&bytes),
        PlanError::Plan {
            fault: PlanFault::UnknownEncoding { tag: 9 }
        }
    );

    let mut bytes = good.clone();
    bytes.truncate(good.len() - 1);
    seal(&mut bytes);
    let error = decode_error(&bytes);
    assert!(error.message().contains("a"), "{error:?}");
}

#[test]
fn sections_that_cannot_be_written_are_refused() {
    let section = |name: &str, dimensions: Vec<u64>| PlanFile {
        binding: test_binding(),
        sections: vec![Section::new(name, Encoding::F32, dimensions, vec![1])],
    };
    assert_eq!(
        section("", vec![1]).encode().err().unwrap(),
        PlanError::Section {
            name: String::new(),
            flaw: SectionFault::NameLength
        }
    );
    assert_eq!(
        section("Upper", vec![1]).encode().err().unwrap(),
        PlanError::Section {
            name: "Upper".to_string(),
            flaw: SectionFault::NameCharacters
        }
    );
    assert_eq!(
        section("deep", vec![1; 33]).encode().err().unwrap(),
        PlanError::Section {
            name: "deep".to_string(),
            flaw: SectionFault::TooManyDimensions
        }
    );
}

#[test]
fn tables_report_what_does_not_match() {
    let twice = vec![f32_section("a", &vec![1]), f32_section("a", &vec![2])];
    assert_eq!(
        SectionTable::from_sections(twice).err().unwrap(),
        PlanError::Section {
            name: "a".to_string(),
            flaw: SectionFault::Duplicate
        }
    );

    let mut table =
        SectionTable::from_sections(vec![f32_section("b", &vec![1]), f32_section("a", &vec![2])])
            .unwrap();
    assert_eq!(table.first_name().unwrap(), "a");
    assert_eq!(
        table.take_matching(&f32_section("c", &vec![0])).err().unwrap(),
        PlanError::Section {
            name: "c".to_string(),
            flaw: SectionFault::Missing
        }
    );
    assert_eq!(
        table.take_matching(&complex_f32("b", &vec![])).err().unwrap(),
        PlanError::Section {
            name: "b".to_string(),
            flaw: SectionFault::EncodingMismatch {
                plan: Encoding::F32,
                decoder: Encoding::ComplexF32
            }
        }
    );
    assert_eq!(
        table.take_matching(&f32_section("a", &vec![0])).unwrap().values,
        vec![2]
    );
}

#[test]
fn exact_bindings_pass_and_sizes_are_compared_last() {
    let expected = test_binding();
    assert!(validate_binding(expected, expected).is_ok());
    let mut actual = expected;
    actual.block_size = 1;
    actual.field_length = 2;
    assert_eq!(
        validate_binding(actual, expected).err().unwrap(),
        PlanError::Plan {
            fault: PlanFault::BlockSize {
                plan: 1,
                decoder: 32768
            }
        }
    );
    actual.block_size = 32768;
    assert_eq!(
        validate_binding(actual, expected).err().unwrap(),
        PlanError::Plan {
            fault: PlanFault::FieldLength {
                plan: 2,
                decoder: 478_660
            }
        }
    );
}
