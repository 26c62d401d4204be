//! How the vectors of a decoder stand in a plan, and what a plan is bound to.
use vstd::prelude::*;

use crate::binding;
use crate::bytes;
use crate::digest;
use crate::format_laws::holds_number;
use crate::numeric_vectors;
use crate::numeric_vectors::NumericVectors;
use crate::plan::{Binding, SectionView};
use crate::plan_error::{PlanErrorView, PlanFault};
use crate::section_table;
use crate::spec::DecoderSpec;
use crate::vectors;
use crate::vectors::Sos;
use crate::witness;

verus! {

/// A vector of plain values stands in a plan as it is, with its length.
pub proof fn law_plain_vector(name: Seq<char>, values: Seq<u32>)
    requires
        values.len() <= u64::MAX,
    ensures
        ({
            let section = vectors::f32_view(name, values);
            &&& section.name == name
            &&& section.encoding.tag() == 1
            &&& section.dimensions.len() == 1 && section.dimensions[0] == values.len()
            &&& section.values == values
        }),
{
}

/// Pairs stand in a plan one after the other, with their number and a two.
pub proof fn law_pairs(name: Seq<char>, values: Seq<(u32, u32)>)
    requires
        values.len() <= u64::MAX,
    ensures
        ({
            let section = vectors::complex_view(name, values);
            &&& section.name == name
            &&& section.encoding.tag() == 2
            &&& section.dimensions.len() == 2
            &&& section.dimensions[0] == values.len() && section.dimensions[1] == 2
            &&& section.values.len() == 2 * values.len()
            &&& forall|i: int|
                0 <= i < values.len() ==> section.values[2 * i] == (#[trigger] values[i]).0
                    && section.values[2 * i + 1] == values[i].1
        }),
{
    let section = vectors::complex_view(name, values);
    assert forall|i: int| 0 <= i < values.len() implies section.values[2 * i] == (
    #[trigger] values[i]).0 && section.values[2 * i + 1] == values[i].1 by {
        assert((2 * i) % 2 == 0 && (2 * i) / 2 == i);
        assert((2 * i + 1) % 2 == 1 && (2 * i + 1) / 2 == i);
    }
}

/// Filter sections stand in a plan one after the other, eight words each, with their
/// number and an eight.
pub proof fn law_filter_sections(name: Seq<char>, sections: Seq<Sos>)
    requires
        sections.len() <= u64::MAX,
    ensures
        ({
            let section = vectors::sos_view(name, sections);
            &&& section.name == name
            &&& section.encoding.tag() == 3
            &&& section.dimensions.len() == 2
            &&& section.dimensions[0] == sections.len() && section.dimensions[1] == 8
            &&& section.values.len() == 8 * sections.len()
            &&& forall|i: int, j: int|
                0 <= i < sections.len() && 0 <= j < 8 ==> section.values[8 * i + j] == #[trigger]
                    sections[i].words@[j]
        }),
{
    let section = vectors::sos_view(name, sections);
    assert forall|i: int, j: int| 0 <= i < sections.len() && 0 <= j < 8 implies section.values[8
        * i + j] == #[trigger] sections[i].words@[j] by {
        assert((8 * i + j) / 8 == i && (8 * i + j) % 8 == j);
    }
}

/// Nested vectors and filters stand in a plan one after the other, with their number and
/// the length of each.
pub proof fn law_nested_vectors(
    name: Seq<char>,
    values: Seq<Vec<u32>>,
    filters: Seq<Vec<Sos>>,
    index: int,
)
    requires
        values.len() <= u64::MAX,
        filters.len() <= u64::MAX,
    ensures
        ({
            let section = vectors::nested_f32_view(name, values);
            let nested = vectors::nested_sos_view(name, filters);
            &&& section.encoding.tag() == 4 && nested.encoding.tag() == 5
            &&& section.name == name && nested.name == name
            &&& section.dimensions.len() == values.len() + 1
            &&& section.dimensions[0] == values.len()
            &&& 0 <= index < values.len() ==> section.dimensions[index + 1]
                == values[index]@.len() as u64
            &&& nested.dimensions.len() == filters.len() + 2
            &&& nested.dimensions[0] == filters.len() && nested.dimensions[1] == 8
            &&& 0 <= index < filters.len() ==> nested.dimensions[index + 2]
                == filters[index]@.len() as u64
        }),
{
}

/// A nested vector more adds its words behind those before it, and a nested filter the
/// words of its sections.
pub proof fn law_nested_words(
    values: Seq<Vec<u32>>,
    value: Vec<u32>,
    filters: Seq<Vec<Sos>>,
    filter: Vec<Sos>,
)
    ensures
        vectors::nested_words(values.push(value)) == vectors::nested_words(values) + value@,
        vectors::nested_words(Seq::empty()).len() == 0,
        vectors::nested_sos_words(filters.push(filter)) == vectors::nested_sos_words(filters)
            + vectors::sos_view(Seq::empty(), filter@).values,
        vectors::nested_sos_words(Seq::empty()).len() == 0,
{
    assert(values.push(value).drop_last() =~= values);
    assert(filters.push(filter).drop_last() =~= filters);
}

/// A vector that may be missing stands in a plan with a one and as it would alone, or with
/// a nought, the length nought and no values.
pub proof fn law_optional_vectors(
    name: Seq<char>,
    values: Vec<u32>,
    pairs: Vec<(u32, u32)>,
    filter: Vec<Sos>,
)
    ensures
        ({
            let some = vectors::optional_f32_view(name, Some(values));
            let none = vectors::optional_f32_view(name, None);
            &&& some.encoding.tag() == 6 && none.encoding.tag() == 6
            &&& some.name == name && none.name == name
            &&& some.values == values@ && none.values.len() == 0
            &&& some.dimensions == seq![1u64] + vectors::f32_view(name, values@).dimensions
            &&& none.dimensions == seq![0u64, 0u64]
        }),
        ({
            let some = vectors::optional_complex_view(name, Some(pairs));
            let none = vectors::optional_complex_view(name, None);
            &&& some.encoding.tag() == 7 && none.encoding.tag() == 7
            &&& some.name == name && none.name == name
            &&& some.values == vectors::complex_view(name, pairs@).values && none.values.len() == 0
            &&& some.dimensions == seq![1u64] + vectors::complex_view(name, pairs@).dimensions
            &&& none.dimensions == seq![0u64, 0u64, 2u64]
        }),
        ({
            let some = vectors::optional_sos_view(name, Some(filter));
            let none = vectors::optional_sos_view(name, None);
            &&& some.encoding.tag() == 8 && none.encoding.tag() == 8
            &&& some.name == name && none.name == name
            &&& some.values == vectors::sos_view(name, filter@).values && none.values.len() == 0
            &&& some.dimensions == seq![1u64] + vectors::sos_view(name, filter@).dimensions
            &&& none.dimensions == seq![0u64, 0u64, 8u64]
        }),
{
    let some = vectors::optional_f32_view(name, Some(values));
    assert(some.dimensions =~= seq![1u64] + vectors::f32_view(name, values@).dimensions);
    let some = vectors::optional_complex_view(name, Some(pairs));
    assert(some.dimensions =~= seq![1u64] + vectors::complex_view(name, pairs@).dimensions);
    let some = vectors::optional_sos_view(name, Some(filter));
    assert(some.dimensions =~= seq![1u64] + vectors::sos_view(name, filter@).dimensions);
}

/// A plan holds the twenty-three vectors of a decoder, each under its own name and with its
/// own values, in this order.
pub proof fn law_vectors_of_plan(vectors: NumericVectors)
    ensures
        ({
            let s = vectors.sections();
            &&& s.len() == 23
            &&& s[0] == vectors::optional_f32_view("video_eq_fft_gain"@, vectors.video_eq_fft_gain)
            &&& s[1] == vectors::nested_sos_view(
                "chroma_afc_narrowband"@,
                vectors.chroma_afc_narrowband@,
            )
            &&& s[2] == vectors::nested_f32_view(
                "rf_chroma_heterodyne"@,
                vectors.rf_chroma_heterodyne@,
            )
            &&& s[3] == vectors::complex_view("rf_fsc_wave"@, vectors.rf_fsc_wave@)
            &&& s[4] == vectors::f32_view(
                "chroma_burst_block_fft_gain"@,
                vectors.chroma_burst_block_fft_gain@,
            )
            &&& s[5] == vectors::optional_sos_view(
                "chroma_filter_video_notch"@,
                vectors.chroma_filter_video_notch,
            )
            &&& s[6] == vectors::optional_sos_view(
                "chroma_filter_deemphasis"@,
                vectors.chroma_filter_deemphasis,
            )
            &&& s[7] == vectors::optional_sos_view(
                "chroma_filter_audio_notch"@,
                vectors.chroma_filter_audio_notch,
            )
            &&& s[8] == vectors::sos_view("chroma_filter_final"@, vectors.chroma_filter_final@)
            &&& s[9] == vectors::optional_sos_view(
                "chroma_filter_secam_under"@,
                vectors.chroma_filter_secam_under,
            )
            &&& s[10] == vectors::f32_view("video_rf_filter"@, vectors.video_rf_filter@)
            &&& s[11] == vectors::optional_f32_view(
                "video_notch_filter"@,
                vectors.video_notch_filter,
            )
            &&& s[12] == vectors::sos_view("video_env_post_filter"@, vectors.video_env_post_filter@)
            &&& s[13] == vectors::optional_f32_view(
                "video_rf_top_fft_gain"@,
                vectors.video_rf_top_fft_gain,
            )
            &&& s[14] == vectors::complex_view("video_filter"@, vectors.video_filter@)
            &&& s[15] == vectors::sos_view(
                "video_nl_amplitude_lpf"@,
                vectors.video_nl_amplitude_lpf@,
            )
            &&& s[16] == vectors::optional_complex_view(
                "video_nl_high_pass_f"@,
                vectors.video_nl_high_pass_f,
            )
            &&& s[17] == vectors::optional_sos_view("video_fsc_notch"@, vectors.video_fsc_notch)
            &&& s[18] == vectors::complex_view("video05_filter"@, vectors.video05_filter@)
            &&& s[19] == vectors::sos_view(
                "resync_vsync_env_filter"@,
                vectors.resync_vsync_env_filter@,
            )
            &&& s[20] == vectors::sos_view(
                "resync_serration_filter_base_0"@,
                vectors.resync_serration_filter_base_0@,
            )
            &&& s[21] == vectors::sos_view(
                "resync_serration_filter_base_1"@,
                vectors.resync_serration_filter_base_1@,
            )
            &&& s[22] == vectors::sos_view(
                "resync_serration_filter_envelope"@,
                vectors.resync_serration_filter_envelope@,
            )
        }),
{
    reveal(NumericVectors::section);
}

/// The first of the expected sections that does not fit is told, and none where all fit.
pub proof fn law_first_mismatch(
    table: Map<Seq<char>, SectionView>,
    expected: Seq<SectionView>,
)
    ensures
        numeric_vectors::first_mismatch(table, expected) is None ==> forall|i: int|
            0 <= i < expected.len() ==> section_table::match_error(
                table,
                #[trigger] expected[i],
            ) is None,
        numeric_vectors::first_mismatch(table, expected) is Some ==> exists|i: int|
            first_unfit(
                table,
                expected,
                i,
                numeric_vectors::first_mismatch(table, expected)->0,
            ),
    decreases expected.len(),
{
    if expected.len() > 0 {
        let before = expected.drop_last();
        let last = expected.len() - 1;
        law_first_mismatch(table, before);
        if numeric_vectors::first_mismatch(table, before) is Some {
            let error = numeric_vectors::first_mismatch(table, before)->0;
            let i = choose|i: int| first_unfit(table, before, i, error);
            assert forall|j: int| 0 <= j < i implies section_table::match_error(
                table,
                #[trigger] expected[j],
            ) is None by {
                assert(before[j] == expected[j]);
            }
            assert(first_unfit(table, expected, i, error));
            assert(first_unfit(
                table,
                expected,
                i,
                numeric_vectors::first_mismatch(table, expected)->0,
            ));
        } else {
            assert forall|j: int| 0 <= j < last implies section_table::match_error(
                table,
                #[trigger] expected[j],
            ) is None by {
                assert(before[j] == expected[j]);
            }
            if section_table::match_error(table, expected.last()) is Some {
                assert(first_unfit(
                    table,
                    expected,
                    last,
                    numeric_vectors::first_mismatch(table, expected)->0,
                ));
            }
        }
    }
}

/// That the section at `place` is the first that does not fit, and for what.
pub open spec fn first_unfit(
    table: Map<Seq<char>, SectionView>,
    expected: Seq<SectionView>,
    place: int,
    error: PlanErrorView,
) -> bool {
    &&& 0 <= place < expected.len()
    &&& section_table::match_error(table, expected[place]) == Some(error)
    &&& forall|j: int|
        0 <= j < place ==> section_table::match_error(table, #[trigger] expected[j]) is None
}

/// The difference between two bindings that is told is the first of these: the profile, the
/// input rate, the options, the scalar settings, the transforms, the block size and the
/// field length.
pub proof fn law_difference_told(actual: Binding, expected: Binding)
    ensures
        ({
            let told = binding::binding_fault(actual, expected);
            let profile = actual.profile_digest@ == expected.profile_digest@;
            let rate = actual.input_frequency_bits == expected.input_frequency_bits;
            let options = actual.request_digest@ == expected.request_digest@;
            let scalars = actual.scalar_witness_digest@ == expected.scalar_witness_digest@;
            let transforms = actual.fft_witness_digest@ == expected.fft_witness_digest@;
            let block = actual.block_size == expected.block_size;
            &&& told == Some(PlanFault::Profile) <==> !profile
            &&& profile && !rate <==> told == Some(
                PlanFault::InputRate {
                    plan: actual.input_frequency_bits,
                    request: expected.input_frequency_bits,
                },
            )
            &&& profile && rate && !options <==> told == Some(PlanFault::Options)
            &&& profile && rate && options && !scalars <==> told == Some(PlanFault::ScalarWitness)
            &&& profile && rate && options && scalars && !transforms <==> told == Some(
                PlanFault::FftWitness,
            )
            &&& profile && rate && options && scalars && transforms && !block <==> told == Some(
                PlanFault::BlockSize { plan: actual.block_size, decoder: expected.block_size },
            )
            &&& profile && rate && options && scalars && transforms && block && actual.field_length
                != expected.field_length <==> told == Some(
                PlanFault::FieldLength {
                    plan: actual.field_length,
                    decoder: expected.field_length,
                },
            )
        }),
{
}

/// A decoder is bound to a field of as many lines as the longer of both has, each of the
/// output length; it is not bound where that is negative or too much, or where it traps
/// chroma. The block size is 32768.
pub proof fn law_field_length_bound(rate: u64, spec: DecoderSpec, around: binding::Surroundings)
    ensures
        ({
            let first = spec.scalars.sys.field_lines@[0];
            let second = spec.scalars.sys.field_lines@[1];
            let longest = binding::longest_field(spec);
            let bound = binding::binding_at(rate, spec, around);
            let fault = binding::unbound_fault(spec);
            &&& longest >= first && longest >= second && (longest == first || longest == second)
            &&& fault is None <==> 0 <= longest && spec.scalars.sys.outlinelen * longest
                <= u64::MAX && !spec.chroma_trap
            &&& fault is None ==> bound.field_length == spec.scalars.sys.outlinelen * longest
            &&& longest < 0 <==> fault == Some(PlanFault::NegativeFieldLength)
            &&& bound.block_size == 32768
            &&& bound.input_frequency_bits == rate
        }),
{
    let longest = binding::longest_field(spec);
    if longest >= 0 {
        assert(0 <= spec.scalars.sys.outlinelen * longest) by (nonlinear_arith)
            requires
                longest >= 0,
        ;
    }
}

/// Where a label that continues a transcript ends: its length has eight bytes.
pub open spec fn label_end(t: Seq<u8>, label: Seq<char>) -> int {
    t.len() as int + 8 + vstd::utf8::encode_utf8(label).len() as int
}

/// That a transcript is continued by a label, its length in eight bytes and then itself.
pub open spec fn labelled(t: Seq<u8>, after: Seq<u8>, label: Seq<char>) -> bool {
    let name = vstd::utf8::encode_utf8(label);
    let from = t.len() as int;
    &&& after.len() >= label_end(t, label)
    &&& after.take(from) == t
    &&& holds_number(after, from, from + 8, name.len())
    &&& after.subrange(from + 8, label_end(t, label)) == name
}

proof fn lemma_labelled(t: Seq<u8>, label: Seq<char>, rest: Seq<u8>)
    requires
        vstd::utf8::encode_utf8(label).len() <= u64::MAX,
    ensures
        labelled(t, witness::with_label(t, label) + rest, label),
        witness::with_label(t, label).len() == label_end(t, label),
{
    let name = vstd::utf8::encode_utf8(label);
    let after = witness::with_label(t, label) + rest;
    let from = t.len() as int;
    bytes::lemma_le_bounds();
    bytes::lemma_le_bytes_len(name.len(), 8);
    bytes::lemma_le_round_trip(name.len(), 8);
    assert(after.take(from) =~= t);
    assert(after.subrange(from, from + 8) =~= bytes::le_bytes(name.len(), 8));
    assert(after.subrange(from + 8, label_end(t, label)) =~= name);
}

/// A setting stands in a transcript behind its label: a byte or a flag in one byte, a number
/// or the bits of a double in eight and those of a single in four, the least significant
/// byte first.
pub proof fn law_settings_in_transcript(
    t: Seq<u8>,
    label: Seq<char>,
    byte: u8,
    double: u64,
    signed: i64,
    single: u32,
)
    requires
        vstd::utf8::encode_utf8(label).len() <= u64::MAX,
    ensures
        ({
            let place = label_end(t, label);
            let bytes_in = witness::with_byte(t, label, byte);
            let doubles_in = witness::with_double(t, label, double);
            let signed_in = witness::with_signed(t, label, signed);
            let singles_in = witness::with_single(t, label, single);
            &&& labelled(t, bytes_in, label) && bytes_in.len() == place + 1
                && bytes_in[place] == byte
            &&& labelled(t, doubles_in, label) && doubles_in.len() == place + 8
                && holds_number(doubles_in, place, place + 8, double as nat)
            &&& labelled(t, signed_in, label) && signed_in.len() == place + 8
                && holds_number(
                signed_in,
                place,
                place + 8,
                bytes::twos_complement(signed),
            )
            &&& labelled(t, singles_in, label) && singles_in.len() == place + 4
                && holds_number(singles_in, place, place + 4, single as nat)
            &&& witness::with_flag(t, label, true) == witness::with_byte(t, label, 1)
            &&& witness::with_flag(t, label, false) == witness::with_byte(t, label, 0)
        }),
{
    reveal(witness::with_byte);
    reveal(witness::with_flag);
    reveal(witness::with_double);
    reveal(witness::with_signed);
    reveal(witness::with_single);
    let place = label_end(t, label);
    bytes::lemma_le_bounds();
    assert(witness::with_byte(t, label, byte) =~= witness::with_label(t, label) + seq![byte]);
    lemma_labelled(t, label, seq![byte]);
    let word = bytes::le_bytes(double as nat, 8);
    lemma_labelled(t, label, word);
    bytes::lemma_le_bytes_len(double as nat, 8);
    bytes::lemma_le_round_trip(double as nat, 8);
    assert(witness::with_double(t, label, double).subrange(place, place + 8) =~= word);
    let word = bytes::le_bytes(bytes::twos_complement(signed), 8);
    lemma_labelled(t, label, word);
    bytes::lemma_le_bytes_len(bytes::twos_complement(signed), 8);
    bytes::lemma_le_round_trip(bytes::twos_complement(signed), 8);
    assert(witness::with_signed(t, label, signed).subrange(place, place + 8) =~= word);
    let word = bytes::le_bytes(single as nat, 4);
    lemma_labelled(t, label, word);
    bytes::lemma_le_bytes_len(single as nat, 4);
    bytes::lemma_le_round_trip(single as nat, 4);
    assert(witness::with_single(t, label, single).subrange(place, place + 4) =~= word);
}

/// The values of a witness run from -128 to 128, in steps of 73 from one to the next and of
/// 29 from one salt to the next, modulo 257, as far as nothing wraps round.
pub proof fn law_witness_samples(index: usize, salt: usize)
    requires
        73 * index + 29 * salt <= usize::MAX,
    ensures
        -128 <= witness::witness_sample_spec(index, salt) <= 128,
        (witness::witness_sample_spec(index, salt) + 128 - (73 * index + 29 * salt)) % 257 == 0,
{
    let whole = usize::MAX + 1;
    let first = index * 73;
    let sum = first + salt * 29;
    assert(0 <= first <= sum < whole);
    vstd::arithmetic::div_mod::lemma_small_mod(first as nat, whole as nat);
    vstd::arithmetic::div_mod::lemma_small_mod(sum as nat, whole as nat);
    assert(witness::witness_sample_spec(index, salt) == sum % 257 - 128);
}

/// A plan is bound to the digests of the request and of the profile, each behind a domain of
/// its own, so that neither can stand for the other.
pub proof fn law_domains(rate: u64, spec: DecoderSpec, around: binding::Surroundings)
    ensures
        ({
            let bound = binding::binding_at(rate, spec, around);
            &&& bound.request_digest == digest::blake3_digest(
                vstd::utf8::encode_utf8("tape-decode canonical numeric request v1\0"@)
                    + around.request_json@,
            )
            &&& bound.profile_digest == digest::blake3_digest(
                vstd::utf8::encode_utf8("tape-decode canonical numeric profile v1\0"@)
                    + around.profile_json@,
            )
            &&& bound.scalar_witness_digest == digest::blake3_digest(
                witness::scalar_transcript(spec.scalars),
            )
            &&& bound.fft_witness_digest == digest::blake3_digest(
                witness::fft_transcript(around.traces),
            )
        }),
{
}

} // verus!
