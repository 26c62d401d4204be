//! How a plan file is laid out, byte by byte, and how numbers are spelled.
use vstd::prelude::*;

use vstd::arithmetic::power::pow;

use crate::bytes;
use crate::digest;
use crate::plan;
use crate::plan::{PlanView, SectionView};
use crate::plan_error::{Encoding, PlanErrorView, PlanFault, SectionFault};
use crate::plan_read;
use crate::section_table;
use crate::text;

verus! {

/// The bytes of a number are its digits to the base of 256, the least significant first.
pub proof fn law_le_digits(value: nat, width: nat, index: int)
    requires
        0 <= index < width,
    ensures
        bytes::le_bytes(value, width).len() == width,
        bytes::le_bytes(value, width)[index] == (value as int / pow(256, index as nat)) % 256,
    decreases width,
{
    bytes::lemma_le_bytes_len(value, width);
    bytes::lemma_le_bytes_len(value / 256, (width - 1) as nat);
    if index == 0 {
        vstd::arithmetic::power::lemma_pow0(256);
        vstd::arithmetic::div_mod::lemma_div_basics_2(value as int);
        assert(value as int / 1 == value);
    } else {
        law_le_digits(value / 256, (width - 1) as nat, index - 1);
        vstd::arithmetic::power::lemma_pow_positive(256, (index - 1) as nat);
        vstd::arithmetic::div_mod::lemma_div_denominator(
            value as int,
            256,
            pow(256, (index - 1) as nat),
        );
        assert(pow(256, index as nat) == 256 * pow(256, (index - 1) as nat)) by {
            reveal(pow);
        }
        assert(bytes::le_bytes(value, width)[index] == bytes::le_bytes(
            value / 256,
            (width - 1) as nat,
        )[index - 1]);
    }
}

/// A signed number is written as the number from nought to two to the power of sixty-four
/// that differs from it by that power or not at all.
pub proof fn law_twos_complement(value: i64)
    ensures
        bytes::twos_complement(value) < 0x1_0000_0000_0000_0000,
        bytes::twos_complement(value) as int % 0x1_0000_0000_0000_0000 == value as int
            % 0x1_0000_0000_0000_0000,
        value >= 0 ==> bytes::twos_complement(value) == value,
{
}

/// The bytes of a file from one place up to another are the number `value`.
pub open spec fn holds_number(file: Seq<u8>, from: int, to: int, value: nat) -> bool {
    0 <= from <= to <= file.len() && bytes::le_value(file.subrange(from, to)) == value
}

/// A plan file begins with `TDNPLAN` and a zero, the version 1 and the length 212 of its
/// header. Then come the four digests of the binding, the bits of its input frequency, its
/// block size and its field length, the number of sections, the length of the payload and
/// its digest; and behind the header the payload, the sections one after the other.
#[verifier::spinoff_prover]
pub proof fn law_file_layout(plan: PlanView)
    requires
        plan.write_error() is None,
    ensures
        ({
            let file = plan.to_bytes();
            let payload = plan::sections_bytes(plan.sections);
            &&& file.len() == 212 + payload.len()
            &&& file.subrange(0, 8) == seq![84u8, 68u8, 78u8, 80u8, 76u8, 65u8, 78u8, 0u8]
            &&& holds_number(file, 8, 12, 1)
            &&& holds_number(file, 12, 16, 212)
            &&& file.subrange(16, 48) == plan.binding.request_digest@
            &&& file.subrange(48, 80) == plan.binding.profile_digest@
            &&& file.subrange(80, 112) == plan.binding.scalar_witness_digest@
            &&& file.subrange(112, 144) == plan.binding.fft_witness_digest@
            &&& holds_number(file, 144, 152, plan.binding.input_frequency_bits as nat)
            &&& holds_number(file, 152, 160, plan.binding.block_size as nat)
            &&& holds_number(file, 160, 168, plan.binding.field_length as nat)
            &&& holds_number(file, 168, 172, plan.sections.len())
            &&& holds_number(file, 172, 180, payload.len())
            &&& file.subrange(180, 212) == digest::blake3_digest(payload)@
            &&& file.subrange(212, file.len() as int) == payload
        }),
{
    let file = plan.to_bytes();
    let payload = plan::sections_bytes(plan.sections);
    let binding = plan.binding;
    bytes::lemma_le_bounds();
    bytes::lemma_le_bytes_len(1, 4);
    bytes::lemma_le_bytes_len(212, 4);
    bytes::lemma_le_bytes_len(binding.input_frequency_bits as nat, 8);
    bytes::lemma_le_bytes_len(binding.block_size as nat, 8);
    bytes::lemma_le_bytes_len(binding.field_length as nat, 8);
    bytes::lemma_le_bytes_len(plan.sections.len(), 4);
    bytes::lemma_le_bytes_len(payload.len(), 8);
    assert(file.subrange(0, 8) =~= seq![84u8, 68u8, 78u8, 80u8, 76u8, 65u8, 78u8, 0u8]);
    assert(file.subrange(8, 12) =~= bytes::le_bytes(1, 4));
    assert(file.subrange(12, 16) =~= bytes::le_bytes(212, 4));
    assert(file.subrange(16, 48) =~= binding.request_digest@);
    assert(file.subrange(48, 80) =~= binding.profile_digest@);
    assert(file.subrange(80, 112) =~= binding.scalar_witness_digest@);
    assert(file.subrange(112, 144) =~= binding.fft_witness_digest@);
    assert(file.subrange(144, 152) =~= bytes::le_bytes(binding.input_frequency_bits as nat, 8));
    assert(file.subrange(152, 160) =~= bytes::le_bytes(binding.block_size as nat, 8));
    assert(file.subrange(160, 168) =~= bytes::le_bytes(binding.field_length as nat, 8));
    assert(file.subrange(168, 172) =~= bytes::le_bytes(plan.sections.len(), 4));
    assert(file.subrange(172, 180) =~= bytes::le_bytes(payload.len(), 8));
    assert(file.subrange(180, 212) =~= digest::blake3_digest(payload)@);
    assert(file.subrange(212, file.len() as int) =~= payload);
    bytes::lemma_le_round_trip(1, 4);
    bytes::lemma_le_round_trip(212, 4);
    bytes::lemma_le_round_trip(binding.input_frequency_bits as nat, 8);
    bytes::lemma_le_round_trip(binding.block_size as nat, 8);
    bytes::lemma_le_round_trip(binding.field_length as nat, 8);
    bytes::lemma_le_round_trip(plan.sections.len(), 4);
    bytes::lemma_le_round_trip(payload.len(), 8);
}

/// A section has the length of its name in two bytes and the name, a byte for its encoding
/// and one for the number of its dimensions, eight bytes for each dimension, eight for the
/// number of its values and four for each value.
#[verifier::spinoff_prover]
pub proof fn law_section_layout(section: SectionView)
    requires
        section.write_error() is None,
    ensures
        ({
            let written = section.to_bytes();
            let name = plan::name_bytes(section.name);
            let shape = 4 + name.len() as int;
            let values = shape + 8 * section.dimensions.len() + 8;
            &&& written.len() == values + 4 * section.values.len()
            &&& holds_number(written, 0, 2, name.len())
            &&& written.subrange(2, 2 + name.len() as int) == name
            &&& written[2 + name.len() as int] == section.encoding.tag()
            &&& written[3 + name.len() as int] == section.dimensions.len()
            &&& forall|k: int|
                0 <= k < section.dimensions.len() ==> holds_number(
                    written,
                    shape + 8 * k,
                    shape + 8 * k + 8,
                    #[trigger] section.dimensions[k] as nat,
                )
            &&& holds_number(written, values - 8, values, section.values.len())
            &&& forall|k: int|
                0 <= k < section.values.len() ==> holds_number(
                    written,
                    values + 4 * k,
                    values + 4 * k + 4,
                    #[trigger] section.values[k] as nat,
                )
        }),
{
    let written = section.to_bytes();
    let name = plan::name_bytes(section.name);
    let shape = 4 + name.len() as int;
    let values = shape + 8 * section.dimensions.len() + 8;
    bytes::lemma_le_bounds();
    bytes::lemma_le_bytes_len(name.len(), 2);
    bytes::lemma_le_bytes_len(section.values.len(), 8);
    bytes::lemma_le_round_trip(name.len(), 2);
    bytes::lemma_le_round_trip(section.values.len(), 8);
    assert(written.subrange(0, 2) =~= bytes::le_bytes(name.len(), 2));
    assert(written.subrange(2, 2 + name.len() as int) =~= name);
    assert(written.subrange(values - 8, values) =~= bytes::le_bytes(section.values.len(), 8));
    assert forall|k: int| 0 <= k < section.dimensions.len() implies holds_number(
        written,
        shape + 8 * k,
        shape + 8 * k + 8,
        #[trigger] section.dimensions[k] as nat,
    ) by {
        let value = section.dimensions[k] as nat;
        bytes::lemma_le_bytes_len(value, 8);
        bytes::lemma_le_round_trip(value, 8);
        let part = written.subrange(shape + 8 * k, shape + 8 * k + 8);
        assert forall|i: int| 0 <= i < 8 implies part[i] == bytes::le_bytes(value, 8)[i] by {
            assert((8 * k + i) / 8 == k && (8 * k + i) % 8 == i);
            assert(part[i] == plan::u64s_bytes(section.dimensions)[8 * k + i]);
        }
        assert(part =~= bytes::le_bytes(value, 8));
    }
    assert forall|k: int| 0 <= k < section.values.len() implies holds_number(
        written,
        values + 4 * k,
        values + 4 * k + 4,
        #[trigger] section.values[k] as nat,
    ) by {
        let value = section.values[k] as nat;
        bytes::lemma_le_bytes_len(value, 4);
        bytes::lemma_le_round_trip(value, 4);
        let part = written.subrange(values + 4 * k, values + 4 * k + 4);
        assert forall|i: int| 0 <= i < 4 implies part[i] == bytes::le_bytes(value, 4)[i] by {
            assert((4 * k + i) / 4 == k && (4 * k + i) % 4 == i);
            assert(part[i] == plan::u32s_bytes(section.values)[4 * k + i]);
        }
        assert(part =~= bytes::le_bytes(value, 4));
    }
}

/// Every encoding has a tag of its own, from 1 to 8, in the order in which plain values,
/// pairs and filter sections stand alone, nested and optional, and no other tag is known.
pub proof fn law_tags(encoding: Encoding, tag: u8)
    ensures
        1 <= encoding.tag() <= 8,
        Encoding::of_tag(encoding.tag()) == Some(encoding),
        Encoding::of_tag(tag) is Some <==> 1 <= tag <= 8,
        Encoding::of_tag(tag) is Some ==> Encoding::of_tag(tag)->0.tag() == tag,
        Encoding::F32.tag() == 1 && Encoding::ComplexF32.tag() == 2 && Encoding::SosF32.tag() == 3,
        Encoding::NestedF32.tag() == 4 && Encoding::NestedSosF32.tag() == 5,
        Encoding::OptionalF32.tag() == 6 && Encoding::OptionalComplexF32.tag() == 7,
        Encoding::OptionalSosF32.tag() == 8,
{
}

/// A section is refused exactly for a name of no bytes or more than 96, or of anything but
/// lower-case letters, digits and underscores, for more than 32 dimensions or for more than
/// 67108863 values, whichever comes first.
pub proof fn law_sections_refused(section: SectionView)
    ensures
        ({
            let name = plan::name_bytes(section.name);
            let plain = forall|i: int|
                0 <= i < name.len() ==> 97 <= #[trigger] name[i] <= 122 || 48 <= name[i] <= 57
                    || name[i] == 95;
            let error = section.write_error();
            &&& error is None <==> 1 <= name.len() <= 96 && plain && section.dimensions.len() <= 32
                && section.values.len() <= 67_108_863
            &&& name.len() == 0 || name.len() > 96 ==> error == Some(
                PlanErrorView::Section { name: section.name, flaw: SectionFault::NameLength },
            )
            &&& 1 <= name.len() <= 96 && !plain ==> error == Some(
                PlanErrorView::Section { name: section.name, flaw: SectionFault::NameCharacters },
            )
            &&& 1 <= name.len() <= 96 && plain && section.dimensions.len() > 32 ==> error == Some(
                PlanErrorView::Section {
                    name: section.name,
                    flaw: SectionFault::TooManyDimensions,
                },
            )
        }),
{
    let name = plan::name_bytes(section.name);
    assert(plan::name_bytes_ok(name) == forall|i: int|
        0 <= i < name.len() ==> 97 <= #[trigger] name[i] <= 122 || 48 <= name[i] <= 57 || name[i]
            == 95) by {
        if plan::name_bytes_ok(name) {
            assert forall|i: int| 0 <= i < name.len() implies 97 <= #[trigger] name[i] <= 122
                || 48 <= name[i] <= 57 || name[i] == 95 by {
                assert(plan::name_byte(name[i]));
            }
        }
    }
}

/// A plan is refused exactly for more than 64 sections, for the first section that is
/// refused, or for a file of more than 268435456 bytes.
pub proof fn law_plans_refused(plan: PlanView)
    ensures
        plan.sections.len() > 64 ==> plan.write_error() == Some(
            PlanErrorView::Plan { fault: PlanFault::TooManySections },
        ),
        plan.write_error() is None <==> {
            &&& plan.sections.len() <= 64
            &&& forall|i: int|
                0 <= i < plan.sections.len() ==> (#[trigger] plan.sections[i]).write_error() is None
            &&& plan::sections_bytes(plan.sections).len() + 212 <= 268_435_456
        },
        forall|i: int|
            0 <= i < plan.sections.len() <= 64 && (#[trigger] plan.sections[i]).write_error()
                is Some && (forall|j: int|
                0 <= j < i ==> (#[trigger] plan.sections[j]).write_error() is None)
                ==> plan.write_error() == plan.sections[i].write_error(),
{
    lemma_first_refused(plan.sections);
}

proof fn lemma_first_refused(sections: Seq<SectionView>)
    ensures
        plan::sections_write_error(sections) is None <==> forall|i: int|
            0 <= i < sections.len() ==> (#[trigger] sections[i]).write_error() is None,
        forall|i: int|
            0 <= i < sections.len() && (#[trigger] sections[i]).write_error() is Some && (forall|
                j: int,
            |
                0 <= j < i ==> (#[trigger] sections[j]).write_error() is None)
                ==> plan::sections_write_error(sections) == sections[i].write_error(),
    decreases sections.len(),
{
    if sections.len() > 0 {
        let before = sections.drop_last();
        let last = sections.len() - 1;
        lemma_first_refused(before);
        assert forall|i: int| 0 <= i < before.len() implies before[i] == sections[i] by {}
        assert(sections.last() == sections[last]);
        if plan::sections_write_error(sections) is None {
            assert forall|i: int| 0 <= i < sections.len() implies (
            #[trigger] sections[i]).write_error() is None by {
                if i < last {
                    assert(before[i].write_error() is None);
                }
            }
        }
        if forall|i: int|
            0 <= i < sections.len() ==> (#[trigger] sections[i]).write_error() is None {
            assert forall|i: int| 0 <= i < before.len() implies (
            #[trigger] before[i]).write_error() is None by {
                assert(sections[i].write_error() is None);
            }
        }
        assert forall|i: int|
            0 <= i < sections.len() && (#[trigger] sections[i]).write_error() is Some && (forall|
                j: int,
            |
                0 <= j < i ==> (#[trigger] sections[j]).write_error() is None) implies
            plan::sections_write_error(sections) == sections[i].write_error() by {
            if i < last {
                assert(before[i].write_error() is Some);
                assert forall|j: int| 0 <= j < i implies (
                #[trigger] before[j]).write_error() is None by {
                    assert(sections[j].write_error() is None);
                }
            } else {
                assert forall|j: int| 0 <= j < before.len() implies (
                #[trigger] before[j]).write_error() is None by {
                    assert(sections[j].write_error() is None);
                }
            }
        }
    }
}

/// The number that decimal or hexadecimal digits spell, the most significant first.
pub open spec fn spelled(digits: Seq<char>, base: nat) -> nat
    decreases digits.len(),
{
    if digits.len() == 0 {
        0
    } else {
        base * spelled(digits.drop_last(), base) + digit_value(digits.last())
    }
}

/// What a digit counts.
pub open spec fn digit_value(digit: char) -> nat {
    if digit >= 'a' {
        (digit as nat - 97 + 10) as nat
    } else {
        (digit as nat - 48) as nat
    }
}

/// A number is spelled in decimal by digits alone, without leading noughts, and they spell
/// the number.
pub proof fn law_decimal(value: nat)
    ensures
        ({
            let digits = text::decimal(value);
            &&& digits.len() > 0
            &&& spelled(digits, 10) == value
            &&& forall|i: int| 0 <= i < digits.len() ==> '0' <= #[trigger] digits[i] <= '9'
            &&& digits.len() > 1 ==> digits[0] != '0'
        }),
    decreases value,
{
    let digits = text::decimal(value);
    if value < 10 {
        assert(digits.drop_last() =~= Seq::empty());
        assert(spelled(digits.drop_last(), 10) == 0);
        lemma_digit(value);
    } else {
        law_decimal(value / 10);
        lemma_digit(value % 10);
        assert(digits.drop_last() =~= text::decimal(value / 10));
        assert(digits[0] == text::decimal(value / 10)[0]);
        if text::decimal(value / 10).len() == 1 && text::decimal(value / 10)[0] == '0' {
            assert(text::decimal(value / 10).drop_last() =~= Seq::empty());
            assert(spelled(text::decimal(value / 10).drop_last(), 10) == 0);
            assert(digit_value('0') == 0);
            assert(text::decimal(value / 10).last() == '0');
            assert(value / 10 == 0);
        }
    }
}

proof fn lemma_digit(value: nat)
    requires
        value < 16,
    ensures
        digit_value(text::digit(value)) == value,
        value < 10 ==> '0' <= text::digit(value) <= '9',
        value >= 10 ==> 'a' <= text::digit(value) <= 'f',
{
}

/// A number that fits is spelled by so many hexadecimal digits, in lower case, and they
/// spell the number.
pub proof fn law_hexadecimal(value: nat, width: nat)
    requires
        value < pow(16, width),
    ensures
        ({
            let digits = text::hexadecimal(value, width);
            &&& digits.len() == width
            &&& spelled(digits, 16) == value
            &&& forall|i: int|
                0 <= i < digits.len() ==> '0' <= #[trigger] digits[i] <= '9' || 'a' <= digits[i]
                    <= 'f'
        }),
    decreases width,
{
    if width == 0 {
        vstd::arithmetic::power::lemma_pow0(16);
    } else {
        assert(pow(16, width) == 16 * pow(16, (width - 1) as nat)) by {
            reveal(pow);
        }
        law_hexadecimal(value / 16, (width - 1) as nat);
        lemma_digit(value % 16);
        assert(text::hexadecimal(value, width).drop_last() =~= text::hexadecimal(
            value / 16,
            (width - 1) as nat,
        ));
    }
}

/// That the names of the first sections all differ.
pub open spec fn names_differ(sections: Seq<SectionView>, count: int) -> bool {
    forall|i: int, j: int|
        0 <= i < j < count ==> (#[trigger] sections[i]).name != (#[trigger] sections[j]).name
}

/// That the section at `place` is the first with a name that an earlier one has too.
pub open spec fn first_repeated(
    sections: Seq<SectionView>,
    place: int,
    name: Seq<char>,
) -> bool {
    &&& 0 <= place < sections.len()
    &&& sections[place].name == name
    &&& names_differ(sections, place)
    &&& exists|i: int| 0 <= i < place && (#[trigger] sections[i]).name == name
}

/// A name is complained of as used twice exactly where two sections have it, and it is the
/// first one that a section has after an earlier one.
pub proof fn law_duplicate_names(sections: Seq<SectionView>)
    ensures
        section_table::duplicate(sections) is None ==> names_differ(
            sections,
            sections.len() as int,
        ),
        section_table::duplicate(sections) is Some ==> exists|place: int| #[trigger]
            first_repeated(sections, place, section_table::duplicate(sections)->0),
    decreases sections.len(),
{
    if sections.len() > 0 {
        let before = sections.drop_last();
        let last = sections.len() - 1;
        law_duplicate_names(before);
        match section_table::duplicate(before) {
            Some(name) => {
                let place = choose|place: int| #[trigger] first_repeated(before, place, name);
                lemma_names_differ(before, sections, place);
                let i = choose|i: int| 0 <= i < place && (#[trigger] before[i]).name == name;
                assert(sections[i].name == name);
                assert(first_repeated(sections, place, name));
                assert(first_repeated(sections, place, section_table::duplicate(sections)->0));
            },
            None => {
                lemma_names_differ(before, sections, last);
                if section_table::named(before, sections.last().name) {
                    let i = choose|i: int|
                        0 <= i < before.len() && #[trigger] before[i].name == sections.last().name;
                    assert(sections[i].name == sections[last].name);
                    assert(first_repeated(sections, last, sections.last().name));
                    assert(first_repeated(sections, last, section_table::duplicate(sections)->0));
                } else {
                    assert(section_table::duplicate(sections) is None);
                    assert forall|i: int, j: int| 0 <= i < j < sections.len() implies (
                    #[trigger] sections[i]).name != (#[trigger] sections[j]).name by {
                        if j == last {
                            assert(before[i].name != sections.last().name);
                        }
                    }
                }
            },
        }
    }
}

proof fn lemma_names_differ(before: Seq<SectionView>, sections: Seq<SectionView>, count: int)
    requires
        count <= before.len() <= sections.len(),
        forall|i: int| 0 <= i < before.len() ==> #[trigger] before[i] == sections[i],
        names_differ(before, count),
    ensures
        names_differ(sections, count),
{
    assert forall|i: int, j: int| 0 <= i < j < count implies (#[trigger] sections[i]).name != (
    #[trigger] sections[j]).name by {
        assert(before[i].name != before[j].name);
    }
}

/// The section of a plan fits the expected one exactly where there is one of that name with
/// the same encoding, dimensions and number of values.
pub proof fn law_sections_match(
    sections: Map<Seq<char>, SectionView>,
    expected: SectionView,
)
    ensures
        section_table::match_error(sections, expected) is None <==> {
            &&& sections.dom().contains(expected.name)
            &&& sections[expected.name].encoding == expected.encoding
            &&& sections[expected.name].dimensions == expected.dimensions
            &&& sections[expected.name].values.len() == expected.values.len()
        },
{
}

/// Names are ordered by the first byte in which they differ, and a name comes before those
/// that begin with it.
pub proof fn law_first_difference(common: Seq<u8>, first: Seq<u8>, second: Seq<u8>)
    requires
        first.len() > 0 && second.len() > 0 ==> first[0] != second[0],
        first.len() > 0 || second.len() > 0,
    ensures
        section_table::bytes_less(common + first, common + second) == (first.len() == 0 || (
        second.len() > 0 && first[0] < second[0])),
    decreases common.len(),
{
    let a = common + first;
    let b = common + second;
    if common.len() == 0 {
        assert(a =~= first);
        assert(b =~= second);
    } else {
        let rest = common.subrange(1, common.len() as int);
        assert(a.subrange(1, a.len() as int) =~= rest + first);
        assert(b.subrange(1, b.len() as int) =~= rest + second);
        law_first_difference(rest, first, second);
    }
}

/// Numbers are listed in their order, with a comma and a space between two of them.
pub proof fn law_decimals(values: Seq<u64>, value: u64)
    ensures
        values.len() == 0 ==> text::decimals(values).len() == 0 && text::decimals(
            values.push(value),
        ) == text::decimal(value as nat),
        values.len() > 0 ==> text::decimals(values.push(value)) == text::decimals(values) + seq![
            ',',
            ' ',
        ] + text::decimal(value as nat),
{
    reveal_strlit(", ");
    assert(", "@ =~= seq![',', ' ']);
    assert(values.push(value).drop_last() =~= values);
}

/// A complex number is split at a plus or a minus that neither opens it nor stands behind the
/// letter of an exponent.
pub proof fn law_complex_split(text: Seq<u8>, index: int)
    ensures
        text::splits_complex(text, index) <==> {
            &&& 1 <= index < text.len()
            &&& text[index] == 43 || text[index] == 45
            &&& text[index - 1] != 101 && text[index - 1] != 69
        },
{
}

/// That a file is refused for a fault of the whole.
pub open spec fn refused(input: Seq<u8>, fault: PlanFault) -> bool {
    plan_read::read_error(input) == Some(PlanErrorView::Plan { fault })
}

/// Why a file is refused for its header: it is too large, does not begin as a plan does, or
/// names another version, another length of its header, more than 64 sections or another
/// length of its payload than it has. What is cut off before the part that would tell is
/// truncated; and what passes all of this and has another digest is refused for that.
pub proof fn law_headers_refused(input: Seq<u8>)
    ensures
        ({
            let size = input.len();
            let opens = size >= 8 && input.subrange(0, 8) == seq![
                84u8,
                68u8,
                78u8,
                80u8,
                76u8,
                65u8,
                78u8,
                0u8,
            ];
            let version = bytes::le_value(input.subrange(8, 12));
            let header = bytes::le_value(input.subrange(12, 16));
            let count = bytes::le_value(input.subrange(168, 172));
            let length = bytes::le_value(input.subrange(172, 180));
            let limit = size <= 268_435_456;
            &&& !limit ==> refused(input, PlanFault::SizeLimit { maximum: 268_435_456 })
            &&& size < 8 ==> refused(input, PlanFault::Truncated)
            &&& limit && size >= 8 && !opens ==> refused(input, PlanFault::NotAPlan)
            &&& opens && size < 12 ==> refused(input, PlanFault::Truncated)
            &&& limit && opens && size >= 12 && version != 1 ==> refused(
                input,
                PlanFault::Version { found: version as u32 },
            )
            &&& opens && 12 <= size < 16 && version == 1 ==> refused(input, PlanFault::Truncated)
            &&& limit && opens && size >= 16 && version == 1 && header != 212 ==> refused(
                input,
                PlanFault::HeaderLength { found: header as u32 },
            )
            &&& opens && 16 <= size < 172 && version == 1 && header == 212 ==> refused(
                input,
                PlanFault::Truncated,
            )
            &&& limit && opens && size >= 172 && version == 1 && header == 212 && count > 64
                ==> refused(input, PlanFault::SectionCount { count: count as u32 })
            &&& opens && 172 <= size < 212 && version == 1 && header == 212 && count <= 64
                ==> refused(input, PlanFault::Truncated)
            &&& limit && opens && size >= 212 && version == 1 && header == 212 && count <= 64
                && length != size - 212 ==> refused(
                input,
                PlanFault::PayloadLength { header: length as u64, file: (size - 212) as u64 },
            )
            &&& limit && opens && size >= 212 && version == 1 && header == 212 && count <= 64
                && length == size - 212 && digest::blake3_digest(input.skip(212))@
                != input.subrange(180, 212) ==> refused(input, PlanFault::PayloadDigest)
        }),
{
    if input.len() >= 212 {
        assert(input.skip(212) =~= plan_read::payload_of(input));
    }
}

/// Why a section is refused where it is read: its name has no bytes or more than 96, or other
/// characters than a name may have; its encoding is not known; it has more than 32 dimensions
/// or more than 67108863 values; or its values are cut off. What ends before that is
/// truncated.
pub proof fn law_section_reads_refused(payload: Seq<u8>, at: int)
    requires
        0 <= at,
    ensures
        ({
            let read = plan_read::read_section(payload, at);
            let fault = |fault: PlanFault|
                read == Err::<(SectionView, int), PlanErrorView>(PlanErrorView::Plan { fault });
            let end = payload.len() as int;
            let length = bytes::le_value(payload.subrange(at, at + 2)) as int;
            let tag = at + 2 + length;
            let name = payload.subrange(at + 2, tag);
            let named = at + 2 <= end && 1 <= length <= 96 && tag <= end && plan::name_bytes_ok(
                name,
            );
            let told = named && tag + 1 < end && 1 <= payload[tag] <= 8;
            let rank = payload[tag + 1] as int;
            let shaped = told && rank <= 32;
            let values = tag + 10 + 8 * rank;
            let count = bytes::le_value(payload.subrange(values - 8, values));
            &&& at + 2 > end ==> fault(PlanFault::Truncated)
            &&& at + 2 <= end && !(1 <= length <= 96) ==> fault(
                PlanFault::NameLength { length: length as u16 },
            )
            &&& at + 2 <= end && 1 <= length <= 96 && tag > end ==> fault(PlanFault::Truncated)
            &&& at + 2 <= end && 1 <= length <= 96 && tag <= end && !plan::name_bytes_ok(name)
                ==> fault(PlanFault::NameNotCanonical)
            &&& named && tag == end ==> fault(PlanFault::Truncated)
            &&& named && tag < end && !(1 <= payload[tag] <= 8) ==> fault(
                PlanFault::UnknownEncoding { tag: payload[tag] },
            )
            &&& named && tag + 1 == end && 1 <= payload[tag] <= 8 ==> fault(PlanFault::Truncated)
            &&& shaped && values > end ==> fault(PlanFault::Truncated)
            &&& told && rank > 32 ==> read is Err && read->Err_0 is Section
                && read->Err_0->Section_flaw == SectionFault::RankTooLarge
            &&& shaped && values <= end && count > 67_108_863 ==> read is Err
                && read->Err_0 is Section && read->Err_0->Section_flaw == SectionFault::TooLarge
            &&& shaped && values <= end && count <= 67_108_863 && values + 4 * count > end
                ==> read is Err && read->Err_0 is Section && read->Err_0->Section_flaw
                == SectionFault::ValuesTruncated
            &&& read is Ok <==> shaped && values <= end && count <= 67_108_863 && values + 4 * count
                <= end
            &&& read is Ok ==> (read->Ok_0).1 == values + 4 * count
        }),
{
}

} // verus!
