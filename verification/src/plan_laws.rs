//! What holds of writing and reading numeric plans together.
use vstd::prelude::*;

use crate::bytes;
use crate::digest;
use crate::plan;
use crate::plan::{PlanView, SectionView, HEADER_LEN, MAX_PLAN_BYTES, MAX_SECTIONS};
use crate::plan_error::{PlanErrorView, PlanFault};
use crate::plan_read;

verus! {

proof fn lemma_number_inside(
    payload: Seq<u8>,
    at: int,
    part: Seq<u8>,
    offset: int,
    width: nat,
    value: nat,
)
    requires
        0 <= at,
        at + part.len() <= payload.len(),
        payload.subrange(at, at + part.len()) == part,
        0 <= offset,
        offset + width <= part.len(),
        part.subrange(offset, offset + width) == bytes::le_bytes(value, width),
        value < bytes::le_bound(width),
    ensures
        plan_read::number_at(payload, at + offset, width as int) == value,
{
    assert(payload.subrange(at, at + part.len()).subrange(offset, offset + width)
        =~= payload.subrange(at + offset, at + offset + width));
    bytes::lemma_le_round_trip(value, width);
}

/// The parts of a section in a payload stand at fixed offsets.
proof fn lemma_section_parts(section: SectionView)
    ensures
        ({
            let n = plan::name_bytes(section.name).len();
            let r = section.dimensions.len();
            let c = section.values.len();
            let all = section.to_bytes();
            &&& all.len() == 12 + n + 8 * (r as int) + 4 * c
            &&& all.subrange(0, 2) == bytes::le_bytes(n, 2)
            &&& all.subrange(2, 2 + n as int) == plan::name_bytes(section.name)
            &&& all[2 + n as int] == section.encoding.tag()
            &&& all[3 + n as int] == r as u8
            &&& all.subrange(4 + n as int, 4 + n + 8 * (r as int)) == plan::u64s_bytes(section.dimensions)
            &&& all.subrange(4 + n + 8 * (r as int), 12 + n + 8 * (r as int)) == bytes::le_bytes(c, 8)
            &&& all.subrange(12 + n + 8 * (r as int), all.len() as int) == plan::u32s_bytes(section.values)
        }),
{
    let n = plan::name_bytes(section.name).len();
    let r = section.dimensions.len();
    let c = section.values.len();
    bytes::lemma_le_bytes_len(n, 2);
    bytes::lemma_le_bytes_len(c, 8);
    let all = section.to_bytes();
    assert(all.subrange(0, 2) =~= bytes::le_bytes(n, 2));
    assert(all.subrange(2, 2 + n as int) =~= plan::name_bytes(section.name));
    assert(all.subrange(4 + n as int, 4 + n + 8 * (r as int)) =~= plan::u64s_bytes(section.dimensions));
    assert(all.subrange(4 + n + 8 * (r as int), 12 + n + 8 * (r as int)) =~= bytes::le_bytes(c, 8));
    assert(all.subrange(12 + n + 8 * (r as int), all.len() as int) =~= plan::u32s_bytes(section.values));
}

proof fn lemma_read_written_section(payload: Seq<u8>, at: int, section: SectionView)
    requires
        section.write_error() is None,
        0 <= at,
        at + section.to_bytes().len() <= payload.len(),
        payload.subrange(at, at + section.to_bytes().len()) == section.to_bytes(),
    ensures
        plan_read::read_section(payload, at) == Ok::<(SectionView, int), PlanErrorView>(
            (section, at + section.to_bytes().len()),
        ),
{
    let name = plan::name_bytes(section.name);
    let n = name.len();
    let r = section.dimensions.len();
    let c = section.values.len();
    let all = section.to_bytes();
    lemma_section_parts(section);
    bytes::lemma_le_bounds();
    lemma_number_inside(payload, at, all, 0, 2, n);
    assert(payload.subrange(at, at + all.len()).subrange(2, 2 + n as int) =~= payload.subrange(
        at + 2,
        at + 2 + n,
    ));
    plan_read::lemma_name_text(name);
    assert(payload.subrange(at, at + all.len())[2 + n as int] == all[2 + n as int]);
    assert(payload.subrange(at, at + all.len())[3 + n as int] == all[3 + n as int]);
    lemma_number_inside(payload, at, all, 4 + n + 8 * (r as int), 8, c);
    let shape_at = at + 4 + n;
    assert(plan_read::u64s_at(payload, shape_at, r) =~= section.dimensions) by {
        assert forall|i: int| 0 <= i < r implies plan_read::u64s_at(payload, shape_at, r)[i]
            == #[trigger] section.dimensions[i] by {
            let offset = 4 + n + 8 * i;
            bytes::lemma_le_bytes_len(section.dimensions[i] as nat, 8);
            let words = all.subrange(4 + n as int, 4 + n + 8 * (r as int));
            assert(words.subrange(8 * i, 8 * i + 8) =~= all.subrange(offset, offset + 8));
            assert(words.subrange(8 * i, 8 * i + 8) =~= bytes::le_bytes(
                section.dimensions[i] as nat,
                8,
            ));
            lemma_number_inside(payload, at, all, offset, 8, section.dimensions[i] as nat);
        }
    }
    let values_at = at + 12 + n + 8 * (r as int);
    assert(plan_read::u32s_at(payload, values_at, c) =~= section.values) by {
        assert forall|i: int| 0 <= i < c implies plan_read::u32s_at(payload, values_at, c)[i]
            == #[trigger] section.values[i] by {
            let offset = 12 + n + 8 * (r as int) + 4 * i;
            bytes::lemma_le_bytes_len(section.values[i] as nat, 4);
            let words = all.subrange(12 + n + 8 * (r as int), all.len() as int);
            assert(words.subrange(4 * i, 4 * i + 4) =~= all.subrange(offset, offset + 4));
            assert(words.subrange(4 * i, 4 * i + 4) =~= bytes::le_bytes(
                section.values[i] as nat,
                4,
            ));
            lemma_number_inside(payload, at, all, offset, 4, section.values[i] as nat);
        }
    }
}

proof fn lemma_written_read_section(payload: Seq<u8>, at: int)
    requires
        0 <= at <= payload.len(),
        plan_read::read_section(payload, at) is Ok,
    ensures
        ({
            let (section, next) = plan_read::read_section(payload, at)->Ok_0;
            &&& section.write_error() is None
            &&& at <= next <= payload.len()
            &&& payload.subrange(at, next) == section.to_bytes()
        }),
{
    let (section, next) = plan_read::read_section(payload, at)->Ok_0;
    let n = plan_read::number_at(payload, at, 2);
    let name = payload.subrange(at + 2, at + 2 + n);
    let r = payload[at + 3 + n] as nat;
    let count_at = at + 4 + n + 8 * (r as int);
    let c = plan_read::number_at(payload, count_at, 8);
    bytes::lemma_le_bounds();
    plan_read::lemma_name_text(name);
    assert(section.name == plan_read::ascii_text(name));
    lemma_section_parts(section);
    let all = section.to_bytes();
    bytes::lemma_le_canonical(payload.subrange(at, at + 2));
    bytes::lemma_le_canonical(payload.subrange(count_at, count_at + 8));
    bytes::lemma_le_value_bound(payload.subrange(count_at, count_at + 8));
    assert(next - at == all.len());
    assert(payload.subrange(at, next) =~= all) by {
        assert forall|i: int| 0 <= i < all.len() implies payload.subrange(at, next)[i]
            == #[trigger] all[i] by {
            if i < 2 {
                assert(all.subrange(0, 2)[i] == all[i]);
                assert(payload.subrange(at, at + 2)[i] == payload[at + i]);
            } else if i < 2 + n {
                assert(all.subrange(2, 2 + n as int)[i - 2] == all[i]);
            } else if i < 4 + n {
            } else if i < 4 + n + 8 * (r as int) {
                let k = i - (4 + n);
                let word = payload.subrange(at + 4 + n + 8 * (k / 8), at + 4 + n + 8 * (k / 8) + 8);
                bytes::lemma_le_canonical(word);
                bytes::lemma_le_value_bound(word);
                assert(all.subrange(4 + n as int, 4 + n + 8 * (r as int))[k] == all[i]);
                assert(plan::u64s_bytes(section.dimensions)[k] == word[k % 8]);
            } else if i < 12 + n + 8 * (r as int) {
                let k = i - (4 + n + 8 * (r as int));
                assert(all.subrange(4 + n + 8 * (r as int), 12 + n + 8 * (r as int))[k] == all[i]);
                assert(payload.subrange(count_at, count_at + 8)[k] == payload[at + i]);
            } else {
                let k = i - (12 + n + 8 * (r as int));
                let from = count_at + 8 + 4 * (k / 4);
                let word = payload.subrange(from, from + 4);
                bytes::lemma_le_canonical(word);
                bytes::lemma_le_value_bound(word);
                assert(all.subrange(12 + n + 8 * (r as int), all.len() as int)[k] == all[i]);
                assert(plan::u32s_bytes(section.values)[k] == word[k % 4]);
            }
        }
    }
}

proof fn lemma_no_section_error(sections: Seq<SectionView>, index: int)
    requires
        0 <= index < sections.len(),
        plan::sections_write_error(sections) is None,
    ensures
        sections[index].write_error() is None,
    decreases sections.len(),
{
    if index < sections.len() - 1 {
        lemma_no_section_error(sections.drop_last(), index);
        assert(sections.drop_last()[index] == sections[index]);
    }
}

/// The bytes of the first sections open the bytes of all.
proof fn lemma_sections_prefix(sections: Seq<SectionView>, count: int)
    requires
        0 <= count <= sections.len(),
    ensures
        ({
            let part = plan::sections_bytes(sections.take(count));
            let all = plan::sections_bytes(sections);
            &&& part.len() <= all.len()
            &&& all.subrange(0, part.len() as int) == part
        }),
    decreases sections.len() - count,
{
    let part = plan::sections_bytes(sections.take(count));
    let all = plan::sections_bytes(sections);
    if count < sections.len() {
        let longer = plan::sections_bytes(sections.take(count + 1));
        lemma_sections_prefix(sections, count + 1);
        assert(sections.take(count + 1).drop_last() =~= sections.take(count));
        assert(longer.subrange(0, part.len() as int) =~= part);
        assert(all.subrange(0, longer.len() as int).subrange(0, part.len() as int)
            =~= all.subrange(0, part.len() as int));
    } else {
        assert(sections.take(count) =~= sections);
        assert(all.subrange(0, part.len() as int) =~= part);
    }
}

proof fn lemma_written_read_sections(payload: Seq<u8>, count: nat)
    requires
        plan_read::read_sections(payload, count) is Ok,
    ensures
        ({
            let (sections, at) = plan_read::read_sections(payload, count)->Ok_0;
            &&& sections.len() == count
            &&& 0 <= at <= payload.len()
            &&& plan::sections_write_error(sections) is None
            &&& payload.subrange(0, at) == plan::sections_bytes(sections)
        }),
    decreases count,
{
    if count == 0 {
        assert(payload.subrange(0, 0) =~= Seq::<u8>::empty());
    } else {
        lemma_written_read_sections(payload, (count - 1) as nat);
        let (before, at) = plan_read::read_sections(payload, (count - 1) as nat)->Ok_0;
        let (section, next) = plan_read::read_section(payload, at)->Ok_0;
        lemma_written_read_section(payload, at);
        assert(before.push(section).drop_last() =~= before);
        assert(payload.subrange(0, next) =~= payload.subrange(0, at) + payload.subrange(at, next));
    }
}

/// The header of a plan file stands at fixed offsets.
proof fn lemma_header_parts(plan: PlanView, tail: Seq<u8>)
    requires
        plan.sections.len() <= MAX_SECTIONS,
    ensures
        ({
            let file = plan.header_start() + tail;
            &&& plan.header_start().len() == 172
            &&& file.subrange(0, 8) == plan::magic()
            &&& plan_read::number_at(file, 8, 4) == plan::FORMAT_VERSION
            &&& plan_read::number_at(file, 12, 4) == HEADER_LEN
            &&& plan_read::binding_at(plan.binding, file)
            &&& plan_read::number_at(file, 168, 4) == plan.sections.len()
        }),
{
    let file = plan.header_start() + tail;
    let b = plan.binding;
    bytes::lemma_le_bounds();
    bytes::lemma_le_bytes_len(plan::FORMAT_VERSION as nat, 4);
    bytes::lemma_le_bytes_len(HEADER_LEN as nat, 4);
    bytes::lemma_le_bytes_len(b.input_frequency_bits as nat, 8);
    bytes::lemma_le_bytes_len(b.block_size as nat, 8);
    bytes::lemma_le_bytes_len(b.field_length as nat, 8);
    bytes::lemma_le_bytes_len(plan.sections.len(), 4);
    bytes::lemma_le_round_trip(plan::FORMAT_VERSION as nat, 4);
    bytes::lemma_le_round_trip(HEADER_LEN as nat, 4);
    bytes::lemma_le_round_trip(b.input_frequency_bits as nat, 8);
    bytes::lemma_le_round_trip(b.block_size as nat, 8);
    bytes::lemma_le_round_trip(b.field_length as nat, 8);
    bytes::lemma_le_round_trip(plan.sections.len(), 4);
    assert(plan.header_start().len() == 172);
    assert(file.subrange(0, 8) =~= plan::magic());
    assert(file.subrange(8, 12) =~= bytes::le_bytes(plan::FORMAT_VERSION as nat, 4));
    assert(file.subrange(12, 16) =~= bytes::le_bytes(HEADER_LEN as nat, 4));
    assert(file.subrange(16, 48) =~= b.request_digest@);
    assert(file.subrange(48, 80) =~= b.profile_digest@);
    assert(file.subrange(80, 112) =~= b.scalar_witness_digest@);
    assert(file.subrange(112, 144) =~= b.fft_witness_digest@);
    assert(file.subrange(144, 152) =~= bytes::le_bytes(b.input_frequency_bits as nat, 8));
    assert(file.subrange(152, 160) =~= bytes::le_bytes(b.block_size as nat, 8));
    assert(file.subrange(160, 168) =~= bytes::le_bytes(b.field_length as nat, 8));
    assert(file.subrange(168, 172) =~= bytes::le_bytes(plan.sections.len(), 4));
}

/// What a file reads as that has the plan's header start, the given payload,
/// and the payload's length and some digest between them.
#[verifier::spinoff_prover]
#[verifier::rlimit(50)]
proof fn lemma_file_parts(plan: PlanView, seal: [u8; 32], payload: Seq<u8>)
    requires
        plan.sections.len() <= MAX_SECTIONS,
        payload.len() + HEADER_LEN <= MAX_PLAN_BYTES,
    ensures
        ({
            let file = plan.header_start() + bytes::le_bytes(payload.len(), 8) + seal@ + payload;
            &&& file.len() == HEADER_LEN + payload.len()
            &&& plan_read::payload_of(file) == payload
            &&& file.subrange(180, 212) == seal@
            &&& plan_read::number_at(file, 172, 8) == payload.len()
            &&& plan_read::number_at(file, 168, 4) == plan.sections.len()
            &&& plan_read::binding_at(plan.binding, file)
            &&& plan_read::header_error(file) == (if digest::blake3_digest(payload)@ == seal@ {
                None
            } else {
                Some(plan_read::plan_fault(PlanFault::PayloadDigest))
            })
        }),
{
    let tail = bytes::le_bytes(payload.len(), 8) + seal@ + payload;
    let file = plan.header_start() + bytes::le_bytes(payload.len(), 8) + seal@ + payload;
    assert(file =~= plan.header_start() + tail);
    lemma_header_parts(plan, tail);
    bytes::lemma_le_bounds();
    bytes::lemma_le_bytes_len(payload.len(), 8);
    bytes::lemma_le_round_trip(payload.len(), 8);
    assert(file.subrange(172, 180) =~= bytes::le_bytes(payload.len(), 8));
    assert(file.subrange(180, 212) =~= seal@);
    assert(plan_read::payload_of(file) =~= payload);
}

/// A plan that can be written is read back from its file unchanged, down to
/// the last bit, and as nothing else.
pub proof fn law_round_trip(plan: PlanView)
    requires
        plan.write_error() is None,
    ensures
        plan_read::read_error(plan.to_bytes()) is None,
        plan_read::reads_as(plan.to_bytes(), plan),
        forall|other: PlanView|
            #[trigger] plan_read::reads_as(plan.to_bytes(), other) ==> other == plan,
{
    let payload = plan::sections_bytes(plan.sections);
    lemma_file_parts(plan, digest::blake3_digest(payload), payload);
    lemma_read_sections_before(plan.sections, Seq::empty(), plan.sections.len());
    assert(payload + Seq::<u8>::empty() =~= payload);
    assert(plan.sections.take(plan.sections.len() as int) =~= plan.sections);
    assert forall|other: PlanView| #[trigger]
        plan_read::reads_as(plan.to_bytes(), other) implies other == plan by {
        assert(other.binding.request_digest =~= plan.binding.request_digest);
        assert(other.binding.profile_digest =~= plan.binding.profile_digest);
        assert(other.binding.scalar_witness_digest =~= plan.binding.scalar_witness_digest);
        assert(other.binding.fft_witness_digest =~= plan.binding.fft_witness_digest);
    }
}

/// A file that is accepted is, byte for byte, the file that its plan is
/// written as: there is one file for each plan.
pub proof fn law_canonical(input: Seq<u8>, plan: PlanView)
    requires
        plan_read::read_error(input) is None,
        plan_read::reads_as(input, plan),
    ensures
        plan.write_error() is None,
        plan.to_bytes() == input,
{
    let payload = plan_read::payload_of(input);
    let count = plan_read::number_at(input, 168, 4);
    lemma_written_read_sections(payload, count);
    assert(payload.subrange(0, payload.len() as int) =~= payload);
    bytes::lemma_le_canonical(input.subrange(8, 12));
    bytes::lemma_le_canonical(input.subrange(12, 16));
    bytes::lemma_le_canonical(input.subrange(144, 152));
    bytes::lemma_le_canonical(input.subrange(152, 160));
    bytes::lemma_le_canonical(input.subrange(160, 168));
    bytes::lemma_le_canonical(input.subrange(168, 172));
    bytes::lemma_le_canonical(input.subrange(172, 180));
    assert(plan.header_start() =~= input.subrange(0, 172));
    assert(plan.to_bytes() =~= input);
}

/// A plan file whose payload was exchanged for one with another digest is
/// refused for its digest.
pub proof fn law_payload_corruption(plan: PlanView, payload: Seq<u8>)
    requires
        plan.write_error() is None,
        payload.len() == plan::sections_bytes(plan.sections).len(),
        digest::blake3_digest(payload) != digest::blake3_digest(
            plan::sections_bytes(plan.sections),
        ),
    ensures
        plan_read::read_error(plan.to_bytes().subrange(0, HEADER_LEN as int) + payload) == Some(
            plan_read::plan_fault(PlanFault::PayloadDigest),
        ),
{
    let old_payload = plan::sections_bytes(plan.sections);
    let seal = digest::blake3_digest(old_payload);
    lemma_file_parts(plan, seal, payload);
    lemma_file_parts(plan, seal, old_payload);
    let file = plan.header_start() + bytes::le_bytes(payload.len(), 8) + seal@ + payload;
    assert(plan.to_bytes().subrange(0, HEADER_LEN as int) + payload =~= file);
    if digest::blake3_digest(payload)@ == seal@ {
        assert(digest::blake3_digest(payload) =~= seal);
    }
}

/// Bytes after the last section are refused, though the header counts them
/// and their digest is right.
pub proof fn law_trailing_bytes(plan: PlanView, extra: Seq<u8>)
    requires
        plan.write_error() is None,
        extra.len() > 0,
        plan::sections_bytes(plan.sections).len() + extra.len() + HEADER_LEN <= MAX_PLAN_BYTES,
    ensures
        ({
            let payload = plan::sections_bytes(plan.sections) + extra;
            let file = plan.header_start() + bytes::le_bytes(payload.len(), 8)
                + digest::blake3_digest(payload)@ + payload;
            plan_read::read_error(file) == Some(
                plan_read::plan_fault(PlanFault::TrailingBytes { left: extra.len() as u64 }),
            )
        }),
{
    let payload = plan::sections_bytes(plan.sections) + extra;
    lemma_file_parts(plan, digest::blake3_digest(payload), payload);
    lemma_read_sections_before(plan.sections, extra, plan.sections.len());
    assert(plan.sections.take(plan.sections.len() as int) =~= plan.sections);
}

proof fn lemma_read_sections_before(sections: Seq<SectionView>, extra: Seq<u8>, count: nat)
    requires
        plan::sections_write_error(sections) is None,
        count <= sections.len(),
    ensures
        plan_read::read_sections(plan::sections_bytes(sections) + extra, count) == Ok::<
            (Seq<SectionView>, int),
            PlanErrorView,
        >(
            (
                sections.take(count as int),
                plan::sections_bytes(sections.take(count as int)).len() as int,
            ),
        ),
    decreases count,
{
    let written = plan::sections_bytes(sections);
    let payload = written + extra;
    if count == 0 {
        assert(sections.take(0) =~= Seq::<SectionView>::empty());
    } else {
        let shorter = sections.take(count - 1);
        let longer = sections.take(count as int);
        let section = sections[count - 1];
        let at = plan::sections_bytes(shorter).len() as int;
        lemma_read_sections_before(sections, extra, (count - 1) as nat);
        assert(longer.drop_last() =~= shorter);
        lemma_sections_prefix(sections, count as int);
        lemma_no_section_error(sections, count - 1);
        let part = plan::sections_bytes(longer);
        assert(written.subrange(0, part.len() as int).subrange(at, at + section.to_bytes().len())
            =~= payload.subrange(at, at + section.to_bytes().len()));
        assert(part.subrange(at, at + section.to_bytes().len()) =~= section.to_bytes());
        lemma_read_written_section(payload, at, section);
        assert(shorter.push(section) =~= longer);
    }
}

} // verus!
