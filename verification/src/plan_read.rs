//! Reading numeric plans back.
use vstd::prelude::*;

use crate::bytes;
use crate::bytes::Cursor;
use crate::digest;
use crate::digest::blake3_hash;
use crate::plan;
use crate::plan::{
    Binding, PlanFile, PlanView, Section, SectionView, FORMAT_VERSION, HEADER_LEN, MAX_PLAN_BYTES,
    MAX_RANK, MAX_SECTIONS, MAX_SECTION_NAME, MAX_VALUES,
};
use crate::plan_error::{from_cursor, Encoding, PlanError, PlanErrorView, PlanFault, SectionFault};

verus! {

/// The text whose characters are the given ASCII bytes.
pub open spec fn ascii_text(name: Seq<u8>) -> Seq<char> {
    Seq::new(name.len(), |i: int| name[i] as char)
}

/// The little-endian number in the `width` bytes of `payload` from `at` on.
pub open spec fn number_at(payload: Seq<u8>, at: int, width: int) -> nat {
    bytes::le_value(payload.subrange(at, at + width))
}

/// `count` eight-byte numbers from `at` on.
pub open spec fn u64s_at(payload: Seq<u8>, at: int, count: nat) -> Seq<u64> {
    Seq::new(count, |i: int| number_at(payload, at + 8 * i, 8) as u64)
}

/// `count` four-byte numbers from `at` on.
pub open spec fn u32s_at(payload: Seq<u8>, at: int, count: nat) -> Seq<u32> {
    Seq::new(count, |i: int| number_at(payload, at + 4 * i, 4) as u32)
}

pub open spec fn plan_fault(fault: PlanFault) -> PlanErrorView {
    PlanErrorView::Plan { fault }
}

/// The section that stands at `at`, and where it ends.
pub open spec fn read_section(payload: Seq<u8>, at: int) -> Result<
    (SectionView, int),
    PlanErrorView,
> {
    let end = payload.len();
    let length = number_at(payload, at, 2);
    let name_at = at + 2;
    let name = payload.subrange(name_at, name_at + length);
    let text = ascii_text(name);
    let tag_at = name_at + length;
    let tag = payload[tag_at];
    let rank = payload[tag_at + 1] as nat;
    let shape_at = tag_at + 2;
    let count_at = shape_at + 8 * rank;
    let count = number_at(payload, count_at, 8);
    let values_at = count_at + 8;
    if at + 2 > end {
        Err(plan_fault(PlanFault::Truncated))
    } else if length == 0 || length > MAX_SECTION_NAME {
        Err(plan_fault(PlanFault::NameLength { length: length as u16 }))
    } else if name_at + length > end {
        Err(plan_fault(PlanFault::Truncated))
    } else if !plan::name_bytes_ok(name) {
        Err(plan_fault(PlanFault::NameNotCanonical))
    } else if tag_at + 1 > end {
        Err(plan_fault(PlanFault::Truncated))
    } else if Encoding::of_tag(tag) is None {
        Err(plan_fault(PlanFault::UnknownEncoding { tag }))
    } else if tag_at + 2 > end {
        Err(plan_fault(PlanFault::Truncated))
    } else if rank > MAX_RANK {
        Err(PlanErrorView::Section { name: text, flaw: SectionFault::RankTooLarge })
    } else if count_at > end {
        Err(plan_fault(PlanFault::Truncated))
    } else if values_at > end {
        Err(plan_fault(PlanFault::Truncated))
    } else if count > MAX_VALUES {
        Err(PlanErrorView::Section { name: text, flaw: SectionFault::TooLarge })
    } else if 4 * count > end - values_at {
        Err(PlanErrorView::Section { name: text, flaw: SectionFault::ValuesTruncated })
    } else {
        Ok(
            (
                SectionView {
                    name: text,
                    encoding: Encoding::of_tag(tag)->0,
                    dimensions: u64s_at(payload, shape_at, rank),
                    values: u32s_at(payload, values_at, count),
                },
                values_at + 4 * count,
            ),
        )
    }
}

/// The first `count` sections of a payload, and where they end.
pub open spec fn read_sections(payload: Seq<u8>, count: nat) -> Result<
    (Seq<SectionView>, int),
    PlanErrorView,
>
    decreases count,
{
    if count == 0 {
        Ok((Seq::empty(), 0))
    } else {
        match read_sections(payload, (count - 1) as nat) {
            Err(error) => Err(error),
            Ok((sections, at)) => match read_section(payload, at) {
                Err(error) => Err(error),
                Ok((section, next)) => Ok((sections.push(section), next)),
            },
        }
    }
}

/// The binding in a header.
pub open spec fn binding_at(binding: Binding, input: Seq<u8>) -> bool {
    &&& binding.request_digest@ == input.subrange(16, 48)
    &&& binding.profile_digest@ == input.subrange(48, 80)
    &&& binding.scalar_witness_digest@ == input.subrange(80, 112)
    &&& binding.fft_witness_digest@ == input.subrange(112, 144)
    &&& binding.input_frequency_bits == number_at(input, 144, 8)
    &&& binding.block_size == number_at(input, 152, 8)
    &&& binding.field_length == number_at(input, 160, 8)
}

/// Why the header of a file is refused, if it is. The payload's digest is the
/// last thing tested.
pub open spec fn header_error(input: Seq<u8>) -> Option<PlanErrorView> {
    let size = input.len();
    let version = number_at(input, 8, 4);
    let header = number_at(input, 12, 4);
    let count = number_at(input, 168, 4);
    let length = number_at(input, 172, 8);
    if size > MAX_PLAN_BYTES {
        Some(plan_fault(PlanFault::SizeLimit { maximum: MAX_PLAN_BYTES }))
    } else if size < 8 {
        Some(plan_fault(PlanFault::Truncated))
    } else if input.subrange(0, 8) != plan::magic() {
        Some(plan_fault(PlanFault::NotAPlan))
    } else if size < 12 {
        Some(plan_fault(PlanFault::Truncated))
    } else if version != FORMAT_VERSION {
        Some(plan_fault(PlanFault::Version { found: version as u32 }))
    } else if size < 16 {
        Some(plan_fault(PlanFault::Truncated))
    } else if header != HEADER_LEN {
        Some(plan_fault(PlanFault::HeaderLength { found: header as u32 }))
    } else if size < 172 {
        Some(plan_fault(PlanFault::Truncated))
    } else if count > MAX_SECTIONS {
        Some(plan_fault(PlanFault::SectionCount { count: count as u32 }))
    } else if size < HEADER_LEN {
        Some(plan_fault(PlanFault::Truncated))
    } else if length != size - HEADER_LEN {
        Some(
            plan_fault(
                PlanFault::PayloadLength {
                    header: length as u64,
                    file: (size - HEADER_LEN) as u64,
                },
            ),
        )
    } else if digest::blake3_digest(payload_of(input))@ != input.subrange(180, 212) {
        Some(plan_fault(PlanFault::PayloadDigest))
    } else {
        None
    }
}

/// What follows the header.
pub open spec fn payload_of(input: Seq<u8>) -> Seq<u8> {
    input.subrange(HEADER_LEN as int, input.len() as int)
}

/// Why a file is refused, if it is.
pub open spec fn read_error(input: Seq<u8>) -> Option<PlanErrorView> {
    let payload = payload_of(input);
    if header_error(input) is Some {
        header_error(input)
    } else {
        match read_sections(payload, number_at(input, 168, 4)) {
            Err(error) => Some(error),
            Ok((_, at)) => if at < payload.len() {
                Some(plan_fault(PlanFault::TrailingBytes { left: (payload.len() - at) as u64 }))
            } else {
                None
            },
        }
    }
}

/// That `plan` is what the file holds.
pub open spec fn reads_as(input: Seq<u8>, plan: PlanView) -> bool {
    &&& binding_at(plan.binding, input)
    &&& read_sections(payload_of(input), number_at(input, 168, 4)) is Ok
    &&& plan.sections == (read_sections(payload_of(input), number_at(input, 168, 4))->Ok_0).0
}

/// Calls `String::from_utf8`: it succeeds exactly on UTF-8, and the text it
/// gives has the bytes it was made of.
#[verifier::external_body]
fn string_from_utf8(bytes: Vec<u8>) -> (text: Option<String>)
    ensures
        match text {
            Some(text) => vstd::utf8::valid_utf8(bytes@) && vstd::utf8::encode_utf8(text@)
                == bytes@,
            None => !vstd::utf8::valid_utf8(bytes@),
        },
{
    String::from_utf8(bytes).ok()
}

/// Name bytes are the UTF-8 form of the same characters, and of no others.
pub proof fn lemma_name_text(name: Seq<u8>)
    requires
        plan::name_bytes_ok(name),
    ensures
        vstd::utf8::valid_utf8(name),
        vstd::utf8::encode_utf8(ascii_text(name)) == name,
        forall|text: Seq<char>|
            #[trigger] vstd::utf8::encode_utf8(text) == name ==> text == ascii_text(name),
{
    let text = ascii_text(name);
    assert forall|i: int| 0 <= i < text.len() implies '\0' <= #[trigger] text[i] <= '\u{7f}' by {
        assert(plan::name_byte(name[i]));
    }
    vstd::utf8::is_ascii_chars_encode_utf8(text);
    assert(vstd::utf8::encode_utf8(text) =~= name) by {
        assert forall|i: int| 0 <= i < name.len() implies vstd::utf8::encode_utf8(text)[i]
            == name[i] by {
            assert(plan::name_byte(name[i]));
            assert(text[i] as u8 == name[i]);
        }
    }
    vstd::utf8::encode_utf8_valid_utf8(text);
    vstd::utf8::encode_utf8_decode_utf8(text);
    assert forall|other: Seq<char>| #[trigger] vstd::utf8::encode_utf8(other) == name implies other
        == text by {
        vstd::utf8::encode_utf8_decode_utf8(other);
    }
}

/// The text of a section name.
fn name_text(name: &[u8]) -> (text: String)
    requires
        plan::name_bytes_ok(name@),
    ensures
        text@ == ascii_text(name@),
{
    let copy: Vec<u8> = vstd::slice::slice_to_vec(name);
    proof {
        lemma_name_text(name@);
    }
    match string_from_utf8(copy) {
        Some(text) => text,
        None => String::new(),
    }
}

/// Reads the next section of a payload.
fn decode_section(cursor: &mut Cursor) -> (result: Result<Section, PlanError>)
    requires
        old(cursor).input().len() <= MAX_PLAN_BYTES,
        old(cursor).at() <= old(cursor).input().len(),
    ensures
        final(cursor).input() == old(cursor).input(),
        final(cursor).at() <= final(cursor).input().len(),
        match result {
            Ok(section) => read_section(old(cursor).input(), old(cursor).at() as int) == Ok::<
                (SectionView, int),
                PlanErrorView,
            >((section@, final(cursor).at() as int)),
            Err(error) => read_section(old(cursor).input(), old(cursor).at() as int) == Err::<
                (SectionView, int),
                PlanErrorView,
            >(error@),
        },
{
    let ghost payload = cursor.input();
    let ghost at = cursor.at() as int;
    let length: u16 = match cursor.u16() {
        Ok(length) => length,
        Err(error) => return Err(from_cursor(error)),
    };
    if length == 0 || length as usize > MAX_SECTION_NAME {
        return Err(PlanError::Plan { fault: PlanFault::NameLength { length } });
    }
    let name: &[u8] = match cursor.take(length as usize) {
        Ok(name) => name,
        Err(error) => return Err(from_cursor(error)),
    };
    if !plan::is_name(name) {
        return Err(PlanError::Plan { fault: PlanFault::NameNotCanonical });
    }
    let text: String = name_text(name);
    let ghost tag_at = at + 2 + length;
    let tag: u8 = match cursor.u8() {
        Ok(tag) => tag,
        Err(error) => return Err(from_cursor(error)),
    };
    proof {
        lemma_one_byte(payload, tag_at);
    }
    let encoding: Encoding = match Encoding::try_from_tag(tag) {
        Ok(encoding) => encoding,
        Err(error) => return Err(error),
    };
    let rank: u8 = match cursor.u8() {
        Ok(rank) => rank,
        Err(error) => return Err(from_cursor(error)),
    };
    proof {
        lemma_one_byte(payload, tag_at + 1);
    }
    if rank as usize > MAX_RANK {
        return Err(PlanError::Section { name: text, flaw: SectionFault::RankTooLarge });
    }
    let ghost shape_at = tag_at + 2;
    let mut dimensions: Vec<u64> = Vec::with_capacity(rank as usize);
    let mut index: u8 = 0;
    while index < rank
        invariant
            index <= rank <= MAX_RANK,
            payload.len() <= MAX_PLAN_BYTES,
            cursor.input() == payload,
            cursor.at() == shape_at + 8 * index,
            cursor.at() <= payload.len(),
            dimensions@ == u64s_at(payload, shape_at, index as nat),
            old(cursor).input() == payload,
            old(cursor).at() == at,
            shape_at + 8 * rank > payload.len() ==> read_section(payload, at) == Err::<
                (SectionView, int),
                PlanErrorView,
            >(plan_fault(PlanFault::Truncated)),
        decreases rank - index,
    {
        let dimension: u64 = match cursor.u64() {
            Ok(dimension) => dimension,
            Err(error) => return Err(from_cursor(error)),
        };
        dimensions.push(dimension);
        index = index + 1;
        proof {
            assert(dimensions@ =~= u64s_at(payload, shape_at, index as nat));
        }
    }
    let count: u64 = match cursor.u64() {
        Ok(count) => count,
        Err(error) => return Err(from_cursor(error)),
    };
    if count > MAX_VALUES {
        return Err(PlanError::Section { name: text, flaw: SectionFault::TooLarge });
    }
    if count * 4 > cursor.remaining() as u64 {
        return Err(PlanError::Section { name: text, flaw: SectionFault::ValuesTruncated });
    }
    let ghost values_at = cursor.at() as int;
    let mut values: Vec<u32> = Vec::with_capacity(count as usize);
    let mut read: u64 = 0;
    while read < count
        invariant
            read <= count <= MAX_VALUES,
            payload.len() <= MAX_PLAN_BYTES,
            cursor.input() == payload,
            cursor.at() == values_at + 4 * read,
            old(cursor).input() == payload,
            values_at + 4 * count <= payload.len(),
            values@ == u32s_at(payload, values_at, read as nat),
        decreases count - read,
    {
        let value: u32 = match cursor.u32() {
            Ok(value) => value,
            Err(error) => return Err(from_cursor(error)),
        };
        values.push(value);
        read = read + 1;
        proof {
            assert(values@ =~= u32s_at(payload, values_at, read as nat));
        }
    }
    Ok(Section { name: text, encoding, dimensions, values })
}

proof fn lemma_one_byte(payload: Seq<u8>, at: int)
    requires
        0 <= at < payload.len(),
    ensures
        number_at(payload, at, 1) == payload[at],
{
    reveal_with_fuel(bytes::le_value, 2);
}

/// Whether two byte strings are the same.
pub fn same_bytes(first: &[u8], second: &[u8]) -> (same: bool)
    ensures
        same == (first@ == second@),
{
    if first.len() != second.len() {
        return false;
    }
    let mut index: usize = 0;
    while index < first.len()
        invariant
            index <= first@.len(),
            first@.len() == second@.len(),
            forall|i: int| 0 <= i < index ==> first@[i] == second@[i],
        decreases first@.len() - index,
    {
        if first[index] != second[index] {
            return false;
        }
        index = index + 1;
    }
    proof {
        assert(first@ =~= second@);
    }
    true
}

/// Reads and tests a header; on success the cursor stands at the payload.
fn decode_header(input: &[u8]) -> (result: Result<(Binding, u32), PlanError>)
    ensures
        match result {
            Ok((binding, count)) => header_error(input@) is None && binding_at(binding, input@)
                && count == number_at(input@, 168, 4),
            Err(error) => header_error(input@) == Some(error@),
        },
{
    if input.len() as u64 > MAX_PLAN_BYTES {
        return Err(PlanError::Plan { fault: PlanFault::SizeLimit { maximum: MAX_PLAN_BYTES } });
    }
    let mut cursor = Cursor::new(input);
    let opening: [u8; 8] = [84, 68, 78, 80, 76, 65, 78, 0];
    proof {
        assert(opening@ =~= plan::magic());
    }
    match cursor.take(8) {
        Ok(found) => {
            if !same_bytes(found, opening.as_slice()) {
                return Err(PlanError::Plan { fault: PlanFault::NotAPlan });
            }
        },
        Err(error) => return Err(from_cursor(error)),
    }
    let version: u32 = match cursor.u32() {
        Ok(version) => version,
        Err(error) => return Err(from_cursor(error)),
    };
    if version != FORMAT_VERSION {
        return Err(PlanError::Plan { fault: PlanFault::Version { found: version } });
    }
    let header: u32 = match cursor.u32() {
        Ok(header) => header,
        Err(error) => return Err(from_cursor(error)),
    };
    if header != HEADER_LEN {
        return Err(PlanError::Plan { fault: PlanFault::HeaderLength { found: header } });
    }
    let request_digest: [u8; 32] = match cursor.array_32() {
        Ok(found) => found,
        Err(error) => return Err(from_cursor(error)),
    };
    let profile_digest: [u8; 32] = match cursor.array_32() {
        Ok(found) => found,
        Err(error) => return Err(from_cursor(error)),
    };
    let scalar_witness_digest: [u8; 32] = match cursor.array_32() {
        Ok(found) => found,
        Err(error) => return Err(from_cursor(error)),
    };
    let fft_witness_digest: [u8; 32] = match cursor.array_32() {
        Ok(found) => found,
        Err(error) => return Err(from_cursor(error)),
    };
    let input_frequency_bits: u64 = match cursor.u64() {
        Ok(found) => found,
        Err(error) => return Err(from_cursor(error)),
    };
    let block_size: u64 = match cursor.u64() {
        Ok(found) => found,
        Err(error) => return Err(from_cursor(error)),
    };
    let field_length: u64 = match cursor.u64() {
        Ok(found) => found,
        Err(error) => return Err(from_cursor(error)),
    };
    let count: u32 = match cursor.u32() {
        Ok(found) => found,
        Err(error) => return Err(from_cursor(error)),
    };
    if count > MAX_SECTIONS {
        return Err(PlanError::Plan { fault: PlanFault::SectionCount { count } });
    }
    let length: u64 = match cursor.u64() {
        Ok(found) => found,
        Err(error) => return Err(from_cursor(error)),
    };
    let payload_digest: [u8; 32] = match cursor.array_32() {
        Ok(found) => found,
        Err(error) => return Err(from_cursor(error)),
    };
    let file: usize = cursor.remaining();
    if length != file as u64 {
        return Err(
            PlanError::Plan {
                fault: PlanFault::PayloadLength { header: length, file: file as u64 },
            },
        );
    }
    let payload: &[u8] = match cursor.take(file) {
        Ok(payload) => payload,
        Err(error) => return Err(from_cursor(error)),
    };
    let actual: [u8; 32] = blake3_hash(payload);
    if !same_bytes(actual.as_slice(), payload_digest.as_slice()) {
        return Err(PlanError::Plan { fault: PlanFault::PayloadDigest });
    }
    Ok(
        (
            Binding {
                request_digest,
                profile_digest,
                scalar_witness_digest,
                fft_witness_digest,
                input_frequency_bits,
                block_size,
                field_length,
            },
            count,
        ),
    )
}

impl PlanFile {
    /// The plan that a file holds, or the first reason why it holds none.
    pub fn decode(input: &[u8]) -> (result: Result<PlanFile, PlanError>)
        ensures
            match result {
                Ok(plan) => read_error(input@) is None && reads_as(input@, plan@),
                Err(error) => read_error(input@) == Some(error@),
            },
    {
        let (binding, count) = match decode_header(input) {
            Ok(header) => header,
            Err(error) => return Err(error),
        };
        let payload: &[u8] = vstd::slice::slice_subrange(input, HEADER_LEN as usize, input.len());
        let mut cursor = Cursor::new(payload);
        let mut sections: Vec<Section> = Vec::with_capacity(count as usize);
        let mut read: u32 = 0;
        proof {
            assert(plan::sections_view(sections@) =~= Seq::<SectionView>::empty());
        }
        while read < count
            invariant
                read <= count,
                payload@ == payload_of(input@),
                payload@.len() <= MAX_PLAN_BYTES,
                cursor.input() == payload@,
                cursor.at() <= payload@.len(),
                header_error(input@) is None,
                count == number_at(input@, 168, 4),
                read_sections(payload@, read as nat) == Ok::<
                    (Seq<SectionView>, int),
                    PlanErrorView,
                >((plan::sections_view(sections@), cursor.at() as int)),
            decreases count - read,
        {
            let ghost before = sections@;
            match decode_section(&mut cursor) {
                Ok(section) => {
                    sections.push(section);
                    proof {
                        assert(plan::sections_view(sections@) =~= plan::sections_view(before).push(
                            section@,
                        ));
                    }
                },
                Err(error) => {
                    proof {
                        lemma_read_error_stays(payload@, (read + 1) as nat, count as nat);
                    }
                    return Err(error);
                },
            }
            read = read + 1;
        }
        let left: usize = cursor.remaining();
        if left != 0 {
            return Err(
                PlanError::Plan { fault: PlanFault::TrailingBytes { left: left as u64 } },
            );
        }
        Ok(PlanFile { binding, sections })
    }
}

proof fn lemma_read_error_stays(payload: Seq<u8>, early: nat, late: nat)
    requires
        early <= late,
        read_sections(payload, early) is Err,
    ensures
        read_sections(payload, late) is Err,
        read_sections(payload, late)->Err_0 == read_sections(payload, early)->Err_0,
    decreases late,
{
    if early < late {
        lemma_read_error_stays(payload, early, (late - 1) as nat);
    }
}

} // verus!
