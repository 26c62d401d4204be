//! Versioned, bit-exact numeric plans for deterministic decoding.
//!
//! A plan holds the bit patterns of every numeric vector of a decoder in a
//! fixed little-endian format. The header binds the payload to the resolved
//! request, its profile, its exact input-rate bits, and the decoder's block and
//! field geometry.
use vstd::prelude::*;

use crate::bytes;
use crate::bytes::{put_u16, put_u32, put_u64};
use crate::digest;
use crate::digest::{blake3_hash, put_bytes};
use crate::plan_error::{Encoding, PlanError, PlanErrorView, PlanFault, SectionFault};

verus! {

pub const FORMAT_VERSION: u32 = 1;

pub const HEADER_LEN: u32 = 212;

pub const MAX_PLAN_BYTES: u64 = 268_435_456;

pub const MAX_SECTIONS: u32 = 64;

pub const MAX_SECTION_NAME: usize = 96;

pub const MAX_RANK: usize = 32;

pub const MAX_VALUES: u64 = 67_108_863;

/// The bytes that open every plan file: `TDNPLAN` and a zero.
pub open spec fn magic() -> Seq<u8> {
    seq![84u8, 68u8, 78u8, 80u8, 76u8, 65u8, 78u8, 0u8]
}

impl Encoding {
    /// The byte that stands for the encoding in a plan file.
    pub open spec fn tag(self) -> u8 {
        match self {
            Encoding::F32 => 1,
            Encoding::ComplexF32 => 2,
            Encoding::SosF32 => 3,
            Encoding::NestedF32 => 4,
            Encoding::NestedSosF32 => 5,
            Encoding::OptionalF32 => 6,
            Encoding::OptionalComplexF32 => 7,
            Encoding::OptionalSosF32 => 8,
        }
    }

    /// The encoding that a byte of a plan file stands for.
    pub open spec fn of_tag(tag: u8) -> Option<Encoding> {
        match tag {
            1 => Some(Encoding::F32),
            2 => Some(Encoding::ComplexF32),
            3 => Some(Encoding::SosF32),
            4 => Some(Encoding::NestedF32),
            5 => Some(Encoding::NestedSosF32),
            6 => Some(Encoding::OptionalF32),
            7 => Some(Encoding::OptionalComplexF32),
            8 => Some(Encoding::OptionalSosF32),
            _ => None,
        }
    }

    fn to_tag(self) -> (tag: u8)
        ensures
            tag == self.tag(),
    {
        match self {
            Encoding::F32 => 1,
            Encoding::ComplexF32 => 2,
            Encoding::SosF32 => 3,
            Encoding::NestedF32 => 4,
            Encoding::NestedSosF32 => 5,
            Encoding::OptionalF32 => 6,
            Encoding::OptionalComplexF32 => 7,
            Encoding::OptionalSosF32 => 8,
        }
    }

    /// The encoding that `value` stands for.
    pub fn try_from_tag(value: u8) -> (result: Result<Encoding, PlanError>)
        ensures
            match result {
                Ok(encoding) => Encoding::of_tag(value) == Some(encoding),
                Err(error) => Encoding::of_tag(value) is None && error@ == (PlanErrorView::Plan {
                    fault: PlanFault::UnknownEncoding { tag: value },
                }),
            },
    {
        match value {
            1 => Ok(Encoding::F32),
            2 => Ok(Encoding::ComplexF32),
            3 => Ok(Encoding::SosF32),
            4 => Ok(Encoding::NestedF32),
            5 => Ok(Encoding::NestedSosF32),
            6 => Ok(Encoding::OptionalF32),
            7 => Ok(Encoding::OptionalComplexF32),
            8 => Ok(Encoding::OptionalSosF32),
            _ => Err(PlanError::Plan { fault: PlanFault::UnknownEncoding { tag: value } }),
        }
    }
}

/// A named array of 32-bit patterns.
#[derive(Clone, Debug, PartialEq, Eq)]
pub struct Section {
    pub name: String,
    pub encoding: Encoding,
    pub dimensions: Vec<u64>,
    pub values: Vec<u32>,
}

/// What a [`Section`] holds.
#[verifier::ext_equal]
pub struct SectionView {
    pub name: Seq<char>,
    pub encoding: Encoding,
    pub dimensions: Seq<u64>,
    pub values: Seq<u32>,
}

impl View for Section {
    type V = SectionView;

    open spec fn view(&self) -> SectionView {
        SectionView {
            name: self.name@,
            encoding: self.encoding,
            dimensions: self.dimensions@,
            values: self.values@,
        }
    }
}

impl Section {
    pub fn new(name: &str, encoding: Encoding, dimensions: Vec<u64>, values: Vec<u32>) -> (section:
        Section)
        ensures
            section@ == (SectionView {
                name: name@,
                encoding,
                dimensions: dimensions@,
                values: values@,
            }),
    {
        Section { name: name.to_owned(), encoding, dimensions, values }
    }
}

/// What a plan was emitted for.
#[derive(Clone, Copy, Debug, PartialEq, Eq)]
pub struct Binding {
    pub request_digest: [u8; 32],
    pub profile_digest: [u8; 32],
    pub scalar_witness_digest: [u8; 32],
    pub fft_witness_digest: [u8; 32],
    pub input_frequency_bits: u64,
    pub block_size: u64,
    pub field_length: u64,
}

/// A numeric plan.
pub struct PlanFile {
    pub binding: Binding,
    pub sections: Vec<Section>,
}

/// What a [`PlanFile`] holds.
#[verifier::ext_equal]
pub struct PlanView {
    pub binding: Binding,
    pub sections: Seq<SectionView>,
}

impl View for PlanFile {
    type V = PlanView;

    open spec fn view(&self) -> PlanView {
        PlanView {
            binding: self.binding,
            sections: sections_view(self.sections@),
        }
    }
}

/// What a sequence of sections holds.
pub open spec fn sections_view(sections: Seq<Section>) -> Seq<SectionView> {
    Seq::new(sections.len(), |i: int| sections[i]@)
}

/// A byte that a section name may hold: a lower-case letter, a digit or `_`.
pub open spec fn name_byte(byte: u8) -> bool {
    ||| 97 <= byte <= 122
    ||| 48 <= byte <= 57
    ||| byte == 95
}

pub open spec fn name_bytes_ok(bytes: Seq<u8>) -> bool {
    forall|i: int| 0 <= i < bytes.len() ==> name_byte(#[trigger] bytes[i])
}

/// The bytes of a section name.
pub open spec fn name_bytes(name: Seq<char>) -> Seq<u8> {
    vstd::utf8::encode_utf8(name)
}

/// The eight-byte little-endian form of each value, one after the other.
pub open spec fn u64s_bytes(values: Seq<u64>) -> Seq<u8> {
    Seq::new(8 * values.len(), |k: int| bytes::le_bytes(values[k / 8] as nat, 8)[k % 8])
}

/// The four-byte little-endian form of each value, one after the other.
pub open spec fn u32s_bytes(values: Seq<u32>) -> Seq<u8> {
    Seq::new(4 * values.len(), |k: int| bytes::le_bytes(values[k / 4] as nat, 4)[k % 4])
}

impl SectionView {
    /// Why the section cannot be written, if it cannot.
    pub open spec fn write_error(self) -> Option<PlanErrorView> {
        let name = name_bytes(self.name);
        if name.len() == 0 || name.len() > MAX_SECTION_NAME {
            Some(self.error(SectionFault::NameLength))
        } else if !name_bytes_ok(name) {
            Some(self.error(SectionFault::NameCharacters))
        } else if self.dimensions.len() > MAX_RANK {
            Some(self.error(SectionFault::TooManyDimensions))
        } else if self.values.len() > MAX_VALUES {
            Some(self.error(SectionFault::TooLarge))
        } else {
            None
        }
    }

    pub open spec fn error(self, flaw: SectionFault) -> PlanErrorView {
        PlanErrorView::Section { name: self.name, flaw }
    }

    /// The section as it stands in a payload.
    pub open spec fn to_bytes(self) -> Seq<u8> {
        let name = name_bytes(self.name);
        bytes::le_bytes(name.len(), 2) + name + seq![
            self.encoding.tag(),
            self.dimensions.len() as u8,
        ] + u64s_bytes(self.dimensions) + bytes::le_bytes(self.values.len(), 8) + u32s_bytes(
            self.values,
        )
    }
}

/// The first error of the sections, in order.
pub open spec fn sections_write_error(sections: Seq<SectionView>) -> Option<PlanErrorView>
    decreases sections.len(),
{
    if sections.len() == 0 {
        None
    } else {
        match sections_write_error(sections.drop_last()) {
            Some(error) => Some(error),
            None => sections.last().write_error(),
        }
    }
}

/// The sections as they stand in a payload, one after the other.
pub open spec fn sections_bytes(sections: Seq<SectionView>) -> Seq<u8>
    decreases sections.len(),
{
    if sections.len() == 0 {
        Seq::empty()
    } else {
        sections_bytes(sections.drop_last()) + sections.last().to_bytes()
    }
}

impl PlanView {
    /// Why the plan cannot be written, if it cannot.
    pub open spec fn write_error(self) -> Option<PlanErrorView> {
        if self.sections.len() > MAX_SECTIONS {
            Some(PlanErrorView::Plan { fault: PlanFault::TooManySections })
        } else if sections_write_error(self.sections) is Some {
            sections_write_error(self.sections)
        } else if sections_bytes(self.sections).len() + HEADER_LEN > MAX_PLAN_BYTES {
            Some(PlanErrorView::Plan { fault: PlanFault::SizeLimit { maximum: MAX_PLAN_BYTES } })
        } else {
            None
        }
    }

    /// The part of the header before the payload's length.
    pub open spec fn header_start(self) -> Seq<u8> {
        magic() + bytes::le_bytes(FORMAT_VERSION as nat, 4) + bytes::le_bytes(HEADER_LEN as nat, 4)
            + self.binding.request_digest@ + self.binding.profile_digest@
            + self.binding.scalar_witness_digest@ + self.binding.fft_witness_digest@
            + bytes::le_bytes(self.binding.input_frequency_bits as nat, 8) + bytes::le_bytes(
            self.binding.block_size as nat,
            8,
        ) + bytes::le_bytes(self.binding.field_length as nat, 8) + bytes::le_bytes(
            self.sections.len(),
            4,
        )
    }

    /// The plan as a file.
    pub open spec fn to_bytes(self) -> Seq<u8> {
        let payload = sections_bytes(self.sections);
        self.header_start() + bytes::le_bytes(payload.len(), 8) + digest::blake3_digest(payload)@
            + payload
    }
}

pub proof fn lemma_u64s_push(values: Seq<u64>, value: u64)
    ensures
        u64s_bytes(values.push(value)) == u64s_bytes(values) + bytes::le_bytes(value as nat, 8),
{
    bytes::lemma_le_bytes_len(value as nat, 8);
    assert(u64s_bytes(values.push(value)) =~= u64s_bytes(values) + bytes::le_bytes(
        value as nat,
        8,
    ));
}

proof fn lemma_u32s_push(values: Seq<u32>, value: u32)
    ensures
        u32s_bytes(values.push(value)) == u32s_bytes(values) + bytes::le_bytes(value as nat, 4),
{
    bytes::lemma_le_bytes_len(value as nat, 4);
    assert(u32s_bytes(values.push(value)) =~= u32s_bytes(values) + bytes::le_bytes(
        value as nat,
        4,
    ));
}

pub(crate) fn put_u64s(output: &mut Vec<u8>, values: &Vec<u64>)
    ensures
        final(output)@ == old(output)@ + u64s_bytes(values@),
{
    let ghost before = output@;
    let mut index: usize = 0;
    proof {
        assert(before + u64s_bytes(values@.take(0)) =~= before);
    }
    while index < values.len()
        invariant
            index <= values@.len(),
            output@ == before + u64s_bytes(values@.take(index as int)),
        decreases values@.len() - index,
    {
        put_u64(output, values[index]);
        proof {
            lemma_u64s_push(values@.take(index as int), values@[index as int]);
            assert(values@.take(index as int).push(values@[index as int]) =~= values@.take(
                index + 1,
            ));
            assert(output@ =~= before + u64s_bytes(values@.take(index + 1)));
        }
        index = index + 1;
    }
    proof {
        assert(values@.take(values@.len() as int) =~= values@);
    }
}

pub(crate) fn put_u32s(output: &mut Vec<u8>, values: &Vec<u32>)
    ensures
        final(output)@ == old(output)@ + u32s_bytes(values@),
{
    let ghost before = output@;
    let mut index: usize = 0;
    proof {
        assert(before + u32s_bytes(values@.take(0)) =~= before);
    }
    while index < values.len()
        invariant
            index <= values@.len(),
            output@ == before + u32s_bytes(values@.take(index as int)),
        decreases values@.len() - index,
    {
        put_u32(output, values[index]);
        proof {
            lemma_u32s_push(values@.take(index as int), values@[index as int]);
            assert(values@.take(index as int).push(values@[index as int]) =~= values@.take(
                index + 1,
            ));
            assert(output@ =~= before + u32s_bytes(values@.take(index + 1)));
        }
        index = index + 1;
    }
    proof {
        assert(values@.take(values@.len() as int) =~= values@);
    }
}

/// Whether every byte may stand in a section name.
pub fn is_name(bytes: &[u8]) -> (result: bool)
    ensures
        result == name_bytes_ok(bytes@),
{
    let mut index: usize = 0;
    while index < bytes.len()
        invariant
            index <= bytes@.len(),
            forall|i: int| 0 <= i < index ==> name_byte(#[trigger] bytes@[i]),
        decreases bytes@.len() - index,
    {
        let byte: u8 = bytes[index];
        if !((97 <= byte && byte <= 122) || (48 <= byte && byte <= 57) || byte == 95) {
            proof {
                assert(!name_byte(bytes@[index as int]));
            }
            return false;
        }
        index = index + 1;
    }
    true
}

impl Section {
    /// Appends the section to a payload.
    fn write(&self, payload: &mut Vec<u8>) -> (result: Result<(), PlanError>)
        ensures
            match result {
                Ok(()) => self@.write_error() is None && final(payload)@ == old(payload)@
                    + self@.to_bytes(),
                Err(error) => self@.write_error() == Some(error@),
            },
    {
        let name = self.name.as_str().as_bytes();
        if name.len() == 0 || name.len() > MAX_SECTION_NAME {
            return Err(
                PlanError::Section { name: self.name.clone(), flaw: SectionFault::NameLength },
            );
        }
        if !is_name(name) {
            return Err(
                PlanError::Section { name: self.name.clone(), flaw: SectionFault::NameCharacters },
            );
        }
        if self.dimensions.len() > MAX_RANK {
            return Err(
                PlanError::Section {
                    name: self.name.clone(),
                    flaw: SectionFault::TooManyDimensions,
                },
            );
        }
        if self.values.len() as u64 > MAX_VALUES {
            return Err(
                PlanError::Section { name: self.name.clone(), flaw: SectionFault::TooLarge },
            );
        }
        let ghost before = payload@;
        put_u16(payload, name.len() as u16);
        put_bytes(payload, name);
        payload.push(self.encoding.to_tag());
        payload.push(self.dimensions.len() as u8);
        put_u64s(payload, &self.dimensions);
        put_u64(payload, self.values.len() as u64);
        put_u32s(payload, &self.values);
        proof {
            assert(payload@ =~= before + self@.to_bytes());
        }
        Ok(())
    }
}

impl PlanFile {
    /// The plan as a file, or the first reason why it cannot be one.
    pub fn encode(&self) -> (result: Result<Vec<u8>, PlanError>)
        ensures
            match result {
                Ok(output) => self@.write_error() is None && output@ == self@.to_bytes(),
                Err(error) => self@.write_error() == Some(error@),
            },
    {
        if self.sections.len() > MAX_SECTIONS as usize {
            return Err(PlanError::Plan { fault: PlanFault::TooManySections });
        }
        let mut payload: Vec<u8> = Vec::new();
        let mut index: usize = 0;
        while index < self.sections.len()
            invariant
                index <= self.sections@.len() <= MAX_SECTIONS,
                sections_write_error(self@.sections.take(index as int)) is None,
                payload@ == sections_bytes(self@.sections.take(index as int)),
            decreases self.sections@.len() - index,
        {
            let ghost shorter = self@.sections.take(index as int);
            let ghost longer = self@.sections.take(index + 1);
            proof {
                assert(longer.drop_last() =~= shorter);
            }
            match self.sections[index].write(&mut payload) {
                Ok(()) => {},
                Err(error) => {
                    proof {
                        assert(sections_write_error(longer) == Some(error@));
                        lemma_first_error_stays(self@.sections, index + 1);
                    }
                    return Err(error);
                },
            }
            index = index + 1;
        }
        proof {
            assert(self@.sections.take(index as int) =~= self@.sections);
        }
        if payload.len() as u64 > MAX_PLAN_BYTES - HEADER_LEN as u64 {
            return Err(PlanError::Plan { fault: PlanFault::SizeLimit { maximum: MAX_PLAN_BYTES } });
        }
        let payload_digest: [u8; 32] = blake3_hash(payload.as_slice());
        let opening: [u8; 8] = [84, 68, 78, 80, 76, 65, 78, 0];
        let mut output: Vec<u8> = Vec::with_capacity(HEADER_LEN as usize + payload.len());
        put_bytes(&mut output, opening.as_slice());
        put_u32(&mut output, FORMAT_VERSION);
        put_u32(&mut output, HEADER_LEN);
        put_bytes(&mut output, self.binding.request_digest.as_slice());
        put_bytes(&mut output, self.binding.profile_digest.as_slice());
        put_bytes(&mut output, self.binding.scalar_witness_digest.as_slice());
        put_bytes(&mut output, self.binding.fft_witness_digest.as_slice());
        put_u64(&mut output, self.binding.input_frequency_bits);
        put_u64(&mut output, self.binding.block_size);
        put_u64(&mut output, self.binding.field_length);
        put_u32(&mut output, self.sections.len() as u32);
        proof {
            assert(opening@ =~= magic());
            assert(output@ =~= self@.header_start());
        }
        put_u64(&mut output, payload.len() as u64);
        put_bytes(&mut output, payload_digest.as_slice());
        put_bytes(&mut output, payload.as_slice());
        proof {
            assert(output@ =~= self@.to_bytes());
        }
        Ok(output)
    }
}

proof fn lemma_first_error_stays(sections: Seq<SectionView>, count: int)
    requires
        0 <= count <= sections.len(),
        sections_write_error(sections.take(count)) is Some,
    ensures
        sections_write_error(sections) == sections_write_error(sections.take(count)),
    decreases sections.len() - count,
{
    if count < sections.len() {
        assert(sections.take(count + 1).drop_last() =~= sections.take(count));
        lemma_first_error_stays(sections, count + 1);
    } else {
        assert(sections.take(count) =~= sections);
    }
}

} // verus!
