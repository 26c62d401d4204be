//! What can be wrong with a numeric plan, and how it is reported.
use vstd::prelude::*;

use crate::bytes::CursorError;
use crate::text;

verus! {

/// How the values of a section are laid out.
#[derive(Clone, Copy, Debug, PartialEq, Eq, Structural)]
pub enum Encoding {
    F32,
    ComplexF32,
    SosF32,
    NestedF32,
    NestedSosF32,
    OptionalF32,
    OptionalComplexF32,
    OptionalSosF32,
}

impl Encoding {
    /// The name of the encoding.
    pub open spec fn spelled(self) -> Seq<char> {
        match self {
            Encoding::F32 => "F32"@,
            Encoding::ComplexF32 => "ComplexF32"@,
            Encoding::SosF32 => "SosF32"@,
            Encoding::NestedF32 => "NestedF32"@,
            Encoding::NestedSosF32 => "NestedSosF32"@,
            Encoding::OptionalF32 => "OptionalF32"@,
            Encoding::OptionalComplexF32 => "OptionalComplexF32"@,
            Encoding::OptionalSosF32 => "OptionalSosF32"@,
        }
    }

    pub fn name(self) -> (name: &'static str)
        ensures
            name@ == self.spelled(),
    {
        match self {
            Encoding::F32 => "F32",
            Encoding::ComplexF32 => "ComplexF32",
            Encoding::SosF32 => "SosF32",
            Encoding::NestedF32 => "NestedF32",
            Encoding::NestedSosF32 => "NestedSosF32",
            Encoding::OptionalF32 => "OptionalF32",
            Encoding::OptionalComplexF32 => "OptionalComplexF32",
            Encoding::OptionalSosF32 => "OptionalSosF32",
        }
    }
}

/// A fault of a plan as a whole, or of the request it is used with.
#[derive(Clone, Copy, Debug, PartialEq, Eq, Structural)]
pub enum PlanFault {
    TooManySections,
    SectionCount { count: u32 },
    SizeLimit { maximum: u64 },
    NotAPlan,
    Version { found: u32 },
    HeaderLength { found: u32 },
    OffsetOverflow,
    Truncated,
    PayloadLength { header: u64, file: u64 },
    PayloadDigest,
    NameLength { length: u16 },
    NameNotCanonical,
    UnknownEncoding { tag: u8 },
    TrailingBytes { left: u64 },
    ReadLimitOverflow,
    AllocationSize,
    Profile,
    InputRate { plan: u64, request: u64 },
    Options,
    ScalarWitness,
    FftWitness,
    BlockSize { plan: u64, decoder: u64 },
    FieldLength { plan: u64, decoder: u64 },
    NotDeterministic,
    Cafc,
    ChromaTrap,
    SecamMethod,
    NoFieldLengths,
    NegativeFieldLength,
    FieldLengthOverflow,
}

/// A fault of one section of a plan.
#[derive(Clone, Copy, Debug, PartialEq, Eq, Structural)]
pub enum SectionFault {
    NameLength,
    NameCharacters,
    TooManyDimensions,
    RankTooLarge,
    TooLarge,
    ValuesTruncated,
    Duplicate,
    Missing,
    Unknown,
    EncodingMismatch { plan: Encoding, decoder: Encoding },
    ValueCount { plan_count: u64, decoder_count: u64 },
}

/// Why a numeric plan was refused.
#[derive(Clone, Debug, PartialEq, Eq)]
pub enum PlanError {
    Plan { fault: PlanFault },
    Section { name: String, flaw: SectionFault },
    Shape { name: String, plan: Vec<u64>, decoder: Vec<u64> },
}

/// What a [`PlanError`] holds.
pub enum PlanErrorView {
    Plan { fault: PlanFault },
    Section { name: Seq<char>, flaw: SectionFault },
    Shape { name: Seq<char>, plan: Seq<u64>, decoder: Seq<u64> },
}

impl View for PlanError {
    type V = PlanErrorView;

    open spec fn view(&self) -> PlanErrorView {
        match self {
            PlanError::Plan { fault } => PlanErrorView::Plan { fault: *fault },
            PlanError::Section { name, flaw } => PlanErrorView::Section {
                name: name@,
                flaw: *flaw,
            },
            PlanError::Shape { name, plan, decoder } => PlanErrorView::Shape {
                name: name@,
                plan: plan@,
                decoder: decoder@,
            },
        }
    }
}

/// The fault that a failed cursor read stands for.
pub open spec fn cursor_fault(error: CursorError) -> PlanFault {
    match error {
        CursorError::OffsetOverflow => PlanFault::OffsetOverflow,
        CursorError::Truncated => PlanFault::Truncated,
    }
}

/// The plan error that a failed cursor read becomes.
pub fn from_cursor(error: CursorError) -> (result: PlanError)
    ensures
        result@ == (PlanErrorView::Plan { fault: cursor_fault(error) }),
{
    match error {
        CursorError::OffsetOverflow => PlanError::Plan { fault: PlanFault::OffsetOverflow },
        CursorError::Truncated => PlanError::Plan { fault: PlanFault::Truncated },
    }
}

impl PlanFault {
    /// The sentence that reports the fault.
    pub open spec fn text(self) -> Seq<char> {
        match self {
            PlanFault::TooManySections => "numeric plan has too many sections"@,
            PlanFault::SectionCount { count } => "numeric plan has too many sections: "@
                + text::decimal(count as nat),
            PlanFault::SizeLimit { maximum } => "numeric plan exceeds the "@ + text::decimal(
                maximum as nat,
            ) + "-byte safety limit"@,
            PlanFault::NotAPlan => "not a tape-decode numeric plan"@,
            PlanFault::Version { found } => "unsupported numeric-plan format version "@
                + text::decimal(found as nat) + "; expected 1"@,
            PlanFault::HeaderLength { found } => "unsupported numeric-plan header length "@
                + text::decimal(found as nat) + "; expected 212"@,
            PlanFault::OffsetOverflow => "numeric-plan offset overflow"@,
            PlanFault::Truncated => "truncated numeric plan"@,
            PlanFault::PayloadLength { header, file } =>
                "numeric-plan payload length mismatch: header says "@ + text::decimal(
                header as nat,
            ) + ", file contains "@ + text::decimal(file as nat),
            PlanFault::PayloadDigest => "numeric-plan payload BLAKE3 mismatch"@,
            PlanFault::NameLength { length } => "invalid numeric-plan section name length "@
                + text::decimal(length as nat),
            PlanFault::NameNotCanonical => "numeric-plan section name is not canonical ASCII"@,
            PlanFault::UnknownEncoding { tag } => "unknown numeric-plan section encoding "@
                + text::decimal(tag as nat),
            PlanFault::TrailingBytes { left } => "numeric-plan payload has "@ + text::decimal(
                left as nat,
            ) + " trailing bytes"@,
            PlanFault::ReadLimitOverflow => "numeric-plan read limit overflow"@,
            PlanFault::AllocationSize =>
                "numeric-plan allocation size does not fit this platform"@,
            PlanFault::Profile => "numeric plan was emitted for a different resolved profile"@,
            PlanFault::InputRate { plan, request } =>
                "numeric-plan input rate mismatch: plan has f64 bits "@ + text::hexadecimal(
                plan as nat,
                16,
            ) + ", request has "@ + text::hexadecimal(request as nat, 16),
            PlanFault::Options =>
                "numeric plan was emitted for different resolved decode options"@,
            PlanFault::ScalarWitness =>
                "numeric-plan scalar witness mismatch; this build derived different output-critical scalar state"@,
            PlanFault::FftWitness =>
                "numeric-plan FFT witness mismatch; this build's FFT implementation is not bit-conformant"@,
            PlanFault::BlockSize { plan, decoder } =>
                "numeric-plan block size mismatch: plan has "@ + text::decimal(plan as nat)
                + ", decoder requires "@ + text::decimal(decoder as nat),
            PlanFault::FieldLength { plan, decoder } =>
                "numeric-plan field length mismatch: plan has "@ + text::decimal(plan as nat)
                + ", decoder requires "@ + text::decimal(decoder as nat),
            PlanFault::NotDeterministic =>
                "canonical numeric plans require a deterministic build; rebuild with --no-default-features --features deterministic"@,
            PlanFault::Cafc =>
                "canonical numeric plans do not yet support --cafc because it constructs architecture-sensitive filters at decode time"@,
            PlanFault::ChromaTrap => "canonical numeric plans do not yet support --chroma-trap"@,
            PlanFault::SecamMethod =>
                "canonical numeric plans do not yet support SECAM method 1 because its data-dependent phase restoration uses runtime platform transcendentals"@,
            PlanFault::NoFieldLengths => "decoder profile has no field lengths"@,
            PlanFault::NegativeFieldLength => "decoder profile has a negative field length"@,
            PlanFault::FieldLengthOverflow => "decoder field length overflow"@,
        }
    }

    /// The sentence that reports the fault.
    pub fn message(self) -> (message: String)
        ensures
            message@ == self.text(),
    {
        match self {
            PlanFault::TooManySections => "numeric plan has too many sections".to_owned(),
            PlanFault::SectionCount { count } => {
                let mut message = "numeric plan has too many sections: ".to_owned();
                text::push_decimal(&mut message, count as u64);
                message
            },
            PlanFault::SizeLimit { maximum } => {
                let mut message = "numeric plan exceeds the ".to_owned();
                text::push_decimal(&mut message, maximum);
                message.append("-byte safety limit");
                message
            },
            PlanFault::NotAPlan => "not a tape-decode numeric plan".to_owned(),
            PlanFault::Version { found } => {
                let mut message = "unsupported numeric-plan format version ".to_owned();
                text::push_decimal(&mut message, found as u64);
                message.append("; expected 1");
                message
            },
            PlanFault::HeaderLength { found } => {
                let mut message = "unsupported numeric-plan header length ".to_owned();
                text::push_decimal(&mut message, found as u64);
                message.append("; expected 212");
                message
            },
            PlanFault::OffsetOverflow => "numeric-plan offset overflow".to_owned(),
            PlanFault::Truncated => "truncated numeric plan".to_owned(),
            PlanFault::PayloadLength { header, file } => {
                let mut message =
                    "numeric-plan payload length mismatch: header says ".to_owned();
                text::push_decimal(&mut message, header);
                message.append(", file contains ");
                text::push_decimal(&mut message, file);
                message
            },
            PlanFault::PayloadDigest => "numeric-plan payload BLAKE3 mismatch".to_owned(),
            PlanFault::NameLength { length } => {
                let mut message = "invalid numeric-plan section name length ".to_owned();
                text::push_decimal(&mut message, length as u64);
                message
            },
            PlanFault::NameNotCanonical =>
                "numeric-plan section name is not canonical ASCII".to_owned(),
            PlanFault::UnknownEncoding { tag } => {
                let mut message = "unknown numeric-plan section encoding ".to_owned();
                text::push_decimal(&mut message, tag as u64);
                message
            },
            PlanFault::TrailingBytes { left } => {
                let mut message = "numeric-plan payload has ".to_owned();
                text::push_decimal(&mut message, left);
                message.append(" trailing bytes");
                message
            },
            PlanFault::ReadLimitOverflow => "numeric-plan read limit overflow".to_owned(),
            PlanFault::AllocationSize =>
                "numeric-plan allocation size does not fit this platform".to_owned(),
            PlanFault::Profile =>
                "numeric plan was emitted for a different resolved profile".to_owned(),
            PlanFault::InputRate { plan, request } => {
                let mut message =
                    "numeric-plan input rate mismatch: plan has f64 bits ".to_owned();
                text::push_hexadecimal(&mut message, plan, 16);
                message.append(", request has ");
                text::push_hexadecimal(&mut message, request, 16);
                message
            },
            PlanFault::Options =>
                "numeric plan was emitted for different resolved decode options".to_owned(),
            PlanFault::ScalarWitness =>
                "numeric-plan scalar witness mismatch; this build derived different output-critical scalar state".to_owned(),
            PlanFault::FftWitness =>
                "numeric-plan FFT witness mismatch; this build's FFT implementation is not bit-conformant".to_owned(),
            PlanFault::BlockSize { plan, decoder } => {
                let mut message = "numeric-plan block size mismatch: plan has ".to_owned();
                text::push_decimal(&mut message, plan);
                message.append(", decoder requires ");
                text::push_decimal(&mut message, decoder);
                message
            },
            PlanFault::FieldLength { plan, decoder } => {
                let mut message = "numeric-plan field length mismatch: plan has ".to_owned();
                text::push_decimal(&mut message, plan);
                message.append(", decoder requires ");
                text::push_decimal(&mut message, decoder);
                message
            },
            PlanFault::NotDeterministic =>
                "canonical numeric plans require a deterministic build; rebuild with --no-default-features --features deterministic".to_owned(),
            PlanFault::Cafc =>
                "canonical numeric plans do not yet support --cafc because it constructs architecture-sensitive filters at decode time".to_owned(),
            PlanFault::ChromaTrap =>
                "canonical numeric plans do not yet support --chroma-trap".to_owned(),
            PlanFault::SecamMethod =>
                "canonical numeric plans do not yet support SECAM method 1 because its data-dependent phase restoration uses runtime platform transcendentals".to_owned(),
            PlanFault::NoFieldLengths => "decoder profile has no field lengths".to_owned(),
            PlanFault::NegativeFieldLength =>
                "decoder profile has a negative field length".to_owned(),
            PlanFault::FieldLengthOverflow => "decoder field length overflow".to_owned(),
        }
    }
}

impl SectionFault {
    /// The words before the section's name in the report.
    pub open spec fn before_name(self) -> Seq<char> {
        match self {
            SectionFault::NameLength => "invalid numeric-plan section name length for "@,
            SectionFault::NameCharacters => "invalid numeric-plan section name "@,
            SectionFault::Duplicate => "duplicate numeric-plan section "@,
            SectionFault::Missing => "numeric plan is missing section "@,
            SectionFault::Unknown => "unknown numeric-plan section "@,
            _ => "numeric-plan section "@,
        }
    }

    /// What follows the section's name in the report.
    pub open spec fn after_name(self) -> Seq<char> {
        match self {
            SectionFault::TooManyDimensions => " has too many dimensions"@,
            SectionFault::RankTooLarge => " rank is too large"@,
            SectionFault::TooLarge => " is too large"@,
            SectionFault::ValuesTruncated => " value data is truncated"@,
            SectionFault::EncodingMismatch { plan, decoder } =>
                " encoding mismatch: plan has "@ + plan.spelled() + ", decoder requires "@
                + decoder.spelled(),
            SectionFault::ValueCount { plan_count, decoder_count } =>
                " value-count mismatch: plan has "@ + text::decimal(plan_count as nat)
                + ", decoder requires "@ + text::decimal(decoder_count as nat),
            _ => Seq::empty(),
        }
    }

    fn prefix(self) -> (prefix: &'static str)
        ensures
            prefix@ == self.before_name(),
    {
        match self {
            SectionFault::NameLength => "invalid numeric-plan section name length for ",
            SectionFault::NameCharacters => "invalid numeric-plan section name ",
            SectionFault::Duplicate => "duplicate numeric-plan section ",
            SectionFault::Missing => "numeric plan is missing section ",
            SectionFault::Unknown => "unknown numeric-plan section ",
            _ => "numeric-plan section ",
        }
    }

    fn suffix(self) -> (suffix: String)
        ensures
            suffix@ == self.after_name(),
    {
        match self {
            SectionFault::TooManyDimensions => " has too many dimensions".to_owned(),
            SectionFault::RankTooLarge => " rank is too large".to_owned(),
            SectionFault::TooLarge => " is too large".to_owned(),
            SectionFault::ValuesTruncated => " value data is truncated".to_owned(),
            SectionFault::EncodingMismatch { plan, decoder } => {
                let mut suffix = " encoding mismatch: plan has ".to_owned();
                suffix.append(plan.name());
                suffix.append(", decoder requires ");
                suffix.append(decoder.name());
                suffix
            },
            SectionFault::ValueCount { plan_count, decoder_count } => {
                let mut suffix = " value-count mismatch: plan has ".to_owned();
                text::push_decimal(&mut suffix, plan_count);
                suffix.append(", decoder requires ");
                text::push_decimal(&mut suffix, decoder_count);
                suffix
            },
            _ => String::new(),
        }
    }
}

impl PlanErrorView {
    /// The sentence that reports the error.
    pub open spec fn text(self) -> Seq<char> {
        match self {
            PlanErrorView::Plan { fault } => fault.text(),
            PlanErrorView::Section { name, flaw } => flaw.before_name() + name
                + flaw.after_name(),
            PlanErrorView::Shape { name, plan, decoder } => "numeric-plan section "@ + name
                + " shape mismatch: plan has ["@ + text::decimals(plan) + "], decoder requires ["@
                + text::decimals(decoder) + "]"@,
        }
    }
}

impl PlanError {
    /// The sentence that reports the error.
    pub fn message(&self) -> (message: String)
        ensures
            message@ == self@.text(),
    {
        match self {
            PlanError::Plan { fault } => fault.message(),
            PlanError::Section { name, flaw } => {
                let mut message = flaw.prefix().to_owned();
                message.append(name.as_str());
                message.append(flaw.suffix().as_str());
                message
            },
            PlanError::Shape { name, plan, decoder } => {
                let mut message = "numeric-plan section ".to_owned();
                message.append(name.as_str());
                message.append(" shape mismatch: plan has [");
                text::push_decimals(&mut message, plan);
                message.append("], decoder requires [");
                text::push_decimals(&mut message, decoder);
                message.append("]");
                message
            },
        }
    }
}

} // verus!
