//! What binds a numeric plan to a decoder, and the two ends of a plan's life:
//! the file that a decoder is written as, and the decoder that a file gives.
use vstd::prelude::*;

use crate::digest;
use crate::digest::{domain_digest, CanonicalNumericPlanIdentity};
use crate::numeric_vectors;
use crate::numeric_vectors::NumericVectors;
use crate::plan::{Binding, PlanFile, PlanView, Section, SectionView};
use crate::plan_error::{PlanError, PlanErrorView, PlanFault, SectionFault};
use crate::plan_laws;
use crate::plan_read;
use crate::plan_read::same_bytes;
use crate::request;
use crate::request::{validate_supported_request, DecodeRequest};
use crate::section_table;
use crate::spec;
use crate::spec::{DecoderSpec, Measured, SpecError, BLOCKSIZE};
use crate::vectors;
use crate::witness;
use crate::witness::{fft_witness, scalar_witness, FftTraces};

verus! {

/// How much to read of a plan file.
#[derive(Clone, Copy, Debug, PartialEq, Eq, Structural)]
pub struct BoundedRead {
    /// Read no more bytes than this: one more than are accepted.
    pub limit: u64,
    /// Make room for this many.
    pub capacity: usize,
    pub maximum: u64,
}

impl BoundedRead {
    /// How much to read of a file that claims `advertised_len` bytes where at
    /// most `maximum_len` are accepted.
    pub fn plan(advertised_len: u64, maximum_len: u64) -> (result: Result<BoundedRead, PlanError>)
        ensures
            ({
                let capacity = if advertised_len <= maximum_len {
                    advertised_len
                } else {
                    maximum_len
                };
                match result {
                    Ok(read) => maximum_len < u64::MAX && capacity <= usize::MAX && read == (
                    BoundedRead {
                        limit: (maximum_len + 1) as u64,
                        capacity: capacity as usize,
                        maximum: maximum_len,
                    }),
                    Err(error) => error@ == (PlanErrorView::Plan {
                        fault: if maximum_len == u64::MAX {
                            PlanFault::ReadLimitOverflow
                        } else {
                            PlanFault::AllocationSize
                        },
                    }) && (maximum_len == u64::MAX || capacity > usize::MAX),
                }
            }),
    {
        if maximum_len == u64::MAX {
            return Err(PlanError::Plan { fault: PlanFault::ReadLimitOverflow });
        }
        let capacity: u64 = if advertised_len <= maximum_len {
            advertised_len
        } else {
            maximum_len
        };
        if capacity > usize::MAX as u64 {
            return Err(PlanError::Plan { fault: PlanFault::AllocationSize });
        }
        Ok(BoundedRead { limit: maximum_len + 1, capacity: capacity as usize, maximum: maximum_len })
    }

    /// What was read, unless it is more than is accepted.
    pub fn accept(self, input: Vec<u8>) -> (result: Result<Vec<u8>, PlanError>)
        ensures
            match result {
                Ok(bytes) => bytes == input && input@.len() <= self.maximum,
                Err(error) => input@.len() > self.maximum && error@ == (PlanErrorView::Plan {
                    fault: PlanFault::SizeLimit { maximum: self.maximum },
                }),
            },
    {
        if input.len() as u64 > self.maximum {
            return Err(PlanError::Plan { fault: PlanFault::SizeLimit { maximum: self.maximum } });
        }
        Ok(input)
    }
}

/// The first difference between two bindings.
pub open spec fn binding_fault(actual: Binding, expected: Binding) -> Option<PlanFault> {
    if actual.profile_digest@ != expected.profile_digest@ {
        Some(PlanFault::Profile)
    } else if actual.input_frequency_bits != expected.input_frequency_bits {
        Some(
            PlanFault::InputRate {
                plan: actual.input_frequency_bits,
                request: expected.input_frequency_bits,
            },
        )
    } else if actual.request_digest@ != expected.request_digest@ {
        Some(PlanFault::Options)
    } else if actual.scalar_witness_digest@ != expected.scalar_witness_digest@ {
        Some(PlanFault::ScalarWitness)
    } else if actual.fft_witness_digest@ != expected.fft_witness_digest@ {
        Some(PlanFault::FftWitness)
    } else if actual.block_size != expected.block_size {
        Some(PlanFault::BlockSize { plan: actual.block_size, decoder: expected.block_size })
    } else if actual.field_length != expected.field_length {
        Some(PlanFault::FieldLength { plan: actual.field_length, decoder: expected.field_length })
    } else {
        None
    }
}

/// A binding passes only where it is the expected one in every field.
pub proof fn law_binding_exact(actual: Binding, expected: Binding)
    ensures
        binding_fault(actual, expected) is None <==> actual == expected,
{
    if binding_fault(actual, expected) is None {
        assert(actual.request_digest =~= expected.request_digest);
        assert(actual.profile_digest =~= expected.profile_digest);
        assert(actual.scalar_witness_digest =~= expected.scalar_witness_digest);
        assert(actual.fft_witness_digest =~= expected.fft_witness_digest);
    }
}

/// Tests the binding of a plan against that of a decoder.
pub fn validate_binding(actual: Binding, expected: Binding) -> (result: Result<(), PlanError>)
    ensures
        match result {
            Ok(()) => binding_fault(actual, expected) is None,
            Err(error) => binding_fault(actual, expected) is Some && error@ == (
            PlanErrorView::Plan { fault: binding_fault(actual, expected)->0 }),
        },
{
    if !same_bytes(actual.profile_digest.as_slice(), expected.profile_digest.as_slice()) {
        return Err(PlanError::Plan { fault: PlanFault::Profile });
    }
    if actual.input_frequency_bits != expected.input_frequency_bits {
        return Err(
            PlanError::Plan {
                fault: PlanFault::InputRate {
                    plan: actual.input_frequency_bits,
                    request: expected.input_frequency_bits,
                },
            },
        );
    }
    if !same_bytes(actual.request_digest.as_slice(), expected.request_digest.as_slice()) {
        return Err(PlanError::Plan { fault: PlanFault::Options });
    }
    if !same_bytes(
        actual.scalar_witness_digest.as_slice(),
        expected.scalar_witness_digest.as_slice(),
    ) {
        return Err(PlanError::Plan { fault: PlanFault::ScalarWitness });
    }
    if !same_bytes(actual.fft_witness_digest.as_slice(), expected.fft_witness_digest.as_slice()) {
        return Err(PlanError::Plan { fault: PlanFault::FftWitness });
    }
    if actual.block_size != expected.block_size {
        return Err(
            PlanError::Plan {
                fault: PlanFault::BlockSize {
                    plan: actual.block_size,
                    decoder: expected.block_size,
                },
            },
        );
    }
    if actual.field_length != expected.field_length {
        return Err(
            PlanError::Plan {
                fault: PlanFault::FieldLength {
                    plan: actual.field_length,
                    decoder: expected.field_length,
                },
            },
        );
    }
    Ok(())
}

/// What of a decoder's surroundings goes into a binding.
pub struct Surroundings {
    /// The request, serialised.
    pub request_json: Vec<u8>,
    /// The request's profile, serialised.
    pub profile_json: Vec<u8>,
    /// What the decoder's transforms compute.
    pub traces: FftTraces,
}

/// The lines of the longer field.
pub open spec fn longest_field(spec: DecoderSpec) -> i64 {
    let lines = spec.scalars.sys.field_lines@;
    if lines[0] >= lines[1] {
        lines[0]
    } else {
        lines[1]
    }
}

/// Why a decoder has no binding, if it has none.
pub open spec fn unbound_fault(spec: DecoderSpec) -> Option<PlanFault> {
    if longest_field(spec) < 0 {
        Some(PlanFault::NegativeFieldLength)
    } else if spec.scalars.sys.outlinelen * longest_field(spec) > u64::MAX {
        Some(PlanFault::FieldLengthOverflow)
    } else if spec.chroma_trap {
        Some(PlanFault::ChromaTrap)
    } else {
        None
    }
}

/// The digest of a serialised request.
pub open spec fn request_digest_of(request_json: Seq<u8>) -> [u8; 32] {
    digest::blake3_digest(
        vstd::utf8::encode_utf8("tape-decode canonical numeric request v1\0"@) + request_json,
    )
}

/// The binding of a decoder at an input rate.
pub open spec fn binding_at(rate: u64, spec: DecoderSpec, around: Surroundings) -> Binding {
    Binding {
        request_digest: request_digest_of(around.request_json@),
        profile_digest: digest::blake3_digest(
            vstd::utf8::encode_utf8("tape-decode canonical numeric profile v1\0"@)
                + around.profile_json@,
        ),
        scalar_witness_digest: digest::blake3_digest(witness::scalar_transcript(spec.scalars)),
        fft_witness_digest: digest::blake3_digest(witness::fft_transcript(around.traces)),
        input_frequency_bits: rate,
        block_size: BLOCKSIZE as u64,
        field_length: (spec.scalars.sys.outlinelen * longest_field(spec)) as u64,
    }
}

/// The binding of a decoder to a request. The rate is that of the request, which
/// need not be the one that the decoder was built for.
pub open spec fn binding_of(
    request: DecodeRequest,
    spec: DecoderSpec,
    around: Surroundings,
) -> Binding {
    binding_at(request.inputfreq, spec, around)
}

/// The binding of a decoder to a request.
pub fn binding_for(
    request: &DecodeRequest,
    spec: &DecoderSpec,
    around: &Surroundings,
) -> (result: Result<Binding, PlanError>)
    ensures
        match result {
            Ok(binding) => unbound_fault(*spec) is None && binding == binding_of(
                *request,
                *spec,
                *around,
            ),
            Err(error) => unbound_fault(*spec) is Some && error@ == (PlanErrorView::Plan {
                fault: unbound_fault(*spec)->0,
            }),
        },
{
    bind(request.inputfreq, spec, around)
}

/// The binding of a decoder at an input rate.
fn bind(rate: u64, spec: &DecoderSpec, around: &Surroundings) -> (result: Result<
    Binding,
    PlanError,
>)
    ensures
        match result {
            Ok(binding) => unbound_fault(*spec) is None && binding == binding_at(
                rate,
                *spec,
                *around,
            ),
            Err(error) => unbound_fault(*spec) is Some && error@ == (PlanErrorView::Plan {
                fault: unbound_fault(*spec)->0,
            }),
        },
{
    let first: i64 = spec.scalars.sys.field_lines[0];
    let second: i64 = spec.scalars.sys.field_lines[1];
    let field_lines: i64 = if first >= second {
        first
    } else {
        second
    };
    if field_lines < 0 {
        return Err(PlanError::Plan { fault: PlanFault::NegativeFieldLength });
    }
    let field_length: u64 = match (spec.scalars.sys.outlinelen as u64).checked_mul(
        field_lines as u64,
    ) {
        Some(length) => length,
        None => return Err(PlanError::Plan { fault: PlanFault::FieldLengthOverflow }),
    };
    let request_digest: [u8; 32] = domain_digest(
        "tape-decode canonical numeric request v1\0",
        around.request_json.as_slice(),
    );
    let profile_digest: [u8; 32] = domain_digest(
        "tape-decode canonical numeric profile v1\0",
        around.profile_json.as_slice(),
    );
    let scalar_witness_digest: [u8; 32] = match scalar_witness(spec) {
        Ok(digest) => digest,
        Err(error) => return Err(error),
    };
    Ok(
        Binding {
            request_digest,
            profile_digest,
            scalar_witness_digest,
            fft_witness_digest: fft_witness(&around.traces),
            input_frequency_bits: rate,
            block_size: BLOCKSIZE as u64,
            field_length,
        },
    )
}

/// The plan of a decoder for a request.
pub open spec fn plan_of(
    request: DecodeRequest,
    spec: DecoderSpec,
    around: Surroundings,
) -> PlanView {
    PlanView { binding: binding_of(request, spec, around), sections: spec.vectors.sections() }
}

/// Why a decoder cannot be written as a plan, if it cannot.
pub open spec fn unwritable(
    spec: DecoderSpec,
    request: DecodeRequest,
    deterministic: bool,
    around: Surroundings,
) -> Option<PlanErrorView> {
    if request::plan_request_fault(request, deterministic) is Some {
        Some(
            PlanErrorView::Plan { fault: request::plan_request_fault(request, deterministic)->0 },
        )
    } else if unbound_fault(spec) is Some {
        Some(PlanErrorView::Plan { fault: unbound_fault(spec)->0 })
    } else {
        plan_of(request, spec, around).write_error()
    }
}

/// Why a decoder was not built from a plan.
#[derive(Debug, PartialEq, Eq)]
pub enum CanonicalError {
    Plan { error: PlanError },
    Spec { fault: SpecError },
}

/// That `error` is why a plan does not fit a decoder with a binding.
pub open spec fn misfit_with(
    spec: DecoderSpec,
    binding: Binding,
    plan: PlanView,
    error: PlanErrorView,
) -> bool {
    let table = section_table::by_name(plan.sections);
    let expected = spec.vectors.sections();
    if unbound_fault(spec) is Some {
        error == (PlanErrorView::Plan { fault: unbound_fault(spec)->0 })
    } else if binding_fault(plan.binding, binding) is Some {
        error == (PlanErrorView::Plan { fault: binding_fault(plan.binding, binding)->0 })
    } else if section_table::duplicate(plan.sections) is Some {
        error == (PlanErrorView::Section {
            name: section_table::duplicate(plan.sections)->0,
            flaw: SectionFault::Duplicate,
        })
    } else if numeric_vectors::first_mismatch(table, expected) is Some {
        numeric_vectors::first_mismatch(table, expected) == Some(error)
    } else {
        &&& error matches PlanErrorView::Section { name, flaw }
        &&& flaw == SectionFault::Unknown
        &&& section_table::is_first_name(numeric_vectors::unexpected(table, expected), name)
    }
}

/// That `error` is why a plan does not fit the decoder and the request.
pub open spec fn misfit(
    request: DecodeRequest,
    spec: DecoderSpec,
    around: Surroundings,
    plan: PlanView,
    error: PlanErrorView,
) -> bool {
    misfit_with(spec, binding_of(request, spec, around), plan, error)
}

/// Whether a plan is one for a decoder with a binding: with the same binding, and
/// with exactly the sections of the decoder's vectors.
pub open spec fn fits_with(spec: DecoderSpec, binding: Binding, plan: PlanView) -> bool {
    let table = section_table::by_name(plan.sections);
    let expected = spec.vectors.sections();
    &&& unbound_fault(spec) is None
    &&& plan.binding == binding
    &&& section_table::duplicate(plan.sections) is None
    &&& numeric_vectors::first_mismatch(table, expected) is None
    &&& numeric_vectors::unexpected(table, expected) == Map::<Seq<char>, SectionView>::empty()
}

/// Whether the plan is one for the decoder and the request.
pub open spec fn plan_fits(
    request: DecodeRequest,
    spec: DecoderSpec,
    around: Surroundings,
    plan: PlanView,
) -> bool {
    fits_with(spec, binding_of(request, spec, around), plan)
}

/// That `after` is `before` with its vectors replaced by those of the plan.
pub open spec fn planned(before: DecoderSpec, plan: PlanView, after: DecoderSpec) -> bool {
    let table = section_table::by_name(plan.sections);
    let expected = before.vectors.sections();
    &&& after.scalars == before.scalars
    &&& after.geometry == before.geometry
    &&& after.chroma_trap == before.chroma_trap
    &&& forall|i: int|
        0 <= i < numeric_vectors::SECTION_COUNT ==> #[trigger] after.vectors.sections()[i]
            == table[expected[i].name]
}

/// That a decoder is what a request and its design come to.
pub open spec fn built(
    spec: DecoderSpec,
    request: DecodeRequest,
    measured: Measured,
    designed: NumericVectors,
) -> bool {
    &&& spec.scalars == spec::scalars_of(request, measured)
    &&& spec::selected(spec.vectors, spec::wanted_of(request), designed)
    &&& spec.chroma_trap == request.chroma_trap
    &&& spec.geometry == measured.geometry
}

impl DecoderSpec {
    /// The plan file of the decoder's vectors, and its identity.
    pub fn write_canonical_numeric_plan(
        &self,
        request: &DecodeRequest,
        deterministic: bool,
        around: &Surroundings,
    ) -> (result: Result<(Vec<u8>, CanonicalNumericPlanIdentity), PlanError>)
        ensures
            match result {
                Ok((file, identity)) => {
                    &&& unwritable(*self, *request, deterministic, *around) is None
                    &&& file@ == plan_of(*request, *self, *around).to_bytes()
                    &&& identity.digest() == digest::blake3_digest(file@)
                },
                Err(error) => unwritable(*self, *request, deterministic, *around) == Some(error@),
            },
    {
        match validate_supported_request(request, deterministic) {
            Ok(()) => {},
            Err(error) => return Err(error),
        }
        let binding: Binding = match binding_for(request, self, around) {
            Ok(binding) => binding,
            Err(error) => return Err(error),
        };
        let sections: Vec<Section> = match self.numeric_sections() {
            Ok(sections) => sections,
            Err(error) => return Err(error),
        };
        let plan = PlanFile { binding, sections };
        proof {
            assert(plan@ =~= plan_of(*request, *self, *around));
        }
        let file: Vec<u8> = match plan.encode() {
            Ok(file) => file,
            Err(error) => return Err(error),
        };
        let identity = CanonicalNumericPlanIdentity::for_bytes(file.as_slice());
        Ok((file, identity))
    }

    /// Replaces the decoder's vectors by those of a plan that is bound to it and to
    /// the request.
    pub fn with_plan(
        self,
        request: &DecodeRequest,
        plan: PlanFile,
        around: &Surroundings,
    ) -> (result: Result<DecoderSpec, PlanError>)
        ensures
            match result {
                Ok(spec) => plan_fits(*request, self, *around, plan@) && planned(
                    self,
                    plan@,
                    spec,
                ),
                Err(error) => !plan_fits(*request, self, *around, plan@) && misfit(
                    *request,
                    self,
                    *around,
                    plan@,
                    error@,
                ),
            },
    {
        self.with_plan_at(request.inputfreq, plan, around)
    }

    /// Replaces the decoder's vectors by those of a plan that is bound to it at an
    /// input rate.
    fn with_plan_at(self, rate: u64, plan: PlanFile, around: &Surroundings) -> (result: Result<
        DecoderSpec,
        PlanError,
    >)
        ensures
            ({
                let binding = binding_at(rate, self, *around);
                match result {
                    Ok(spec) => fits_with(self, binding, plan@) && planned(self, plan@, spec),
                    Err(error) => !fits_with(self, binding, plan@) && misfit_with(
                        self,
                        binding,
                        plan@,
                        error@,
                    ),
                }
            }),
    {
        let expected: Binding = match bind(rate, &self, around) {
            Ok(binding) => binding,
            Err(error) => return Err(error),
        };
        proof {
            law_binding_exact(plan.binding, binding_at(rate, self, *around));
        }
        match validate_binding(plan.binding, expected) {
            Ok(()) => {},
            Err(error) => return Err(error),
        }
        self.apply_numeric_sections(plan.sections)
    }

    /// The decoder that a request asks for, with the vectors of the plan file
    /// that holds `input`; and the file's identity.
    pub fn new_with_canonical_numeric_plan(
        request: DecodeRequest,
        deterministic: bool,
        input: &[u8],
        measured: Measured,
        designed: NumericVectors,
        around: &Surroundings,
    ) -> (result: Result<(DecoderSpec, CanonicalNumericPlanIdentity), CanonicalError>)
        ensures
            match result {
                Ok((spec, identity)) => {
                    &&& request::plan_request_fault(request, deterministic) is None
                    &&& plan_read::read_error(input@) is None
                    &&& spec::spec_error(request, measured.divided_rate) is None
                    &&& identity.digest() == digest::blake3_digest(input@)
                    &&& exists|before: DecoderSpec, plan: PlanView|
                        built(before, request, measured, designed) && plan_read::reads_as(
                            input@,
                            plan,
                        ) && #[trigger] plan_fits(request, before, *around, plan) && planned(
                            before,
                            plan,
                            spec,
                        )
                },
                Err(CanonicalError::Spec { fault }) => {
                    &&& request::plan_request_fault(request, deterministic) is None
                    &&& plan_read::read_error(input@) is None
                    &&& spec::spec_error(request, measured.divided_rate) == Some(fault)
                },
                Err(CanonicalError::Plan { error }) => {
                    if request::plan_request_fault(request, deterministic) is Some {
                        error@ == (PlanErrorView::Plan {
                            fault: request::plan_request_fault(request, deterministic)->0,
                        })
                    } else if plan_read::read_error(input@) is Some {
                        plan_read::read_error(input@) == Some(error@)
                    } else {
                        &&& spec::spec_error(request, measured.divided_rate) is None
                        &&& exists|before: DecoderSpec, plan: PlanView|
                            built(before, request, measured, designed) && plan_read::reads_as(
                                input@,
                                plan,
                            ) && !plan_fits(request, before, *around, plan) && #[trigger] misfit(
                                request,
                                before,
                                *around,
                                plan,
                                error@,
                            )
                    }
                },
            },
    {
        match validate_supported_request(&request, deterministic) {
            Ok(()) => {},
            Err(error) => return Err(CanonicalError::Plan { error }),
        }
        let identity = CanonicalNumericPlanIdentity::for_bytes(input);
        let plan: PlanFile = match PlanFile::decode(input) {
            Ok(plan) => plan,
            Err(error) => return Err(CanonicalError::Plan { error }),
        };
        let rate: u64 = request.inputfreq;
        let before: DecoderSpec = match DecoderSpec::new(request, measured, designed) {
            Ok(spec) => spec,
            Err(fault) => return Err(CanonicalError::Spec { fault }),
        };
        let ghost view = plan@;
        match before.with_plan_at(rate, plan, around) {
            Ok(spec) => {
                proof {
                    assert(plan_fits(request, before, *around, view));
                }
                Ok((spec, identity))
            },
            Err(error) => {
                proof {
                    assert(misfit(request, before, *around, view, error@));
                }
                Err(CanonicalError::Plan { error })
            },
        }
    }
}

/// The file that a decoder is written as is accepted by every decoder that is
/// bound alike and has vectors of the same shapes, and gives it the bits of
/// the decoder that was written.
pub proof fn law_plan_carries_bits(
    request: DecodeRequest,
    source: DecoderSpec,
    target: DecoderSpec,
    around: Surroundings,
    plan: PlanView,
)
    requires
        unbound_fault(source) is None,
        plan_of(request, source, around).write_error() is None,
        unbound_fault(target) is None,
        binding_of(request, target, around) == binding_of(request, source, around),
        forall|i: int|
            0 <= i < numeric_vectors::SECTION_COUNT ==> vectors::fits(
                #[trigger] source.vectors.sections()[i],
                target.vectors.sections()[i],
            ),
        plan_read::reads_as(plan_of(request, source, around).to_bytes(), plan),
    ensures
        plan_read::read_error(plan_of(request, source, around).to_bytes()) is None,
        plan_fits(request, target, around, plan),
        forall|after: DecoderSpec|
            #[trigger] planned(target, plan, after) ==> after.vectors.sections()
                == source.vectors.sections(),
{
    plan_laws::law_round_trip(plan_of(request, source, around));
    assert(plan == plan_of(request, source, around));
    numeric_vectors::law_apply_written(source.vectors, target.vectors);
    assert forall|after: DecoderSpec| #[trigger]
        planned(target, plan, after) implies after.vectors.sections()
        == source.vectors.sections() by {
        assert forall|i: int| 0 <= i < numeric_vectors::SECTION_COUNT implies
            #[trigger] after.vectors.sections()[i] == source.vectors.sections()[i] by {
            assert(target.vectors.sections()[i].name == target.vectors.sections()[i].name);
        }
        assert(after.vectors.sections() =~= source.vectors.sections());
    }
}

/// A decoder that is built anew as one was that has been written reads that file: it
/// is accepted, and holds the very same bits after it.
pub proof fn law_rebuilt_decoder_reads_plan(
    request: DecodeRequest,
    measured: Measured,
    designed: NumericVectors,
    source: DecoderSpec,
    target: DecoderSpec,
    around: Surroundings,
    plan: PlanView,
)
    requires
        built(source, request, measured, designed),
        built(target, request, measured, designed),
        unbound_fault(source) is None,
        plan_of(request, source, around).write_error() is None,
        plan_read::reads_as(plan_of(request, source, around).to_bytes(), plan),
    ensures
        plan_read::read_error(plan_of(request, source, around).to_bytes()) is None,
        plan_fits(request, target, around, plan),
        forall|after: DecoderSpec|
            #[trigger] planned(target, plan, after) ==> after.vectors.sections()
                == source.vectors.sections(),
{
    assert forall|i: int| 0 <= i < numeric_vectors::SECTION_COUNT implies
        #[trigger] source.vectors.sections()[i] == target.vectors.sections()[i] by {
        reveal(NumericVectors::section);
    }
    assert forall|i: int| 0 <= i < numeric_vectors::SECTION_COUNT implies vectors::fits(
        #[trigger] source.vectors.sections()[i],
        target.vectors.sections()[i],
    ) by {}
    law_plan_carries_bits(request, source, target, around, plan);
}

/// The file that a decoder is written as under one request is refused under every
/// other: one at another rate, or one whose serialised form has another digest.
/// Which decoder and which surroundings it is tried with does not matter.
pub proof fn law_other_request_refused(
    request: DecodeRequest,
    source: DecoderSpec,
    around: Surroundings,
    other: DecodeRequest,
    target: DecoderSpec,
    other_around: Surroundings,
    plan: PlanView,
)
    requires
        plan_of(request, source, around).write_error() is None,
        plan_read::reads_as(plan_of(request, source, around).to_bytes(), plan),
        request.inputfreq != other.inputfreq || request_digest_of(around.request_json@)
            != request_digest_of(other_around.request_json@),
    ensures
        !plan_fits(other, target, other_around, plan),
        binding_fault(plan.binding, binding_of(other, target, other_around)) is Some,
        forall|error: PlanErrorView|
            unbound_fault(target) is None && #[trigger] misfit(
                other,
                target,
                other_around,
                plan,
                error,
            ) ==> error == (PlanErrorView::Plan {
                fault: binding_fault(plan.binding, binding_of(other, target, other_around))->0,
            }),
{
    plan_laws::law_round_trip(plan_of(request, source, around));
    assert(plan == plan_of(request, source, around));
    law_binding_exact(plan.binding, binding_of(other, target, other_around));
}

} // verus!
