//! What a CUDA device is handed: whether a decode can run on one, how large the
//! buffers of a batch are, and how its blocks come back.
use vstd::prelude::*;

use crate::request::ColorSystem;
use crate::spec::{BLOCKCUT, BLOCKSIZE};
use crate::text;
use crate::text::{push_decimal, push_hexadecimal};
use crate::vectors::Sos;

verus! {

/// The frequencies of a block.
pub const HALF_BINS: usize = 16_385;

/// The samples that the envelope of a block is filtered in: three more at either
/// end.
pub const ENVELOPE_BLOCK: usize = 32_774;

/// What a decode asks of a device.
#[derive(Clone, Copy, Debug, PartialEq, Eq, Structural)]
pub struct DeviceNeeds {
    pub color_system: ColorSystem,
    /// Whether the input is sampled at 28,636,363 Hz, give or take one.
    pub ntsc_rate: bool,
    pub notch: bool,
    pub high_boost: bool,
    pub equalizer: bool,
    pub chroma_trap: bool,
    pub nonlinear_deemphasis: bool,
    pub subdeemphasis: bool,
    pub fsc_notch: bool,
    pub export_raw_tbc: bool,
}

/// Why a decode cannot run on a device.
#[derive(Clone, Copy, Debug, PartialEq, Eq, Structural)]
pub enum DeviceError {
    UnsupportedSystem,
    UnsupportedFilters,
    /// The device is too old.
    Capability { major: u32, minor: u32 },
    /// A batch has not as many samples as its blocks need.
    BatchSize { samples: usize, expected: usize },
    NoEnvelopeFilter,
    EnvelopeFilter,
    NoChromaSections,
    /// A field is too short for its filter.
    ChromaTooShort { samples: usize, edge: usize },
}

impl DeviceError {
    /// The message of an error.
    pub open spec fn text(self) -> Seq<char> {
        match self {
            DeviceError::UnsupportedSystem => "CUDA v1 supports only NTSC VHS at 28,636,363 Hz"@,
            DeviceError::UnsupportedFilters =>
            "CUDA v1 does not support modified/custom NTSC VHS block filters"@,
            DeviceError::Capability { major, minor } =>
            "CUDA backend requires compute capability 7.5 or newer; device reports "@
                + text::decimal(major as nat) + "."@ + text::decimal(minor as nat),
            DeviceError::BatchSize { samples, expected } => "CUDA field batch has "@
                + text::decimal(samples as nat) + " samples; expected "@ + text::decimal(
                expected as nat,
            ),
            DeviceError::NoEnvelopeFilter => "missing CUDA envelope post-filter"@,
            DeviceError::EnvelopeFilter =>
            "CUDA envelope post-filter requires one first-order SOS section"@,
            DeviceError::NoChromaSections => "CUDA chroma filter has no SOS sections"@,
            DeviceError::ChromaTooShort { samples, edge } => "CUDA chroma field has "@
                + text::decimal(samples as nat)
                + " samples; zero-phase filter requires more than "@ + text::decimal(edge as nat),
        }
    }

    /// The message of an error.
    pub fn message(self) -> (text: String)
        ensures
            text@ == self.text(),
    {
        match self {
            DeviceError::UnsupportedSystem =>
            "CUDA v1 supports only NTSC VHS at 28,636,363 Hz".to_owned(),
            DeviceError::UnsupportedFilters =>
            "CUDA v1 does not support modified/custom NTSC VHS block filters".to_owned(),
            DeviceError::Capability { major, minor } => {
                let mut message =
                    "CUDA backend requires compute capability 7.5 or newer; device reports ".to_owned();
                push_decimal(&mut message, major as u64);
                message.append(".");
                push_decimal(&mut message, minor as u64);
                message
            },
            DeviceError::BatchSize { samples, expected } => {
                let mut message = "CUDA field batch has ".to_owned();
                push_decimal(&mut message, samples as u64);
                message.append(" samples; expected ");
                push_decimal(&mut message, expected as u64);
                message
            },
            DeviceError::NoEnvelopeFilter => "missing CUDA envelope post-filter".to_owned(),
            DeviceError::EnvelopeFilter =>
            "CUDA envelope post-filter requires one first-order SOS section".to_owned(),
            DeviceError::NoChromaSections => "CUDA chroma filter has no SOS sections".to_owned(),
            DeviceError::ChromaTooShort { samples, edge } => {
                let mut message = "CUDA chroma field has ".to_owned();
                push_decimal(&mut message, samples as u64);
                message.append(" samples; zero-phase filter requires more than ");
                push_decimal(&mut message, edge as u64);
                message
            },
        }
    }
}

/// Why a decode cannot run on a device, if it cannot.
pub open spec fn needs_fault(needs: DeviceNeeds) -> Option<DeviceError> {
    if needs.color_system != ColorSystem::Ntsc || !needs.ntsc_rate {
        Some(DeviceError::UnsupportedSystem)
    } else if needs.notch || needs.high_boost || needs.equalizer || needs.chroma_trap
        || needs.nonlinear_deemphasis || needs.subdeemphasis || needs.fsc_notch
        || needs.export_raw_tbc {
        Some(DeviceError::UnsupportedFilters)
    } else {
        None
    }
}

/// Whether a decode can run on a device.
pub fn validate_spec(needs: &DeviceNeeds) -> (result: Result<(), DeviceError>)
    ensures
        match result {
            Ok(()) => needs_fault(*needs) is None,
            Err(error) => needs_fault(*needs) == Some(error),
        },
{
    if needs.color_system != ColorSystem::Ntsc || !needs.ntsc_rate {
        return Err(DeviceError::UnsupportedSystem);
    }
    if needs.notch || needs.high_boost || needs.equalizer || needs.chroma_trap
        || needs.nonlinear_deemphasis || needs.subdeemphasis || needs.fsc_notch
        || needs.export_raw_tbc {
        return Err(DeviceError::UnsupportedFilters);
    }
    Ok(())
}

/// Whether a device is new enough: its capability is 7.5 or more.
pub fn check_capability(major: u32, minor: u32) -> (result: Result<(), DeviceError>)
    ensures
        match result {
            Ok(()) => major > 7 || (major == 7 && minor >= 5),
            Err(error) => (major < 7 || (major == 7 && minor < 5)) && error
                == DeviceError::Capability { major, minor },
        },
{
    if major < 7 || (major == 7 && minor < 5) {
        Err(DeviceError::Capability { major, minor })
    } else {
        Ok(())
    }
}

/// The sizes of the buffers of a batch.
#[derive(Clone, Copy, Debug, PartialEq, Eq, Structural)]
pub struct BatchLayout {
    pub blocks: usize,
    pub usable: usize,
    /// The input samples: the blocks overlap.
    pub input_len: usize,
    pub real_len: usize,
    pub spectrum_len: usize,
    pub packed_len: usize,
    pub envelope_len: usize,
}

/// The sizes of the buffers of a batch.
pub open spec fn layout_of(blocks: int, usable: int) -> BatchLayout {
    BatchLayout {
        blocks: blocks as usize,
        usable: usable as usize,
        input_len: ((blocks - 1) * usable + BLOCKSIZE) as usize,
        real_len: (blocks * BLOCKSIZE) as usize,
        spectrum_len: (blocks * HALF_BINS) as usize,
        packed_len: (blocks * usable) as usize,
        envelope_len: (blocks * ENVELOPE_BLOCK) as usize,
    }
}

/// How many blocks a batch has at most: its sizes are counted in 31 bits.
pub const MAX_BATCH_BLOCKS: usize = 21_845;

impl BatchLayout {
    /// The sizes for this many blocks. Three spectra, and three blocks each, fit
    /// the 31 bits that a device counts with.
    pub fn new(blocks: usize, usable: usize) -> (layout: BatchLayout)
        requires
            0 < blocks <= MAX_BATCH_BLOCKS,
            usable <= BLOCKSIZE,
        ensures
            layout == layout_of(blocks as int, usable as int),
            layout.input_len == (blocks - 1) * usable + BLOCKSIZE,
            layout.packed_len == blocks * usable,
            layout.packed_len <= layout.real_len,
            layout.input_len <= layout.real_len,
            3 * layout.real_len <= 0x7fff_ffff,
            3 * layout.spectrum_len <= 0x7fff_ffff,
    {
        proof {
            assert((blocks - 1) * usable <= (blocks - 1) * BLOCKSIZE) by (nonlinear_arith)
                requires
                    0 < blocks,
                    usable <= BLOCKSIZE,
            ;
            assert(0 <= (blocks - 1) * usable) by (nonlinear_arith)
                requires
                    0 < blocks,
                    0 <= usable,
            ;
            assert(blocks * usable <= blocks * BLOCKSIZE) by (nonlinear_arith)
                requires
                    usable <= BLOCKSIZE,
            ;
        }
        BatchLayout {
            blocks,
            usable,
            input_len: (blocks - 1) * usable + BLOCKSIZE,
            real_len: blocks * BLOCKSIZE,
            spectrum_len: blocks * HALF_BINS,
            packed_len: blocks * usable,
            envelope_len: blocks * ENVELOPE_BLOCK,
        }
    }

    /// Whether a batch has the samples that its blocks need.
    pub fn check_input(&self, samples: usize) -> (result: Result<(), DeviceError>)
        ensures
            match result {
                Ok(()) => samples == self.input_len,
                Err(error) => samples != self.input_len && error == (DeviceError::BatchSize {
                    samples,
                    expected: self.input_len,
                }),
            },
    {
        if samples == self.input_len {
            Ok(())
        } else {
            Err(DeviceError::BatchSize { samples, expected: self.input_len })
        }
    }
}

/// Whether a single is zero, of either sign.
pub open spec fn zero_single(bits: u32) -> bool {
    bits == 0 || bits == 0x8000_0000
}

/// Whether a single is zero, of either sign.
pub fn is_zero_single(bits: u32) -> (zero: bool)
    ensures
        zero == zero_single(bits),
{
    bits == 0 || bits == 0x8000_0000
}

/// Whether the filter that smooths the envelope is one section of the first order.
pub fn check_envelope_filter(filter: &[Sos]) -> (result: Result<(), DeviceError>)
    ensures
        match result {
            Ok(()) => filter@.len() == 1 && zero_single(filter@[0].words[2]) && zero_single(
                filter@[0].words[5],
            ),
            Err(error) => if filter@.len() == 0 {
                error == DeviceError::NoEnvelopeFilter
            } else {
                error == DeviceError::EnvelopeFilter && !(filter@.len() == 1 && zero_single(
                    filter@[0].words[2],
                ) && zero_single(filter@[0].words[5]))
            },
        },
{
    if filter.len() == 0 {
        return Err(DeviceError::NoEnvelopeFilter);
    }
    if filter.len() != 1 || !is_zero_single(filter[0].words[2]) || !is_zero_single(
        filter[0].words[5],
    ) {
        return Err(DeviceError::EnvelopeFilter);
    }
    Ok(())
}

/// How many of the first sections have a zero at this place.
pub open spec fn zero_words(filter: Seq<Sos>, place: int, count: nat) -> nat
    decreases count,
{
    if count == 0 {
        0
    } else {
        zero_words(filter, place, (count - 1) as nat) + if zero_single(
            filter[count - 1].words[place],
        ) {
            1nat
        } else {
            0nat
        }
    }
}

/// By how many samples a signal is lengthened at either end before a filter runs
/// over it both ways.
pub open spec fn filter_edge(filter: Seq<Sos>) -> int {
    let b = zero_words(filter, 2, filter.len());
    let a = zero_words(filter, 5, filter.len());
    (2 * filter.len() + 1 - if b < a {
        b
    } else {
        a
    }) * 3
}

/// By how many samples a signal is lengthened at either end before a filter runs
/// over it both ways.
pub fn sosfiltfilt_edge(filter: &[Sos]) -> (edge: usize)
    requires
        6 * filter@.len() + 3 <= usize::MAX,
    ensures
        edge == filter_edge(filter@),
{
    let total: usize = filter.len();
    let mut bzeros: usize = 0;
    let mut azeros: usize = 0;
    let mut index: usize = 0;
    while index < total
        invariant
            index <= total == filter@.len(),
            bzeros <= index,
            azeros <= index,
            bzeros == zero_words(filter@, 2, index as nat),
            azeros == zero_words(filter@, 5, index as nat),
        decreases total - index,
    {
        if is_zero_single(filter[index].words[2]) {
            bzeros = bzeros + 1;
        }
        if is_zero_single(filter[index].words[5]) {
            azeros = azeros + 1;
        }
        index = index + 1;
    }
    let fewer: usize = if bzeros < azeros {
        bzeros
    } else {
        azeros
    };
    ((2 * total + 1) - fewer) * 3
}

/// The samples of a lengthened field, and by how many it is lengthened at either
/// end.
pub fn chroma_layout(samples: usize, filter: &[Sos]) -> (result: Result<
    (usize, usize),
    DeviceError,
>)
    requires
        6 * filter@.len() + 3 <= usize::MAX,
        samples + 2 * filter_edge(filter@) <= usize::MAX,
    ensures
        match result {
            Ok((extended, edge)) => filter@.len() > 0 && edge == filter_edge(filter@) && edge
                < samples && extended == samples + 2 * edge,
            Err(error) => if filter@.len() == 0 {
                error == DeviceError::NoChromaSections
            } else {
                samples <= filter_edge(filter@) && error == (DeviceError::ChromaTooShort {
                    samples,
                    edge: filter_edge(filter@) as usize,
                })
            },
        },
{
    if filter.len() == 0 {
        return Err(DeviceError::NoChromaSections);
    }
    let edge: usize = sosfiltfilt_edge(filter);
    if samples <= edge {
        return Err(DeviceError::ChromaTooShort { samples, edge });
    }
    Ok((samples + 2 * edge, edge))
}

/// One run of a section over a lengthened field, from one of two buffers into the
/// other.
#[derive(Clone, Copy, Debug, PartialEq, Eq, Structural)]
pub struct FilterPass {
    pub section: usize,
    /// Whether it runs from the end to the beginning.
    pub reverse: bool,
    /// Whether it reads the first buffer and fills the second.
    pub from_first: bool,
}

/// The runs of a filter with `count` sections that passes over a field both ways:
/// all sections forward, then all of them backward, each from the buffer that the
/// run before has filled.
pub open spec fn passes_of(count: nat) -> Seq<FilterPass> {
    Seq::new(
        2 * count,
        |k: int|
            FilterPass {
                section: (k % count as int) as usize,
                reverse: k >= count,
                from_first: k % 2 == 0,
            },
    )
}

/// The runs of a filter that passes over a field both ways, in order.
pub fn filter_passes(count: usize) -> (passes: Vec<FilterPass>)
    requires
        2 * count <= usize::MAX,
    ensures
        passes@ == passes_of(count as nat),
{
    let total: usize = 2 * count;
    let mut passes: Vec<FilterPass> = Vec::with_capacity(total);
    let mut index: usize = 0;
    while index < total
        invariant
            index <= total == 2 * count,
            passes@.len() == index,
            forall|k: int|
                0 <= k < index ==> #[trigger] passes@[k] == passes_of(count as nat)[k],
        decreases total - index,
    {
        let reverse = index >= count;
        let section: usize = if reverse {
            index - count
        } else {
            index
        };
        proof {
            if reverse {
                vstd::arithmetic::div_mod::lemma_mod_add_multiples_vanish(
                    section as int,
                    count as int,
                );
            } else {
                vstd::arithmetic::div_mod::lemma_small_mod(section as nat, count as nat);
            }
            vstd::arithmetic::div_mod::lemma_small_mod(section as nat, count as nat);
        }
        passes.push(FilterPass { section, reverse, from_first: index % 2 == 0 });
        index = index + 1;
    }
    passes
}

/// Each run reads what the one before has filled, the first buffer holds the field
/// at the beginning, and it holds the filtered field at the end.
pub proof fn law_passes_end_in_first(count: nat)
    ensures
        ({
            let passes = passes_of(count);
            &&& passes.len() % 2 == 0
            &&& count > 0 ==> passes[0].from_first && !passes.last().from_first
            &&& forall|k: int|
                0 < k < passes.len() ==> (#[trigger] passes[k]).from_first != passes[k
                    - 1].from_first
        }),
{
}

/// The samples that a field is lengthened by, mirrored at its ends: those before it
/// and those after it, in order.
pub fn mirrored_ends(samples: usize, edge: usize) -> (ends: (Vec<usize>, Vec<usize>))
    requires
        edge < samples,
    ensures
        ends.0@ == Seq::new(edge as nat, |k: int| (edge - k) as usize),
        ends.1@ == Seq::new(edge as nat, |k: int| (samples - 2 - k) as usize),
{
    let mut before: Vec<usize> = Vec::with_capacity(edge);
    let mut after: Vec<usize> = Vec::with_capacity(edge);
    let mut index: usize = 0;
    while index < edge
        invariant
            index <= edge < samples,
            before@ == Seq::new(index as nat, |k: int| (edge - k) as usize),
            after@ == Seq::new(index as nat, |k: int| (samples - 2 - k) as usize),
        decreases edge - index,
    {
        before.push(edge - index);
        after.push(samples - 2 - index);
        proof {
            let next = (index + 1) as nat;
            assert(before@ =~= Seq::new(next, |k: int| (edge - k) as usize));
            assert(after@ =~= Seq::new(next, |k: int| (samples - 2 - k) as usize));
        }
        index = index + 1;
    }
    (before, after)
}

/// The blocks whose flag is set.
pub open spec fn flagged(flags: Seq<u8>, count: nat) -> Seq<usize>
    decreases count,
{
    if count == 0 {
        Seq::empty()
    } else {
        let before = flagged(flags, (count - 1) as nat);
        if flags[count - 1] != 0 {
            before.push((count - 1) as usize)
        } else {
            before
        }
    }
}

/// The blocks that are demodulated again without the device: those whose flag is
/// set.
pub fn spike_blocks(flags: &[u8]) -> (blocks: Vec<usize>)
    ensures
        blocks@ == flagged(flags@, flags@.len()),
{
    let total: usize = flags.len();
    let mut blocks: Vec<usize> = Vec::new();
    let mut block: usize = 0;
    while block < total
        invariant
            block <= total == flags@.len(),
            blocks@ == flagged(flags@, block as nat),
        decreases total - block,
    {
        if flags[block] != 0 {
            blocks.push(block);
        }
        block = block + 1;
    }
    blocks
}

/// Puts the samples of a block in the place of those that the device gave.
pub fn replace_block<T: Copy>(packed: &mut Vec<T>, block: usize, samples: &[T])
    requires
        (block + 1) * samples@.len() <= old(packed)@.len(),
    ensures
        final(packed)@ == old(packed)@.take(block * samples@.len()) + samples@
            + old(packed)@.skip((block + 1) * samples@.len()),
{
    let total: usize = packed.len();
    let usable: usize = samples.len();
    proof {
        assert(block * usable + usable == (block + 1) * usable) by (nonlinear_arith);
        assert(0 <= block * usable) by (nonlinear_arith);
        assert(block * samples@.len() == block * usable);
        assert((block + 1) * samples@.len() == (block + 1) * usable);
        assert(block * usable <= total);
    }
    let start: usize = block * usable;
    let ghost before = packed@;
    let mut index: usize = 0;
    while index < usable
        invariant
            index <= usable == samples@.len(),
            start + usable <= total == before.len(),
            packed@.len() == before.len(),
            forall|i: int|
                0 <= i < before.len() ==> #[trigger] packed@[i] == if start <= i < start + index {
                    samples@[i - start]
                } else {
                    before[i]
                },
        decreases usable - index,
    {
        packed.set(start + index, samples[index]);
        index = index + 1;
    }
    proof {
        assert(packed@ =~= before.take(start as int) + samples@ + before.skip(
            (start + usable) as int,
        ));
    }
}

/// The middle of each block of a batch, one after the other. As the blocks overlap,
/// that is the input without its first and last samples.
pub fn block_middles<T: Copy>(input: &[T], blocks: usize, usable: usize) -> (middles: Vec<T>)
    requires
        0 < blocks,
        BLOCKCUT + blocks * usable <= input@.len(),
    ensures
        middles@ == input@.subrange(BLOCKCUT as int, BLOCKCUT + blocks * usable),
        middles@ == input@.skip(1024).take(blocks * usable),
{
    let total: usize = input.len();
    let mut middles: Vec<T> = Vec::new();
    let mut block: usize = 0;
    proof {
        assert(0 * usable == 0) by (nonlinear_arith);
        assert(middles@ =~= input@.subrange(BLOCKCUT as int, BLOCKCUT + 0 * usable));
    }
    while block < blocks
        invariant
            block <= blocks,
            total == input@.len(),
            BLOCKCUT + blocks * usable <= total,
            middles@ == input@.subrange(BLOCKCUT as int, BLOCKCUT + block * usable),
        decreases blocks - block,
    {
        proof {
            assert((block + 1) * usable <= blocks * usable) by (nonlinear_arith)
                requires
                    block + 1 <= blocks,
            ;
            assert((block + 1) * usable == block * usable + usable) by (nonlinear_arith);
            assert(0 <= block * usable) by (nonlinear_arith);
        }
        let start: usize = block * usable + BLOCKCUT;
        let mut index: usize = 0;
        while index < usable
            invariant
                index <= usable,
                total == input@.len(),
                start == block * usable + BLOCKCUT,
                start + usable <= total,
                BLOCKCUT <= start,
                middles@ == input@.subrange(BLOCKCUT as int, start + index),
            decreases usable - index,
        {
            middles.push(input[start + index]);
            index = index + 1;
            proof {
                assert(middles@ =~= input@.subrange(BLOCKCUT as int, start + index));
            }
        }
        block = block + 1;
    }
    middles
}

/// The file that the kernels of a device are kept in.
pub open spec fn cubin_file(major: nat, minor: nat, key: nat) -> Seq<char> {
    "demod-sm_"@ + text::decimal(major) + text::decimal(minor) + "-"@ + text::hexadecimal(key, 16)
        + ".cubin"@
}

/// The file that the kernels of a device are kept in; `key` stands for what they
/// were built from.
pub fn cubin_name(major: u32, minor: u32, key: u64) -> (name: String)
    ensures
        name@ == cubin_file(major as nat, minor as nat, key as nat),
{
    let mut name = "demod-sm_".to_owned();
    push_decimal(&mut name, major as u64);
    push_decimal(&mut name, minor as u64);
    name.append("-");
    push_hexadecimal(&mut name, key, 16);
    name.append(".cubin");
    name
}

} // verus!
