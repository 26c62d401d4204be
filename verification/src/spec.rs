//! What a decoder was built for: its scalar settings, its numeric vectors and
//! the sample counts that follow from them.
use vstd::prelude::*;

use crate::ieee;
use crate::numeric_vectors;
use crate::numeric_vectors::NumericVectors;
use crate::plan;
use crate::plan::Section;
use crate::plan_error::{PlanError, PlanErrorView, PlanFault, SectionFault};
use crate::request::{
    ColorSystem, DecodeRequest, DecoderParams, FieldOrderAction, LineSystem, SysParams,
    WowInterpolation,
};
use crate::section_table;
use crate::text;

verus! {

/// Samples in a block of input.
pub const BLOCKSIZE: usize = 32_768;

/// Samples cut from the start of a decoded block.
pub const BLOCKCUT: usize = 1024;

/// Samples cut from the end of a decoded block.
pub const BLOCKCUT_END: usize = 1024;

/// The double 4.0.
pub const FOUR: u64 = 0x4010_0000_0000_0000;

/// The double 60.0.
pub const SIXTY: u64 = 0x404e_0000_0000_0000;

/// The distance from the double 1.0 to the next one.
pub const EPSILON: u64 = 0x3cb0_0000_0000_0000;

/// Why a request cannot be decoded.
#[derive(Clone, Copy, Debug, PartialEq, Eq, Structural)]
pub enum SpecError {
    /// The level detection divisor is not one of 1 to 10.
    DivisorUnsupported { divisor: i64 },
    /// The divided input rate is under four megahertz.
    DivisorTooHigh { divisor: i64 },
    /// Sharpness without equaliser bands in the profile.
    SharpnessWithoutBands,
    /// An audio notch without audio channels in the profile.
    AudioNotchWithoutChannels,
    /// A track phase with SECAM.
    TrackPhaseSecam,
    /// A track phase other than 0 or 1.
    TrackPhaseRange,
}

/// Decimal digits with a sign.
pub open spec fn signed_decimal(value: i64) -> Seq<char> {
    if value < 0 {
        "-"@ + text::decimal((-value) as nat)
    } else {
        text::decimal(value as nat)
    }
}

fn push_signed(message: &mut String, value: i64)
    ensures
        final(message)@ == old(message)@ + signed_decimal(value),
{
    let ghost before = message@;
    if value < 0 {
        message.append("-");
        let magnitude: u64 = (-(value + 1)) as u64 + 1;
        text::push_decimal(message, magnitude);
        proof {
            assert(before + "-"@ + text::decimal(magnitude as nat) =~= before + signed_decimal(
                value,
            ));
        }
    } else {
        text::push_decimal(message, value as u64);
    }
}

impl SpecError {
    /// The sentence that reports the error; `rate` is the input rate as text.
    pub open spec fn text(self, rate: Seq<char>) -> Seq<char> {
        match self {
            SpecError::DivisorUnsupported { divisor } => "requested level detection divisor "@
                + signed_decimal(divisor) + " is not supported"@,
            SpecError::DivisorTooHigh { divisor } => "requested level detection divisor "@
                + signed_decimal(divisor) + " too high for frequency "@ + rate + " MHz"@,
            SpecError::SharpnessWithoutBands => "sharpness requires video_eq params"@,
            SpecError::AudioNotchWithoutChannels =>
                "Requested audio notch even though the format does not have audio channels specified!"@,
            SpecError::TrackPhaseSecam => "Track phase is not supported for SECAM"@,
            SpecError::TrackPhaseRange => "Track phase can only be 0, 1 or None"@,
        }
    }

    /// The sentence that reports the error; `rate` is the input rate as text.
    pub fn message(self, rate: &str) -> (message: String)
        ensures
            message@ == self.text(rate@),
    {
        match self {
            SpecError::DivisorUnsupported { divisor } => {
                let mut message = "requested level detection divisor ".to_owned();
                push_signed(&mut message, divisor);
                message.append(" is not supported");
                message
            },
            SpecError::DivisorTooHigh { divisor } => {
                let mut message = "requested level detection divisor ".to_owned();
                push_signed(&mut message, divisor);
                message.append(" too high for frequency ");
                message.append(rate);
                message.append(" MHz");
                message
            },
            SpecError::SharpnessWithoutBands => "sharpness requires video_eq params".to_owned(),
            SpecError::AudioNotchWithoutChannels =>
                "Requested audio notch even though the format does not have audio channels specified!".to_owned(),
            SpecError::TrackPhaseSecam => "Track phase is not supported for SECAM".to_owned(),
            SpecError::TrackPhaseRange => "Track phase can only be 0, 1 or None".to_owned(),
        }
    }
}

/// The colour system that the radio-frequency path works in.
pub open spec fn rf_color_system_of(request: DecodeRequest) -> ColorSystem {
    if request.decode_profile.decoder_params.is_composite_color {
        ColorSystem::Monochrome
    } else {
        request.decode_profile.sys_params.color_system
    }
}

/// Whether colour lies under the luminance carrier.
pub open spec fn is_color_under_of(request: DecodeRequest) -> bool {
    rf_color_system_of(request) != ColorSystem::Monochrome
}

/// Which of the optional filters a request asks for.
#[derive(Clone, Copy, Debug, PartialEq, Eq, Structural)]
pub struct Wanted {
    pub color_under: bool,
    pub sharpness: bool,
    pub afc: bool,
    pub audio_notch: bool,
    pub top_gain: bool,
    pub fsc_notch: bool,
    pub nl_high_pass: bool,
    pub video_notch: bool,
    pub chroma_deemphasis: bool,
    pub chroma_audio_notch: bool,
    pub secam_under: bool,
    pub chroma_trap: bool,
    pub subdeemp: bool,
}

/// Which of the optional filters a request asks for.
pub open spec fn wanted_of(request: DecodeRequest) -> Wanted {
    let decoder = request.decode_profile.decoder_params;
    let subdeemp = decoder.nonlinear.use_sub_deemphasis || request.subdeemp;
    Wanted {
        color_under: is_color_under_of(request),
        sharpness: request.sharpness >= 1,
        afc: request.cafc,
        audio_notch: ieee::lt_double(EPSILON, request.fm_audio_notch),
        top_gain: decoder.boost_mult is Some,
        fsc_notch: request.decode_profile.decode_options.use_fsc_notch_filter,
        nl_high_pass: request.video_nldeemp_enabled || subdeemp,
        video_notch: request.has_notch,
        chroma_deemphasis: decoder.chroma_deemphasis_enabled,
        chroma_audio_notch: ieee::lt_double(EPSILON, decoder.chroma_audio_notch_freq),
        secam_under: decoder.chroma_carrier_mult is Some && is_color_under_of(request),
        chroma_trap: request.chroma_trap,
        subdeemp,
    }
}

/// Why the level detection divisor is refused, if it is; `divided_rate` is the
/// input rate over the divisor.
pub open spec fn divisor_error(request: DecodeRequest, divided_rate: u64) -> Option<SpecError> {
    let divisor = request.level_detect_divisor;
    if divisor < 1 || divisor > 10 {
        Some(SpecError::DivisorUnsupported { divisor })
    } else if ieee::lt_double(divided_rate, FOUR) {
        Some(SpecError::DivisorTooHigh { divisor })
    } else {
        None
    }
}

pub open spec fn sharpness_error(request: DecodeRequest) -> Option<SpecError> {
    if wanted_of(request).sharpness && !request.decode_profile.decoder_params.has_video_eq {
        Some(SpecError::SharpnessWithoutBands)
    } else {
        None
    }
}

pub open spec fn audio_notch_error(request: DecodeRequest) -> Option<SpecError> {
    if wanted_of(request).audio_notch
        && !request.decode_profile.decoder_params.has_fm_audio_channels {
        Some(SpecError::AudioNotchWithoutChannels)
    } else {
        None
    }
}

pub open spec fn track_phase_error(request: DecodeRequest) -> Option<SpecError> {
    match request.track_phase {
        Some(phase) => if rf_color_system_of(request) == ColorSystem::Secam {
            Some(SpecError::TrackPhaseSecam)
        } else if phase != 0 && phase != 1 {
            Some(SpecError::TrackPhaseRange)
        } else {
            None
        },
        None => None,
    }
}

/// The first reason why a request is refused.
pub open spec fn spec_error(request: DecodeRequest, divided_rate: u64) -> Option<SpecError> {
    if divisor_error(request, divided_rate) is Some {
        divisor_error(request, divided_rate)
    } else if sharpness_error(request) is Some {
        sharpness_error(request)
    } else if audio_notch_error(request) is Some {
        audio_notch_error(request)
    } else {
        track_phase_error(request)
    }
}

/// Which of the optional filters a request asks for.
pub fn wanted(request: &DecodeRequest) -> (wanted: Wanted)
    ensures
        wanted == wanted_of(*request),
{
    let decoder = &request.decode_profile.decoder_params;
    let subdeemp = decoder.nonlinear.use_sub_deemphasis || request.subdeemp;
    let color_under = rf_color_system(request) != ColorSystem::Monochrome;
    Wanted {
        color_under,
        sharpness: request.sharpness >= 1,
        afc: request.cafc,
        audio_notch: ieee::less_double(EPSILON, request.fm_audio_notch),
        top_gain: decoder.boost_mult.is_some(),
        fsc_notch: request.decode_profile.decode_options.use_fsc_notch_filter,
        nl_high_pass: request.video_nldeemp_enabled || subdeemp,
        video_notch: request.has_notch,
        chroma_deemphasis: decoder.chroma_deemphasis_enabled,
        chroma_audio_notch: ieee::less_double(EPSILON, decoder.chroma_audio_notch_freq),
        secam_under: decoder.chroma_carrier_mult.is_some() && color_under,
        chroma_trap: request.chroma_trap,
        subdeemp,
    }
}

/// The colour system that the radio-frequency path works in.
pub fn rf_color_system(request: &DecodeRequest) -> (system: ColorSystem)
    ensures
        system == rf_color_system_of(*request),
{
    if request.decode_profile.decoder_params.is_composite_color {
        ColorSystem::Monochrome
    } else {
        request.decode_profile.sys_params.color_system
    }
}

/// Tests the level detection divisor; `divided_rate` is the input rate over it.
pub fn check_divisor(request: &DecodeRequest, divided_rate: u64) -> (result: Result<
    usize,
    SpecError,
>)
    ensures
        match result {
            Ok(divisor) => divisor_error(*request, divided_rate) is None && divisor
                == request.level_detect_divisor,
            Err(error) => divisor_error(*request, divided_rate) == Some(error),
        },
{
    let divisor: i64 = request.level_detect_divisor;
    if divisor < 1 || divisor > 10 {
        return Err(SpecError::DivisorUnsupported { divisor });
    }
    if ieee::less_double(divided_rate, FOUR) {
        return Err(SpecError::DivisorTooHigh { divisor });
    }
    Ok(divisor as usize)
}

/// Whether the sharpness equaliser is to be designed.
pub fn check_sharpness(request: &DecodeRequest) -> (result: Result<bool, SpecError>)
    ensures
        match result {
            Ok(design) => sharpness_error(*request) is None && design == wanted_of(
                *request,
            ).sharpness,
            Err(error) => sharpness_error(*request) == Some(error),
        },
{
    let design = wanted(request).sharpness;
    if design && !request.decode_profile.decoder_params.has_video_eq {
        return Err(SpecError::SharpnessWithoutBands);
    }
    Ok(design)
}

/// Whether the audio carriers are to be notched out.
pub fn check_audio_notch(request: &DecodeRequest) -> (result: Result<bool, SpecError>)
    ensures
        match result {
            Ok(design) => audio_notch_error(*request) is None && design == wanted_of(
                *request,
            ).audio_notch,
            Err(error) => audio_notch_error(*request) == Some(error),
        },
{
    let design = wanted(request).audio_notch;
    if design && !request.decode_profile.decoder_params.has_fm_audio_channels {
        return Err(SpecError::AudioNotchWithoutChannels);
    }
    Ok(design)
}

/// Tests the requested track phase.
pub fn check_track_phase(request: &DecodeRequest) -> (result: Result<Option<i64>, SpecError>)
    ensures
        match result {
            Ok(phase) => track_phase_error(*request) is None && phase == request.track_phase,
            Err(error) => track_phase_error(*request) == Some(error),
        },
{
    match request.track_phase {
        Some(phase) => {
            if rf_color_system(request) == ColorSystem::Secam {
                return Err(SpecError::TrackPhaseSecam);
            }
            if phase != 0 && phase != 1 {
                return Err(SpecError::TrackPhaseRange);
            }
        },
        None => {},
    }
    Ok(request.track_phase)
}

/// Sample counts that follow from the rates of a request.
#[derive(Clone, Copy, Debug, PartialEq, Eq, Structural)]
pub struct Geometry {
    /// Input samples in a line.
    pub linelen: usize,
    /// Input samples in a field, rounded up past the next whole number.
    pub bytes_per_field: u64,
    /// Fields in a second.
    pub field_rate: u64,
    /// A fifth of the field rate, rounded.
    pub field_rate_fifth: usize,
    /// A sixth of the field rate, rounded.
    pub field_rate_sixth: usize,
    /// Samples in an equalising pulse at the resync rate.
    pub eq_pulselen_downsampled: usize,
    /// Samples in a line at the resync rate.
    pub linelen_downsampled: usize,
}

/// What the rates of a request come to.
#[derive(Clone, Copy, Debug, PartialEq, Eq, Structural)]
pub struct Measured {
    /// The input rate over the level detection divisor.
    pub divided_rate: u64,
    /// The comb level in hertz.
    pub y_comb: u32,
    /// Half the lines of a frame.
    pub half_frame_lines: u32,
    /// By how much the envelope is decimated.
    pub vsync_env_decimation: usize,
    pub geometry: Geometry,
}

/// The television system, as far as a decoder keeps it.
pub struct SystemScalars {
    pub fsc_mhz: u64,
    pub frame_lines: LineSystem,
    pub field_lines: [i64; 2],
    pub line_period: u64,
    pub active_video_us: [u64; 2],
    pub fps: u64,
    pub ire0: u32,
    pub hz_ire: u32,
    pub vsync_ire: u32,
    pub color_burst_us: [u64; 2],
    pub blacksnr_slice: [usize; 3],
    pub num_pulses: usize,
    pub hsync_pulse_us: u64,
    pub eq_pulse_us: u64,
    pub vsync_pulse_us: u64,
    pub output_zero: i64,
    pub outlinelen: usize,
    pub outfreq: u64,
    pub ld_vits_whitelocs: Vec<[usize; 3]>,
    pub burst_abs_ref: Option<u32>,
    pub track_ire0_offset: [u64; 2],
    pub nonlinear_deviation: Option<u32>,
}

/// The nonlinear de-emphasis, as far as a decoder keeps it.
pub struct NonlinearScalars {
    pub highpass_limit_l: u32,
    pub highpass_limit_h: u32,
    pub exp_scaling: u32,
    pub scaling_1: Option<u32>,
    pub scaling_2: Option<u32>,
    pub logistic: Option<(u32, u32)>,
    pub static_factor: Option<u32>,
}

/// The tape format, as far as a decoder keeps it.
pub struct FormatScalars {
    pub color_under_carrier: u64,
    pub chroma_bpf_upper: u64,
    pub chroma_bpf_order: usize,
    pub chroma_bpf_lower: u64,
    pub chroma_rotation: Option<[i64; 2]>,
    pub chroma_carrier_mult: Option<u64>,
    pub chroma_offset: u64,
    pub nonlinear: NonlinearScalars,
}

/// The scalar settings of a decoder.
pub struct SpecScalars {
    pub freq: u64,
    pub color_system: ColorSystem,
    pub sys: SystemScalars,
    pub decoder: FormatScalars,
    pub field_order_action: FieldOrderAction,
    pub chroma_afc_fine_tune_fh_ratio: u64,
    pub dod_threshold_p: u32,
    pub dod_threshold_a: Option<u32>,
    pub dod_hysteresis: u32,
    pub rf_disable_comb: bool,
    pub rf_disable_right_hsync: bool,
    pub rf_disable_dc_offset: bool,
    pub rf_fallback_vsync: bool,
    pub rf_field_order_confidence: i64,
    pub rf_saved_levels: bool,
    pub rf_y_comb: u32,
    pub rf_write_chroma: bool,
    pub rf_skip_hsync_refine: bool,
    pub rf_export_raw_tbc: bool,
    pub rf_ire0_adjust: bool,
    pub rf_relaxed_line0: bool,
    pub rf_detect_chroma_track_phase: bool,
    pub rf_disable_burst_hsync: bool,
    pub rf_disable_phase_correction: bool,
    pub video_high_boost_value: Option<u32>,
    pub video_disable_diff_demod: bool,
    pub video_nldeemp_enabled: bool,
    pub video_subdeemp_enabled: bool,
    pub resync_divisor: usize,
    pub resync_vsync_env_decimation: usize,
    pub ntscj: bool,
    pub track_phase: Option<i64>,
    pub wow_level_adjust_smoothing: u32,
    pub wow_interpolation_method: WowInterpolation,
    pub do_dod: bool,
    pub level_adjust: u32,
}

/// What a decoder keeps of a television system.
pub open spec fn system_of(sys: SysParams) -> SystemScalars {
    SystemScalars {
        fsc_mhz: sys.fsc_mhz,
        frame_lines: sys.frame_lines,
        field_lines: sys.field_lines,
        line_period: sys.line_period,
        active_video_us: sys.active_video_us,
        fps: sys.fps,
        ire0: sys.ire0,
        hz_ire: sys.hz_ire,
        vsync_ire: sys.vsync_ire,
        color_burst_us: sys.color_burst_us,
        blacksnr_slice: sys.blacksnr_slice,
        num_pulses: sys.num_pulses,
        hsync_pulse_us: sys.hsync_pulse_us,
        eq_pulse_us: sys.eq_pulse_us,
        vsync_pulse_us: sys.vsync_pulse_us,
        output_zero: sys.output_zero,
        outlinelen: sys.outlinelen,
        outfreq: sys.outfreq,
        ld_vits_whitelocs: sys.ld_vits_whitelocs,
        burst_abs_ref: sys.burst_abs_ref,
        track_ire0_offset: sys.track_ire0_offset,
        nonlinear_deviation: sys.nonlinear_deviation,
    }
}

/// What a decoder keeps of a tape format.
pub open spec fn format_of(decoder: DecoderParams) -> FormatScalars {
    FormatScalars {
        color_under_carrier: decoder.color_under_carrier,
        chroma_bpf_upper: decoder.chroma_bpf_upper,
        chroma_bpf_order: decoder.chroma_bpf_order,
        chroma_bpf_lower: decoder.chroma_bpf_lower,
        chroma_rotation: decoder.chroma_rotation,
        chroma_carrier_mult: decoder.chroma_carrier_mult,
        chroma_offset: decoder.chroma_offset,
        nonlinear: NonlinearScalars {
            highpass_limit_l: decoder.nonlinear.highpass_limit_l,
            highpass_limit_h: decoder.nonlinear.highpass_limit_h,
            exp_scaling: decoder.nonlinear.exp_scaling,
            scaling_1: decoder.nonlinear.scaling_1,
            scaling_2: decoder.nonlinear.scaling_2,
            logistic: decoder.nonlinear.logistic,
            static_factor: decoder.nonlinear.static_factor,
        },
    }
}

/// The scalar settings that a request comes to.
pub open spec fn scalars_of(request: DecodeRequest, measured: Measured) -> SpecScalars {
    let decoder = request.decode_profile.decoder_params;
    SpecScalars {
        freq: request.inputfreq,
        color_system: rf_color_system_of(request),
        sys: system_of(request.decode_profile.sys_params),
        decoder: format_of(decoder),
        field_order_action: request.field_order_action,
        chroma_afc_fine_tune_fh_ratio:
            request.decode_profile.decode_options.chroma_afc_fine_tune_fh_ratio,
        dod_threshold_p: request.dod_threshold_p,
        dod_threshold_a: request.dod_threshold_a,
        dod_hysteresis: request.dod_hysteresis,
        rf_disable_comb: request.disable_comb || rf_color_system_of(request)
            == ColorSystem::Secam,
        rf_disable_right_hsync: request.rf_disable_right_hsync,
        rf_disable_dc_offset: request.rf_disable_dc_offset,
        rf_fallback_vsync: request.fallback_vsync,
        rf_field_order_confidence: request.rf_field_order_confidence,
        rf_saved_levels: request.rf_saved_levels,
        rf_y_comb: measured.y_comb,
        rf_write_chroma: is_color_under_of(request) && !request.rf_export_raw_tbc
            && !request.skip_chroma,
        rf_skip_hsync_refine: request.rf_skip_hsync_refine,
        rf_export_raw_tbc: request.rf_export_raw_tbc,
        rf_ire0_adjust: request.rf_ire0_adjust,
        rf_relaxed_line0: request.rf_relaxed_line0,
        rf_detect_chroma_track_phase: request.rf_detect_chroma_track_phase,
        rf_disable_burst_hsync: request.rf_disable_burst_hsync,
        rf_disable_phase_correction: request.rf_disable_phase_correction,
        video_high_boost_value: match decoder.boost_mult {
            Some(mult) => Some(
                match request.high_boost {
                    Some(boost) => boost,
                    None => mult,
                },
            ),
            None => None,
        },
        video_disable_diff_demod: request.video_disable_diff_demod,
        video_nldeemp_enabled: request.video_nldeemp_enabled,
        video_subdeemp_enabled: wanted_of(request).subdeemp,
        resync_divisor: request.level_detect_divisor as usize,
        resync_vsync_env_decimation: measured.vsync_env_decimation,
        ntscj: request.ntscj,
        track_phase: request.track_phase,
        wow_level_adjust_smoothing: match request.wow_level_adjust_smoothing {
            Some(smoothing) => smoothing,
            None => measured.half_frame_lines,
        },
        wow_interpolation_method: request.wow_interpolation_method,
        do_dod: request.do_dod,
        level_adjust: request.level_adjust,
    }
}

/// What a decoder was built for.
pub struct DecoderSpec {
    pub scalars: SpecScalars,
    pub vectors: NumericVectors,
    /// Whether a chroma trap was built.
    pub chroma_trap: bool,
    pub geometry: Geometry,
}

/// Of optional vectors those that are wanted.
pub open spec fn kept<T>(wanted: bool, values: Option<T>) -> Option<T> {
    if wanted {
        values
    } else {
        None
    }
}

fn keep<T>(wanted: bool, values: Option<T>) -> (result: Option<T>)
    ensures
        result == kept(wanted, values),
{
    if wanted {
        values
    } else {
        None
    }
}

/// The vectors of a decoder out of those that were designed: the optional ones
/// only where the request asks for them.
pub open spec fn selected(
    vectors: NumericVectors,
    wanted: Wanted,
    designed: NumericVectors,
) -> bool {
    &&& vectors.video_eq_fft_gain == kept(wanted.sharpness, designed.video_eq_fft_gain)
    &&& vectors.chroma_afc_narrowband@ == (if wanted.afc {
        designed.chroma_afc_narrowband@
    } else {
        Seq::empty()
    })
    &&& vectors.rf_chroma_heterodyne@ == (if wanted.color_under {
        designed.rf_chroma_heterodyne@
    } else {
        Seq::empty()
    })
    &&& vectors.rf_fsc_wave@ == (if wanted.color_under {
        designed.rf_fsc_wave@
    } else {
        Seq::empty()
    })
    &&& vectors.chroma_burst_block_fft_gain == designed.chroma_burst_block_fft_gain
    &&& vectors.chroma_filter_video_notch == kept(
        wanted.video_notch,
        designed.chroma_filter_video_notch,
    )
    &&& vectors.chroma_filter_deemphasis == kept(
        wanted.chroma_deemphasis,
        designed.chroma_filter_deemphasis,
    )
    &&& vectors.chroma_filter_audio_notch == kept(
        wanted.chroma_audio_notch,
        designed.chroma_filter_audio_notch,
    )
    &&& vectors.chroma_filter_final == designed.chroma_filter_final
    &&& vectors.chroma_filter_secam_under == kept(
        wanted.secam_under,
        designed.chroma_filter_secam_under,
    )
    &&& vectors.video_rf_filter == designed.video_rf_filter
    &&& vectors.video_notch_filter == kept(wanted.video_notch, designed.video_notch_filter)
    &&& vectors.video_env_post_filter == designed.video_env_post_filter
    &&& vectors.video_rf_top_fft_gain == kept(wanted.top_gain, designed.video_rf_top_fft_gain)
    &&& vectors.video_filter == designed.video_filter
    &&& vectors.video_nl_amplitude_lpf == designed.video_nl_amplitude_lpf
    &&& vectors.video_nl_high_pass_f == kept(wanted.nl_high_pass, designed.video_nl_high_pass_f)
    &&& vectors.video_fsc_notch == kept(wanted.fsc_notch, designed.video_fsc_notch)
    &&& vectors.video05_filter == designed.video05_filter
    &&& vectors.resync_vsync_env_filter == designed.resync_vsync_env_filter
    &&& vectors.resync_serration_filter_base_0 == designed.resync_serration_filter_base_0
    &&& vectors.resync_serration_filter_base_1 == designed.resync_serration_filter_base_1
    &&& vectors.resync_serration_filter_envelope == designed.resync_serration_filter_envelope
}

impl DecoderSpec {
    /// The decoder that a request asks for, out of the filters that were
    /// designed for it and what its rates come to.
    pub fn new(request: DecodeRequest, measured: Measured, designed: NumericVectors) -> (result:
        Result<DecoderSpec, SpecError>)
        ensures
            match result {
                Ok(spec) => {
                    &&& spec_error(request, measured.divided_rate) is None
                    &&& spec.scalars == scalars_of(request, measured)
                    &&& selected(spec.vectors, wanted_of(request), designed)
                    &&& spec.chroma_trap == request.chroma_trap
                    &&& spec.geometry == measured.geometry
                },
                Err(error) => spec_error(request, measured.divided_rate) == Some(error),
            },
    {
        let resync_divisor: usize = match check_divisor(&request, measured.divided_rate) {
            Ok(divisor) => divisor,
            Err(error) => return Err(error),
        };
        match check_sharpness(&request) {
            Ok(_) => {},
            Err(error) => return Err(error),
        }
        match check_audio_notch(&request) {
            Ok(_) => {},
            Err(error) => return Err(error),
        }
        let track_phase: Option<i64> = match check_track_phase(&request) {
            Ok(phase) => phase,
            Err(error) => return Err(error),
        };
        let wanted = wanted(&request);
        let color_system = rf_color_system(&request);
        let decoder: DecoderParams = request.decode_profile.decoder_params;
        let video_high_boost_value: Option<u32> = match decoder.boost_mult {
            Some(mult) => Some(
                match request.high_boost {
                    Some(boost) => boost,
                    None => mult,
                },
            ),
            None => None,
        };
        let wow_level_adjust_smoothing: u32 = match request.wow_level_adjust_smoothing {
            Some(smoothing) => smoothing,
            None => measured.half_frame_lines,
        };
        let sys: SysParams = request.decode_profile.sys_params;
        let scalars = SpecScalars {
            freq: request.inputfreq,
            color_system,
            decoder: FormatScalars {
                color_under_carrier: decoder.color_under_carrier,
                chroma_bpf_upper: decoder.chroma_bpf_upper,
                chroma_bpf_order: decoder.chroma_bpf_order,
                chroma_bpf_lower: decoder.chroma_bpf_lower,
                chroma_rotation: decoder.chroma_rotation,
                chroma_carrier_mult: decoder.chroma_carrier_mult,
                chroma_offset: decoder.chroma_offset,
                nonlinear: NonlinearScalars {
                    highpass_limit_l: decoder.nonlinear.highpass_limit_l,
                    highpass_limit_h: decoder.nonlinear.highpass_limit_h,
                    exp_scaling: decoder.nonlinear.exp_scaling,
                    scaling_1: decoder.nonlinear.scaling_1,
                    scaling_2: decoder.nonlinear.scaling_2,
                    logistic: decoder.nonlinear.logistic,
                    static_factor: decoder.nonlinear.static_factor,
                },
            },
            field_order_action: request.field_order_action,
            chroma_afc_fine_tune_fh_ratio:
                request.decode_profile.decode_options.chroma_afc_fine_tune_fh_ratio,
            dod_threshold_p: request.dod_threshold_p,
            dod_threshold_a: request.dod_threshold_a,
            dod_hysteresis: request.dod_hysteresis,
            rf_disable_comb: request.disable_comb || color_system == ColorSystem::Secam,
            rf_disable_right_hsync: request.rf_disable_right_hsync,
            rf_disable_dc_offset: request.rf_disable_dc_offset,
            rf_fallback_vsync: request.fallback_vsync,
            rf_field_order_confidence: request.rf_field_order_confidence,
            rf_saved_levels: request.rf_saved_levels,
            rf_y_comb: measured.y_comb,
            rf_write_chroma: wanted.color_under && !request.rf_export_raw_tbc
                && !request.skip_chroma,
            rf_skip_hsync_refine: request.rf_skip_hsync_refine,
            rf_export_raw_tbc: request.rf_export_raw_tbc,
            rf_ire0_adjust: request.rf_ire0_adjust,
            rf_relaxed_line0: request.rf_relaxed_line0,
            rf_detect_chroma_track_phase: request.rf_detect_chroma_track_phase,
            rf_disable_burst_hsync: request.rf_disable_burst_hsync,
            rf_disable_phase_correction: request.rf_disable_phase_correction,
            video_high_boost_value,
            video_disable_diff_demod: request.video_disable_diff_demod,
            video_nldeemp_enabled: request.video_nldeemp_enabled,
            video_subdeemp_enabled: wanted.subdeemp,
            resync_divisor,
            resync_vsync_env_decimation: measured.vsync_env_decimation,
            ntscj: request.ntscj,
            track_phase,
            wow_level_adjust_smoothing,
            wow_interpolation_method: request.wow_interpolation_method,
            do_dod: request.do_dod,
            level_adjust: request.level_adjust,
            sys: SystemScalars {
                fsc_mhz: sys.fsc_mhz,
                frame_lines: sys.frame_lines,
                field_lines: sys.field_lines,
                line_period: sys.line_period,
                active_video_us: sys.active_video_us,
                fps: sys.fps,
                ire0: sys.ire0,
                hz_ire: sys.hz_ire,
                vsync_ire: sys.vsync_ire,
                color_burst_us: sys.color_burst_us,
                blacksnr_slice: sys.blacksnr_slice,
                num_pulses: sys.num_pulses,
                hsync_pulse_us: sys.hsync_pulse_us,
                eq_pulse_us: sys.eq_pulse_us,
                vsync_pulse_us: sys.vsync_pulse_us,
                output_zero: sys.output_zero,
                outlinelen: sys.outlinelen,
                outfreq: sys.outfreq,
                ld_vits_whitelocs: sys.ld_vits_whitelocs,
                burst_abs_ref: sys.burst_abs_ref,
                track_ire0_offset: sys.track_ire0_offset,
                nonlinear_deviation: sys.nonlinear_deviation,
            },
        };
        let vectors = NumericVectors {
            video_eq_fft_gain: keep(wanted.sharpness, designed.video_eq_fft_gain),
            chroma_afc_narrowband: if wanted.afc {
                designed.chroma_afc_narrowband
            } else {
                Vec::new()
            },
            rf_chroma_heterodyne: if wanted.color_under {
                designed.rf_chroma_heterodyne
            } else {
                Vec::new()
            },
            rf_fsc_wave: if wanted.color_under {
                designed.rf_fsc_wave
            } else {
                Vec::new()
            },
            chroma_burst_block_fft_gain: designed.chroma_burst_block_fft_gain,
            chroma_filter_video_notch: keep(wanted.video_notch, designed.chroma_filter_video_notch),
            chroma_filter_deemphasis: keep(
                wanted.chroma_deemphasis,
                designed.chroma_filter_deemphasis,
            ),
            chroma_filter_audio_notch: keep(
                wanted.chroma_audio_notch,
                designed.chroma_filter_audio_notch,
            ),
            chroma_filter_final: designed.chroma_filter_final,
            chroma_filter_secam_under: keep(wanted.secam_under, designed.chroma_filter_secam_under),
            video_rf_filter: designed.video_rf_filter,
            video_notch_filter: keep(wanted.video_notch, designed.video_notch_filter),
            video_env_post_filter: designed.video_env_post_filter,
            video_rf_top_fft_gain: keep(wanted.top_gain, designed.video_rf_top_fft_gain),
            video_filter: designed.video_filter,
            video_nl_amplitude_lpf: designed.video_nl_amplitude_lpf,
            video_nl_high_pass_f: keep(wanted.nl_high_pass, designed.video_nl_high_pass_f),
            video_fsc_notch: keep(wanted.fsc_notch, designed.video_fsc_notch),
            video05_filter: designed.video05_filter,
            resync_vsync_env_filter: designed.resync_vsync_env_filter,
            resync_serration_filter_base_0: designed.resync_serration_filter_base_0,
            resync_serration_filter_base_1: designed.resync_serration_filter_base_1,
            resync_serration_filter_envelope: designed.resync_serration_filter_envelope,
        };
        Ok(
            DecoderSpec {
                scalars,
                vectors,
                chroma_trap: request.chroma_trap,
                geometry: measured.geometry,
            },
        )
    }

    /// The plan sections of the decoder's vectors.
    pub fn numeric_sections(&self) -> (result: Result<Vec<Section>, PlanError>)
        ensures
            match result {
                Ok(sections) => !self.chroma_trap && plan::sections_view(sections@)
                    == self.vectors.sections(),
                Err(error) => self.chroma_trap && error@ == (PlanErrorView::Plan {
                    fault: PlanFault::ChromaTrap,
                }),
            },
    {
        if self.chroma_trap {
            return Err(PlanError::Plan { fault: PlanFault::ChromaTrap });
        }
        Ok(self.vectors.to_sections())
    }

    /// The decoder with its vectors replaced by the sections of a plan.
    pub fn apply_numeric_sections(self, sections: Vec<Section>) -> (result: Result<
        DecoderSpec,
        PlanError,
    >)
        ensures
            ({
                let plan = plan::sections_view(sections@);
                let table = section_table::by_name(plan);
                let expected = self.vectors.sections();
                match result {
                    Ok(spec) => {
                        &&& !self.chroma_trap
                        &&& section_table::duplicate(plan) is None
                        &&& numeric_vectors::first_mismatch(table, expected) is None
                        &&& numeric_vectors::unexpected(table, expected) == Map::<
                            Seq<char>,
                            plan::SectionView,
                        >::empty()
                        &&& spec.scalars == self.scalars
                        &&& spec.geometry == self.geometry
                        &&& !spec.chroma_trap
                        &&& forall|i: int|
                            0 <= i < numeric_vectors::SECTION_COUNT ==>
                                #[trigger] spec.vectors.sections()[i] == table[expected[i].name]
                    },
                    Err(error) => if self.chroma_trap {
                        error@ == (PlanErrorView::Plan { fault: PlanFault::ChromaTrap })
                    } else if section_table::duplicate(plan) is Some {
                        error@ == (PlanErrorView::Section {
                            name: section_table::duplicate(plan)->0,
                            flaw: SectionFault::Duplicate,
                        })
                    } else if numeric_vectors::first_mismatch(table, expected) is Some {
                        numeric_vectors::first_mismatch(table, expected) == Some(error@)
                    } else {
                        &&& error@ matches PlanErrorView::Section { name, flaw }
                        &&& flaw == SectionFault::Unknown
                        &&& section_table::is_first_name(
                            numeric_vectors::unexpected(table, expected),
                            name,
                        )
                    },
                }
            }),
    {
        if self.chroma_trap {
            return Err(PlanError::Plan { fault: PlanFault::ChromaTrap });
        }
        match self.vectors.apply(sections) {
            Ok(vectors) => Ok(
                DecoderSpec {
                    scalars: self.scalars,
                    vectors,
                    chroma_trap: false,
                    geometry: self.geometry,
                },
            ),
            Err(error) => Err(error),
        }
    }

    /// How many fields the level detector averages over.
    pub fn resync_field_ma_depth(&self) -> (depth: usize)
        ensures
            depth == (if ieee::lt_double(self.geometry.field_rate, SIXTY) {
                self.geometry.field_rate_fifth
            } else {
                self.geometry.field_rate_sixth
            }),
    {
        if ieee::less_double(self.geometry.field_rate, SIXTY) {
            self.geometry.field_rate_fifth
        } else {
            self.geometry.field_rate_sixth
        }
    }

    /// How many lines a field is decoded from.
    pub open spec fn lines_read(self) -> int {
        match self.scalars.sys.frame_lines {
            LineSystem::Line819 => 500,
            LineSystem::Line525 => 350,
            _ => 400,
        }
    }

    /// Input samples that a field is decoded from.
    pub open spec fn readlen_spec(self) -> int {
        let samples = self.geometry.linelen * self.lines_read();
        if self.scalars.sys.frame_lines == LineSystem::Line525 {
            (samples / 16384) * 16384
        } else {
            samples
        }
    }

    /// How many lines a field is decoded from.
    pub fn line_count_read(&self) -> (lines: usize)
        ensures
            lines == self.lines_read(),
    {
        match self.scalars.sys.frame_lines {
            LineSystem::Line819 => 500,
            LineSystem::Line525 => 350,
            _ => 400,
        }
    }

    /// Input samples that a field is decoded from.
    pub fn readlen(&self) -> (length: usize)
        requires
            self.geometry.linelen * self.lines_read() <= usize::MAX,
        ensures
            length == self.readlen_spec(),
    {
        let samples: usize = self.geometry.linelen * self.line_count_read();
        if self.scalars.sys.frame_lines == LineSystem::Line525 {
            (samples / 16384) * 16384
        } else {
            samples
        }
    }

    /// Samples of a block that are left once its ends are cut.
    pub fn usable_blocksize(&self) -> (size: usize)
        ensures
            size == BLOCKSIZE - BLOCKCUT - BLOCKCUT_END,
            size == 30_720,
    {
        BLOCKSIZE - (BLOCKCUT + BLOCKCUT_END)
    }

    /// Lines of an output field.
    pub fn output_lines(&self) -> (lines: usize)
        ensures
            lines == self.scalars.sys.frame_lines.lines() / 2 + 1,
    {
        self.scalars.sys.frame_lines.line_count() / 2 + 1
    }

    /// Input samples in a field, never none.
    pub fn samples_per_field(&self) -> (samples: u64)
        ensures
            samples == (if self.geometry.bytes_per_field == 0 {
                1
            } else {
                self.geometry.bytes_per_field
            }),
    {
        if self.geometry.bytes_per_field == 0 {
            1
        } else {
            self.geometry.bytes_per_field
        }
    }

    /// Whether colour is written out.
    pub fn write_chroma(&self) -> (write: bool)
        ensures
            write == self.scalars.rf_write_chroma,
    {
        self.scalars.rf_write_chroma
    }

    /// Whether the colour carrier's frequency is followed.
    pub fn chroma_afc_enabled(&self) -> (enabled: bool)
        ensures
            enabled == (self.vectors.chroma_afc_narrowband@.len() > 0),
    {
        self.vectors.chroma_afc_narrowband.len() > 0
    }

    /// Input samples in an equalising pulse.
    pub fn resync_eq_pulselen(&self) -> (length: usize)
        requires
            self.geometry.eq_pulselen_downsampled * self.scalars.resync_divisor <= usize::MAX,
        ensures
            length == self.geometry.eq_pulselen_downsampled * self.scalars.resync_divisor,
    {
        self.geometry.eq_pulselen_downsampled * self.scalars.resync_divisor
    }

    /// Input samples in a line, as a whole number of samples at the resync rate.
    pub fn resync_linelen(&self) -> (length: usize)
        requires
            self.geometry.linelen_downsampled * self.scalars.resync_divisor <= usize::MAX,
        ensures
            length == self.geometry.linelen_downsampled * self.scalars.resync_divisor,
    {
        self.geometry.linelen_downsampled * self.scalars.resync_divisor
    }
}

} // verus!
