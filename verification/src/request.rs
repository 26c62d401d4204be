//! The resolved decode request. Floating-point settings are held as their
//! IEEE-754 bit patterns.
use vstd::prelude::*;

use crate::plan_error::{PlanError, PlanErrorView, PlanFault};

verus! {

/// How colour is carried.
#[derive(Clone, Copy, Debug, PartialEq, Eq, Structural)]
pub enum ColorSystem {
    Ntsc,
    Pal,
    Secam,
    Monochrome,
}

/// How many lines a frame has.
#[derive(Clone, Copy, Debug, PartialEq, Eq, Structural)]
pub enum LineSystem {
    Line405,
    Line525,
    Line625,
    Line819,
}

/// What to do about a field that comes out of order.
#[derive(Clone, Copy, Debug, PartialEq, Eq, Structural)]
pub enum FieldOrderAction {
    Detect,
    Duplicate,
    Drop,
    Nothing,
}

/// How line positions are interpolated.
#[derive(Clone, Copy, Debug, PartialEq, Eq, Structural)]
pub enum WowInterpolation {
    Linear,
    Quadratic,
    Cubic,
}

impl LineSystem {
    pub open spec fn lines(self) -> usize {
        match self {
            LineSystem::Line405 => 405,
            LineSystem::Line525 => 525,
            LineSystem::Line625 => 625,
            LineSystem::Line819 => 819,
        }
    }

    pub fn line_count(self) -> (count: usize)
        ensures
            count == self.lines(),
    {
        match self {
            LineSystem::Line405 => 405,
            LineSystem::Line525 => 525,
            LineSystem::Line625 => 625,
            LineSystem::Line819 => 819,
        }
    }
}

/// The tag of a colour system in a scalar witness.
pub open spec fn color_system_code(value: ColorSystem) -> u8 {
    match value {
        ColorSystem::Ntsc => 0,
        ColorSystem::Pal => 1,
        ColorSystem::Secam => 2,
        ColorSystem::Monochrome => 3,
    }
}

pub fn color_system_tag(value: ColorSystem) -> (tag: u8)
    ensures
        tag == color_system_code(value),
{
    match value {
        ColorSystem::Ntsc => 0,
        ColorSystem::Pal => 1,
        ColorSystem::Secam => 2,
        ColorSystem::Monochrome => 3,
    }
}

/// The tag of a field-order action in a scalar witness.
pub open spec fn field_order_action_code(value: FieldOrderAction) -> u8 {
    match value {
        FieldOrderAction::Detect => 0,
        FieldOrderAction::Duplicate => 1,
        FieldOrderAction::Drop => 2,
        FieldOrderAction::Nothing => 3,
    }
}

pub fn field_order_action_tag(value: FieldOrderAction) -> (tag: u8)
    ensures
        tag == field_order_action_code(value),
{
    match value {
        FieldOrderAction::Detect => 0,
        FieldOrderAction::Duplicate => 1,
        FieldOrderAction::Drop => 2,
        FieldOrderAction::Nothing => 3,
    }
}

/// The tag of a wow interpolation in a scalar witness.
pub open spec fn wow_interpolation_code(value: WowInterpolation) -> u8 {
    match value {
        WowInterpolation::Linear => 0,
        WowInterpolation::Quadratic => 1,
        WowInterpolation::Cubic => 2,
    }
}

pub fn wow_interpolation_tag(value: WowInterpolation) -> (tag: u8)
    ensures
        tag == wow_interpolation_code(value),
{
    match value {
        WowInterpolation::Linear => 0,
        WowInterpolation::Quadratic => 1,
        WowInterpolation::Cubic => 2,
    }
}

/// The television system of a profile.
pub struct SysParams {
    pub color_system: ColorSystem,
    pub fsc_mhz: u64,
    pub frame_lines: LineSystem,
    pub field_lines: [i64; 2],
    pub line_period: u64,
    pub active_video_us: [u64; 2],
    pub fps: u64,
    pub ire0: u32,
    pub hz_ire: u32,
    pub vsync_ire: u32,
    pub color_burst_us: [u64; 2],
    pub blacksnr_slice: [usize; 3],
    pub num_pulses: usize,
    pub hsync_pulse_us: u64,
    pub eq_pulse_us: u64,
    pub vsync_pulse_us: u64,
    pub output_zero: i64,
    pub outlinelen: usize,
    pub outfreq: u64,
    pub ld_vits_whitelocs: Vec<[usize; 3]>,
    pub burst_abs_ref: Option<u32>,
    pub track_ire0_offset: [u64; 2],
    pub nonlinear_deviation: Option<u32>,
}

/// The nonlinear de-emphasis of a profile.
#[derive(Clone, Copy, Debug, PartialEq, Eq)]
pub struct NonlinearParams {
    pub use_sub_deemphasis: bool,
    pub highpass_limit_l: u32,
    pub highpass_limit_h: u32,
    pub exp_scaling: u32,
    pub scaling_1: Option<u32>,
    pub scaling_2: Option<u32>,
    pub logistic: Option<(u32, u32)>,
    pub static_factor: Option<u32>,
}

/// The tape format of a profile, as far as the decoder's rules read it.
#[derive(Clone, Copy, Debug, PartialEq, Eq)]
pub struct DecoderParams {
    pub is_composite_color: bool,
    pub color_under_carrier: u64,
    pub chroma_bpf_upper: u64,
    pub chroma_bpf_order: usize,
    pub chroma_bpf_lower: u64,
    pub chroma_rotation: Option<[i64; 2]>,
    pub chroma_carrier_mult: Option<u64>,
    pub chroma_offset: u64,
    pub chroma_deemphasis_enabled: bool,
    pub chroma_audio_notch_freq: u64,
    pub nonlinear: NonlinearParams,
    pub has_video_eq: bool,
    pub has_fm_audio_channels: bool,
    /// The profile's high-boost factor, where it has a boost filter.
    pub boost_mult: Option<u32>,
}

/// The decode options of a profile.
#[derive(Clone, Copy, Debug, PartialEq, Eq)]
pub struct DecodeOptions {
    pub chroma_afc_fine_tune_fh_ratio: u64,
    pub use_fsc_notch_filter: bool,
}

/// A tape format in a television system.
pub struct DecodeProfile {
    pub sys_params: SysParams,
    pub decoder_params: DecoderParams,
    pub decode_options: DecodeOptions,
}

/// A decode request with every setting resolved.
pub struct DecodeRequest {
    pub decode_profile: DecodeProfile,
    pub inputfreq: u64,
    pub cafc: bool,
    pub chroma_trap: bool,
    pub level_detect_divisor: i64,
    pub sharpness: i64,
    pub subdeemp: bool,
    pub fm_audio_notch: u64,
    pub has_notch: bool,
    pub high_boost: Option<u32>,
    pub disable_comb: bool,
    pub fallback_vsync: bool,
    pub skip_chroma: bool,
    pub field_order_action: FieldOrderAction,
    pub dod_threshold_p: u32,
    pub dod_threshold_a: Option<u32>,
    pub dod_hysteresis: u32,
    pub rf_disable_right_hsync: bool,
    pub rf_disable_dc_offset: bool,
    pub rf_field_order_confidence: i64,
    pub rf_saved_levels: bool,
    pub rf_skip_hsync_refine: bool,
    pub rf_export_raw_tbc: bool,
    pub rf_ire0_adjust: bool,
    pub rf_relaxed_line0: bool,
    pub rf_detect_chroma_track_phase: bool,
    pub rf_disable_burst_hsync: bool,
    pub rf_disable_phase_correction: bool,
    pub video_disable_diff_demod: bool,
    pub video_nldeemp_enabled: bool,
    pub ntscj: bool,
    pub track_phase: Option<i64>,
    pub wow_level_adjust_smoothing: Option<u32>,
    pub wow_interpolation_method: WowInterpolation,
    pub do_dod: bool,
    pub level_adjust: u32,
}

/// Why a request cannot be used with a numeric plan, if it cannot.
pub open spec fn plan_request_fault(request: DecodeRequest, deterministic: bool) -> Option<
    PlanFault,
> {
    if !deterministic {
        Some(PlanFault::NotDeterministic)
    } else if request.cafc {
        Some(PlanFault::Cafc)
    } else if request.chroma_trap {
        Some(PlanFault::ChromaTrap)
    } else if request.decode_profile.decoder_params.chroma_carrier_mult is Some {
        Some(PlanFault::SecamMethod)
    } else {
        None
    }
}

/// Tests whether the request can be used with a numeric plan in a build that
/// is deterministic or not.
pub fn validate_supported_request(request: &DecodeRequest, deterministic: bool) -> (result: Result<
    (),
    PlanError,
>)
    ensures
        match result {
            Ok(()) => plan_request_fault(*request, deterministic) is None,
            Err(error) => plan_request_fault(*request, deterministic) is Some && error@ == (
            PlanErrorView::Plan { fault: plan_request_fault(*request, deterministic)->0 }),
        },
{
    if !deterministic {
        return Err(PlanError::Plan { fault: PlanFault::NotDeterministic });
    }
    if request.cafc {
        return Err(PlanError::Plan { fault: PlanFault::Cafc });
    }
    if request.chroma_trap {
        return Err(PlanError::Plan { fault: PlanFault::ChromaTrap });
    }
    if request.decode_profile.decoder_params.chroma_carrier_mult.is_some() {
        return Err(PlanError::Plan { fault: PlanFault::SecamMethod });
    }
    Ok(())
}

} // verus!
