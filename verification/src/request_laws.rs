//! What a request, a video system and a batch come to, field by field.
use vstd::prelude::*;

use crate::cuda;
use crate::cuda::{DeviceError, DeviceNeeds};
use crate::decoder;
use crate::decoder::{Read, Reach};
use crate::field;
use crate::ieee;
use crate::numeric_vectors::NumericVectors;
use crate::request;
use crate::request::{
    ColorSystem, DecodeRequest, DecoderParams, FieldOrderAction, LineSystem, SysParams,
    WowInterpolation,
};
use crate::spec;
use crate::spec::{DecoderSpec, Measured, SpecError};

verus! {

/// The lines of a system are those of its name, its two fields make a frame and differ by
/// one line, the first being the longer one except in 625 lines. In 525 lines a field
/// begins with its first line, and in the others with the third of a first field and the
/// fourth of a second one.
pub proof fn law_lines_of_systems(system: LineSystem)
    ensures
        ({
            let (first, first_offset) = field::field_lines(system, true);
            let (second, second_offset) = field::field_lines(system, false);
            &&& system == LineSystem::Line405 ==> system.lines() == 405
            &&& system == LineSystem::Line525 ==> system.lines() == 525
            &&& system == LineSystem::Line625 ==> system.lines() == 625
            &&& system == LineSystem::Line819 ==> system.lines() == 819
            &&& first + second == system.lines()
            &&& system != LineSystem::Line625 ==> first == second + 1
            &&& system == LineSystem::Line625 ==> second == first + 1
            &&& system == LineSystem::Line525 ==> first_offset == 0 && second_offset == 0
            &&& system != LineSystem::Line525 ==> first_offset == 2 && second_offset == 3
        }),
{
}

/// A field is decoded from 350 lines in 525 lines, cut to whole half blocks, from 500
/// lines in 819 lines and from 400 in the others.
pub proof fn law_lines_read(spec: DecoderSpec)
    ensures
        ({
            let line = spec.geometry.linelen as int;
            let system = spec.scalars.sys.frame_lines;
            &&& system == LineSystem::Line525 ==> {
                &&& spec.readlen_spec() % 16384 == 0
                &&& spec.readlen_spec() <= 350 * line < spec.readlen_spec() + 16384
            }
            &&& system == LineSystem::Line819 ==> spec.readlen_spec() == 500 * line
            &&& system == LineSystem::Line625 || system == LineSystem::Line405
                ==> spec.readlen_spec() == 400 * line
        }),
{
    let line = spec.geometry.linelen as int;
    assert(line * 350 == 350 * line && line * 500 == 500 * line && line * 400 == 400 * line);
}

/// A request is for colour under a luma carrier unless the recording is composite or
/// monochrome, and chroma is written out then, unless it is skipped or the raw signal is
/// exported. SECAM is never combed.
pub proof fn law_colour_of_request(request: DecodeRequest, measured: Measured)
    ensures
        ({
            let profile = request.decode_profile;
            let composite = profile.decoder_params.is_composite_color;
            let color = profile.sys_params.color_system;
            let scalars = spec::scalars_of(request, measured);
            let under = !composite && color != ColorSystem::Monochrome;
            &&& spec::is_color_under_of(request) == under
            &&& under ==> scalars.color_system == color
            &&& !under ==> scalars.color_system == ColorSystem::Monochrome
            &&& scalars.rf_write_chroma == (under && !request.skip_chroma
                && !request.rf_export_raw_tbc)
            &&& !composite && color == ColorSystem::Secam ==> scalars.rf_disable_comb
            &&& composite || color != ColorSystem::Secam ==> scalars.rf_disable_comb
                == request.disable_comb
        }),
{
}

/// A filter is asked for exactly by the setting that is about it: sharpness from one on,
/// notches by a frequency or width above the least that counts, sub-de-emphasis by the
/// request or the format, and the high pass of the nonlinear part by either kind of
/// de-emphasis.
pub proof fn law_filters_asked_for(request: DecodeRequest)
    ensures
        ({
            let wanted = spec::wanted_of(request);
            let decoder = request.decode_profile.decoder_params;
            &&& wanted.color_under == spec::is_color_under_of(request)
            &&& wanted.sharpness == (request.sharpness > 0)
            &&& wanted.afc == request.cafc
            &&& wanted.audio_notch == ieee::lt_double(
                0x3cb0_0000_0000_0000,
                request.fm_audio_notch,
            )
            &&& wanted.chroma_audio_notch == ieee::lt_double(
                0x3cb0_0000_0000_0000,
                decoder.chroma_audio_notch_freq,
            )
            &&& wanted.top_gain == (decoder.boost_mult is Some)
            &&& wanted.fsc_notch == request.decode_profile.decode_options.use_fsc_notch_filter
            &&& wanted.video_notch == request.has_notch
            &&& wanted.chroma_deemphasis == decoder.chroma_deemphasis_enabled
            &&& wanted.chroma_trap == request.chroma_trap
            &&& wanted.subdeemp == (request.subdeemp || decoder.nonlinear.use_sub_deemphasis)
            &&& wanted.nl_high_pass == (wanted.subdeemp || request.video_nldeemp_enabled)
            &&& wanted.secam_under == (wanted.color_under && decoder.chroma_carrier_mult is Some)
        }),
{
}

/// A request is refused for the first of these reasons: a level detection divisor that is
/// not from one to ten, or that leaves less than four megahertz; sharpness without the
/// bands for it; an audio notch without audio channels; a track phase in SECAM, or one
/// that is neither nought nor one.
pub proof fn law_requests_refused(request: DecodeRequest, divided_rate: u64)
    ensures
        ({
            let divisor = request.level_detect_divisor;
            let decoder = request.decode_profile.decoder_params;
            let secam = !decoder.is_composite_color
                && request.decode_profile.sys_params.color_system == ColorSystem::Secam;
            let slow = ieee::lt_double(divided_rate, 0x4010_0000_0000_0000);
            let no_bands = request.sharpness > 0 && !decoder.has_video_eq;
            let no_channels = ieee::lt_double(0x3cb0_0000_0000_0000, request.fm_audio_notch)
                && !decoder.has_fm_audio_channels;
            let error = spec::spec_error(request, divided_rate);
            if !(1 <= divisor <= 10) {
                error == Some(SpecError::DivisorUnsupported { divisor })
            } else if slow {
                error == Some(SpecError::DivisorTooHigh { divisor })
            } else if no_bands {
                error == Some(SpecError::SharpnessWithoutBands)
            } else if no_channels {
                error == Some(SpecError::AudioNotchWithoutChannels)
            } else if request.track_phase is Some && secam {
                error == Some(SpecError::TrackPhaseSecam)
            } else if request.track_phase is Some && !(0 <= request.track_phase->0 <= 1) {
                error == Some(SpecError::TrackPhaseRange)
            } else {
                error is None
            }
        }),
{
}

/// What a decoder keeps of a video system is what the system says.
pub proof fn law_system_kept(sys: SysParams)
    ensures
        ({
            let kept = spec::system_of(sys);
            &&& kept.fsc_mhz == sys.fsc_mhz
            &&& kept.frame_lines == sys.frame_lines
            &&& kept.field_lines == sys.field_lines
            &&& kept.line_period == sys.line_period
            &&& kept.active_video_us == sys.active_video_us
            &&& kept.fps == sys.fps
            &&& kept.ire0 == sys.ire0
            &&& kept.hz_ire == sys.hz_ire
            &&& kept.vsync_ire == sys.vsync_ire
            &&& kept.color_burst_us == sys.color_burst_us
            &&& kept.blacksnr_slice == sys.blacksnr_slice
            &&& kept.num_pulses == sys.num_pulses
            &&& kept.hsync_pulse_us == sys.hsync_pulse_us
            &&& kept.eq_pulse_us == sys.eq_pulse_us
            &&& kept.vsync_pulse_us == sys.vsync_pulse_us
            &&& kept.output_zero == sys.output_zero
            &&& kept.outlinelen == sys.outlinelen
            &&& kept.outfreq == sys.outfreq
            &&& kept.ld_vits_whitelocs == sys.ld_vits_whitelocs
            &&& kept.burst_abs_ref == sys.burst_abs_ref
            &&& kept.track_ire0_offset == sys.track_ire0_offset
            &&& kept.nonlinear_deviation == sys.nonlinear_deviation
        }),
{
}

/// What a decoder keeps of a tape format is what the format says.
pub proof fn law_format_kept(decoder: DecoderParams)
    ensures
        ({
            let kept = spec::format_of(decoder);
            &&& kept.color_under_carrier == decoder.color_under_carrier
            &&& kept.chroma_bpf_upper == decoder.chroma_bpf_upper
            &&& kept.chroma_bpf_order == decoder.chroma_bpf_order
            &&& kept.chroma_bpf_lower == decoder.chroma_bpf_lower
            &&& kept.chroma_rotation == decoder.chroma_rotation
            &&& kept.chroma_carrier_mult == decoder.chroma_carrier_mult
            &&& kept.chroma_offset == decoder.chroma_offset
            &&& kept.nonlinear.highpass_limit_l == decoder.nonlinear.highpass_limit_l
            &&& kept.nonlinear.highpass_limit_h == decoder.nonlinear.highpass_limit_h
            &&& kept.nonlinear.exp_scaling == decoder.nonlinear.exp_scaling
            &&& kept.nonlinear.scaling_1 == decoder.nonlinear.scaling_1
            &&& kept.nonlinear.scaling_2 == decoder.nonlinear.scaling_2
            &&& kept.nonlinear.logistic == decoder.nonlinear.logistic
            &&& kept.nonlinear.static_factor == decoder.nonlinear.static_factor
        }),
{
}

/// What a decoder keeps of the request itself is what it says; a boost is kept only where
/// the format has one, the request's own before that, and the smoothing of levels is that
/// of the request, or half a frame of lines.
pub proof fn law_request_kept(request: DecodeRequest, measured: Measured)
    ensures
        ({
            let kept = spec::scalars_of(request, measured);
            let mult = request.decode_profile.decoder_params.boost_mult;
            &&& kept.freq == request.inputfreq
            &&& kept.field_order_action == request.field_order_action
            &&& kept.dod_threshold_p == request.dod_threshold_p
            &&& kept.dod_threshold_a == request.dod_threshold_a
            &&& kept.dod_hysteresis == request.dod_hysteresis
            &&& kept.do_dod == request.do_dod
            &&& kept.rf_fallback_vsync == request.fallback_vsync
            &&& kept.rf_field_order_confidence == request.rf_field_order_confidence
            &&& kept.rf_saved_levels == request.rf_saved_levels
            &&& kept.rf_disable_right_hsync == request.rf_disable_right_hsync
            &&& kept.rf_disable_dc_offset == request.rf_disable_dc_offset
            &&& kept.rf_skip_hsync_refine == request.rf_skip_hsync_refine
            &&& kept.rf_export_raw_tbc == request.rf_export_raw_tbc
            &&& kept.rf_ire0_adjust == request.rf_ire0_adjust
            &&& kept.rf_relaxed_line0 == request.rf_relaxed_line0
            &&& kept.rf_detect_chroma_track_phase == request.rf_detect_chroma_track_phase
            &&& kept.rf_disable_burst_hsync == request.rf_disable_burst_hsync
            &&& kept.rf_disable_phase_correction == request.rf_disable_phase_correction
            &&& kept.video_disable_diff_demod == request.video_disable_diff_demod
            &&& kept.video_nldeemp_enabled == request.video_nldeemp_enabled
            &&& 0 <= request.level_detect_divisor <= usize::MAX ==> kept.resync_divisor
                == request.level_detect_divisor
            &&& kept.ntscj == request.ntscj
            &&& kept.track_phase == request.track_phase
            &&& kept.wow_interpolation_method == request.wow_interpolation_method
            &&& kept.level_adjust == request.level_adjust
            &&& kept.rf_y_comb == measured.y_comb
            &&& kept.resync_vsync_env_decimation == measured.vsync_env_decimation
            &&& kept.chroma_afc_fine_tune_fh_ratio
                == request.decode_profile.decode_options.chroma_afc_fine_tune_fh_ratio
            &&& kept.video_subdeemp_enabled == (request.subdeemp
                || request.decode_profile.decoder_params.nonlinear.use_sub_deemphasis)
            &&& kept.sys == spec::system_of(request.decode_profile.sys_params)
            &&& kept.decoder == spec::format_of(request.decode_profile.decoder_params)
            &&& mult is None ==> kept.video_high_boost_value is None
            &&& mult is Some && request.high_boost is Some ==> kept.video_high_boost_value
                == request.high_boost
            &&& mult is Some && request.high_boost is None ==> kept.video_high_boost_value == mult
            &&& request.wow_level_adjust_smoothing is Some ==> kept.wow_level_adjust_smoothing
                == request.wow_level_adjust_smoothing->0
            &&& request.wow_level_adjust_smoothing is None ==> kept.wow_level_adjust_smoothing
                == measured.half_frame_lines
        }),
{
}

/// The codes of the choices of a request are the numbers from nought on, in the order in
/// which the choices are declared, so that no two have the same.
pub proof fn law_codes()
    ensures
        request::color_system_code(ColorSystem::Ntsc) == 0,
        request::color_system_code(ColorSystem::Pal) == 1,
        request::color_system_code(ColorSystem::Secam) == 2,
        request::color_system_code(ColorSystem::Monochrome) == 3,
        request::field_order_action_code(FieldOrderAction::Detect) == 0,
        request::field_order_action_code(FieldOrderAction::Duplicate) == 1,
        request::field_order_action_code(FieldOrderAction::Drop) == 2,
        request::field_order_action_code(FieldOrderAction::Nothing) == 3,
        request::wow_interpolation_code(WowInterpolation::Linear) == 0,
        request::wow_interpolation_code(WowInterpolation::Quadratic) == 1,
        request::wow_interpolation_code(WowInterpolation::Cubic) == 2,
{
}

/// A plan can be made exactly for a deterministic decode that neither follows the colour
/// carrier nor traps chroma nor has a second colour carrier.
pub proof fn law_plans_possible(request: DecodeRequest, deterministic: bool)
    ensures
        request::plan_request_fault(request, deterministic) is None <==> deterministic
            && !request.cafc && !request.chroma_trap
            && request.decode_profile.decoder_params.chroma_carrier_mult is None,
{
}

/// A device decodes exactly NTSC at its own rate with none of the filters that it lacks;
/// the system is complained of first.
pub proof fn law_device_needs(needs: DeviceNeeds)
    ensures
        ({
            let fault = cuda::needs_fault(needs);
            let right_system = needs.color_system == ColorSystem::Ntsc && needs.ntsc_rate;
            let plain = !needs.notch && !needs.high_boost && !needs.equalizer
                && !needs.chroma_trap && !needs.nonlinear_deemphasis && !needs.subdeemphasis
                && !needs.fsc_notch && !needs.export_raw_tbc;
            &&& fault is None <==> right_system && plain
            &&& fault == Some(DeviceError::UnsupportedSystem) <==> !right_system
            &&& fault == Some(DeviceError::UnsupportedFilters) <==> right_system && !plain
        }),
{
}

/// A batch of blocks of 32768 samples has one block's samples more for each block, but its
/// input, in which blocks overlap, only as many more as a block yields. A spectrum has a
/// value for each pair of samples and one more, and an envelope six more than a block.
pub proof fn law_batch_layout(blocks: int, usable: int)
    requires
        1 <= blocks,
        0 < usable <= 32768,
        (blocks + 1) * 32774 <= usize::MAX,
    ensures
        ({
            let one = cuda::layout_of(1, usable);
            let batch = cuda::layout_of(blocks, usable);
            &&& one.input_len == 32768
            &&& one.real_len == 32768
            &&& one.spectrum_len == 16385
            &&& one.packed_len == usable
            &&& one.envelope_len == 32768 + 6
            &&& batch.blocks == blocks
            &&& batch.usable == usable
            &&& batch.input_len + usable == batch.packed_len + 32768
            &&& batch.real_len == blocks * 32768
            &&& batch.spectrum_len == blocks * 16385
            &&& batch.packed_len == blocks * usable
            &&& batch.envelope_len == blocks * 32774
        }),
{
    assert((blocks - 1) * usable + usable == blocks * usable) by (nonlinear_arith);
    assert((1 - 1) * usable == 0 && 1 * usable == usable) by (nonlinear_arith);
    assert(0 <= (blocks - 1) * usable) by (nonlinear_arith)
        requires
            1 <= blocks,
            0 < usable,
    ;
    assert(blocks * usable <= blocks * 32768) by (nonlinear_arith)
        requires
            1 <= blocks,
            usable <= 32768,
    ;
}

/// A filter that passes both ways runs every section once forward, in order, and then
/// every section once backward, in the same order.
pub proof fn law_filter_passes(count: nat, section: int)
    requires
        0 <= section < count <= usize::MAX,
    ensures
        ({
            let passes = cuda::passes_of(count);
            &&& passes.len() == 2 * count
            &&& passes[section].section == section && !passes[section].reverse
            &&& passes[count + section].section == section && passes[count + section].reverse
        }),
{
    vstd::arithmetic::div_mod::lemma_small_mod(section as nat, count);
    vstd::arithmetic::div_mod::lemma_mod_add_multiples_vanish(section, count as int);
    assert((count as int + section) % (count as int) == section % (count as int));
}

/// What a video system is called.
pub proof fn law_system_names(system: LineSystem, color: ColorSystem)
    ensures
        system == LineSystem::Line525 && color == ColorSystem::Pal ==> decoder::system_name(
            system,
            color,
        ) == "PAL-M"@,
        system == LineSystem::Line525 && color != ColorSystem::Pal ==> decoder::system_name(
            system,
            color,
        ) == "NTSC"@,
        system != LineSystem::Line525 ==> decoder::system_name(system, color) == "PAL"@,
{
}

/// A field is read from 1024 samples before its offset on, or from the beginning. The
/// input is taken from the last whole block of 32768 samples up to there, for as many
/// whole blocks as the field has and two more; from the block that holds the one end to
/// the block that holds the other.
pub proof fn law_reach(offset: int, readlen: int, usable: int)
    requires
        0 <= offset,
        0 <= readlen,
        0 < usable <= 32768,
    ensures
        ({
            let reach = decoder::reach_of(offset, readlen, usable);
            let begin = reach.readloc - reach.readloc % 32768;
            let end = begin + (readlen - readlen % 32768) + 65536;
            &&& offset >= 1024 ==> reach.readloc == offset - 1024
            &&& offset < 1024 ==> reach.readloc == 0
            &&& reach.first * usable <= begin < (reach.first + 1) * usable
            &&& (reach.last - 1) * usable <= end < reach.last * usable
        }),
{
    let reach = decoder::reach_of(offset, readlen, usable);
    let size = 32768int;
    let begin = (reach.readloc / size) * size;
    let end = begin + (readlen / size + 2) * size;
    assert(begin == reach.readloc - reach.readloc % size);
    assert(end == begin + (readlen - readlen % size) + 65536);
    vstd::arithmetic::div_mod::lemma_fundamental_div_mod(begin, usable);
    vstd::arithmetic::div_mod::lemma_fundamental_div_mod(end, usable);
    assert((begin / usable) * usable == usable * (begin / usable)) by (nonlinear_arith);
    assert((begin / usable + 1) * usable == usable * (begin / usable) + usable)
        by (nonlinear_arith);
    assert((end / usable) * usable == usable * (end / usable)) by (nonlinear_arith);
    assert((end / usable + 1) * usable == usable * (end / usable) + usable) by (nonlinear_arith);
}

/// What is read for a field: its blocks exactly where the window reaches as far as they
/// do; else nothing where no more input comes, and else more input is waited for, of which
/// all from the first block on is kept.
pub proof fn law_read_decides(
    reach: Reach,
    usable: int,
    data_start: int,
    len: int,
    final_chunk: bool,
)
    requires
        0 <= reach.readloc <= u64::MAX,
        0 <= reach.first * usable <= u64::MAX,
    ensures
        ({
            let read = decoder::read_of(reach, usable, data_start, len, final_chunk);
            let needed = (reach.last - 1) * usable + 32768;
            &&& data_start + len >= needed <==> read is Blocks
            &&& data_start + len < needed && final_chunk ==> read == (Read::Short {
                readloc: reach.readloc as u64,
            })
            &&& data_start + len < needed && !final_chunk ==> read is Wait && read->keep_from
                == reach.first * usable
            &&& read is Blocks && reach.last - reach.first <= usize::MAX && reach.last
                >= reach.first ==> read->blocks == reach.last - reach.first
        }),
{
}

/// The vectors of a decoder are those of its design, each optional one where the setting that
/// is about it is on and nowhere else.
pub proof fn law_vectors_selected(
    vectors: NumericVectors,
    request: DecodeRequest,
    designed: NumericVectors,
)
    requires
        spec::selected(vectors, spec::wanted_of(request), designed),
    ensures
        ({
            let decoder = request.decode_profile.decoder_params;
            let deemphasis = request.video_nldeemp_enabled || request.subdeemp
                || decoder.nonlinear.use_sub_deemphasis;
            &&& request.sharpness > 0 ==> vectors.video_eq_fft_gain == designed.video_eq_fft_gain
            &&& request.sharpness <= 0 ==> vectors.video_eq_fft_gain is None
            &&& request.has_notch ==> vectors.video_notch_filter == designed.video_notch_filter
                && vectors.chroma_filter_video_notch == designed.chroma_filter_video_notch
            &&& !request.has_notch ==> vectors.video_notch_filter is None
                && vectors.chroma_filter_video_notch is None
            &&& decoder.chroma_deemphasis_enabled ==> vectors.chroma_filter_deemphasis
                == designed.chroma_filter_deemphasis
            &&& !decoder.chroma_deemphasis_enabled ==> vectors.chroma_filter_deemphasis is None
            &&& decoder.boost_mult is Some ==> vectors.video_rf_top_fft_gain
                == designed.video_rf_top_fft_gain
            &&& decoder.boost_mult is None ==> vectors.video_rf_top_fft_gain is None
            &&& request.decode_profile.decode_options.use_fsc_notch_filter
                ==> vectors.video_fsc_notch == designed.video_fsc_notch
            &&& !request.decode_profile.decode_options.use_fsc_notch_filter
                ==> vectors.video_fsc_notch is None
            &&& deemphasis ==> vectors.video_nl_high_pass_f == designed.video_nl_high_pass_f
            &&& !deemphasis ==> vectors.video_nl_high_pass_f is None
            &&& request.cafc ==> vectors.chroma_afc_narrowband@ == designed.chroma_afc_narrowband@
            &&& !request.cafc ==> vectors.chroma_afc_narrowband@.len() == 0
            &&& spec::is_color_under_of(request) ==> vectors.rf_chroma_heterodyne@
                == designed.rf_chroma_heterodyne@ && vectors.rf_fsc_wave@ == designed.rf_fsc_wave@
            &&& !spec::is_color_under_of(request) ==> vectors.rf_chroma_heterodyne@.len() == 0
                && vectors.rf_fsc_wave@.len() == 0 && vectors.chroma_filter_secam_under is None
            &&& decoder.chroma_carrier_mult is None ==> vectors.chroma_filter_secam_under is None
            &&& spec::is_color_under_of(request) && decoder.chroma_carrier_mult is Some
                ==> vectors.chroma_filter_secam_under == designed.chroma_filter_secam_under
            &&& vectors.chroma_burst_block_fft_gain == designed.chroma_burst_block_fft_gain
            &&& vectors.chroma_filter_final == designed.chroma_filter_final
            &&& vectors.video_rf_filter == designed.video_rf_filter
            &&& vectors.video_env_post_filter == designed.video_env_post_filter
            &&& vectors.video_filter == designed.video_filter
            &&& vectors.video_nl_amplitude_lpf == designed.video_nl_amplitude_lpf
            &&& vectors.video05_filter == designed.video05_filter
            &&& vectors.resync_vsync_env_filter == designed.resync_vsync_env_filter
            &&& vectors.resync_serration_filter_base_0 == designed.resync_serration_filter_base_0
            &&& vectors.resync_serration_filter_base_1 == designed.resync_serration_filter_base_1
            &&& vectors.resync_serration_filter_envelope
                == designed.resync_serration_filter_envelope
        }),
{
}

} // verus!
