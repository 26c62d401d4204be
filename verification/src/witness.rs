//! Witnesses of the scalar settings and of the Fourier transforms of a
//! decoder: digests of labelled byte transcripts.
use vstd::prelude::*;

use crate::bytes;
use crate::bytes::{put_i64, put_u32, put_u64};
use crate::digest;
use crate::digest::{blake3_hash, put_bytes};
use crate::plan;
use crate::plan::{put_u32s, put_u64s};
use crate::plan_error::{PlanError, PlanErrorView, PlanFault};
use crate::request;
use crate::request::{color_system_tag, field_order_action_tag, wow_interpolation_tag};
use crate::spec::{DecoderSpec, SpecScalars};

verus! {

/// A transcript that grows until it is digested.
pub struct Witness {
    transcript: Vec<u8>,
}

impl View for Witness {
    type V = Seq<u8>;

    closed spec fn view(&self) -> Seq<u8> {
        self.transcript@
    }
}

/// The transcript `t` with a label: its length and its bytes.
pub open spec fn with_label(t: Seq<u8>, label: Seq<char>) -> Seq<u8> {
    t + bytes::le_bytes(vstd::utf8::encode_utf8(label).len(), 8) + vstd::utf8::encode_utf8(label)
}

#[verifier::opaque]
pub open spec fn with_byte(t: Seq<u8>, label: Seq<char>, value: u8) -> Seq<u8> {
    with_label(t, label).push(value)
}

#[verifier::opaque]
pub open spec fn with_flag(t: Seq<u8>, label: Seq<char>, value: bool) -> Seq<u8> {
    with_byte(
        t,
        label,
        if value {
            1u8
        } else {
            0u8
        },
    )
}

/// A 64-bit value: an unsigned integer, or the bits of a double.
#[verifier::opaque]
pub open spec fn with_double(t: Seq<u8>, label: Seq<char>, value: u64) -> Seq<u8> {
    with_label(t, label) + bytes::le_bytes(value as nat, 8)
}

#[verifier::opaque]
pub open spec fn with_size(t: Seq<u8>, label: Seq<char>, value: usize) -> Seq<u8> {
    with_label(t, label) + bytes::le_bytes(value as nat, 8)
}

#[verifier::opaque]
pub open spec fn with_signed(t: Seq<u8>, label: Seq<char>, value: i64) -> Seq<u8> {
    with_label(t, label) + bytes::le_bytes(bytes::twos_complement(value), 8)
}

/// The bits of a single.
#[verifier::opaque]
pub open spec fn with_single(t: Seq<u8>, label: Seq<char>, value: u32) -> Seq<u8> {
    with_label(t, label) + bytes::le_bytes(value as nat, 4)
}

#[verifier::opaque]
pub open spec fn with_option_single(t: Seq<u8>, label: Seq<char>, value: Option<u32>) -> Seq<u8> {
    match value {
        Some(value) => with_label(t, label).push(1u8) + bytes::le_bytes(value as nat, 4),
        None => with_label(t, label).push(0u8),
    }
}

#[verifier::opaque]
pub open spec fn with_option_double(t: Seq<u8>, label: Seq<char>, value: Option<u64>) -> Seq<u8> {
    match value {
        Some(value) => with_label(t, label).push(1u8) + bytes::le_bytes(value as nat, 8),
        None => with_label(t, label).push(0u8),
    }
}

#[verifier::opaque]
pub open spec fn with_option_signed(t: Seq<u8>, label: Seq<char>, value: Option<i64>) -> Seq<u8> {
    match value {
        Some(value) => with_label(t, label).push(1u8) + bytes::le_bytes(
            bytes::twos_complement(value),
            8,
        ),
        None => with_label(t, label).push(0u8),
    }
}

#[verifier::opaque]
pub open spec fn with_option_signed_pair(
    t: Seq<u8>,
    label: Seq<char>,
    value: Option<[i64; 2]>,
) -> Seq<u8> {
    match value {
        Some(value) => with_label(t, label).push(1u8) + bytes::le_bytes(
            bytes::twos_complement(value@[0]),
            8,
        ) + bytes::le_bytes(bytes::twos_complement(value@[1]), 8),
        None => with_label(t, label).push(0u8),
    }
}

#[verifier::opaque]
pub open spec fn with_option_single_pair(
    t: Seq<u8>,
    label: Seq<char>,
    value: Option<(u32, u32)>,
) -> Seq<u8> {
    match value {
        Some(value) => with_label(t, label).push(1u8) + bytes::le_bytes(value.0 as nat, 4)
            + bytes::le_bytes(value.1 as nat, 4),
        None => with_label(t, label).push(0u8),
    }
}

#[verifier::opaque]
pub open spec fn with_double_slice(t: Seq<u8>, label: Seq<char>, values: Seq<u64>) -> Seq<u8> {
    with_label(t, label) + bytes::le_bytes(values.len(), 8) + plan::u64s_bytes(values)
}

#[verifier::opaque]
pub open spec fn with_size_slice(t: Seq<u8>, label: Seq<char>, values: Seq<usize>) -> Seq<u8> {
    with_label(t, label) + bytes::le_bytes(values.len(), 8) + plan::u64s_bytes(
        Seq::new(values.len(), |i: int| values[i] as u64),
    )
}

#[verifier::opaque]
pub open spec fn with_signed_slice(t: Seq<u8>, label: Seq<char>, values: Seq<i64>) -> Seq<u8> {
    with_label(t, label) + bytes::le_bytes(values.len(), 8) + plan::u64s_bytes(
        Seq::new(values.len(), |i: int| bytes::twos_complement(values[i]) as u64),
    )
}

/// Triples of sizes: how many, and then all their members.
#[verifier::opaque]
pub open spec fn with_locations(t: Seq<u8>, label: Seq<char>, values: Seq<[usize; 3]>) -> Seq<u8> {
    with_label(t, label) + bytes::le_bytes(values.len(), 8) + plan::u64s_bytes(
        Seq::new(3 * values.len(), |k: int| values[k / 3]@[k % 3] as u64),
    )
}

impl Witness {
    /// A transcript that opens with a domain.
    pub fn new(domain: &str) -> (witness: Witness)
        ensures
            witness@ == vstd::utf8::encode_utf8(domain@),
    {
        let mut transcript: Vec<u8> = Vec::new();
        put_bytes(&mut transcript, domain.as_bytes());
        proof {
            assert(transcript@ =~= vstd::utf8::encode_utf8(domain@));
        }
        Witness { transcript }
    }

    fn put_label(&mut self, label: &str)
        ensures
            final(self)@ == with_label(old(self)@, label@),
    {
        let name = label.as_bytes();
        put_u64(&mut self.transcript, name.len() as u64);
        put_bytes(&mut self.transcript, name);
    }

    fn put_byte(&mut self, label: &str, value: u8)
        ensures
            final(self)@ == with_byte(old(self)@, label@, value),
    {
        proof {
            reveal(with_byte);
        }
        self.put_label(label);
        self.transcript.push(value);
    }

    fn put_flag(&mut self, label: &str, value: bool)
        ensures
            final(self)@ == with_flag(old(self)@, label@, value),
    {
        proof {
            reveal(with_flag);
        }
        self.put_byte(
            label,
            if value {
                1
            } else {
                0
            },
        );
    }

    fn put_double(&mut self, label: &str, value: u64)
        ensures
            final(self)@ == with_double(old(self)@, label@, value),
    {
        proof {
            reveal(with_double);
        }
        self.put_label(label);
        put_u64(&mut self.transcript, value);
    }

    fn put_size(&mut self, label: &str, value: usize)
        ensures
            final(self)@ == with_size(old(self)@, label@, value),
    {
        proof {
            reveal(with_size);
        }
        self.put_label(label);
        put_u64(&mut self.transcript, value as u64);
    }

    fn put_signed(&mut self, label: &str, value: i64)
        ensures
            final(self)@ == with_signed(old(self)@, label@, value),
    {
        proof {
            reveal(with_signed);
        }
        self.put_label(label);
        put_i64(&mut self.transcript, value);
    }

    fn put_single(&mut self, label: &str, value: u32)
        ensures
            final(self)@ == with_single(old(self)@, label@, value),
    {
        proof {
            reveal(with_single);
        }
        self.put_label(label);
        put_u32(&mut self.transcript, value);
    }

    fn put_option_single(&mut self, label: &str, value: Option<u32>)
        ensures
            final(self)@ == with_option_single(old(self)@, label@, value),
    {
        proof {
            reveal(with_option_single);
        }
        self.put_label(label);
        match value {
            Some(value) => {
                self.transcript.push(1);
                put_u32(&mut self.transcript, value);
            },
            None => self.transcript.push(0),
        }
    }

    fn put_option_double(&mut self, label: &str, value: Option<u64>)
        ensures
            final(self)@ == with_option_double(old(self)@, label@, value),
    {
        proof {
            reveal(with_option_double);
        }
        self.put_label(label);
        match value {
            Some(value) => {
                self.transcript.push(1);
                put_u64(&mut self.transcript, value);
            },
            None => self.transcript.push(0),
        }
    }

    fn put_option_signed(&mut self, label: &str, value: Option<i64>)
        ensures
            final(self)@ == with_option_signed(old(self)@, label@, value),
    {
        proof {
            reveal(with_option_signed);
        }
        self.put_label(label);
        match value {
            Some(value) => {
                self.transcript.push(1);
                put_i64(&mut self.transcript, value);
            },
            None => self.transcript.push(0),
        }
    }

    fn put_option_signed_pair(&mut self, label: &str, value: Option<[i64; 2]>)
        ensures
            final(self)@ == with_option_signed_pair(old(self)@, label@, value),
    {
        proof {
            reveal(with_option_signed_pair);
        }
        self.put_label(label);
        match value {
            Some(value) => {
                self.transcript.push(1);
                put_i64(&mut self.transcript, value[0]);
                put_i64(&mut self.transcript, value[1]);
            },
            None => self.transcript.push(0),
        }
    }

    fn put_option_single_pair(&mut self, label: &str, value: Option<(u32, u32)>)
        ensures
            final(self)@ == with_option_single_pair(old(self)@, label@, value),
    {
        proof {
            reveal(with_option_single_pair);
        }
        self.put_label(label);
        match value {
            Some(value) => {
                self.transcript.push(1);
                put_u32(&mut self.transcript, value.0);
                put_u32(&mut self.transcript, value.1);
            },
            None => self.transcript.push(0),
        }
    }

    fn put_double_slice(&mut self, label: &str, values: &[u64])
        ensures
            final(self)@ == with_double_slice(old(self)@, label@, values@),
    {
        proof {
            reveal(with_double_slice);
        }
        self.put_label(label);
        put_u64(&mut self.transcript, values.len() as u64);
        put_u64s(&mut self.transcript, &vstd::slice::slice_to_vec(values));
    }

    fn put_size_slice(&mut self, label: &str, values: &[usize])
        ensures
            final(self)@ == with_size_slice(old(self)@, label@, values@),
    {
        proof {
            reveal(with_size_slice);
        }
        let mut words: Vec<u64> = Vec::new();
        let mut index: usize = 0;
        while index < values.len()
            invariant
                index <= values@.len(),
                words@ == Seq::new(index as nat, |i: int| values@[i] as u64),
            decreases values@.len() - index,
        {
            words.push(values[index] as u64);
            index = index + 1;
            proof {
                assert(words@ =~= Seq::new(index as nat, |i: int| values@[i] as u64));
            }
        }
        self.put_label(label);
        put_u64(&mut self.transcript, values.len() as u64);
        put_u64s(&mut self.transcript, &words);
    }

    fn put_signed_slice(&mut self, label: &str, values: &[i64])
        ensures
            final(self)@ == with_signed_slice(old(self)@, label@, values@),
    {
        proof {
            reveal(with_signed_slice);
        }
        self.put_label(label);
        put_u64(&mut self.transcript, values.len() as u64);
        let ghost before = self.transcript@;
        let mut index: usize = 0;
        proof {
            assert(before + plan::u64s_bytes(
                Seq::new(0, |i: int| bytes::twos_complement(values@[i]) as u64),
            ) =~= before);
        }
        while index < values.len()
            invariant
                index <= values@.len(),
                self.transcript@ == before + plan::u64s_bytes(
                    Seq::new(index as nat, |i: int| bytes::twos_complement(values@[i]) as u64),
                ),
            decreases values@.len() - index,
        {
            let ghost done = Seq::new(
                index as nat,
                |i: int| bytes::twos_complement(values@[i]) as u64,
            );
            put_i64(&mut self.transcript, values[index]);
            proof {
                let word = bytes::twos_complement(values@[index as int]) as u64;
                plan::lemma_u64s_push(done, word);
                assert(done.push(word) =~= Seq::new(
                    (index + 1) as nat,
                    |i: int| bytes::twos_complement(values@[i]) as u64,
                ));
                assert(before + plan::u64s_bytes(done) + bytes::le_bytes(word as nat, 8)
                    =~= before + plan::u64s_bytes(done.push(word)));
            }
            index = index + 1;
        }
    }

    fn put_locations(&mut self, label: &str, values: &Vec<[usize; 3]>)
        ensures
            final(self)@ == with_locations(old(self)@, label@, values@),
    {
        proof {
            reveal(with_locations);
        }
        let mut words: Vec<u64> = Vec::new();
        let mut index: usize = 0;
        while index < values.len()
            invariant
                index <= values@.len(),
                words@ == Seq::new(3 * index as nat, |k: int| values@[k / 3]@[k % 3] as u64),
            decreases values@.len() - index,
        {
            words.push(values[index][0] as u64);
            words.push(values[index][1] as u64);
            words.push(values[index][2] as u64);
            index = index + 1;
            proof {
                assert(words@ =~= Seq::new(
                    3 * index as nat,
                    |k: int| values@[k / 3]@[k % 3] as u64,
                ));
            }
        }
        self.put_label(label);
        put_u64(&mut self.transcript, values.len() as u64);
        put_u64s(&mut self.transcript, &words);
        proof {
            assert(words@ =~= Seq::new(
                3 * values@.len(),
                |k: int| values@[k / 3]@[k % 3] as u64,
            ));
        }
    }

    /// The digest of the transcript.
    pub fn finish(self) -> (digest: [u8; 32])
        ensures
            digest == digest::blake3_digest(self@),
    {
        blake3_hash(self.transcript.as_slice())
    }
}

/// The transcript `t` continued by a group of settings.
#[verifier::opaque]
pub open spec fn with_system(t: Seq<u8>, s: SpecScalars) -> Seq<u8> {
    let t = with_double(t, "freq"@, s.freq);
    let t = with_byte(t, "color_system"@, request::color_system_code(s.color_system));
    let t = with_double(t, "sys_fsc_mhz"@, s.sys.fsc_mhz);
    let t = with_double(t, "sys_frame_lines"@, s.sys.frame_lines.lines() as u64);
    let t = with_signed_slice(t, "sys_field_lines"@, s.sys.field_lines@);
    let t = with_double(t, "sys_line_period"@, s.sys.line_period);
    let t = with_double_slice(t, "sys_active_video_us"@, s.sys.active_video_us@);
    let t = with_double(t, "sys_fps"@, s.sys.fps);
    let t = with_single(t, "sys_ire0"@, s.sys.ire0);
    let t = with_single(t, "sys_hz_ire"@, s.sys.hz_ire);
    let t = with_single(t, "sys_vsync_ire"@, s.sys.vsync_ire);
    let t = with_double_slice(t, "sys_color_burst_us"@, s.sys.color_burst_us@);
    let t = with_size_slice(t, "sys_blacksnr_slice"@, s.sys.blacksnr_slice@);
    let t = with_size(t, "sys_num_pulses"@, s.sys.num_pulses);
    let t = with_double(t, "sys_hsync_pulse_us"@, s.sys.hsync_pulse_us);
    let t = with_double(t, "sys_eq_pulse_us"@, s.sys.eq_pulse_us);
    let t = with_double(t, "sys_vsync_pulse_us"@, s.sys.vsync_pulse_us);
    let t = with_signed(t, "sys_output_zero"@, s.sys.output_zero);
    let t = with_size(t, "sys_outlinelen"@, s.sys.outlinelen);
    let t = with_double(t, "sys_outfreq"@, s.sys.outfreq);
    let t = with_locations(t, "sys_ld_vits_whitelocs"@, s.sys.ld_vits_whitelocs@);
    let t = with_option_single(t, "sys_burst_abs_ref"@, s.sys.burst_abs_ref);
    let t = with_double_slice(t, "sys_track_ire0_offset"@, s.sys.track_ire0_offset@);
    let t = with_option_single(t, "sys_nonlinear_deviation"@, s.sys.nonlinear_deviation);
    t
}

/// The transcript `t` continued by a group of settings.
#[verifier::opaque]
pub open spec fn with_format(t: Seq<u8>, s: SpecScalars) -> Seq<u8> {
    let t = with_double(t, "decoder_color_under_carrier"@, s.decoder.color_under_carrier);
    let t = with_double(t, "decoder_chroma_bpf_upper"@, s.decoder.chroma_bpf_upper);
    let t = with_size(t, "decoder_chroma_bpf_order"@, s.decoder.chroma_bpf_order);
    let t = with_double(t, "decoder_chroma_bpf_lower"@, s.decoder.chroma_bpf_lower);
    let t = with_option_signed_pair(t, "decoder_chroma_rotation"@, s.decoder.chroma_rotation);
    let t = with_option_double(t, "decoder_chroma_carrier_mult"@, s.decoder.chroma_carrier_mult);
    let t = with_double(t, "decoder_chroma_offset"@, s.decoder.chroma_offset);
    let t = with_single(t, "decoder_nonlinear_highpass_limit_l"@, s.decoder.nonlinear.highpass_limit_l);
    let t = with_single(t, "decoder_nonlinear_highpass_limit_h"@, s.decoder.nonlinear.highpass_limit_h);
    let t = with_single(t, "decoder_nonlinear_exp_scaling"@, s.decoder.nonlinear.exp_scaling);
    let t = with_option_single(t, "decoder_nonlinear_scaling_1"@, s.decoder.nonlinear.scaling_1);
    let t = with_option_single(t, "decoder_nonlinear_scaling_2"@, s.decoder.nonlinear.scaling_2);
    let t = with_option_single_pair(t, "decoder_nonlinear_logistic"@, s.decoder.nonlinear.logistic);
    let t = with_option_single(t, "decoder_nonlinear_static_factor"@, s.decoder.nonlinear.static_factor);
    t
}

/// The transcript `t` continued by a group of settings.
#[verifier::opaque]
pub open spec fn with_request_settings(t: Seq<u8>, s: SpecScalars) -> Seq<u8> {
    let t = with_byte(t, "field_order_action"@, request::field_order_action_code(s.field_order_action));
    let t = with_double(t, "chroma_afc_fine_tune_fh_ratio"@, s.chroma_afc_fine_tune_fh_ratio);
    let t = with_single(t, "dod_threshold_p"@, s.dod_threshold_p);
    let t = with_option_single(t, "dod_threshold_a"@, s.dod_threshold_a);
    let t = with_single(t, "dod_hysteresis"@, s.dod_hysteresis);
    let t = with_flag(t, "rf_disable_comb"@, s.rf_disable_comb);
    let t = with_flag(t, "rf_disable_right_hsync"@, s.rf_disable_right_hsync);
    let t = with_flag(t, "rf_disable_dc_offset"@, s.rf_disable_dc_offset);
    let t = with_flag(t, "rf_fallback_vsync"@, s.rf_fallback_vsync);
    let t = with_signed(t, "rf_field_order_confidence"@, s.rf_field_order_confidence);
    let t = with_flag(t, "rf_saved_levels"@, s.rf_saved_levels);
    let t = with_single(t, "rf_y_comb"@, s.rf_y_comb);
    let t = with_flag(t, "rf_write_chroma"@, s.rf_write_chroma);
    let t = with_flag(t, "rf_skip_hsync_refine"@, s.rf_skip_hsync_refine);
    let t = with_flag(t, "rf_export_raw_tbc"@, s.rf_export_raw_tbc);
    let t = with_flag(t, "rf_ire0_adjust"@, s.rf_ire0_adjust);
    let t = with_flag(t, "rf_relaxed_line0"@, s.rf_relaxed_line0);
    let t = with_flag(t, "rf_detect_chroma_track_phase"@, s.rf_detect_chroma_track_phase);
    let t = with_flag(t, "rf_disable_burst_hsync"@, s.rf_disable_burst_hsync);
    let t = with_flag(t, "rf_disable_phase_correction"@, s.rf_disable_phase_correction);
    t
}

/// The transcript `t` continued by a group of settings.
#[verifier::opaque]
pub open spec fn with_video_settings(t: Seq<u8>, s: SpecScalars) -> Seq<u8> {
    let t = with_option_single(t, "video_high_boost_value"@, s.video_high_boost_value);
    let t = with_flag(t, "video_disable_diff_demod"@, s.video_disable_diff_demod);
    let t = with_flag(t, "video_chroma_trap_present"@, false);
    let t = with_flag(t, "video_nldeemp_enabled"@, s.video_nldeemp_enabled);
    let t = with_flag(t, "video_subdeemp_enabled"@, s.video_subdeemp_enabled);
    let t = with_size(t, "resync_divisor"@, s.resync_divisor);
    let t = with_size(t, "resync_vsync_env_decimation"@, s.resync_vsync_env_decimation);
    let t = with_flag(t, "ntscj"@, s.ntscj);
    let t = with_option_signed(t, "track_phase"@, s.track_phase);
    let t = with_single(t, "wow_level_adjust_smoothing"@, s.wow_level_adjust_smoothing);
    let t = with_byte(t, "wow_interpolation_method"@, request::wow_interpolation_code(s.wow_interpolation_method));
    let t = with_flag(t, "do_dod"@, s.do_dod);
    let t = with_single(t, "level_adjust"@, s.level_adjust);
    t
}

/// The bytes that stand for the scalar settings of a decoder.
pub open spec fn scalar_transcript(s: SpecScalars) -> Seq<u8> {
    let t = vstd::utf8::encode_utf8("tape-decode DecoderSpec scalar witness v1\0"@);
    with_video_settings(with_request_settings(with_format(with_system(t, s), s), s), s)
}

impl Witness {
    fn put_system(&mut self, s: &SpecScalars)
        ensures
            final(self)@ == with_system(old(self)@, *s),
    {
        proof {
            reveal(with_system);
        }
        self.put_double("freq", s.freq);
        self.put_byte("color_system", color_system_tag(s.color_system));
        self.put_double("sys_fsc_mhz", s.sys.fsc_mhz);
        self.put_double("sys_frame_lines", s.sys.frame_lines.line_count() as u64);
        self.put_signed_slice("sys_field_lines", s.sys.field_lines.as_slice());
        self.put_double("sys_line_period", s.sys.line_period);
        self.put_double_slice("sys_active_video_us", s.sys.active_video_us.as_slice());
        self.put_double("sys_fps", s.sys.fps);
        self.put_single("sys_ire0", s.sys.ire0);
        self.put_single("sys_hz_ire", s.sys.hz_ire);
        self.put_single("sys_vsync_ire", s.sys.vsync_ire);
        self.put_double_slice("sys_color_burst_us", s.sys.color_burst_us.as_slice());
        self.put_size_slice("sys_blacksnr_slice", s.sys.blacksnr_slice.as_slice());
        self.put_size("sys_num_pulses", s.sys.num_pulses);
        self.put_double("sys_hsync_pulse_us", s.sys.hsync_pulse_us);
        self.put_double("sys_eq_pulse_us", s.sys.eq_pulse_us);
        self.put_double("sys_vsync_pulse_us", s.sys.vsync_pulse_us);
        self.put_signed("sys_output_zero", s.sys.output_zero);
        self.put_size("sys_outlinelen", s.sys.outlinelen);
        self.put_double("sys_outfreq", s.sys.outfreq);
        self.put_locations("sys_ld_vits_whitelocs", &s.sys.ld_vits_whitelocs);
        self.put_option_single("sys_burst_abs_ref", s.sys.burst_abs_ref);
        self.put_double_slice("sys_track_ire0_offset", s.sys.track_ire0_offset.as_slice());
        self.put_option_single("sys_nonlinear_deviation", s.sys.nonlinear_deviation);
    }

    fn put_format(&mut self, s: &SpecScalars)
        ensures
            final(self)@ == with_format(old(self)@, *s),
    {
        proof {
            reveal(with_format);
        }
        self.put_double("decoder_color_under_carrier", s.decoder.color_under_carrier);
        self.put_double("decoder_chroma_bpf_upper", s.decoder.chroma_bpf_upper);
        self.put_size("decoder_chroma_bpf_order", s.decoder.chroma_bpf_order);
        self.put_double("decoder_chroma_bpf_lower", s.decoder.chroma_bpf_lower);
        self.put_option_signed_pair("decoder_chroma_rotation", s.decoder.chroma_rotation);
        self.put_option_double("decoder_chroma_carrier_mult", s.decoder.chroma_carrier_mult);
        self.put_double("decoder_chroma_offset", s.decoder.chroma_offset);
        self.put_single("decoder_nonlinear_highpass_limit_l", s.decoder.nonlinear.highpass_limit_l);
        self.put_single("decoder_nonlinear_highpass_limit_h", s.decoder.nonlinear.highpass_limit_h);
        self.put_single("decoder_nonlinear_exp_scaling", s.decoder.nonlinear.exp_scaling);
        self.put_option_single("decoder_nonlinear_scaling_1", s.decoder.nonlinear.scaling_1);
        self.put_option_single("decoder_nonlinear_scaling_2", s.decoder.nonlinear.scaling_2);
        self.put_option_single_pair("decoder_nonlinear_logistic", s.decoder.nonlinear.logistic);
        self.put_option_single("decoder_nonlinear_static_factor", s.decoder.nonlinear.static_factor);
    }

    fn put_request_settings(&mut self, s: &SpecScalars)
        ensures
            final(self)@ == with_request_settings(old(self)@, *s),
    {
        proof {
            reveal(with_request_settings);
        }
        self.put_byte("field_order_action", field_order_action_tag(s.field_order_action));
        self.put_double("chroma_afc_fine_tune_fh_ratio", s.chroma_afc_fine_tune_fh_ratio);
        self.put_single("dod_threshold_p", s.dod_threshold_p);
        self.put_option_single("dod_threshold_a", s.dod_threshold_a);
        self.put_single("dod_hysteresis", s.dod_hysteresis);
        self.put_flag("rf_disable_comb", s.rf_disable_comb);
        self.put_flag("rf_disable_right_hsync", s.rf_disable_right_hsync);
        self.put_flag("rf_disable_dc_offset", s.rf_disable_dc_offset);
        self.put_flag("rf_fallback_vsync", s.rf_fallback_vsync);
        self.put_signed("rf_field_order_confidence", s.rf_field_order_confidence);
        self.put_flag("rf_saved_levels", s.rf_saved_levels);
        self.put_single("rf_y_comb", s.rf_y_comb);
        self.put_flag("rf_write_chroma", s.rf_write_chroma);
        self.put_flag("rf_skip_hsync_refine", s.rf_skip_hsync_refine);
        self.put_flag("rf_export_raw_tbc", s.rf_export_raw_tbc);
        self.put_flag("rf_ire0_adjust", s.rf_ire0_adjust);
        self.put_flag("rf_relaxed_line0", s.rf_relaxed_line0);
        self.put_flag("rf_detect_chroma_track_phase", s.rf_detect_chroma_track_phase);
        self.put_flag("rf_disable_burst_hsync", s.rf_disable_burst_hsync);
        self.put_flag("rf_disable_phase_correction", s.rf_disable_phase_correction);
    }

    fn put_video_settings(&mut self, s: &SpecScalars)
        ensures
            final(self)@ == with_video_settings(old(self)@, *s),
    {
        proof {
            reveal(with_video_settings);
        }
        self.put_option_single("video_high_boost_value", s.video_high_boost_value);
        self.put_flag("video_disable_diff_demod", s.video_disable_diff_demod);
        self.put_flag("video_chroma_trap_present", false);
        self.put_flag("video_nldeemp_enabled", s.video_nldeemp_enabled);
        self.put_flag("video_subdeemp_enabled", s.video_subdeemp_enabled);
        self.put_size("resync_divisor", s.resync_divisor);
        self.put_size("resync_vsync_env_decimation", s.resync_vsync_env_decimation);
        self.put_flag("ntscj", s.ntscj);
        self.put_option_signed("track_phase", s.track_phase);
        self.put_single("wow_level_adjust_smoothing", s.wow_level_adjust_smoothing);
        self.put_byte("wow_interpolation_method", wow_interpolation_tag(s.wow_interpolation_method));
        self.put_flag("do_dod", s.do_dod);
        self.put_single("level_adjust", s.level_adjust);
    }

}

/// Exact witness for every scalar setting that a decoder keeps.
///
/// A plan replaces vectors only; this makes the other settings part of what
/// two decoders must agree on.
pub fn scalar_witness(spec: &DecoderSpec) -> (result: Result<[u8; 32], PlanError>)
    ensures
        match result {
            Ok(digest) => !spec.chroma_trap && digest == digest::blake3_digest(
                scalar_transcript(spec.scalars),
            ),
            Err(error) => spec.chroma_trap && error@ == (PlanErrorView::Plan {
                fault: PlanFault::ChromaTrap,
            }),
        },
{
    if spec.chroma_trap {
        return Err(PlanError::Plan { fault: PlanFault::ChromaTrap });
    }
    let mut witness = Witness::new("tape-decode DecoderSpec scalar witness v1\0");
    witness.put_system(&spec.scalars);
    witness.put_format(&spec.scalars);
    witness.put_request_settings(&spec.scalars);
    witness.put_video_settings(&spec.scalars);
    Ok(witness.finish())
}

/// What a Fourier transform of the decoder made of its witness input: its
/// length, and the words of its output in order.
pub struct FftTrace {
    pub length: u64,
    pub words: Vec<u32>,
}

/// The traces of all transforms of a decoder.
pub struct FftTraces {
    pub block_inverse: FftTrace,
    pub block_real_forward: FftTrace,
    pub block_real_inverse: FftTrace,
    pub field_forward: FftTrace,
    pub field_inverse: FftTrace,
}

/// The transcript `t` continued by the trace of a transform.
pub open spec fn with_trace(t: Seq<u8>, label: Seq<char>, trace: FftTrace) -> Seq<u8> {
    with_double(t, label, trace.length) + plan::u32s_bytes(trace.words@)
}

/// The bytes that stand for the transforms of a decoder.
pub open spec fn fft_transcript(traces: FftTraces) -> Seq<u8> {
    let t = vstd::utf8::encode_utf8("tape-decode DecoderSpec FFT witness v1\0"@);
    let t = with_trace(t, "block_inverse"@, traces.block_inverse);
    let t = with_trace(t, "block_real_forward"@, traces.block_real_forward);
    let t = with_trace(t, "block_real_inverse"@, traces.block_real_inverse);
    let t = with_trace(t, "field_forward"@, traces.field_forward);
    with_trace(t, "field_inverse"@, traces.field_inverse)
}

impl Witness {
    fn put_trace(&mut self, label: &str, trace: &FftTrace)
        ensures
            final(self)@ == with_trace(old(self)@, label@, *trace),
    {
        self.put_double(label, trace.length);
        put_u32s(&mut self.transcript, &trace.words);
    }
}

/// Binds a plan to what the decoder's transforms compute, without holding
/// anything of how they compute it.
pub fn fft_witness(traces: &FftTraces) -> (digest: [u8; 32])
    ensures
        digest == digest::blake3_digest(fft_transcript(*traces)),
{
    let mut witness = Witness::new("tape-decode DecoderSpec FFT witness v1\0");
    witness.put_trace("block_inverse", &traces.block_inverse);
    witness.put_trace("block_real_forward", &traces.block_real_forward);
    witness.put_trace("block_real_inverse", &traces.block_real_inverse);
    witness.put_trace("field_forward", &traces.field_forward);
    witness.put_trace("field_inverse", &traces.field_inverse);
    witness.finish()
}

/// A witness input value in units of 1/128.
pub open spec fn witness_sample_spec(index: usize, salt: usize) -> int {
    ((index * 73) % (usize::MAX + 1) + salt * 29) % (usize::MAX + 1) % 257 - 128
}

/// A witness input value in units of 1/128.
pub fn witness_sample(index: usize, salt: usize) -> (sample: i32)
    requires
        salt * 29 <= usize::MAX,
    ensures
        sample == witness_sample_spec(index, salt),
        -128 <= sample <= 128,
{
    ((index.wrapping_mul(73).wrapping_add(salt * 29)) % 257) as i32 - 128
}

/// The witness input of a complex transform, in units of 1/128.
pub fn complex_witness_input(length: usize) -> (input: Vec<(i32, i32)>)
    ensures
        input@ == Seq::new(
            length as nat,
            |i: int|
                (
                    witness_sample_spec(i as usize, 1) as i32,
                    witness_sample_spec(i as usize, 2) as i32,
                ),
        ),
{
    let mut input: Vec<(i32, i32)> = Vec::with_capacity(length);
    let mut index: usize = 0;
    while index < length
        invariant
            index <= length,
            input@.len() == index,
            forall|i: int|
                0 <= i < index ==> #[trigger] input@[i] == (
                    witness_sample_spec(i as usize, 1) as i32,
                    witness_sample_spec(i as usize, 2) as i32,
                ),
        decreases length - index,
    {
        input.push((witness_sample(index, 1), witness_sample(index, 2)));
        index = index + 1;
    }
    input
}

/// The witness input of a real forward transform, in units of 1/128.
pub fn real_witness_input(length: usize) -> (input: Vec<i32>)
    ensures
        input@ == Seq::new(length as nat, |i: int| witness_sample_spec(i as usize, 3) as i32),
{
    let mut input: Vec<i32> = Vec::with_capacity(length);
    let mut index: usize = 0;
    while index < length
        invariant
            index <= length,
            input@.len() == index,
            forall|i: int|
                0 <= i < index ==> #[trigger] input@[i] == witness_sample_spec(
                    i as usize,
                    3,
                ) as i32,
        decreases length - index,
    {
        input.push(witness_sample(index, 3));
        index = index + 1;
    }
    input
}

/// The witness input of a real inverse transform with `bins` inputs, in units
/// of 1/128. The first bin is real, and so is the last where the transform's
/// length is even.
pub fn half_spectrum_witness_input(bins: usize, length: usize) -> (input: Vec<(i32, i32)>)
    ensures
        input@ == Seq::new(
            bins as nat,
            |i: int|
                (
                    witness_sample_spec(i as usize, 4) as i32,
                    if i == 0 || (length % 2 == 0 && i == bins - 1) {
                        0
                    } else {
                        witness_sample_spec(i as usize, 5) as i32
                    },
                ),
        ),
{
    let mut input: Vec<(i32, i32)> = Vec::with_capacity(bins);
    let mut index: usize = 0;
    while index < bins
        invariant
            index <= bins,
            input@.len() == index,
            forall|i: int|
                0 <= i < index ==> #[trigger] input@[i] == (
                    witness_sample_spec(i as usize, 4) as i32,
                    if i == 0 || (length % 2 == 0 && i == bins - 1) {
                        0i32
                    } else {
                        witness_sample_spec(i as usize, 5) as i32
                    },
                ),
        decreases bins - index,
    {
        let imaginary: i32 = if index == 0 || (length % 2 == 0 && index == bins - 1) {
            0
        } else {
            witness_sample(index, 5)
        };
        input.push((witness_sample(index, 4), imaginary));
        index = index + 1;
    }
    input
}

} // verus!
