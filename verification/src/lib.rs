//! Decoding of analogue tape captures: numeric plans, pulse and field
//! decisions, and the decoder's field sequencing.

pub mod arbitrage;
pub mod binding;
pub mod bytes;
pub mod chroma;
pub mod classify;
pub mod classify_laws;
pub mod count_laws;
pub mod course;
pub mod cuda;
pub mod decoder;
pub mod digest;
pub mod field;
pub mod field_order;
pub mod field_order_laws;
pub mod format_laws;
pub mod ieee;
pub mod level_laws;
pub mod levels;
pub mod line0;
pub mod line0_laws;
pub mod numeric_vectors;
pub mod order_laws;
pub mod ordering;
pub mod phase;
pub mod phase_laws;
pub mod plan;
pub mod plan_error;
pub mod plan_laws;
pub mod plan_read;
pub mod pulses;
pub mod refine;
pub mod request;
pub mod request_laws;
pub mod search;
pub mod search_laws;
pub mod section_table;
pub mod slice_laws;
pub mod slices;
pub mod spec;
pub mod text;
pub mod vblank;
pub mod vblank_laws;
pub mod vector_laws;
pub mod vectors;
pub mod vits;
pub mod witness;
pub mod witness_laws;
