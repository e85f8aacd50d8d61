//! Verified decision logic of a CPU inference engine.
//!
//! - Speculative decoding over token trees: [`spec_tree`], [`speculative`],
//!   [`suffix_decoding`] and [`lossless`], with laws in [`tree_laws`],
//!   [`suffix_laws`] and [`draft_laws`].
//! - Rotary position embedding: [`rope`], [`rope_plan`] and [`rope_rotation`], with
//!   laws in [`rope_laws`] and [`rope_plan_laws`].
//! - Telemetry and traces: [`q8_telemetry`] over [`labels`], with laws in
//!   [`telemetry_laws`] and [`recording_laws`], and [`memory_timings`], with laws in
//!   [`memory_laws`].
//! - Policies and readers: [`thread_policy`], [`resident_parity`],
//!   [`attention_trace`], [`layer_selector`] and [`proc_status`], with laws in
//!   [`policy_laws`].
//! - Quantised data: [`q8_kernels`], [`q4k_repack`] and [`base64`], with laws in
//!   [`codec_laws`].
//! - Text: [`text`], with laws in [`text_laws`].

pub mod attention_trace;
pub mod base64;
pub mod codec_laws;
pub mod draft_laws;
pub mod labels;
pub mod layer_selector;
pub mod lossless;
pub mod memory_laws;
pub mod memory_timings;
pub mod policy_laws;
pub mod proc_status;
pub mod q4k_repack;
pub mod q8_kernels;
pub mod q8_telemetry;
pub mod recording_laws;
pub mod resident_parity;
pub mod rope;
pub mod rope_laws;
pub mod rope_plan;
pub mod rope_plan_laws;
pub mod rope_rotation;
pub mod spec_tree;
pub mod speculative;
pub mod suffix_decoding;
pub mod suffix_laws;
pub mod telemetry_laws;
pub mod text;
pub mod text_laws;
pub mod thread_policy;
pub mod tree_laws;
