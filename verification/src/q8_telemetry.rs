//! Telemetry of the Q8 prefill and decode schedule: counters, and readings by
//! projection role, by route and by layer.
//!
//! A [`LlamaQ8ScheduleTelemetry`] is both the state that the recorders update and
//! the snapshot that is reported. Recorders do nothing while recording is off.

use vstd::prelude::*;

use crate::labels::{LabelMap, Reading};
use crate::text::{chars_eq, chars_of, decimal_text, find_char, parse_digits, text_eq};

verus! {

/// The environment variable that turns recording on.
pub const Q8_SCHEDULE_TELEMETRY_ENV: &'static str = "CAMELID_Q8_SCHED_TELEMETRY";

/// `a + b`, wrapping around at 2^64.
pub open spec fn wrapped(a: u64, b: u64) -> u64 {
    ((a + b) % 0x1_0000_0000_0000_0000) as u64
}

/// `a + b`, at most `u64::MAX`.
pub open spec fn capped(a: u64, b: u64) -> u64 {
    if a + b > u64::MAX {
        u64::MAX
    } else {
        (a + b) as u64
    }
}

/// The lower 64 bits of `x`.
pub open spec fn low_bits(x: u128) -> u64 {
    (x % 0x1_0000_0000_0000_0000) as u64
}

/// `blocks` blocks in bytes, at most `usize::MAX`.
pub open spec fn block_bytes_of(blocks: nat, block_bytes: nat) -> u64 {
    if blocks * block_bytes > usize::MAX {
        usize::MAX as u64
    } else {
        (blocks * block_bytes) as u64
    }
}

/// Schedule telemetry.
#[derive(Debug, Clone, PartialEq, Eq)]
pub struct LlamaQ8ScheduleTelemetry {
    pub rayon_fanout_boundaries: u64,
    pub i8mm_single_projection_calls: u64,
    pub i8mm_fused_gate_up_calls: u64,
    pub i8mm_single_projection_by_role: LabelMap<LlamaQ8ScheduleRoleTelemetry>,
    pub output_projection_calls: u64,
    pub output_projection_by_route: LabelMap<LlamaQ8OutputProjectionRouteTelemetry>,
    pub output_projection_by_layer_route: LabelMap<LlamaQ8OutputProjectionLayerRouteTelemetry>,
    pub projection_route_denials: LabelMap<LlamaQ8ProjectionRouteDenialTelemetry>,
    pub ffn_gate_up_decode_consumer_taken: u64,
    pub ffn_gate_up_decode_fused_activation_taken: u64,
    pub ffn_gate_up_decode_consumer_activation_us: u64,
    pub ffn_gate_up_decode_consumer_tensor_us: u64,
    pub ffn_decode_chain_taken: u64,
    // Chain stages last tens of nanoseconds, so these four accumulate nanoseconds.
    pub ffn_decode_chain_total_ns: u64,
    pub ffn_decode_chain_input_quantize_ns: u64,
    pub ffn_decode_chain_activation_quantize_ns: u64,
    pub ffn_decode_chain_down_ns: u64,
    pub activation_pack_calls: u64,
    pub activation_pack_rows: u64,
    pub activation_pack_bytes_requested: u64,
    pub scratch_allocation_count: u64,
    pub scratch_bytes_allocated: u64,
    pub scratch_bytes_reused: u64,
    pub scratch_peak_capacity_bytes: u64,
    pub activation_quantize_pack_us: u64,
    pub q8_gemm_compute_us: u64,
    pub matmul_owner_prefill_taken: u64,
    pub kquant_owner_prefill_taken: u64,
    pub kquant_owner_vnni_taken: u64,
    pub kquant_owner_repack8_taken: u64,
    pub kquant_owner_repack8_built: u64,
    pub kquant_owner_repack8_budget_denied: u64,
    pub conservative_tail_rows: u64,
    pub ffn_down_gemm4_prefill_candidates: u64,
    pub ffn_down_gemm4_prefill_reject_plan_off: u64,
    pub ffn_down_gemm4_prefill_reject_rows_lt4: u64,
    pub ffn_down_gemm4_prefill_reject_bad_input_width: u64,
    pub ffn_down_gemm4_prefill_reject_no_runtime_packed: u64,
    pub ffn_down_gemm4_prefill_reject_non_i8_interleave: u64,
    pub ffn_down_decode_consumer_taken: u64,
    pub ffn_down_vnni_decode_candidates: u64,
    pub ffn_down_vnni_decode_taken: u64,
    pub ffn_down_vnni_decode_quantize_us: u64,
    pub ffn_down_vnni_decode_kernel_us: u64,
    pub ffn_down_vnni_decode_reject_gate_off: u64,
    pub ffn_down_vnni_decode_reject_cpu_feature: u64,
    pub ffn_down_vnni_decode_reject_no_vnni_pack: u64,
    pub ffn_down_vnni_decode_reject_bad_input_width: u64,
    pub ffn_down_vnni_decode_reject_bad_output_width: u64,
    pub ffn_down_vnni_decode_reject_shape_or_role: u64,
    pub prefill_single_token_fallbacks: u64,
}

/// Readings of the single-projection schedule for one role.
#[derive(Debug, Clone, Copy, PartialEq, Eq, Structural)]
pub struct LlamaQ8ScheduleRoleTelemetry {
    pub calls: u64,
    pub rows: u64,
    pub pack_us: u64,
    pub gemm_us: u64,
    pub tail_rows: u64,
    pub rayon_fanout_boundaries: u64,
    pub scheduler_chunk_calls: u64,
    pub scheduler_output_groups: u64,
    pub scheduler_row_groups: u64,
    pub scheduler_groups_per_chunk: u64,
}

/// Readings of one output-projection route.
#[derive(Debug, Clone, PartialEq, Eq)]
pub struct LlamaQ8OutputProjectionRouteTelemetry {
    pub role: String,
    pub route: String,
    pub calls: u64,
    pub rows: u64,
    pub input_width: u64,
    pub output_width: u64,
    pub elapsed_us: u64,
}

/// Readings of one output-projection route in one layer.
#[derive(Debug, Clone, PartialEq, Eq)]
pub struct LlamaQ8OutputProjectionLayerRouteTelemetry {
    pub layer_index: usize,
    pub role: String,
    pub route: String,
    pub calls: u64,
    pub rows: u64,
    pub input_width: u64,
    pub output_width: u64,
    pub elapsed_us: u64,
}

/// How often, and on which shapes, a route was denied for one reason.
#[derive(Debug, Clone, PartialEq, Eq)]
pub struct LlamaQ8ProjectionRouteDenialTelemetry {
    pub role: String,
    pub route: String,
    pub reason: String,
    pub denials: u64,
    pub rows: u64,
    pub input_width: u64,
    pub output_width: u64,
}

/// What a [`LlamaQ8OutputProjectionRouteTelemetry`] reads.
pub struct RouteReading {
    pub role: Seq<char>,
    pub route: Seq<char>,
    pub calls: u64,
    pub rows: u64,
    pub input_width: u64,
    pub output_width: u64,
    pub elapsed_us: u64,
}

/// What a [`LlamaQ8OutputProjectionLayerRouteTelemetry`] reads.
pub struct LayerRouteReading {
    pub layer_index: usize,
    pub role: Seq<char>,
    pub route: Seq<char>,
    pub calls: u64,
    pub rows: u64,
    pub input_width: u64,
    pub output_width: u64,
    pub elapsed_us: u64,
}

/// What a [`LlamaQ8ProjectionRouteDenialTelemetry`] reads.
pub struct DenialReading {
    pub role: Seq<char>,
    pub route: Seq<char>,
    pub reason: Seq<char>,
    pub denials: u64,
    pub rows: u64,
    pub input_width: u64,
    pub output_width: u64,
}

/// What a [`LlamaQ8ScheduleTelemetry`] reads.
#[verifier::ext_equal]
pub struct TelemetryModel {
    pub rayon_fanout_boundaries: u64,
    pub i8mm_single_projection_calls: u64,
    pub i8mm_fused_gate_up_calls: u64,
    pub i8mm_single_projection_by_role: Map<Seq<char>, LlamaQ8ScheduleRoleTelemetry>,
    pub output_projection_calls: u64,
    pub output_projection_by_route: Map<Seq<char>, RouteReading>,
    pub output_projection_by_layer_route: Map<Seq<char>, LayerRouteReading>,
    pub projection_route_denials: Map<Seq<char>, DenialReading>,
    pub ffn_gate_up_decode_consumer_taken: u64,
    pub ffn_gate_up_decode_fused_activation_taken: u64,
    pub ffn_gate_up_decode_consumer_activation_us: u64,
    pub ffn_gate_up_decode_consumer_tensor_us: u64,
    pub ffn_decode_chain_taken: u64,
    pub ffn_decode_chain_total_ns: u64,
    pub ffn_decode_chain_input_quantize_ns: u64,
    pub ffn_decode_chain_activation_quantize_ns: u64,
    pub ffn_decode_chain_down_ns: u64,
    pub activation_pack_calls: u64,
    pub activation_pack_rows: u64,
    pub activation_pack_bytes_requested: u64,
    pub scratch_allocation_count: u64,
    pub scratch_bytes_allocated: u64,
    pub scratch_bytes_reused: u64,
    pub scratch_peak_capacity_bytes: u64,
    pub activation_quantize_pack_us: u64,
    pub q8_gemm_compute_us: u64,
    pub matmul_owner_prefill_taken: u64,
    pub kquant_owner_prefill_taken: u64,
    pub kquant_owner_vnni_taken: u64,
    pub kquant_owner_repack8_taken: u64,
    pub kquant_owner_repack8_built: u64,
    pub kquant_owner_repack8_budget_denied: u64,
    pub conservative_tail_rows: u64,
    pub ffn_down_gemm4_prefill_candidates: u64,
    pub ffn_down_gemm4_prefill_reject_plan_off: u64,
    pub ffn_down_gemm4_prefill_reject_rows_lt4: u64,
    pub ffn_down_gemm4_prefill_reject_bad_input_width: u64,
    pub ffn_down_gemm4_prefill_reject_no_runtime_packed: u64,
    pub ffn_down_gemm4_prefill_reject_non_i8_interleave: u64,
    pub ffn_down_decode_consumer_taken: u64,
    pub ffn_down_vnni_decode_candidates: u64,
    pub ffn_down_vnni_decode_taken: u64,
    pub ffn_down_vnni_decode_quantize_us: u64,
    pub ffn_down_vnni_decode_kernel_us: u64,
    pub ffn_down_vnni_decode_reject_gate_off: u64,
    pub ffn_down_vnni_decode_reject_cpu_feature: u64,
    pub ffn_down_vnni_decode_reject_no_vnni_pack: u64,
    pub ffn_down_vnni_decode_reject_bad_input_width: u64,
    pub ffn_down_vnni_decode_reject_bad_output_width: u64,
    pub ffn_down_vnni_decode_reject_shape_or_role: u64,
    pub prefill_single_token_fallbacks: u64,
}

impl View for LlamaQ8ScheduleTelemetry {
    type V = TelemetryModel;

    open spec fn view(&self) -> TelemetryModel {
        TelemetryModel {
            rayon_fanout_boundaries: self.rayon_fanout_boundaries,
            i8mm_single_projection_calls: self.i8mm_single_projection_calls,
            i8mm_fused_gate_up_calls: self.i8mm_fused_gate_up_calls,
            i8mm_single_projection_by_role: self.i8mm_single_projection_by_role@,
            output_projection_calls: self.output_projection_calls,
            output_projection_by_route: self.output_projection_by_route@,
            output_projection_by_layer_route: self.output_projection_by_layer_route@,
            projection_route_denials: self.projection_route_denials@,
            ffn_gate_up_decode_consumer_taken: self.ffn_gate_up_decode_consumer_taken,
            ffn_gate_up_decode_fused_activation_taken: self.ffn_gate_up_decode_fused_activation_taken,
            ffn_gate_up_decode_consumer_activation_us: self.ffn_gate_up_decode_consumer_activation_us,
            ffn_gate_up_decode_consumer_tensor_us: self.ffn_gate_up_decode_consumer_tensor_us,
            ffn_decode_chain_taken: self.ffn_decode_chain_taken,
            ffn_decode_chain_total_ns: self.ffn_decode_chain_total_ns,
            ffn_decode_chain_input_quantize_ns: self.ffn_decode_chain_input_quantize_ns,
            ffn_decode_chain_activation_quantize_ns: self.ffn_decode_chain_activation_quantize_ns,
            ffn_decode_chain_down_ns: self.ffn_decode_chain_down_ns,
            activation_pack_calls: self.activation_pack_calls,
            activation_pack_rows: self.activation_pack_rows,
            activation_pack_bytes_requested: self.activation_pack_bytes_requested,
            scratch_allocation_count: self.scratch_allocation_count,
            scratch_bytes_allocated: self.scratch_bytes_allocated,
            scratch_bytes_reused: self.scratch_bytes_reused,
            scratch_peak_capacity_bytes: self.scratch_peak_capacity_bytes,
            activation_quantize_pack_us: self.activation_quantize_pack_us,
            q8_gemm_compute_us: self.q8_gemm_compute_us,
            matmul_owner_prefill_taken: self.matmul_owner_prefill_taken,
            kquant_owner_prefill_taken: self.kquant_owner_prefill_taken,
            kquant_owner_vnni_taken: self.kquant_owner_vnni_taken,
            kquant_owner_repack8_taken: self.kquant_owner_repack8_taken,
            kquant_owner_repack8_built: self.kquant_owner_repack8_built,
            kquant_owner_repack8_budget_denied: self.kquant_owner_repack8_budget_denied,
            conservative_tail_rows: self.conservative_tail_rows,
            ffn_down_gemm4_prefill_candidates: self.ffn_down_gemm4_prefill_candidates,
            ffn_down_gemm4_prefill_reject_plan_off: self.ffn_down_gemm4_prefill_reject_plan_off,
            ffn_down_gemm4_prefill_reject_rows_lt4: self.ffn_down_gemm4_prefill_reject_rows_lt4,
            ffn_down_gemm4_prefill_reject_bad_input_width: self.ffn_down_gemm4_prefill_reject_bad_input_width,
            ffn_down_gemm4_prefill_reject_no_runtime_packed: self.ffn_down_gemm4_prefill_reject_no_runtime_packed,
            ffn_down_gemm4_prefill_reject_non_i8_interleave: self.ffn_down_gemm4_prefill_reject_non_i8_interleave,
            ffn_down_decode_consumer_taken: self.ffn_down_decode_consumer_taken,
            ffn_down_vnni_decode_candidates: self.ffn_down_vnni_decode_candidates,
            ffn_down_vnni_decode_taken: self.ffn_down_vnni_decode_taken,
            ffn_down_vnni_decode_quantize_us: self.ffn_down_vnni_decode_quantize_us,
            ffn_down_vnni_decode_kernel_us: self.ffn_down_vnni_decode_kernel_us,
            ffn_down_vnni_decode_reject_gate_off: self.ffn_down_vnni_decode_reject_gate_off,
            ffn_down_vnni_decode_reject_cpu_feature: self.ffn_down_vnni_decode_reject_cpu_feature,
            ffn_down_vnni_decode_reject_no_vnni_pack: self.ffn_down_vnni_decode_reject_no_vnni_pack,
            ffn_down_vnni_decode_reject_bad_input_width: self.ffn_down_vnni_decode_reject_bad_input_width,
            ffn_down_vnni_decode_reject_bad_output_width: self.ffn_down_vnni_decode_reject_bad_output_width,
            ffn_down_vnni_decode_reject_shape_or_role: self.ffn_down_vnni_decode_reject_shape_or_role,
            prefill_single_token_fallbacks: self.prefill_single_token_fallbacks,
        }
    }
}

impl View for LlamaQ8ScheduleRoleTelemetry {
    type V = LlamaQ8ScheduleRoleTelemetry;

    open spec fn view(&self) -> LlamaQ8ScheduleRoleTelemetry {
        *self
    }
}

impl View for LlamaQ8OutputProjectionRouteTelemetry {
    type V = RouteReading;

    open spec fn view(&self) -> RouteReading {
        RouteReading {
            role: self.role@,
            route: self.route@,
            calls: self.calls,
            rows: self.rows,
            input_width: self.input_width,
            output_width: self.output_width,
            elapsed_us: self.elapsed_us,
        }
    }
}

impl View for LlamaQ8OutputProjectionLayerRouteTelemetry {
    type V = LayerRouteReading;

    open spec fn view(&self) -> LayerRouteReading {
        LayerRouteReading {
            layer_index: self.layer_index,
            role: self.role@,
            route: self.route@,
            calls: self.calls,
            rows: self.rows,
            input_width: self.input_width,
            output_width: self.output_width,
            elapsed_us: self.elapsed_us,
        }
    }
}

impl View for LlamaQ8ProjectionRouteDenialTelemetry {
    type V = DenialReading;

    open spec fn view(&self) -> DenialReading {
        DenialReading {
            role: self.role@,
            route: self.route@,
            reason: self.reason@,
            denials: self.denials,
            rows: self.rows,
            input_width: self.input_width,
            output_width: self.output_width,
        }
    }
}

/// A role with no reading yet.
pub open spec fn zero_role() -> LlamaQ8ScheduleRoleTelemetry {
    LlamaQ8ScheduleRoleTelemetry {
        calls: 0,
        rows: 0,
        pack_us: 0,
        gemm_us: 0,
        tail_rows: 0,
        rayon_fanout_boundaries: 0,
        scheduler_chunk_calls: 0,
        scheduler_output_groups: 0,
        scheduler_row_groups: 0,
        scheduler_groups_per_chunk: 0,
    }
}

/// No reading at all.
pub open spec fn zero_telemetry() -> TelemetryModel {
    TelemetryModel {
        rayon_fanout_boundaries: 0,
        i8mm_single_projection_calls: 0,
        i8mm_fused_gate_up_calls: 0,
        i8mm_single_projection_by_role: Map::empty(),
        output_projection_calls: 0,
        output_projection_by_route: Map::empty(),
        output_projection_by_layer_route: Map::empty(),
        projection_route_denials: Map::empty(),
        ffn_gate_up_decode_consumer_taken: 0,
        ffn_gate_up_decode_fused_activation_taken: 0,
        ffn_gate_up_decode_consumer_activation_us: 0,
        ffn_gate_up_decode_consumer_tensor_us: 0,
        ffn_decode_chain_taken: 0,
        ffn_decode_chain_total_ns: 0,
        ffn_decode_chain_input_quantize_ns: 0,
        ffn_decode_chain_activation_quantize_ns: 0,
        ffn_decode_chain_down_ns: 0,
        activation_pack_calls: 0,
        activation_pack_rows: 0,
        activation_pack_bytes_requested: 0,
        scratch_allocation_count: 0,
        scratch_bytes_allocated: 0,
        scratch_bytes_reused: 0,
        scratch_peak_capacity_bytes: 0,
        activation_quantize_pack_us: 0,
        q8_gemm_compute_us: 0,
        matmul_owner_prefill_taken: 0,
        kquant_owner_prefill_taken: 0,
        kquant_owner_vnni_taken: 0,
        kquant_owner_repack8_taken: 0,
        kquant_owner_repack8_built: 0,
        kquant_owner_repack8_budget_denied: 0,
        conservative_tail_rows: 0,
        ffn_down_gemm4_prefill_candidates: 0,
        ffn_down_gemm4_prefill_reject_plan_off: 0,
        ffn_down_gemm4_prefill_reject_rows_lt4: 0,
        ffn_down_gemm4_prefill_reject_bad_input_width: 0,
        ffn_down_gemm4_prefill_reject_no_runtime_packed: 0,
        ffn_down_gemm4_prefill_reject_non_i8_interleave: 0,
        ffn_down_decode_consumer_taken: 0,
        ffn_down_vnni_decode_candidates: 0,
        ffn_down_vnni_decode_taken: 0,
        ffn_down_vnni_decode_quantize_us: 0,
        ffn_down_vnni_decode_kernel_us: 0,
        ffn_down_vnni_decode_reject_gate_off: 0,
        ffn_down_vnni_decode_reject_cpu_feature: 0,
        ffn_down_vnni_decode_reject_no_vnni_pack: 0,
        ffn_down_vnni_decode_reject_bad_input_width: 0,
        ffn_down_vnni_decode_reject_bad_output_width: 0,
        ffn_down_vnni_decode_reject_shape_or_role: 0,
        prefill_single_token_fallbacks: 0,
    }
}

impl Default for LlamaQ8ScheduleTelemetry {
    fn default() -> (telemetry: Self)
        ensures
            telemetry@ == zero_telemetry(),
    {
        LlamaQ8ScheduleTelemetry {
            rayon_fanout_boundaries: 0,
            i8mm_single_projection_calls: 0,
            i8mm_fused_gate_up_calls: 0,
            i8mm_single_projection_by_role: LabelMap::new(),
            output_projection_calls: 0,
            output_projection_by_route: LabelMap::new(),
            output_projection_by_layer_route: LabelMap::new(),
            projection_route_denials: LabelMap::new(),
            ffn_gate_up_decode_consumer_taken: 0,
            ffn_gate_up_decode_fused_activation_taken: 0,
            ffn_gate_up_decode_consumer_activation_us: 0,
            ffn_gate_up_decode_consumer_tensor_us: 0,
            ffn_decode_chain_taken: 0,
            ffn_decode_chain_total_ns: 0,
            ffn_decode_chain_input_quantize_ns: 0,
            ffn_decode_chain_activation_quantize_ns: 0,
            ffn_decode_chain_down_ns: 0,
            activation_pack_calls: 0,
            activation_pack_rows: 0,
            activation_pack_bytes_requested: 0,
            scratch_allocation_count: 0,
            scratch_bytes_allocated: 0,
            scratch_bytes_reused: 0,
            scratch_peak_capacity_bytes: 0,
            activation_quantize_pack_us: 0,
            q8_gemm_compute_us: 0,
            matmul_owner_prefill_taken: 0,
            kquant_owner_prefill_taken: 0,
            kquant_owner_vnni_taken: 0,
            kquant_owner_repack8_taken: 0,
            kquant_owner_repack8_built: 0,
            kquant_owner_repack8_budget_denied: 0,
            conservative_tail_rows: 0,
            ffn_down_gemm4_prefill_candidates: 0,
            ffn_down_gemm4_prefill_reject_plan_off: 0,
            ffn_down_gemm4_prefill_reject_rows_lt4: 0,
            ffn_down_gemm4_prefill_reject_bad_input_width: 0,
            ffn_down_gemm4_prefill_reject_no_runtime_packed: 0,
            ffn_down_gemm4_prefill_reject_non_i8_interleave: 0,
            ffn_down_decode_consumer_taken: 0,
            ffn_down_vnni_decode_candidates: 0,
            ffn_down_vnni_decode_taken: 0,
            ffn_down_vnni_decode_quantize_us: 0,
            ffn_down_vnni_decode_kernel_us: 0,
            ffn_down_vnni_decode_reject_gate_off: 0,
            ffn_down_vnni_decode_reject_cpu_feature: 0,
            ffn_down_vnni_decode_reject_no_vnni_pack: 0,
            ffn_down_vnni_decode_reject_bad_input_width: 0,
            ffn_down_vnni_decode_reject_bad_output_width: 0,
            ffn_down_vnni_decode_reject_shape_or_role: 0,
            prefill_single_token_fallbacks: 0,
        }
    }
}

impl Default for LlamaQ8ScheduleRoleTelemetry {
    fn default() -> (role: Self)
        ensures
            role == zero_role(),
    {
        LlamaQ8ScheduleRoleTelemetry {
            calls: 0,
            rows: 0,
            pack_us: 0,
            gemm_us: 0,
            tail_rows: 0,
            rayon_fanout_boundaries: 0,
            scheduler_chunk_calls: 0,
            scheduler_output_groups: 0,
            scheduler_row_groups: 0,
            scheduler_groups_per_chunk: 0,
        }
    }
}

impl Default for LlamaQ8OutputProjectionRouteTelemetry {
    fn default() -> (route: Self)
        ensures
            route@ == zero_route(Seq::empty(), Seq::empty()),
    {
        proof {
            reveal_strlit("");
            assert(""@ =~= Seq::<char>::empty());
        }
        LlamaQ8OutputProjectionRouteTelemetry::unused("", "")
    }
}

impl Default for LlamaQ8OutputProjectionLayerRouteTelemetry {
    fn default() -> (route: Self)
        ensures
            route@ == zero_layer_route(0, Seq::empty(), Seq::empty()),
    {
        proof {
            reveal_strlit("");
            assert(""@ =~= Seq::<char>::empty());
        }
        LlamaQ8OutputProjectionLayerRouteTelemetry::unused(0, "", "")
    }
}

impl Default for LlamaQ8ProjectionRouteDenialTelemetry {
    fn default() -> (denial: Self)
        ensures
            denial@ == zero_denial(Seq::empty(), Seq::empty(), Seq::empty()),
    {
        proof {
            reveal_strlit("");
            assert(""@ =~= Seq::<char>::empty());
        }
        LlamaQ8ProjectionRouteDenialTelemetry::unused("", "", "")
    }
}

/// A route with no reading yet.
pub open spec fn zero_route(role: Seq<char>, route: Seq<char>) -> RouteReading {
    RouteReading {
        role,
        route,
        calls: 0,
        rows: 0,
        input_width: 0,
        output_width: 0,
        elapsed_us: 0,
    }
}

/// A route of a layer with no reading yet.
pub open spec fn zero_layer_route(
    layer_index: usize,
    role: Seq<char>,
    route: Seq<char>,
) -> LayerRouteReading {
    LayerRouteReading {
        layer_index,
        role,
        route,
        calls: 0,
        rows: 0,
        input_width: 0,
        output_width: 0,
        elapsed_us: 0,
    }
}

/// A denial with no reading yet.
pub open spec fn zero_denial(
    role: Seq<char>,
    route: Seq<char>,
    reason: Seq<char>,
) -> DenialReading {
    DenialReading {
        role,
        route,
        reason,
        denials: 0,
        rows: 0,
        input_width: 0,
        output_width: 0,
    }
}

/// The value of `key` in `map`, or `fresh` where there is none.
pub open spec fn value_or<V>(map: Map<Seq<char>, V>, key: Seq<char>, fresh: V) -> V {
    if map.contains_key(key) {
        map[key]
    } else {
        fresh
    }
}

/// The label of a route.
pub open spec fn route_label(role: Seq<char>, route: Seq<char>) -> Seq<char> {
    role + "."@ + route
}

/// The label of a route in one layer.
pub open spec fn layer_route_label(layer: nat, role: Seq<char>, route: Seq<char>) -> Seq<char> {
    "layer_"@ + crate::text::decimal(layer) + "."@ + route_label(role, route)
}

/// The label of a denial.
pub open spec fn denial_label(role: Seq<char>, route: Seq<char>, reason: Seq<char>) -> Seq<char> {
    route_label(role, route) + "."@ + reason
}

/// The layer that a projection name such as `layer_12_attn_q` speaks of: the
/// number between the prefix `layer_` and the next underscore.
pub open spec fn projection_layer(name: Seq<char>) -> Option<nat> {
    let rest = name.skip(6);
    let n = crate::text::index_of_char(rest, '_');
    if name.len() >= 6 && name.take(6) == "layer_"@ && n < rest.len() {
        crate::text::digits_number(rest.take(n as int), usize::MAX as nat)
    } else {
        None
    }
}

/// The values of a flag variable that turn it on.
pub open spec fn flag_on(value: Seq<char>) -> bool {
    ||| value == "1"@
    ||| value == "true"@
    ||| value == "TRUE"@
    ||| value == "yes"@
    ||| value == "YES"@
    ||| value == "on"@
    ||| value == "ON"@
}

/// An unset flag is off.
pub open spec fn flag_enabled(value: Option<Seq<char>>) -> bool {
    match value {
        Some(v) => flag_on(v),
        None => false,
    }
}

/// What one activation pack adds: its call, rows, requested bytes and time, and
/// either the bytes that the scratch buffer grew by or, where it held enough
/// already, the bytes reused; the peak follows the capacity after the pack.
pub open spec fn with_activation_pack(
    m: TelemetryModel,
    block_bytes: nat,
    after_capacity: nat,
    before_capacity: nat,
    packed_rows: usize,
    blocks_per_row: nat,
    elapsed_us: u128,
) -> TelemetryModel {
    let blocks = (packed_rows / 4) as nat * blocks_per_row;
    let requested = block_bytes_of(blocks, block_bytes);
    let before = block_bytes_of(before_capacity, block_bytes);
    let after = block_bytes_of(after_capacity, block_bytes);
    let grew = if after > before {
        (after - before) as u64
    } else {
        0u64
    };
    let allocates = before_capacity < blocks;
    TelemetryModel {
        activation_pack_calls: wrapped(m.activation_pack_calls, 1),
        activation_pack_rows: wrapped(m.activation_pack_rows, packed_rows as u64),
        activation_pack_bytes_requested: wrapped(m.activation_pack_bytes_requested, requested),
        activation_quantize_pack_us: wrapped(m.activation_quantize_pack_us, low_bits(elapsed_us)),
        scratch_allocation_count: if allocates {
            wrapped(m.scratch_allocation_count, 1)
        } else {
            m.scratch_allocation_count
        },
        scratch_bytes_allocated: if allocates {
            wrapped(m.scratch_bytes_allocated, grew)
        } else {
            m.scratch_bytes_allocated
        },
        scratch_bytes_reused: if allocates {
            m.scratch_bytes_reused
        } else {
            wrapped(m.scratch_bytes_reused, requested)
        },
        scratch_peak_capacity_bytes: if after > m.scratch_peak_capacity_bytes {
            after
        } else {
            m.scratch_peak_capacity_bytes
        },
        ..m
    }
}

/// The readings of a role.
pub open spec fn role_reading(m: TelemetryModel, role: Seq<char>) -> LlamaQ8ScheduleRoleTelemetry {
    value_or(m.i8mm_single_projection_by_role, role, zero_role())
}

/// `m` with the readings of one role replaced.
pub open spec fn with_role(
    m: TelemetryModel,
    role: Seq<char>,
    reading: LlamaQ8ScheduleRoleTelemetry,
) -> TelemetryModel {
    TelemetryModel {
        i8mm_single_projection_by_role: m.i8mm_single_projection_by_role.insert(role, reading),
        ..m
    }
}

/// What one single-projection call adds to the readings of its role.
pub open spec fn with_role_call(
    m: TelemetryModel,
    role: Seq<char>,
    rows: u64,
    rayon_fanout_boundaries: u64,
) -> TelemetryModel {
    let e = role_reading(m, role);
    with_role(
        m,
        role,
        LlamaQ8ScheduleRoleTelemetry {
            calls: capped(e.calls, 1),
            rows: capped(e.rows, rows),
            rayon_fanout_boundaries: capped(e.rayon_fanout_boundaries, rayon_fanout_boundaries),
            ..e
        },
    )
}

/// What packing adds to the readings of its role.
pub open spec fn with_role_pack(
    m: TelemetryModel,
    role: Seq<char>,
    elapsed_us: u128,
) -> TelemetryModel {
    let e = role_reading(m, role);
    with_role(
        m,
        role,
        LlamaQ8ScheduleRoleTelemetry { pack_us: capped(e.pack_us, low_bits(elapsed_us)), ..e },
    )
}

/// What a matrix product adds to the readings of its role.
pub open spec fn with_role_gemm(
    m: TelemetryModel,
    role: Seq<char>,
    elapsed_us: u128,
) -> TelemetryModel {
    let e = role_reading(m, role);
    with_role(
        m,
        role,
        LlamaQ8ScheduleRoleTelemetry { gemm_us: capped(e.gemm_us, low_bits(elapsed_us)), ..e },
    )
}

/// What left-over rows add to the readings of their role; none add nothing.
pub open spec fn with_role_tail(
    m: TelemetryModel,
    role: Seq<char>,
    tail_rows: u64,
) -> TelemetryModel {
    if tail_rows == 0 {
        m
    } else {
        let e = role_reading(m, role);
        with_role(
            m,
            role,
            LlamaQ8ScheduleRoleTelemetry { tail_rows: capped(e.tail_rows, tail_rows), ..e },
        )
    }
}

/// What work cut into chunks adds to the readings of its role; work without output
/// groups adds nothing.
pub open spec fn with_role_scheduler(
    m: TelemetryModel,
    role: Seq<char>,
    output_groups: u64,
    row_groups: u64,
    groups_per_chunk: u64,
) -> TelemetryModel {
    if output_groups == 0 {
        m
    } else {
        let e = role_reading(m, role);
        with_role(
            m,
            role,
            LlamaQ8ScheduleRoleTelemetry {
                scheduler_chunk_calls: capped(e.scheduler_chunk_calls, 1),
                scheduler_output_groups: capped(e.scheduler_output_groups, output_groups),
                scheduler_row_groups: capped(e.scheduler_row_groups, row_groups),
                scheduler_groups_per_chunk: capped(
                    e.scheduler_groups_per_chunk,
                    if groups_per_chunk > 1 {
                        groups_per_chunk
                    } else {
                        1
                    },
                ),
                ..e
            },
        )
    }
}

/// What one call through a route adds to the route's readings.
pub open spec fn with_route_call(
    m: TelemetryModel,
    role: Seq<char>,
    route: Seq<char>,
    rows: u64,
    input_width: u64,
    output_width: u64,
    elapsed_us: u128,
) -> TelemetryModel {
    let label = route_label(role, route);
    let e = value_or(m.output_projection_by_route, label, zero_route(role, route));
    let reading = RouteReading {
        calls: capped(e.calls, 1),
        rows: capped(e.rows, rows),
        input_width,
        output_width,
        elapsed_us: capped(e.elapsed_us, low_bits(elapsed_us)),
        ..e
    };
    TelemetryModel {
        output_projection_calls: wrapped(m.output_projection_calls, 1),
        output_projection_by_route: m.output_projection_by_route.insert(label, reading),
        ..m
    }
}

/// What one call through a route adds to the readings of the route in a layer.
pub open spec fn with_layer_route_call(
    m: TelemetryModel,
    layer: nat,
    role: Seq<char>,
    route: Seq<char>,
    rows: u64,
    input_width: u64,
    output_width: u64,
    elapsed_us: u128,
) -> TelemetryModel {
    let label = layer_route_label(layer, role, route);
    let e = value_or(
        m.output_projection_by_layer_route,
        label,
        zero_layer_route(layer as usize, role, route),
    );
    let reading = LayerRouteReading {
        calls: capped(e.calls, 1),
        rows: capped(e.rows, rows),
        input_width,
        output_width,
        elapsed_us: capped(e.elapsed_us, low_bits(elapsed_us)),
        ..e
    };
    TelemetryModel {
        output_projection_by_layer_route: m.output_projection_by_layer_route.insert(label, reading),
        ..m
    }
}

/// What one named or unnamed output projection adds: to its route, and to its
/// route in a layer where the name tells the layer.
pub open spec fn with_output_projection(
    m: TelemetryModel,
    role: Seq<char>,
    route: Seq<char>,
    projection_name: Option<Seq<char>>,
    rows: u64,
    input_width: u64,
    output_width: u64,
    elapsed_us: u128,
) -> TelemetryModel {
    let called = with_route_call(m, role, route, rows, input_width, output_width, elapsed_us);
    let layer = match projection_name {
        Some(name) => projection_layer(name),
        None => None,
    };
    match layer {
        Some(n) => with_layer_route_call(
            called,
            n,
            role,
            route,
            rows,
            input_width,
            output_width,
            elapsed_us,
        ),
        None => called,
    }
}

/// What one denial adds.
pub open spec fn with_denial(
    m: TelemetryModel,
    role: Seq<char>,
    route: Seq<char>,
    reason: Seq<char>,
    rows: u64,
    input_width: u64,
    output_width: u64,
) -> TelemetryModel {
    let label = denial_label(role, route, reason);
    let e = value_or(m.projection_route_denials, label, zero_denial(role, route, reason));
    let reading = DenialReading {
        denials: capped(e.denials, 1),
        rows: capped(e.rows, rows),
        input_width,
        output_width,
        ..e
    };
    TelemetryModel {
        projection_route_denials: m.projection_route_denials.insert(label, reading),
        ..m
    }
}

impl Reading for LlamaQ8ScheduleRoleTelemetry {
    fn duplicate(&self) -> (copy: Self) {
        *self
    }

    fn same(&self, other: &Self) -> (equal: bool) {
        *self == *other
    }
}

impl LlamaQ8OutputProjectionRouteTelemetry {
    /// A route with no reading yet.
    fn unused(role: &str, route: &str) -> (reading: Self)
        ensures
            reading@ == zero_route(role@, route@),
    {
        LlamaQ8OutputProjectionRouteTelemetry {
            role: role.to_owned(),
            route: route.to_owned(),
            calls: 0,
            rows: 0,
            input_width: 0,
            output_width: 0,
            elapsed_us: 0,
        }
    }
}

impl Reading for LlamaQ8OutputProjectionRouteTelemetry {
    fn duplicate(&self) -> (copy: Self) {
        LlamaQ8OutputProjectionRouteTelemetry {
            role: self.role.clone(),
            route: self.route.clone(),
            calls: self.calls,
            rows: self.rows,
            input_width: self.input_width,
            output_width: self.output_width,
            elapsed_us: self.elapsed_us,
        }
    }

    fn same(&self, other: &Self) -> (equal: bool) {
        text_eq(self.role.as_str(), other.role.as_str()) && text_eq(
            self.route.as_str(),
            other.route.as_str(),
        ) && self.calls == other.calls && self.rows == other.rows && self.input_width
            == other.input_width && self.output_width == other.output_width && self.elapsed_us
            == other.elapsed_us
    }
}

impl LlamaQ8OutputProjectionLayerRouteTelemetry {
    /// A route of a layer with no reading yet.
    fn unused(layer_index: usize, role: &str, route: &str) -> (reading: Self)
        ensures
            reading@ == zero_layer_route(layer_index, role@, route@),
    {
        LlamaQ8OutputProjectionLayerRouteTelemetry {
            layer_index,
            role: role.to_owned(),
            route: route.to_owned(),
            calls: 0,
            rows: 0,
            input_width: 0,
            output_width: 0,
            elapsed_us: 0,
        }
    }
}

impl Reading for LlamaQ8OutputProjectionLayerRouteTelemetry {
    fn duplicate(&self) -> (copy: Self) {
        LlamaQ8OutputProjectionLayerRouteTelemetry {
            layer_index: self.layer_index,
            role: self.role.clone(),
            route: self.route.clone(),
            calls: self.calls,
            rows: self.rows,
            input_width: self.input_width,
            output_width: self.output_width,
            elapsed_us: self.elapsed_us,
        }
    }

    fn same(&self, other: &Self) -> (equal: bool) {
        self.layer_index == other.layer_index && text_eq(self.role.as_str(), other.role.as_str())
            && text_eq(self.route.as_str(), other.route.as_str()) && self.calls == other.calls
            && self.rows == other.rows && self.input_width == other.input_width
            && self.output_width == other.output_width && self.elapsed_us == other.elapsed_us
    }
}

impl LlamaQ8ProjectionRouteDenialTelemetry {
    /// A denial with no reading yet.
    fn unused(role: &str, route: &str, reason: &str) -> (reading: Self)
        ensures
            reading@ == zero_denial(role@, route@, reason@),
    {
        LlamaQ8ProjectionRouteDenialTelemetry {
            role: role.to_owned(),
            route: route.to_owned(),
            reason: reason.to_owned(),
            denials: 0,
            rows: 0,
            input_width: 0,
            output_width: 0,
        }
    }
}

impl Reading for LlamaQ8ProjectionRouteDenialTelemetry {
    fn duplicate(&self) -> (copy: Self) {
        LlamaQ8ProjectionRouteDenialTelemetry {
            role: self.role.clone(),
            route: self.route.clone(),
            reason: self.reason.clone(),
            denials: self.denials,
            rows: self.rows,
            input_width: self.input_width,
            output_width: self.output_width,
        }
    }

    fn same(&self, other: &Self) -> (equal: bool) {
        text_eq(self.role.as_str(), other.role.as_str()) && text_eq(
            self.route.as_str(),
            other.route.as_str(),
        ) && text_eq(self.reason.as_str(), other.reason.as_str()) && self.denials == other.denials
            && self.rows == other.rows && self.input_width == other.input_width
            && self.output_width == other.output_width
    }
}

/// Whether recording is on, read from the environment once.
#[derive(Debug, Clone, Copy, PartialEq, Eq, Structural)]
pub struct TelemetryGate {
    pub resolved: Option<bool>,
}

impl Default for TelemetryGate {
    fn default() -> (gate: Self)
        ensures
            gate.resolved is None,
    {
        TelemetryGate { resolved: None }
    }
}

/// Whether recording is on. `setting` is the value of
/// [`Q8_SCHEDULE_TELEMETRY_ENV`] now; only the first call looks at it.
pub fn q8_schedule_telemetry_enabled(
    gate: &mut TelemetryGate,
    setting: Option<&str>,
) -> (enabled: bool)
    ensures
        enabled == (match old(gate).resolved {
            Some(resolved) => resolved,
            None => flag_enabled(crate::text::option_view(setting)),
        }),
        final(gate).resolved == Some(enabled),
{
    match gate.resolved {
        Some(resolved) => resolved,
        None => {
            let enabled: bool = env_flag_enabled(setting);
            gate.resolved = Some(enabled);
            enabled
        },
    }
}

/// Whether a flag variable with this value is on.
pub fn env_flag_enabled(value: Option<&str>) -> (on: bool)
    ensures
        on == flag_enabled(crate::text::option_view(value)),
{
    match value {
        Some(v) => text_eq(v, "1") || text_eq(v, "true") || text_eq(v, "TRUE") || text_eq(v, "yes")
            || text_eq(v, "YES") || text_eq(v, "on") || text_eq(v, "ON"),
        None => false,
    }
}

/// Clears every reading.
pub fn reset_q8_schedule_telemetry(telemetry: &mut LlamaQ8ScheduleTelemetry)
    ensures
        final(telemetry)@ == zero_telemetry(),
{
    telemetry.rayon_fanout_boundaries = 0;
    telemetry.i8mm_single_projection_calls = 0;
    telemetry.i8mm_fused_gate_up_calls = 0;
    telemetry.i8mm_single_projection_by_role = LabelMap::new();
    telemetry.output_projection_calls = 0;
    telemetry.output_projection_by_route = LabelMap::new();
    telemetry.output_projection_by_layer_route = LabelMap::new();
    telemetry.projection_route_denials = LabelMap::new();
    telemetry.ffn_gate_up_decode_consumer_taken = 0;
    telemetry.ffn_gate_up_decode_fused_activation_taken = 0;
    telemetry.ffn_gate_up_decode_consumer_activation_us = 0;
    telemetry.ffn_gate_up_decode_consumer_tensor_us = 0;
    telemetry.ffn_decode_chain_taken = 0;
    telemetry.ffn_decode_chain_total_ns = 0;
    telemetry.ffn_decode_chain_input_quantize_ns = 0;
    telemetry.ffn_decode_chain_activation_quantize_ns = 0;
    telemetry.ffn_decode_chain_down_ns = 0;
    telemetry.activation_pack_calls = 0;
    telemetry.activation_pack_rows = 0;
    telemetry.activation_pack_bytes_requested = 0;
    telemetry.scratch_allocation_count = 0;
    telemetry.scratch_bytes_allocated = 0;
    telemetry.scratch_bytes_reused = 0;
    telemetry.scratch_peak_capacity_bytes = 0;
    telemetry.activation_quantize_pack_us = 0;
    telemetry.q8_gemm_compute_us = 0;
    telemetry.matmul_owner_prefill_taken = 0;
    telemetry.kquant_owner_prefill_taken = 0;
    telemetry.kquant_owner_vnni_taken = 0;
    telemetry.kquant_owner_repack8_taken = 0;
    telemetry.kquant_owner_repack8_built = 0;
    telemetry.kquant_owner_repack8_budget_denied = 0;
    telemetry.conservative_tail_rows = 0;
    telemetry.ffn_down_gemm4_prefill_candidates = 0;
    telemetry.ffn_down_gemm4_prefill_reject_plan_off = 0;
    telemetry.ffn_down_gemm4_prefill_reject_rows_lt4 = 0;
    telemetry.ffn_down_gemm4_prefill_reject_bad_input_width = 0;
    telemetry.ffn_down_gemm4_prefill_reject_no_runtime_packed = 0;
    telemetry.ffn_down_gemm4_prefill_reject_non_i8_interleave = 0;
    telemetry.ffn_down_decode_consumer_taken = 0;
    telemetry.ffn_down_vnni_decode_candidates = 0;
    telemetry.ffn_down_vnni_decode_taken = 0;
    telemetry.ffn_down_vnni_decode_quantize_us = 0;
    telemetry.ffn_down_vnni_decode_kernel_us = 0;
    telemetry.ffn_down_vnni_decode_reject_gate_off = 0;
    telemetry.ffn_down_vnni_decode_reject_cpu_feature = 0;
    telemetry.ffn_down_vnni_decode_reject_no_vnni_pack = 0;
    telemetry.ffn_down_vnni_decode_reject_bad_input_width = 0;
    telemetry.ffn_down_vnni_decode_reject_bad_output_width = 0;
    telemetry.ffn_down_vnni_decode_reject_shape_or_role = 0;
    telemetry.prefill_single_token_fallbacks = 0;
}

/// A copy of all readings.
pub fn snapshot_q8_schedule_telemetry(telemetry: &LlamaQ8ScheduleTelemetry) -> (snapshot:
    LlamaQ8ScheduleTelemetry)
    ensures
        snapshot@ == telemetry@,
{
    LlamaQ8ScheduleTelemetry {
        rayon_fanout_boundaries: telemetry.rayon_fanout_boundaries,
        i8mm_single_projection_calls: telemetry.i8mm_single_projection_calls,
        i8mm_fused_gate_up_calls: telemetry.i8mm_fused_gate_up_calls,
        i8mm_single_projection_by_role: telemetry.i8mm_single_projection_by_role.clone(),
        output_projection_calls: telemetry.output_projection_calls,
        output_projection_by_route: telemetry.output_projection_by_route.clone(),
        output_projection_by_layer_route: telemetry.output_projection_by_layer_route.clone(),
        projection_route_denials: telemetry.projection_route_denials.clone(),
        ffn_gate_up_decode_consumer_taken: telemetry.ffn_gate_up_decode_consumer_taken,
        ffn_gate_up_decode_fused_activation_taken: telemetry.ffn_gate_up_decode_fused_activation_taken,
        ffn_gate_up_decode_consumer_activation_us: telemetry.ffn_gate_up_decode_consumer_activation_us,
        ffn_gate_up_decode_consumer_tensor_us: telemetry.ffn_gate_up_decode_consumer_tensor_us,
        ffn_decode_chain_taken: telemetry.ffn_decode_chain_taken,
        ffn_decode_chain_total_ns: telemetry.ffn_decode_chain_total_ns,
        ffn_decode_chain_input_quantize_ns: telemetry.ffn_decode_chain_input_quantize_ns,
        ffn_decode_chain_activation_quantize_ns: telemetry.ffn_decode_chain_activation_quantize_ns,
        ffn_decode_chain_down_ns: telemetry.ffn_decode_chain_down_ns,
        activation_pack_calls: telemetry.activation_pack_calls,
        activation_pack_rows: telemetry.activation_pack_rows,
        activation_pack_bytes_requested: telemetry.activation_pack_bytes_requested,
        scratch_allocation_count: telemetry.scratch_allocation_count,
        scratch_bytes_allocated: telemetry.scratch_bytes_allocated,
        scratch_bytes_reused: telemetry.scratch_bytes_reused,
        scratch_peak_capacity_bytes: telemetry.scratch_peak_capacity_bytes,
        activation_quantize_pack_us: telemetry.activation_quantize_pack_us,
        q8_gemm_compute_us: telemetry.q8_gemm_compute_us,
        matmul_owner_prefill_taken: telemetry.matmul_owner_prefill_taken,
        kquant_owner_prefill_taken: telemetry.kquant_owner_prefill_taken,
        kquant_owner_vnni_taken: telemetry.kquant_owner_vnni_taken,
        kquant_owner_repack8_taken: telemetry.kquant_owner_repack8_taken,
        kquant_owner_repack8_built: telemetry.kquant_owner_repack8_built,
        kquant_owner_repack8_budget_denied: telemetry.kquant_owner_repack8_budget_denied,
        conservative_tail_rows: telemetry.conservative_tail_rows,
        ffn_down_gemm4_prefill_candidates: telemetry.ffn_down_gemm4_prefill_candidates,
        ffn_down_gemm4_prefill_reject_plan_off: telemetry.ffn_down_gemm4_prefill_reject_plan_off,
        ffn_down_gemm4_prefill_reject_rows_lt4: telemetry.ffn_down_gemm4_prefill_reject_rows_lt4,
        ffn_down_gemm4_prefill_reject_bad_input_width: telemetry.ffn_down_gemm4_prefill_reject_bad_input_width,
        ffn_down_gemm4_prefill_reject_no_runtime_packed: telemetry.ffn_down_gemm4_prefill_reject_no_runtime_packed,
        ffn_down_gemm4_prefill_reject_non_i8_interleave: telemetry.ffn_down_gemm4_prefill_reject_non_i8_interleave,
        ffn_down_decode_consumer_taken: telemetry.ffn_down_decode_consumer_taken,
        ffn_down_vnni_decode_candidates: telemetry.ffn_down_vnni_decode_candidates,
        ffn_down_vnni_decode_taken: telemetry.ffn_down_vnni_decode_taken,
        ffn_down_vnni_decode_quantize_us: telemetry.ffn_down_vnni_decode_quantize_us,
        ffn_down_vnni_decode_kernel_us: telemetry.ffn_down_vnni_decode_kernel_us,
        ffn_down_vnni_decode_reject_gate_off: telemetry.ffn_down_vnni_decode_reject_gate_off,
        ffn_down_vnni_decode_reject_cpu_feature: telemetry.ffn_down_vnni_decode_reject_cpu_feature,
        ffn_down_vnni_decode_reject_no_vnni_pack: telemetry.ffn_down_vnni_decode_reject_no_vnni_pack,
        ffn_down_vnni_decode_reject_bad_input_width: telemetry.ffn_down_vnni_decode_reject_bad_input_width,
        ffn_down_vnni_decode_reject_bad_output_width: telemetry.ffn_down_vnni_decode_reject_bad_output_width,
        ffn_down_vnni_decode_reject_shape_or_role: telemetry.ffn_down_vnni_decode_reject_shape_or_role,
        prefill_single_token_fallbacks: telemetry.prefill_single_token_fallbacks,
    }
}

/// `a + b`, wrapping around.
fn wrapping_sum(a: u64, b: u64) -> (sum: u64)
    ensures
        sum == wrapped(a, b),
{
    a.wrapping_add(b)
}

/// The lower 64 bits of a duration.
fn low_bits_of(x: u128) -> (low: u64)
    ensures
        low == low_bits(x),
{
    (x % 0x1_0000_0000_0000_0000u128) as u64
}

/// `blocks` blocks in bytes, at most `usize::MAX`.
fn bytes_of_blocks(blocks: usize, block_bytes: usize) -> (bytes: usize)
    ensures
        bytes == block_bytes_of(blocks as nat, block_bytes as nat),
{
    match blocks.checked_mul(block_bytes) {
        Some(bytes) => bytes,
        None => usize::MAX,
    }
}

/// Adds to a counter.
pub fn add_q8_schedule_counter(counter: &mut u64, enabled: bool, value: u64)
    ensures
        *final(counter) == (if enabled {
            wrapped(*old(counter), value)
        } else {
            *old(counter)
        }),
{
    if enabled && value > 0 {
        *counter = wrapping_sum(*counter, value);
    }
}

/// Raises a peak to `value`.
pub fn update_q8_schedule_peak(counter: &mut u64, enabled: bool, value: u64)
    ensures
        *final(counter) == (if enabled && value > *old(counter) {
            value
        } else {
            *old(counter)
        }),
{
    if enabled && value > *counter {
        *counter = value;
    }
}

/// Records that `packed_rows` activation rows were packed into a scratch buffer
/// of `block_bytes`-byte blocks, whose capacity was `before_capacity` blocks and
/// is `after_capacity` now.
pub fn record_q8_schedule_activation_pack(
    telemetry: &mut LlamaQ8ScheduleTelemetry,
    enabled: bool,
    block_bytes: usize,
    after_capacity: usize,
    before_capacity: usize,
    packed_rows: usize,
    blocks_per_row: usize,
    elapsed_us: u128,
)
    requires
        enabled ==> packed_rows / 4 * blocks_per_row <= usize::MAX,
    ensures
        final(telemetry)@ == (if enabled {
            with_activation_pack(
                old(telemetry)@,
                block_bytes as nat,
                after_capacity as nat,
                before_capacity as nat,
                packed_rows,
                blocks_per_row as nat,
                elapsed_us,
            )
        } else {
            old(telemetry)@
        }),
{
    if !enabled {
        return ;
    }
    let requested_blocks: usize = packed_rows / 4 * blocks_per_row;
    let requested_bytes: usize = bytes_of_blocks(requested_blocks, block_bytes);
    let before_capacity_bytes: usize = bytes_of_blocks(before_capacity, block_bytes);
    let after_capacity_bytes: usize = bytes_of_blocks(after_capacity, block_bytes);
    telemetry.activation_pack_calls = wrapping_sum(telemetry.activation_pack_calls, 1);
    telemetry.activation_pack_rows = wrapping_sum(
        telemetry.activation_pack_rows,
        packed_rows as u64,
    );
    telemetry.activation_pack_bytes_requested = wrapping_sum(
        telemetry.activation_pack_bytes_requested,
        requested_bytes as u64,
    );
    telemetry.activation_quantize_pack_us = wrapping_sum(
        telemetry.activation_quantize_pack_us,
        low_bits_of(elapsed_us),
    );
    if before_capacity < requested_blocks {
        telemetry.scratch_allocation_count = wrapping_sum(telemetry.scratch_allocation_count, 1);
        telemetry.scratch_bytes_allocated = wrapping_sum(
            telemetry.scratch_bytes_allocated,
            after_capacity_bytes.saturating_sub(before_capacity_bytes) as u64,
        );
    } else {
        telemetry.scratch_bytes_reused = wrapping_sum(
            telemetry.scratch_bytes_reused,
            requested_bytes as u64,
        );
    }
    update_q8_schedule_peak(
        &mut telemetry.scratch_peak_capacity_bytes,
        enabled,
        after_capacity_bytes as u64,
    );
}

/// The readings of a role, zero where it has none.
fn q8_schedule_role(telemetry: &LlamaQ8ScheduleTelemetry, role: &str) -> (reading:
    LlamaQ8ScheduleRoleTelemetry)
    ensures
        reading == role_reading(telemetry@, role@),
{
    match telemetry.i8mm_single_projection_by_role.get(role) {
        Some(reading) => *reading,
        None => LlamaQ8ScheduleRoleTelemetry::default(),
    }
}

/// Replaces the readings of a role.
fn update_q8_schedule_role(
    telemetry: &mut LlamaQ8ScheduleTelemetry,
    role: &str,
    reading: LlamaQ8ScheduleRoleTelemetry,
)
    ensures
        final(telemetry)@ == with_role(old(telemetry)@, role@, reading),
{
    telemetry.i8mm_single_projection_by_role.insert(role.to_owned(), reading);
}

/// Records one single-projection call for a role.
pub fn record_q8_schedule_i8mm_single_projection_role_call(
    telemetry: &mut LlamaQ8ScheduleTelemetry,
    enabled: bool,
    role: &str,
    rows: u64,
    rayon_fanout_boundaries: u64,
)
    ensures
        final(telemetry)@ == (if enabled {
            with_role_call(old(telemetry)@, role@, rows, rayon_fanout_boundaries)
        } else {
            old(telemetry)@
        }),
{
    if !enabled {
        return ;
    }
    let mut entry: LlamaQ8ScheduleRoleTelemetry = q8_schedule_role(telemetry, role);
    entry.calls = entry.calls.saturating_add(1);
    entry.rows = entry.rows.saturating_add(rows);
    entry.rayon_fanout_boundaries =
    entry.rayon_fanout_boundaries.saturating_add(rayon_fanout_boundaries);
    update_q8_schedule_role(telemetry, role, entry);
}

/// Records the time that packing took for a role.
pub fn record_q8_schedule_i8mm_single_projection_role_pack(
    telemetry: &mut LlamaQ8ScheduleTelemetry,
    enabled: bool,
    role: &str,
    elapsed_us: u128,
)
    ensures
        final(telemetry)@ == (if enabled {
            with_role_pack(old(telemetry)@, role@, elapsed_us)
        } else {
            old(telemetry)@
        }),
{
    if !enabled {
        return ;
    }
    let mut entry: LlamaQ8ScheduleRoleTelemetry = q8_schedule_role(telemetry, role);
    entry.pack_us = entry.pack_us.saturating_add(low_bits_of(elapsed_us));
    update_q8_schedule_role(telemetry, role, entry);
}

/// Records the time that the matrix product took for a role.
pub fn record_q8_schedule_i8mm_single_projection_role_gemm(
    telemetry: &mut LlamaQ8ScheduleTelemetry,
    enabled: bool,
    role: &str,
    elapsed_us: u128,
)
    ensures
        final(telemetry)@ == (if enabled {
            with_role_gemm(old(telemetry)@, role@, elapsed_us)
        } else {
            old(telemetry)@
        }),
{
    if !enabled {
        return ;
    }
    let mut entry: LlamaQ8ScheduleRoleTelemetry = q8_schedule_role(telemetry, role);
    entry.gemm_us = entry.gemm_us.saturating_add(low_bits_of(elapsed_us));
    update_q8_schedule_role(telemetry, role, entry);
}

/// Records rows of a role that were left over after the last full group. None
/// left over is not recorded.
pub fn record_q8_schedule_i8mm_single_projection_role_tail(
    telemetry: &mut LlamaQ8ScheduleTelemetry,
    enabled: bool,
    role: &str,
    tail_rows: u64,
)
    ensures
        final(telemetry)@ == (if enabled {
            with_role_tail(old(telemetry)@, role@, tail_rows)
        } else {
            old(telemetry)@
        }),
{
    if !enabled || tail_rows == 0 {
        return ;
    }
    let mut entry: LlamaQ8ScheduleRoleTelemetry = q8_schedule_role(telemetry, role);
    entry.tail_rows = entry.tail_rows.saturating_add(tail_rows);
    update_q8_schedule_role(telemetry, role, entry);
}

/// Records how a role's work was cut into chunks. A chunk counts at least one
/// group; work without output groups is not recorded.
pub fn record_q8_schedule_i8mm_single_projection_role_scheduler(
    telemetry: &mut LlamaQ8ScheduleTelemetry,
    enabled: bool,
    role: &str,
    output_groups: u64,
    row_groups: u64,
    groups_per_chunk: u64,
)
    ensures
        final(telemetry)@ == (if enabled {
            with_role_scheduler(
                old(telemetry)@,
                role@,
                output_groups,
                row_groups,
                groups_per_chunk,
            )
        } else {
            old(telemetry)@
        }),
{
    if !enabled || output_groups == 0 {
        return ;
    }
    let per_chunk: u64 = if groups_per_chunk > 1 {
        groups_per_chunk
    } else {
        1
    };
    let mut entry: LlamaQ8ScheduleRoleTelemetry = q8_schedule_role(telemetry, role);
    entry.scheduler_chunk_calls = entry.scheduler_chunk_calls.saturating_add(1);
    entry.scheduler_output_groups = entry.scheduler_output_groups.saturating_add(output_groups);
    entry.scheduler_row_groups = entry.scheduler_row_groups.saturating_add(row_groups);
    entry.scheduler_groups_per_chunk = entry.scheduler_groups_per_chunk.saturating_add(per_chunk);
    update_q8_schedule_role(telemetry, role, entry);
}

/// The label of a route.
fn route_key(role: &str, route: &str) -> (key: String)
    ensures
        key@ == route_label(role@, route@),
{
    let mut key: String = role.to_owned();
    key.append(".");
    key.append(route);
    key
}

/// The label of a route in one layer.
fn layer_route_key(layer_index: usize, role: &str, route: &str) -> (key: String)
    ensures
        key@ == layer_route_label(layer_index as nat, role@, route@),
{
    let mut key: String = "layer_".to_owned();
    key.append(decimal_text(layer_index).as_str());
    key.append(".");
    key.append(route_key(role, route).as_str());
    key
}

/// Records one output projection through a route.
pub fn record_q8_schedule_output_projection_route_call(
    telemetry: &mut LlamaQ8ScheduleTelemetry,
    enabled: bool,
    role: &str,
    route: &str,
    projection_name: Option<&str>,
    rows: usize,
    input_width: usize,
    output_width: usize,
    elapsed_us: u128,
)
    ensures
        final(telemetry)@ == (if enabled {
            with_output_projection(
                old(telemetry)@,
                role@,
                route@,
                crate::text::option_view(projection_name),
                rows as u64,
                input_width as u64,
                output_width as u64,
                elapsed_us,
            )
        } else {
            old(telemetry)@
        }),
{
    if !enabled {
        return ;
    }
    telemetry.output_projection_calls = wrapping_sum(telemetry.output_projection_calls, 1);
    let key: String = route_key(role, route);
    let mut entry: LlamaQ8OutputProjectionRouteTelemetry =
        match telemetry.output_projection_by_route.get(key.as_str()) {
        Some(entry) => entry.duplicate(),
        None => LlamaQ8OutputProjectionRouteTelemetry::unused(role, route),
    };
    entry.calls = entry.calls.saturating_add(1);
    entry.rows = entry.rows.saturating_add(rows as u64);
    entry.input_width = input_width as u64;
    entry.output_width = output_width as u64;
    entry.elapsed_us = entry.elapsed_us.saturating_add(low_bits_of(elapsed_us));
    telemetry.output_projection_by_route.insert(key, entry);

    let layer: Option<usize> = match projection_name {
        Some(name) => q8_schedule_layer_index_for_projection_name(name),
        None => None,
    };
    if let Some(layer_index) = layer {
        let key: String = layer_route_key(layer_index, role, route);
        let mut entry: LlamaQ8OutputProjectionLayerRouteTelemetry =
            match telemetry.output_projection_by_layer_route.get(key.as_str()) {
            Some(entry) => entry.duplicate(),
            None => LlamaQ8OutputProjectionLayerRouteTelemetry::unused(layer_index, role, route),
        };
        entry.calls = entry.calls.saturating_add(1);
        entry.rows = entry.rows.saturating_add(rows as u64);
        entry.input_width = input_width as u64;
        entry.output_width = output_width as u64;
        entry.elapsed_us = entry.elapsed_us.saturating_add(low_bits_of(elapsed_us));
        telemetry.output_projection_by_layer_route.insert(key, entry);
    }
}

/// The layer that a projection name speaks of.
pub fn q8_schedule_layer_index_for_projection_name(name: &str) -> (layer: Option<usize>)
    ensures
        match layer {
            Some(n) => projection_layer(name@) == Some(n as nat),
            None => projection_layer(name@) is None,
        },
{
    let chars: Vec<char> = chars_of(name);
    let prefix: Vec<char> = chars_of("layer_");
    proof {
        reveal_strlit("layer_");
    }
    if chars.len() < 6 {
        return None;
    }
    let head: &[char] = vstd::slice::slice_subrange(chars.as_slice(), 0, 6);
    assert(head@ =~= name@.take(6));
    if !chars_eq(head, prefix.as_slice()) {
        return None;
    }
    let rest: &[char] = vstd::slice::slice_subrange(chars.as_slice(), 6, chars.len());
    assert(rest@ =~= name@.skip(6));
    let end: usize = find_char(rest, '_');
    if end == rest.len() {
        return None;
    }
    let digits: &[char] = vstd::slice::slice_subrange(rest, 0, end);
    assert(digits@ =~= rest@.take(end as int));
    match parse_digits(digits, usize::MAX as u64) {
        Some(n) => Some(n as usize),
        None => None,
    }
}

/// Records one output projection through a route, where it was timed.
pub fn record_q8_schedule_projection_route_elapsed(
    telemetry: &mut LlamaQ8ScheduleTelemetry,
    enabled: bool,
    role: &str,
    route: &str,
    projection_name: &str,
    rows: usize,
    input_width: usize,
    output_width: usize,
    elapsed_us: Option<u128>,
)
    ensures
        final(telemetry)@ == (match elapsed_us {
            Some(us) => if enabled {
                with_output_projection(
                    old(telemetry)@,
                    role@,
                    route@,
                    Some(projection_name@),
                    rows as u64,
                    input_width as u64,
                    output_width as u64,
                    us,
                )
            } else {
                old(telemetry)@
            },
            None => old(telemetry)@,
        }),
{
    if let Some(us) = elapsed_us {
        record_q8_schedule_output_projection_route_call(
            telemetry,
            enabled,
            role,
            route,
            Some(projection_name),
            rows,
            input_width,
            output_width,
            us,
        );
    }
}

/// Records that a route was denied.
pub fn record_q8_schedule_projection_route_denial(
    telemetry: &mut LlamaQ8ScheduleTelemetry,
    enabled: bool,
    role: &str,
    route: &str,
    reason: &str,
    rows: usize,
    input_width: usize,
    output_width: usize,
)
    ensures
        final(telemetry)@ == (if enabled {
            with_denial(
                old(telemetry)@,
                role@,
                route@,
                reason@,
                rows as u64,
                input_width as u64,
                output_width as u64,
            )
        } else {
            old(telemetry)@
        }),
{
    if !enabled {
        return ;
    }
    let mut key: String = route_key(role, route);
    key.append(".");
    key.append(reason);
    let mut entry: LlamaQ8ProjectionRouteDenialTelemetry =
        match telemetry.projection_route_denials.get(key.as_str()) {
        Some(entry) => entry.duplicate(),
        None => LlamaQ8ProjectionRouteDenialTelemetry::unused(role, route, reason),
    };
    entry.denials = entry.denials.saturating_add(1);
    entry.rows = entry.rows.saturating_add(rows as u64);
    entry.input_width = input_width as u64;
    entry.output_width = output_width as u64;
    telemetry.projection_route_denials.insert(key, entry);
}

} // verus!
