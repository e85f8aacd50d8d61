//! Schedule telemetry: recording, labels, reset and snapshot.

use camelid::labels::LabelMap;
use camelid::q8_telemetry::{
    add_q8_schedule_counter, env_flag_enabled, q8_schedule_layer_index_for_projection_name,
    q8_schedule_telemetry_enabled, record_q8_schedule_activation_pack,
    record_q8_schedule_i8mm_single_projection_role_call,
    record_q8_schedule_i8mm_single_projection_role_gemm,
    record_q8_schedule_i8mm_single_projection_role_pack,
    record_q8_schedule_i8mm_single_projection_role_scheduler,
    record_q8_schedule_i8mm_single_projection_role_tail,
    record_q8_schedule_output_projection_route_call, record_q8_schedule_projection_route_denial,
    record_q8_schedule_projection_route_elapsed, reset_q8_schedule_telemetry,
    snapshot_q8_schedule_telemetry, update_q8_schedule_peak, LlamaQ8OutputProjectionRouteTelemetry,
    LlamaQ8ScheduleRoleTelemetry, LlamaQ8ScheduleTelemetry, TelemetryGate,
    Q8_SCHEDULE_TELEMETRY_ENV,
};

#[test]
fn q8_projection_route_telemetry_records_layer_route_bucket() {
    assert_eq!(Q8_SCHEDULE_TELEMETRY_ENV, "CAMELID_Q8_SCHED_TELEMETRY");
    let mut gate = TelemetryGate::default();
    let enabled = q8_schedule_telemetry_enabled(&mut gate, Some("on"));
    let mut state = LlamaQ8ScheduleTelemetry::default();
    reset_q8_schedule_telemetry(&mut state);

    assert_eq!(
        q8_schedule_layer_index_for_projection_name("layer_21_ffn_down"),
        Some(21)
    );
    assert_eq!(q8_schedule_layer_index_for_projection_name("logits"), None);

    record_q8_schedule_output_projection_route_call(
        &mut state,
        enabled,
        "ffn_down",
        "mac_decode_consumer",
        Some("layer_21_ffn_down"),
        1,
        8192,
        3072,
        12_345,
    );
    record_q8_schedule_output_projection_route_call(
        &mut state,
        enabled,
        "logits",
        "q8_0_retained_blocks",
        Some("logits"),
        1,
        3072,
        128_256,
        6_789,
    );

    let telemetry = snapshot_q8_schedule_telemetry(&state);
    assert_eq!(telemetry.output_projection_calls, 2);
    assert_eq!(telemetry.ffn_gate_up_decode_consumer_taken, 0);
    assert_eq!(telemetry.ffn_gate_up_decode_fused_activation_taken, 0);
    assert_eq!(telemetry.ffn_gate_up_decode_consumer_activation_us, 0);
    assert_eq!(telemetry.ffn_gate_up_decode_consumer_tensor_us, 0);
    assert!(telemetry
        .output_projection_by_route
        .contains_key("ffn_down.mac_decode_consumer"));
    let layer_route = telemetry
        .output_projection_by_layer_route
        .get("layer_21.ffn_down.mac_decode_consumer")
        .expect("layer route telemetry");
    assert_eq!(layer_route.layer_index, 21);
    assert_eq!(layer_route.calls, 1);
    assert_eq!(layer_route.elapsed_us, 12_345);
    assert!(!telemetry
        .output_projection_by_layer_route
        .contains_key("layer_0.logits.q8_0_retained_blocks"));
    reset_q8_schedule_telemetry(&mut state);
    assert_eq!(state, LlamaQ8ScheduleTelemetry::default());
}

#[test]
fn flag_values() {
    for on in ["1", "true", "TRUE", "yes", "YES", "on", "ON"] {
        assert!(env_flag_enabled(Some(on)), "{on}");
    }
    for off in ["", "0", "True", "Yes", "oN", " 1", "off"] {
        assert!(!env_flag_enabled(Some(off)), "{off}");
    }
    assert!(!env_flag_enabled(None));
}

#[test]
fn the_gate_is_resolved_once() {
    let mut gate = TelemetryGate::default();
    assert!(!q8_schedule_telemetry_enabled(&mut gate, None));
    assert!(!q8_schedule_telemetry_enabled(&mut gate, Some("1")));
    let mut gate = TelemetryGate::default();
    assert!(q8_schedule_telemetry_enabled(&mut gate, Some("1")));
    assert!(q8_schedule_telemetry_enabled(&mut gate, Some("0")));
    assert!(q8_schedule_telemetry_enabled(&mut gate, None));
}

#[test]
fn layer_names() {
    let layer = q8_schedule_layer_index_for_projection_name;
    assert_eq!(layer("layer_0_q"), Some(0));
    assert_eq!(layer("layer_007_q"), Some(7));
    assert_eq!(layer("layer_3_"), Some(3));
    assert_eq!(layer("layer_3"), None);
    assert_eq!(layer("layer__q"), None);
    assert_eq!(layer("layer_+3_q"), None);
    assert_eq!(layer("layer_3a_q"), None);
    assert_eq!(layer("layer_99999999999999999999999_q"), None);
    assert_eq!(layer("Layer_3_q"), None);
    assert_eq!(layer(""), None);
}

#[test]
fn counters_and_peaks() {
    let mut counter = 5u64;
    add_q8_schedule_counter(&mut counter, false, 3);
    assert_eq!(counter, 5);
    add_q8_schedule_counter(&mut counter, true, 3);
    assert_eq!(counter, 8);
    add_q8_schedule_counter(&mut counter, true, u64::MAX);
    assert_eq!(counter, 7);
    let mut peak = 10u64;
    update_q8_schedule_peak(&mut peak, true, 4);
    assert_eq!(peak, 10);
    update_q8_schedule_peak(&mut peak, false, 40);
    assert_eq!(peak, 10);
    update_q8_schedule_peak(&mut peak, true, 40);
    assert_eq!(peak, 40);
}

#[test]
fn disabled_recording_changes_nothing() {
    let mut t = LlamaQ8ScheduleTelemetry::default();
    record_q8_schedule_activation_pack(&mut t, false, 136, 8, 0, 8, 4, 9);
    record_q8_schedule_i8mm_single_projection_role_call(&mut t, false, "q", 1, 1);
    record_q8_schedule_i8mm_single_projection_role_pack(&mut t, false, "q", 1);
    record_q8_schedule_i8mm_single_projection_role_gemm(&mut t, false, "q", 1);
    record_q8_schedule_i8mm_single_projection_role_tail(&mut t, false, "q", 1);
    record_q8_schedule_i8mm_single_projection_role_scheduler(&mut t, false, "q", 1, 1, 1);
    record_q8_schedule_output_projection_route_call(&mut t, false, "q", "r", None, 1, 1, 1, 1);
    record_q8_schedule_projection_route_elapsed(&mut t, false, "q", "r", "n", 1, 1, 1, Some(1));
    record_q8_schedule_projection_route_denial(&mut t, false, "q", "r", "why", 1, 1, 1);
    assert_eq!(t, LlamaQ8ScheduleTelemetry::default());
}

#[test]
fn activation_packs_allocate_or_reuse() {
    let mut t = LlamaQ8ScheduleTelemetry::default();
    // 8 rows make 2 groups of 4 blocks each: 8 blocks, of which none fit before.
    record_q8_schedule_activation_pack(&mut t, true, 100, 10, 0, 8, 4, 7);
    assert_eq!(t.activation_pack_calls, 1);
    assert_eq!(t.activation_pack_rows, 8);
    assert_eq!(t.activation_pack_bytes_requested, 800);
    assert_eq!(t.activation_quantize_pack_us, 7);
    assert_eq!(t.scratch_allocation_count, 1);
    assert_eq!(t.scratch_bytes_allocated, 1000);
    assert_eq!(t.scratch_bytes_reused, 0);
    assert_eq!(t.scratch_peak_capacity_bytes, 1000);
    // The same again fits; the peak stays.
    record_q8_schedule_activation_pack(&mut t, true, 100, 9, 10, 8, 4, (1u128 << 64) + 5);
    assert_eq!(t.activation_pack_calls, 2);
    assert_eq!(t.activation_quantize_pack_us, 12);
    assert_eq!(t.scratch_allocation_count, 1);
    assert_eq!(t.scratch_bytes_allocated, 1000);
    assert_eq!(t.scratch_bytes_reused, 800);
    assert_eq!(t.scratch_peak_capacity_bytes, 1000);
    // A capacity of more bytes than a machine word counts as the largest.
    record_q8_schedule_activation_pack(&mut t, true, 100, usize::MAX, 10, 0, 4, 0);
    assert_eq!(t.scratch_peak_capacity_bytes, usize::MAX as u64);
}

#[test]
fn role_readings() {
    let mut t = LlamaQ8ScheduleTelemetry::default();
    record_q8_schedule_i8mm_single_projection_role_call(&mut t, true, "ffn", 5, 2);
    record_q8_schedule_i8mm_single_projection_role_call(&mut t, true, "ffn", u64::MAX, 1);
    record_q8_schedule_i8mm_single_projection_role_pack(&mut t, true, "ffn", 11);
    record_q8_schedule_i8mm_single_projection_role_gemm(&mut t, true, "ffn", 13);
    record_q8_schedule_i8mm_single_projection_role_tail(&mut t, true, "ffn", 3);
    record_q8_schedule_i8mm_single_projection_role_scheduler(&mut t, true, "ffn", 6, 4, 0);
    record_q8_schedule_i8mm_single_projection_role_scheduler(&mut t, true, "ffn", 6, 4, 5);
    assert_eq!(
        t.i8mm_single_projection_by_role.get("ffn"),
        Some(&LlamaQ8ScheduleRoleTelemetry {
            calls: 2,
            rows: u64::MAX,
            pack_us: 11,
            gemm_us: 13,
            tail_rows: 3,
            rayon_fanout_boundaries: 3,
            scheduler_chunk_calls: 2,
            scheduler_output_groups: 12,
            scheduler_row_groups: 8,
            scheduler_groups_per_chunk: 6,
        })
    );
    // No tail, and no output groups, leave no trace of a role.
    record_q8_schedule_i8mm_single_projection_role_tail(&mut t, true, "other", 0);
    record_q8_schedule_i8mm_single_projection_role_scheduler(&mut t, true, "other", 0, 4, 5);
    assert!(!t.i8mm_single_projection_by_role.contains_key("other"));
    assert_eq!(t.i8mm_single_projection_by_role.len(), 1);
}

#[test]
fn route_readings_accumulate_and_keep_the_last_shape() {
    let mut t = LlamaQ8ScheduleTelemetry::default();
    record_q8_schedule_projection_route_elapsed(
        &mut t, true, "q", "fast", "layer_2_q", 3, 10, 20, Some(5),
    );
    record_q8_schedule_projection_route_elapsed(
        &mut t, true, "q", "fast", "layer_4_q", 4, 30, 40, Some(6),
    );
    record_q8_schedule_projection_route_elapsed(
        &mut t, true, "q", "fast", "layer_4_q", 4, 30, 40, None,
    );
    assert_eq!(t.output_projection_calls, 2);
    assert_eq!(
        t.output_projection_by_route.get("q.fast"),
        Some(&LlamaQ8OutputProjectionRouteTelemetry {
            role: "q".to_string(),
            route: "fast".to_string(),
            calls: 2,
            rows: 7,
            input_width: 30,
            output_width: 40,
            elapsed_us: 11,
        })
    );
    assert_eq!(t.output_projection_by_layer_route.len(), 2);
    let second = t.output_projection_by_layer_route.get("layer_2.q.fast").unwrap();
    assert_eq!((second.layer_index, second.calls, second.rows), (2, 1, 3));
    assert_eq!((second.role.as_str(), second.route.as_str()), ("q", "fast"));
    // The same layer again is booked to the same reading.
    record_q8_schedule_projection_route_elapsed(
        &mut t, true, "q", "fast", "layer_2_k", 5, 50, 60, Some(1),
    );
    let again = t.output_projection_by_layer_route.get("layer_2.q.fast").unwrap();
    assert_eq!((again.layer_index, again.calls, again.rows), (2, 2, 8));
    assert_eq!((again.input_width, again.output_width, again.elapsed_us), (50, 60, 6));
    // The calls of all routes are the counted projections.
    record_q8_schedule_output_projection_route_call(&mut t, true, "k", "slow", None, 1, 1, 1, 1);
    let all: u64 = ["q.fast", "k.slow"]
        .iter()
        .map(|label| t.output_projection_by_route.get(label).unwrap().calls)
        .sum();
    assert_eq!(all, t.output_projection_calls);
    assert_eq!(t.output_projection_by_layer_route.len(), 2);
}

#[test]
fn denials_are_counted_by_reason() {
    let mut t = LlamaQ8ScheduleTelemetry::default();
    record_q8_schedule_projection_route_denial(&mut t, true, "q", "fast", "rows", 2, 10, 20);
    record_q8_schedule_projection_route_denial(&mut t, true, "q", "fast", "rows", 3, 11, 21);
    record_q8_schedule_projection_route_denial(&mut t, true, "q", "fast", "cpu", 1, 12, 22);
    let rows = t.projection_route_denials.get("q.fast.rows").unwrap();
    assert_eq!(rows.denials, 2);
    assert_eq!(rows.rows, 5);
    assert_eq!((rows.input_width, rows.output_width), (11, 21));
    assert_eq!(rows.reason, "rows");
    assert_eq!(t.projection_route_denials.get("q.fast.cpu").unwrap().denials, 1);
    assert_eq!(t.output_projection_calls, 0);
}

#[test]
fn a_snapshot_is_a_copy() {
    let mut t = LlamaQ8ScheduleTelemetry::default();
    t.kquant_owner_vnni_taken = 4;
    record_q8_schedule_projection_route_denial(&mut t, true, "q", "fast", "rows", 2, 10, 20);
    let snapshot = snapshot_q8_schedule_telemetry(&t);
    assert_eq!(snapshot, t);
    reset_q8_schedule_telemetry(&mut t);
    assert_ne!(snapshot, t);
    assert_eq!(snapshot.kquant_owner_vnni_taken, 4);
    assert_eq!(t, LlamaQ8ScheduleTelemetry::default());
}

#[test]
fn label_maps_compare_by_contents() {
    let mut a: LabelMap<LlamaQ8ScheduleRoleTelemetry> = LabelMap::new();
    let mut b: LabelMap<LlamaQ8ScheduleRoleTelemetry> = LabelMap::new();
    let one = LlamaQ8ScheduleRoleTelemetry {
        calls: 1,
        ..LlamaQ8ScheduleRoleTelemetry::default()
    };
    a.insert("x".to_string(), one);
    a.insert("y".to_string(), LlamaQ8ScheduleRoleTelemetry::default());
    b.insert("y".to_string(), LlamaQ8ScheduleRoleTelemetry::default());
    assert_ne!(a, b);
    b.insert("x".to_string(), LlamaQ8ScheduleRoleTelemetry::default());
    assert_ne!(a, b);
    b.insert("x".to_string(), one);
    assert_eq!(a, b);
    assert_eq!(a.clone(), b);
    assert_eq!(b.len(), 2);
    assert!(b.get("z").is_none());
}
