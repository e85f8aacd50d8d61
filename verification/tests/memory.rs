//! Memory traces: peaks, phases and merging.

use camelid::memory_timings::{
    add_q8_file_read_stats_delta, q8_file_read_stats_since, LlamaForwardMemoryTimings,
    LlamaLayerMemoryTimings, LlamaMemorySample, LlamaQ8FileReadPhaseTrace, Q8_0FileReadStats,
};

fn memory_sample(
    rss_kib: u64,
    kv_position: usize,
    allocated_sequence_length: usize,
) -> LlamaMemorySample {
    let elements = allocated_sequence_length * 2;
    LlamaMemorySample {
        rss_kib: Some(rss_kib),
        kv_cache_position: kv_position,
        kv_cache_allocated_sequence_length: allocated_sequence_length,
        kv_cache_allocated_elements: elements,
        kv_cache_allocated_bytes: (elements * std::mem::size_of::<f32>()) as u64,
    }
}

fn test_forward_memory(start: LlamaMemorySample) -> LlamaForwardMemoryTimings {
    LlamaForwardMemoryTimings::new(start, Q8_0FileReadStats::default())
}

#[test]
fn memory_timing_merge_tracks_forward_passes_and_peak_rss() {
    let mut first = test_forward_memory(memory_sample(100, 0, 0));
    first.record_after_logits(memory_sample(110, 0, 1), Q8_0FileReadStats::default());
    first.trace.q8_file_read_phases
        .push(LlamaQ8FileReadPhaseTrace {
            phase: "logits_done".to_string(),
            q8_file_reads: Q8_0FileReadStats {
                read_calls: 3,
                read_bytes: 256,
                cache_hits: 1,
                cache_hit_bytes: 64,
                cache_entries: 2,
                cache_bytes: 512,
                cache_capacity_bytes: 1024,
                ..Q8_0FileReadStats::default()
            },
        });

    let mut second = test_forward_memory(memory_sample(105, 1, 1));
    second.record_after_layers(memory_sample(140, 1, 2), Q8_0FileReadStats::default());
    second.trace.q8_file_read_phases
        .push(LlamaQ8FileReadPhaseTrace {
            phase: "layers_done".to_string(),
            q8_file_reads: Q8_0FileReadStats {
                read_calls: 4,
                read_bytes: 1024,
                cache_hits: 2,
                cache_hit_bytes: 128,
                cache_entries: 3,
                cache_bytes: 768,
                cache_capacity_bytes: 1024,
                ..Q8_0FileReadStats::default()
            },
        });
    first.trace.q8_file_reads = Q8_0FileReadStats {
        read_calls: 3,
        read_bytes: 256,
        cache_hits: 1,
        cache_hit_bytes: 64,
        cache_entries: 2,
        cache_bytes: 512,
        cache_capacity_bytes: 1024,
        ..Q8_0FileReadStats::default()
    };
    second.trace.q8_file_reads = Q8_0FileReadStats {
        read_calls: 4,
        read_bytes: 1024,
        cache_hits: 2,
        cache_hit_bytes: 128,
        cache_entries: 3,
        cache_bytes: 768,
        cache_capacity_bytes: 1024,
        ..Q8_0FileReadStats::default()
    };

    first.merge_assign(&second);

    let memory = first;
    assert_eq!(memory.trace.forward_passes, 2);
    assert_eq!(
        memory.trace.q8_file_reads,
        Q8_0FileReadStats {
            read_calls: 7,
            read_bytes: 1280,
            cache_hits: 3,
            cache_hit_bytes: 192,
            cache_entries: 3,
            cache_bytes: 768,
            cache_capacity_bytes: 1024,
            ..Q8_0FileReadStats::default()
        }
    );
    assert_eq!(memory.trace.peak_rss_kib, Some(140));
    assert_eq!(memory.trace.peak_rss_delta_kib, Some(40));
    assert_eq!(memory.trace.peak_phase.as_deref(), Some("layers_done"));
    assert_eq!(memory.trace.q8_file_read_phases.len(), 2);
    assert_eq!(memory.trace.q8_file_read_phases[0].phase, "logits_done");
    assert_eq!(
        memory.trace.q8_file_read_phases[0].q8_file_reads.cache_hit_bytes,
        64
    );
    assert_eq!(memory.trace.q8_file_read_phases[1].phase, "layers_done");
    assert_eq!(memory.trace.q8_file_read_phases[1].q8_file_reads.read_bytes, 1024);
    assert_eq!(memory.end, None);
    assert_eq!(
        memory
            .after_layers
            .unwrap()
            .kv_cache_allocated_sequence_length,
        2
    );
}

#[test]
fn q8_file_read_stats_merge_keeps_peak_cache_state() {
    let mut target = Q8_0FileReadStats {
        read_calls: 2,
        read_bytes: 128,
        cache_entries: 4,
        cache_bytes: 1024,
        cache_capacity_bytes: 2048,
        ..Q8_0FileReadStats::default()
    };
    let delta = Q8_0FileReadStats {
        read_calls: 3,
        read_bytes: 256,
        cache_hits: 1,
        cache_hit_bytes: 64,
        cache_entries: 0,
        cache_bytes: 0,
        cache_capacity_bytes: 0,
        ..Q8_0FileReadStats::default()
    };

    add_q8_file_read_stats_delta(&mut target, delta);

    assert_eq!(target.read_calls, 5);
    assert_eq!(target.read_bytes, 384);
    assert_eq!(target.cache_hits, 1);
    assert_eq!(target.cache_hit_bytes, 64);
    assert_eq!(target.cache_entries, 4);
    assert_eq!(target.cache_bytes, 1024);
    assert_eq!(target.cache_capacity_bytes, 2048);
}

/// One read of `bytes` bytes from the file.
fn record_q8_0_file_read(counters: &mut Q8_0FileReadStats, bytes: u64) {
    counters.read_calls += 1;
    counters.read_bytes += bytes;
}

#[test]
fn layer_memory_record_end_captures_tail_q8_file_read_phase() {
    let mut counters = Q8_0FileReadStats::default();
    let mut memory = LlamaLayerMemoryTimings::new(7, memory_sample(100, 0, 0), counters);

    record_q8_0_file_read(&mut counters, 32);
    memory.record_after_attention_q(memory_sample(110, 0, 0), counters);
    record_q8_0_file_read(&mut counters, 64);
    memory.record_end(counters);

    assert_eq!(memory.trace.q8_file_reads.read_calls, 2);
    assert_eq!(memory.trace.q8_file_reads.read_bytes, 96);
    assert_eq!(memory.trace.q8_file_read_phases.len(), 2);
    assert_eq!(memory.trace.q8_file_read_phases[0].phase, "attention_q_done");
    assert_eq!(memory.trace.q8_file_read_phases[0].q8_file_reads.read_calls, 1);
    assert_eq!(memory.trace.q8_file_read_phases[0].q8_file_reads.read_bytes, 32);
    assert_eq!(memory.trace.q8_file_read_phases[1].phase, "layer_end");
    assert_eq!(memory.trace.q8_file_read_phases[1].q8_file_reads.read_calls, 1);
    assert_eq!(memory.trace.q8_file_read_phases[1].q8_file_reads.read_bytes, 64);
}

#[test]
fn layer_memory_merge_accumulates_q8_file_reads() {
    let mut first = LlamaLayerMemoryTimings::new(3, memory_sample(100, 0, 0), Q8_0FileReadStats::default());
    first.trace.q8_file_reads = Q8_0FileReadStats {
        read_calls: 2,
        read_bytes: 128,
        cache_hits: 1,
        cache_hit_bytes: 32,
        cache_entries: 1,
        cache_bytes: 256,
        cache_capacity_bytes: 512,
        ..Q8_0FileReadStats::default()
    };
    let mut second = LlamaLayerMemoryTimings::new(3, memory_sample(105, 1, 1), Q8_0FileReadStats::default());
    second.trace.q8_file_reads = Q8_0FileReadStats {
        read_calls: 5,
        read_bytes: 512,
        cache_hits: 3,
        cache_hit_bytes: 96,
        cache_entries: 2,
        cache_bytes: 384,
        cache_capacity_bytes: 512,
        ..Q8_0FileReadStats::default()
    };
    first.trace.q8_file_read_phases.push(LlamaQ8FileReadPhaseTrace {
        phase: "attention_q_done".to_string(),
        q8_file_reads: Q8_0FileReadStats {
            read_calls: 2,
            read_bytes: 128,
            cache_hits: 1,
            cache_hit_bytes: 32,
            cache_entries: 1,
            cache_bytes: 256,
            cache_capacity_bytes: 512,
            ..Q8_0FileReadStats::default()
        },
    });
    second.trace.q8_file_read_phases.push(LlamaQ8FileReadPhaseTrace {
        phase: "attention_q_done".to_string(),
        q8_file_reads: Q8_0FileReadStats {
            read_calls: 3,
            read_bytes: 384,
            cache_hits: 2,
            cache_hit_bytes: 64,
            cache_entries: 2,
            cache_bytes: 384,
            cache_capacity_bytes: 512,
            ..Q8_0FileReadStats::default()
        },
    });
    second.trace.q8_file_read_phases.push(LlamaQ8FileReadPhaseTrace {
        phase: "ffn_down_done".to_string(),
        q8_file_reads: Q8_0FileReadStats {
            read_calls: 2,
            read_bytes: 128,
            cache_hits: 1,
            cache_hit_bytes: 32,
            cache_entries: 2,
            cache_bytes: 384,
            cache_capacity_bytes: 512,
            ..Q8_0FileReadStats::default()
        },
    });

    first.merge_assign(&second);

    assert_eq!(first.trace.forward_passes, 2);
    assert_eq!(
        first.trace.q8_file_reads,
        Q8_0FileReadStats {
            read_calls: 7,
            read_bytes: 640,
            cache_hits: 4,
            cache_hit_bytes: 128,
            cache_entries: 2,
            cache_bytes: 384,
            cache_capacity_bytes: 512,
            ..Q8_0FileReadStats::default()
        }
    );
    assert_eq!(first.trace.q8_file_read_phases.len(), 2);
    assert_eq!(first.trace.q8_file_read_phases[0].phase, "attention_q_done");
    assert_eq!(first.trace.q8_file_read_phases[0].q8_file_reads.read_calls, 5);
    assert_eq!(first.trace.q8_file_read_phases[0].q8_file_reads.read_bytes, 512);
    assert_eq!(first.trace.q8_file_read_phases[0].q8_file_reads.cache_hits, 3);
    assert_eq!(
        first.trace.q8_file_read_phases[0].q8_file_reads.cache_hit_bytes,
        96
    );
    assert_eq!(first.trace.q8_file_read_phases[1].phase, "ffn_down_done");
    assert_eq!(first.trace.q8_file_read_phases[1].q8_file_reads.read_calls, 2);
    assert_eq!(
        first.trace.q8_file_read_phases[1].q8_file_reads.cache_hit_bytes,
        32
    );

    first.record_after_attention_output(memory_sample(160, 1, 1), Q8_0FileReadStats::default());
    assert_eq!(first.trace.peak_rss_kib, Some(160));
    assert_eq!(first.trace.peak_rss_delta_kib, Some(60));
    assert_eq!(first.trace.peak_phase.as_deref(), Some("attention_output_done"));
}

#[test]
fn reads_since_a_phase() {
    let before = Q8_0FileReadStats {
        read_calls: 2,
        read_bytes: 100,
        cache_hits: 5,
        cache_entries: 9,
        ..Q8_0FileReadStats::default()
    };
    let now = Q8_0FileReadStats {
        read_calls: 3,
        read_bytes: 164,
        cache_hits: 4,
        cache_entries: 1,
        ..Q8_0FileReadStats::default()
    };
    assert_eq!(
        q8_file_read_stats_since(now, before),
        Q8_0FileReadStats {
            read_calls: 1,
            read_bytes: 64,
            cache_hits: 0,
            cache_entries: 1,
            ..Q8_0FileReadStats::default()
        }
    );
}

#[test]
fn a_phase_without_reads_is_not_listed() {
    let mut memory =
        LlamaForwardMemoryTimings::new(memory_sample(100, 0, 0), Q8_0FileReadStats::default());
    memory.record_after_layers(memory_sample(90, 0, 0), Q8_0FileReadStats::default());
    assert!(memory.trace.q8_file_read_phases.is_empty());
    assert_eq!(memory.trace.peak_rss_kib, Some(100));
    assert_eq!(memory.trace.peak_rss_delta_kib, Some(0));
    assert_eq!(memory.trace.peak_phase.as_deref(), Some("start"));
    assert_eq!(memory.after_layers, Some(memory_sample(90, 0, 0)));
}

#[test]
fn phases_add_up_to_all_reads() {
    let mut counters = Q8_0FileReadStats::default();
    let mut memory = LlamaLayerMemoryTimings::new(0, memory_sample(1, 0, 0), counters);
    for bytes in [8u64, 16, 32] {
        record_q8_0_file_read(&mut counters, bytes);
        memory.record_after_attention_q(memory_sample(1, 0, 0), counters);
        record_q8_0_file_read(&mut counters, bytes);
        memory.record_end(counters);
    }
    let total: u64 = memory
        .trace
        .q8_file_read_phases
        .iter()
        .map(|p| p.q8_file_reads.read_bytes)
        .sum();
    assert_eq!(total, 112);
    assert_eq!(memory.trace.q8_file_reads.read_bytes, total);
    assert_eq!(memory.trace.q8_file_read_phases.len(), 2);
}
