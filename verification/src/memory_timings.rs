//! Memory traces of forward passes and layers: samples at fixed phases, the peak of
//! the resident set, and the file reads of each phase.
//!
//! File reads are counted by counters that only grow. A trace is handed their values
//! at each phase and books what was added since the phase before.

use vstd::prelude::*;

use crate::text::text_eq;

verus! {

/// Counters of reads of file-backed Q8_0 blocks, and the state of their cache.
#[derive(Debug, Clone, Copy, PartialEq, Eq, Structural)]
pub struct Q8_0FileReadStats {
    pub read_calls: u64,
    pub read_bytes: u64,
    pub cache_hits: u64,
    pub cache_hit_bytes: u64,
    pub cache_entries: u64,
    pub cache_bytes: u64,
    pub cache_capacity_bytes: u64,
}

/// No read.
pub open spec fn zero_reads() -> Q8_0FileReadStats {
    Q8_0FileReadStats {
        read_calls: 0,
        read_bytes: 0,
        cache_hits: 0,
        cache_hit_bytes: 0,
        cache_entries: 0,
        cache_bytes: 0,
        cache_capacity_bytes: 0,
    }
}

impl Default for Q8_0FileReadStats {
    fn default() -> (stats: Self)
        ensures
            stats == zero_reads(),
    {
        Q8_0FileReadStats {
            read_calls: 0,
            read_bytes: 0,
            cache_hits: 0,
            cache_hit_bytes: 0,
            cache_entries: 0,
            cache_bytes: 0,
            cache_capacity_bytes: 0,
        }
    }
}

/// `a + b`, at most `u64::MAX`.
pub open spec fn plus(a: u64, b: u64) -> u64 {
    if a + b > u64::MAX {
        u64::MAX
    } else {
        (a + b) as u64
    }
}

/// `a - b`, at least 0.
pub open spec fn minus(a: u64, b: u64) -> u64 {
    if a >= b {
        (a - b) as u64
    } else {
        0
    }
}

/// The larger of two numbers.
pub open spec fn larger(a: u64, b: u64) -> u64 {
    if a >= b {
        a
    } else {
        b
    }
}

/// Counters add up; of the cache state the peak stays.
pub open spec fn added(a: Q8_0FileReadStats, b: Q8_0FileReadStats) -> Q8_0FileReadStats {
    Q8_0FileReadStats {
        read_calls: plus(a.read_calls, b.read_calls),
        read_bytes: plus(a.read_bytes, b.read_bytes),
        cache_hits: plus(a.cache_hits, b.cache_hits),
        cache_hit_bytes: plus(a.cache_hit_bytes, b.cache_hit_bytes),
        cache_entries: larger(a.cache_entries, b.cache_entries),
        cache_bytes: larger(a.cache_bytes, b.cache_bytes),
        cache_capacity_bytes: larger(a.cache_capacity_bytes, b.cache_capacity_bytes),
    }
}

/// What the counters gained, with the cache state of now.
pub open spec fn since(now: Q8_0FileReadStats, before: Q8_0FileReadStats) -> Q8_0FileReadStats {
    Q8_0FileReadStats {
        read_calls: minus(now.read_calls, before.read_calls),
        read_bytes: minus(now.read_bytes, before.read_bytes),
        cache_hits: minus(now.cache_hits, before.cache_hits),
        cache_hit_bytes: minus(now.cache_hit_bytes, before.cache_hit_bytes),
        ..now
    }
}

/// Nothing was read, neither from the file nor from the cache.
pub open spec fn no_reads(d: Q8_0FileReadStats) -> bool {
    d.read_calls == 0 && d.read_bytes == 0 && d.cache_hits == 0 && d.cache_hit_bytes == 0
}

/// The larger of two numbers.
fn max_of(a: u64, b: u64) -> (m: u64)
    ensures
        m == larger(a, b),
{
    if a >= b {
        a
    } else {
        b
    }
}

/// Books what the counters gained.
pub fn add_q8_file_read_stats_delta(target: &mut Q8_0FileReadStats, delta: Q8_0FileReadStats)
    ensures
        *final(target) == added(*old(target), delta),
{
    target.read_calls = target.read_calls.saturating_add(delta.read_calls);
    target.read_bytes = target.read_bytes.saturating_add(delta.read_bytes);
    target.cache_hits = target.cache_hits.saturating_add(delta.cache_hits);
    target.cache_hit_bytes = target.cache_hit_bytes.saturating_add(delta.cache_hit_bytes);
    target.cache_entries = max_of(target.cache_entries, delta.cache_entries);
    target.cache_bytes = max_of(target.cache_bytes, delta.cache_bytes);
    target.cache_capacity_bytes = max_of(target.cache_capacity_bytes, delta.cache_capacity_bytes);
}

/// What the counters gained.
pub fn q8_file_read_stats_since(now: Q8_0FileReadStats, before: Q8_0FileReadStats) -> (delta:
    Q8_0FileReadStats)
    ensures
        delta == since(now, before),
{
    Q8_0FileReadStats {
        read_calls: now.read_calls.saturating_sub(before.read_calls),
        read_bytes: now.read_bytes.saturating_sub(before.read_bytes),
        cache_hits: now.cache_hits.saturating_sub(before.cache_hits),
        cache_hit_bytes: now.cache_hit_bytes.saturating_sub(before.cache_hit_bytes),
        ..now
    }
}

/// Memory at one moment.
#[derive(Debug, Clone, Copy, PartialEq, Eq, Structural)]
pub struct LlamaMemorySample {
    pub rss_kib: Option<u64>,
    pub kv_cache_position: usize,
    pub kv_cache_allocated_sequence_length: usize,
    pub kv_cache_allocated_elements: usize,
    pub kv_cache_allocated_bytes: u64,
}

/// The file reads of one phase.
#[derive(Debug, Clone, PartialEq, Eq)]
pub struct LlamaQ8FileReadPhaseTrace {
    pub phase: String,
    pub q8_file_reads: Q8_0FileReadStats,
}

/// The file reads of one phase, by name.
pub struct PhaseReads {
    pub phase: Seq<char>,
    pub q8_file_reads: Q8_0FileReadStats,
}

impl View for LlamaQ8FileReadPhaseTrace {
    type V = PhaseReads;

    open spec fn view(&self) -> PhaseReads {
        PhaseReads { phase: self.phase@, q8_file_reads: self.q8_file_reads }
    }
}

/// What a trace of a forward pass and of a layer have in common.
#[derive(Debug, Clone, PartialEq, Eq)]
pub struct MemoryTrace {
    pub forward_passes: u64,
    pub start: LlamaMemorySample,
    pub peak_rss_kib: Option<u64>,
    pub peak_rss_delta_kib: Option<u64>,
    pub peak_phase: Option<String>,
    pub q8_file_reads: Q8_0FileReadStats,
    pub q8_file_read_phases: Vec<LlamaQ8FileReadPhaseTrace>,
    /// The counters at the last phase.
    pub reads_seen: Q8_0FileReadStats,
}

/// What a [`MemoryTrace`] reads.
#[verifier::ext_equal]
pub struct TraceModel {
    pub forward_passes: u64,
    pub start: LlamaMemorySample,
    pub peak_rss_kib: Option<u64>,
    pub peak_rss_delta_kib: Option<u64>,
    pub peak_phase: Option<Seq<char>>,
    pub q8_file_reads: Q8_0FileReadStats,
    pub phases: Seq<PhaseReads>,
    pub reads_seen: Q8_0FileReadStats,
}

/// The name of a phase, where there is one.
pub open spec fn phase_name(phase: Option<String>) -> Option<Seq<char>> {
    match phase {
        Some(p) => Some(p@),
        None => None,
    }
}

/// The reads of all phases.
pub open spec fn phase_reads(phases: Seq<LlamaQ8FileReadPhaseTrace>) -> Seq<PhaseReads> {
    phases.map_values(|p: LlamaQ8FileReadPhaseTrace| p@)
}

impl View for MemoryTrace {
    type V = TraceModel;

    open spec fn view(&self) -> TraceModel {
        TraceModel {
            forward_passes: self.forward_passes,
            start: self.start,
            peak_rss_kib: self.peak_rss_kib,
            peak_rss_delta_kib: self.peak_rss_delta_kib,
            peak_phase: phase_name(self.peak_phase),
            q8_file_reads: self.q8_file_reads,
            phases: phase_reads(self.q8_file_read_phases@),
            reads_seen: self.reads_seen,
        }
    }
}

/// The position of the first phase of a name; the length where there is none.
pub open spec fn phase_index(phases: Seq<PhaseReads>, phase: Seq<char>) -> nat
    decreases phases.len(),
{
    if phases.len() == 0 || phases[0].phase == phase {
        0
    } else {
        1 + phase_index(phases.drop_first(), phase)
    }
}

/// Reads booked to a phase: added to the phase where it is known, else in a new
/// phase at the end.
pub open spec fn with_phase(
    phases: Seq<PhaseReads>,
    phase: Seq<char>,
    delta: Q8_0FileReadStats,
) -> Seq<PhaseReads> {
    let i = phase_index(phases, phase) as int;
    if i < phases.len() {
        phases.update(
            i,
            PhaseReads { phase, q8_file_reads: added(phases[i].q8_file_reads, delta) },
        )
    } else {
        phases.push(PhaseReads { phase, q8_file_reads: delta })
    }
}

/// All phases of `more` booked, in their order.
pub open spec fn with_phases(phases: Seq<PhaseReads>, more: Seq<PhaseReads>) -> Seq<PhaseReads>
    decreases more.len(),
{
    if more.len() == 0 {
        phases
    } else {
        with_phase(
            with_phases(phases, more.drop_last()),
            more.last().phase,
            more.last().q8_file_reads,
        )
    }
}

/// The peak after `rss` was seen in `phase`. Its distance is from the start of the
/// trace.
pub open spec fn with_peak(
    m: TraceModel,
    phase: Option<Seq<char>>,
    rss: Option<u64>,
) -> TraceModel {
    match rss {
        Some(r) => if m.peak_rss_kib matches Some(peak) && r <= peak {
            m
        } else {
            TraceModel {
                peak_rss_kib: Some(r),
                peak_rss_delta_kib: match m.start.rss_kib {
                    Some(s) => Some(minus(r, s)),
                    None => None,
                },
                peak_phase: phase,
                ..m
            }
        },
        None => m,
    }
}

/// The reads since the last phase, booked to `phase`; none are not booked.
pub open spec fn with_reads(
    m: TraceModel,
    phase: Seq<char>,
    reads_now: Q8_0FileReadStats,
) -> TraceModel {
    let delta = since(reads_now, m.reads_seen);
    if no_reads(delta) {
        TraceModel { reads_seen: reads_now, ..m }
    } else {
        TraceModel {
            q8_file_reads: added(m.q8_file_reads, delta),
            phases: with_phase(m.phases, phase, delta),
            reads_seen: reads_now,
            ..m
        }
    }
}

/// A trace that starts now: its peak so far is the start.
pub open spec fn started(start: LlamaMemorySample, reads_now: Q8_0FileReadStats) -> TraceModel {
    with_peak(
        TraceModel {
            forward_passes: 1,
            start,
            peak_rss_kib: None,
            peak_rss_delta_kib: None,
            peak_phase: None,
            q8_file_reads: zero_reads(),
            phases: Seq::empty(),
            reads_seen: reads_now,
        },
        Some("start"@),
        start.rss_kib,
    )
}

/// Two traces as one: passes and reads add up, phases of one name are one, and the
/// higher peak stays, with its distance from the start of the first.
pub open spec fn merged(m: TraceModel, other: TraceModel) -> TraceModel {
    let peaked = with_peak(m, other.peak_phase, other.peak_rss_kib);
    TraceModel {
        forward_passes: plus(m.forward_passes, other.forward_passes),
        q8_file_reads: added(m.q8_file_reads, other.q8_file_reads),
        phases: with_phases(m.phases, other.phases),
        ..peaked
    }
}

proof fn lemma_phase_index(phases: Seq<PhaseReads>, phase: Seq<char>, n: int)
    requires
        0 <= n <= phases.len(),
        forall|i: int| 0 <= i < n ==> (#[trigger] phases[i]).phase != phase,
        n < phases.len() ==> phases[n].phase == phase,
    ensures
        phase_index(phases, phase) == n,
    decreases n,
{
    if n > 0 {
        lemma_phase_index(phases.drop_first(), phase, n - 1);
    }
}

/// Books reads to a phase.
fn add_phase(phases: &mut Vec<LlamaQ8FileReadPhaseTrace>, phase: &str, delta: Q8_0FileReadStats)
    ensures
        phase_reads(final(phases)@) == with_phase(phase_reads(old(phases)@), phase@, delta),
{
    let ghost before = phase_reads(phases@);
    let mut i: usize = 0;
    while i < phases.len() && !text_eq(phases[i].phase.as_str(), phase)
        invariant
            i <= phases@.len(),
            before == phase_reads(phases@),
            forall|k: int| 0 <= k < i ==> (#[trigger] before[k]).phase != phase@,
        decreases phases@.len() - i,
    {
        i = i + 1;
    }
    proof {
        lemma_phase_index(before, phase@, i as int);
    }
    if i < phases.len() {
        let mut reads: Q8_0FileReadStats = phases[i].q8_file_reads;
        add_q8_file_read_stats_delta(&mut reads, delta);
        phases.set(i, LlamaQ8FileReadPhaseTrace { phase: phase.to_owned(), q8_file_reads: reads });
    } else {
        phases.push(LlamaQ8FileReadPhaseTrace { phase: phase.to_owned(), q8_file_reads: delta });
    }
    assert(phase_reads(phases@) =~= with_phase(before, phase@, delta));
}

impl MemoryTrace {
    /// A trace that starts now. `reads_now` are the counters of file reads.
    pub fn new(start: LlamaMemorySample, reads_now: Q8_0FileReadStats) -> (trace: Self)
        ensures
            trace@ == started(start, reads_now),
    {
        let mut trace = MemoryTrace {
            forward_passes: 1,
            start,
            peak_rss_kib: None,
            peak_rss_delta_kib: None,
            peak_phase: None,
            q8_file_reads: Q8_0FileReadStats::default(),
            q8_file_read_phases: Vec::new(),
            reads_seen: reads_now,
        };
        assert(trace@.phases =~= Seq::empty());
        trace.observe_peak(Some("start"), start.rss_kib);
        trace
    }

    /// Raises the peak where `rss` is higher.
    fn observe_peak(&mut self, phase: Option<&str>, rss: Option<u64>)
        ensures
            final(self)@ == with_peak(
                old(self)@,
                crate::text::option_view(phase),
                rss,
            ),
    {
        if let Some(r) = rss {
            let higher: bool = match self.peak_rss_kib {
                Some(peak) => r > peak,
                None => true,
            };
            if higher {
                self.peak_rss_kib = Some(r);
                self.peak_rss_delta_kib = match self.start.rss_kib {
                    Some(s) => Some(r.saturating_sub(s)),
                    None => None,
                };
                self.peak_phase = match phase {
                    Some(p) => Some(p.to_owned()),
                    None => None,
                };
            }
        }
    }

    /// Books the reads since the last phase.
    pub fn observe_reads(&mut self, phase: &str, reads_now: Q8_0FileReadStats)
        ensures
            final(self)@ == with_reads(old(self)@, phase@, reads_now),
    {
        let delta: Q8_0FileReadStats = q8_file_read_stats_since(reads_now, self.reads_seen);
        self.reads_seen = reads_now;
        if !(delta.read_calls == 0 && delta.read_bytes == 0 && delta.cache_hits == 0
            && delta.cache_hit_bytes == 0) {
            add_q8_file_read_stats_delta(&mut self.q8_file_reads, delta);
            add_phase(&mut self.q8_file_read_phases, phase, delta);
        }
    }

    /// Books the sample and the reads at the end of a phase.
    pub fn observe(&mut self, phase: &str, sample: LlamaMemorySample, reads_now: Q8_0FileReadStats)
        ensures
            final(self)@ == with_reads(
                with_peak(old(self)@, Some(phase@), sample.rss_kib),
                phase@,
                reads_now,
            ),
    {
        self.observe_peak(Some(phase), sample.rss_kib);
        self.observe_reads(phase, reads_now);
    }

    /// Takes another trace in.
    pub fn merge_assign(&mut self, other: &MemoryTrace)
        ensures
            final(self)@ == merged(old(self)@, other@),
    {
        let ghost before = self@;
        let phase: Option<&str> = match &other.peak_phase {
            Some(p) => Some(p.as_str()),
            None => None,
        };
        self.observe_peak(phase, other.peak_rss_kib);
        self.forward_passes = self.forward_passes.saturating_add(other.forward_passes);
        add_q8_file_read_stats_delta(&mut self.q8_file_reads, other.q8_file_reads);
        let ghost peaked = self@;
        let mut i: usize = 0;
        assert(other@.phases.take(0) =~= Seq::empty());
        while i < other.q8_file_read_phases.len()
            invariant
                i <= other.q8_file_read_phases@.len(),
                self@ == (TraceModel {
                    phases: with_phases(before.phases, other@.phases.take(i as int)),
                    ..peaked
                }),
            decreases other.q8_file_read_phases@.len() - i,
        {
            proof {
                let more = other@.phases.take(i + 1);
                assert(more.drop_last() =~= other@.phases.take(i as int));
                assert(more.last() == other.q8_file_read_phases@[i as int]@);
            }
            add_phase(
                &mut self.q8_file_read_phases,
                other.q8_file_read_phases[i].phase.as_str(),
                other.q8_file_read_phases[i].q8_file_reads,
            );
            i = i + 1;
        }
        assert(other@.phases.take(i as int) =~= other@.phases);
    }
}

/// The memory trace of one layer.
#[derive(Debug, Clone, PartialEq, Eq)]
pub struct LlamaLayerMemoryTimings {
    pub layer_index: usize,
    pub trace: MemoryTrace,
    pub after_attention_q: Option<LlamaMemorySample>,
    pub after_attention_output: Option<LlamaMemorySample>,
}

/// The later of two samples, where there are any.
pub open spec fn later(
    sample: Option<LlamaMemorySample>,
    other: Option<LlamaMemorySample>,
) -> Option<LlamaMemorySample> {
    if other is Some {
        other
    } else {
        sample
    }
}

/// The later of two samples.
fn later_sample(
    sample: Option<LlamaMemorySample>,
    other: Option<LlamaMemorySample>,
) -> (last: Option<LlamaMemorySample>)
    ensures
        last == later(sample, other),
{
    match other {
        Some(_) => other,
        None => sample,
    }
}

impl LlamaLayerMemoryTimings {
    /// A trace of a layer that starts now.
    pub fn new(
        layer_index: usize,
        start: LlamaMemorySample,
        reads_now: Q8_0FileReadStats,
    ) -> (timings: Self)
        ensures
            timings.layer_index == layer_index,
            timings.trace@ == started(start, reads_now),
            timings.after_attention_q is None,
            timings.after_attention_output is None,
    {
        LlamaLayerMemoryTimings {
            layer_index,
            trace: MemoryTrace::new(start, reads_now),
            after_attention_q: None,
            after_attention_output: None,
        }
    }

    /// Records the end of the query projection.
    pub fn record_after_attention_q(
        &mut self,
        sample: LlamaMemorySample,
        reads_now: Q8_0FileReadStats,
    )
        ensures
            final(self).layer_index == old(self).layer_index,
            final(self).trace@ == with_reads(
                with_peak(old(self).trace@, Some("attention_q_done"@), sample.rss_kib),
                "attention_q_done"@,
                reads_now,
            ),
            final(self).after_attention_q == Some(sample),
            final(self).after_attention_output == old(self).after_attention_output,
    {
        self.trace.observe("attention_q_done", sample, reads_now);
        self.after_attention_q = Some(sample);
    }

    /// Records the end of the attention output projection.
    pub fn record_after_attention_output(
        &mut self,
        sample: LlamaMemorySample,
        reads_now: Q8_0FileReadStats,
    )
        ensures
            final(self).layer_index == old(self).layer_index,
            final(self).trace@ == with_reads(
                with_peak(old(self).trace@, Some("attention_output_done"@), sample.rss_kib),
                "attention_output_done"@,
                reads_now,
            ),
            final(self).after_attention_q == old(self).after_attention_q,
            final(self).after_attention_output == Some(sample),
    {
        self.trace.observe("attention_output_done", sample, reads_now);
        self.after_attention_output = Some(sample);
    }

    /// Records the end of the layer: the reads since the last phase.
    pub fn record_end(&mut self, reads_now: Q8_0FileReadStats)
        ensures
            final(self).layer_index == old(self).layer_index,
            final(self).trace@ == with_reads(old(self).trace@, "layer_end"@, reads_now),
            final(self).after_attention_q == old(self).after_attention_q,
            final(self).after_attention_output == old(self).after_attention_output,
    {
        self.trace.observe_reads("layer_end", reads_now);
    }

    /// Takes another trace of the layer in.
    pub fn merge_assign(&mut self, other: &LlamaLayerMemoryTimings)
        ensures
            final(self).layer_index == old(self).layer_index,
            final(self).trace@ == merged(old(self).trace@, other.trace@),
            final(self).after_attention_q == later(
                old(self).after_attention_q,
                other.after_attention_q,
            ),
            final(self).after_attention_output == later(
                old(self).after_attention_output,
                other.after_attention_output,
            ),
    {
        self.trace.merge_assign(&other.trace);
        self.after_attention_q = later_sample(self.after_attention_q, other.after_attention_q);
        self.after_attention_output =
        later_sample(self.after_attention_output, other.after_attention_output);
    }
}

/// The memory trace of a forward pass.
#[derive(Debug, Clone, PartialEq, Eq)]
pub struct LlamaForwardMemoryTimings {
    pub trace: MemoryTrace,
    pub after_layers: Option<LlamaMemorySample>,
    pub after_logits: Option<LlamaMemorySample>,
    pub end: Option<LlamaMemorySample>,
}

impl LlamaForwardMemoryTimings {
    /// A trace of a forward pass that starts now.
    pub fn new(start: LlamaMemorySample, reads_now: Q8_0FileReadStats) -> (timings: Self)
        ensures
            timings.trace@ == started(start, reads_now),
            timings.after_layers is None,
            timings.after_logits is None,
            timings.end is None,
    {
        LlamaForwardMemoryTimings {
            trace: MemoryTrace::new(start, reads_now),
            after_layers: None,
            after_logits: None,
            end: None,
        }
    }

    /// Records the end of the last layer.
    pub fn record_after_layers(&mut self, sample: LlamaMemorySample, reads_now: Q8_0FileReadStats)
        ensures
            final(self).trace@ == with_reads(
                with_peak(old(self).trace@, Some("layers_done"@), sample.rss_kib),
                "layers_done"@,
                reads_now,
            ),
            final(self).after_layers == Some(sample),
            final(self).after_logits == old(self).after_logits,
            final(self).end == old(self).end,
    {
        self.trace.observe("layers_done", sample, reads_now);
        self.after_layers = Some(sample);
    }

    /// Records that the logits are done.
    pub fn record_after_logits(&mut self, sample: LlamaMemorySample, reads_now: Q8_0FileReadStats)
        ensures
            final(self).trace@ == with_reads(
                with_peak(old(self).trace@, Some("logits_done"@), sample.rss_kib),
                "logits_done"@,
                reads_now,
            ),
            final(self).after_layers == old(self).after_layers,
            final(self).after_logits == Some(sample),
            final(self).end == old(self).end,
    {
        self.trace.observe("logits_done", sample, reads_now);
        self.after_logits = Some(sample);
    }

    /// Takes the trace of another forward pass in.
    pub fn merge_assign(&mut self, other: &LlamaForwardMemoryTimings)
        ensures
            final(self).trace@ == merged(old(self).trace@, other.trace@),
            final(self).after_layers == later(old(self).after_layers, other.after_layers),
            final(self).after_logits == later(old(self).after_logits, other.after_logits),
            final(self).end == later(old(self).end, other.end),
    {
        self.trace.merge_assign(&other.trace);
        self.after_layers = later_sample(self.after_layers, other.after_layers);
        self.after_logits = later_sample(self.after_logits, other.after_logits);
        self.end = later_sample(self.end, other.end);
    }
}

/// A counter of reads: one that adds up where traces are merged.
pub open spec fn is_counter(counter: spec_fn(Q8_0FileReadStats) -> u64) -> bool {
    forall|a: Q8_0FileReadStats, b: Q8_0FileReadStats| #[trigger]
        counter(added(a, b)) == plus(counter(a), counter(b))
}

/// Calls and bytes of reads and of cache hits are counters.
pub proof fn reads_and_hits_are_counters()
    ensures
        is_counter(|s: Q8_0FileReadStats| s.read_calls),
        is_counter(|s: Q8_0FileReadStats| s.read_bytes),
        is_counter(|s: Q8_0FileReadStats| s.cache_hits),
        is_counter(|s: Q8_0FileReadStats| s.cache_hit_bytes),
{
}

/// A counter over all phases.
pub open spec fn phase_total(
    phases: Seq<PhaseReads>,
    counter: spec_fn(Q8_0FileReadStats) -> u64,
) -> nat
    decreases phases.len(),
{
    if phases.len() == 0 {
        0
    } else {
        phase_total(phases.drop_last(), counter) + counter(phases.last().q8_file_reads) as nat
    }
}

proof fn lemma_total_update(
    phases: Seq<PhaseReads>,
    counter: spec_fn(Q8_0FileReadStats) -> u64,
    i: int,
    p: PhaseReads,
)
    requires
        0 <= i < phases.len(),
    ensures
        phase_total(phases.update(i, p), counter) + counter(phases[i].q8_file_reads) == phase_total(
            phases,
            counter,
        ) + counter(p.q8_file_reads),
        counter(phases[i].q8_file_reads) <= phase_total(phases, counter),
    decreases phases.len(),
{
    let new = phases.update(i, p);
    if i == phases.len() - 1 {
        assert(new.drop_last() =~= phases.drop_last());
    } else {
        lemma_total_update(phases.drop_last(), counter, i, p);
        assert(new.drop_last() =~= phases.drop_last().update(i, p));
    }
}

proof fn lemma_total_with_phase(
    phases: Seq<PhaseReads>,
    phase: Seq<char>,
    delta: Q8_0FileReadStats,
    counter: spec_fn(Q8_0FileReadStats) -> u64,
)
    requires
        is_counter(counter),
        phase_total(phases, counter) + counter(delta) <= u64::MAX,
    ensures
        phase_total(with_phase(phases, phase, delta), counter) == phase_total(phases, counter)
            + counter(delta),
{
    let i = phase_index(phases, phase) as int;
    if i < phases.len() {
        let p = PhaseReads { phase, q8_file_reads: added(phases[i].q8_file_reads, delta) };
        lemma_total_update(phases, counter, i, p);
        assert(counter(p.q8_file_reads) == plus(
            counter(phases[i].q8_file_reads),
            counter(delta),
        ));
    } else {
        let new = phases.push(PhaseReads { phase, q8_file_reads: delta });
        assert(new.drop_last() =~= phases);
    }
}

proof fn lemma_total_with_phases(
    phases: Seq<PhaseReads>,
    more: Seq<PhaseReads>,
    counter: spec_fn(Q8_0FileReadStats) -> u64,
)
    requires
        is_counter(counter),
        phase_total(phases, counter) + phase_total(more, counter) <= u64::MAX,
    ensures
        phase_total(with_phases(phases, more), counter) == phase_total(phases, counter)
            + phase_total(more, counter),
    decreases more.len(),
{
    if more.len() > 0 {
        lemma_total_with_phases(phases, more.drop_last(), counter);
        lemma_total_with_phase(
            with_phases(phases, more.drop_last()),
            more.last().phase,
            more.last().q8_file_reads,
            counter,
        );
    }
}

/// What is booked to the phases is what is booked in all.
pub open spec fn phases_add_up(
    m: TraceModel,
    counter: spec_fn(Q8_0FileReadStats) -> u64,
) -> bool {
    phase_total(m.phases, counter) == counter(m.q8_file_reads)
}

/// Every read is booked once in all and once to a phase: until a counter is full,
/// recording and merging keep the phases adding up to the whole.
pub proof fn phases_keep_adding_up(
    m: TraceModel,
    other: TraceModel,
    phase: Seq<char>,
    rss: Option<u64>,
    reads_now: Q8_0FileReadStats,
    counter: spec_fn(Q8_0FileReadStats) -> u64,
)
    requires
        is_counter(counter),
        phases_add_up(m, counter),
    ensures
        phases_add_up(with_peak(m, Some(phase), rss), counter),
        counter(m.q8_file_reads) + counter(since(reads_now, m.reads_seen)) <= u64::MAX
            ==> phases_add_up(with_reads(m, phase, reads_now), counter),
        phases_add_up(other, counter) && counter(m.q8_file_reads) + counter(other.q8_file_reads)
            <= u64::MAX ==> phases_add_up(merged(m, other), counter),
{
    let delta = since(reads_now, m.reads_seen);
    if counter(m.q8_file_reads) + counter(delta) <= u64::MAX {
        lemma_total_with_phase(m.phases, phase, delta, counter);
        assert(counter(added(m.q8_file_reads, delta)) == plus(
            counter(m.q8_file_reads),
            counter(delta),
        ));
    }
    if phases_add_up(other, counter) && counter(m.q8_file_reads) + counter(other.q8_file_reads)
        <= u64::MAX {
        lemma_total_with_phases(m.phases, other.phases, counter);
        assert(counter(added(m.q8_file_reads, other.q8_file_reads)) == plus(
            counter(m.q8_file_reads),
            counter(other.q8_file_reads),
        ));
    }
}

/// No two phases have the same name.
pub open spec fn phases_distinct(phases: Seq<PhaseReads>) -> bool {
    forall|i: int, j: int|
        0 <= i < j < phases.len() ==> (#[trigger] phases[i]).phase != (#[trigger] phases[j]).phase
}

proof fn lemma_phase_index_is_first(phases: Seq<PhaseReads>, phase: Seq<char>)
    ensures
        phase_index(phases, phase) <= phases.len(),
        phase_index(phases, phase) < phases.len() ==> phases[phase_index(
            phases,
            phase,
        ) as int].phase == phase,
        forall|i: int|
            0 <= i < phase_index(phases, phase) ==> (#[trigger] phases[i]).phase != phase,
    decreases phases.len(),
{
    if phases.len() > 0 && phases[0].phase != phase {
        let rest = phases.drop_first();
        lemma_phase_index_is_first(rest, phase);
        assert forall|i: int| 0 <= i < phase_index(phases, phase) implies (
        #[trigger] phases[i]).phase != phase by {
            if i > 0 {
                assert(rest[i - 1] == phases[i]);
            }
        }
    }
}

/// Recording and merging keep one entry for each phase.
pub proof fn phases_stay_distinct(
    phases: Seq<PhaseReads>,
    phase: Seq<char>,
    delta: Q8_0FileReadStats,
    more: Seq<PhaseReads>,
)
    requires
        phases_distinct(phases),
    ensures
        phases_distinct(with_phase(phases, phase, delta)),
        phases_distinct(with_phases(phases, more)),
    decreases more.len(),
{
    lemma_phase_index_is_first(phases, phase);
    if more.len() > 0 {
        phases_stay_distinct(phases, phase, delta, more.drop_last());
        phases_stay_distinct(
            with_phases(phases, more.drop_last()),
            more.last().phase,
            more.last().q8_file_reads,
            Seq::empty(),
        );
    }
}

/// The peak never falls, no sample exceeds it, and its distance is from the start.
pub proof fn peak_covers_every_sample(
    m: TraceModel,
    phase: Seq<char>,
    sample: LlamaMemorySample,
    reads_now: Q8_0FileReadStats,
)
    ensures
        ({
            let after = with_reads(
                with_peak(m, Some(phase), sample.rss_kib),
                phase,
                reads_now,
            );
            &&& sample.rss_kib matches Some(r) ==> (after.peak_rss_kib matches Some(p) && r <= p)
            &&& m.peak_rss_kib matches Some(r) ==> (after.peak_rss_kib matches Some(p) && r <= p)
            &&& after.peak_rss_kib == m.peak_rss_kib || after.peak_rss_kib == sample.rss_kib
        }),
{
}

} // verus!
