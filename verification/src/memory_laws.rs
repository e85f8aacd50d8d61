//! Laws of memory traces: what is booked to which phase, and what the peak is.

use vstd::prelude::*;

use crate::memory_timings::{LlamaMemorySample, PhaseReads, Q8_0FileReadStats, TraceModel};

verus! {

/// The sum of two counts, as far as a counter reaches.
pub open spec fn up_to_full(a: int, b: int) -> int {
    if a + b <= 0xffff_ffff_ffff_ffff {
        a + b
    } else {
        0xffff_ffff_ffff_ffff
    }
}

/// What a counter gained; one that was set back gained nothing.
pub open spec fn gained(now: int, before: int) -> int {
    if now > before {
        now - before
    } else {
        0
    }
}

/// `m` is the larger of `a` and `b`.
pub open spec fn is_larger_of(m: u64, a: u64, b: u64) -> bool {
    m >= a && m >= b && (m == a || m == b)
}

/// Read counters add up until they are full, and of the cache state the larger stays; what
/// was gained since is counted by the counters alone, with the cache state of now.
pub proof fn reads_add_up(a: Q8_0FileReadStats, b: Q8_0FileReadStats)
    ensures
        ({
            let s = crate::memory_timings::added(a, b);
            &&& s.read_calls == up_to_full(a.read_calls as int, b.read_calls as int)
            &&& s.read_bytes == up_to_full(a.read_bytes as int, b.read_bytes as int)
            &&& s.cache_hits == up_to_full(a.cache_hits as int, b.cache_hits as int)
            &&& s.cache_hit_bytes == up_to_full(a.cache_hit_bytes as int, b.cache_hit_bytes as int)
            &&& is_larger_of(s.cache_entries, a.cache_entries, b.cache_entries)
            &&& is_larger_of(s.cache_bytes, a.cache_bytes, b.cache_bytes)
            &&& is_larger_of(
                s.cache_capacity_bytes,
                a.cache_capacity_bytes,
                b.cache_capacity_bytes,
            )
        }),
        ({
            let d = crate::memory_timings::since(a, b);
            &&& d.read_calls == gained(a.read_calls as int, b.read_calls as int)
            &&& d.read_bytes == gained(a.read_bytes as int, b.read_bytes as int)
            &&& d.cache_hits == gained(a.cache_hits as int, b.cache_hits as int)
            &&& d.cache_hit_bytes == gained(a.cache_hit_bytes as int, b.cache_hit_bytes as int)
            &&& d.cache_entries == a.cache_entries
            &&& d.cache_bytes == a.cache_bytes
            &&& d.cache_capacity_bytes == a.cache_capacity_bytes
        }),
        crate::memory_timings::no_reads(a) <==> a.read_calls == 0 && a.read_bytes == 0
            && a.cache_hits == 0 && a.cache_hit_bytes == 0,
{
}

/// A counter that starts where another ended counts on: what was gained up to the second
/// time is what was gained up to the first and from there on.
pub proof fn gains_follow_on(
    first: Q8_0FileReadStats,
    second: Q8_0FileReadStats,
    third: Q8_0FileReadStats,
)
    requires
        first.read_calls <= second.read_calls <= third.read_calls,
        first.read_bytes <= second.read_bytes <= third.read_bytes,
        first.cache_hits <= second.cache_hits <= third.cache_hits,
        first.cache_hit_bytes <= second.cache_hit_bytes <= third.cache_hit_bytes,
    ensures
        ({
            let whole = crate::memory_timings::since(third, first);
            let parts = crate::memory_timings::added(
                crate::memory_timings::since(second, first),
                crate::memory_timings::since(third, second),
            );
            &&& whole.read_calls == parts.read_calls
            &&& whole.read_bytes == parts.read_bytes
            &&& whole.cache_hits == parts.cache_hits
            &&& whole.cache_hit_bytes == parts.cache_hit_bytes
        }),
{
}

/// Reads are booked to the first phase of their name, on top of what it had, or where no
/// phase has that name to a new last one. Every other phase stays as it was, in its place.
pub proof fn reads_are_booked_to_their_phase(
    phases: Seq<PhaseReads>,
    phase: Seq<char>,
    delta: Q8_0FileReadStats,
    i: int,
)
    requires
        0 <= i <= phases.len(),
        forall|k: int| 0 <= k < i ==> (#[trigger] phases[k]).phase != phase,
        i < phases.len() ==> phases[i].phase == phase,
    ensures
        ({
            let after = crate::memory_timings::with_phase(phases, phase, delta);
            &&& i < phases.len() ==> after.len() == phases.len() && after[i].q8_file_reads
                == crate::memory_timings::added(phases[i].q8_file_reads, delta)
            &&& i == phases.len() ==> after.len() == phases.len() + 1 && after[i].q8_file_reads
                == delta
            &&& after[i].phase == phase
            &&& forall|k: int|
                0 <= k < phases.len() && k != i ==> #[trigger] after[k] == phases[k]
        }),
{
    lemma_first_of_name(phases, phase, i);
}

proof fn lemma_first_of_name(phases: Seq<PhaseReads>, phase: Seq<char>, n: int)
    requires
        0 <= n <= phases.len(),
        forall|i: int| 0 <= i < n ==> (#[trigger] phases[i]).phase != phase,
        n < phases.len() ==> phases[n].phase == phase,
    ensures
        crate::memory_timings::phase_index(phases, phase) == n,
    decreases n,
{
    if n > 0 {
        lemma_first_of_name(phases.drop_first(), phase, n - 1);
    }
}

/// One of the four read counters.
pub enum Counter {
    ReadCalls,
    ReadBytes,
    CacheHits,
    CacheHitBytes,
}

/// The reading of a counter.
pub open spec fn reading(s: Q8_0FileReadStats, c: Counter) -> int {
    match c {
        Counter::ReadCalls => s.read_calls as int,
        Counter::ReadBytes => s.read_bytes as int,
        Counter::CacheHits => s.cache_hits as int,
        Counter::CacheHitBytes => s.cache_hit_bytes as int,
    }
}

/// What a counter reads over all phases of one name.
pub open spec fn booked(phases: Seq<PhaseReads>, name: Seq<char>, c: Counter) -> int
    decreases phases.len(),
{
    if phases.len() == 0 {
        0
    } else {
        booked(phases.drop_last(), name, c) + (if phases.last().phase == name {
            reading(phases.last().q8_file_reads, c)
        } else {
            0
        })
    }
}

proof fn lemma_booked_update(
    phases: Seq<PhaseReads>,
    name: Seq<char>,
    c: Counter,
    i: int,
    p: PhaseReads,
)
    requires
        0 <= i < phases.len(),
        p.phase == phases[i].phase,
    ensures
        booked(phases, name, c) >= 0,
        phases[i].phase == name ==> booked(phases, name, c) >= reading(phases[i].q8_file_reads, c),
        booked(phases.update(i, p), name, c) == booked(phases, name, c) + (if p.phase == name {
            reading(p.q8_file_reads, c) - reading(phases[i].q8_file_reads, c)
        } else {
            0
        }),
    decreases phases.len(),
{
    lemma_booked_counts(phases.drop_last(), name, c);
    let new = phases.update(i, p);
    if i == phases.len() - 1 {
        assert(new.drop_last() =~= phases.drop_last());
    } else {
        lemma_booked_update(phases.drop_last(), name, c, i, p);
        assert(new.drop_last() =~= phases.drop_last().update(i, p));
    }
}

proof fn lemma_booked_counts(phases: Seq<PhaseReads>, name: Seq<char>, c: Counter)
    ensures
        booked(phases, name, c) >= 0,
    decreases phases.len(),
{
    if phases.len() > 0 {
        lemma_booked_counts(phases.drop_last(), name, c);
    }
}

proof fn lemma_some_phase(phases: Seq<PhaseReads>, phase: Seq<char>)
    ensures
        ({
            let i = crate::memory_timings::phase_index(phases, phase);
            &&& i <= phases.len()
            &&& i < phases.len() ==> phases[i as int].phase == phase
        }),
    decreases phases.len(),
{
    if phases.len() > 0 && phases[0].phase != phase {
        lemma_some_phase(phases.drop_first(), phase);
    }
}

/// Reads that are booked to a phase are added to what its name reads, and to no other name,
/// until a counter is full.
pub proof fn booking_adds_to_the_name(
    phases: Seq<PhaseReads>,
    phase: Seq<char>,
    delta: Q8_0FileReadStats,
    name: Seq<char>,
    c: Counter,
)
    requires
        booked(phases, phase, c) + reading(delta, c) <= u64::MAX,
    ensures
        booked(crate::memory_timings::with_phase(phases, phase, delta), name, c) == booked(
            phases,
            name,
            c,
        ) + (if name == phase {
            reading(delta, c)
        } else {
            0
        }),
{
    lemma_some_phase(phases, phase);
    let i = crate::memory_timings::phase_index(phases, phase) as int;
    if i < phases.len() {
        let p = PhaseReads {
            phase,
            q8_file_reads: crate::memory_timings::added(phases[i].q8_file_reads, delta),
        };
        lemma_booked_update(phases, phase, c, i, p);
        lemma_booked_update(phases, name, c, i, p);
    } else {
        let new = phases.push(PhaseReads { phase, q8_file_reads: delta });
        assert(new.drop_last() =~= phases);
    }
}

proof fn lemma_booked_all(
    phases: Seq<PhaseReads>,
    more: Seq<PhaseReads>,
    name: Seq<char>,
    c: Counter,
)
    requires
        forall|n: Seq<char>| #[trigger] booked(phases, n, c) + booked(more, n, c) <= u64::MAX,
    ensures
        booked(crate::memory_timings::with_phases(phases, more), name, c) == booked(
            phases,
            name,
            c,
        ) + booked(more, name, c),
    decreases more.len(),
{
    if more.len() > 0 {
        let head = more.drop_last();
        let p = more.last();
        assert forall|n: Seq<char>| #[trigger] booked(phases, n, c) + booked(head, n, c)
            <= u64::MAX by {}
        lemma_booked_all(phases, head, name, c);
        lemma_booked_all(phases, head, p.phase, c);
        assert(booked(phases, p.phase, c) + booked(more, p.phase, c) <= u64::MAX);
        booking_adds_to_the_name(
            crate::memory_timings::with_phases(phases, head),
            p.phase,
            p.q8_file_reads,
            name,
            c,
        );
    }
}

/// At the end of a phase the reads since the last one are booked: to the phase and in all,
/// and not at all where there were none. From then on reads are counted from here. Passes,
/// start and peak stay as they were.
pub proof fn a_phase_books_the_reads_since_the_last(
    m: TraceModel,
    phase: Seq<char>,
    now: Q8_0FileReadStats,
    name: Seq<char>,
    c: Counter,
)
    ensures
        ({
            let after = crate::memory_timings::with_reads(m, phase, now);
            let gain = gained(reading(now, c), reading(m.reads_seen, c));
            let idle = forall|k: Counter|
                gained(#[trigger] reading(now, k), reading(m.reads_seen, k)) == 0;
            &&& after.reads_seen == now
            &&& reading(after.q8_file_reads, c) == up_to_full(reading(m.q8_file_reads, c), gain)
            &&& booked(m.phases, phase, c) + gain <= u64::MAX ==> booked(after.phases, name, c)
                == booked(m.phases, name, c) + (if name == phase {
                gain
            } else {
                0
            })
            &&& idle ==> after.phases == m.phases && after.q8_file_reads == m.q8_file_reads
            &&& after == (TraceModel {
                q8_file_reads: after.q8_file_reads,
                phases: after.phases,
                reads_seen: after.reads_seen,
                ..m
            })
        }),
{
    let delta = crate::memory_timings::since(now, m.reads_seen);
    let gain = gained(reading(now, c), reading(m.reads_seen, c));
    assert(reading(delta, c) == gain);
    if booked(m.phases, phase, c) + gain <= u64::MAX {
        booking_adds_to_the_name(m.phases, phase, delta, name, c);
    }
    if forall|k: Counter| gained(#[trigger] reading(now, k), reading(m.reads_seen, k)) == 0 {
        assert(gained(reading(now, Counter::ReadCalls), reading(m.reads_seen, Counter::ReadCalls))
            == 0);
        assert(gained(reading(now, Counter::ReadBytes), reading(m.reads_seen, Counter::ReadBytes))
            == 0);
        assert(gained(reading(now, Counter::CacheHits), reading(m.reads_seen, Counter::CacheHits))
            == 0);
        assert(gained(
            reading(now, Counter::CacheHitBytes),
            reading(m.reads_seen, Counter::CacheHitBytes),
        ) == 0);
    }
}

/// Phases one after the other book what the counters gained over all of them, however the
/// reads fell into the phases.
pub proof fn phases_book_all_reads(
    m: TraceModel,
    phase: Seq<char>,
    now: Q8_0FileReadStats,
    next_phase: Seq<char>,
    later: Q8_0FileReadStats,
    c: Counter,
)
    requires
        reading(m.reads_seen, c) <= reading(now, c) <= reading(later, c),
        reading(m.q8_file_reads, c) + reading(later, c) - reading(m.reads_seen, c) <= u64::MAX,
    ensures
        reading(
            crate::memory_timings::with_reads(
                crate::memory_timings::with_reads(m, phase, now),
                next_phase,
                later,
            ).q8_file_reads,
            c,
        ) == reading(m.q8_file_reads, c) + reading(later, c) - reading(m.reads_seen, c),
{
    a_phase_books_the_reads_since_the_last(m, phase, now, phase, c);
    a_phase_books_the_reads_since_the_last(
        crate::memory_timings::with_reads(m, phase, now),
        next_phase,
        later,
        next_phase,
        c,
    );
}

/// The peak after a sample is the larger of the peak before and of the sample, where there
/// are any. Where the sample is higher, the peak is of its phase, and its distance is from
/// the start of the trace, where that is known; else the peak stays as it was. Nothing else
/// changes.
pub proof fn the_peak_is_the_highest_sample(
    m: TraceModel,
    phase: Option<Seq<char>>,
    rss: Option<u64>,
)
    ensures
        ({
            let after = crate::memory_timings::with_peak(m, phase, rss);
            let higher = rss is Some && (m.peak_rss_kib is None || rss->0 > m.peak_rss_kib->0);
            &&& !higher ==> after == m
            &&& higher ==> {
                &&& after.peak_rss_kib == rss
                &&& after.peak_phase == phase
                &&& m.start.rss_kib is None ==> after.peak_rss_delta_kib is None
                &&& m.start.rss_kib is Some ==> after.peak_rss_delta_kib is Some
                    && after.peak_rss_delta_kib->0 == gained(
                    rss->0 as int,
                    m.start.rss_kib->0 as int,
                )
                &&& after == (TraceModel {
                    peak_rss_kib: after.peak_rss_kib,
                    peak_rss_delta_kib: after.peak_rss_delta_kib,
                    peak_phase: after.peak_phase,
                    ..m
                })
            }
        }),
{
}

/// A trace starts with one pass, with no reads and with its start as its peak, at distance
/// zero; reads are counted from there.
pub proof fn a_trace_starts_from_its_start(start: LlamaMemorySample, now: Q8_0FileReadStats)
    ensures
        ({
            let m = crate::memory_timings::started(start, now);
            &&& m.forward_passes == 1
            &&& m.start == start
            &&& m.peak_rss_kib == start.rss_kib
            &&& start.rss_kib is Some ==> m.peak_rss_delta_kib == Some(0u64) && m.peak_phase
                == Some("start"@)
            &&& start.rss_kib is None ==> m.peak_rss_delta_kib is None && m.peak_phase is None
            &&& m.phases.len() == 0
            &&& m.reads_seen == now
            &&& forall|c: Counter| #[trigger] reading(m.q8_file_reads, c) == 0
            &&& m.q8_file_reads.cache_entries == 0
            &&& m.q8_file_reads.cache_bytes == 0
            &&& m.q8_file_reads.cache_capacity_bytes == 0
        }),
{
}

/// Two traces taken together have the passes and reads of both, name by name and in all,
/// and the higher peak, told from the start of the first trace. Start and place of counting
/// stay those of the first.
pub proof fn merged_traces_have_the_reads_of_both(
    m: TraceModel,
    other: TraceModel,
    name: Seq<char>,
    c: Counter,
)
    requires
        forall|n: Seq<char>| #[trigger]
            booked(m.phases, n, c) + booked(other.phases, n, c) <= u64::MAX,
    ensures
        ({
            let after = crate::memory_timings::merged(m, other);
            let higher = other.peak_rss_kib is Some && (m.peak_rss_kib is None
                || other.peak_rss_kib->0 > m.peak_rss_kib->0);
            &&& after.forward_passes == up_to_full(
                m.forward_passes as int,
                other.forward_passes as int,
            )
            &&& reading(after.q8_file_reads, c) == up_to_full(
                reading(m.q8_file_reads, c),
                reading(other.q8_file_reads, c),
            )
            &&& booked(after.phases, name, c) == booked(m.phases, name, c) + booked(
                other.phases,
                name,
                c,
            )
            &&& after.start == m.start
            &&& after.reads_seen == m.reads_seen
            &&& higher ==> after.peak_rss_kib == other.peak_rss_kib && after.peak_phase
                == other.peak_phase && (m.start.rss_kib is Some ==> after.peak_rss_delta_kib is Some
                && after.peak_rss_delta_kib->0 == gained(
                other.peak_rss_kib->0 as int,
                m.start.rss_kib->0 as int,
            )) && (m.start.rss_kib is None ==> after.peak_rss_delta_kib is None)
            &&& !higher ==> after.peak_rss_kib == m.peak_rss_kib && after.peak_phase
                == m.peak_phase && after.peak_rss_delta_kib == m.peak_rss_delta_kib
        }),
{
    lemma_booked_all(m.phases, other.phases, name, c);
}

/// The later of two samples is the second where there is one, else the first.
pub proof fn later_samples_win(a: Option<LlamaMemorySample>, b: Option<LlamaMemorySample>)
    ensures
        b is Some ==> crate::memory_timings::later(a, b) == b,
        b is None ==> crate::memory_timings::later(a, b) == a,
{
}

} // verus!
