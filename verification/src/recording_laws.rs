//! Laws of recording: how much each recording adds to each counter, over what it read
//! before, and what it leaves alone.

use vstd::prelude::*;

use crate::q8_telemetry::{LlamaQ8ScheduleRoleTelemetry, TelemetryModel};

verus! {

/// The sum of two counts, as far as a counter reaches.
pub open spec fn filled(a: int, b: int) -> int {
    if a + b <= 0xffff_ffff_ffff_ffff {
        a + b
    } else {
        0xffff_ffff_ffff_ffff
    }
}

/// Counters that wrap add up until they are full, and then start again from zero; counters
/// that saturate add up until they are full, and stay there. Durations are kept as they
/// are where they fit a counter.
pub proof fn counters_add_up(a: u64, b: u64, x: u128, blocks: nat, block_bytes: nat)
    ensures
        a + b <= u64::MAX ==> crate::q8_telemetry::wrapped(a, b) == a + b,
        a + b > u64::MAX ==> crate::q8_telemetry::wrapped(a, b) == a + b - u64::MAX - 1,
        crate::q8_telemetry::capped(a, b) == filled(a as int, b as int),
        x <= u64::MAX ==> crate::q8_telemetry::low_bits(x) == x,
        crate::q8_telemetry::low_bits(x) == x % 0x1_0000_0000_0000_0000,
        blocks * block_bytes <= usize::MAX ==> crate::q8_telemetry::block_bytes_of(
            blocks,
            block_bytes,
        ) == blocks * block_bytes,
        blocks * block_bytes > usize::MAX ==> crate::q8_telemetry::block_bytes_of(
            blocks,
            block_bytes,
        ) == usize::MAX,
{
}

/// Bytes of `blocks` blocks, as far as an address reaches.
pub open spec fn bytes_in(blocks: int, block_bytes: int) -> int {
    if blocks * block_bytes <= usize::MAX {
        blocks * block_bytes
    } else {
        usize::MAX as int
    }
}

/// An activation pack adds one call, its rows, the bytes it asked for and its time to what
/// the counters read before. Where the buffer had fewer blocks than were asked for, it adds
/// one allocation and the bytes by which the buffer grew; else the bytes asked for count as
/// reused. The peak is the larger of what it was and of the buffer now. Nothing else
/// changes.
pub proof fn an_activation_pack_adds_to_its_counters(
    m: TelemetryModel,
    block_bytes: usize,
    after_capacity: usize,
    before_capacity: usize,
    packed_rows: usize,
    blocks_per_row: usize,
    elapsed_us: u128,
)
    ensures
        ({
            let after = crate::q8_telemetry::with_activation_pack(
                m,
                block_bytes as nat,
                after_capacity as nat,
                before_capacity as nat,
                packed_rows,
                blocks_per_row as nat,
                elapsed_us,
            );
            let blocks = packed_rows as int / 4 * blocks_per_row;
            let asked = bytes_in(blocks, block_bytes as int);
            let old_bytes = bytes_in(before_capacity as int, block_bytes as int);
            let new_bytes = bytes_in(after_capacity as int, block_bytes as int);
            let grown = if new_bytes > old_bytes {
                new_bytes - old_bytes
            } else {
                0
            };
            let full = 0x1_0000_0000_0000_0000;
            &&& after.activation_pack_calls == (m.activation_pack_calls + 1) % full
            &&& after.activation_pack_rows == (m.activation_pack_rows + packed_rows) % full
            &&& after.activation_pack_bytes_requested == (m.activation_pack_bytes_requested
                + asked) % full
            &&& after.activation_quantize_pack_us == (m.activation_quantize_pack_us + elapsed_us
                % 0x1_0000_0000_0000_0000u128) % full
            &&& before_capacity < blocks ==> {
                &&& after.scratch_allocation_count == (m.scratch_allocation_count + 1) % full
                &&& after.scratch_bytes_allocated == (m.scratch_bytes_allocated + grown) % full
                &&& after.scratch_bytes_reused == m.scratch_bytes_reused
            }
            &&& before_capacity >= blocks ==> {
                &&& after.scratch_allocation_count == m.scratch_allocation_count
                &&& after.scratch_bytes_allocated == m.scratch_bytes_allocated
                &&& after.scratch_bytes_reused == (m.scratch_bytes_reused + asked) % full
            }
            &&& after.scratch_peak_capacity_bytes >= new_bytes
            &&& after.scratch_peak_capacity_bytes >= m.scratch_peak_capacity_bytes
            &&& after.scratch_peak_capacity_bytes == new_bytes || after.scratch_peak_capacity_bytes
                == m.scratch_peak_capacity_bytes
            &&& after == (TelemetryModel {
                activation_pack_calls: after.activation_pack_calls,
                activation_pack_rows: after.activation_pack_rows,
                activation_pack_bytes_requested: after.activation_pack_bytes_requested,
                activation_quantize_pack_us: after.activation_quantize_pack_us,
                scratch_allocation_count: after.scratch_allocation_count,
                scratch_bytes_allocated: after.scratch_bytes_allocated,
                scratch_bytes_reused: after.scratch_bytes_reused,
                scratch_peak_capacity_bytes: after.scratch_peak_capacity_bytes,
                ..m
            })
        }),
{
    assert(((packed_rows / 4) as nat) * (blocks_per_row as nat) == packed_rows as int / 4
        * blocks_per_row);
    assert(packed_rows as int / 4 * blocks_per_row >= 0) by (nonlinear_arith)
        requires
            packed_rows >= 0,
            blocks_per_row >= 0,
    ;
}

/// One activation pack.
pub struct Pack {
    pub block_bytes: usize,
    pub after_capacity: usize,
    pub before_capacity: usize,
    pub packed_rows: usize,
    pub blocks_per_row: usize,
    pub elapsed_us: u128,
}

/// The telemetry after one pack.
#[verifier::opaque]
pub open spec fn after_pack(m: TelemetryModel, p: Pack) -> TelemetryModel {
    crate::q8_telemetry::with_activation_pack(
        m,
        p.block_bytes as nat,
        p.after_capacity as nat,
        p.before_capacity as nat,
        p.packed_rows,
        p.blocks_per_row as nat,
        p.elapsed_us,
    )
}

/// The telemetry after a sequence of packs.
pub open spec fn after_packs(m: TelemetryModel, packs: Seq<Pack>) -> TelemetryModel
    decreases packs.len(),
{
    if packs.len() == 0 {
        m
    } else {
        after_pack(after_packs(m, packs.drop_last()), packs.last())
    }
}

/// The blocks that a pack asks for.
pub open spec fn blocks_asked(p: Pack) -> int {
    p.packed_rows as int / 4 * p.blocks_per_row
}

/// The rows of all packs.
pub open spec fn rows_packed(packs: Seq<Pack>) -> int
    decreases packs.len(),
{
    if packs.len() == 0 {
        0
    } else {
        rows_packed(packs.drop_last()) + packs.last().packed_rows
    }
}

/// The bytes that all packs asked for.
pub open spec fn bytes_asked(packs: Seq<Pack>) -> int
    decreases packs.len(),
{
    if packs.len() == 0 {
        0
    } else {
        bytes_asked(packs.drop_last()) + bytes_in(
            blocks_asked(packs.last()),
            packs.last().block_bytes as int,
        )
    }
}

/// The time of all packs.
pub open spec fn time_taken(packs: Seq<Pack>) -> int
    decreases packs.len(),
{
    if packs.len() == 0 {
        0
    } else {
        time_taken(packs.drop_last()) + packs.last().elapsed_us % 0x1_0000_0000_0000_0000u128
    }
}

/// The packs that asked for more blocks than the buffer had.
pub open spec fn allocations_made(packs: Seq<Pack>) -> int
    decreases packs.len(),
{
    if packs.len() == 0 {
        0
    } else {
        allocations_made(packs.drop_last()) + (if packs.last().before_capacity < blocks_asked(packs.last()) {
            1int
        } else {
            0int
        })
    }
}

proof fn lemma_amounts_are_counts(packs: Seq<Pack>)
    ensures
        rows_packed(packs) >= 0,
        bytes_asked(packs) >= 0,
        time_taken(packs) >= 0,
        allocations_made(packs) >= 0,
    decreases packs.len(),
{
    if packs.len() > 0 {
        let p = packs.last();
        lemma_amounts_are_counts(packs.drop_last());
        lemma_bytes_are_counts(p);
    }
}

proof fn lemma_bytes_are_counts(p: Pack)
    ensures
        bytes_in(blocks_asked(p), p.block_bytes as int) >= 0,
{
    let b = blocks_asked(p);
    assert(p.packed_rows as int / 4 * p.blocks_per_row >= 0) by (nonlinear_arith)
        requires
            p.packed_rows >= 0,
            p.blocks_per_row >= 0,
    ;
    assert(b * p.block_bytes >= 0) by (nonlinear_arith)
        requires
            b >= 0,
            p.block_bytes >= 0,
    ;
}

proof fn lemma_pack_adds(m: TelemetryModel, p: Pack)
    ensures
        ({
            let after = after_pack(m, p);
            let full = 0x1_0000_0000_0000_0000;
            &&& after.activation_pack_calls == (m.activation_pack_calls + 1) % full
            &&& after.activation_pack_rows == (m.activation_pack_rows + p.packed_rows) % full
            &&& after.activation_pack_bytes_requested == (m.activation_pack_bytes_requested
                + bytes_in(blocks_asked(p), p.block_bytes as int)) % full
            &&& after.activation_quantize_pack_us == (m.activation_quantize_pack_us + p.elapsed_us
                % 0x1_0000_0000_0000_0000u128) % full
            &&& p.before_capacity < blocks_asked(p) ==> after.scratch_allocation_count == (
            m.scratch_allocation_count + 1) % full
            &&& p.before_capacity >= blocks_asked(p) ==> after.scratch_allocation_count
                == m.scratch_allocation_count
        }),
{
    reveal(after_pack);
    an_activation_pack_adds_to_its_counters(
        m,
        p.block_bytes,
        p.after_capacity,
        p.before_capacity,
        p.packed_rows,
        p.blocks_per_row,
        p.elapsed_us,
    );
}

/// After a sequence of packs each counter reads, over what it read before, the sum over the
/// whole sequence, until it is full.
pub proof fn packs_are_summed(m: TelemetryModel, packs: Seq<Pack>)
    ensures
        ({
            let after = after_packs(m, packs);
            &&& m.activation_pack_calls + packs.len() <= u64::MAX ==> after.activation_pack_calls
                == m.activation_pack_calls + packs.len()
            &&& m.activation_pack_rows + rows_packed(packs) <= u64::MAX
                ==> after.activation_pack_rows == m.activation_pack_rows + rows_packed(packs)
            &&& m.activation_pack_bytes_requested + bytes_asked(packs) <= u64::MAX
                ==> after.activation_pack_bytes_requested == m.activation_pack_bytes_requested
                + bytes_asked(packs)
            &&& m.activation_quantize_pack_us + time_taken(packs) <= u64::MAX
                ==> after.activation_quantize_pack_us == m.activation_quantize_pack_us
                + time_taken(packs)
            &&& m.scratch_allocation_count + allocations_made(packs) <= u64::MAX
                ==> after.scratch_allocation_count == m.scratch_allocation_count
                + allocations_made(packs)
        }),
    decreases packs.len(),
{
    if packs.len() > 0 {
        let head = packs.drop_last();
        let p = packs.last();
        packs_are_summed(m, head);
        lemma_amounts_are_counts(head);
        lemma_bytes_are_counts(p);
        lemma_pack_adds(after_packs(m, head), p);
    }
}

/// What a role reads: nothing but zeros where it has not been recorded.
pub open spec fn role_reads(
    m: TelemetryModel,
    role: Seq<char>,
) -> LlamaQ8ScheduleRoleTelemetry {
    if m.i8mm_single_projection_by_role.contains_key(role) {
        m.i8mm_single_projection_by_role[role]
    } else {
        LlamaQ8ScheduleRoleTelemetry {
            calls: 0,
            rows: 0,
            pack_us: 0,
            gemm_us: 0,
            tail_rows: 0,
            rayon_fanout_boundaries: 0,
            scheduler_chunk_calls: 0,
            scheduler_output_groups: 0,
            scheduler_row_groups: 0,
            scheduler_groups_per_chunk: 0,
        }
    }
}

/// `after` differs from `m` in the readings of one role at most, which it has.
pub open spec fn changes_its_role_only(
    m: TelemetryModel,
    after: TelemetryModel,
    role: Seq<char>,
) -> bool {
    &&& after.i8mm_single_projection_by_role.contains_key(role)
    &&& forall|other: Seq<char>|
        #![trigger after.i8mm_single_projection_by_role.contains_key(other)]
        #![trigger after.i8mm_single_projection_by_role[other]]
        other != role ==> after.i8mm_single_projection_by_role.contains_key(other)
            == m.i8mm_single_projection_by_role.contains_key(other)
            && after.i8mm_single_projection_by_role[other]
            == m.i8mm_single_projection_by_role[other]
    &&& after == (TelemetryModel {
        i8mm_single_projection_by_role: after.i8mm_single_projection_by_role,
        ..m
    })
}

/// Each recording for a role adds its own amounts to what that role read before, and
/// leaves the other amounts of the role, the other roles and all other readings as they
/// were: a call one call, its rows and its fan-outs; packing and the matrix product their
/// time; left-over rows, where there are any, themselves; work cut into chunks, where there
/// is any, one chunk call, its groups, and at least one group per chunk.
pub proof fn recordings_of_a_role_add_to_it(
    m: TelemetryModel,
    role: Seq<char>,
    rows: u64,
    fanouts: u64,
    elapsed_us: u128,
    tail_rows: u64,
    output_groups: u64,
    row_groups: u64,
    groups_per_chunk: u64,
)
    ensures
        ({
            let e = role_reads(m, role);
            let after = crate::q8_telemetry::with_role_call(m, role, rows, fanouts);
            let r = role_reads(after, role);
            &&& changes_its_role_only(m, after, role)
            &&& r.calls == filled(e.calls as int, 1)
            &&& r.rows == filled(e.rows as int, rows as int)
            &&& r.rayon_fanout_boundaries == filled(
                e.rayon_fanout_boundaries as int,
                fanouts as int,
            )
            &&& r == (LlamaQ8ScheduleRoleTelemetry {
                calls: r.calls,
                rows: r.rows,
                rayon_fanout_boundaries: r.rayon_fanout_boundaries,
                ..e
            })
        }),
        ({
            let e = role_reads(m, role);
            let after = crate::q8_telemetry::with_role_pack(m, role, elapsed_us);
            let r = role_reads(after, role);
            &&& changes_its_role_only(m, after, role)
            &&& r.pack_us == filled(
                e.pack_us as int,
                (elapsed_us % 0x1_0000_0000_0000_0000u128) as int,
            )
            &&& r == (LlamaQ8ScheduleRoleTelemetry { pack_us: r.pack_us, ..e })
        }),
        ({
            let e = role_reads(m, role);
            let after = crate::q8_telemetry::with_role_gemm(m, role, elapsed_us);
            let r = role_reads(after, role);
            &&& changes_its_role_only(m, after, role)
            &&& r.gemm_us == filled(
                e.gemm_us as int,
                (elapsed_us % 0x1_0000_0000_0000_0000u128) as int,
            )
            &&& r == (LlamaQ8ScheduleRoleTelemetry { gemm_us: r.gemm_us, ..e })
        }),
        ({
            let e = role_reads(m, role);
            let after = crate::q8_telemetry::with_role_tail(m, role, tail_rows);
            let r = role_reads(after, role);
            &&& tail_rows == 0 ==> after == m
            &&& tail_rows > 0 ==> changes_its_role_only(m, after, role)
            &&& r.tail_rows == filled(e.tail_rows as int, tail_rows as int)
            &&& r == (LlamaQ8ScheduleRoleTelemetry { tail_rows: r.tail_rows, ..e })
        }),
        ({
            let e = role_reads(m, role);
            let after = crate::q8_telemetry::with_role_scheduler(
                m,
                role,
                output_groups,
                row_groups,
                groups_per_chunk,
            );
            let r = role_reads(after, role);
            &&& output_groups == 0 ==> after == m
            &&& output_groups > 0 ==> {
                &&& changes_its_role_only(m, after, role)
                &&& r.scheduler_chunk_calls == filled(e.scheduler_chunk_calls as int, 1)
                &&& r.scheduler_output_groups == filled(
                    e.scheduler_output_groups as int,
                    output_groups as int,
                )
                &&& r.scheduler_row_groups == filled(
                    e.scheduler_row_groups as int,
                    row_groups as int,
                )
                &&& groups_per_chunk > 0 ==> r.scheduler_groups_per_chunk == filled(
                    e.scheduler_groups_per_chunk as int,
                    groups_per_chunk as int,
                )
                &&& groups_per_chunk == 0 ==> r.scheduler_groups_per_chunk == filled(
                    e.scheduler_groups_per_chunk as int,
                    1,
                )
                &&& r == (LlamaQ8ScheduleRoleTelemetry {
                    scheduler_chunk_calls: r.scheduler_chunk_calls,
                    scheduler_output_groups: r.scheduler_output_groups,
                    scheduler_row_groups: r.scheduler_row_groups,
                    scheduler_groups_per_chunk: r.scheduler_groups_per_chunk,
                    ..e
                })
            }
        }),
{
}

/// An output projection adds one call to the counter of all, and one call, its rows and its
/// time to the readings of its route, which stand under role and route with a full stop
/// between them. It leaves its own widths there. The readings of every other route stay as
/// they were, and so does all that is not about output projections.
pub proof fn an_output_projection_adds_to_its_route(
    m: TelemetryModel,
    role: Seq<char>,
    route: Seq<char>,
    projection_name: Option<Seq<char>>,
    rows: u64,
    input_width: u64,
    output_width: u64,
    elapsed_us: u128,
    other: Seq<char>,
)
    ensures
        ({
            let after = crate::q8_telemetry::with_output_projection(
                m,
                role,
                route,
                projection_name,
                rows,
                input_width,
                output_width,
                elapsed_us,
            );
            let label = role + "."@ + route;
            let known = m.output_projection_by_route.contains_key(label);
            let e = m.output_projection_by_route[label];
            let r = after.output_projection_by_route[label];
            let time = (elapsed_us % 0x1_0000_0000_0000_0000u128) as int;
            &&& after.output_projection_calls == (m.output_projection_calls + 1)
                % 0x1_0000_0000_0000_0000
            &&& after.output_projection_by_route.contains_key(label)
            &&& known ==> {
                &&& r.role == e.role && r.route == e.route
                &&& r.calls == filled(e.calls as int, 1)
                &&& r.rows == filled(e.rows as int, rows as int)
                &&& r.elapsed_us == filled(e.elapsed_us as int, time)
            }
            &&& !known ==> {
                &&& r.role == role && r.route == route
                &&& r.calls == 1 && r.rows == rows && r.elapsed_us == time
            }
            &&& r.input_width == input_width && r.output_width == output_width
            &&& other != label ==> after.output_projection_by_route.contains_key(other)
                == m.output_projection_by_route.contains_key(other)
                && after.output_projection_by_route[other] == m.output_projection_by_route[other]
            &&& after == (TelemetryModel {
                output_projection_calls: after.output_projection_calls,
                output_projection_by_route: after.output_projection_by_route,
                output_projection_by_layer_route: after.output_projection_by_layer_route,
                ..m
            })
        }),
{
}

/// A projection whose name starts with `layer_`, a number and an underscore adds one call,
/// its rows and its time to the readings of its route in that layer, too, which stand
/// under `layer_`, the number, role and route with full stops between them. The readings of
/// every other layer and route stay. A projection without such a name adds to no layer.
pub proof fn an_output_projection_adds_to_its_layer(
    m: TelemetryModel,
    role: Seq<char>,
    route: Seq<char>,
    layer: nat,
    part: Seq<char>,
    rows: u64,
    input_width: u64,
    output_width: u64,
    elapsed_us: u128,
    other: Seq<char>,
)
    requires
        layer <= usize::MAX,
    ensures
        ({
            let name = "layer_"@ + crate::text::decimal(layer) + "_"@ + part;
            let after = crate::q8_telemetry::with_output_projection(
                m,
                role,
                route,
                Some(name),
                rows,
                input_width,
                output_width,
                elapsed_us,
            );
            let label = "layer_"@ + crate::text::decimal(layer) + "."@ + (role + "."@ + route);
            let known = m.output_projection_by_layer_route.contains_key(label);
            let e = m.output_projection_by_layer_route[label];
            let r = after.output_projection_by_layer_route[label];
            let time = (elapsed_us % 0x1_0000_0000_0000_0000u128) as int;
            &&& after.output_projection_by_layer_route.contains_key(label)
            &&& known ==> {
                &&& r.layer_index == e.layer_index && r.role == e.role && r.route == e.route
                &&& r.calls == filled(e.calls as int, 1)
                &&& r.rows == filled(e.rows as int, rows as int)
                &&& r.elapsed_us == filled(e.elapsed_us as int, time)
            }
            &&& !known ==> {
                &&& r.layer_index == layer && r.role == role && r.route == route
                &&& r.calls == 1 && r.rows == rows && r.elapsed_us == time
            }
            &&& r.input_width == input_width && r.output_width == output_width
            &&& other != label ==> after.output_projection_by_layer_route.contains_key(other)
                == m.output_projection_by_layer_route.contains_key(other)
                && after.output_projection_by_layer_route[other]
                == m.output_projection_by_layer_route[other]
        }),
        crate::q8_telemetry::with_output_projection(
            m,
            role,
            route,
            None,
            rows,
            input_width,
            output_width,
            elapsed_us,
        ).output_projection_by_layer_route == m.output_projection_by_layer_route,
{
    crate::telemetry_laws::layer_name_round_trip(layer, part);
}

/// `name` is `layer_`, then a run of digits that denotes `layer`, then an underscore.
pub open spec fn names_layer(name: Seq<char>, layer: nat) -> bool {
    exists|n: int|
        #![trigger name[n]]
        6 < n < name.len() && name.take(6) == "layer_"@ && name[n] == '_' && (forall|i: int|
            6 <= i < n ==> '0' <= #[trigger] name[i] && name[i] <= '9')
            && crate::text::digits_value(name.subrange(6, n)) == layer
}

/// A name tells a layer exactly where it is `layer_`, a run of digits whose number fits,
/// and an underscore; the layer is that number. With any other name a projection is
/// booked to no layer.
pub proof fn names_tell_their_layer(name: Seq<char>, layer: nat)
    ensures
        crate::q8_telemetry::projection_layer(name) == Some(layer) <==> (names_layer(name, layer)
            && layer <= usize::MAX),
{
    reveal_strlit("layer_");
    let rest = name.skip(6);
    let end = crate::text::index_of_char(rest, '_') as int;
    crate::text_laws::the_first_place_is_found(rest, '_');
    if crate::q8_telemetry::projection_layer(name) == Some(layer) {
        let n = 6 + end;
        assert(name[n] == rest[end]);
        assert(rest.take(end) =~= name.subrange(6, n));
        assert forall|i: int| 6 <= i < n implies '0' <= #[trigger] name[i] && name[i] <= '9' by {
            assert(name[i] == rest.take(end)[i - 6]);
            assert(crate::text::is_digit(rest.take(end)[i - 6]));
        }
    }
    if names_layer(name, layer) && layer <= usize::MAX {
        let n = choose|n: int|
            #![trigger name[n]]
            6 < n < name.len() && name.take(6) == "layer_"@ && name[n] == '_' && (forall|i: int|
                6 <= i < n ==> '0' <= #[trigger] name[i] && name[i] <= '9')
                && crate::text::digits_value(name.subrange(6, n)) == layer;
        assert forall|i: int| 0 <= i < n - 6 implies rest[i] != '_' by {
            assert(rest[i] == name[i + 6]);
        }
        assert(rest[n - 6] == name[n]);
        crate::text::lemma_index_of_char(rest, '_', n - 6);
        let digits = rest.take(n - 6);
        assert(digits =~= name.subrange(6, n));
        assert forall|i: int| 0 <= i < digits.len() implies crate::text::is_digit(
            #[trigger] digits[i],
        ) by {
            assert(digits[i] == name[i + 6]);
        }
    }
}

/// A denial adds one denial and its rows to the readings that stand under role, route and
/// reason with full stops between them, and leaves its own widths there. Every other
/// reading stays as it was.
pub proof fn a_denial_adds_to_its_reason(
    m: TelemetryModel,
    role: Seq<char>,
    route: Seq<char>,
    reason: Seq<char>,
    rows: u64,
    input_width: u64,
    output_width: u64,
    other: Seq<char>,
)
    ensures
        ({
            let after = crate::q8_telemetry::with_denial(
                m,
                role,
                route,
                reason,
                rows,
                input_width,
                output_width,
            );
            let label = role + "."@ + route + "."@ + reason;
            let known = m.projection_route_denials.contains_key(label);
            let e = m.projection_route_denials[label];
            let r = after.projection_route_denials[label];
            &&& after.projection_route_denials.contains_key(label)
            &&& known ==> {
                &&& r.role == e.role && r.route == e.route && r.reason == e.reason
                &&& r.denials == filled(e.denials as int, 1)
                &&& r.rows == filled(e.rows as int, rows as int)
            }
            &&& !known ==> {
                &&& r.role == role && r.route == route && r.reason == reason
                &&& r.denials == 1 && r.rows == rows
            }
            &&& r.input_width == input_width && r.output_width == output_width
            &&& other != label ==> after.projection_route_denials.contains_key(other)
                == m.projection_route_denials.contains_key(other)
                && after.projection_route_denials[other] == m.projection_route_denials[other]
            &&& after == (TelemetryModel {
                projection_route_denials: after.projection_route_denials,
                ..m
            })
        }),
{
}

/// A flag is on where its value is 1, or one of `true`, `yes` and `on` all in small or all
/// in capital letters, and off for any other value and for none.
pub proof fn flags_are_on_by_their_words(value: Seq<char>)
    ensures
        crate::q8_telemetry::flag_enabled(Some(value)) <==> (value == "1"@ || value == "true"@
            || value == "yes"@ || value == "on"@ || value == "TRUE"@ || value == "YES"@ || value
            == "ON"@),
        !crate::q8_telemetry::flag_enabled(None),
{
}

/// Cleared telemetry reads nothing: every counter is zero, and nothing stands under any
/// label.
pub proof fn cleared_telemetry_reads_nothing(label: Seq<char>)
    ensures
        ({
            let m = crate::q8_telemetry::zero_telemetry();
            &&& m.rayon_fanout_boundaries == 0
            &&& m.i8mm_single_projection_calls == 0
            &&& m.i8mm_fused_gate_up_calls == 0
            &&& m.output_projection_calls == 0
            &&& m.ffn_gate_up_decode_consumer_taken == 0
            &&& m.ffn_gate_up_decode_fused_activation_taken == 0
            &&& m.ffn_gate_up_decode_consumer_activation_us == 0
            &&& m.ffn_gate_up_decode_consumer_tensor_us == 0
            &&& m.ffn_decode_chain_taken == 0
            &&& m.ffn_decode_chain_total_ns == 0
            &&& m.ffn_decode_chain_input_quantize_ns == 0
            &&& m.ffn_decode_chain_activation_quantize_ns == 0
            &&& m.ffn_decode_chain_down_ns == 0
            &&& m.activation_pack_calls == 0
            &&& m.activation_pack_rows == 0
            &&& m.activation_pack_bytes_requested == 0
            &&& m.scratch_allocation_count == 0
            &&& m.scratch_bytes_allocated == 0
            &&& m.scratch_bytes_reused == 0
            &&& m.scratch_peak_capacity_bytes == 0
            &&& m.activation_quantize_pack_us == 0
            &&& m.q8_gemm_compute_us == 0
            &&& m.matmul_owner_prefill_taken == 0
            &&& m.kquant_owner_prefill_taken == 0
            &&& m.kquant_owner_vnni_taken == 0
            &&& m.kquant_owner_repack8_taken == 0
            &&& m.kquant_owner_repack8_built == 0
            &&& m.kquant_owner_repack8_budget_denied == 0
            &&& m.conservative_tail_rows == 0
            &&& m.ffn_down_gemm4_prefill_candidates == 0
            &&& m.ffn_down_gemm4_prefill_reject_plan_off == 0
            &&& m.ffn_down_gemm4_prefill_reject_rows_lt4 == 0
            &&& m.ffn_down_gemm4_prefill_reject_bad_input_width == 0
            &&& m.ffn_down_gemm4_prefill_reject_no_runtime_packed == 0
            &&& m.ffn_down_gemm4_prefill_reject_non_i8_interleave == 0
            &&& m.ffn_down_decode_consumer_taken == 0
            &&& m.ffn_down_vnni_decode_candidates == 0
            &&& m.ffn_down_vnni_decode_taken == 0
            &&& m.ffn_down_vnni_decode_quantize_us == 0
            &&& m.ffn_down_vnni_decode_kernel_us == 0
            &&& m.ffn_down_vnni_decode_reject_gate_off == 0
            &&& m.ffn_down_vnni_decode_reject_cpu_feature == 0
            &&& m.ffn_down_vnni_decode_reject_no_vnni_pack == 0
            &&& m.ffn_down_vnni_decode_reject_bad_input_width == 0
            &&& m.ffn_down_vnni_decode_reject_bad_output_width == 0
            &&& m.ffn_down_vnni_decode_reject_shape_or_role == 0
            &&& m.prefill_single_token_fallbacks == 0
            &&& !m.i8mm_single_projection_by_role.contains_key(label)
            &&& !m.output_projection_by_route.contains_key(label)
            &&& !m.output_projection_by_layer_route.contains_key(label)
            &&& !m.projection_route_denials.contains_key(label)
        }),
{
}

} // verus!
