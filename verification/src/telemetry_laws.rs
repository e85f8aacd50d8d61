//! Laws of the schedule telemetry: what every recording keeps.

use vstd::prelude::*;

use crate::q8_telemetry::{
    LlamaQ8ScheduleRoleTelemetry, RouteReading, TelemetryModel,
};

verus! {

/// Every reading stands under the label made of its own role, route, layer and
/// reason.
pub open spec fn labelled(m: TelemetryModel) -> bool {
    &&& forall|k: Seq<char>| #[trigger]
        m.output_projection_by_route.contains_key(k) ==> k == crate::q8_telemetry::route_label(
            m.output_projection_by_route[k].role,
            m.output_projection_by_route[k].route,
        )
    &&& forall|k: Seq<char>| #[trigger]
        m.output_projection_by_layer_route.contains_key(k) ==> k
            == crate::q8_telemetry::layer_route_label(
            m.output_projection_by_layer_route[k].layer_index as nat,
            m.output_projection_by_layer_route[k].role,
            m.output_projection_by_layer_route[k].route,
        )
    &&& forall|k: Seq<char>| #[trigger]
        m.projection_route_denials.contains_key(k) ==> k == crate::q8_telemetry::denial_label(
            m.projection_route_denials[k].role,
            m.projection_route_denials[k].route,
            m.projection_route_denials[k].reason,
        )
}

/// No reading at all is labelled.
pub proof fn reset_is_labelled()
    ensures
        labelled(crate::q8_telemetry::zero_telemetry()),
{
}

/// An output projection keeps every reading under its label, whatever its role,
/// route and name.
pub proof fn output_projection_keeps_labels(
    m: TelemetryModel,
    role: Seq<char>,
    route: Seq<char>,
    projection_name: Option<Seq<char>>,
    rows: u64,
    input_width: u64,
    output_width: u64,
    elapsed_us: u128,
)
    requires
        labelled(m),
    ensures
        labelled(
            crate::q8_telemetry::with_output_projection(
                m,
                role,
                route,
                projection_name,
                rows,
                input_width,
                output_width,
                elapsed_us,
            ),
        ),
{
    let called = crate::q8_telemetry::with_route_call(
        m,
        role,
        route,
        rows,
        input_width,
        output_width,
        elapsed_us,
    );
    assert(labelled(called));
}

/// A denial keeps every reading under its label.
pub proof fn denial_keeps_labels(
    m: TelemetryModel,
    role: Seq<char>,
    route: Seq<char>,
    reason: Seq<char>,
    rows: u64,
    input_width: u64,
    output_width: u64,
)
    requires
        labelled(m),
    ensures
        labelled(
            crate::q8_telemetry::with_denial(
                m,
                role,
                route,
                reason,
                rows,
                input_width,
                output_width,
            ),
        ),
{
}

/// Readings of roles and activation packs leave the labelled readings alone.
pub proof fn other_recordings_keep_labels(
    m: TelemetryModel,
    role: Seq<char>,
    reading: LlamaQ8ScheduleRoleTelemetry,
    block_bytes: nat,
    after_capacity: nat,
    before_capacity: nat,
    packed_rows: usize,
    blocks_per_row: nat,
    elapsed_us: u128,
)
    requires
        labelled(m),
    ensures
        labelled(crate::q8_telemetry::with_role(m, role, reading)),
        labelled(
            crate::q8_telemetry::with_activation_pack(
                m,
                block_bytes,
                after_capacity,
                before_capacity,
                packed_rows,
                blocks_per_row,
                elapsed_us,
            ),
        ),
{
}

/// The calls of all routes together.
pub open spec fn total_calls(routes: Map<Seq<char>, RouteReading>) -> nat
    decreases routes.dom().len(),
    when routes.dom().finite()
{
    if routes.dom().len() == 0 {
        0
    } else {
        let k = routes.dom().choose();
        if routes.dom().contains(k) {
            routes[k].calls as nat + total_calls(routes.remove(k))
        } else {
            0
        }
    }
}

proof fn lemma_total_without(routes: Map<Seq<char>, RouteReading>, k: Seq<char>)
    requires
        routes.dom().finite(),
        routes.contains_key(k),
    ensures
        total_calls(routes) == routes[k].calls + total_calls(routes.remove(k)),
    decreases routes.dom().len(),
{
    let c = routes.dom().choose();
    assert(routes.dom().contains(c));
    if c != k {
        let without_c = routes.remove(c);
        let without_k = routes.remove(k);
        lemma_total_without(without_c, k);
        lemma_total_without(without_k, c);
        assert(without_c.remove(k) =~= without_k.remove(c));
    }
}

/// The calls of all routes together are the counted output projections.
pub open spec fn calls_add_up(m: TelemetryModel) -> bool {
    m.output_projection_by_route.dom().finite() && m.output_projection_calls == total_calls(
        m.output_projection_by_route,
    )
}

/// Every output projection is counted once in all and once under its route:
/// until the counter is full, the calls of all routes add up to the counter.
pub proof fn calls_keep_adding_up(
    m: TelemetryModel,
    role: Seq<char>,
    route: Seq<char>,
    projection_name: Option<Seq<char>>,
    rows: u64,
    input_width: u64,
    output_width: u64,
    elapsed_us: u128,
)
    requires
        calls_add_up(m),
        m.output_projection_calls < u64::MAX,
    ensures
        calls_add_up(crate::q8_telemetry::zero_telemetry()),
        calls_add_up(
            crate::q8_telemetry::with_output_projection(
                m,
                role,
                route,
                projection_name,
                rows,
                input_width,
                output_width,
                elapsed_us,
            ),
        ),
{
    let before = m.output_projection_by_route;
    let label = crate::q8_telemetry::route_label(role, route);
    let called = crate::q8_telemetry::with_route_call(
        m,
        role,
        route,
        rows,
        input_width,
        output_width,
        elapsed_us,
    );
    let after = called.output_projection_by_route;
    lemma_total_without(after, label);
    if before.contains_key(label) {
        lemma_total_without(before, label);
        assert(after.remove(label) =~= before.remove(label));
    } else {
        assert(after.remove(label) =~= before);
    }
}

/// An output projection changes the readings of its own route and of that route
/// in one layer, and no other reading.
pub proof fn output_projection_touches_its_route_only(
    m: TelemetryModel,
    role: Seq<char>,
    route: Seq<char>,
    projection_name: Option<Seq<char>>,
    rows: u64,
    input_width: u64,
    output_width: u64,
    elapsed_us: u128,
    label: Seq<char>,
)
    ensures
        ({
            let after = crate::q8_telemetry::with_output_projection(
                m,
                role,
                route,
                projection_name,
                rows,
                input_width,
                output_width,
                elapsed_us,
            );
            &&& label != crate::q8_telemetry::route_label(role, route) ==> (
            after.output_projection_by_route.contains_key(label)
                == m.output_projection_by_route.contains_key(label)
                && after.output_projection_by_route[label] == m.output_projection_by_route[label])
            &&& after == (TelemetryModel {
                output_projection_calls: after.output_projection_calls,
                output_projection_by_route: after.output_projection_by_route,
                output_projection_by_layer_route: after.output_projection_by_layer_route,
                ..m
            })
        }),
{
}

/// The label of a route in a layer tells the layer: its digits end at the first full
/// stop.
proof fn lemma_layer_of_label(
    layer: nat,
    role: Seq<char>,
    route: Seq<char>,
    layer2: nat,
    role2: Seq<char>,
    route2: Seq<char>,
)
    requires
        crate::q8_telemetry::layer_route_label(layer, role, route)
            == crate::q8_telemetry::layer_route_label(layer2, role2, route2),
    ensures
        layer == layer2,
{
    reveal_strlit("layer_");
    reveal_strlit(".");
    let a = crate::text::decimal(layer);
    let b = crate::text::decimal(layer2);
    let label = crate::q8_telemetry::layer_route_label(layer, role, route);
    crate::text::decimal_round_trip(layer);
    crate::text::decimal_round_trip(layer2);
    let rest = label.skip(6);
    assert(rest =~= a + "."@ + crate::q8_telemetry::route_label(role, route));
    assert(rest =~= b + "."@ + crate::q8_telemetry::route_label(role2, route2));
    assert forall|i: int| 0 <= i < a.len() implies rest[i] != '.' by {
        assert(crate::text::is_digit(a[i]));
    }
    assert forall|i: int| 0 <= i < b.len() implies rest[i] != '.' by {
        assert(crate::text::is_digit(b[i]));
    }
    crate::text::lemma_index_of_char(rest, '.', a.len() as int);
    crate::text::lemma_index_of_char(rest, '.', b.len() as int);
    assert(a =~= rest.take(a.len() as int));
    assert(b =~= rest.take(b.len() as int));
}

/// An output projection is booked to a layer exactly where its name tells one. There
/// it changes the reading under that layer's label alone: the reading is of that layer,
/// counts one call more, adds rows and time, and takes the shape of this call.
pub proof fn output_projection_books_its_layer(
    m: TelemetryModel,
    role: Seq<char>,
    route: Seq<char>,
    projection_name: Option<Seq<char>>,
    rows: u64,
    input_width: u64,
    output_width: u64,
    elapsed_us: u128,
)
    requires
        labelled(m),
    ensures
        ({
            let before = m.output_projection_by_layer_route;
            let after = crate::q8_telemetry::with_output_projection(
                m,
                role,
                route,
                projection_name,
                rows,
                input_width,
                output_width,
                elapsed_us,
            ).output_projection_by_layer_route;
            let layer = match projection_name {
                Some(name) => crate::q8_telemetry::projection_layer(name),
                None => None,
            };
            match layer {
                None => after == before,
                Some(i) => {
                    let label = crate::q8_telemetry::layer_route_label(i, role, route);
                    let e = crate::q8_telemetry::value_or(
                        before,
                        label,
                        crate::q8_telemetry::zero_layer_route(i as usize, role, route),
                    );
                    let r = after[label];
                    &&& after.contains_key(label)
                    &&& after == before.insert(label, r)
                    &&& r.layer_index == i
                    &&& r.role == e.role && r.route == e.route
                    &&& r.calls == crate::q8_telemetry::capped(e.calls, 1)
                    &&& r.rows == crate::q8_telemetry::capped(e.rows, rows)
                    &&& r.elapsed_us == crate::q8_telemetry::capped(
                        e.elapsed_us,
                        crate::q8_telemetry::low_bits(elapsed_us),
                    )
                    &&& r.input_width == input_width
                    &&& r.output_width == output_width
                },
            }
        }),
{
    let before = m.output_projection_by_layer_route;
    let layer = match projection_name {
        Some(name) => crate::q8_telemetry::projection_layer(name),
        None => None,
    };
    if let Some(i) = layer {
        let label = crate::q8_telemetry::layer_route_label(i, role, route);
        if before.contains_key(label) {
            let e = before[label];
            lemma_layer_of_label(e.layer_index as nat, e.role, e.route, i, role, route);
        }
    }
}

/// The recorded peak is the largest capacity ever recorded: it never falls, no
/// recorded capacity exceeds it, and it is one of them.
pub proof fn peak_is_the_largest_capacity(
    m: TelemetryModel,
    block_bytes: nat,
    after_capacity: nat,
    before_capacity: nat,
    packed_rows: usize,
    blocks_per_row: nat,
    elapsed_us: u128,
)
    ensures
        ({
            let after = crate::q8_telemetry::with_activation_pack(
                m,
                block_bytes,
                after_capacity,
                before_capacity,
                packed_rows,
                blocks_per_row,
                elapsed_us,
            );
            let capacity = crate::q8_telemetry::block_bytes_of(after_capacity, block_bytes);
            &&& after.scratch_peak_capacity_bytes >= m.scratch_peak_capacity_bytes
            &&& after.scratch_peak_capacity_bytes >= capacity
            &&& after.scratch_peak_capacity_bytes == m.scratch_peak_capacity_bytes
                || after.scratch_peak_capacity_bytes == capacity
        }),
{
}

/// A name made of a layer number and a further part speaks of that layer.
pub proof fn layer_name_round_trip(layer: nat, part: Seq<char>)
    requires
        layer <= usize::MAX,
    ensures
        crate::q8_telemetry::projection_layer(
            "layer_"@ + crate::text::decimal(layer) + "_"@ + part,
        ) == Some(layer),
{
    reveal_strlit("layer_");
    reveal_strlit("_");
    let digits = crate::text::decimal(layer);
    let name = "layer_"@ + digits + "_"@ + part;
    crate::text::decimal_round_trip(layer);
    let rest = name.skip(6);
    assert(name.take(6) =~= "layer_"@);
    assert(rest =~= digits + "_"@ + part);
    assert forall|i: int| 0 <= i < digits.len() implies rest[i] != '_' by {
        assert(crate::text::is_digit(digits[i]));
    }
    crate::text::lemma_index_of_char(rest, '_', digits.len() as int);
    assert(rest.take(digits.len() as int) =~= digits);
}

} // verus!
