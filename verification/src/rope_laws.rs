//! Laws of rotary position embedding.

use vstd::prelude::*;

use crate::rope::{
    EnvReading, Float32, FrequencyTensor, LlamaModelConfig, RopeDirection, RopeFault, RopePairing,
    RopeParams, RopePositionMode, RopeReadings, RopeResolved, RopeScalingKind,
};

verus! {

/// A setting spelled by its label asks for what the label stands for.
pub proof fn labels_are_read_back(
    text: String,
    pairing: RopePairing,
    direction: RopeDirection,
    mode: RopePositionMode,
    kind: RopeScalingKind,
)
    ensures
        text@ == crate::rope::pairing_label(pairing) ==> crate::rope::pairing_setting(
            EnvReading::Value(text),
        ) == Ok::<RopePairing, RopeFault>(pairing),
        text@ == crate::rope::direction_label(direction) ==> crate::rope::direction_setting(
            EnvReading::Value(text),
        ) == Ok::<RopeDirection, RopeFault>(direction),
        text@ == crate::rope::position_mode_label(mode) ==> crate::rope::position_mode_setting(
            EnvReading::Value(text),
        ) == Ok::<RopePositionMode, RopeFault>(mode),
        text@ == crate::rope::scaling_kind_label(kind) ==> crate::rope::scaling_kind(Some(text))
            == Ok::<RopeScalingKind, RopeFault>(kind),
{
    reveal_strlit("adjacent_even_odd");
    reveal_strlit("split_half");
    reveal_strlit("forward");
    reveal_strlit("inverse");
    reveal_strlit("zero_based");
    reveal_strlit("one_based");
    reveal_strlit("none");
    reveal_strlit("linear");
    reveal_strlit("llama3");
    reveal_strlit("yarn");
    reveal_strlit("");
    assert("adjacent_even_odd"@.len() != "split_half"@.len());
    assert("forward"@[0] != "inverse"@[0]);
    assert("zero_based"@[0] != "one_based"@[0]);
    if text@ == crate::rope::scaling_kind_label(kind) {
        assert(!crate::text::is_white_space(text@[0]));
        assert(!crate::text::is_white_space(text@.last()));
        assert(crate::text::trimmed(text@) == text@);
        assert("linear"@[1] != "llama3"@[1]);
        assert("none"@[0] != "yarn"@[0]);
    }
}

/// A setting that was valid once holds, whatever the variable becomes; an invalid
/// one is read again.
pub proof fn resolved_settings_hold(first: EnvReading, later: EnvReading)
    ensures
        crate::rope::direction_now(
            crate::rope::found(crate::rope::direction_now(None, first)),
            later,
        ) == (if crate::rope::direction_setting(first) is Ok {
            crate::rope::direction_setting(first)
        } else {
            crate::rope::direction_setting(later)
        }),
        crate::rope::position_mode_now(
            crate::rope::found(crate::rope::position_mode_now(None, first)),
            later,
        ) == (if crate::rope::position_mode_setting(first) is Ok {
            crate::rope::position_mode_setting(first)
        } else {
            crate::rope::position_mode_setting(later)
        }),
{
}

/// An accepted scaling has a usable factor, and all that its kind computes with.
pub proof fn accepted_scalings_are_usable(config: LlamaModelConfig)
    ensures
        crate::rope::scaling_for(config) matches Ok(scaling) ==> {
            &&& scaling.factor.positive_finite()
            &&& scaling.kind is Llama3 || scaling.kind is Yarn ==> (
            scaling.original_context_length matches Some(n) && n > 0)
            &&& scaling.kind is Llama3 ==> (scaling.low_freq_factor matches Some(low)
                && scaling.high_freq_factor matches Some(high) && low.positive_finite()
                && high.positive_finite() && low.bits < high.bits)
        },
{
}

/// An accepted frequency tensor has one factor for each pair, all of them usable.
pub proof fn accepted_factors_are_usable(dims: Seq<usize>, data: Seq<Float32>, rope_dim: nat, i: int)
    requires
        crate::rope::frequency_fault(dims, data, rope_dim) is None,
        0 <= i < data.len(),
    ensures
        dims.len() == 1,
        2 * dims[0] == rope_dim,
        data[i].positive_finite(),
{
    lemma_no_bad_factor(data, i);
}

proof fn lemma_no_bad_factor(data: Seq<Float32>, i: int)
    requires
        crate::rope::first_bad_factor(data) is None,
        0 <= i < data.len(),
    ensures
        data[i].positive_finite(),
    decreases data.len(),
{
    if i < data.len() - 1 {
        lemma_no_bad_factor(data.drop_last(), i);
    }
}

/// An angle has one value.
pub open spec fn angle_single<A, F: Fn(RopeParams, usize, usize) -> A>(angle: F) -> bool {
    forall|p: RopeParams, effective: usize, pair: usize, a: A, b: A|
        #![trigger call_ensures(angle, (p, effective, pair), a), call_ensures(
            angle,
            (p, effective, pair),
            b,
        )]
        call_ensures(angle, (p, effective, pair), a) && call_ensures(
            angle,
            (p, effective, pair),
            b,
        ) ==> a == b
}

/// An angle has one value, which is the same for any number of heads.
pub open spec fn angle_shared<A, F: Fn(RopeParams, usize, usize) -> A>(angle: F) -> bool {
    forall|p: RopeParams, q: RopeParams, effective: usize, pair: usize, a: A, b: A|
        #![trigger call_ensures(angle, (p, effective, pair), a), call_ensures(
            angle,
            (q, effective, pair),
            b,
        )]
        p.with_heads(1) == q.with_heads(1) && call_ensures(angle, (p, effective, pair), a)
            && call_ensures(angle, (q, effective, pair), b) ==> a == b
}

/// A rotation of two elements has one result.
pub open spec fn rotate_single<T, A, R: Fn(RopeDirection, A, T, T) -> (T, T)>(rotate: R) -> bool {
    forall|direction: RopeDirection, a: A, x0: T, x1: T, y: (T, T), z: (T, T)|
        #![trigger call_ensures(rotate, (direction, a, x0, x1), y), call_ensures(
            rotate,
            (direction, a, x0, x1),
            z,
        )]
        call_ensures(rotate, (direction, a, x0, x1), y) && call_ensures(
            rotate,
            (direction, a, x0, x1),
            z,
        ) ==> y == z
}

/// The angle by which a pair was rotated.
spec fn angle_of_pair<T, A, F: Fn(RopeParams, usize, usize) -> A, R: Fn(RopeDirection, A, T, T) -> (
    T,
    T,
)>(
    params: RopeParams,
    angle: F,
    rotate: R,
    pair: int,
    before: Seq<T>,
    after: Seq<T>,
) -> A {
    choose|a: A|
        #![trigger call_ensures(angle, (params, params.effective_position(), pair as usize), a)]
        call_ensures(angle, (params, params.effective_position(), pair as usize), a)
            && forall|head: int|
            0 <= head < params.shape.head_count
                ==> #[trigger] crate::rope_rotation::head_rotated(
                params,
                rotate,
                a,
                head,
                pair,
                before,
                after,
            )
}

/// Where angles and rotations have one value, a row has one rotation.
pub proof fn a_row_has_one_rotation<
    T,
    A,
    F: Fn(RopeParams, usize, usize) -> A,
    R: Fn(RopeDirection, A, T, T) -> (T, T),
>(params: RopeParams, angle: F, rotate: R, before: Seq<T>, after: Seq<T>, other: Seq<T>)
    requires
        params.shape.wf(),
        angle_single(angle),
        rotate_single(rotate),
        crate::rope_rotation::row_rotated(params, angle, rotate, before, after),
        crate::rope_rotation::row_rotated(params, angle, rotate, before, other),
    ensures
        after == other,
{
    let shape = params.shape;
    assert forall|i: int| 0 <= i < shape.width() implies after[i] == other[i] by {
        if shape.rotates(i) {
            crate::rope_rotation::pairs_cover_the_rotating_elements(shape, i);
            let head = shape.head_of(i);
            let pair = shape.pair_of(i);
            let (d0, d1) = shape.pair_dims(head, pair);
            assert(crate::rope_rotation::pair_rotated(params, angle, rotate, pair, before, after));
            assert(crate::rope_rotation::pair_rotated(params, angle, rotate, pair, before, other));
            let a = angle_of_pair(params, angle, rotate, pair, before, after);
            let b = angle_of_pair(params, angle, rotate, pair, before, other);
            assert(a == b);
            assert(
                crate::rope_rotation::head_rotated(params, rotate, a, head, pair, before, after)
            );
            assert(
                crate::rope_rotation::head_rotated(params, rotate, b, head, pair, before, other)
            );
            let x = (params.direction, a, before[d0], before[d1]);
            assert(call_ensures(rotate, x, (after[d0], after[d1])));
            assert(call_ensures(rotate, x, (other[d0], other[d1])));
        } else {
            assert(after[i] == before[i]);
            assert(other[i] == before[i]);
        }
    }
    assert(after =~= other);
}

/// Row `r` of a batch is planned as a single row at the position `base + r` is: the
/// one is accepted exactly where the other is, resolves the same settings, and rotates
/// by the same parameters, each at its own position.
pub proof fn batch_rows_are_planned_as_rows(
    name: Seq<char>,
    rows: usize,
    width: usize,
    base: usize,
    head_count: usize,
    config: LlamaModelConfig,
    rope_freqs: Option<&FrequencyTensor>,
    readings: RopeReadings,
    resolved: RopeResolved,
    r: usize,
)
    requires
        base + r <= usize::MAX,
    ensures
        ({
            let batch = crate::rope_plan::batch_rotation_for(
                name,
                seq![rows, width],
                base,
                head_count,
                config,
                rope_freqs,
                readings,
                resolved,
            );
            let single = crate::rope_plan::row_rotation_for(
                name,
                seq![1usize, width],
                (base + r) as usize,
                head_count,
                config,
                rope_freqs,
                readings,
                resolved,
            );
            &&& batch.1 == single.1
            &&& batch.0 is Ok == single.0 is Ok
            &&& batch.0 matches Ok(params) ==> single.0 == Ok::<RopeParams, RopeFault>(
                params.at((base + r) as usize),
            )
        }),
{
}

/// Row `r` of a rotated batch is the row rotated alone at its own position: the same
/// relation holds of it, and where angles and rotations have one value it is the same
/// row, element by element.
pub proof fn batch_rows_are_rows<
    T,
    A,
    F: Fn(RopeParams, usize, usize) -> A,
    R: Fn(RopeDirection, A, T, T) -> (T, T),
>(
    params: RopeParams,
    rows: int,
    angle: F,
    rotate: R,
    before: Seq<T>,
    after: Seq<T>,
    r: int,
    alone: Seq<T>,
)
    requires
        params.shape.wf(),
        crate::rope_plan::rows_rotated(params, rows, angle, rotate, before, after),
        0 <= r < rows,
        crate::rope_rotation::row_rotated(
            params.at((params.position + r) as usize),
            angle,
            rotate,
            crate::rope_plan::tensor_row(before, params.shape.width(), r),
            alone,
        ),
    ensures
        crate::rope_rotation::row_rotated(
            params.at((params.position + r) as usize),
            angle,
            rotate,
            crate::rope_plan::tensor_row(before, params.shape.width(), r),
            crate::rope_plan::tensor_row(after, params.shape.width(), r),
        ),
        angle_single(angle) && rotate_single(rotate) ==> crate::rope_plan::tensor_row(
            after,
            params.shape.width(),
            r,
        ) == alone,
{
    let width = params.shape.width();
    let row = crate::rope_plan::tensor_row(after, width, r);
    if angle_single(angle) && rotate_single(rotate) {
        a_row_has_one_rotation(
            params.at((params.position + r) as usize),
            angle,
            rotate,
            crate::rope_plan::tensor_row(before, width, r),
            row,
            alone,
        );
    }
}

/// A batch of one row is planned and rotated as a single row is.
pub proof fn a_batch_of_one_is_a_row<
    T,
    A,
    F: Fn(RopeParams, usize, usize) -> A,
    R: Fn(RopeDirection, A, T, T) -> (T, T),
>(
    name: Seq<char>,
    width: usize,
    position: usize,
    head_count: usize,
    config: LlamaModelConfig,
    rope_freqs: Option<&FrequencyTensor>,
    readings: RopeReadings,
    resolved: RopeResolved,
    angle: F,
    rotate: R,
    before: Seq<T>,
    after: Seq<T>,
)
    requires
        head_count > 0,
        before.len() == width,
    ensures
        ({
            let dims = seq![1usize, width];
            let single = crate::rope_plan::row_rotation_for(
                name,
                dims,
                position,
                head_count,
                config,
                rope_freqs,
                readings,
                resolved,
            );
            let batch = crate::rope_plan::batch_rotation_for(
                name,
                dims,
                position,
                head_count,
                config,
                rope_freqs,
                readings,
                resolved,
            );
            &&& single.1 == batch.1
            &&& single.0 is Ok == batch.0 is Ok
            &&& single.0 matches Ok(params) ==> single.0 == batch.0 && (
            crate::rope_rotation::row_rotated(params, angle, rotate, before, after)
                == crate::rope_plan::rows_rotated(params, 1, angle, rotate, before, after))
        }),
{
    let dims = seq![1usize, width];
    let single = crate::rope_plan::row_rotation_for(
        name,
        dims,
        position,
        head_count,
        config,
        rope_freqs,
        readings,
        resolved,
    );
    if let Ok(params) = single.0 {
        crate::rope_plan::plans_fit_their_rows(
            "RoPE input"@,
            width,
            position,
            head_count,
            config,
            rope_freqs,
            readings,
            resolved,
        );
        let w = params.shape.width();
        assert(params.at((params.position + 0) as usize) == params);
        assert(crate::rope_plan::tensor_row(before, w, 0) =~= before);
        if after.len() == w {
            assert(crate::rope_plan::tensor_row(after, w, 0) =~= after);
        }
    }
}

/// What a table describes is how every head of a row is rotated: the table of a
/// position and the rotation of a row at that position are planned alike, whatever the
/// number of heads.
pub proof fn tables_are_planned_as_rows(
    name: Seq<char>,
    position: usize,
    head_dim: usize,
    head_count: usize,
    width: usize,
    config: LlamaModelConfig,
    rope_freqs: Option<&FrequencyTensor>,
    readings: RopeReadings,
    resolved: RopeResolved,
    params: RopeParams,
)
    requires
        head_count > 0,
        width == head_count * head_dim,
        crate::rope_plan::table_for(
            position,
            head_dim,
            config,
            rope_freqs,
            readings,
            resolved,
        ).0 == Ok::<Option<RopeParams>, RopeFault>(Some(params)),
    ensures
        crate::rope_plan::row_rotation_for(
            name,
            seq![1usize, width],
            position,
            head_count,
            config,
            rope_freqs,
            readings,
            resolved,
        ).0 == Ok::<RopeParams, RopeFault>(params.with_heads(head_count)),
        params == params.with_heads(1),
        params.direction is Forward,
        params.with_heads(head_count).shape.wf(),
        params.with_heads(head_count).shape.width() == width,
{
    vstd::arithmetic::mul::lemma_mul_is_commutative(head_count as int, head_dim as int);
    vstd::arithmetic::div_mod::lemma_fundamental_div_mod_converse(
        width as int,
        head_count as int,
        head_dim as int,
        0,
    );
    crate::rope_plan::plans_fit_their_rows(
        "RoPE input"@,
        width,
        position,
        head_count,
        config,
        rope_freqs,
        readings,
        resolved,
    );
}

/// A device that rotates by the tables agrees with the rotation of a row: where an
/// angle has one value for every number of heads, entry `k` of the tables is the angle
/// of pair `k`, and in each head the row holds after the rotation what rotating that
/// pair forward by that entry gives.
pub proof fn tables_agree_with_rotation<
    T,
    F: Fn(RopeParams, usize, usize) -> (T, T),
    R: Fn(RopeDirection, (T, T), T, T) -> (T, T),
>(
    params: RopeParams,
    angle: F,
    rotate: R,
    cos: Seq<T>,
    sin: Seq<T>,
    split_half_pairing: bool,
    before: Seq<T>,
    after: Seq<T>,
    head: int,
    k: int,
)
    requires
        params.shape.wf(),
        params.direction is Forward,
        split_half_pairing == (params.shape.pairing is SplitHalf),
        angle_shared(angle),
        crate::rope_plan::tables_hold(params.with_heads(1), 1, angle, cos, sin),
        crate::rope_rotation::row_rotated(params, angle, rotate, before, after),
        0 <= head < params.shape.head_count,
        0 <= k < params.shape.pairs(),
    ensures
        ({
            let half = cos.len() as int;
            let start = head * params.shape.head_dim;
            let (i, j) = if split_half_pairing {
                (start + k, start + k + half)
            } else {
                (start + 2 * k, start + 2 * k + 1)
            };
            &&& half == params.shape.pairs()
            &&& call_ensures(
                angle,
                (params, params.effective_position(), k as usize),
                (cos[k], sin[k]),
            )
            &&& call_ensures(
                rotate,
                (RopeDirection::Forward, (cos[k], sin[k]), before[i], before[j]),
                (after[i], after[j]),
            )
        }),
{
    let one = params.with_heads(1);
    let pairs = params.shape.pairs();
    assert(1 * pairs == pairs && 0 * pairs == 0) by (nonlinear_arith);
    assert(one.at((one.position + 0) as usize) == one);
    assert(
        crate::rope_plan::table_entry(
            one.at((one.position + 0) as usize),
            angle,
            cos,
            sin,
            0 * pairs + k,
            k,
        )
    );
    assert(crate::rope_rotation::pair_rotated(params, angle, rotate, k, before, after));
    let a = angle_of_pair(params, angle, rotate, k, before, after);
    assert(one.with_heads(1) == params.with_heads(1));
    assert(a == (cos[k], sin[k]));
    assert(crate::rope_rotation::head_rotated(params, rotate, a, head, k, before, after));
}

/// Position `p` of prefill tables is what decode tables hold for that position,
/// and is planned as they are: the same relation holds of it, and where an angle has
/// one value the entries are equal.
pub proof fn prefill_tables_are_decode_tables<T, F: Fn(RopeParams, usize, usize) -> (T, T)>(
    head_dim: usize,
    config: LlamaModelConfig,
    rope_freqs: Option<&FrequencyTensor>,
    readings: RopeReadings,
    resolved: RopeResolved,
    params: RopeParams,
    positions: int,
    angle: F,
    cos: Seq<T>,
    sin: Seq<T>,
    p: usize,
    decode_cos: Seq<T>,
    decode_sin: Seq<T>,
)
    requires
        crate::rope_plan::table_for(0, head_dim, config, rope_freqs, readings, resolved).0 == Ok::<
            Option<RopeParams>,
            RopeFault,
        >(Some(params)),
        crate::rope_plan::tables_hold(params, positions, angle, cos, sin),
        p < positions,
        crate::rope_plan::tables_hold(params.at(p), 1, angle, decode_cos, decode_sin),
    ensures
        ({
            let pairs = params.shape.pairs();
            let row_cos = crate::rope_plan::tensor_row(cos, pairs, p as int);
            let row_sin = crate::rope_plan::tensor_row(sin, pairs, p as int);
            &&& cos.len() == positions * pairs && sin.len() == positions * pairs
            &&& crate::rope_plan::table_for(
                p,
                head_dim,
                config,
                rope_freqs,
                readings,
                resolved,
            ).0 == Ok::<Option<RopeParams>, RopeFault>(Some(params.at(p)))
            &&& crate::rope_plan::tables_hold(params.at(p), 1, angle, row_cos, row_sin)
            &&& angle_single(angle) ==> row_cos == decode_cos && row_sin == decode_sin
        }),
{
    let pairs = params.shape.pairs();
    let at = params.at(p);
    let row_cos = crate::rope_plan::tensor_row(cos, pairs, p as int);
    let row_sin = crate::rope_plan::tensor_row(sin, pairs, p as int);
    assert(0 <= p * pairs && p * pairs + pairs <= positions * pairs) by (nonlinear_arith)
        requires
            0 <= p < positions,
            0 <= pairs,
    ;
    assert(1 * pairs == pairs && 0 * pairs == 0) by (nonlinear_arith);
    assert(at.at((at.position + 0) as usize) == at);
    assert forall|q: int, pair: int| 0 <= q < 1 && 0 <= pair < pairs implies
        #[trigger] crate::rope_plan::table_entry(
        at.at((at.position + q) as usize),
        angle,
        row_cos,
        row_sin,
        q * pairs + pair,
        pair,
    ) by {
        assert(at.at((at.position + q) as usize) == at);
        assert(q * pairs == 0) by (nonlinear_arith)
            requires
                q == 0,
        ;
        assert(
            crate::rope_plan::table_entry(
                params.at((params.position + p) as usize),
                angle,
                cos,
                sin,
                p * pairs + pair,
                pair,
            )
        );
    }
    if angle_single(angle) {
        assert forall|k: int| 0 <= k < pairs implies row_cos[k] == decode_cos[k] && row_sin[k]
            == decode_sin[k] by {
            assert(
                crate::rope_plan::table_entry(
                    at.at((at.position + 0) as usize),
                    angle,
                    row_cos,
                    row_sin,
                    0 * pairs + k,
                    k,
                )
            );
            assert(
                crate::rope_plan::table_entry(
                    at.at((at.position + 0) as usize),
                    angle,
                    decode_cos,
                    decode_sin,
                    0 * pairs + k,
                    k,
                )
            );
        }
        assert(row_cos =~= decode_cos);
        assert(row_sin =~= decode_sin);
    }
}

/// Where the inverse rotation of two elements undoes the forward one, and an angle
/// has one value, rotating a row forward and then inversely gives the row back.
pub proof fn inverse_undoes_forward<
    T,
    A,
    F: Fn(RopeParams, usize, usize) -> A,
    R: Fn(RopeDirection, A, T, T) -> (T, T),
>(
    params: RopeParams,
    angle: F,
    rotate: R,
    before: Seq<T>,
    rotated: Seq<T>,
    after: Seq<T>,
)
    requires
        params.shape.wf(),
        forall|pair: usize, a: A, b: A|
            #![trigger call_ensures(
                angle,
                (RopeParams { direction: RopeDirection::Forward, ..params }, params.effective_position(), pair),
                a,
            ), call_ensures(
                angle,
                (RopeParams { direction: RopeDirection::Inverse, ..params }, params.effective_position(), pair),
                b,
            )]
            call_ensures(
                angle,
                (
                    RopeParams { direction: RopeDirection::Forward, ..params },
                    params.effective_position(),
                    pair,
                ),
                a,
            ) && call_ensures(
                angle,
                (RopeParams { direction: RopeDirection::Inverse, ..params }, params.effective_position(), pair),
                b,
            ) ==> a == b,
        forall|a: A, x0: T, x1: T, y: (T, T), z: (T, T)|
            #![trigger call_ensures(rotate, (RopeDirection::Forward, a, x0, x1), y), call_ensures(
                rotate,
                (RopeDirection::Inverse, a, y.0, y.1),
                z,
            )]
            call_ensures(rotate, (RopeDirection::Forward, a, x0, x1), y) && call_ensures(
                rotate,
                (RopeDirection::Inverse, a, y.0, y.1),
                z,
            ) ==> z == (x0, x1),
        crate::rope_rotation::row_rotated(
            (RopeParams { direction: RopeDirection::Forward, ..params }),
            angle,
            rotate,
            before,
            rotated,
        ),
        crate::rope_rotation::row_rotated(
            (RopeParams { direction: RopeDirection::Inverse, ..params }),
            angle,
            rotate,
            rotated,
            after,
        ),
    ensures
        after == before,
{
    let forward = RopeParams { direction: RopeDirection::Forward, ..params };
    let inverse = RopeParams { direction: RopeDirection::Inverse, ..params };
    let shape = params.shape;
    assert forall|i: int| 0 <= i < shape.width() implies after[i] == before[i] by {
        if shape.rotates(i) {
            crate::rope_rotation::pairs_cover_the_rotating_elements(shape, i);
            let head = shape.head_of(i);
            let pair = shape.pair_of(i);
            let (d0, d1) = shape.pair_dims(head, pair);
            assert(
                crate::rope_rotation::pair_rotated(forward, angle, rotate, pair, before, rotated)
            );
            assert(
                crate::rope_rotation::pair_rotated(inverse, angle, rotate, pair, rotated, after)
            );
            let a = choose|a: A|
                #![trigger call_ensures(angle, (forward, forward.effective_position(), pair as usize), a)]
                call_ensures(angle, (forward, forward.effective_position(), pair as usize), a)
                    && forall|h: int|
                    0 <= h < shape.head_count ==> #[trigger] crate::rope_rotation::head_rotated(
                        forward,
                        rotate,
                        a,
                        h,
                        pair,
                        before,
                        rotated,
                    );
            let b = choose|b: A|
                #![trigger call_ensures(angle, (inverse, inverse.effective_position(), pair as usize), b)]
                call_ensures(angle, (inverse, inverse.effective_position(), pair as usize), b)
                    && forall|h: int|
                    0 <= h < shape.head_count ==> #[trigger] crate::rope_rotation::head_rotated(
                        inverse,
                        rotate,
                        b,
                        h,
                        pair,
                        rotated,
                        after,
                    );
            assert(a == b);
            assert(
                crate::rope_rotation::head_rotated(forward, rotate, a, head, pair, before, rotated)
            );
            assert(
                crate::rope_rotation::head_rotated(inverse, rotate, b, head, pair, rotated, after)
            );
            let y = (rotated[d0], rotated[d1]);
            let z = (after[d0], after[d1]);
            assert(call_ensures(rotate, (RopeDirection::Forward, a, before[d0], before[d1]), y));
            assert(call_ensures(rotate, (RopeDirection::Inverse, a, y.0, y.1), z));
        } else {
            assert(after[i] == rotated[i]);
            assert(rotated[i] == before[i]);
        }
    }
    assert(after =~= before);
}

} // verus!
