//! Rotations of whole tensors, and the tables of angles that a device rotates by.
//!
//! Each function first checks shape, metadata and overrides, in a fixed order, and
//! reports the first fault; a rotation is made only where there is none.

use vstd::prelude::*;

use crate::rope::{
    diagnostic_rope_direction, diagnostic_rope_position_mode, rope_pairing_for_config,
    rope_scaling_from_config, validate_rope_frequency_tensor, EnvReading, Float32, FrequencyTensor,
    LlamaModelConfig, RopeDirection, RopeError, RopeFault, RopePairing, RopeParams,
    RopePositionMode, RopeReadings, RopeResolved, RopeScaling, FLOAT_10000,
};
use crate::rope_rotation::{apply_rope_to_row, RopeShape};
use crate::text::{decimal_text, list_text};

verus! {

/// The number of rotating elements: the metadata's count, else the head dimension
/// as a 32-bit number.
pub open spec fn rope_dim_of(config: LlamaModelConfig, head_dim: nat) -> nat {
    match config.rope_dimension_count {
        Some(count) => count as nat,
        None => head_dim % 0x1_0000_0000,
    }
}

/// The number of rotating elements and the frequency base of a model.
pub open spec fn dimensions_for(
    config: LlamaModelConfig,
    head_dim: nat,
) -> Result<(usize, Float32), RopeFault> {
    let rope_dim = rope_dim_of(config, head_dim);
    let freq_base = crate::rope::float_or(config.rope_freq_base, FLOAT_10000);
    if rope_dim == 0 || rope_dim > head_dim || rope_dim % 2 != 0 {
        Err(
            RopeFault::InvalidModelMetadata(
                "RoPE dimension count "@ + crate::text::decimal(rope_dim)
                    + " must be even and within head dimension "@ + crate::text::decimal(head_dim),
            ),
        )
    } else if !freq_base.positive_finite() {
        Err(RopeFault::FrequencyBase(freq_base))
    } else {
        Ok((rope_dim as usize, freq_base))
    }
}

/// What is wrong with a frequency tensor, where there is one.
pub open spec fn factors_fault(
    rope_freqs: Option<&FrequencyTensor>,
    rope_dim: nat,
) -> Option<RopeFault> {
    match rope_freqs {
        Some(freqs) => crate::rope::frequency_fault(freqs.dims@, freqs.data@, rope_dim),
        None => None,
    }
}

/// Positions count from one.
pub open spec fn one_based(resolved: RopeResolved, readings: RopeReadings) -> bool {
    match resolved.position_mode {
        Some(mode) => mode is OneBased,
        None => match readings.position_mode {
            EnvReading::Value(v) => v@ == "one_based"@,
            _ => false,
        },
    }
}

/// Pairing, direction and position mode of a rotation, and what is resolved after
/// they were looked up in this order up to the first fault.
pub open spec fn overrides_for(
    config: LlamaModelConfig,
    readings: RopeReadings,
    resolved: RopeResolved,
) -> (Result<(RopePairing, RopeDirection, RopePositionMode), RopeFault>, RopeResolved) {
    match crate::rope::pairing_for(config, readings.pairing) {
        Err(fault) => (Err(fault), resolved),
        Ok(pairing) => match crate::rope::direction_now(resolved.direction, readings.direction) {
            Err(fault) => (Err(fault), resolved),
            Ok(direction) => {
                let once = RopeResolved { direction: Some(direction), ..resolved };
                match crate::rope::position_mode_now(
                    resolved.position_mode,
                    readings.position_mode,
                ) {
                    Err(fault) => (Err(fault), once),
                    Ok(mode) => (
                        Ok((pairing, direction, mode)),
                        RopeResolved { position_mode: Some(mode), ..once },
                    ),
                }
            },
        },
    }
}

/// The rotation of rows of `width` elements, or the first fault, and what is
/// resolved after the checks. `what` names the input in a report.
pub open spec fn rotation_for(
    what: Seq<char>,
    width: usize,
    position: usize,
    head_count: usize,
    config: LlamaModelConfig,
    rope_freqs: Option<&FrequencyTensor>,
    readings: RopeReadings,
    resolved: RopeResolved,
) -> (Result<RopeParams, RopeFault>, RopeResolved) {
    let head_dim = (width / head_count) as nat;
    if width % head_count != 0 {
        (
            Err(
                RopeFault::RuntimeShapeMismatch(
                    what + " width "@ + crate::text::decimal(width as nat)
                        + " is not divisible by head count "@ + crate::text::decimal(
                        head_count as nat,
                    ),
                ),
            ),
            resolved,
        )
    } else {
        match dimensions_for(config, head_dim) {
            Err(fault) => (Err(fault), resolved),
            Ok((rope_dim, freq_base)) => match crate::rope::scaling_for(config) {
                Err(fault) => (Err(fault), resolved),
                Ok(scaling) => match factors_fault(rope_freqs, rope_dim as nat) {
                    Some(fault) => (Err(fault), resolved),
                    None => match overrides_for(config, readings, resolved) {
                        (Err(fault), after) => (Err(fault), after),
                        (Ok((pairing, direction, position_mode)), after) => (
                            Ok(
                                RopeParams {
                                    position,
                                    shape: RopeShape {
                                        head_count,
                                        head_dim: head_dim as usize,
                                        rope_dim,
                                        pairing,
                                    },
                                    freq_base,
                                    direction,
                                    position_mode,
                                    scaling,
                                    has_factors: rope_freqs is Some,
                                },
                            ),
                            after,
                        ),
                    },
                },
            },
        }
    }
}

/// The fault of a missing head.
pub open spec fn no_heads() -> RopeFault {
    RopeFault::RuntimeShapeMismatch("RoPE head count must be greater than zero"@)
}

/// The rotation of a tensor of one row.
pub open spec fn row_rotation_for(
    name: Seq<char>,
    dims: Seq<usize>,
    position: usize,
    head_count: usize,
    config: LlamaModelConfig,
    rope_freqs: Option<&FrequencyTensor>,
    readings: RopeReadings,
    resolved: RopeResolved,
) -> (Result<RopeParams, RopeFault>, RopeResolved) {
    if head_count == 0 {
        (Err(no_heads()), resolved)
    } else if dims.len() != 2 || dims[0] != 1 {
        (
            Err(
                RopeFault::RuntimeShapeMismatch(
                    "RoPE input "@ + name + " expected shape [1, width], got "@
                        + crate::text::listed(dims),
                ),
            ),
            resolved,
        )
    } else {
        rotation_for(
            "RoPE input"@,
            dims[1],
            position,
            head_count,
            config,
            rope_freqs,
            readings,
            resolved,
        )
    }
}

/// The rotation of a tensor of several rows, at the position of the first.
pub open spec fn batch_rotation_for(
    name: Seq<char>,
    dims: Seq<usize>,
    base_position: usize,
    head_count: usize,
    config: LlamaModelConfig,
    rope_freqs: Option<&FrequencyTensor>,
    readings: RopeReadings,
    resolved: RopeResolved,
) -> (Result<RopeParams, RopeFault>, RopeResolved) {
    if head_count == 0 {
        (Err(no_heads()), resolved)
    } else if dims.len() != 2 {
        (
            Err(
                RopeFault::RuntimeShapeMismatch(
                    "RoPE batch input "@ + name + " expected rank 2, got "@ + crate::text::listed(
                        dims,
                    ),
                ),
            ),
            resolved,
        )
    } else {
        rotation_for(
            "RoPE batch input"@,
            dims[1],
            base_position,
            head_count,
            config,
            rope_freqs,
            readings,
            resolved,
        )
    }
}

/// The number of rotating elements and the frequency base of a model.
fn rope_dimensions(config: &LlamaModelConfig, head_dim: usize) -> (result: Result<
    (usize, Float32),
    RopeError,
>)
    ensures
        crate::rope::outcome(result) == dimensions_for(*config, head_dim as nat),
{
    let rope_dim: usize = match config.rope_dimension_count {
        Some(count) => count as usize,
        None => (head_dim as u64 % 0x1_0000_0000u64) as usize,
    };
    if rope_dim == 0 || rope_dim > head_dim || rope_dim % 2 != 0 {
        let mut text: String = "RoPE dimension count ".to_owned();
        text.append(decimal_text(rope_dim).as_str());
        text.append(" must be even and within head dimension ");
        text.append(decimal_text(head_dim).as_str());
        return Err(RopeError::InvalidModelMetadata(text));
    }
    let freq_base: Float32 = match config.rope_freq_base {
        Some(x) => x,
        None => Float32 { bits: FLOAT_10000 },
    };
    if !freq_base.is_positive_finite() {
        return Err(RopeError::FrequencyBase(freq_base));
    }
    Ok((rope_dim, freq_base))
}

/// Checks a frequency tensor, where there is one.
fn check_factors(rope_freqs: Option<&FrequencyTensor>, rope_dim: usize) -> (result: Result<
    (),
    RopeError,
>)
    ensures
        match result {
            Ok(_) => factors_fault(rope_freqs, rope_dim as nat) is None,
            Err(error) => factors_fault(rope_freqs, rope_dim as nat) == Some(error@),
        },
{
    match rope_freqs {
        Some(freqs) => match validate_rope_frequency_tensor(freqs, rope_dim) {
            Ok(_) => Ok(()),
            Err(error) => Err(error),
        },
        None => Ok(()),
    }
}

/// Pairing, direction and position mode of a rotation.
fn rope_overrides(
    config: &LlamaModelConfig,
    readings: &RopeReadings,
    resolved: &mut RopeResolved,
) -> (result: Result<(RopePairing, RopeDirection, RopePositionMode), RopeError>)
    ensures
        (crate::rope::outcome(result), *final(resolved)) == overrides_for(
            *config,
            *readings,
            *old(resolved),
        ),
{
    let pairing: RopePairing = match rope_pairing_for_config(config, &readings.pairing) {
        Ok(pairing) => pairing,
        Err(error) => {
            return Err(error);
        },
    };
    let mut direction_once: Option<RopeDirection> = resolved.direction;
    let direction: RopeDirection = match diagnostic_rope_direction(
        &mut direction_once,
        &readings.direction,
    ) {
        Ok(direction) => direction,
        Err(error) => {
            return Err(error);
        },
    };
    resolved.direction = direction_once;
    let mut mode_once: Option<RopePositionMode> = resolved.position_mode;
    let mode: RopePositionMode = match diagnostic_rope_position_mode(
        &mut mode_once,
        &readings.position_mode,
    ) {
        Ok(mode) => mode,
        Err(error) => {
            return Err(error);
        },
    };
    resolved.position_mode = mode_once;
    Ok((pairing, direction, mode))
}

/// The rotation of rows of `width` elements.
fn plan_rotation(
    what: &str,
    width: usize,
    position: usize,
    head_count: usize,
    config: &LlamaModelConfig,
    rope_freqs: Option<&FrequencyTensor>,
    readings: &RopeReadings,
    resolved: &mut RopeResolved,
) -> (result: Result<RopeParams, RopeError>)
    requires
        head_count > 0,
    ensures
        (crate::rope::outcome(result), *final(resolved)) == rotation_for(
            what@,
            width,
            position,
            head_count,
            *config,
            rope_freqs,
            *readings,
            *old(resolved),
        ),
{
    if width % head_count != 0 {
        let mut text: String = what.to_owned();
        text.append(" width ");
        text.append(decimal_text(width).as_str());
        text.append(" is not divisible by head count ");
        text.append(decimal_text(head_count).as_str());
        return Err(RopeError::RuntimeShapeMismatch(text));
    }
    let head_dim: usize = width / head_count;
    let (rope_dim, freq_base): (usize, Float32) = match rope_dimensions(config, head_dim) {
        Ok(dimensions) => dimensions,
        Err(error) => {
            return Err(error);
        },
    };
    let scaling: RopeScaling = match rope_scaling_from_config(config) {
        Ok(scaling) => scaling,
        Err(error) => {
            return Err(error);
        },
    };
    match check_factors(rope_freqs, rope_dim) {
        Ok(_) => {},
        Err(error) => {
            return Err(error);
        },
    }
    match rope_overrides(config, readings, resolved) {
        Ok((pairing, direction, position_mode)) => Ok(
            RopeParams {
                position,
                shape: RopeShape { head_count, head_dim, rope_dim, pairing },
                freq_base,
                direction,
                position_mode,
                scaling,
                has_factors: rope_freqs.is_some(),
            },
        ),
        Err(error) => Err(error),
    }
}

/// The rotation of a tensor of one row, named `name` and of shape `dims`.
pub fn plan_rope(
    name: &str,
    dims: &[usize],
    position: usize,
    head_count: usize,
    config: &LlamaModelConfig,
    rope_freqs: Option<&FrequencyTensor>,
    readings: &RopeReadings,
    resolved: &mut RopeResolved,
) -> (result: Result<RopeParams, RopeError>)
    ensures
        (crate::rope::outcome(result), *final(resolved)) == row_rotation_for(
            name@,
            dims@,
            position,
            head_count,
            *config,
            rope_freqs,
            *readings,
            *old(resolved),
        ),
{
    if head_count == 0 {
        return Err(
            RopeError::RuntimeShapeMismatch("RoPE head count must be greater than zero".to_owned()),
        );
    }
    if dims.len() != 2 || dims[0] != 1 {
        let mut text: String = "RoPE input ".to_owned();
        text.append(name);
        text.append(" expected shape [1, width], got ");
        text.append(list_text(dims).as_str());
        return Err(RopeError::RuntimeShapeMismatch(text));
    }
    plan_rotation(
        "RoPE input",
        dims[1],
        position,
        head_count,
        config,
        rope_freqs,
        readings,
        resolved,
    )
}

/// The rotation of a tensor of several rows, named `name` and of shape `dims`, at
/// the position of the first.
pub fn plan_rope_batch(
    name: &str,
    dims: &[usize],
    base_position: usize,
    head_count: usize,
    config: &LlamaModelConfig,
    rope_freqs: Option<&FrequencyTensor>,
    readings: &RopeReadings,
    resolved: &mut RopeResolved,
) -> (result: Result<RopeParams, RopeError>)
    ensures
        (crate::rope::outcome(result), *final(resolved)) == batch_rotation_for(
            name@,
            dims@,
            base_position,
            head_count,
            *config,
            rope_freqs,
            *readings,
            *old(resolved),
        ),
{
    if head_count == 0 {
        return Err(
            RopeError::RuntimeShapeMismatch("RoPE head count must be greater than zero".to_owned()),
        );
    }
    if dims.len() != 2 {
        let mut text: String = "RoPE batch input ".to_owned();
        text.append(name);
        text.append(" expected rank 2, got ");
        text.append(list_text(dims).as_str());
        return Err(RopeError::RuntimeShapeMismatch(text));
    }
    plan_rotation(
        "RoPE batch input",
        dims[1],
        base_position,
        head_count,
        config,
        rope_freqs,
        readings,
        resolved,
    )
}

/// A planned rotation fits its rows.
pub proof fn plans_fit_their_rows(
    what: Seq<char>,
    width: usize,
    position: usize,
    head_count: usize,
    config: LlamaModelConfig,
    rope_freqs: Option<&FrequencyTensor>,
    readings: RopeReadings,
    resolved: RopeResolved,
)
    requires
        head_count > 0,
    ensures
        rotation_for(
            what,
            width,
            position,
            head_count,
            config,
            rope_freqs,
            readings,
            resolved,
        ).0 matches Ok(params) ==> {
            &&& params.shape.wf()
            &&& params.shape.width() == width
            &&& params.position == position
            &&& (params.position_mode is OneBased) == one_based(resolved, readings)
        },
{
    vstd::arithmetic::div_mod::lemma_fundamental_div_mod(width as int, head_count as int);
    reveal_strlit("one_based");
    reveal_strlit("zero_based");
    reveal_strlit("");
}

/// Rotates a row as `params` says.
pub fn apply_rope_with_pairing<
    T: Copy,
    A: Copy,
    F: Fn(RopeParams, usize, usize) -> A,
    R: Fn(RopeDirection, A, T, T) -> (T, T),
>(data: Vec<T>, params: RopeParams, angle: &F, rotate: &R) -> (out: Vec<T>)
    requires
        params.shape.wf(),
        data@.len() == params.shape.width(),
        crate::rope::effective(params.position_mode, params.position as nat) <= usize::MAX,
        crate::rope_rotation::angle_total(*angle),
        crate::rope_rotation::rotate_total(*rotate),
    ensures
        crate::rope_rotation::row_rotated(params, *angle, *rotate, data@, out@),
{
    let mut out: Vec<T> = data;
    let ghost before = out@;
    apply_rope_to_row(out.as_mut_slice(), 0, params.position, params, angle, rotate);
    proof {
        let width = params.shape.width();
        assert(before.subrange(0, width) =~= before);
        assert(out@.subrange(0, width) =~= out@);
        assert(params.at(params.position) == params);
    }
    out
}

/// Rotates a tensor of one row at `position`.
pub fn apply_rope<
    T: Copy,
    A: Copy,
    F: Fn(RopeParams, usize, usize) -> A,
    R: Fn(RopeDirection, A, T, T) -> (T, T),
>(
    name: &str,
    dims: &[usize],
    data: Vec<T>,
    position: usize,
    head_count: usize,
    config: &LlamaModelConfig,
    rope_freqs: Option<&FrequencyTensor>,
    readings: &RopeReadings,
    resolved: &mut RopeResolved,
    angle: &F,
    rotate: &R,
) -> (result: Result<Vec<T>, RopeError>)
    requires
        dims@.len() == 2 ==> data@.len() == dims@[0] * dims@[1],
        one_based(*old(resolved), *readings) ==> position < usize::MAX,
        crate::rope_rotation::angle_total(*angle),
        crate::rope_rotation::rotate_total(*rotate),
    ensures
        ({
            let (plan, after) = row_rotation_for(
                name@,
                dims@,
                position,
                head_count,
                *config,
                rope_freqs,
                *readings,
                *old(resolved),
            );
            &&& *final(resolved) == after
            &&& match result {
                Ok(out) => plan matches Ok(params) && crate::rope_rotation::row_rotated(
                    params,
                    *angle,
                    *rotate,
                    data@,
                    out@,
                ),
                Err(error) => plan == Err::<RopeParams, RopeFault>(error@),
            }
        }),
{
    match plan_rope(name, dims, position, head_count, config, rope_freqs, readings, resolved) {
        Ok(params) => {
            proof {
                plans_fit_their_rows(
                    "RoPE input"@,
                    dims@[1],
                    position,
                    head_count,
                    *config,
                    rope_freqs,
                    *readings,
                    *old(resolved),
                );
            }
            Ok(apply_rope_with_pairing(data, params, angle, rotate))
        },
        Err(error) => Err(error),
    }
}

/// Row `r` of a tensor with rows of `width` elements.
pub open spec fn tensor_row<T>(data: Seq<T>, width: int, r: int) -> Seq<T> {
    data.subrange(r * width, r * width + width)
}

/// Each row of `after` is the row of `before` rotated at its own position, which
/// follows the position of the row above.
pub open spec fn rows_rotated<
    T,
    A,
    F: Fn(RopeParams, usize, usize) -> A,
    R: Fn(RopeDirection, A, T, T) -> (T, T),
>(params: RopeParams, rows: int, angle: F, rotate: R, before: Seq<T>, after: Seq<T>) -> bool {
    &&& after.len() == before.len()
    &&& forall|r: int|
        0 <= r < rows ==> crate::rope_rotation::row_rotated(
            params.at((params.position + r) as usize),
            angle,
            rotate,
            tensor_row(before, params.shape.width(), r),
            #[trigger] tensor_row(after, params.shape.width(), r),
        )
}

proof fn lemma_row_bounds(rows: int, width: int, r: int)
    by (nonlinear_arith)
    requires
        0 <= r < rows,
        0 <= width,
    ensures
        0 <= r * width,
        r * width + width <= rows * width,
        r * width + width == (r + 1) * width,
{
}

proof fn lemma_rows_apart(width: int, a: int, b: int)
    by (nonlinear_arith)
    requires
        a < b,
        0 <= width,
    ensures
        a * width + width <= b * width,
{
}

/// Rotates a tensor of several rows, the first at `base_position` and each other
/// at the position after the row above.
pub fn apply_rope_batch<
    T: Copy,
    A: Copy,
    F: Fn(RopeParams, usize, usize) -> A,
    R: Fn(RopeDirection, A, T, T) -> (T, T),
>(
    name: &str,
    dims: &[usize],
    data: Vec<T>,
    base_position: usize,
    head_count: usize,
    config: &LlamaModelConfig,
    rope_freqs: Option<&FrequencyTensor>,
    readings: &RopeReadings,
    resolved: &mut RopeResolved,
    angle: &F,
    rotate: &R,
) -> (result: Result<Vec<T>, RopeError>)
    requires
        dims@.len() == 2 ==> data@.len() == dims@[0] * dims@[1],
        dims@.len() == 2 ==> base_position + dims@[0] <= usize::MAX + 1,
        dims@.len() == 2 && one_based(*old(resolved), *readings) ==> base_position + dims@[0]
            <= usize::MAX,
        crate::rope_rotation::angle_total(*angle),
        crate::rope_rotation::rotate_total(*rotate),
    ensures
        ({
            let (plan, after) = batch_rotation_for(
                name@,
                dims@,
                base_position,
                head_count,
                *config,
                rope_freqs,
                *readings,
                *old(resolved),
            );
            &&& *final(resolved) == after
            &&& match result {
                Ok(out) => plan matches Ok(params) && rows_rotated(
                    params,
                    dims@[0] as int,
                    *angle,
                    *rotate,
                    data@,
                    out@,
                ),
                Err(error) => plan == Err::<RopeParams, RopeFault>(error@),
            }
        }),
{
    let params: RopeParams = match plan_rope_batch(
        name,
        dims,
        base_position,
        head_count,
        config,
        rope_freqs,
        readings,
        resolved,
    ) {
        Ok(params) => params,
        Err(error) => {
            return Err(error);
        },
    };
    proof {
        plans_fit_their_rows(
            "RoPE batch input"@,
            dims@[1],
            base_position,
            head_count,
            *config,
            rope_freqs,
            *readings,
            *old(resolved),
        );
    }
    let rows: usize = dims[0];
    let width: usize = dims[1];
    let ghost before = data@;
    let mut out: Vec<T> = data;
    let total: usize = out.len();
    let mut row: usize = 0;
    while row < rows
        invariant
            row <= rows,
            before.len() == rows * width,
            before.len() == total,
            out@.len() == before.len(),
            width == params.shape.width(),
            params.shape.wf(),
            params.position == base_position,
            base_position + rows <= usize::MAX + 1,
            params.position_mode is OneBased ==> base_position + rows <= usize::MAX,
            crate::rope_rotation::angle_total(*angle),
            crate::rope_rotation::rotate_total(*rotate),
            forall|i: int| row * width <= i < before.len() ==> #[trigger] out@[i] == before[i],
            forall|r: int|
                0 <= r < row ==> crate::rope_rotation::row_rotated(
                    params.at((base_position + r) as usize),
                    *angle,
                    *rotate,
                    tensor_row(before, width as int, r),
                    #[trigger] tensor_row(out@, width as int, r),
                ),
        decreases rows - row,
    {
        let ghost so_far = out@;
        let ghost w = width as int;
        proof {
            lemma_row_bounds(rows as int, w, row as int);
        }
        let start: usize = row * width;
        apply_rope_to_row(out.as_mut_slice(), start, base_position + row, params, angle, rotate);
        proof {
            assert(so_far.subrange(start as int, start + w) =~= tensor_row(before, w, row as int));
            assert forall|r: int| 0 <= r < row + 1 implies crate::rope_rotation::row_rotated(
                params.at((base_position + r) as usize),
                *angle,
                *rotate,
                tensor_row(before, w, r),
                #[trigger] tensor_row(out@, w, r),
            ) by {
                if r < row {
                    lemma_rows_apart(w, r, row as int);
                    lemma_row_bounds(rows as int, w, r);
                    assert(tensor_row(out@, w, r) =~= tensor_row(so_far, w, r));
                }
            }
        }
        row = row + 1;
    }
    Ok(out)
}

/// Angles for a device that rotates by itself: the two parts of the angle of each
/// pair, position after position.
#[derive(Debug, Clone, PartialEq, Eq)]
pub struct ResidentRopeTables<T> {
    pub cos: Vec<T>,
    pub sin: Vec<T>,
    pub split_half_pairing: bool,
}

/// Pairing and position mode of a table, `None` where rotations are inverse, and
/// what is resolved after direction, pairing and position mode were looked up up
/// to the first fault.
pub open spec fn table_overrides_for(
    config: LlamaModelConfig,
    readings: RopeReadings,
    resolved: RopeResolved,
) -> (Result<Option<(RopePairing, RopePositionMode)>, RopeFault>, RopeResolved) {
    match crate::rope::direction_now(resolved.direction, readings.direction) {
        Err(fault) => (Err(fault), resolved),
        Ok(direction) => {
            let once = RopeResolved { direction: Some(direction), ..resolved };
            if direction is Inverse {
                (Ok(None), once)
            } else {
                match crate::rope::pairing_for(config, readings.pairing) {
                    Err(fault) => (Err(fault), once),
                    Ok(pairing) => match crate::rope::position_mode_now(
                        resolved.position_mode,
                        readings.position_mode,
                    ) {
                        Err(fault) => (Err(fault), once),
                        Ok(mode) => (
                            Ok(Some((pairing, mode))),
                            RopeResolved { position_mode: Some(mode), ..once },
                        ),
                    },
                }
            }
        },
    }
}

/// The rotation that a table describes, `None` where rotations are inverse.
pub open spec fn table_for(
    position: usize,
    head_dim: usize,
    config: LlamaModelConfig,
    rope_freqs: Option<&FrequencyTensor>,
    readings: RopeReadings,
    resolved: RopeResolved,
) -> (Result<Option<RopeParams>, RopeFault>, RopeResolved) {
    match dimensions_for(config, head_dim as nat) {
        Err(fault) => (Err(fault), resolved),
        Ok((rope_dim, freq_base)) => match table_overrides_for(config, readings, resolved) {
            (Err(fault), after) => (Err(fault), after),
            (Ok(None), after) => (Ok(None), after),
            (Ok(Some((pairing, position_mode))), after) => match crate::rope::scaling_for(config) {
                Err(fault) => (Err(fault), after),
                Ok(scaling) => match factors_fault(rope_freqs, rope_dim as nat) {
                    Some(fault) => (Err(fault), after),
                    None => (
                        Ok(
                            Some(
                                RopeParams {
                                    position,
                                    shape: RopeShape { head_count: 1, head_dim, rope_dim, pairing },
                                    freq_base,
                                    direction: RopeDirection::Forward,
                                    position_mode,
                                    scaling,
                                    has_factors: rope_freqs is Some,
                                },
                            ),
                        ),
                        after,
                    ),
                },
            },
        },
    }
}

/// The rotation that a table describes, `None` where rotations are inverse: the
/// device rotates forward only.
pub fn plan_resident_rope(
    position: usize,
    head_dim: usize,
    config: &LlamaModelConfig,
    rope_freqs: Option<&FrequencyTensor>,
    readings: &RopeReadings,
    resolved: &mut RopeResolved,
) -> (result: Result<Option<RopeParams>, RopeError>)
    ensures
        (crate::rope::outcome(result), *final(resolved)) == table_for(
            position,
            head_dim,
            *config,
            rope_freqs,
            *readings,
            *old(resolved),
        ),
{
    let (rope_dim, freq_base): (usize, Float32) = match rope_dimensions(config, head_dim) {
        Ok(dimensions) => dimensions,
        Err(error) => {
            return Err(error);
        },
    };
    let mut direction_once: Option<RopeDirection> = resolved.direction;
    match diagnostic_rope_direction(&mut direction_once, &readings.direction) {
        Ok(direction) => {
            resolved.direction = direction_once;
            if direction != RopeDirection::Forward {
                return Ok(None);
            }
        },
        Err(error) => {
            return Err(error);
        },
    }
    let pairing: RopePairing = match rope_pairing_for_config(config, &readings.pairing) {
        Ok(pairing) => pairing,
        Err(error) => {
            return Err(error);
        },
    };
    let mut mode_once: Option<RopePositionMode> = resolved.position_mode;
    let position_mode: RopePositionMode = match diagnostic_rope_position_mode(
        &mut mode_once,
        &readings.position_mode,
    ) {
        Ok(mode) => mode,
        Err(error) => {
            return Err(error);
        },
    };
    resolved.position_mode = mode_once;
    let scaling: RopeScaling = match rope_scaling_from_config(config) {
        Ok(scaling) => scaling,
        Err(error) => {
            return Err(error);
        },
    };
    match check_factors(rope_freqs, rope_dim) {
        Ok(_) => {},
        Err(error) => {
            return Err(error);
        },
    }
    Ok(
        Some(
            RopeParams {
                position,
                shape: RopeShape { head_count: 1, head_dim, rope_dim, pairing },
                freq_base,
                direction: RopeDirection::Forward,
                position_mode,
                scaling,
                has_factors: rope_freqs.is_some(),
            },
        ),
    )
}

/// Entry `at` of the tables holds the angle of a pair.
pub open spec fn table_entry<T, F: Fn(RopeParams, usize, usize) -> (T, T)>(
    params: RopeParams,
    angle: F,
    cos: Seq<T>,
    sin: Seq<T>,
    at: int,
    pair: int,
) -> bool {
    call_ensures(angle, (params, params.effective_position(), pair as usize), (cos[at], sin[at]))
}

/// The tables hold the angles of `positions` positions from that of `params` on, pair
/// by pair within a position.
pub open spec fn tables_hold<T, F: Fn(RopeParams, usize, usize) -> (T, T)>(
    params: RopeParams,
    positions: int,
    angle: F,
    cos: Seq<T>,
    sin: Seq<T>,
) -> bool {
    let pairs = params.shape.pairs();
    &&& cos.len() == positions * pairs
    &&& sin.len() == positions * pairs
    &&& forall|p: int, pair: int|
        0 <= p < positions && 0 <= pair < pairs ==> #[trigger] table_entry(
            params.at((params.position + p) as usize),
            angle,
            cos,
            sin,
            p * pairs + pair,
            pair,
        )
}

/// Appends the angles of one position to the tables.
fn push_angles<T: Copy, F: Fn(RopeParams, usize, usize) -> (T, T)>(
    params: RopeParams,
    positions: Ghost<int>,
    first: Ghost<RopeParams>,
    angle: &F,
    cos: &mut Vec<T>,
    sin: &mut Vec<T>,
)
    requires
        crate::rope::effective(params.position_mode, params.position as nat) <= usize::MAX,
        crate::rope_rotation::angle_total(*angle),
        tables_hold(first@, positions@, *angle, old(cos)@, old(sin)@),
        0 <= positions@,
        first@.position + positions@ <= usize::MAX,
        params == first@.at((first@.position + positions@) as usize),
    ensures
        tables_hold(first@, positions@ + 1, *angle, final(cos)@, final(sin)@),
{
    let ghost n = positions@;
    let ghost pairs = first@.shape.pairs();
    let ghost cos0 = cos@;
    let ghost sin0 = sin@;
    let half: usize = params.shape.rope_dim / 2;
    let effective: usize = params.position_mode.effective_position(params.position);
    let mut pair: usize = 0;
    while pair < half
        invariant
            pair <= half,
            half == pairs,
            pairs == first@.shape.pairs(),
            effective == params.effective_position(),
            crate::rope_rotation::angle_total(*angle),
            n == positions@,
            0 <= n,
            params == first@.at((first@.position + n) as usize),
            cos0.len() == n * pairs,
            sin0.len() == n * pairs,
            cos@.len() == n * pairs + pair,
            sin@.len() == n * pairs + pair,
            cos@.take(n * pairs) =~= cos0,
            sin@.take(n * pairs) =~= sin0,
            forall|q: int|
                0 <= q < pair ==> #[trigger] table_entry(
                    params,
                    *angle,
                    cos@,
                    sin@,
                    n * pairs + q,
                    q,
                ),
        decreases half - pair,
    {
        let ghost cos1 = cos@;
        let ghost sin1 = sin@;
        let (c, s): (T, T) = angle(params, effective, pair);
        cos.push(c);
        sin.push(s);
        proof {
            assert forall|q: int| 0 <= q < pair + 1 implies #[trigger] table_entry(
                params,
                *angle,
                cos@,
                sin@,
                n * pairs + q,
                q,
            ) by {
                if q < pair {
                    assert(table_entry(params, *angle, cos1, sin1, n * pairs + q, q));
                }
            }
        }
        pair = pair + 1;
    }
    proof {
        assert(n * pairs + pairs == (n + 1) * pairs) by (nonlinear_arith);
        assert forall|p: int, q: int| 0 <= p < n + 1 && 0 <= q < pairs implies
            #[trigger] table_entry(
            first@.at((first@.position + p) as usize),
            *angle,
            cos@,
            sin@,
            p * pairs + q,
            q,
        ) by {
            if p < n {
                lemma_rows_apart(pairs, p, n);
                assert(0 <= p * pairs) by (nonlinear_arith)
                    requires
                        0 <= p,
                        0 <= pairs,
                ;
                let at = p * pairs + q;
                assert(cos0[at] == cos@[at] && sin0[at] == sin@[at]);
                assert(
                    table_entry(first@.at((first@.position + p) as usize), *angle, cos0, sin0, at, q)
                );
            } else {
                assert(table_entry(params, *angle, cos@, sin@, n * pairs + q, q));
            }
        }
    }
}

/// A planned table is of one head, at the position asked for.
proof fn lemma_table_plan(
    position: usize,
    head_dim: usize,
    config: LlamaModelConfig,
    rope_freqs: Option<&FrequencyTensor>,
    readings: RopeReadings,
    resolved: RopeResolved,
)
    ensures
        table_for(position, head_dim, config, rope_freqs, readings, resolved).0 matches Ok(
            Some(params),
        ) ==> params.position == position && (params.position_mode is OneBased) == one_based(
            resolved,
            readings,
        ),
{
    reveal_strlit("one_based");
    reveal_strlit("zero_based");
    reveal_strlit("");
}

/// The tables of one position. `None` where rotations are inverse.
pub fn resident_decode_rope_tables<T: Copy, F: Fn(RopeParams, usize, usize) -> (T, T)>(
    position: usize,
    head_dim: usize,
    config: &LlamaModelConfig,
    rope_freqs: Option<&FrequencyTensor>,
    readings: &RopeReadings,
    resolved: &mut RopeResolved,
    angle: &F,
) -> (result: Result<Option<ResidentRopeTables<T>>, RopeError>)
    requires
        one_based(*old(resolved), *readings) ==> position < usize::MAX,
        crate::rope_rotation::angle_total(*angle),
    ensures
        ({
            let (plan, after) = table_for(
                position,
                head_dim,
                *config,
                rope_freqs,
                *readings,
                *old(resolved),
            );
            &&& *final(resolved) == after
            &&& match result {
                Ok(Some(tables)) => plan matches Ok(Some(params)) && tables_hold(
                    params,
                    1,
                    *angle,
                    tables.cos@,
                    tables.sin@,
                ) && tables.split_half_pairing == (params.shape.pairing is SplitHalf),
                Ok(None) => plan == Ok::<Option<RopeParams>, RopeFault>(None),
                Err(error) => plan == Err::<Option<RopeParams>, RopeFault>(error@),
            }
        }),
{
    proof {
        lemma_table_plan(position, head_dim, *config, rope_freqs, *readings, *resolved);
    }
    let params: RopeParams = match plan_resident_rope(
        position,
        head_dim,
        config,
        rope_freqs,
        readings,
        resolved,
    ) {
        Ok(Some(params)) => params,
        Ok(None) => {
            return Ok(None);
        },
        Err(error) => {
            return Err(error);
        },
    };
    let mut cos: Vec<T> = Vec::new();
    let mut sin: Vec<T> = Vec::new();
    assert(params.at((params.position + 0) as usize) == params);
    push_angles(params, Ghost(0), Ghost(params), angle, &mut cos, &mut sin);
    Ok(
        Some(
            ResidentRopeTables {
                cos,
                sin,
                split_half_pairing: params.shape.pairing == RopePairing::SplitHalf,
            },
        ),
    )
}

/// The tables of the positions `0..n_positions`, one after the other. `None` where
/// rotations are inverse.
pub fn resident_prefill_rope_tables<T: Copy, F: Fn(RopeParams, usize, usize) -> (T, T)>(
    n_positions: usize,
    head_dim: usize,
    config: &LlamaModelConfig,
    rope_freqs: Option<&FrequencyTensor>,
    readings: &RopeReadings,
    resolved: &mut RopeResolved,
    angle: &F,
) -> (result: Result<Option<ResidentRopeTables<T>>, RopeError>)
    requires
        crate::rope_rotation::angle_total(*angle),
    ensures
        ({
            let (plan, after) = table_for(
                0,
                head_dim,
                *config,
                rope_freqs,
                *readings,
                *old(resolved),
            );
            &&& *final(resolved) == after
            &&& match result {
                Ok(Some(tables)) => plan matches Ok(Some(params)) && tables_hold(
                    params,
                    n_positions as int,
                    *angle,
                    tables.cos@,
                    tables.sin@,
                ) && tables.split_half_pairing == (params.shape.pairing is SplitHalf),
                Ok(None) => plan == Ok::<Option<RopeParams>, RopeFault>(None),
                Err(error) => plan == Err::<Option<RopeParams>, RopeFault>(error@),
            }
        }),
{
    proof {
        lemma_table_plan(0, head_dim, *config, rope_freqs, *readings, *resolved);
    }
    let params: RopeParams = match plan_resident_rope(
        0,
        head_dim,
        config,
        rope_freqs,
        readings,
        resolved,
    ) {
        Ok(Some(params)) => params,
        Ok(None) => {
            return Ok(None);
        },
        Err(error) => {
            return Err(error);
        },
    };
    let mut cos: Vec<T> = Vec::new();
    let mut sin: Vec<T> = Vec::new();
    let mut pos: usize = 0;
    while pos < n_positions
        invariant
            pos <= n_positions,
            params.position == 0,
            crate::rope_rotation::angle_total(*angle),
            tables_hold(params, pos as int, *angle, cos@, sin@),
        decreases n_positions - pos,
    {
        push_angles(
            RopeParams { position: pos, ..params },
            Ghost(pos as int),
            Ghost(params),
            angle,
            &mut cos,
            &mut sin,
        );
        pos = pos + 1;
    }
    Ok(
        Some(
            ResidentRopeTables {
                cos,
                sin,
                split_half_pairing: params.shape.pairing == RopePairing::SplitHalf,
            },
        ),
    )
}

} // verus!
