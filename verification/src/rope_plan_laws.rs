//! Laws of planned rotations: what of the metadata, the settings and the shape of the
//! data each part of a plan is, which inputs are planned for, and what is reported of the
//! others.

use vstd::prelude::*;

use crate::rope::{
    EnvReading, Float32, FrequencyTensor, LlamaModelConfig, RopeDirection, RopeFault, RopePairing,
    RopeParams, RopePositionMode, RopeReadings, RopeResolved, RopeScaling, RopeScalingKind,
};

verus! {

/// A number above zero and below infinity, by its bits.
pub open spec fn usable(x: Float32) -> bool {
    x.bits > 0 && x.bits < 0x7f80_0000
}

/// The number that the metadata gives, else the one with these bits.
pub open spec fn given_or(value: Option<Float32>, bits: u32) -> Float32 {
    if value is Some {
        value->0
    } else {
        Float32 { bits }
    }
}

/// A number is usable exactly where it is told to be positive and finite.
pub proof fn usable_numbers_are_positive_and_finite(x: Float32)
    ensures
        x.positive_finite() <==> usable(x),
{
}

/// A scaling is made of the metadata: its factor is the one given, else 1; where frequencies
/// are scaled by context its context length is the one given, else 8192; the band of the
/// `llama3` kind is the one given, else from 1 to 4. Unscaled frequencies have factor 1.
pub open spec fn scaling_is_given(config: LlamaModelConfig, s: RopeScaling) -> bool {
    let factor = given_or(config.rope_scaling_factor, 0x3f80_0000);
    let context = if config.rope_scaling_original_context_length is Some {
        config.rope_scaling_original_context_length->0
    } else {
        8192
    };
    &&& s.kind is Unscaled ==> s.factor.bits == 0x3f80_0000
    &&& s.kind !is Unscaled ==> s.factor == factor
    &&& s.kind is Llama3 || s.kind is Yarn ==> s.original_context_length == Some(context)
    &&& s.kind is Unscaled || s.kind is Linear ==> s.original_context_length is None
    &&& s.kind is Llama3 ==> s.low_freq_factor == Some(
        given_or(config.rope_scaling_low_freq_factor, 0x3f80_0000),
    ) && s.high_freq_factor == Some(given_or(config.rope_scaling_high_freq_factor, 0x4080_0000))
    &&& s.kind !is Llama3 ==> s.low_freq_factor is None && s.high_freq_factor is None
}

/// The metadata can be scaled by: the factor is usable whatever the kind, a context is not
/// empty where one is needed, and the band of `llama3` is usable and rising.
pub open spec fn scaling_usable(config: LlamaModelConfig, kind: RopeScalingKind) -> bool {
    let low = given_or(config.rope_scaling_low_freq_factor, 0x3f80_0000);
    let high = given_or(config.rope_scaling_high_freq_factor, 0x4080_0000);
    &&& usable(given_or(config.rope_scaling_factor, 0x3f80_0000))
    &&& kind is Llama3 || kind is Yarn ==> config.rope_scaling_original_context_length != Some(0u32)
    &&& kind is Llama3 ==> usable(low) && usable(high) && low.bits < high.bits
}

/// Every accepted scaling is made of the metadata and is of the kind that it names, and a
/// scaling is accepted exactly where the metadata names a kind that it can be scaled by.
pub proof fn scalings_are_made_of_the_metadata(config: LlamaModelConfig)
    ensures
        crate::rope::scaling_for(config) matches Ok(s) ==> scaling_is_given(config, s)
            && crate::rope::scaling_kind(config.rope_scaling_type) == Ok::<
            RopeScalingKind,
            RopeFault,
        >(s.kind),
        crate::rope::scaling_for(config) is Ok <==> (crate::rope::scaling_kind(
            config.rope_scaling_type,
        ) matches Ok(kind) && scaling_usable(config, kind)),
{
}

/// A number that is reported of a scaling is the one that the metadata gives, and is at
/// fault.
pub proof fn reported_scaling_numbers_are_at_fault(config: LlamaModelConfig)
    ensures
        crate::rope::scaling_for(config) matches Err(RopeFault::ScalingFactor(x)) ==> {
            &&& x == given_or(config.rope_scaling_factor, 0x3f80_0000)
            &&& !usable(x)
        },
        crate::rope::scaling_for(config) matches Err(RopeFault::Llama3Factors(low, high)) ==> {
            &&& low == given_or(config.rope_scaling_low_freq_factor, 0x3f80_0000)
            &&& high == given_or(config.rope_scaling_high_freq_factor, 0x4080_0000)
            &&& !(usable(low) && usable(high) && low.bits < high.bits)
        },
        crate::rope::scaling_kind(config.rope_scaling_type) is Ok && !usable(
            given_or(config.rope_scaling_factor, 0x3f80_0000),
        ) ==> crate::rope::scaling_for(config) is Err && crate::rope::scaling_for(
            config,
        )->Err_0 is ScalingFactor,
{
    if let Err(fault) = crate::rope::scaling_kind(config.rope_scaling_type) {
        assert(fault is InvalidModelMetadata);
    }
}

/// The kind that a word names.
pub open spec fn kind_named(word: Seq<char>) -> Option<RopeScalingKind> {
    if word.len() == 0 || word == "none"@ {
        Some(RopeScalingKind::Unscaled)
    } else if word == "linear"@ {
        Some(RopeScalingKind::Linear)
    } else if word == "llama3"@ {
        Some(RopeScalingKind::Llama3)
    } else if word == "yarn"@ {
        Some(RopeScalingKind::Yarn)
    } else {
        None
    }
}

/// The metadata names a kind by its word, whatever white space stands around it; no name
/// is no scaling. Any other word is a fault of the metadata.
pub proof fn kinds_are_named_by_their_words(
    name: String,
    before: Seq<char>,
    word: Seq<char>,
    after: Seq<char>,
)
    requires
        name@ == before + word + after,
        crate::text_laws::white(before),
        crate::text_laws::white(after),
        word.len() > 0 ==> !crate::text::is_white_space(word[0]) && !crate::text::is_white_space(
            word.last(),
        ),
    ensures
        crate::rope::scaling_kind(None) == Ok::<RopeScalingKind, RopeFault>(
            RopeScalingKind::Unscaled,
        ),
        match kind_named(word) {
            Some(kind) => crate::rope::scaling_kind(Some(name)) == Ok::<RopeScalingKind, RopeFault>(
                kind,
            ),
            None => crate::rope::scaling_kind(Some(name)) is Err && crate::rope::scaling_kind(
                Some(name),
            )->Err_0 is InvalidModelMetadata,
        },
{
    reveal_strlit("");
    crate::text_laws::trimming_leaves_the_core(before, word, after);
    if word.len() == 0 {
        assert(word =~= ""@);
    }
}

/// A pairing variable asks for the pairing that it spells; set to nothing or not set it
/// asks for neighbours. Any other text, and one that cannot be read, is a fault.
pub open spec fn pairing_asked(reading: EnvReading) -> Option<RopePairing> {
    match reading {
        EnvReading::Missing => Some(RopePairing::AdjacentEvenOdd),
        EnvReading::Unreadable(_) => None,
        EnvReading::Value(v) => if v@ == "split_half"@ {
            Some(RopePairing::SplitHalf)
        } else if v@.len() == 0 || v@ == "adjacent_even_odd"@ {
            Some(RopePairing::AdjacentEvenOdd)
        } else {
            None
        },
    }
}

/// The direction that a variable asks for.
pub open spec fn direction_asked(reading: EnvReading) -> Option<RopeDirection> {
    match reading {
        EnvReading::Missing => Some(RopeDirection::Forward),
        EnvReading::Unreadable(_) => None,
        EnvReading::Value(v) => if v@ == "inverse"@ {
            Some(RopeDirection::Inverse)
        } else if v@.len() == 0 || v@ == "forward"@ {
            Some(RopeDirection::Forward)
        } else {
            None
        },
    }
}

/// The position mode that a variable asks for.
pub open spec fn position_mode_asked(reading: EnvReading) -> Option<RopePositionMode> {
    match reading {
        EnvReading::Missing => Some(RopePositionMode::ZeroBased),
        EnvReading::Unreadable(_) => None,
        EnvReading::Value(v) => if v@ == "one_based"@ {
            Some(RopePositionMode::OneBased)
        } else if v@.len() == 0 || v@ == "zero_based"@ {
            Some(RopePositionMode::ZeroBased)
        } else {
            None
        },
    }
}

/// A setting that holds already, else what its variable asks for.
pub open spec fn settled<T>(held: Option<T>, asked: Option<T>) -> Option<T> {
    if held is Some {
        held
    } else {
        asked
    }
}

/// The pairing of a model: what the variable asks for where it is set, else what the
/// metadata says.
pub open spec fn pairing_of(config: LlamaModelConfig, reading: EnvReading) -> Option<RopePairing> {
    if reading is Missing {
        Some(
            if config.rope_neox_pairing {
                RopePairing::SplitHalf
            } else {
                RopePairing::AdjacentEvenOdd
            },
        )
    } else {
        pairing_asked(reading)
    }
}

/// Variables ask for what they spell, and for nothing else: a setting is granted exactly
/// where its variable asks for one, and a refusal is a fault of the metadata.
pub proof fn settings_are_what_is_asked_for(
    reading: EnvReading,
    config: LlamaModelConfig,
    direction: Option<RopeDirection>,
    mode: Option<RopePositionMode>,
)
    ensures
        crate::rope::found(crate::rope::pairing_setting(reading)) == pairing_asked(reading),
        crate::rope::found(crate::rope::direction_setting(reading)) == direction_asked(reading),
        crate::rope::found(crate::rope::position_mode_setting(reading)) == position_mode_asked(
            reading,
        ),
        crate::rope::found(crate::rope::pairing_for(config, reading)) == pairing_of(
            config,
            reading,
        ),
        crate::rope::found(crate::rope::direction_now(direction, reading)) == settled(
            direction,
            direction_asked(reading),
        ),
        crate::rope::found(crate::rope::position_mode_now(mode, reading)) == settled(
            mode,
            position_mode_asked(reading),
        ),
        crate::rope::pairing_setting(reading) matches Err(f) ==> f is InvalidModelMetadata,
        crate::rope::direction_setting(reading) matches Err(f) ==> f is InvalidModelMetadata,
        crate::rope::position_mode_setting(reading) matches Err(f) ==> f is InvalidModelMetadata,
{
    reveal_strlit("");
    if let EnvReading::Value(v) = reading {
        assert(v@.len() == 0 <==> v@ =~= ""@);
    }
}

/// `found` tells a value where there is one, and nothing else.
pub proof fn found_tells_the_value<T>(result: Result<T, RopeFault>)
    ensures
        result matches Ok(value) ==> crate::rope::found(result) == Some(value),
        result is Err ==> crate::rope::found(result) is None,
{
}

/// Each label spells the setting that it is the label of.
pub proof fn labels_spell_their_settings()
    ensures
        crate::rope::pairing_label(RopePairing::SplitHalf) == "split_half"@,
        crate::rope::pairing_label(RopePairing::AdjacentEvenOdd) == "adjacent_even_odd"@,
        crate::rope::direction_label(RopeDirection::Forward) == "forward"@,
        crate::rope::direction_label(RopeDirection::Inverse) == "inverse"@,
        crate::rope::position_mode_label(RopePositionMode::ZeroBased) == "zero_based"@,
        crate::rope::position_mode_label(RopePositionMode::OneBased) == "one_based"@,
        crate::rope::scaling_kind_label(RopeScalingKind::Unscaled) == "none"@,
        crate::rope::scaling_kind_label(RopeScalingKind::Linear) == "linear"@,
        crate::rope::scaling_kind_label(RopeScalingKind::Llama3) == "llama3"@,
        crate::rope::scaling_kind_label(RopeScalingKind::Yarn) == "yarn"@,
{
}

/// The number of rotating elements: the metadata's count where there is one, else the
/// whole head, as a 32-bit number.
pub open spec fn dimension_given(config: LlamaModelConfig, head_dim: int) -> int {
    if config.rope_dimension_count is Some {
        config.rope_dimension_count->0 as int
    } else if head_dim < 0x1_0000_0000 {
        head_dim
    } else {
        head_dim % 0x1_0000_0000
    }
}

/// Elements can be rotated: an even number of them, at least two, within the head, and by
/// a usable frequency base.
pub open spec fn dimensions_usable(config: LlamaModelConfig, head_dim: int) -> bool {
    &&& 0 < dimension_given(config, head_dim) <= head_dim
    &&& dimension_given(config, head_dim) % 2 == 0
    &&& usable(given_or(config.rope_freq_base, 0x461c_4000))
}

/// A frequency tensor has one usable factor for each pair.
pub open spec fn factors_usable(rope_freqs: Option<&FrequencyTensor>, rope_dim: int) -> bool {
    rope_freqs matches Some(freqs) ==> {
        &&& freqs.dims@.len() == 1
        &&& 2 * freqs.dims@[0] == rope_dim
        &&& forall|i: int| 0 <= i < freqs.data@.len() ==> usable(#[trigger] freqs.data@[i])
    }
}

/// Dimension count and frequency base are those of the metadata, each independent of the
/// other, and are accepted exactly where elements can be rotated by them.
pub proof fn dimensions_are_given(config: LlamaModelConfig, head_dim: nat)
    requires
        head_dim <= usize::MAX,
    ensures
        crate::rope_plan::dimensions_for(config, head_dim) is Ok <==> dimensions_usable(
            config,
            head_dim as int,
        ),
        crate::rope_plan::dimensions_for(config, head_dim) matches Ok((rope_dim, freq_base)) ==> {
            &&& rope_dim == dimension_given(config, head_dim as int)
            &&& freq_base == given_or(config.rope_freq_base, 0x461c_4000)
        },
        crate::rope_plan::dimensions_for(config, head_dim) matches Err(
            RopeFault::FrequencyBase(x),
        ) ==> x == given_or(config.rope_freq_base, 0x461c_4000) && !usable(x),
        crate::rope_plan::dimensions_for(config, head_dim) matches Err(f) ==> f
            is InvalidModelMetadata || f is FrequencyBase,
        0 < dimension_given(config, head_dim as int) <= head_dim && dimension_given(
            config,
            head_dim as int,
        ) % 2 == 0 && !usable(given_or(config.rope_freq_base, 0x461c_4000))
            ==> crate::rope_plan::dimensions_for(config, head_dim) == Err::<
            (usize, Float32),
            RopeFault,
        >(RopeFault::FrequencyBase(given_or(config.rope_freq_base, 0x461c_4000))),
{
}

/// A frequency tensor is refused exactly where it has no usable factor for each pair. The
/// factor that is reported is the first one at fault.
pub proof fn factors_are_refused_where_unusable(freqs: FrequencyTensor, rope_dim: nat)
    requires
        rope_dim > 0,
        rope_dim % 2 == 0,
    ensures
        crate::rope::frequency_fault(freqs.dims@, freqs.data@, rope_dim) is None <==> factors_usable(
            Some(&freqs),
            rope_dim as int,
        ),
        crate::rope::frequency_fault(freqs.dims@, freqs.data@, rope_dim) matches Some(
            RopeFault::FrequencyFactor(i, x),
        ) ==> {
            &&& i < freqs.data@.len()
            &&& freqs.data@[i as int] == x
            &&& !usable(x)
            &&& forall|k: int| 0 <= k < i ==> usable(#[trigger] freqs.data@[k])
        },
{
    lemma_first_bad(freqs.data@);
}

proof fn lemma_first_bad(data: Seq<Float32>)
    ensures
        match crate::rope::first_bad_factor(data) {
            Some((i, x)) => {
                &&& i < data.len()
                &&& data[i as int] == x
                &&& !usable(x)
                &&& forall|k: int| 0 <= k < i ==> usable(#[trigger] data[k])
            },
            None => forall|k: int| 0 <= k < data.len() ==> usable(#[trigger] data[k]),
        },
    decreases data.len(),
{
    if data.len() > 0 {
        let head = data.drop_last();
        lemma_first_bad(head);
        assert forall|k: int| 0 <= k < head.len() implies head[k] == #[trigger] data[k] by {}
    }
}

/// Every part of a plan is what the metadata, the settings or the shape of the data say
/// it is.
pub open spec fn plan_is_given(
    params: RopeParams,
    width: usize,
    position: usize,
    head_count: usize,
    config: LlamaModelConfig,
    rope_freqs: Option<&FrequencyTensor>,
    readings: RopeReadings,
    resolved: RopeResolved,
) -> bool {
    &&& params.position == position
    &&& params.shape.head_count == head_count
    &&& params.shape.head_count * params.shape.head_dim == width
    &&& params.shape.rope_dim == dimension_given(config, params.shape.head_dim as int)
    &&& dimensions_usable(config, params.shape.head_dim as int)
    &&& params.freq_base == given_or(config.rope_freq_base, 0x461c_4000)
    &&& Some(params.shape.pairing) == pairing_of(config, readings.pairing)
    &&& Some(params.direction) == settled(resolved.direction, direction_asked(readings.direction))
    &&& Some(params.position_mode) == settled(
        resolved.position_mode,
        position_mode_asked(readings.position_mode),
    )
    &&& scaling_is_given(config, params.scaling)
    &&& crate::rope::scaling_kind(config.rope_scaling_type) == Ok::<RopeScalingKind, RopeFault>(
        params.scaling.kind,
    )
    &&& params.has_factors == (rope_freqs is Some)
    &&& factors_usable(rope_freqs, params.shape.rope_dim as int)
}

/// All that a rotation of rows of `head_count` heads of `head_dim` elements needs.
pub open spec fn plan_usable(
    head_dim: int,
    config: LlamaModelConfig,
    rope_freqs: Option<&FrequencyTensor>,
    readings: RopeReadings,
    resolved: RopeResolved,
) -> bool {
    &&& dimensions_usable(config, head_dim)
    &&& crate::rope::scaling_kind(config.rope_scaling_type) matches Ok(kind) && scaling_usable(
        config,
        kind,
    )
    &&& factors_usable(rope_freqs, dimension_given(config, head_dim))
    &&& pairing_of(config, readings.pairing) is Some
    &&& settled(resolved.direction, direction_asked(readings.direction)) is Some
    &&& settled(resolved.position_mode, position_mode_asked(readings.position_mode)) is Some
}

/// What is settled after a plan was asked for: what was settled before stays, what is
/// settled now is what its variable asks for, and after a plan both settings are.
pub open spec fn settings_follow(
    planned: bool,
    readings: RopeReadings,
    before: RopeResolved,
    after: RopeResolved,
) -> bool {
    &&& before.direction is Some ==> after.direction == before.direction
    &&& before.position_mode is Some ==> after.position_mode == before.position_mode
    &&& after.direction is Some ==> after.direction == settled(
        before.direction,
        direction_asked(readings.direction),
    )
    &&& after.position_mode is Some ==> after.position_mode == settled(
        before.position_mode,
        position_mode_asked(readings.position_mode),
    )
    &&& planned ==> after.direction is Some && after.position_mode is Some
}

proof fn lemma_rotation(
    what: Seq<char>,
    width: usize,
    position: usize,
    head_count: usize,
    config: LlamaModelConfig,
    rope_freqs: Option<&FrequencyTensor>,
    readings: RopeReadings,
    resolved: RopeResolved,
)
    requires
        head_count > 0,
    ensures
        ({
            let (plan, after) = crate::rope_plan::rotation_for(
                what,
                width,
                position,
                head_count,
                config,
                rope_freqs,
                readings,
                resolved,
            );
            &&& plan matches Ok(params) ==> plan_is_given(
                params,
                width,
                position,
                head_count,
                config,
                rope_freqs,
                readings,
                resolved,
            )
            &&& plan is Ok <==> (width % head_count == 0 && plan_usable(
                width as int / head_count as int,
                config,
                rope_freqs,
                readings,
                resolved,
            ))
            &&& settings_follow(plan is Ok, readings, resolved, after)
            &&& plan matches Err(f) ==> (f is RuntimeShapeMismatch <==> width % head_count != 0)
        }),
{
    let head_dim = width as int / head_count as int;
    vstd::arithmetic::div_mod::lemma_fundamental_div_mod(width as int, head_count as int);
    vstd::arithmetic::mul::lemma_mul_is_commutative(head_dim, head_count as int);
    assert(0 <= head_dim <= width) by (nonlinear_arith)
        requires
            head_dim == width as int / head_count as int,
            head_count > 0,
            width >= 0,
    ;
    dimensions_are_given(config, head_dim as nat);
    scalings_are_made_of_the_metadata(config);
    settings_are_what_is_asked_for(
        readings.pairing,
        config,
        resolved.direction,
        resolved.position_mode,
    );
    settings_are_what_is_asked_for(
        readings.direction,
        config,
        resolved.direction,
        resolved.position_mode,
    );
    settings_are_what_is_asked_for(
        readings.position_mode,
        config,
        resolved.direction,
        resolved.position_mode,
    );
    if dimensions_usable(config, head_dim) {
        if let Some(freqs) = rope_freqs {
            factors_are_refused_where_unusable(
                *freqs,
                dimension_given(config, head_dim) as nat,
            );
        }
    }
    if let Err(fault) = crate::rope::scaling_kind(config.rope_scaling_type) {
        assert(fault is InvalidModelMetadata);
    }
}

/// A row is planned for exactly where it has heads of equal size and all that is needed
/// can be used. Every part of the plan is what metadata, settings and shape say, and a
/// shape is reported at fault exactly where it is.
pub proof fn row_plans_are_given(
    name: Seq<char>,
    dims: Seq<usize>,
    position: usize,
    head_count: usize,
    config: LlamaModelConfig,
    rope_freqs: Option<&FrequencyTensor>,
    readings: RopeReadings,
    resolved: RopeResolved,
)
    ensures
        ({
            let (plan, after) = crate::rope_plan::row_rotation_for(
                name,
                dims,
                position,
                head_count,
                config,
                rope_freqs,
                readings,
                resolved,
            );
            let shaped = head_count > 0 && dims.len() == 2 && dims[0] == 1 && dims[1] % head_count
                == 0;
            &&& plan matches Ok(params) ==> plan_is_given(
                params,
                dims[1],
                position,
                head_count,
                config,
                rope_freqs,
                readings,
                resolved,
            )
            &&& plan is Ok <==> (shaped && plan_usable(
                dims[1] as int / head_count as int,
                config,
                rope_freqs,
                readings,
                resolved,
            ))
            &&& plan matches Err(f) ==> (f is RuntimeShapeMismatch <==> !shaped)
            &&& settings_follow(plan is Ok, readings, resolved, after)
        }),
{
    if head_count > 0 && dims.len() == 2 {
        lemma_rotation(
            "RoPE input"@,
            dims[1],
            position,
            head_count,
            config,
            rope_freqs,
            readings,
            resolved,
        );
    }
}

/// A batch is planned for exactly where its rows have heads of equal size and all that is
/// needed can be used. Every part of the plan is what metadata, settings and shape say,
/// and a shape is reported at fault exactly where it is.
pub proof fn batch_plans_are_given(
    name: Seq<char>,
    dims: Seq<usize>,
    base_position: usize,
    head_count: usize,
    config: LlamaModelConfig,
    rope_freqs: Option<&FrequencyTensor>,
    readings: RopeReadings,
    resolved: RopeResolved,
)
    ensures
        ({
            let (plan, after) = crate::rope_plan::batch_rotation_for(
                name,
                dims,
                base_position,
                head_count,
                config,
                rope_freqs,
                readings,
                resolved,
            );
            let shaped = head_count > 0 && dims.len() == 2 && dims[1] % head_count == 0;
            &&& plan matches Ok(params) ==> plan_is_given(
                params,
                dims[1],
                base_position,
                head_count,
                config,
                rope_freqs,
                readings,
                resolved,
            )
            &&& plan is Ok <==> (shaped && plan_usable(
                dims[1] as int / head_count as int,
                config,
                rope_freqs,
                readings,
                resolved,
            ))
            &&& plan matches Err(f) ==> (f is RuntimeShapeMismatch <==> !shaped)
            &&& settings_follow(plan is Ok, readings, resolved, after)
        }),
{
    if head_count > 0 && dims.len() == 2 {
        lemma_rotation(
            "RoPE batch input"@,
            dims[1],
            base_position,
            head_count,
            config,
            rope_freqs,
            readings,
            resolved,
        );
    }
}

/// A table is planned for exactly where rotations are forward and all that is needed can
/// be used; where rotations are inverse there is none. Every part of the plan is what
/// metadata and settings say.
pub proof fn table_plans_are_given(
    position: usize,
    head_dim: usize,
    config: LlamaModelConfig,
    rope_freqs: Option<&FrequencyTensor>,
    readings: RopeReadings,
    resolved: RopeResolved,
)
    ensures
        ({
            let (plan, after) = crate::rope_plan::table_for(
                position,
                head_dim,
                config,
                rope_freqs,
                readings,
                resolved,
            );
            let direction = settled(resolved.direction, direction_asked(readings.direction));
            &&& plan matches Ok(Some(params)) ==> plan_is_given(
                params,
                head_dim,
                position,
                1,
                config,
                rope_freqs,
                readings,
                resolved,
            )
            &&& (plan is Ok && plan->Ok_0 is Some) <==> (direction == Some(RopeDirection::Forward)
                && plan_usable(head_dim as int, config, rope_freqs, readings, resolved))
            &&& (plan is Ok && plan->Ok_0 is None) <==> (direction == Some(RopeDirection::Inverse)
                && dimensions_usable(config, head_dim as int))
            &&& settings_follow(plan is Ok && plan->Ok_0 is Some, readings, resolved, after)
            &&& plan is Ok ==> after.direction is Some
        }),
{
    dimensions_are_given(config, head_dim as nat);
    scalings_are_made_of_the_metadata(config);
    settings_are_what_is_asked_for(
        readings.pairing,
        config,
        resolved.direction,
        resolved.position_mode,
    );
    settings_are_what_is_asked_for(
        readings.direction,
        config,
        resolved.direction,
        resolved.position_mode,
    );
    settings_are_what_is_asked_for(
        readings.position_mode,
        config,
        resolved.direction,
        resolved.position_mode,
    );
    if dimensions_usable(config, head_dim as int) {
        if let Some(freqs) = rope_freqs {
            factors_are_refused_where_unusable(
                *freqs,
                dimension_given(config, head_dim as int) as nat,
            );
        }
    }
}

/// The position by which the angles of a plan are computed.
pub open spec fn counted_position(params: RopeParams) -> int {
    if params.position_mode is OneBased {
        params.position + 1
    } else {
        params.position as int
    }
}

/// Pair `k` of head `head`: neighbours, or half the rotating elements apart.
pub open spec fn pair_at(params: RopeParams, head: int, k: int) -> (int, int) {
    let start = head * params.shape.head_dim;
    if params.shape.pairing is SplitHalf {
        (start + k, start + k + params.shape.rope_dim as int / 2)
    } else {
        (start + 2 * k, start + 2 * k + 1)
    }
}

/// A rotated row is as long as before. Each pair of each head is rotated once, in the
/// direction of the plan, by the angle that belongs to its place in the head and to the
/// position of the row; the elements of a head past the rotating ones stay as they were.
pub proof fn rows_are_rotated_pair_by_pair<
    T,
    A,
    F: Fn(RopeParams, usize, usize) -> A,
    R: Fn(RopeDirection, A, T, T) -> (T, T),
>(
    params: RopeParams,
    angle: F,
    rotate: R,
    before: Seq<T>,
    after: Seq<T>,
    head: int,
    k: int,
    e: int,
)
    requires
        params.shape.wf(),
        crate::rope_rotation::row_rotated(params, angle, rotate, before, after),
        counted_position(params) <= usize::MAX,
        0 <= head < params.shape.head_count,
        0 <= 2 * k < params.shape.rope_dim,
    ensures
        ({
            let (i, j) = pair_at(params, head, k);
            &&& after.len() == before.len()
            &&& before.len() == params.shape.head_count * params.shape.head_dim
            &&& exists|a: A|
                #![trigger call_ensures(
                    rotate,
                    (params.direction, a, before[i], before[j]),
                    (after[i], after[j]),
                )]
                call_ensures(angle, (params, counted_position(params) as usize, k as usize), a)
                    && call_ensures(
                    rotate,
                    (params.direction, a, before[i], before[j]),
                    (after[i], after[j]),
                )
            &&& params.shape.rope_dim <= e < params.shape.head_dim ==> after[head
                * params.shape.head_dim + e] == before[head * params.shape.head_dim + e]
        }),
{
    let n = params.shape.head_dim as int;
    let (i, j) = pair_at(params, head, k);
    assert(params.effective_position() == counted_position(params));
    assert(crate::rope_rotation::pair_rotated(params, angle, rotate, k, before, after));
    let a = choose|a: A|
        #![trigger call_ensures(angle, (params, params.effective_position(), k as usize), a)]
        call_ensures(angle, (params, params.effective_position(), k as usize), a) && forall|h: int|
            0 <= h < params.shape.head_count ==> #[trigger] crate::rope_rotation::head_rotated(
                params,
                rotate,
                a,
                h,
                k,
                before,
                after,
            );
    assert(crate::rope_rotation::head_rotated(params, rotate, a, head, k, before, after));
    if params.shape.rope_dim <= e < n {
        let at = head * n + e;
        vstd::arithmetic::div_mod::lemma_fundamental_div_mod_converse(at, n, head, e);
        assert(0 <= head * n && head * n + n <= params.shape.head_count * n) by (nonlinear_arith)
            requires
                0 <= head < params.shape.head_count,
                n >= 0,
        ;
        assert(!params.shape.rotates(at));
    }
}

/// Each pair of each head of each row of a batch is rotated once, by the angle that belongs
/// to its place in the head and to the position of its row: `r` positions after the first
/// for row `r`.
pub proof fn batches_are_rotated_row_by_row<
    T,
    A,
    F: Fn(RopeParams, usize, usize) -> A,
    R: Fn(RopeDirection, A, T, T) -> (T, T),
>(
    params: RopeParams,
    rows: int,
    angle: F,
    rotate: R,
    before: Seq<T>,
    after: Seq<T>,
    r: int,
    head: int,
    k: int,
)
    requires
        params.shape.wf(),
        crate::rope_plan::rows_rotated(params, rows, angle, rotate, before, after),
        before.len() == rows * (params.shape.head_count * params.shape.head_dim),
        0 <= r < rows,
        counted_position(params) + r <= usize::MAX,
        0 <= head < params.shape.head_count,
        0 <= 2 * k < params.shape.rope_dim,
    ensures
        ({
            let start = r * (params.shape.head_count * params.shape.head_dim);
            let (x, y) = pair_at(params, head, k);
            let (i, j) = (start + x, start + y);
            &&& after.len() == before.len()
            &&& exists|a: A|
                #![trigger call_ensures(
                    rotate,
                    (params.direction, a, before[i], before[j]),
                    (after[i], after[j]),
                )]
                call_ensures(
                    angle,
                    (
                        RopeParams { position: (params.position + r) as usize, ..params },
                        (counted_position(params) + r) as usize,
                        k as usize,
                    ),
                    a,
                ) && call_ensures(
                    rotate,
                    (params.direction, a, before[i], before[j]),
                    (after[i], after[j]),
                )
        }),
{
    let w = params.shape.head_count * params.shape.head_dim;
    let here = RopeParams { position: (params.position + r) as usize, ..params };
    let row_before = crate::rope_plan::tensor_row(before, w, r);
    let row_after = crate::rope_plan::tensor_row(after, w, r);
    assert(here == params.at((params.position + r) as usize));
    assert(crate::rope_rotation::row_rotated(here, angle, rotate, row_before, row_after));
    assert(here.effective_position() == counted_position(params) + r);
    assert(crate::rope_rotation::pair_rotated(here, angle, rotate, k, row_before, row_after));
    let a = choose|a: A|
        #![trigger call_ensures(angle, (here, here.effective_position(), k as usize), a)]
        call_ensures(angle, (here, here.effective_position(), k as usize), a) && forall|h: int|
            0 <= h < here.shape.head_count ==> #[trigger] crate::rope_rotation::head_rotated(
                here,
                rotate,
                a,
                h,
                k,
                row_before,
                row_after,
            );
    assert(crate::rope_rotation::head_rotated(here, rotate, a, head, k, row_before, row_after));
    crate::rope_rotation::pairs_are_disjoint(here.shape, head, k);
    assert(0 <= r * w && r * w + w <= rows * w) by (nonlinear_arith)
        requires
            0 <= r < rows,
            w >= 0,
    ;
    let (x, y) = pair_at(params, head, k);
    assert(row_before[x] == before[r * w + x] && row_before[y] == before[r * w + y]);
    assert(row_after[x] == after[r * w + x] && row_after[y] == after[r * w + y]);
    let (i, j) = (r * w + x, r * w + y);
    assert((x, y) == here.shape.pair_dims(head, k));
    assert(call_ensures(
        rotate,
        (params.direction, a, before[i], before[j]),
        (after[i], after[j]),
    ));
}

/// Tables hold, for each position from that of the plan on and for each pair of a head, the
/// angle of that pair at that position, and nothing more.
pub proof fn tables_hold_the_angles<T, F: Fn(RopeParams, usize, usize) -> (T, T)>(
    params: RopeParams,
    positions: int,
    angle: F,
    cos: Seq<T>,
    sin: Seq<T>,
    p: int,
    k: int,
)
    requires
        crate::rope_plan::tables_hold(params, positions, angle, cos, sin),
        params.shape.rope_dim % 2 == 0,
        0 <= p < positions,
        0 <= 2 * k < params.shape.rope_dim,
        counted_position(params) + p <= usize::MAX,
    ensures
        ({
            let half = params.shape.rope_dim as int / 2;
            &&& cos.len() == positions * half
            &&& sin.len() == positions * half
            &&& call_ensures(
                angle,
                (
                    RopeParams { position: (params.position + p) as usize, ..params },
                    (counted_position(params) + p) as usize,
                    k as usize,
                ),
                (cos[p * half + k], sin[p * half + k]),
            )
        }),
{
    let half = params.shape.rope_dim as int / 2;
    let here = RopeParams { position: (params.position + p) as usize, ..params };
    assert(here == params.at((params.position + p) as usize));
    assert(here.effective_position() == counted_position(params) + p);
    assert(
        crate::rope_plan::table_entry(
            params.at((params.position + p) as usize),
            angle,
            cos,
            sin,
            p * half + k,
            k,
        )
    );
}

/// A fault of a shape is of the shape kind, and every other fault is of the metadata kind.
pub proof fn only_shapes_are_shape_faults(fault: RopeFault)
    ensures
        crate::rope::fault_kind(fault) is RuntimeShapeMismatch <==> fault is RuntimeShapeMismatch,
{
}

/// Of all that is wrong with the plan of a row or a batch, the first is reported, in this
/// order: the dimension count, the frequency base, the scaling, the frequency tensor, the
/// pairing, the direction, the position mode. A fault before the direction settles nothing;
/// one of the position mode leaves the direction settled.
pub proof fn faults_of_rotations_come_in_order(
    what: Seq<char>,
    width: usize,
    position: usize,
    head_count: usize,
    config: LlamaModelConfig,
    rope_freqs: Option<&FrequencyTensor>,
    readings: RopeReadings,
    resolved: RopeResolved,
)
    requires
        head_count > 0,
        width % head_count == 0,
    ensures
        ({
            let (plan, after) = crate::rope_plan::rotation_for(
                what,
                width,
                position,
                head_count,
                config,
                rope_freqs,
                readings,
                resolved,
            );
            let head_dim = width as int / head_count as int;
            let dim = dimension_given(config, head_dim);
            let sized = 0 < dim <= head_dim && dim % 2 == 0;
            let base = given_or(config.rope_freq_base, 0x461c_4000);
            let scaling = crate::rope::scaling_for(config);
            let factors = factors_usable(rope_freqs, dim);
            let pairing = pairing_of(config, readings.pairing);
            let direction = settled(resolved.direction, direction_asked(readings.direction));
            let mode = settled(
                resolved.position_mode,
                position_mode_asked(readings.position_mode),
            );
            &&& !sized ==> plan == Err::<RopeParams, RopeFault>(
                RopeFault::InvalidModelMetadata(
                    "RoPE dimension count "@ + crate::text::decimal(dim as nat)
                        + " must be even and within head dimension "@ + crate::text::decimal(
                        head_dim as nat,
                    ),
                ),
            ) && after == resolved
            &&& sized && !usable(base) ==> plan == Err::<RopeParams, RopeFault>(
                RopeFault::FrequencyBase(base),
            ) && after == resolved
            &&& sized && usable(base) && scaling is Err ==> plan == Err::<RopeParams, RopeFault>(
                scaling->Err_0,
            ) && after == resolved
            &&& sized && usable(base) && scaling is Ok && !factors ==> plan == Err::<
                RopeParams,
                RopeFault,
            >(
                crate::rope::frequency_fault(
                    rope_freqs->0.dims@,
                    rope_freqs->0.data@,
                    dim as nat,
                )->0,
            ) && after == resolved
            &&& sized && usable(base) && scaling is Ok && factors && pairing is None ==> plan
                == Err::<RopeParams, RopeFault>(
                crate::rope::pairing_setting(readings.pairing)->Err_0,
            ) && after == resolved
            &&& sized && usable(base) && scaling is Ok && factors && pairing is Some && direction
                is None ==> plan == Err::<RopeParams, RopeFault>(
                crate::rope::direction_setting(readings.direction)->Err_0,
            ) && after == resolved
            &&& sized && usable(base) && scaling is Ok && factors && pairing is Some && direction
                is Some && mode is None ==> plan == Err::<RopeParams, RopeFault>(
                crate::rope::position_mode_setting(readings.position_mode)->Err_0,
            ) && after == (RopeResolved { direction, ..resolved })
        }),
{
    let head_dim = width as int / head_count as int;
    assert(0 <= head_dim <= width) by (nonlinear_arith)
        requires
            head_dim == width as int / head_count as int,
            head_count > 0,
            width >= 0,
    ;
    dimensions_are_given(config, head_dim as nat);
    settings_are_what_is_asked_for(
        readings.pairing,
        config,
        resolved.direction,
        resolved.position_mode,
    );
    settings_are_what_is_asked_for(
        readings.direction,
        config,
        resolved.direction,
        resolved.position_mode,
    );
    settings_are_what_is_asked_for(
        readings.position_mode,
        config,
        resolved.direction,
        resolved.position_mode,
    );
    if dimensions_usable(config, head_dim) {
        if let Some(freqs) = rope_freqs {
            factors_are_refused_where_unusable(
                *freqs,
                dimension_given(config, head_dim) as nat,
            );
        }
    }
}

/// Of all that is wrong with the plan of a table, the first is reported, in this order:
/// dimension count and frequency base, the direction, the pairing, the position mode, the
/// scaling, the frequency tensor. Where rotations are inverse, nothing after the direction
/// is looked at.
pub proof fn faults_of_tables_come_in_order(
    position: usize,
    head_dim: usize,
    config: LlamaModelConfig,
    rope_freqs: Option<&FrequencyTensor>,
    readings: RopeReadings,
    resolved: RopeResolved,
)
    ensures
        ({
            let (plan, after) = crate::rope_plan::table_for(
                position,
                head_dim,
                config,
                rope_freqs,
                readings,
                resolved,
            );
            let sized = dimensions_usable(config, head_dim as int);
            let direction = settled(resolved.direction, direction_asked(readings.direction));
            let pairing = pairing_of(config, readings.pairing);
            let mode = settled(
                resolved.position_mode,
                position_mode_asked(readings.position_mode),
            );
            let forward = direction == Some(RopeDirection::Forward);
            let scaling = crate::rope::scaling_for(config);
            &&& !sized ==> plan == Err::<Option<RopeParams>, RopeFault>(
                crate::rope_plan::dimensions_for(config, head_dim as nat)->Err_0,
            ) && after == resolved
            &&& sized && direction is None ==> plan == Err::<Option<RopeParams>, RopeFault>(
                crate::rope::direction_setting(readings.direction)->Err_0,
            ) && after == resolved
            &&& sized && direction == Some(RopeDirection::Inverse) ==> plan == Ok::<
                Option<RopeParams>,
                RopeFault,
            >(None) && after == (RopeResolved { direction, ..resolved })
            &&& sized && forward && pairing is None ==> plan == Err::<
                Option<RopeParams>,
                RopeFault,
            >(crate::rope::pairing_setting(readings.pairing)->Err_0) && after == (RopeResolved {
                direction,
                ..resolved
            })
            &&& sized && forward && pairing is Some && mode is None ==> plan == Err::<
                Option<RopeParams>,
                RopeFault,
            >(crate::rope::position_mode_setting(readings.position_mode)->Err_0) && after == (
            RopeResolved { direction, ..resolved })
            &&& sized && forward && pairing is Some && mode is Some && scaling is Err ==> plan
                == Err::<Option<RopeParams>, RopeFault>(scaling->Err_0)
            &&& sized && forward && pairing is Some && mode is Some && scaling is Ok
                && !factors_usable(rope_freqs, dimension_given(config, head_dim as int)) ==> plan
                == Err::<Option<RopeParams>, RopeFault>(
                crate::rope::frequency_fault(
                    rope_freqs->0.dims@,
                    rope_freqs->0.data@,
                    dimension_given(config, head_dim as int) as nat,
                )->0,
            )
        }),
{
    dimensions_are_given(config, head_dim as nat);
    settings_are_what_is_asked_for(
        readings.pairing,
        config,
        resolved.direction,
        resolved.position_mode,
    );
    settings_are_what_is_asked_for(
        readings.direction,
        config,
        resolved.direction,
        resolved.position_mode,
    );
    settings_are_what_is_asked_for(
        readings.position_mode,
        config,
        resolved.direction,
        resolved.position_mode,
    );
    if dimensions_usable(config, head_dim as int) {
        if let Some(freqs) = rope_freqs {
            factors_are_refused_where_unusable(
                *freqs,
                dimension_given(config, head_dim as int) as nat,
            );
        }
    }
}

/// A report of a number tells that number, in its place in the text; a report in words is
/// told as it is.
pub proof fn reports_tell_their_numbers(fault: RopeFault, first: Seq<char>, second: Seq<char>)
    ensures
        match fault {
            RopeFault::InvalidModelMetadata(m) | RopeFault::RuntimeShapeMismatch(m) =>
                crate::rope::fault_text(fault, first, second) == m,
            RopeFault::FrequencyBase(_) => crate::rope::fault_text(fault, first, second)
                == "RoPE frequency base "@ + first + " must be finite and positive"@,
            RopeFault::ScalingFactor(_) => crate::rope::fault_text(fault, first, second)
                == "RoPE scaling factor "@ + first + " must be finite and positive"@,
            RopeFault::FrequencyFactor(i, _) => crate::rope::fault_text(fault, first, second)
                == "rope_freqs.weight["@ + crate::text::decimal(i) + "] frequency factor "@ + first
                + " must be finite and positive"@,
            RopeFault::Llama3Factors(_, _) => crate::rope::fault_text(fault, first, second)
                == "llama3 RoPE scaling frequency factors must be finite, positive, and high > low; got low="@
                + first + ", high="@ + second,
        },
{
}

/// A report of a setting tells which variable it is, the value that it has, and the values
/// that it can have; one that cannot be read is reported with what was said of it.
pub proof fn reports_of_settings_tell_the_variable(reading: EnvReading)
    ensures
        reading matches EnvReading::Value(v) ==> (crate::rope::pairing_setting(reading) is Err
            ==> crate::rope::pairing_setting(reading)->Err_0 == RopeFault::InvalidModelMetadata(
            "unsupported "@ + "CAMELID_ROPE_PAIRING"@ + " "@ + crate::text::quoted(v@)
                + "; expected "@ + "adjacent_even_odd or split_half"@,
        )),
        reading matches EnvReading::Value(v) ==> (crate::rope::direction_setting(reading) is Err
            ==> crate::rope::direction_setting(reading)->Err_0 == RopeFault::InvalidModelMetadata(
            "unsupported "@ + "CAMELID_ROPE_DIRECTION"@ + " "@ + crate::text::quoted(v@)
                + "; expected "@ + "forward or inverse"@,
        )),
        reading matches EnvReading::Value(v) ==> (crate::rope::position_mode_setting(
            reading,
        ) is Err ==> crate::rope::position_mode_setting(reading)->Err_0
            == RopeFault::InvalidModelMetadata(
            "unsupported "@ + "CAMELID_ROPE_POSITION_MODE"@ + " "@ + crate::text::quoted(v@)
                + "; expected "@ + "zero_based or one_based"@,
        )),
        reading matches EnvReading::Unreadable(e) ==> {
            &&& crate::rope::pairing_setting(reading) == Err::<RopePairing, RopeFault>(
                RopeFault::InvalidModelMetadata(
                    "invalid "@ + "CAMELID_ROPE_PAIRING"@ + ": "@ + e@,
                ),
            )
            &&& crate::rope::direction_setting(reading) == Err::<RopeDirection, RopeFault>(
                RopeFault::InvalidModelMetadata(
                    "invalid "@ + "CAMELID_ROPE_DIRECTION"@ + ": "@ + e@,
                ),
            )
            &&& crate::rope::position_mode_setting(reading) == Err::<RopePositionMode, RopeFault>(
                RopeFault::InvalidModelMetadata(
                    "invalid "@ + "CAMELID_ROPE_POSITION_MODE"@ + ": "@ + e@,
                ),
            )
        },
{
}

/// A shape is reported with what was expected and what is there: no heads, a tensor of
/// another rank, or a width that the heads do not share evenly.
pub proof fn reports_of_shapes_tell_what_is_there(
    name: Seq<char>,
    dims: Seq<usize>,
    position: usize,
    head_count: usize,
    config: LlamaModelConfig,
    rope_freqs: Option<&FrequencyTensor>,
    readings: RopeReadings,
    resolved: RopeResolved,
)
    ensures
        ({
            let row = crate::rope_plan::row_rotation_for(
                name,
                dims,
                position,
                head_count,
                config,
                rope_freqs,
                readings,
                resolved,
            ).0;
            let batch = crate::rope_plan::batch_rotation_for(
                name,
                dims,
                position,
                head_count,
                config,
                rope_freqs,
                readings,
                resolved,
            ).0;
            let uneven = " width "@ + crate::text::decimal(dims[1] as nat)
                + " is not divisible by head count "@ + crate::text::decimal(head_count as nat);
            &&& head_count == 0 ==> row == Err::<RopeParams, RopeFault>(
                RopeFault::RuntimeShapeMismatch("RoPE head count must be greater than zero"@),
            ) && batch == row
            &&& head_count > 0 && (dims.len() != 2 || dims[0] != 1) ==> row == Err::<
                RopeParams,
                RopeFault,
            >(
                RopeFault::RuntimeShapeMismatch(
                    "RoPE input "@ + name + " expected shape [1, width], got "@
                        + crate::text::listed(dims),
                ),
            )
            &&& head_count > 0 && dims.len() != 2 ==> batch == Err::<RopeParams, RopeFault>(
                RopeFault::RuntimeShapeMismatch(
                    "RoPE batch input "@ + name + " expected rank 2, got "@ + crate::text::listed(
                        dims,
                    ),
                ),
            )
            &&& head_count > 0 && dims.len() == 2 && dims[0] == 1 && dims[1] % head_count != 0
                ==> row == Err::<RopeParams, RopeFault>(
                RopeFault::RuntimeShapeMismatch("RoPE input"@ + uneven),
            )
            &&& head_count > 0 && dims.len() == 2 && dims[1] % head_count != 0 ==> batch == Err::<
                RopeParams,
                RopeFault,
            >(RopeFault::RuntimeShapeMismatch("RoPE batch input"@ + uneven))
        }),
{
    if head_count > 0 && dims.len() == 2 && dims[1] % head_count != 0 {
        let w = crate::text::decimal(dims[1] as nat);
        let h = crate::text::decimal(head_count as nat);
        let uneven = " width "@ + w + " is not divisible by head count "@ + h;
        assert("RoPE input"@ + " width "@ + w + " is not divisible by head count "@ + h
            =~= "RoPE input"@ + uneven);
        assert("RoPE batch input"@ + " width "@ + w + " is not divisible by head count "@ + h
            =~= "RoPE batch input"@ + uneven);
    }
}

/// A frequency tensor of the wrong shape is reported with the shape it should have and the
/// shape it has, and metadata without rotating elements with their number.
pub proof fn reports_of_frequency_tensors_tell_the_shape(freqs: FrequencyTensor, rope_dim: nat)
    ensures
        rope_dim == 0 || rope_dim % 2 != 0 ==> crate::rope::frequency_fault(
            freqs.dims@,
            freqs.data@,
            rope_dim,
        ) == Some(
            RopeFault::InvalidModelMetadata(
                "RoPE dimension count "@ + crate::text::decimal(rope_dim)
                    + " must be even and greater than zero"@,
            ),
        ),
        rope_dim > 0 && rope_dim % 2 == 0 && !(freqs.dims@.len() == 1 && 2 * freqs.dims@[0]
            == rope_dim) ==> crate::rope::frequency_fault(freqs.dims@, freqs.data@, rope_dim)
            == Some(
            RopeFault::InvalidModelMetadata(
                "rope_freqs.weight expected shape ["@ + crate::text::decimal(rope_dim / 2)
                    + "], got "@ + crate::text::listed(freqs.dims@),
            ),
        ),
{
}

} // verus!
