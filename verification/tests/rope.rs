//! Rotary position embedding: settings, validation, rotation and tables.

use camelid::rope::{
    diagnostic_rope_direction, diagnostic_rope_pairing, diagnostic_rope_position_mode,
    rope_pairing_for_config, rope_scaling_from_config, validate_rope_frequency_tensor, EnvReading,
    Float32, FrequencyTensor, LlamaModelConfig, RopeDirection, RopeError, RopeErrorKind, RopePairing,
    RopeParams, RopePositionMode, RopeReadings, RopeResolved, RopeScaling, RopeScalingKind, FLOAT_1,
    FLOAT_10000, FLOAT_4,
};
use camelid::rope_plan::{
    apply_rope, apply_rope_batch, apply_rope_with_pairing, plan_rope, plan_rope_batch,
    resident_decode_rope_tables, resident_prefill_rope_tables,
};
use camelid::rope_rotation::{apply_rope_to_row, RopeShape};

fn float(x: f32) -> Float32 {
    Float32 { bits: x.to_bits() }
}

fn value(x: Float32) -> f32 {
    f32::from_bits(x.bits)
}

fn assert_close(actual: f32, expected: f32) {
    assert!(
        (actual - expected).abs() < 1e-5,
        "expected {expected}, got {actual}"
    );
}

fn config() -> LlamaModelConfig {
    LlamaModelConfig {
        rope_neox_pairing: false,
        rope_dimension_count: None,
        rope_freq_base: None,
        rope_scaling_type: None,
        rope_scaling_factor: None,
        rope_scaling_original_context_length: None,
        rope_scaling_low_freq_factor: None,
        rope_scaling_high_freq_factor: None,
    }
}

fn llama3(text: &str) -> LlamaModelConfig {
    LlamaModelConfig {
        rope_scaling_type: Some(text.to_string()),
        ..config()
    }
}

fn no_readings() -> RopeReadings {
    RopeReadings {
        pairing: EnvReading::Missing,
        direction: EnvReading::Missing,
        position_mode: EnvReading::Missing,
    }
}

fn unresolved() -> RopeResolved {
    RopeResolved {
        direction: None,
        position_mode: None,
    }
}

fn set(text: &str) -> EnvReading {
    EnvReading::Value(text.to_string())
}

/// The rotation of a pair: sine and cosine of its angle. Handles unscaled and
/// llama3-scaled frequencies.
fn angle_of(factors: Option<Vec<f32>>) -> impl Fn(RopeParams, usize, usize) -> (f32, f32) {
    move |params: RopeParams, effective: usize, pair: usize| {
        let base = value(params.freq_base)
            .powf(-(pair as f32 * 2.0) / params.shape.rope_dim as f32);
        let mut frequency = match &factors {
            Some(f) => base / f[pair],
            None => base,
        };
        if params.scaling.kind == RopeScalingKind::Llama3 {
            let context = params.scaling.original_context_length.unwrap() as f32;
            let low = value(params.scaling.low_freq_factor.unwrap());
            let high = value(params.scaling.high_freq_factor.unwrap());
            let factor = value(params.scaling.factor);
            let wavelength = (2.0 * std::f32::consts::PI) / frequency;
            if wavelength > context / low {
                frequency /= factor;
            } else if wavelength >= context / high {
                let smooth = (context / wavelength - low) / (high - low);
                frequency = ((1.0 - smooth) * frequency / factor) + (smooth * frequency);
            }
        }
        (effective as f32 * frequency).sin_cos()
    }
}

fn rotate(direction: RopeDirection, a: (f32, f32), x0: f32, x1: f32) -> (f32, f32) {
    let (sin, cos) = a;
    match direction {
        RopeDirection::Forward => ((x0 * cos) - (x1 * sin), (x0 * sin) + (x1 * cos)),
        RopeDirection::Inverse => ((x0 * cos) + (x1 * sin), (-x0 * sin) + (x1 * cos)),
    }
}

fn no_rope_scaling() -> RopeScaling {
    RopeScaling {
        kind: RopeScalingKind::Unscaled,
        factor: float(1.0),
        original_context_length: None,
        low_freq_factor: None,
        high_freq_factor: None,
    }
}

fn row(
    data: Vec<f32>,
    position: usize,
    head_count: usize,
    config: &LlamaModelConfig,
    readings: &RopeReadings,
) -> Result<Vec<f32>, RopeError> {
    let dims = [1, data.len()];
    apply_rope(
        "query",
        &dims,
        data,
        position,
        head_count,
        config,
        None,
        readings,
        &mut unresolved(),
        &angle_of(None),
        &rotate,
    )
}

#[test]
fn applies_rope_to_each_attention_head() {
    let config = LlamaModelConfig {
        rope_dimension_count: Some(2),
        rope_freq_base: Some(float(10_000.0)),
        ..config()
    };
    let rotated = row(vec![1.0, 0.0, 0.0, 1.0], 1, 2, &config, &no_readings()).unwrap();

    let (sin, cos) = 1.0_f32.sin_cos();
    assert_eq!(rotated.len(), 4);
    assert_close(rotated[0], cos);
    assert_close(rotated[1], sin);
    assert_close(rotated[2], -sin);
    assert_close(rotated[3], cos);
}

#[test]
fn the_configured_frequency_base_is_used() {
    let config = LlamaModelConfig {
        rope_dimension_count: Some(4),
        rope_freq_base: Some(float(500_000.0)),
        ..config()
    };
    let rotated = row(vec![0.0, 0.0, 1.0, 0.0], 1, 1, &config, &no_readings()).unwrap();
    let theta_500k = 500_000.0_f32.powf(-0.5);
    let (sin_500k, cos_500k) = theta_500k.sin_cos();
    let (sin_10k, _) = 10_000.0_f32.powf(-0.5).sin_cos();
    assert_eq!(rotated.len(), 4);
    assert_close(rotated[2], cos_500k);
    assert_close(rotated[3], sin_500k);
    assert!((rotated[3] - sin_10k).abs() > 1e-3);
}

#[test]
fn llama3_frequency_scaling_is_used() {
    let config = LlamaModelConfig {
        rope_dimension_count: Some(4),
        rope_freq_base: Some(float(10_000.0)),
        rope_scaling_type: Some("llama3".to_string()),
        rope_scaling_factor: Some(float(8.0)),
        rope_scaling_original_context_length: Some(16),
        rope_scaling_low_freq_factor: Some(float(1.0)),
        rope_scaling_high_freq_factor: Some(float(4.0)),
        ..config()
    };
    let rotated = row(vec![0.0, 0.0, 1.0, 0.0], 8, 1, &config, &no_readings()).unwrap();
    let base_theta = 10_000.0_f32.powf(-0.5);
    let (scaled_sin, scaled_cos) = (8.0 * (base_theta / 8.0)).sin_cos();
    let (unscaled_sin, _) = (8.0 * base_theta).sin_cos();
    assert_eq!(rotated.len(), 4);
    assert_close(rotated[2], scaled_cos);
    assert_close(rotated[3], scaled_sin);
    assert!((rotated[3] - unscaled_sin).abs() > 1e-2);
}

#[test]
fn frequency_factors_divide_the_frequencies() {
    let config = LlamaModelConfig {
        rope_dimension_count: Some(4),
        rope_freq_base: Some(float(10_000.0)),
        ..config()
    };
    let factors = vec![1.0f32, 4.0];
    let tensor = FrequencyTensor {
        dims: vec![2],
        data: factors.iter().map(|x| float(*x)).collect(),
    };
    let rotated = apply_rope(
        "query",
        &[1, 4],
        vec![0.0, 0.0, 1.0, 0.0],
        8,
        1,
        &config,
        Some(&tensor),
        &no_readings(),
        &mut unresolved(),
        &angle_of(Some(factors)),
        &rotate,
    )
    .unwrap();
    let derived_theta = 10_000.0_f32.powf(-0.5);
    let factor_theta = derived_theta / 4.0;
    let (factor_sin, factor_cos) = (8.0_f32 * factor_theta).sin_cos();
    let (derived_sin, _) = (8.0_f32 * derived_theta).sin_cos();
    assert_eq!(rotated.len(), 4);
    assert_close(rotated[2], factor_cos);
    assert_close(rotated[3], factor_sin);
    assert!((rotated[3] - derived_sin).abs() > 0.05);
}

fn params(
    head_dim: usize,
    rope_dim: usize,
    pairing: RopePairing,
    direction: RopeDirection,
) -> RopeParams {
    RopeParams {
        position: 1,
        shape: RopeShape {
            head_count: 1,
            head_dim,
            rope_dim,
            pairing,
        },
        freq_base: float(10_000.0),
        direction,
        position_mode: RopePositionMode::ZeroBased,
        scaling: no_rope_scaling(),
        has_factors: false,
    }
}

#[test]
fn split_half_rope_pairing_is_available_for_diagnostics() {
    let tensor = vec![1.0f32, 0.0, 0.0, 0.0];
    let adjacent = apply_rope_with_pairing(
        tensor.clone(),
        params(4, 4, RopePairing::AdjacentEvenOdd, RopeDirection::Forward),
        &angle_of(None),
        &rotate,
    );
    let split = apply_rope_with_pairing(
        tensor,
        params(4, 4, RopePairing::SplitHalf, RopeDirection::Forward),
        &angle_of(None),
        &rotate,
    );

    let (sin, cos) = 1.0_f32.sin_cos();
    assert_eq!(adjacent.len(), 4);
    assert_eq!(split.len(), 4);
    assert_close(adjacent[0], cos);
    assert_close(adjacent[1], sin);
    assert_close(adjacent[2], 0.0);
    assert_close(adjacent[3], 0.0);
    assert_close(split[0], cos);
    assert_close(split[1], 0.0);
    assert_close(split[2], sin);
    assert_close(split[3], 0.0);
}

#[test]
fn inverse_rope_direction_is_available_for_diagnostics() {
    let tensor = vec![1.0f32, 0.0];
    let forward = apply_rope_with_pairing(
        tensor.clone(),
        params(2, 2, RopePairing::AdjacentEvenOdd, RopeDirection::Forward),
        &angle_of(None),
        &rotate,
    );
    let inverse = apply_rope_with_pairing(
        tensor,
        params(2, 2, RopePairing::AdjacentEvenOdd, RopeDirection::Inverse),
        &angle_of(None),
        &rotate,
    );

    let (sin, cos) = 1.0_f32.sin_cos();
    assert_eq!(forward.len(), 2);
    assert_eq!(inverse.len(), 2);
    assert_close(forward[0], cos);
    assert_close(forward[1], sin);
    assert_close(inverse[0], cos);
    assert_close(inverse[1], -sin);
}

#[test]
fn one_based_positions_start_at_one() {
    let config = LlamaModelConfig {
        rope_dimension_count: Some(2),
        ..config()
    };
    let readings = RopeReadings {
        position_mode: set("one_based"),
        ..no_readings()
    };
    let rotated = row(vec![1.0, 0.0], 0, 1, &config, &readings).unwrap();
    let (sin, cos) = 1.0_f32.sin_cos();
    assert_close(rotated[0], cos);
    assert_close(rotated[1], sin);
    assert_eq!(RopePositionMode::OneBased.effective_position(0), 1);
    assert_eq!(RopePositionMode::ZeroBased.effective_position(0), 0);
    assert!(diagnostic_rope_position_mode(&mut None, &set("diagonal")).is_err());
}

#[test]
fn resident_prefill_rope_tables_match_per_position_builder() {
    let config = LlamaModelConfig {
        rope_dimension_count: Some(8),
        rope_freq_base: Some(float(500_000.0)),
        rope_scaling_type: Some("llama3".to_string()),
        rope_scaling_factor: Some(float(32.0)),
        rope_scaling_original_context_length: Some(8192),
        rope_scaling_low_freq_factor: Some(float(1.0)),
        rope_scaling_high_freq_factor: Some(float(4.0)),
        ..config()
    };
    let n = 7;
    let head_dim = 8;
    let angle = angle_of(None);
    let tables = resident_prefill_rope_tables(
        n,
        head_dim,
        &config,
        None,
        &no_readings(),
        &mut unresolved(),
        &angle,
    )
    .unwrap()
    .expect("batched tables");
    let (cos_all, sin_all, split_half) = (tables.cos, tables.sin, tables.split_half_pairing);
    let half = head_dim / 2;
    assert_eq!(cos_all.len(), n * half);
    assert_eq!(sin_all.len(), n * half);
    for pos in 0..n {
        let t = resident_decode_rope_tables(
            pos,
            head_dim,
            &config,
            None,
            &no_readings(),
            &mut unresolved(),
            &angle,
        )
        .unwrap()
        .expect("per-position tables");
        assert_eq!(
            &cos_all[pos * half..(pos + 1) * half],
            &t.cos[..],
            "cos pos {pos}"
        );
        assert_eq!(
            &sin_all[pos * half..(pos + 1) * half],
            &t.sin[..],
            "sin pos {pos}"
        );
        assert_eq!(split_half, t.split_half_pairing);
    }
}

#[test]
fn tables_of_no_positions_are_empty() {
    let config = LlamaModelConfig {
        rope_dimension_count: Some(8),
        rope_freq_base: Some(float(500_000.0)),
        ..config()
    };
    let tables = resident_prefill_rope_tables(
        0,
        8,
        &config,
        None,
        &no_readings(),
        &mut unresolved(),
        &angle_of(None),
    )
    .unwrap()
    .unwrap();
    assert!(tables.cos.is_empty());
    assert!(tables.sin.is_empty());
    assert!(!tables.split_half_pairing);
    // The metadata is checked all the same.
    assert!(resident_prefill_rope_tables(
        0,
        7,
        &config,
        None,
        &no_readings(),
        &mut unresolved(),
        &angle_of(None),
    )
    .is_err());
}

#[test]
fn tables_agree_with_the_rotation_of_a_row() {
    for neox in [false, true] {
        let config = LlamaModelConfig {
            rope_dimension_count: Some(6),
            rope_freq_base: Some(float(500_000.0)),
            rope_neox_pairing: neox,
            ..config()
        };
        // The tables hold what the rotation takes as its angle.
        let angle = angle_of(None);
        let tables = resident_decode_rope_tables(
            9,
            8,
            &config,
            None,
            &no_readings(),
            &mut unresolved(),
            &angle,
        )
        .unwrap()
        .unwrap();
        // Three heads of eight elements, six of which rotate.
        let x: Vec<f32> = (0..24).map(|i| i as f32 * 0.7 - 2.0).collect();
        let y = row(x.clone(), 9, 3, &config, &no_readings()).unwrap();
        let half = tables.cos.len();
        assert_eq!(half, 3);
        assert_eq!(tables.split_half_pairing, neox);
        for head in 0..3 {
            let start = head * 8;
            for k in 0..half {
                let (i, j) = if neox {
                    (start + k, start + k + half)
                } else {
                    (start + 2 * k, start + 2 * k + 1)
                };
                let expected = rotate(
                    RopeDirection::Forward,
                    (tables.cos[k], tables.sin[k]),
                    x[i],
                    x[j],
                );
                assert_eq!((y[i], y[j]), expected);
            }
            assert_eq!(y[start + 6..start + 8], x[start + 6..start + 8]);
        }
    }
}

#[test]
fn error_kinds() {
    let metadata = RopeErrorKind::InvalidModelMetadata;
    for error in [
        RopeError::InvalidModelMetadata("m".to_string()),
        RopeError::FrequencyBase(float(0.0)),
        RopeError::ScalingFactor(float(0.0)),
        RopeError::FrequencyFactor(0, float(0.0)),
        RopeError::Llama3Factors(float(2.0), float(1.0)),
    ] {
        assert_eq!(error.kind(), metadata);
    }
    assert_eq!(
        RopeError::RuntimeShapeMismatch("s".to_string()).kind(),
        RopeErrorKind::RuntimeShapeMismatch
    );
}

#[test]
fn inverse_rotations_have_no_tables() {
    let readings = RopeReadings {
        direction: set("inverse"),
        ..no_readings()
    };
    let mut resolved = unresolved();
    let tables = resident_decode_rope_tables(
        3,
        4,
        &config(),
        None,
        &readings,
        &mut resolved,
        &|_: RopeParams, effective: usize, pair: usize| (effective, pair),
    );
    assert_eq!(tables, Ok(None));
    assert_eq!(resolved.direction, Some(RopeDirection::Inverse));
    assert_eq!(resolved.position_mode, None);
}

#[test]
fn a_batch_rotates_each_row_at_its_position() {
    let config = LlamaModelConfig {
        rope_dimension_count: Some(2),
        rope_neox_pairing: true,
        ..config()
    };
    let data: Vec<f32> = (0..18).map(|i| i as f32 * 0.5 - 3.0).collect();
    let angle = angle_of(None);
    let out = apply_rope_batch(
        "batch",
        &[3, 6],
        data.clone(),
        5,
        2,
        &config,
        None,
        &no_readings(),
        &mut unresolved(),
        &angle,
        &rotate,
    )
    .unwrap();
    for r in 0..3 {
        let single = row(
            data[r * 6..(r + 1) * 6].to_vec(),
            5 + r,
            2,
            &config,
            &no_readings(),
        )
        .unwrap();
        assert_eq!(&out[r * 6..(r + 1) * 6], &single[..]);
        // The last element of each head does not rotate.
        assert_eq!(out[r * 6 + 2], data[r * 6 + 2]);
        assert_eq!(out[r * 6 + 5], data[r * 6 + 5]);
    }
}

#[test]
fn each_pair_is_rotated_once() {
    for pairing in [RopePairing::AdjacentEvenOdd, RopePairing::SplitHalf] {
        let mut data: Vec<i64> = (0..12).collect();
        let rotated = RopeParams {
            shape: RopeShape {
                head_count: 2,
                head_dim: 5,
                rope_dim: 4,
                pairing,
            },
            ..params(5, 4, pairing, RopeDirection::Forward)
        };
        apply_rope_to_row(
            &mut data,
            1,
            7,
            rotated,
            &|_: RopeParams, effective: usize, pair: usize| (effective * 100 + pair) as i64,
            &|_: RopeDirection, a: i64, x0: i64, x1: i64| (1000 * x0 + a, 1000 * x1 - a),
        );
        let mut expected: Vec<i64> = (0..12).collect();
        for head in 0..2usize {
            for pair in 0..2usize {
                let (d0, d1) = match pairing {
                    RopePairing::AdjacentEvenOdd => (2 * pair, 2 * pair + 1),
                    RopePairing::SplitHalf => (pair, pair + 2),
                };
                let (i0, i1) = (1 + head * 5 + d0, 1 + head * 5 + d1);
                expected[i0] = 1000 * i0 as i64 + (700 + pair as i64);
                expected[i1] = 1000 * i1 as i64 - (700 + pair as i64);
            }
        }
        assert_eq!(data, expected);
    }
}

#[test]
fn an_exact_inverse_gives_the_row_back() {
    let there = params(4, 4, RopePairing::SplitHalf, RopeDirection::Forward);
    let back = RopeParams {
        direction: RopeDirection::Inverse,
        ..there
    };
    let angle = |_: RopeParams, effective: usize, pair: usize| (effective + 3 * pair) as i64;
    let shear = |direction: RopeDirection, a: i64, x0: i64, x1: i64| match direction {
        RopeDirection::Forward => (x0 + a * x1, x1),
        RopeDirection::Inverse => (x0 - a * x1, x1),
    };
    let row = vec![4i64, -7, 11, 2];
    let rotated = apply_rope_with_pairing(row.clone(), there, &angle, &shear);
    assert_ne!(rotated, row);
    assert_eq!(apply_rope_with_pairing(rotated, back, &angle, &shear), row);
}

#[test]
fn labels() {
    assert_eq!(RopePairing::AdjacentEvenOdd.label(), "adjacent_even_odd");
    assert_eq!(RopePairing::SplitHalf.label(), "split_half");
    assert_eq!(RopeDirection::Forward.label(), "forward");
    assert_eq!(RopeDirection::Inverse.label(), "inverse");
    assert_eq!(RopePositionMode::ZeroBased.label(), "zero_based");
    assert_eq!(RopePositionMode::OneBased.label(), "one_based");
    assert_eq!(RopeScalingKind::Unscaled.label(), "none");
    assert_eq!(RopeScalingKind::Linear.label(), "linear");
    assert_eq!(RopeScalingKind::Llama3.label(), "llama3");
    assert_eq!(RopeScalingKind::Yarn.label(), "yarn");
}

fn text<T>(result: Result<T, RopeError>) -> String {
    match result {
        Ok(_) => panic!("no error"),
        Err(error) => error.message("X", "Y"),
    }
}

#[test]
fn pairing_settings() {
    let pairing = |r: EnvReading| diagnostic_rope_pairing(&r);
    assert_eq!(pairing(set("split_half")), Ok(RopePairing::SplitHalf));
    assert_eq!(
        pairing(set("adjacent_even_odd")),
        Ok(RopePairing::AdjacentEvenOdd)
    );
    assert_eq!(pairing(set("")), Ok(RopePairing::AdjacentEvenOdd));
    assert_eq!(
        pairing(EnvReading::Missing),
        Ok(RopePairing::AdjacentEvenOdd)
    );
    assert_eq!(
        pairing(set("a\"b\n")),
        Err(RopeError::InvalidModelMetadata(
            "unsupported CAMELID_ROPE_PAIRING \"a\\\"b\\n\"; \
             expected adjacent_even_odd or split_half"
                .to_string()
        ))
    );
    assert_eq!(
        pairing(EnvReading::Unreadable("not text".to_string())),
        Err(RopeError::InvalidModelMetadata(
            "invalid CAMELID_ROPE_PAIRING: not text".to_string()
        ))
    );
}

#[test]
fn the_pairing_override_beats_the_metadata() {
    let neox = LlamaModelConfig {
        rope_neox_pairing: true,
        ..config()
    };
    let split = Ok(RopePairing::SplitHalf);
    let adjacent = Ok(RopePairing::AdjacentEvenOdd);
    assert_eq!(rope_pairing_for_config(&neox, &EnvReading::Missing), split);
    assert_eq!(
        rope_pairing_for_config(&config(), &EnvReading::Missing),
        adjacent
    );
    assert_eq!(rope_pairing_for_config(&neox, &set("")), adjacent);
    assert_eq!(
        rope_pairing_for_config(&config(), &set("split_half")),
        split
    );
    assert!(
        rope_pairing_for_config(&neox, &EnvReading::Unreadable("bad".to_string())).is_err()
    );
}

#[test]
fn valid_settings_are_resolved_once() {
    let mut direction = None;
    assert_eq!(
        text(diagnostic_rope_direction(&mut direction, &set("up"))),
        "unsupported CAMELID_ROPE_DIRECTION \"up\"; expected forward or inverse"
    );
    assert_eq!(direction, None);
    assert_eq!(
        diagnostic_rope_direction(&mut direction, &set("inverse")),
        Ok(RopeDirection::Inverse)
    );
    assert_eq!(
        diagnostic_rope_direction(&mut direction, &set("up")),
        Ok(RopeDirection::Inverse)
    );
    assert_eq!(
        diagnostic_rope_direction(&mut None, &set("")),
        Ok(RopeDirection::Forward)
    );
    assert_eq!(
        text(diagnostic_rope_direction(
            &mut None,
            &EnvReading::Unreadable("E".to_string())
        )),
        "invalid CAMELID_ROPE_DIRECTION: E"
    );

    let mut mode = None;
    assert_eq!(
        text(diagnostic_rope_position_mode(&mut mode, &set("two"))),
        "unsupported CAMELID_ROPE_POSITION_MODE \"two\"; expected zero_based or one_based"
    );
    assert_eq!(
        diagnostic_rope_position_mode(&mut mode, &EnvReading::Missing),
        Ok(RopePositionMode::ZeroBased)
    );
    assert_eq!(
        diagnostic_rope_position_mode(&mut mode, &set("one_based")),
        Ok(RopePositionMode::ZeroBased)
    );
    assert_eq!(
        text(diagnostic_rope_position_mode(
            &mut None,
            &EnvReading::Unreadable("E".to_string())
        )),
        "invalid CAMELID_ROPE_POSITION_MODE: E"
    );
}

#[test]
fn float_bits() {
    assert_eq!(FLOAT_1, 1.0f32.to_bits());
    assert_eq!(FLOAT_4, 4.0f32.to_bits());
    assert_eq!(FLOAT_10000, 10_000.0f32.to_bits());
    for good in [1.0f32, f32::MIN_POSITIVE, f32::MAX, f32::from_bits(1)] {
        assert!(float(good).is_positive_finite(), "{good}");
    }
    for bad in [0.0f32, -0.0, -1.0, f32::INFINITY, f32::NEG_INFINITY, f32::NAN, -f32::NAN] {
        assert!(!float(bad).is_positive_finite(), "{bad}");
    }
}

#[test]
fn scaling_kinds() {
    let none = no_rope_scaling();
    assert_eq!(rope_scaling_from_config(&config()), Ok(none));
    assert_eq!(rope_scaling_from_config(&llama3("  ")), Ok(none));
    let unscaled = LlamaModelConfig {
        rope_scaling_factor: Some(float(3.0)),
        ..llama3("none")
    };
    assert_eq!(rope_scaling_from_config(&unscaled), Ok(none));
    let linear = LlamaModelConfig {
        rope_scaling_factor: Some(float(3.0)),
        ..llama3(" linear ")
    };
    assert_eq!(
        rope_scaling_from_config(&linear),
        Ok(RopeScaling {
            kind: RopeScalingKind::Linear,
            factor: float(3.0),
            ..none
        })
    );
    assert_eq!(
        rope_scaling_from_config(&llama3("llama3")),
        Ok(RopeScaling {
            kind: RopeScalingKind::Llama3,
            factor: float(1.0),
            original_context_length: Some(8192),
            low_freq_factor: Some(float(1.0)),
            high_freq_factor: Some(float(4.0)),
        })
    );
    assert_eq!(
        rope_scaling_from_config(&llama3("yarn")),
        Ok(RopeScaling {
            kind: RopeScalingKind::Yarn,
            factor: float(1.0),
            original_context_length: Some(8192),
            ..none
        })
    );
}

#[test]
fn scaling_faults() {
    assert_eq!(
        text(rope_scaling_from_config(&llama3(" odd "))),
        "unsupported llama.rope.scaling.type \"odd\"; expected none, linear, or llama3"
    );
    // The factor is checked even where it is not used.
    let infinite = LlamaModelConfig {
        rope_scaling_factor: Some(float(f32::INFINITY)),
        ..config()
    };
    assert_eq!(
        rope_scaling_from_config(&infinite),
        Err(RopeError::ScalingFactor(float(f32::INFINITY)))
    );
    assert_eq!(
        text(rope_scaling_from_config(&infinite)),
        "RoPE scaling factor X must be finite and positive"
    );
    let empty = |kind: &str| LlamaModelConfig {
        rope_scaling_original_context_length: Some(0),
        ..llama3(kind)
    };
    assert_eq!(
        text(rope_scaling_from_config(&empty("llama3"))),
        "llama3 RoPE scaling original context length must be greater than zero"
    );
    assert_eq!(
        text(rope_scaling_from_config(&empty("yarn"))),
        "yarn RoPE scaling original context length must be greater than zero"
    );
    let swapped = LlamaModelConfig {
        rope_scaling_low_freq_factor: Some(float(4.0)),
        ..llama3("llama3")
    };
    assert_eq!(
        rope_scaling_from_config(&swapped),
        Err(RopeError::Llama3Factors(float(4.0), float(4.0)))
    );
    assert_eq!(
        text(rope_scaling_from_config(&swapped)),
        "llama3 RoPE scaling frequency factors must be finite, positive, and high > low; \
         got low=X, high=Y"
    );
}

#[test]
fn frequency_tensor_faults() {
    let tensor = |dims: Vec<usize>, data: Vec<f32>| FrequencyTensor {
        dims,
        data: data.into_iter().map(float).collect(),
    };
    let good = tensor(vec![2], vec![1.0, 4.0]);
    assert_eq!(
        validate_rope_frequency_tensor(&good, 4).unwrap(),
        &[float(1.0), float(4.0)]
    );
    assert_eq!(
        text(validate_rope_frequency_tensor(&good, 3)),
        "RoPE dimension count 3 must be even and greater than zero"
    );
    assert_eq!(
        text(validate_rope_frequency_tensor(&good, 0)),
        "RoPE dimension count 0 must be even and greater than zero"
    );
    assert_eq!(
        text(validate_rope_frequency_tensor(&good, 8)),
        "rope_freqs.weight expected shape [4], got [2]"
    );
    let square = tensor(vec![1, 2], vec![1.0, 4.0]);
    assert_eq!(
        text(validate_rope_frequency_tensor(&square, 4)),
        "rope_freqs.weight expected shape [2], got [1, 2]"
    );
    let bad = tensor(vec![3], vec![1.0, -2.0, f32::NAN]);
    assert_eq!(
        validate_rope_frequency_tensor(&bad, 6),
        Err(RopeError::FrequencyFactor(1, float(-2.0)))
    );
    assert_eq!(
        text(validate_rope_frequency_tensor(&bad, 6)),
        "rope_freqs.weight[1] frequency factor X must be finite and positive"
    );
}

fn plan(
    dims: &[usize],
    head_count: usize,
    config: &LlamaModelConfig,
    readings: &RopeReadings,
) -> Result<RopeParams, RopeError> {
    plan_rope("q", dims, 9, head_count, config, None, readings, &mut unresolved())
}

#[test]
fn rotation_faults_in_order() {
    let shape = RopeError::RuntimeShapeMismatch;
    assert_eq!(
        plan(&[2], 0, &config(), &no_readings()),
        Err(shape("RoPE head count must be greater than zero".to_string()))
    );
    assert_eq!(
        plan(&[2, 8], 3, &config(), &no_readings()),
        Err(shape(
            "RoPE input q expected shape [1, width], got [2, 8]".to_string()
        ))
    );
    assert_eq!(
        plan(&[1, 8], 3, &config(), &no_readings()),
        Err(shape(
            "RoPE input width 8 is not divisible by head count 3".to_string()
        ))
    );
    let wide = LlamaModelConfig {
        rope_dimension_count: Some(6),
        rope_freq_base: Some(float(-1.0)),
        ..config()
    };
    assert_eq!(
        text(plan(&[1, 8], 2, &wide, &no_readings())),
        "RoPE dimension count 6 must be even and within head dimension 4"
    );
    assert_eq!(
        text(plan(&[1, 6], 2, &config(), &no_readings())),
        "RoPE dimension count 3 must be even and within head dimension 3"
    );
    assert_eq!(
        text(plan(&[1, 0], 2, &config(), &no_readings())),
        "RoPE dimension count 0 must be even and within head dimension 0"
    );
    let negative = LlamaModelConfig {
        rope_dimension_count: Some(2),
        ..wide
    };
    assert_eq!(
        plan(&[1, 8], 2, &negative, &no_readings()),
        Err(RopeError::FrequencyBase(float(-1.0)))
    );
    assert_eq!(
        text(plan(&[1, 8], 2, &negative, &no_readings())),
        "RoPE frequency base X must be finite and positive"
    );
    let readings = RopeReadings {
        pairing: set("p"),
        direction: set("d"),
        position_mode: set("m"),
    };
    assert!(text(plan(&[1, 8], 2, &llama3("odd"), &readings)).contains("scaling.type"));
    assert!(text(plan(&[1, 8], 2, &config(), &readings)).contains("PAIRING"));
    let mut batch = unresolved();
    assert_eq!(
        text(plan_rope_batch(
            "q",
            &[2, 3, 4],
            0,
            1,
            &config(),
            None,
            &readings,
            &mut batch
        )),
        "RoPE batch input q expected rank 2, got [2, 3, 4]"
    );
    assert_eq!(
        text(plan_rope_batch(
            "q", &[2, 5], 0, 2, &config(), None, &readings, &mut batch
        )),
        "RoPE batch input width 5 is not divisible by head count 2"
    );
}

#[test]
fn a_plan_takes_metadata_and_defaults() {
    let mut resolved = unresolved();
    let planned = plan_rope(
        "q",
        &[1, 8],
        9,
        2,
        &LlamaModelConfig {
            rope_neox_pairing: true,
            ..config()
        },
        None,
        &no_readings(),
        &mut resolved,
    );
    assert_eq!(
        planned,
        Ok(RopeParams {
            position: 9,
            shape: RopeShape {
                head_count: 2,
                head_dim: 4,
                rope_dim: 4,
                pairing: RopePairing::SplitHalf,
            },
            freq_base: float(10_000.0),
            direction: RopeDirection::Forward,
            position_mode: RopePositionMode::ZeroBased,
            scaling: no_rope_scaling(),
            has_factors: false,
        })
    );
    assert_eq!(resolved.direction, Some(RopeDirection::Forward));
    assert_eq!(resolved.position_mode, Some(RopePositionMode::ZeroBased));
}
