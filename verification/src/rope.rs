//! Rotary position embedding (RoPE): settings, validation and the plan of a
//! rotation.

use vstd::prelude::*;

use crate::rope_rotation::RopeShape;
use crate::text::{debug_text, decimal_text, list_text, text_eq, trim_text};

verus! {

/// Which elements of a head form a pair.
#[derive(Debug, Clone, Copy, PartialEq, Eq, Structural)]
pub enum RopePairing {
    AdjacentEvenOdd,
    SplitHalf,
}

/// Which way a pair is rotated.
#[derive(Debug, Clone, Copy, PartialEq, Eq, Structural)]
pub enum RopeDirection {
    Forward,
    Inverse,
}

/// Whether the first position counts as 0 or as 1.
#[derive(Debug, Clone, Copy, PartialEq, Eq, Structural)]
pub enum RopePositionMode {
    ZeroBased,
    OneBased,
}

/// How frequencies are scaled for long contexts.
#[derive(Debug, Clone, Copy, PartialEq, Eq, Structural)]
pub enum RopeScalingKind {
    Unscaled,
    Linear,
    Llama3,
    Yarn,
}

/// A single-precision number, held by its IEEE 754 bits.
#[derive(Debug, Clone, Copy, PartialEq, Eq, Structural)]
pub struct Float32 {
    pub bits: u32,
}

impl Float32 {
    /// The number is above zero, and neither infinite nor not a number: the sign
    /// bit is clear, some bit is set, and the exponent is not the largest.
    pub open spec fn positive_finite(self) -> bool {
        0 < self.bits < 0x7f80_0000
    }

    /// Whether the number is above zero, and neither infinite nor not a number.
    pub fn is_positive_finite(self) -> (b: bool)
        ensures
            b == self.positive_finite(),
    {
        0 < self.bits && self.bits < 0x7f80_0000
    }
}

/// 1.
pub const FLOAT_1: u32 = 0x3f80_0000;

/// 4.
pub const FLOAT_4: u32 = 0x4080_0000;

/// 10000.
pub const FLOAT_10000: u32 = 0x461c_4000;

/// The scaling of a model's frequencies.
#[derive(Debug, Clone, Copy, PartialEq, Eq, Structural)]
pub struct RopeScaling {
    pub kind: RopeScalingKind,
    pub factor: Float32,
    pub original_context_length: Option<u32>,
    pub low_freq_factor: Option<Float32>,
    pub high_freq_factor: Option<Float32>,
}

/// What a model's metadata says of its position embedding.
#[derive(Debug, Clone, PartialEq, Eq)]
pub struct LlamaModelConfig {
    pub rope_neox_pairing: bool,
    pub rope_dimension_count: Option<u32>,
    pub rope_freq_base: Option<Float32>,
    pub rope_scaling_type: Option<String>,
    pub rope_scaling_factor: Option<Float32>,
    pub rope_scaling_original_context_length: Option<u32>,
    pub rope_scaling_low_freq_factor: Option<Float32>,
    pub rope_scaling_high_freq_factor: Option<Float32>,
}

/// The tensor `rope_freqs.weight`: factors that divide the frequency of each pair.
#[derive(Debug, Clone, PartialEq, Eq)]
pub struct FrequencyTensor {
    pub dims: Vec<usize>,
    pub data: Vec<Float32>,
}

/// An environment variable as it was read.
#[derive(Debug, Clone, PartialEq, Eq)]
pub enum EnvReading {
    Value(String),
    Missing,
    /// The variable is set, but its value is no text. Holds what is reported.
    Unreadable(String),
}

/// The variables that override how rotations are made.
#[derive(Debug, Clone, PartialEq, Eq)]
pub struct RopeReadings {
    pub pairing: EnvReading,
    pub direction: EnvReading,
    pub position_mode: EnvReading,
}

/// The settings that were found valid once, and hold from there on.
#[derive(Debug, Clone, Copy, PartialEq, Eq, Structural)]
pub struct RopeResolved {
    pub direction: Option<RopeDirection>,
    pub position_mode: Option<RopePositionMode>,
}

/// All that a rotation depends on.
#[derive(Debug, Clone, Copy, PartialEq, Eq, Structural)]
pub struct RopeParams {
    pub position: usize,
    pub shape: RopeShape,
    pub freq_base: Float32,
    pub direction: RopeDirection,
    pub position_mode: RopePositionMode,
    pub scaling: RopeScaling,
    /// Whether a frequency tensor divides the frequencies.
    pub has_factors: bool,
}

impl RopeParams {
    /// The same rotation at another position.
    pub open spec fn at(self, position: usize) -> RopeParams {
        RopeParams { position, ..self }
    }

    /// The same rotation of rows of another number of heads.
    pub open spec fn with_heads(self, head_count: usize) -> RopeParams {
        RopeParams { shape: RopeShape { head_count, ..self.shape }, ..self }
    }

    /// The position by which angles are computed.
    pub open spec fn effective_position(self) -> usize {
        effective(self.position_mode, self.position as nat) as usize
    }
}

/// Why a rotation cannot be made. A number that is at fault is kept as it is;
/// [`RopeError::message`] takes its printed form.
#[derive(Debug, Clone, PartialEq, Eq)]
pub enum RopeError {
    InvalidModelMetadata(String),
    RuntimeShapeMismatch(String),
    FrequencyBase(Float32),
    ScalingFactor(Float32),
    FrequencyFactor(usize, Float32),
    Llama3Factors(Float32, Float32),
}

/// What is at fault: the model's metadata or settings, or the shape of the data.
#[derive(Debug, Clone, Copy, PartialEq, Eq, Structural)]
pub enum RopeErrorKind {
    InvalidModelMetadata,
    RuntimeShapeMismatch,
}

/// What a [`RopeError`] says.
pub enum RopeFault {
    InvalidModelMetadata(Seq<char>),
    RuntimeShapeMismatch(Seq<char>),
    FrequencyBase(Float32),
    ScalingFactor(Float32),
    FrequencyFactor(nat, Float32),
    Llama3Factors(Float32, Float32),
}

impl View for RopeError {
    type V = RopeFault;

    open spec fn view(&self) -> RopeFault {
        match *self {
            RopeError::InvalidModelMetadata(m) => RopeFault::InvalidModelMetadata(m@),
            RopeError::RuntimeShapeMismatch(m) => RopeFault::RuntimeShapeMismatch(m@),
            RopeError::FrequencyBase(x) => RopeFault::FrequencyBase(x),
            RopeError::ScalingFactor(x) => RopeFault::ScalingFactor(x),
            RopeError::FrequencyFactor(i, x) => RopeFault::FrequencyFactor(i as nat, x),
            RopeError::Llama3Factors(low, high) => RopeFault::Llama3Factors(low, high),
        }
    }
}

/// A result by its value, or by what its error says.
pub open spec fn outcome<T>(result: Result<T, RopeError>) -> Result<T, RopeFault> {
    match result {
        Ok(value) => Ok(value),
        Err(error) => Err(error@),
    }
}

/// The text of a fault, given the printed form of the numbers at fault.
pub open spec fn fault_text(fault: RopeFault, first: Seq<char>, second: Seq<char>) -> Seq<char> {
    match fault {
        RopeFault::InvalidModelMetadata(m) => m,
        RopeFault::RuntimeShapeMismatch(m) => m,
        RopeFault::FrequencyBase(_) => "RoPE frequency base "@ + first
            + " must be finite and positive"@,
        RopeFault::ScalingFactor(_) => "RoPE scaling factor "@ + first
            + " must be finite and positive"@,
        RopeFault::FrequencyFactor(i, _) => "rope_freqs.weight["@ + crate::text::decimal(i)
            + "] frequency factor "@ + first + " must be finite and positive"@,
        RopeFault::Llama3Factors(_, _) =>
            "llama3 RoPE scaling frequency factors must be finite, positive, and high > low; got low="@
            + first + ", high="@ + second,
    }
}

/// A number at fault is metadata at fault.
pub open spec fn fault_kind(fault: RopeFault) -> RopeErrorKind {
    match fault {
        RopeFault::InvalidModelMetadata(_) => RopeErrorKind::InvalidModelMetadata,
        RopeFault::RuntimeShapeMismatch(_) => RopeErrorKind::RuntimeShapeMismatch,
        RopeFault::FrequencyBase(_) => RopeErrorKind::InvalidModelMetadata,
        RopeFault::ScalingFactor(_) => RopeErrorKind::InvalidModelMetadata,
        RopeFault::FrequencyFactor(_, _) => RopeErrorKind::InvalidModelMetadata,
        RopeFault::Llama3Factors(_, _) => RopeErrorKind::InvalidModelMetadata,
    }
}

impl RopeError {
    /// What is at fault.
    pub fn kind(&self) -> (kind: RopeErrorKind)
        ensures
            kind == fault_kind(self@),
    {
        match self {
            RopeError::RuntimeShapeMismatch(_) => RopeErrorKind::RuntimeShapeMismatch,
            _ => RopeErrorKind::InvalidModelMetadata,
        }
    }

    /// The text of the error. `first` and `second` are the printed forms of the
    /// numbers at fault, in their order.
    pub fn message(&self, first: &str, second: &str) -> (text: String)
        ensures
            text@ == fault_text(self@, first@, second@),
    {
        match self {
            RopeError::InvalidModelMetadata(m) => m.clone(),
            RopeError::RuntimeShapeMismatch(m) => m.clone(),
            RopeError::FrequencyBase(_) => {
                let mut text: String = "RoPE frequency base ".to_owned();
                text.append(first);
                text.append(" must be finite and positive");
                text
            },
            RopeError::ScalingFactor(_) => {
                let mut text: String = "RoPE scaling factor ".to_owned();
                text.append(first);
                text.append(" must be finite and positive");
                text
            },
            RopeError::FrequencyFactor(i, _) => {
                let mut text: String = "rope_freqs.weight[".to_owned();
                text.append(decimal_text(*i).as_str());
                text.append("] frequency factor ");
                text.append(first);
                text.append(" must be finite and positive");
                text
            },
            RopeError::Llama3Factors(_, _) => {
                let mut text: String =
                    "llama3 RoPE scaling frequency factors must be finite, positive, and high > low; got low=".to_owned();
                text.append(first);
                text.append(", high=");
                text.append(second);
                text
            },
        }
    }
}

/// The label of a pairing.
pub open spec fn pairing_label(pairing: RopePairing) -> Seq<char> {
    match pairing {
        RopePairing::AdjacentEvenOdd => "adjacent_even_odd"@,
        RopePairing::SplitHalf => "split_half"@,
    }
}

/// The label of a direction.
pub open spec fn direction_label(direction: RopeDirection) -> Seq<char> {
    match direction {
        RopeDirection::Forward => "forward"@,
        RopeDirection::Inverse => "inverse"@,
    }
}

/// The label of a position mode.
pub open spec fn position_mode_label(mode: RopePositionMode) -> Seq<char> {
    match mode {
        RopePositionMode::ZeroBased => "zero_based"@,
        RopePositionMode::OneBased => "one_based"@,
    }
}

/// The label of a scaling kind.
pub open spec fn scaling_kind_label(kind: RopeScalingKind) -> Seq<char> {
    match kind {
        RopeScalingKind::Unscaled => "none"@,
        RopeScalingKind::Linear => "linear"@,
        RopeScalingKind::Llama3 => "llama3"@,
        RopeScalingKind::Yarn => "yarn"@,
    }
}

impl RopePairing {
    /// The label, as the override variable spells it.
    pub fn label(self) -> (label: &'static str)
        ensures
            label@ == pairing_label(self),
    {
        match self {
            RopePairing::AdjacentEvenOdd => "adjacent_even_odd",
            RopePairing::SplitHalf => "split_half",
        }
    }
}

impl RopeDirection {
    /// The label, as the override variable spells it.
    pub fn label(self) -> (label: &'static str)
        ensures
            label@ == direction_label(self),
    {
        match self {
            RopeDirection::Forward => "forward",
            RopeDirection::Inverse => "inverse",
        }
    }
}

/// The position by which angles are computed.
pub open spec fn effective(mode: RopePositionMode, position: nat) -> nat {
    match mode {
        RopePositionMode::ZeroBased => position,
        RopePositionMode::OneBased => position + 1,
    }
}

impl RopePositionMode {
    /// The label, as the override variable spells it.
    pub fn label(self) -> (label: &'static str)
        ensures
            label@ == position_mode_label(self),
    {
        match self {
            RopePositionMode::ZeroBased => "zero_based",
            RopePositionMode::OneBased => "one_based",
        }
    }

    /// The position by which angles are computed.
    pub fn effective_position(self, position: usize) -> (p: usize)
        requires
            effective(self, position as nat) <= usize::MAX,
        ensures
            p == effective(self, position as nat),
    {
        match self {
            RopePositionMode::ZeroBased => position,
            RopePositionMode::OneBased => position + 1,
        }
    }
}

impl RopeScalingKind {
    /// The label, as model metadata spells it.
    pub fn label(self) -> (label: &'static str)
        ensures
            label@ == scaling_kind_label(self),
    {
        match self {
            RopeScalingKind::Unscaled => "none",
            RopeScalingKind::Linear => "linear",
            RopeScalingKind::Llama3 => "llama3",
            RopeScalingKind::Yarn => "yarn",
        }
    }
}

/// The report of an unsupported value, given the value in quotes.
pub open spec fn unsupported_text(
    what: Seq<char>,
    quoted_value: Seq<char>,
    expected: Seq<char>,
) -> Seq<char> {
    "unsupported "@ + what + " "@ + quoted_value + "; expected "@ + expected
}

/// The report of an unsupported value, given the value in quotes.
pub fn unsupported_message(what: &str, quoted_value: &str, expected: &str) -> (text: String)
    ensures
        text@ == unsupported_text(what@, quoted_value@, expected@),
{
    let mut text: String = "unsupported ".to_owned();
    text.append(what);
    text.append(" ");
    text.append(quoted_value);
    text.append("; expected ");
    text.append(expected);
    text
}

/// The fault of an unsupported value.
pub open spec fn unsupported(
    what: Seq<char>,
    value: Seq<char>,
    expected: Seq<char>,
) -> RopeFault {
    RopeFault::InvalidModelMetadata(
        unsupported_text(what, crate::text::quoted(value), expected),
    )
}

/// The fault of a variable that cannot be read.
pub open spec fn unreadable(variable: Seq<char>, reported: Seq<char>) -> RopeFault {
    RopeFault::InvalidModelMetadata("invalid "@ + variable + ": "@ + reported)
}

/// The error of an unsupported value.
fn unsupported_error(what: &str, value: &str, expected: &str) -> (error: RopeError)
    ensures
        error@ == unsupported(what@, value@, expected@),
{
    let quoted_value: String = debug_text(value);
    RopeError::InvalidModelMetadata(unsupported_message(what, quoted_value.as_str(), expected))
}

/// The error of a variable that cannot be read.
fn unreadable_error(variable: &str, reported: &str) -> (error: RopeError)
    ensures
        error@ == unreadable(variable@, reported@),
{
    let mut text: String = "invalid ".to_owned();
    text.append(variable);
    text.append(": ");
    text.append(reported);
    RopeError::InvalidModelMetadata(text)
}

/// The pairing that `CAMELID_ROPE_PAIRING` asks for.
pub open spec fn pairing_setting(reading: EnvReading) -> Result<RopePairing, RopeFault> {
    match reading {
        EnvReading::Value(v) => if v@ == "split_half"@ {
            Ok(RopePairing::SplitHalf)
        } else if v@ == "adjacent_even_odd"@ || v@ == ""@ {
            Ok(RopePairing::AdjacentEvenOdd)
        } else {
            Err(
                unsupported("CAMELID_ROPE_PAIRING"@, v@, "adjacent_even_odd or split_half"@),
            )
        },
        EnvReading::Missing => Ok(RopePairing::AdjacentEvenOdd),
        EnvReading::Unreadable(e) => Err(unreadable("CAMELID_ROPE_PAIRING"@, e@)),
    }
}

/// The pairing of a model: the override where there is one, else what the
/// metadata says.
pub open spec fn pairing_for(
    config: LlamaModelConfig,
    reading: EnvReading,
) -> Result<RopePairing, RopeFault> {
    if reading !is Missing {
        pairing_setting(reading)
    } else if config.rope_neox_pairing {
        Ok(RopePairing::SplitHalf)
    } else {
        Ok(RopePairing::AdjacentEvenOdd)
    }
}

/// The direction that `CAMELID_ROPE_DIRECTION` asks for.
pub open spec fn direction_setting(reading: EnvReading) -> Result<RopeDirection, RopeFault> {
    match reading {
        EnvReading::Value(v) => if v@ == "inverse"@ {
            Ok(RopeDirection::Inverse)
        } else if v@ == "forward"@ || v@ == ""@ {
            Ok(RopeDirection::Forward)
        } else {
            Err(unsupported("CAMELID_ROPE_DIRECTION"@, v@, "forward or inverse"@))
        },
        EnvReading::Missing => Ok(RopeDirection::Forward),
        EnvReading::Unreadable(e) => Err(unreadable("CAMELID_ROPE_DIRECTION"@, e@)),
    }
}

/// The position mode that `CAMELID_ROPE_POSITION_MODE` asks for.
pub open spec fn position_mode_setting(reading: EnvReading) -> Result<RopePositionMode, RopeFault> {
    match reading {
        EnvReading::Value(v) => if v@ == "one_based"@ {
            Ok(RopePositionMode::OneBased)
        } else if v@ == "zero_based"@ || v@ == ""@ {
            Ok(RopePositionMode::ZeroBased)
        } else {
            Err(unsupported("CAMELID_ROPE_POSITION_MODE"@, v@, "zero_based or one_based"@))
        },
        EnvReading::Missing => Ok(RopePositionMode::ZeroBased),
        EnvReading::Unreadable(e) => Err(unreadable("CAMELID_ROPE_POSITION_MODE"@, e@)),
    }
}

/// The pairing of a model.
pub fn rope_pairing_for_config(config: &LlamaModelConfig, reading: &EnvReading) -> (result: Result<
    RopePairing,
    RopeError,
>)
    ensures
        outcome(result) == pairing_for(*config, *reading),
{
    match reading {
        EnvReading::Missing => Ok(
            if config.rope_neox_pairing {
                RopePairing::SplitHalf
            } else {
                RopePairing::AdjacentEvenOdd
            },
        ),
        _ => diagnostic_rope_pairing(reading),
    }
}

/// The pairing that the variable `CAMELID_ROPE_PAIRING`, read as `reading`, asks
/// for.
pub fn diagnostic_rope_pairing(reading: &EnvReading) -> (result: Result<RopePairing, RopeError>)
    ensures
        outcome(result) == pairing_setting(*reading),
{
    match reading {
        EnvReading::Value(value) => {
            let v: &str = value.as_str();
            if text_eq(v, "split_half") {
                Ok(RopePairing::SplitHalf)
            } else if text_eq(v, "adjacent_even_odd") || text_eq(v, "") {
                Ok(RopePairing::AdjacentEvenOdd)
            } else {
                Err(
                    unsupported_error(
                        "CAMELID_ROPE_PAIRING",
                        v,
                        "adjacent_even_odd or split_half",
                    ),
                )
            }
        },
        EnvReading::Missing => Ok(RopePairing::AdjacentEvenOdd),
        EnvReading::Unreadable(err) => Err(unreadable_error("CAMELID_ROPE_PAIRING", err.as_str())),
    }
}

/// The direction in force: the one resolved before, else what the variable asks
/// for now.
pub open spec fn direction_now(
    resolved: Option<RopeDirection>,
    reading: EnvReading,
) -> Result<RopeDirection, RopeFault> {
    match resolved {
        Some(direction) => Ok(direction),
        None => direction_setting(reading),
    }
}

/// The position mode in force: the one resolved before, else what the variable
/// asks for now.
pub open spec fn position_mode_now(
    resolved: Option<RopePositionMode>,
    reading: EnvReading,
) -> Result<RopePositionMode, RopeFault> {
    match resolved {
        Some(mode) => Ok(mode),
        None => position_mode_setting(reading),
    }
}

/// The value of a result, where it has one.
pub open spec fn found<T>(result: Result<T, RopeFault>) -> Option<T> {
    match result {
        Ok(value) => Some(value),
        Err(_) => None,
    }
}

/// The direction in force. A valid setting is resolved for good; an invalid one is
/// reported, and read again next time.
pub fn diagnostic_rope_direction(
    resolved: &mut Option<RopeDirection>,
    reading: &EnvReading,
) -> (result: Result<RopeDirection, RopeError>)
    ensures
        outcome(result) == direction_now(*old(resolved), *reading),
        *final(resolved) == found(direction_now(*old(resolved), *reading)),
{
    if let Some(direction) = *resolved {
        return Ok(direction);
    }
    match diagnostic_rope_direction_uncached(reading) {
        Ok(direction) => {
            *resolved = Some(direction);
            Ok(direction)
        },
        Err(error) => Err(error),
    }
}

/// The direction that the variable `CAMELID_ROPE_DIRECTION`, read as `reading`,
/// asks for.
pub fn diagnostic_rope_direction_uncached(reading: &EnvReading) -> (result: Result<
    RopeDirection,
    RopeError,
>)
    ensures
        outcome(result) == direction_setting(*reading),
{
    match reading {
        EnvReading::Value(value) => {
            let v: &str = value.as_str();
            if text_eq(v, "inverse") {
                Ok(RopeDirection::Inverse)
            } else if text_eq(v, "forward") || text_eq(v, "") {
                Ok(RopeDirection::Forward)
            } else {
                Err(unsupported_error("CAMELID_ROPE_DIRECTION", v, "forward or inverse"))
            }
        },
        EnvReading::Missing => Ok(RopeDirection::Forward),
        EnvReading::Unreadable(err) => Err(
            unreadable_error("CAMELID_ROPE_DIRECTION", err.as_str()),
        ),
    }
}

/// The position mode in force. A valid setting is resolved for good; an invalid
/// one is reported, and read again next time.
pub fn diagnostic_rope_position_mode(
    resolved: &mut Option<RopePositionMode>,
    reading: &EnvReading,
) -> (result: Result<RopePositionMode, RopeError>)
    ensures
        outcome(result) == position_mode_now(*old(resolved), *reading),
        *final(resolved) == found(position_mode_now(*old(resolved), *reading)),
{
    if let Some(mode) = *resolved {
        return Ok(mode);
    }
    match diagnostic_rope_position_mode_uncached(reading) {
        Ok(mode) => {
            *resolved = Some(mode);
            Ok(mode)
        },
        Err(error) => Err(error),
    }
}

/// The position mode that the variable `CAMELID_ROPE_POSITION_MODE`, read as
/// `reading`, asks for.
pub fn diagnostic_rope_position_mode_uncached(reading: &EnvReading) -> (result: Result<
    RopePositionMode,
    RopeError,
>)
    ensures
        outcome(result) == position_mode_setting(*reading),
{
    match reading {
        EnvReading::Value(value) => {
            let v: &str = value.as_str();
            if text_eq(v, "one_based") {
                Ok(RopePositionMode::OneBased)
            } else if text_eq(v, "zero_based") || text_eq(v, "") {
                Ok(RopePositionMode::ZeroBased)
            } else {
                Err(unsupported_error("CAMELID_ROPE_POSITION_MODE", v, "zero_based or one_based"))
            }
        },
        EnvReading::Missing => Ok(RopePositionMode::ZeroBased),
        EnvReading::Unreadable(err) => Err(
            unreadable_error("CAMELID_ROPE_POSITION_MODE", err.as_str()),
        ),
    }
}

/// The scaling kind that a metadata value names, surrounding white space aside.
pub open spec fn scaling_kind(name: Option<String>) -> Result<RopeScalingKind, RopeFault> {
    match name {
        None => Ok(RopeScalingKind::Unscaled),
        Some(s) => {
            let t = crate::text::trimmed(s@);
            if t == ""@ || t == "none"@ {
                Ok(RopeScalingKind::Unscaled)
            } else if t == "linear"@ {
                Ok(RopeScalingKind::Linear)
            } else if t == "llama3"@ {
                Ok(RopeScalingKind::Llama3)
            } else if t == "yarn"@ {
                Ok(RopeScalingKind::Yarn)
            } else {
                Err(unsupported("llama.rope.scaling.type"@, t, "none, linear, or llama3"@))
            }
        },
    }
}

/// `value`, or the number with the bits `fallback` where there is none.
pub open spec fn float_or(value: Option<Float32>, fallback: u32) -> Float32 {
    match value {
        Some(x) => x,
        None => Float32 { bits: fallback },
    }
}

/// The context length that a model was trained with: 8192 unless the metadata
/// says otherwise.
pub open spec fn original_context(config: LlamaModelConfig) -> u32 {
    match config.rope_scaling_original_context_length {
        Some(n) => n,
        None => 8192,
    }
}

/// The scaling of a model, or what is wrong with its metadata. The factor is
/// checked even where it is not used.
pub open spec fn scaling_for(config: LlamaModelConfig) -> Result<RopeScaling, RopeFault> {
    let factor = float_or(config.rope_scaling_factor, FLOAT_1);
    let context = original_context(config);
    let low = float_or(config.rope_scaling_low_freq_factor, FLOAT_1);
    let high = float_or(config.rope_scaling_high_freq_factor, FLOAT_4);
    match scaling_kind(config.rope_scaling_type) {
        Err(fault) => Err(fault),
        Ok(kind) => if !factor.positive_finite() {
            Err(RopeFault::ScalingFactor(factor))
        } else {
            match kind {
                RopeScalingKind::Unscaled => Ok(
                    RopeScaling {
                        kind,
                        factor: Float32 { bits: FLOAT_1 },
                        original_context_length: None,
                        low_freq_factor: None,
                        high_freq_factor: None,
                    },
                ),
                RopeScalingKind::Linear => Ok(
                    RopeScaling {
                        kind,
                        factor,
                        original_context_length: None,
                        low_freq_factor: None,
                        high_freq_factor: None,
                    },
                ),
                RopeScalingKind::Llama3 => if context == 0 {
                    Err(
                        RopeFault::InvalidModelMetadata(
                            "llama3 RoPE scaling original context length must be greater than zero"@,
                        ),
                    )
                } else if !low.positive_finite() || !high.positive_finite() || high.bits
                    <= low.bits {
                    Err(RopeFault::Llama3Factors(low, high))
                } else {
                    Ok(
                        RopeScaling {
                            kind,
                            factor,
                            original_context_length: Some(context),
                            low_freq_factor: Some(low),
                            high_freq_factor: Some(high),
                        },
                    )
                },
                RopeScalingKind::Yarn => if context == 0 {
                    Err(
                        RopeFault::InvalidModelMetadata(
                            "yarn RoPE scaling original context length must be greater than zero"@,
                        ),
                    )
                } else {
                    Ok(
                        RopeScaling {
                            kind,
                            factor,
                            original_context_length: Some(context),
                            low_freq_factor: None,
                            high_freq_factor: None,
                        },
                    )
                },
            }
        },
    }
}

/// `value`, or the number with the bits `fallback` where there is none.
fn float_or_default(value: Option<Float32>, fallback: u32) -> (x: Float32)
    ensures
        x == float_or(value, fallback),
{
    match value {
        Some(x) => x,
        None => Float32 { bits: fallback },
    }
}

/// The scaling kind that a metadata value names.
fn rope_scaling_kind(name: &Option<String>) -> (result: Result<RopeScalingKind, RopeError>)
    ensures
        outcome(result) == scaling_kind(*name),
{
    match name {
        None => Ok(RopeScalingKind::Unscaled),
        Some(s) => {
            let t: &str = trim_text(s.as_str());
            if text_eq(t, "") || text_eq(t, "none") {
                Ok(RopeScalingKind::Unscaled)
            } else if text_eq(t, "linear") {
                Ok(RopeScalingKind::Linear)
            } else if text_eq(t, "llama3") {
                Ok(RopeScalingKind::Llama3)
            } else if text_eq(t, "yarn") {
                Ok(RopeScalingKind::Yarn)
            } else {
                Err(unsupported_error("llama.rope.scaling.type", t, "none, linear, or llama3"))
            }
        },
    }
}

/// The scaling of a model.
pub fn rope_scaling_from_config(config: &LlamaModelConfig) -> (result: Result<
    RopeScaling,
    RopeError,
>)
    ensures
        outcome(result) == scaling_for(*config),
{
    let kind: RopeScalingKind = match rope_scaling_kind(&config.rope_scaling_type) {
        Ok(kind) => kind,
        Err(error) => {
            return Err(error);
        },
    };
    let factor: Float32 = float_or_default(config.rope_scaling_factor, FLOAT_1);
    if !factor.is_positive_finite() {
        return Err(RopeError::ScalingFactor(factor));
    }
    let original_context_length: u32 = match config.rope_scaling_original_context_length {
        Some(n) => n,
        None => 8192,
    };
    match kind {
        RopeScalingKind::Unscaled => Ok(
            RopeScaling {
                kind,
                factor: Float32 { bits: FLOAT_1 },
                original_context_length: None,
                low_freq_factor: None,
                high_freq_factor: None,
            },
        ),
        RopeScalingKind::Linear => Ok(
            RopeScaling {
                kind,
                factor,
                original_context_length: None,
                low_freq_factor: None,
                high_freq_factor: None,
            },
        ),
        RopeScalingKind::Llama3 => {
            if original_context_length == 0 {
                return Err(
                    RopeError::InvalidModelMetadata(
                        "llama3 RoPE scaling original context length must be greater than zero".to_owned(),
                    ),
                );
            }
            let low: Float32 = float_or_default(config.rope_scaling_low_freq_factor, FLOAT_1);
            let high: Float32 = float_or_default(config.rope_scaling_high_freq_factor, FLOAT_4);
            if !low.is_positive_finite() || !high.is_positive_finite() || high.bits <= low.bits {
                return Err(RopeError::Llama3Factors(low, high));
            }
            Ok(
                RopeScaling {
                    kind,
                    factor,
                    original_context_length: Some(original_context_length),
                    low_freq_factor: Some(low),
                    high_freq_factor: Some(high),
                },
            )
        },
        RopeScalingKind::Yarn => {
            if original_context_length == 0 {
                return Err(
                    RopeError::InvalidModelMetadata(
                        "yarn RoPE scaling original context length must be greater than zero".to_owned(),
                    ),
                );
            }
            Ok(
                RopeScaling {
                    kind,
                    factor,
                    original_context_length: Some(original_context_length),
                    low_freq_factor: None,
                    high_freq_factor: None,
                },
            )
        },
    }
}

/// The first factor that is not positive and finite.
pub open spec fn first_bad_factor(data: Seq<Float32>) -> Option<(nat, Float32)>
    decreases data.len(),
{
    if data.len() == 0 {
        None
    } else {
        match first_bad_factor(data.drop_last()) {
            Some(bad) => Some(bad),
            None => if data.last().positive_finite() {
                None
            } else {
                Some(((data.len() - 1) as nat, data.last()))
            },
        }
    }
}

/// What is wrong with a frequency tensor for `rope_dim` rotating elements.
pub open spec fn frequency_fault(
    dims: Seq<usize>,
    data: Seq<Float32>,
    rope_dim: nat,
) -> Option<RopeFault> {
    if rope_dim == 0 || rope_dim % 2 != 0 {
        Some(
            RopeFault::InvalidModelMetadata(
                "RoPE dimension count "@ + crate::text::decimal(rope_dim)
                    + " must be even and greater than zero"@,
            ),
        )
    } else if !(dims.len() == 1 && dims[0] == rope_dim / 2) {
        Some(
            RopeFault::InvalidModelMetadata(
                "rope_freqs.weight expected shape ["@ + crate::text::decimal(rope_dim / 2)
                    + "], got "@ + crate::text::listed(dims),
            ),
        )
    } else {
        match first_bad_factor(data) {
            Some((i, x)) => Some(RopeFault::FrequencyFactor(i, x)),
            None => None,
        }
    }
}

/// The factors of a frequency tensor, one for each pair.
pub fn validate_rope_frequency_tensor(rope_freqs: &FrequencyTensor, rope_dim: usize) -> (result:
    Result<&[Float32], RopeError>)
    ensures
        match result {
            Ok(data) => data@ == rope_freqs.data@ && frequency_fault(
                rope_freqs.dims@,
                rope_freqs.data@,
                rope_dim as nat,
            ) is None,
            Err(error) => frequency_fault(rope_freqs.dims@, rope_freqs.data@, rope_dim as nat)
                == Some(error@),
        },
{
    let expected_count: usize = rope_dim / 2;
    if rope_dim == 0 || rope_dim % 2 != 0 {
        let mut text: String = "RoPE dimension count ".to_owned();
        text.append(decimal_text(rope_dim).as_str());
        text.append(" must be even and greater than zero");
        return Err(RopeError::InvalidModelMetadata(text));
    }
    if !(rope_freqs.dims.len() == 1 && rope_freqs.dims[0] == expected_count) {
        let mut text: String = "rope_freqs.weight expected shape [".to_owned();
        text.append(decimal_text(expected_count).as_str());
        text.append("], got ");
        text.append(list_text(rope_freqs.dims.as_slice()).as_str());
        return Err(RopeError::InvalidModelMetadata(text));
    }
    let data: &[Float32] = rope_freqs.data.as_slice();
    let mut idx: usize = 0;
    assert(data@.take(0) =~= Seq::empty());
    while idx < data.len()
        invariant
            idx <= data@.len(),
            data@ == rope_freqs.data@,
            rope_dim != 0 && rope_dim % 2 == 0,
            rope_freqs.dims@.len() == 1 && rope_freqs.dims@[0] == rope_dim / 2,
            first_bad_factor(data@.take(idx as int)) is None,
        decreases data@.len() - idx,
    {
        proof {
            assert(data@.take(idx + 1).drop_last() =~= data@.take(idx as int));
        }
        let frequency: Float32 = data[idx];
        if !frequency.is_positive_finite() {
            proof {
                lemma_bad_factor_stays(data@, idx + 1);
            }
            return Err(RopeError::FrequencyFactor(idx, frequency));
        }
        idx = idx + 1;
    }
    assert(data@.take(idx as int) =~= data@);
    Ok(data)
}

proof fn lemma_bad_factor_stays(data: Seq<Float32>, n: int)
    requires
        0 <= n <= data.len(),
        first_bad_factor(data.take(n)) is Some,
    ensures
        first_bad_factor(data) == first_bad_factor(data.take(n)),
    decreases data.len() - n,
{
    if n == data.len() {
        assert(data.take(n) =~= data);
    } else {
        assert(data.take(n + 1).drop_last() =~= data.take(n));
        lemma_bad_factor_stays(data, n + 1);
    }
}

} // verus!
