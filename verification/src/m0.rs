//! The M0 instrument's control-side checks: preset schema, output layouts
//! and MIDI status bytes. `N` is the numeric type of parameter values.

use vstd::prelude::*;

verus! {

/// The preset schema version this engine reads and writes.
pub const M0_PRESET_SCHEMA_VERSION: u32 = 1;

/// Why an M0 engine configuration, tuning table or output was refused.
#[derive(Debug, Clone, PartialEq)]
pub enum M0EngineError<N> {
    /// The sample rate is not finite and positive.
    InvalidSampleRate(N),
    /// The maximum voice count is zero.
    InvalidVoiceCount,
    /// A parameter is not finite.
    NonFiniteParameter,
    /// A parameter is outside its supported range.
    ParameterOutOfRange,
    /// An external tuning frequency is not finite and positive.
    InvalidExternalTuningFrequency(N),
    /// The output does not consist of one or more equally sized channels.
    InvalidOutputLayout,
}

/// Why a preset was refused.
#[derive(Debug, Clone, PartialEq)]
pub enum PresetError<N> {
    /// The preset was written with another schema version.
    UnsupportedSchema(u32),
    /// The preset's parameters do not form a valid configuration.
    InvalidParameters(M0EngineError<N>),
}

/// A preset of this schema version can be read.
pub fn check_preset_schema<N>(schema_version: u32) -> (r: Result<(), PresetError<N>>)
    ensures
        schema_version == M0_PRESET_SCHEMA_VERSION ==> r is Ok,
        schema_version != M0_PRESET_SCHEMA_VERSION ==> r == Err::<(), PresetError<N>>(
            PresetError::UnsupportedSchema(schema_version),
        ),
{
    if schema_version != M0_PRESET_SCHEMA_VERSION {
        return Err(PresetError::UnsupportedSchema(schema_version));
    }
    Ok(())
}

/// The frame count of an output bus whose channels have the given lengths:
/// there must be at least one channel and all must be equally long.
pub fn check_output_layout<N>(channel_lengths: &[usize]) -> (r: Result<usize, M0EngineError<N>>)
    ensures
        channel_lengths@.len() == 0 ==> r == Err::<usize, M0EngineError<N>>(
            M0EngineError::InvalidOutputLayout,
        ),
        channel_lengths@.len() > 0 ==> ((forall|c: int|
            0 <= c < channel_lengths@.len() ==> #[trigger] channel_lengths@[c] == channel_lengths@[0])
            ==> r == Ok::<usize, M0EngineError<N>>(channel_lengths@[0])),
        channel_lengths@.len() > 0 ==> (!(forall|c: int|
            0 <= c < channel_lengths@.len() ==> #[trigger] channel_lengths@[c] == channel_lengths@[0])
            ==> r == Err::<usize, M0EngineError<N>>(M0EngineError::InvalidOutputLayout)),
{
    if channel_lengths.len() == 0 {
        return Err(M0EngineError::InvalidOutputLayout);
    }
    let frames = channel_lengths[0];
    let mut c: usize = 0;
    while c < channel_lengths.len()
        invariant
            c <= channel_lengths@.len(),
            frames == channel_lengths@[0],
            forall|k: int| 0 <= k < c ==> channel_lengths@[k] == frames,
        decreases channel_lengths@.len() - c,
    {
        if channel_lengths[c] != frames {
            return Err(M0EngineError::InvalidOutputLayout);
        }
        c = c + 1;
    }
    Ok(frames)
}

/// Whether `byte` is a MIDI status byte (its high bit is set).
pub fn is_midi_status_byte(byte: u8) -> (b: bool)
    ensures
        b == (byte >= 0x80),
{
    byte >= 0x80
}

/// The number of frames between control-rate updates of the M0 engine.
pub const CONTROL_INTERVAL_FRAMES: u64 = 16;

/// Whether control-rate state is updated at this absolute frame: every
/// sixteenth frame, starting at frame zero.
pub fn is_control_frame(absolute_frame: u64) -> (b: bool)
    ensures
        b == (absolute_frame % CONTROL_INTERVAL_FRAMES == 0),
{
    let b = absolute_frame & (CONTROL_INTERVAL_FRAMES - 1) == 0;
    assert(b == (absolute_frame % 16 == 0)) by (bit_vector)
        requires
            b == (absolute_frame & 15 == 0),
    ;
    b
}

} // verus!
