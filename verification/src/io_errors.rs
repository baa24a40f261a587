//! Errors of audio file and audio hardware input/output.

use vstd::prelude::*;

verus! {

/// Why an audio file could not be read or written.
#[derive(Debug, Clone, PartialEq, Eq)]
pub enum FileError {
    /// No file exists at the path.
    NotFound(String),
    /// The file's format is not supported.
    UnsupportedFormat(String),
    /// Reading failed.
    Read(String),
    /// Writing failed.
    Write(String),
    /// The operation is not implemented.
    NotImplemented(String),
}

/// Why the audio hardware could not be used.
#[derive(Debug, Clone, PartialEq, Eq)]
pub enum HardwareError {
    /// No audio device has the requested name.
    DeviceNotFound { name: String },
    /// The audio stream could not be opened.
    StreamOpenFailed { reason: String },
    /// The build has no realtime audio support.
    RealtimeNotEnabled,
    /// The hardware backend is not implemented.
    NotImplemented,
}

} // verus!
