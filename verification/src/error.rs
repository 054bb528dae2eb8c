use vstd::prelude::*;

verus! {

/// Why a song cannot be played.
#[derive(Clone, Copy, Debug, PartialEq, Eq, Structural)]
pub enum SongError {
    /// The song is set up wrongly: a tempo of zero beats per minute, or a
    /// wave table with no samples or with more than the engine can address.
    Configuration,
    /// A track asks for an instrument that has no wave table.
    UnsupportedInstrument,
    /// The audio backend gave no output stream or no sink.
    AudioDevice,
}

} // verus!
