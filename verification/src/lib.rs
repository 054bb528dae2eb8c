//! A wavetable synthesis engine in fixed-point arithmetic.
//!
//! Samples, volumes and oscillator phases are integers that count 65536ths;
//! pitches are given in millihertz, note lengths in thousandths of a beat and
//! times in microseconds. Every function returns on the inputs its contract
//! admits, and its result is stated over integers and sequences. The one
//! exception are the functions that draw a noise table (`WaveTable::noise`,
//! `TableBank::standard`, `TableBank::full`): they panic where the operating
//! system gives the random generator no entropy.
//!
//! The sine is no function of whole numbers: a sine table is computed
//! outside and handed in as samples.

pub mod error;
pub mod instrument;
pub mod oscillator;
pub mod playback;
pub mod random;
pub mod track;
pub mod wavetable;

pub use error::SongError;
pub use instrument::Instruments;
pub use instrument::TableBank;
pub use instrument::Waveform;
pub use oscillator::WavetableOscillator;
pub use playback::play_song;
pub use playback::Playback;
pub use playback::PlaybackState;
pub use track::Note;
pub use track::ProtoTrack;
pub use track::Sink;
pub use track::Track;
pub use wavetable::WaveTable;
