//! Verified core of the Chronicler desktop recorder: the WAV container logic,
//! the two-stream mixing timeline, meeting identifiers, and the recording
//! controller's portable state.
pub mod audio;
pub mod recorder;
