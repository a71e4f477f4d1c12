//! Real-time instrument-to-MIDI conversion core.
//!
//! The library covers the analysis-and-decision pipeline: monophonic and
//! polyphonic pitch estimation, confidence-based note disambiguation with
//! short-term learning, the note/pitch-bend state machine that turns raw
//! detections into discrete MIDI events, and the binary serialization of a
//! recorded performance into a standard timed-track file.
//!
//! All quantities are carried as plain integers so that every contract is
//! exact: frequencies in milli-hertz, confidences in per-mille, audio samples
//! as Q15 fixed-point 16-bit integers, spectral magnitudes in
//! Q15-scaled units, and pitch-bend amounts in ten-thousandths of full scale.

pub mod config;
pub mod engine;
pub mod fuzzy;
pub mod notes;
pub mod pitch;
pub mod polyphonic;
pub mod recorder;
pub mod window;
