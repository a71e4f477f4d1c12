//! Session configuration consumed by the analysis pipeline.
//!
//! Fractional thresholds are held in per-mille (`150` means a ratio of
//! `0.150`); durations are microseconds.

use vstd::prelude::*;

verus! {

/// Why a configuration was rejected.
#[derive(Debug, Clone, Copy, PartialEq, Eq, Structural)]
pub enum ConfigError {
    /// Fuzzy resolution is enabled but `clear_threshold_millis` is below
    /// `fuzzy_threshold_millis`: learning would accept notes less confident
    /// than the ones escalated to fuzzy resolution.
    ThresholdOrder,
}

/// Session configuration for the audio-to-MIDI pipeline.
#[derive(Debug, Clone)]
pub struct Config {
    /// Samples per processing window.
    pub buffer_size: usize,
    /// Minimum time a note must sound before silence may end it, microseconds.
    pub min_note_duration_us: u64,
    /// Normalized-difference threshold for monophonic detection, per-mille.
    pub pitch_threshold_millis: u32,
    /// MIDI output port name (`None` selects a virtual port).
    pub midi_port: Option<String>,
    /// Velocity for emitted notes, `0..=127`.
    pub velocity: u8,
    /// Enable verbose logging in the surrounding application.
    pub verbose: bool,
    /// Enable fuzzy note resolution with learning.
    pub fuzzy_enabled: bool,
    /// Confidence below which fuzzy resolution is applied, per-mille.
    pub fuzzy_threshold_millis: u32,
    /// Confidence at which a detection counts as clear for learning, per-mille.
    pub clear_threshold_millis: u32,
    /// Bound on the recent-note sequence kept by the learning history.
    pub max_recent_notes: usize,
    /// Record emitted events for saving to a timed-track file.
    pub record_enabled: bool,
    /// Output path for the recording (`None` lets the application pick one).
    pub record_output: Option<String>,
    /// Emit pitch-bend events while a note sounds.
    pub pitch_bend_enabled: bool,
    /// Pitch-bend range in semitones (typically 2 or 12).
    pub pitch_bend_range_semitones: u32,
    /// Detect several simultaneous notes instead of a single one.
    pub polyphonic_enabled: bool,
    /// Minimum spectral peak magnitude for polyphonic detection, Q15 units.
    pub polyphonic_threshold: u64,
}

/// Default for `Config::fuzzy_enabled`.
pub fn default_fuzzy_enabled() -> (r: bool)
    ensures
        r == true,
{
    true
}

/// Default for `Config::fuzzy_threshold_millis` (a ratio of 0.700).
pub fn default_fuzzy_threshold_millis() -> (r: u32)
    ensures
        r == 700,
{
    700
}

/// Default for `Config::clear_threshold_millis` (a ratio of 0.800).
pub fn default_clear_threshold_millis() -> (r: u32)
    ensures
        r == 800,
{
    800
}

/// Default for `Config::max_recent_notes`.
pub fn default_max_recent_notes() -> (r: usize)
    ensures
        r == 20,
{
    20
}

/// Default for `Config::pitch_bend_enabled`.
pub fn default_pitch_bend_enabled() -> (r: bool)
    ensures
        r == true,
{
    true
}

/// Default for `Config::pitch_bend_range_semitones`.
pub fn default_pitch_bend_range_semitones() -> (r: u32)
    ensures
        r == 2,
{
    2
}

/// Default for `Config::polyphonic_threshold`: a relative magnitude of 0.2 in
/// Q15 units.
pub fn default_polyphonic_threshold() -> (r: u64)
    ensures
        r == 6554,
{
    6554
}

impl Default for Config {
    /// The stock session: 2048-sample windows, 50 ms debounce, learning on.
    fn default() -> (c: Config)
        ensures
            c.buffer_size == 2048,
            c.min_note_duration_us == 50_000,
            c.pitch_threshold_millis == 150,
            c.midi_port is None,
            c.velocity == 80,
            c.verbose == false,
            c.fuzzy_enabled == true,
            c.fuzzy_threshold_millis == 700,
            c.clear_threshold_millis == 800,
            c.max_recent_notes == 20,
            c.record_enabled == false,
            c.record_output is None,
            c.pitch_bend_enabled == true,
            c.pitch_bend_range_semitones == 2,
            c.polyphonic_enabled == false,
            c.polyphonic_threshold == 6554,
    {
        Config {
            buffer_size: 2048,
            min_note_duration_us: 50_000,
            pitch_threshold_millis: 150,
            midi_port: None,
            velocity: 80,
            verbose: false,
            fuzzy_enabled: default_fuzzy_enabled(),
            fuzzy_threshold_millis: default_fuzzy_threshold_millis(),
            clear_threshold_millis: default_clear_threshold_millis(),
            max_recent_notes: default_max_recent_notes(),
            record_enabled: false,
            record_output: None,
            pitch_bend_enabled: default_pitch_bend_enabled(),
            pitch_bend_range_semitones: default_pitch_bend_range_semitones(),
            polyphonic_enabled: false,
            polyphonic_threshold: default_polyphonic_threshold(),
        }
    }
}

impl Config {
    /// Whether the threshold ordering rule holds: when fuzzy resolution is
    /// enabled, clear-note acceptance must be at least as strict as the
    /// fuzzy-escalation trigger.
    pub open spec fn thresholds_consistent(self) -> bool {
        self.fuzzy_enabled ==> self.clear_threshold_millis >= self.fuzzy_threshold_millis
    }

    /// Check the configuration's validity rule.
    pub fn validate(&self) -> (r: Result<(), ConfigError>)
        ensures
            r is Ok <==> self.thresholds_consistent(),
            r is Err ==> r == Result::<(), ConfigError>::Err(ConfigError::ThresholdOrder),
    {
        if self.fuzzy_enabled && self.clear_threshold_millis < self.fuzzy_threshold_millis {
            Err(ConfigError::ThresholdOrder)
        } else {
            Ok(())
        }
    }
}

} // verus!
