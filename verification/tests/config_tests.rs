use instrument_to_midi::config::{Config, ConfigError};

#[test]
fn test_default_config() {
    let config = Config::default();
    assert_eq!(config.buffer_size, 2048);
    assert_eq!(config.velocity, 80);
    assert!(!config.verbose);
}

#[test]
fn test_config_validation_valid() {
    let config = Config::default();
    assert!(config.validate().is_ok());
}

#[test]
fn test_config_validation_invalid_thresholds() {
    let config = Config {
        fuzzy_threshold_millis: 800,
        clear_threshold_millis: 700, // Invalid: clear < fuzzy
        ..Default::default()
    };
    assert!(config.validate().is_err());
}

#[test]
fn test_config_validation_disabled_fuzzy() {
    let config = Config {
        fuzzy_enabled: false,
        fuzzy_threshold_millis: 800,
        clear_threshold_millis: 700, // Would be invalid if fuzzy enabled, but OK when disabled
        ..Default::default()
    };
    assert!(config.validate().is_ok());
}

#[test]
fn test_config_pitch_bend_defaults() {
    let config = Config::default();
    assert!(config.pitch_bend_enabled);
    assert_eq!(config.pitch_bend_range_semitones, 2);
}

#[test]
fn test_config_threshold_order_error_variant() {
    let config = Config {
        fuzzy_enabled: true,
        fuzzy_threshold_millis: 900,
        clear_threshold_millis: 800,
        ..Default::default()
    };
    assert_eq!(config.validate(), Err(ConfigError::ThresholdOrder));
}

#[test]
fn test_config_defaults_match_helpers() {
    let config = Config::default();
    assert_eq!(
        config.fuzzy_enabled,
        instrument_to_midi::config::default_fuzzy_enabled()
    );
    assert_eq!(
        config.max_recent_notes,
        instrument_to_midi::config::default_max_recent_notes()
    );
    assert_eq!(
        config.pitch_bend_enabled,
        instrument_to_midi::config::default_pitch_bend_enabled()
    );
    assert_eq!(config.fuzzy_threshold_millis, 700);
    assert_eq!(config.clear_threshold_millis, 800);
    assert_eq!(config.polyphonic_threshold, 6554);
}
