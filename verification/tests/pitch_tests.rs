use instrument_to_midi::pitch::PitchDetector;

fn sine_samples(frequency: f32, duration: f32, sample_rate: u32) -> Vec<i16> {
    let num_samples = (sample_rate as f32 * duration) as usize;
    let mut samples = Vec::with_capacity(num_samples);
    for i in 0..num_samples {
        let t = i as f32 / sample_rate as f32;
        let v = (2.0 * std::f32::consts::PI * frequency * t).sin();
        samples.push((v * 16384.0) as i16);
    }
    samples
}

#[test]
fn mod_test_frequency_to_midi() {
    // A4 = 440 Hz = MIDI note 69
    assert_eq!(PitchDetector::frequency_to_midi(440_000), 69);

    // E2 (low E on guitar) = 82.41 Hz = MIDI note 40
    assert_eq!(PitchDetector::frequency_to_midi(82_410), 40);

    // E4 = 329.63 Hz = MIDI note 64
    assert_eq!(PitchDetector::frequency_to_midi(329_630), 64);
}

#[test]
fn test_midi_to_frequency() {
    // Test round-trip conversion, within 0.1 Hz of the reference pitches
    assert!((PitchDetector::midi_to_frequency(69) as i64 - 440_000).abs() < 100);
    assert!((PitchDetector::midi_to_frequency(40) as i64 - 82_410).abs() < 100);
    assert!((PitchDetector::midi_to_frequency(64) as i64 - 329_630).abs() < 100);
}

#[test]
fn mod_test_midi_to_note_name() {
    assert_eq!(PitchDetector::midi_to_note_name(69), "A4");
    assert_eq!(PitchDetector::midi_to_note_name(40), "E2");
    assert_eq!(PitchDetector::midi_to_note_name(60), "C4");
    assert_eq!(PitchDetector::midi_to_note_name(64), "E4");
}

#[test]
fn test_pitch_detector_creation() {
    let detector = PitchDetector::new(44100, 2048, 150);
    assert_eq!(detector.sample_rate(), 44100);
    assert_eq!(detector.buffer_size(), 2048);
    assert_eq!(detector.threshold_millis(), 150);
}

#[test]
fn test_detect_pitch_with_sine_wave() {
    let sample_rate = 44100;
    let detector = PitchDetector::new(sample_rate, 2048, 150);

    // Generate a 440 Hz sine wave, 100 ms
    let samples = sine_samples(440.0, 0.1, sample_rate);

    let detected = detector.detect_pitch(&samples);
    assert!(detected.is_some());

    // Allow 5% error in frequency detection (in milli-hertz)
    if let Some(freq) = detected {
        assert!((freq as i64 - 440_000).abs() < 440_000 / 20);
    }
}

#[test]
fn test_detect_pitch_with_confidence() {
    let sample_rate = 44100;
    let detector = PitchDetector::new(sample_rate, 2048, 150);

    // Generate a 440 Hz sine wave, 100 ms
    let samples = sine_samples(440.0, 0.1, sample_rate);

    let detected = detector.detect_pitch_with_confidence(&samples);
    assert!(detected.is_some());

    if let Some((freq, confidence)) = detected {
        // Check frequency, within 5%
        assert!((freq as i64 - 440_000).abs() < 440_000 / 20);
        // Confidence should be high for a clean sine wave, per-mille
        assert!(confidence > 500);
        assert!(confidence <= 1000);
    }
}

#[test]
fn test_detect_pitch_short_window_is_silence() {
    let detector = PitchDetector::new(44100, 2048, 150);
    let samples = sine_samples(440.0, 0.01, 44100); // fewer than 2048 samples
    assert!(detector.detect_pitch(&samples).is_none());
}

#[test]
fn test_detect_pitch_silence_is_none() {
    let detector = PitchDetector::new(44100, 2048, 150);
    let samples = vec![0i16; 4096];
    assert!(detector.detect_pitch(&samples).is_none());
}

#[test]
fn test_calculate_pitch_bend_no_bend() {
    // Test with exact frequency match - should be no bend
    let target_note = 69; // A4 = 440 Hz
    let detected_frequency = 440_000;
    let pitch_bend_range = 2;

    let bend = PitchDetector::calculate_pitch_bend(detected_frequency, target_note, pitch_bend_range);

    assert!(bend.abs() < 100);
}

#[test]
fn test_calculate_pitch_bend_upward() {
    // Test with frequency 1 semitone higher
    let target_note = 69; // A4 = 440 Hz
    let detected_frequency = PitchDetector::midi_to_frequency(70); // one semitone up
    let pitch_bend_range = 2;

    let bend = PitchDetector::calculate_pitch_bend(detected_frequency, target_note, pitch_bend_range);

    // Should be half scale up (1 semitone / 2 semitone range)
    assert!((bend - 5000).abs() < 100);
}

#[test]
fn test_calculate_pitch_bend_downward() {
    // Test with frequency 1 semitone lower
    let target_note = 69; // A4 = 440 Hz
    let detected_frequency = PitchDetector::midi_to_frequency(68); // one semitone down
    let pitch_bend_range = 2;

    let bend = PitchDetector::calculate_pitch_bend(detected_frequency, target_note, pitch_bend_range);

    // Should be half scale down
    assert!((bend + 5000).abs() < 100);
}

#[test]
fn test_calculate_pitch_bend_clamping() {
    // Test with frequency way off - should clamp to full scale
    let target_note = 69; // A4 = 440 Hz
    let detected_frequency = PitchDetector::midi_to_frequency(74); // 5 semitones up
    let pitch_bend_range = 2;

    let bend = PitchDetector::calculate_pitch_bend(detected_frequency, target_note, pitch_bend_range);

    assert_eq!(bend, 10_000);
}

#[test]
fn test_frequency_note_round_trip_all_notes() {
    // note -> frequency -> note recovers the note exactly
    for note in 0u8..=127 {
        let f = PitchDetector::midi_to_frequency(note);
        assert_eq!(PitchDetector::frequency_to_midi(f), note);
    }
}

#[test]
fn test_detect_low_and_high_guitar_strings() {
    let sample_rate = 44100;
    let detector = PitchDetector::new(sample_rate, 2048, 150);
    for target in [82.41f32, 196.0, 329.63] {
        let samples = sine_samples(target, 0.1, sample_rate);
        let (freq, confidence) = detector
            .detect_pitch_with_confidence(&samples)
            .expect("expected a detection");
        let target_millihz = (target * 1000.0) as i64;
        assert!((freq as i64 - target_millihz).abs() < target_millihz / 20);
        assert!(confidence > 500);
    }
}
