use instrument_to_midi::polyphonic::{PitchCandidate, PolyphonicPitchDetector};
use rustfft::num_complex::Complex;
use rustfft::FftPlanner;

/// Hamming-window the samples, take the spectrum, and run the detector's
/// verified decision pipeline over the integer magnitudes, as the
/// application does.
fn detect(detector: &PolyphonicPitchDetector, samples: &[f32]) -> Vec<PitchCandidate> {
    let n = detector.buffer_size();
    if samples.len() < n {
        return vec![];
    }
    let mut buf: Vec<Complex<f32>> = (0..n)
        .map(|i| {
            let w = 0.54
                - 0.46 * (2.0 * std::f32::consts::PI * i as f32 / (n - 1) as f32).cos();
            Complex::new(samples[i] * 32768.0 * w, 0.0)
        })
        .collect();
    let fft = FftPlanner::new().plan_fft_forward(n);
    fft.process(&mut buf);
    let mags: Vec<u64> = buf.iter().take(n / 2).map(|c| c.norm() as u64).collect();
    detector.candidates_from_spectrum(&mags)
}

fn generate_chord(frequencies: &[f32], duration: f32, sample_rate: u32) -> Vec<f32> {
    let num_samples = (duration * sample_rate as f32) as usize;
    let mut samples = vec![0.0; num_samples];
    for (i, sample) in samples.iter_mut().enumerate() {
        let t = i as f32 / sample_rate as f32;
        for &freq in frequencies {
            *sample += (2.0 * std::f32::consts::PI * freq * t).sin() / frequencies.len() as f32;
        }
    }
    samples
}

#[test]
fn test_polyphonic_detector_creation() {
    let detector = PolyphonicPitchDetector::new(44100, 2048, 3277);
    assert_eq!(detector.sample_rate(), 44100);
    assert_eq!(detector.buffer_size(), 2048);
}

#[test]
fn test_detect_single_pitch() {
    let sample_rate = 44100;
    let detector = PolyphonicPitchDetector::new(sample_rate, 2048, 3277);

    // Generate a 440 Hz sine wave (A4)
    let frequency = 440.0;
    let duration = 0.1;
    let num_samples = (sample_rate as f32 * duration) as usize;
    let mut samples = vec![0.0; num_samples];
    for (i, sample) in samples.iter_mut().enumerate() {
        let t = i as f32 / sample_rate as f32;
        *sample = (2.0 * std::f32::consts::PI * frequency * t).sin();
    }

    let pitches = detect(&detector, &samples);

    // Should detect at least one pitch
    assert!(!pitches.is_empty());

    // First detected pitch should be close to 440 Hz (within 10 Hz)
    let detected_freq = pitches[0].frequency_millihz as i64;
    assert!((detected_freq - 440_000).abs() < 10_000);
}

#[test]
fn test_detect_multiple_pitches() {
    let sample_rate = 44100;
    let detector = PolyphonicPitchDetector::new(sample_rate, 2048, 3277);

    // Generate a chord: C4 (261.63 Hz) + E4 (329.63 Hz) + G4 (392 Hz)
    let samples = generate_chord(&[261.63, 329.63, 392.0], 0.1, sample_rate);

    let pitches = detect(&detector, &samples);

    assert!(
        pitches.len() >= 2,
        "Should detect at least 2 notes in the chord"
    );
}

#[test]
fn test_harmonic_removal() {
    let detector = PolyphonicPitchDetector::new(44100, 2048, 3277);

    // Create candidates with fundamental and harmonics
    let candidates = vec![
        PitchCandidate {
            frequency_millihz: 220_000, // A3 (fundamental)
            magnitude: 1000,
            midi_note: 57,
        },
        PitchCandidate {
            frequency_millihz: 440_000, // A4 (2nd harmonic)
            magnitude: 800,
            midi_note: 69,
        },
        PitchCandidate {
            frequency_millihz: 330_000, // E4 (not a harmonic)
            magnitude: 900,
            midi_note: 64,
        },
    ];

    let filtered = detector.remove_harmonics(candidates);

    // Should keep A3 and E4, remove A4 (harmonic of A3)
    assert_eq!(filtered.len(), 2);
    assert!(filtered.iter().any(|c| c.frequency_millihz == 220_000));
    assert!(filtered.iter().any(|c| c.frequency_millihz == 330_000));
}

#[test]
fn polyphonic_test_frequency_to_midi() {
    // A4 = 440 Hz = MIDI note 69
    assert_eq!(PolyphonicPitchDetector::frequency_to_midi(440_000), 69);

    // E2 (low E on guitar) = 82.41 Hz = MIDI note 40
    assert_eq!(PolyphonicPitchDetector::frequency_to_midi(82_410), 40);

    // C4 = 261.63 Hz = MIDI note 60
    assert_eq!(PolyphonicPitchDetector::frequency_to_midi(261_630), 60);
}

#[test]
fn polyphonic_test_midi_to_note_name() {
    assert_eq!(PolyphonicPitchDetector::midi_to_note_name(69), "A4");
    assert_eq!(PolyphonicPitchDetector::midi_to_note_name(60), "C4");
    assert_eq!(PolyphonicPitchDetector::midi_to_note_name(40), "E2");
}

#[test]
fn test_polyphonic_single_note() {
    let sample_rate = 44100;
    let detector = PolyphonicPitchDetector::new(sample_rate, 2048, 3277);

    // Generate a single note: A4 (440 Hz)
    let frequency = 440.0;
    let duration = 0.2;
    let num_samples = (sample_rate as f32 * duration) as usize;
    let mut samples = vec![0.0; num_samples];
    for (i, sample) in samples.iter_mut().enumerate() {
        let t = i as f32 / sample_rate as f32;
        *sample = (2.0 * std::f32::consts::PI * frequency * t).sin();
    }

    let pitches = detect(&detector, &samples);
    assert!(!pitches.is_empty(), "Should detect at least one pitch");

    let detected_freq = pitches[0].frequency_millihz as i64;
    assert!(
        (detected_freq - 440_000).abs() < 10_000,
        "Detected frequency {} should be close to {}",
        detected_freq,
        440_000
    );
}

#[test]
fn test_polyphonic_major_chord() {
    let sample_rate = 44100;
    let detector = PolyphonicPitchDetector::new(sample_rate, 2048, 3277);

    // Generate a C major chord: C4 (261.63 Hz), E4 (329.63 Hz), G4 (392.00 Hz)
    let samples = generate_chord(&[261.63, 329.63, 392.0], 0.2, sample_rate);

    let pitches = detect(&detector, &samples);

    assert!(
        !pitches.is_empty(),
        "Should detect at least 1 note in a 3-note chord, detected: {}",
        pitches.len()
    );

    // At least one detected frequency should be in the chord range (250-450 Hz)
    let in_range_count = pitches
        .iter()
        .filter(|p| p.frequency_millihz >= 250_000 && p.frequency_millihz <= 450_000)
        .count();
    assert!(
        in_range_count >= 1,
        "At least one detected frequency should be in the chord range (250-450 Hz)"
    );
}

#[test]
fn test_polyphonic_guitar_chord() {
    let sample_rate = 44100;
    let detector = PolyphonicPitchDetector::new(sample_rate, 2048, 3277);

    // Generate an E major guitar chord (open position)
    // E2, B2, E3, G#3, B3, E4
    let frequencies = [82.41, 123.47, 164.81, 207.65, 246.94, 329.63];
    let samples = generate_chord(&frequencies, 0.2, sample_rate);

    let pitches = detect(&detector, &samples);

    assert!(
        pitches.len() >= 3,
        "Should detect at least 3 notes in a 6-string chord, detected: {}",
        pitches.len()
    );
    assert!(
        pitches.len() <= 6,
        "Should not detect more than 6 notes, detected: {}",
        pitches.len()
    );
}

#[test]
fn test_polyphonic_power_chord() {
    let sample_rate = 44100;
    let detector = PolyphonicPitchDetector::new(sample_rate, 2048, 3277);

    // Generate a power chord (root + fifth): E2 (82.41 Hz) + B2 (123.47 Hz)
    let samples = generate_chord(&[82.41, 123.47], 0.2, sample_rate);

    let pitches = detect(&detector, &samples);

    assert!(
        !pitches.is_empty(),
        "Should detect at least 1 note in a power chord, detected: {}",
        pitches.len()
    );

    // At least one frequency should be in the low range (75-250 Hz)
    let low_freq_count = pitches
        .iter()
        .filter(|p| p.frequency_millihz >= 75_000 && p.frequency_millihz <= 250_000)
        .count();
    assert!(
        low_freq_count >= 1,
        "At least one detected frequency should be in the power chord range (75-250 Hz)"
    );
}

#[test]
fn test_polyphonic_harmonic_removal() {
    let sample_rate = 44100;
    let detector = PolyphonicPitchDetector::new(sample_rate, 2048, 3277);

    // Generate a note with strong harmonics: A2 (110 Hz) and its harmonics;
    // the detector should identify only the fundamental
    let fundamental = 110.0;
    let duration = 0.2;
    let num_samples = (sample_rate as f32 * duration) as usize;
    let mut samples = vec![0.0; num_samples];
    for (i, sample) in samples.iter_mut().enumerate() {
        let t = i as f32 / sample_rate as f32;
        *sample = (2.0 * std::f32::consts::PI * fundamental * t).sin();
        *sample += 0.5 * (2.0 * std::f32::consts::PI * fundamental * 2.0 * t).sin();
        *sample += 0.3 * (2.0 * std::f32::consts::PI * fundamental * 3.0 * t).sin();
        *sample *= 0.5;
    }

    let pitches = detect(&detector, &samples);
    assert!(
        !pitches.is_empty(),
        "Should detect at least the fundamental frequency"
    );

    let lowest = pitches
        .iter()
        .map(|p| p.frequency_millihz)
        .min()
        .unwrap() as i64;
    assert!(
        (lowest - 110_000).abs() < 10_000,
        "Lowest detected frequency {} should be close to fundamental {}",
        lowest,
        110_000
    );
}

#[test]
fn test_polyphonic_empty_buffer() {
    let sample_rate = 44100;
    let detector = PolyphonicPitchDetector::new(sample_rate, 2048, 3277);

    // Silence of 4096 samples
    let samples = vec![0.0f32; 4096];
    let pitches = detect(&detector, &samples);
    assert!(
        pitches.is_empty(),
        "Detected pitch in silence should have very low magnitude"
    );
}

#[test]
fn test_polyphonic_octave_detection() {
    let sample_rate = 44100;
    let detector = PolyphonicPitchDetector::new(sample_rate, 2048, 3277);

    // A3 (220 Hz) and A4 (440 Hz), an octave apart
    let samples = generate_chord(&[220.0, 440.0], 0.2, sample_rate);

    let pitches = detect(&detector, &samples);
    assert!(
        !pitches.is_empty(),
        "Should detect at least one pitch from octave pair"
    );

    let close = pitches.iter().any(|p| {
        (p.frequency_millihz >= 200_000 && p.frequency_millihz <= 250_000)
            || (p.frequency_millihz >= 420_000 && p.frequency_millihz <= 460_000)
    });
    assert!(
        close,
        "At least one detected frequency should be close to 220 Hz or 440 Hz"
    );
}

#[test]
fn test_polyphony_cap_is_six() {
    // A spectrum with many artificial peaks still yields at most six notes
    let detector = PolyphonicPitchDetector::new(44100, 2048, 10);
    let mut mags = vec![0u64; 1024];
    let mut i = 5;
    while i < 1000 {
        mags[i] = 1_000_000;
        i += 2;
    }
    let pitches = detector.candidates_from_spectrum(&mags);
    assert!(pitches.len() <= 6);
}
