use instrument_to_midi::engine::MidiEvent;
use instrument_to_midi::recorder::{MidiRecorder, RecorderError};

#[test]
fn test_recorder_creation() {
    let recorder = MidiRecorder::new();
    assert!(!recorder.is_recording());
    assert_eq!(recorder.event_count(), 0);
}

#[test]
fn test_start_stop_recording() {
    let mut recorder = MidiRecorder::new();
    assert!(!recorder.is_recording());

    recorder.start(0);
    assert!(recorder.is_recording());

    recorder.stop();
    assert!(!recorder.is_recording());
}

#[test]
fn test_record_events() {
    let mut recorder = MidiRecorder::new();
    recorder.start(0);

    recorder.record_note_on(60, 80, 0);
    recorder.record_note_off(60, 10_000);

    recorder.stop();
    assert_eq!(recorder.event_count(), 2);
}

#[test]
fn test_no_recording_when_stopped() {
    let mut recorder = MidiRecorder::new();
    recorder.record_note_on(60, 80, 0);
    recorder.record_note_off(60, 10_000);
    assert_eq!(recorder.event_count(), 0);
}

#[test]
fn test_clear_events() {
    let mut recorder = MidiRecorder::new();
    recorder.start(0);
    recorder.record_note_on(60, 80, 0);
    recorder.record_note_off(60, 10_000);
    assert_eq!(recorder.event_count(), 2);

    recorder.clear();
    assert_eq!(recorder.event_count(), 0);
}

#[test]
fn test_save_empty_recording() {
    let recorder = MidiRecorder::new();
    let result = recorder.save();
    assert!(result.is_err());
    assert_eq!(result, Err(RecorderError::EmptyRecording));
}

#[test]
fn test_save_recording() {
    let mut recorder = MidiRecorder::new();
    recorder.start(0);
    recorder.record_note_on(60, 80, 0);
    recorder.record_note_off(60, 10_000);
    recorder.stop();

    let result = recorder.save();
    assert!(result.is_ok());
    assert!(!result.unwrap().is_empty());
}

#[test]
fn test_micros_to_ticks() {
    let recorder = MidiRecorder::new();
    // With default tempo (500000 us/beat) and 480 ticks/beat:
    // one beat's worth of microseconds is exactly 480 ticks
    let ticks = recorder.micros_to_ticks(500_000);
    assert_eq!(ticks, 480);
}

#[test]
fn test_midi_file_creation() {
    let mut recorder = MidiRecorder::new();
    recorder.start(0);

    // Simulate some note events, 100 ms apart
    recorder.record_note_on(60, 80, 0);
    recorder.record_note_off(60, 100_000);
    recorder.record_note_on(64, 80, 200_000);
    recorder.record_note_off(64, 300_000);
    recorder.record_note_on(67, 80, 400_000);
    recorder.record_note_off(67, 500_000);

    recorder.stop();

    let bytes = recorder.save().expect("Failed to save MIDI file");
    assert!(!bytes.is_empty(), "MIDI file is empty");

    // The produced bytes parse back as a single-track file with our events
    let smf = midly::Smf::parse(&bytes).expect("produced bytes must parse");
    assert_eq!(smf.header.format, midly::Format::SingleTrack);
    assert_eq!(
        smf.header.timing,
        midly::Timing::Metrical(midly::num::u15::new(480))
    );
    assert_eq!(smf.tracks.len(), 1);
    // tempo meta event + six channel events + end of track
    assert_eq!(smf.tracks[0].len(), 8);
}

#[test]
fn test_saved_bytes_exact_layout() {
    let mut recorder = MidiRecorder::new();
    recorder.start(0);
    recorder.record_note_on(60, 80, 0);
    recorder.record_note_off(60, 500_000); // exactly one beat later
    recorder.stop();

    let bytes = recorder.save().unwrap();
    // header chunk: "MThd", length 6, format 0, one track, 480 ticks/beat
    assert_eq!(
        &bytes[..14],
        &[0x4D, 0x54, 0x68, 0x64, 0, 0, 0, 6, 0, 0, 0, 1, 0x01, 0xE0]
    );
    // track chunk header
    assert_eq!(&bytes[14..18], &[0x4D, 0x54, 0x72, 0x6B]);
    // body: tempo 500000 (0x07A120), note on at delta 0, note off at
    // delta 480 ticks (0x01E0 -> VLQ 0x83 0x60), end of track
    let body = &bytes[22..];
    assert_eq!(
        body,
        &[
            0x00, 0xFF, 0x51, 0x03, 0x07, 0xA1, 0x20, // tempo meta event
            0x00, 0x90, 60, 80, // note on
            0x83, 0x60, 0x80, 60, 0, // note off after 480 ticks
            0x00, 0xFF, 0x2F, 0x00, // end of track
        ]
    );
}

#[test]
fn test_record_event_routing() {
    let mut recorder = MidiRecorder::new();
    recorder.start(0);
    recorder.record_event(&MidiEvent::NoteOn { note: 60, velocity: 80 }, 0);
    recorder.record_event(&MidiEvent::PitchBend { units: 5000 }, 1_000);
    recorder.record_event(&MidiEvent::NoteOff { note: 60 }, 2_000);
    // pitch bend is not part of the recorded track
    assert_eq!(recorder.event_count(), 2);
}
