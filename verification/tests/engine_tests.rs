use instrument_to_midi::engine::{
    bend_to_14bit, bend_to_14bit_raw, note_off_message, note_on_message, pitch_bend_message,
    MidiEvent, NoteEventEngine,
};
use instrument_to_midi::fuzzy::{FuzzyNoteResolver, NoteDetection};

#[test]
fn test_pitch_bend_calculation() {
    // Test center position (no bend)
    let bend_value = bend_to_14bit_raw(0);
    assert_eq!(bend_value, 8192);

    // Test maximum upward bend
    let bend_value = bend_to_14bit_raw(10_000);
    assert_eq!(bend_value, 16384);
    let clamped = bend_to_14bit(10_000);
    assert_eq!(clamped, 16383);

    // Test maximum downward bend
    let bend_value = bend_to_14bit_raw(-10_000);
    assert_eq!(bend_value, 0);
}

#[test]
fn test_message_bytes() {
    assert_eq!(note_on_message(60, 80), vec![0x90, 60, 80]);
    assert_eq!(note_off_message(60), vec![0x80, 60, 0]);
    // centered bend: value 8192 = 0x2000 -> lsb 0x00, msb 0x40
    assert_eq!(pitch_bend_message(0), vec![0xE0, 0x00, 0x40]);
}

fn detection(note: u8, frequency_millihz: u64, confidence_millis: u32) -> NoteDetection {
    NoteDetection {
        note,
        frequency_millihz,
        confidence_millis,
    }
}

#[test]
fn test_mono_note_on_and_change() {
    let mut engine = NoteEventEngine::new_monophonic(80, 50_000, false, 2, None);

    // first detection starts the note
    let events = engine.process_monophonic(Some(detection(69, 440_000, 900)), 0);
    assert_eq!(events, vec![MidiEvent::NoteOn { note: 69, velocity: 80 }]);

    // the same note again emits nothing further
    let events = engine.process_monophonic(Some(detection(69, 440_000, 900)), 10_000);
    assert!(events.is_empty());

    // a different note retriggers
    let events = engine.process_monophonic(Some(detection(72, 523_250, 900)), 20_000);
    assert_eq!(
        events,
        vec![
            MidiEvent::NoteOff { note: 69 },
            MidiEvent::NoteOn { note: 72, velocity: 80 },
        ]
    );
}

#[test]
fn test_mono_debounce_holds_note_through_short_silence() {
    let mut engine = NoteEventEngine::new_monophonic(80, 50_000, false, 2, None);
    engine.process_monophonic(Some(detection(69, 440_000, 900)), 0);

    // silence before the minimum note duration: no note-off yet
    let events = engine.process_monophonic(None, 49_999);
    assert!(events.is_empty());

    // silence at the minimum duration: note-off
    let events = engine.process_monophonic(None, 50_000);
    assert_eq!(events, vec![MidiEvent::NoteOff { note: 69 }]);

    // further silence does nothing
    let events = engine.process_monophonic(None, 60_000);
    assert!(events.is_empty());
}

#[test]
fn test_mono_pitch_bend_emitted_while_sounding() {
    let mut engine = NoteEventEngine::new_monophonic(80, 50_000, true, 2, None);
    let events = engine.process_monophonic(Some(detection(69, 440_000, 900)), 0);
    assert_eq!(events.len(), 2);
    assert_eq!(events[0], MidiEvent::NoteOn { note: 69, velocity: 80 });
    match events[1] {
        MidiEvent::PitchBend { units } => assert!(units.abs() < 100),
        _ => panic!("expected a pitch bend event"),
    }

    // a slightly sharp repeat of the same note emits only a bend, upward
    let events = engine.process_monophonic(Some(detection(69, 452_890, 900)), 10_000);
    assert_eq!(events.len(), 1);
    match events[0] {
        MidiEvent::PitchBend { units } => assert!(units > 0),
        _ => panic!("expected a pitch bend event"),
    }
}

#[test]
fn test_mono_with_resolver_passthrough() {
    let resolver = FuzzyNoteResolver::new(20, 800, 700);
    let mut engine = NoteEventEngine::new_monophonic(80, 50_000, false, 2, Some(resolver));
    // clear detection passes through unchanged
    let events = engine.process_monophonic(Some(detection(64, 329_630, 950)), 0);
    assert_eq!(events, vec![MidiEvent::NoteOn { note: 64, velocity: 80 }]);
}

#[test]
fn test_poly_note_set_difference() {
    let mut engine = NoteEventEngine::new_polyphonic(80);

    let events = engine.process_polyphonic(&vec![60, 64, 67]);
    assert_eq!(
        events,
        vec![
            MidiEvent::NoteOn { note: 60, velocity: 80 },
            MidiEvent::NoteOn { note: 64, velocity: 80 },
            MidiEvent::NoteOn { note: 67, velocity: 80 },
        ]
    );

    // 60 is released, 69 is added, 64 and 67 are held
    let events = engine.process_polyphonic(&vec![64, 67, 69]);
    assert_eq!(
        events,
        vec![
            MidiEvent::NoteOff { note: 60 },
            MidiEvent::NoteOn { note: 69, velocity: 80 },
        ]
    );
}

#[test]
fn test_poly_duplicate_candidates_collapse() {
    let mut engine = NoteEventEngine::new_polyphonic(80);
    let events = engine.process_polyphonic(&vec![60, 60, 60]);
    assert_eq!(events, vec![MidiEvent::NoteOn { note: 60, velocity: 80 }]);
}

#[test]
fn test_all_notes_off_mono() {
    let mut engine = NoteEventEngine::new_monophonic(80, 50_000, false, 2, None);
    engine.process_monophonic(Some(detection(69, 440_000, 900)), 0);
    let events = engine.all_notes_off();
    assert_eq!(events, vec![MidiEvent::NoteOff { note: 69 }]);
    // idempotent once everything is off
    assert!(engine.all_notes_off().is_empty());
}

#[test]
fn test_all_notes_off_poly() {
    let mut engine = NoteEventEngine::new_polyphonic(80);
    engine.process_polyphonic(&vec![60, 64]);
    let events = engine.all_notes_off();
    assert_eq!(
        events,
        vec![MidiEvent::NoteOff { note: 60 }, MidiEvent::NoteOff { note: 64 }]
    );
}
