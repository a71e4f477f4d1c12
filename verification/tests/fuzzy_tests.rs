use instrument_to_midi::fuzzy::{FuzzyNoteResolver, NoteDetection, NoteHistory};

#[test]
fn test_note_history_tracking() {
    let mut history = NoteHistory::new(10, 800);

    // Record some high confidence notes
    history.record(&NoteDetection {
        note: 60,
        frequency_millihz: 261_630,
        confidence_millis: 900,
    });
    history.record(&NoteDetection {
        note: 60,
        frequency_millihz: 261_630,
        confidence_millis: 850,
    });
    history.record(&NoteDetection {
        note: 62,
        frequency_millihz: 293_660,
        confidence_millis: 950,
    });

    assert_eq!(history.note_count(60), 2);
    assert_eq!(history.note_count(62), 1);
    assert_eq!(history.recent_len(), 3);
}

#[test]
fn test_note_history_ignores_low_confidence() {
    let mut history = NoteHistory::new(10, 800);

    // Record a low confidence note - should be ignored
    history.record(&NoteDetection {
        note: 60,
        frequency_millihz: 261_630,
        confidence_millis: 500,
    });

    assert_eq!(history.note_count(60), 0);
    assert_eq!(history.recent_len(), 0);
}

#[test]
fn test_note_frequency_calculation() {
    let mut history = NoteHistory::new(10, 800);

    history.record(&NoteDetection {
        note: 60,
        frequency_millihz: 261_630,
        confidence_millis: 900,
    });
    history.record(&NoteDetection {
        note: 60,
        frequency_millihz: 261_630,
        confidence_millis: 900,
    });
    history.record(&NoteDetection {
        note: 62,
        frequency_millihz: 293_660,
        confidence_millis: 900,
    });

    // 60 appears 2 out of 3 times = ~0.666, in per-mille
    let freq = history.note_frequency(60);
    assert!((freq as i64 - 666).abs() < 10);

    // 62 appears 1 out of 3 times = ~0.333, in per-mille
    let freq = history.note_frequency(62);
    assert!((freq as i64 - 333).abs() < 10);
}

#[test]
fn test_is_recent() {
    let mut history = NoteHistory::new(10, 800);

    history.record(&NoteDetection {
        note: 60,
        frequency_millihz: 261_630,
        confidence_millis: 900,
    });
    history.record(&NoteDetection {
        note: 62,
        frequency_millihz: 293_660,
        confidence_millis: 900,
    });
    history.record(&NoteDetection {
        note: 64,
        frequency_millihz: 329_630,
        confidence_millis: 900,
    });

    assert!(history.is_recent(64, 1));
    assert!(history.is_recent(62, 2));
    assert!(history.is_recent(60, 3));
    assert!(!history.is_recent(60, 1));
}

#[test]
fn test_most_common_note() {
    let mut history = NoteHistory::new(10, 800);

    for _ in 0..5 {
        history.record(&NoteDetection {
            note: 60,
            frequency_millihz: 261_630,
            confidence_millis: 900,
        });
    }

    for _ in 0..2 {
        history.record(&NoteDetection {
            note: 62,
            frequency_millihz: 293_660,
            confidence_millis: 900,
        });
    }

    assert_eq!(history.most_common_note(), Some(60));
}

#[test]
fn test_most_common_note_empty() {
    let history = NoteHistory::new(10, 800);
    assert_eq!(history.most_common_note(), None);
}

#[test]
fn test_fuzzy_resolver_high_confidence() {
    let mut resolver = FuzzyNoteResolver::new(10, 800, 700);

    let detection = NoteDetection {
        note: 60,
        frequency_millihz: 261_630,
        confidence_millis: 900,
    };

    let resolved = resolver.resolve(detection);
    assert_eq!(resolved.note, 60);
    assert_eq!(resolved.confidence_millis, 900);
}

#[test]
fn test_fuzzy_resolver_with_history() {
    let mut resolver = FuzzyNoteResolver::new(10, 800, 700);

    // Build up history with note 60
    for _ in 0..5 {
        resolver.resolve(NoteDetection {
            note: 60,
            frequency_millihz: 261_630,
            confidence_millis: 900,
        });
    }

    // Now detect an ambiguous note (low confidence)
    let detection = NoteDetection {
        note: 60,
        frequency_millihz: 261_630,
        confidence_millis: 500,
    };

    let resolved = resolver.resolve(detection);
    // Should resolve to 60 based on history
    assert_eq!(resolved.note, 60);
}

#[test]
fn test_get_recent_neighbors() {
    let mut history = NoteHistory::new(10, 800);

    history.record(&NoteDetection {
        note: 60,
        frequency_millihz: 261_630,
        confidence_millis: 900,
    });

    let neighbors = history.get_recent_neighbors();
    assert_eq!(neighbors, vec![58, 59, 60, 61, 62]);
}

#[test]
fn test_get_recent_neighbors_empty() {
    let history = NoteHistory::new(10, 800);
    assert!(history.get_recent_neighbors().is_empty());
}

#[test]
fn test_fuzzy_resolver_empty_history() {
    let mut resolver = FuzzyNoteResolver::new(10, 800, 700);

    let detection = NoteDetection {
        note: 60,
        frequency_millihz: 261_630,
        confidence_millis: 500,
    };

    let resolved = resolver.resolve(detection);
    // With no history, should return the detected note
    assert_eq!(resolved.note, 60);
}

#[test]
fn test_recent_fifo_evicts_oldest() {
    let mut history = NoteHistory::new(2, 800);
    for note in [60u8, 62, 64] {
        history.record(&NoteDetection {
            note,
            frequency_millihz: 261_630,
            confidence_millis: 900,
        });
    }
    assert_eq!(history.recent_len(), 2);
    assert!(history.is_recent(64, 2));
    assert!(history.is_recent(62, 2));
    assert!(!history.is_recent(60, 3));
}

#[test]
fn test_resolver_records_even_when_clear() {
    let mut resolver = FuzzyNoteResolver::new(10, 800, 700);
    resolver.resolve(NoteDetection {
        note: 72,
        frequency_millihz: 523_250,
        confidence_millis: 950,
    });
    assert_eq!(resolver.history().note_count(72), 1);
    assert_eq!(resolver.history().recent_len(), 1);
}
