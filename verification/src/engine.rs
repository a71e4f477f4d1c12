//! The note-event state machine: turns per-window detections into discrete
//! MIDI-style events, with debouncing in monophonic mode and set-difference
//! semantics in polyphonic mode, plus the raw MIDI message bytes.

use vstd::prelude::*;
use crate::fuzzy::{fuzzy_pick, FuzzyNoteResolver, NoteDetection, NoteHistory};
use crate::notes::{MAX_FREQ_MILLIHZ, MIN_FREQ_MILLIHZ};
use crate::pitch::{spec_pitch_bend_units, PitchDetector};

verus! {

/// MIDI status byte for note-on, channel 0.
pub const NOTE_ON_STATUS: u8 = 0x90;

/// MIDI status byte for note-off, channel 0.
pub const NOTE_OFF_STATUS: u8 = 0x80;

/// MIDI status byte for pitch bend, channel 0.
pub const PITCH_BEND_STATUS: u8 = 0xE0;

/// A discrete event emitted by the engine. Pitch-bend amounts are in
/// ten-thousandths of full scale (`10_000` is one full range up).
#[derive(Debug, Clone, Copy, PartialEq, Eq, Structural)]
pub enum MidiEvent {
    NoteOn { note: u8, velocity: u8 },
    NoteOff { note: u8 },
    PitchBend { units: i32 },
}

/// The clamped pitch-bend amount as a 14-bit MIDI value before the final
/// cap: `(units + 10000) * 8192 / 10000`, so zero maps to the 8192 center.
pub open spec fn spec_bend_14bit_raw(units: int) -> int {
    let c = if units < -10_000 {
        -10_000
    } else if units > 10_000 {
        10_000
    } else {
        units
    };
    (c + 10_000) * 8192 / 10_000
}

/// The 14-bit MIDI pitch-bend value: the raw scaling capped to `0..=16383`.
pub open spec fn spec_bend_14bit(units: int) -> int {
    if spec_bend_14bit_raw(units) > 16_383 {
        16_383
    } else {
        spec_bend_14bit_raw(units)
    }
}

/// Scale a bend amount to the 14-bit range without the final cap (a full
/// upward bend yields 16384, one past the largest representable value).
pub fn bend_to_14bit_raw(units: i32) -> (v: u16)
    ensures
        v == spec_bend_14bit_raw(units as int),
        v <= 16_384,
{
    let c: i64 = if units < -10_000 {
        -10_000
    } else if units > 10_000 {
        10_000
    } else {
        units as i64
    };
    (((c + 10_000) * 8192) / 10_000) as u16
}

/// The 14-bit MIDI pitch-bend value of a bend amount, center 8192.
pub fn bend_to_14bit(units: i32) -> (v: u16)
    ensures
        v == spec_bend_14bit(units as int),
        v <= 16_383,
{
    let raw = bend_to_14bit_raw(units);
    if raw > 16_383 {
        16_383
    } else {
        raw
    }
}

/// The three bytes of a channel-0 note-on message.
pub fn note_on_message(note: u8, velocity: u8) -> (r: Vec<u8>)
    ensures
        r@ =~= seq![NOTE_ON_STATUS, note, velocity],
{
    let mut r: Vec<u8> = Vec::new();
    r.push(NOTE_ON_STATUS);
    r.push(note);
    r.push(velocity);
    r
}

/// The three bytes of a channel-0 note-off message.
pub fn note_off_message(note: u8) -> (r: Vec<u8>)
    ensures
        r@ =~= seq![NOTE_OFF_STATUS, note, 0u8],
{
    let mut r: Vec<u8> = Vec::new();
    r.push(NOTE_OFF_STATUS);
    r.push(note);
    r.push(0);
    r
}

/// The three bytes of a channel-0 pitch-bend message: the 14-bit value split
/// into its low and high seven bits.
pub fn pitch_bend_message(units: i32) -> (r: Vec<u8>)
    ensures
        r@ =~= seq![
            PITCH_BEND_STATUS,
            (spec_bend_14bit(units as int) % 128) as u8,
            (spec_bend_14bit(units as int) / 128) as u8,
        ],
{
    let v = bend_to_14bit(units);
    let mut r: Vec<u8> = Vec::new();
    r.push(PITCH_BEND_STATUS);
    r.push((v % 128) as u8);
    r.push((v / 128) as u8);
    r
}

/// Time elapsed since `start`, zero when the clock reads earlier than
/// `start`.
pub open spec fn saturating_elapsed(now: int, start: int) -> int {
    if now >= start {
        now - start
    } else {
        0
    }
}

/// A currently sounding note and when it started.
#[derive(Debug, Clone, Copy, PartialEq, Eq, Structural)]
pub struct MonoNote {
    pub note: u8,
    pub started_at_us: u64,
}

/// Strictly increasing, hence duplicate-free.
pub open spec fn sorted_unique(s: Seq<u8>) -> bool {
    forall|i: int, j: int| 0 <= i < j < s.len() ==> s[i] < s[j]
}

/// Insert a note into a sorted duplicate-free sequence, keeping it so.
pub open spec fn insert_note_sorted(s: Seq<u8>, n: u8) -> Seq<u8>
    decreases s.len(),
{
    if s.len() == 0 {
        seq![n]
    } else if s[0] == n {
        s
    } else if s[0] > n {
        seq![n] + s
    } else {
        seq![s[0]] + insert_note_sorted(s.drop_first(), n)
    }
}

/// The sorted duplicate-free note set of an arbitrary note list.
pub open spec fn sorted_unique_of(s: Seq<u8>) -> Seq<u8>
    decreases s.len(),
{
    if s.len() == 0 {
        Seq::empty()
    } else {
        insert_note_sorted(sorted_unique_of(s.drop_last()), s.last())
    }
}

/// Note-off events for the active notes that are no longer sounding, in
/// ascending note order.
pub open spec fn offs_of(old_act: Seq<u8>, new_act: Seq<u8>) -> Seq<MidiEvent>
    decreases old_act.len(),
{
    if old_act.len() == 0 {
        Seq::empty()
    } else {
        offs_of(old_act.drop_last(), new_act) + (if new_act.contains(old_act.last()) {
            Seq::empty()
        } else {
            seq![MidiEvent::NoteOff { note: old_act.last() }]
        })
    }
}

/// Note-on events for the new notes that were not sounding, in ascending
/// note order.
pub open spec fn ons_of(new_act: Seq<u8>, old_act: Seq<u8>, velocity: u8) -> Seq<MidiEvent>
    decreases new_act.len(),
{
    if new_act.len() == 0 {
        Seq::empty()
    } else {
        ons_of(new_act.drop_last(), old_act, velocity) + (if old_act.contains(new_act.last()) {
            Seq::empty()
        } else {
            seq![MidiEvent::NoteOn { note: new_act.last(), velocity }]
        })
    }
}

/// How a detection passes through the optional resolver: without one the
/// history is untouched; with one the detection is recorded and the
/// threshold kept.
pub open spec fn resolver_step(
    pre: Option<FuzzyNoteResolver>,
    post: Option<FuzzyNoteResolver>,
    d: NoteDetection,
) -> bool {
    match pre {
        None => post is None,
        Some(rv) => match post {
            Some(rv2) => {
                &&& rv2.wf()
                &&& rv2.fuzzy_threshold_spec() == rv.fuzzy_threshold_spec()
                &&& NoteHistory::record_transition(rv.history_spec(), rv2.history_spec(), d)
            },
            None => false,
        },
    }
}

/// The note the engine plays for a detection: the detected note itself
/// without a resolver or at clear confidence, otherwise the fuzzy pick over
/// the updated history.
pub open spec fn resolved_note_of(
    pre: Option<FuzzyNoteResolver>,
    post: Option<FuzzyNoteResolver>,
    d: NoteDetection,
) -> int {
    match pre {
        None => d.note as int,
        Some(rv) => {
            if d.confidence_millis >= rv.fuzzy_threshold_spec() {
                d.note as int
            } else {
                match post {
                    Some(rv2) => fuzzy_pick(rv2.history_spec(), d),
                    None => d.note as int,
                }
            }
        },
    }
}

/// The pitch-bend event emitted each window while a note sounds, if pitch
/// bend is enabled: the raw detected frequency against the played note.
pub open spec fn bend_events(enabled: bool, f: int, played: int, range: int) -> Seq<MidiEvent> {
    if enabled {
        seq![MidiEvent::PitchBend { units: spec_pitch_bend_units(f, played, range) as i32 }]
    } else {
        Seq::empty()
    }
}

/// The engine's mode, fixed for the session.
enum EngineMode {
    /// At most one sounding note, with optional fuzzy resolution.
    Monophonic { resolver: Option<FuzzyNoteResolver>, current: Option<MonoNote> },
    /// A set of sounding notes, kept sorted.
    Polyphonic { active: Vec<u8> },
}

/// Stateful converter from per-window detections to discrete MIDI events.
pub struct NoteEventEngine {
    velocity: u8,
    min_note_duration_us: u64,
    pitch_bend_enabled: bool,
    pitch_bend_range_semitones: u32,
    mode: EngineMode,
}

impl NoteEventEngine {
    /// Velocity used for emitted note-on events.
    pub closed spec fn velocity_spec(self) -> u8 {
        self.velocity
    }

    /// Debounce: how long a note must have sounded before silence ends it,
    /// microseconds.
    pub closed spec fn min_note_duration_spec(self) -> int {
        self.min_note_duration_us as int
    }

    /// Whether pitch-bend events are emitted while a note sounds.
    pub closed spec fn pitch_bend_enabled_spec(self) -> bool {
        self.pitch_bend_enabled
    }

    /// Pitch-bend range in semitones.
    pub closed spec fn pitch_bend_range_spec(self) -> int {
        self.pitch_bend_range_semitones as int
    }

    /// Whether the engine is in monophonic mode.
    pub closed spec fn is_monophonic(self) -> bool {
        self.mode is Monophonic
    }

    /// The sounding note in monophonic mode.
    pub closed spec fn mono_current(self) -> Option<MonoNote> {
        match self.mode {
            EngineMode::Monophonic { current, .. } => current,
            EngineMode::Polyphonic { .. } => None,
        }
    }

    /// The resolver in monophonic mode.
    pub closed spec fn mono_resolver(self) -> Option<FuzzyNoteResolver> {
        match self.mode {
            EngineMode::Monophonic { resolver, .. } => resolver,
            EngineMode::Polyphonic { .. } => None,
        }
    }

    /// The sounding notes in polyphonic mode, ascending.
    pub closed spec fn poly_active(self) -> Seq<u8> {
        match self.mode {
            EngineMode::Monophonic { .. } => Seq::empty(),
            EngineMode::Polyphonic { active } => active@,
        }
    }

    /// Structural invariant: a sane bend range, a well-formed resolver, MIDI
    /// notes everywhere, and in polyphonic mode a sorted active set of at
    /// most six notes.
    pub open spec fn wf(self) -> bool {
        &&& self.pitch_bend_range_spec() >= 1
        &&& (self.mono_resolver() matches Some(rv) ==> rv.wf())
        &&& (self.mono_current() matches Some(c) ==> c.note <= 127)
        &&& sorted_unique(self.poly_active())
        &&& self.poly_active().len() <= 6
        &&& forall|i: int| 0 <= i < self.poly_active().len() ==> self.poly_active()[i] <= 127
    }

    /// The per-session configuration never changes.
    pub open spec fn same_config(self, other: NoteEventEngine) -> bool {
        &&& self.velocity_spec() == other.velocity_spec()
        &&& self.min_note_duration_spec() == other.min_note_duration_spec()
        &&& self.pitch_bend_enabled_spec() == other.pitch_bend_enabled_spec()
        &&& self.pitch_bend_range_spec() == other.pitch_bend_range_spec()
        &&& self.is_monophonic() == other.is_monophonic()
    }

    /// Create a monophonic engine, optionally with a fuzzy resolver.
    pub fn new_monophonic(
        velocity: u8,
        min_note_duration_us: u64,
        pitch_bend_enabled: bool,
        pitch_bend_range_semitones: u32,
        resolver: Option<FuzzyNoteResolver>,
    ) -> (r: NoteEventEngine)
        requires
            pitch_bend_range_semitones >= 1,
            resolver matches Some(rv) ==> rv.wf(),
        ensures
            r.wf(),
            r.is_monophonic(),
            r.mono_current() is None,
            r.mono_resolver() == resolver,
            r.velocity_spec() == velocity,
            r.min_note_duration_spec() == min_note_duration_us,
            r.pitch_bend_enabled_spec() == pitch_bend_enabled,
            r.pitch_bend_range_spec() == pitch_bend_range_semitones,
    {
        NoteEventEngine {
            velocity,
            min_note_duration_us,
            pitch_bend_enabled,
            pitch_bend_range_semitones,
            mode: EngineMode::Monophonic { resolver, current: None },
        }
    }

    /// Create a polyphonic engine.
    pub fn new_polyphonic(velocity: u8) -> (r: NoteEventEngine)
        ensures
            r.wf(),
            !r.is_monophonic(),
            r.poly_active() =~= Seq::<u8>::empty(),
            r.velocity_spec() == velocity,
    {
        NoteEventEngine {
            velocity,
            min_note_duration_us: 0,
            pitch_bend_enabled: false,
            pitch_bend_range_semitones: 1,
            mode: EngineMode::Polyphonic { active: Vec::new() },
        }
    }

    /// Feed one monophonic window result to the engine.
    ///
    /// A detection is resolved (when a resolver is present), then: a changed
    /// note emits note-off for the previous note and note-on for the new
    /// one; an unchanged note emits nothing new; while a note sounds and
    /// pitch bend is enabled, a pitch-bend event against the raw detected
    /// frequency follows. Silence ends the sounding note only once it has
    /// sounded for the minimum note duration — never earlier.
    pub fn process_monophonic(
        &mut self,
        detection: Option<NoteDetection>,
        now_us: u64,
    ) -> (events: Vec<MidiEvent>)
        requires
            old(self).wf(),
            old(self).is_monophonic(),
            detection matches Some(d) ==> d.note <= 127 && MIN_FREQ_MILLIHZ
                <= d.frequency_millihz <= MAX_FREQ_MILLIHZ,
        ensures
            final(self).wf(),
            final(self).same_config(*old(self)),
            final(self).is_monophonic(),
            // silence: nothing sounding means nothing to do
            detection is None && old(self).mono_current() is None ==> final(self).mono_current()
                is None && final(self).mono_resolver() == old(self).mono_resolver() && events@
                =~= Seq::<MidiEvent>::empty(),
            // silence during a note: debounced note-off
            detection is None && old(self).mono_current() is Some ==> final(self).mono_resolver() == old(self).mono_resolver() && {
                let c = old(self).mono_current().unwrap();
                if saturating_elapsed(now_us as int, c.started_at_us as int) >= old(self).min_note_duration_spec() {
                    &&& events@ =~= seq![MidiEvent::NoteOff { note: c.note }]
                    &&& final(self).mono_current() is None
                } else {
                    // the debounce law: no note-off before the minimum duration
                    &&& events@ =~= Seq::<MidiEvent>::empty()
                    &&& final(self).mono_current() == Some(c)
                }
            },
            // a detection: resolve, retrigger on change, bend while sounding
            detection matches Some(d) ==> resolver_step(
                old(self).mono_resolver(),
                final(self).mono_resolver(),
                d,
            ) && {
                let played = resolved_note_of(
                    old(self).mono_resolver(),
                    final(self).mono_resolver(),
                    d,
                );
                let bends = bend_events(
                    old(self).pitch_bend_enabled_spec(),
                    d.frequency_millihz as int,
                    played,
                    old(self).pitch_bend_range_spec(),
                );
                &&& 0 <= played <= 127
                &&& (match old(self).mono_current() {
                    Some(c) => {
                        if c.note == played {
                            &&& final(self).mono_current() == Some(c)
                            &&& events@ =~= bends
                        } else {
                            &&& final(self).mono_current() == Some(
                                MonoNote { note: played as u8, started_at_us: now_us },
                            )
                            &&& events@ =~= seq![
                                MidiEvent::NoteOff { note: c.note },
                                MidiEvent::NoteOn {
                                    note: played as u8,
                                    velocity: old(self).velocity_spec(),
                                },
                            ] + bends
                        }
                    },
                    None => {
                        &&& final(self).mono_current() == Some(
                            MonoNote { note: played as u8, started_at_us: now_us },
                        )
                        &&& events@ =~= seq![
                            MidiEvent::NoteOn {
                                note: played as u8,
                                velocity: old(self).velocity_spec(),
                            },
                        ] + bends
                    },
                })
            },
    {
        let mut events: Vec<MidiEvent> = Vec::new();
        let velocity = self.velocity;
        let bend_enabled = self.pitch_bend_enabled;
        let bend_range = self.pitch_bend_range_semitones;
        match &mut self.mode {
            EngineMode::Monophonic { resolver, current } => {
                match detection {
                    Some(d) => {
                        let resolved = match resolver {
                            Some(rv) => rv.resolve(d),
                            None => d,
                        };
                        let note = resolved.note;
                        let changed = match current {
                            Some(c) => c.note != note,
                            None => true,
                        };
                        if changed {
                            if let Some(c) = current {
                                events.push(MidiEvent::NoteOff { note: c.note });
                            }
                            events.push(MidiEvent::NoteOn { note, velocity });
                            *current = Some(MonoNote { note, started_at_us: now_us });
                        }
                        if bend_enabled {
                            let units = PitchDetector::calculate_pitch_bend(
                                d.frequency_millihz,
                                note,
                                bend_range,
                            );
                            events.push(MidiEvent::PitchBend { units });
                        }
                    },
                    None => {
                        let ended = match current {
                            Some(c) => {
                                let elapsed = if now_us >= c.started_at_us {
                                    now_us - c.started_at_us
                                } else {
                                    0
                                };
                                if elapsed >= self.min_note_duration_us {
                                    events.push(MidiEvent::NoteOff { note: c.note });
                                    true
                                } else {
                                    false
                                }
                            },
                            None => false,
                        };
                        if ended {
                            *current = None;
                        }
                    },
                }
            },
            EngineMode::Polyphonic { .. } => {
                proof {
                    assert(false);
                }
            },
        }
        events
    }

    /// Feed one polyphonic window result to the engine: notes that stopped
    /// sounding emit note-off, notes that began emit note-on, and the active
    /// set becomes the (deduplicated, sorted) candidate set.
    pub fn process_polyphonic(&mut self, candidate_notes: &Vec<u8>) -> (events: Vec<MidiEvent>)
        requires
            old(self).wf(),
            !old(self).is_monophonic(),
            candidate_notes@.len() <= 6,
            forall|i: int| 0 <= i < candidate_notes@.len() ==> candidate_notes@[i] <= 127,
        ensures
            final(self).wf(),
            final(self).same_config(*old(self)),
            !final(self).is_monophonic(),
            final(self).poly_active() == sorted_unique_of(candidate_notes@),
            events@ =~= offs_of(old(self).poly_active(), sorted_unique_of(candidate_notes@))
                + ons_of(
                sorted_unique_of(candidate_notes@),
                old(self).poly_active(),
                old(self).velocity_spec(),
            ),
    {
        let velocity = self.velocity;
        let new_active = sorted_unique_notes(candidate_notes);
        let mut events: Vec<MidiEvent> = Vec::new();
        match &mut self.mode {
            EngineMode::Polyphonic { active } => {
                let ghost old_act = active@;
                let ghost new_act = new_active@;
                // note-offs for notes that are gone
                let mut i: usize = 0;
                while i < active.len()
                    invariant
                        0 <= i <= active@.len(),
                        active@ == old_act,
                        new_active@ == new_act,
                        events@ =~= offs_of(old_act.take(i as int), new_act),
                    decreases active.len() - i,
                {
                    let n = active[i];
                    proof {
                        assert(old_act.take(i as int + 1).drop_last() =~= old_act.take(i as int));
                        assert(old_act.take(i as int + 1).last() == old_act[i as int]);
                    }
                    if !vec_contains_note(new_active.as_slice(), n) {
                        events.push(MidiEvent::NoteOff { note: n });
                    }
                    i = i + 1;
                }
                proof {
                    assert(old_act.take(old_act.len() as int) =~= old_act);
                }
                // note-ons for notes that are new
                let mut j: usize = 0;
                while j < new_active.len()
                    invariant
                        0 <= j <= new_active@.len(),
                        active@ == old_act,
                        new_active@ == new_act,
                        events@ =~= offs_of(old_act, new_act) + ons_of(
                            new_act.take(j as int),
                            old_act,
                            velocity,
                        ),
                    decreases new_active.len() - j,
                {
                    let n = new_active[j];
                    proof {
                        assert(new_act.take(j as int + 1).drop_last() =~= new_act.take(j as int));
                        assert(new_act.take(j as int + 1).last() == new_act[j as int]);
                    }
                    if !vec_contains_note(active.as_slice(), n) {
                        events.push(MidiEvent::NoteOn { note: n, velocity });
                    }
                    j = j + 1;
                }
                proof {
                    assert(new_act.take(new_act.len() as int) =~= new_act);
                }
                *active = new_active;
            },
            EngineMode::Monophonic { .. } => {
                proof {
                    assert(false);
                }
            },
        }
        events
    }

    /// End the session's sound: emit note-off for everything sounding and
    /// clear the engine's state. Runs the same way on every exit path.
    pub fn all_notes_off(&mut self) -> (events: Vec<MidiEvent>)
        requires
            old(self).wf(),
        ensures
            final(self).wf(),
            final(self).same_config(*old(self)),
            final(self).mono_current() is None,
            final(self).poly_active() =~= Seq::<u8>::empty(),
            final(self).mono_resolver() == old(self).mono_resolver(),
            old(self).is_monophonic() ==> events@ =~= (match old(self).mono_current() {
                Some(c) => seq![MidiEvent::NoteOff { note: c.note }],
                None => Seq::<MidiEvent>::empty(),
            }),
            !old(self).is_monophonic() ==> events@ =~= offs_of(
                old(self).poly_active(),
                Seq::<u8>::empty(),
            ),
    {
        let mut events: Vec<MidiEvent> = Vec::new();
        match &mut self.mode {
            EngineMode::Monophonic { current, .. } => {
                if let Some(c) = current {
                    events.push(MidiEvent::NoteOff { note: c.note });
                }
                *current = None;
            },
            EngineMode::Polyphonic { active } => {
                let ghost old_act = active@;
                let mut i: usize = 0;
                while i < active.len()
                    invariant
                        0 <= i <= active@.len(),
                        active@ == old_act,
                        events@ =~= offs_of(old_act.take(i as int), Seq::<u8>::empty()),
                    decreases active.len() - i,
                {
                    proof {
                        assert(old_act.take(i as int + 1).drop_last() =~= old_act.take(i as int));
                        assert(old_act.take(i as int + 1).last() == old_act[i as int]);
                    }
                    events.push(MidiEvent::NoteOff { note: active[i] });
                    i = i + 1;
                }
                proof {
                    assert(old_act.take(old_act.len() as int) =~= old_act);
                }
                active.clear();
            },
        }
        events
    }
}

/// Whether a note occurs in a slice of notes.
fn vec_contains_note(notes: &[u8], n: u8) -> (r: bool)
    ensures
        r == notes@.contains(n),
{
    let mut i: usize = 0;
    while i < notes.len()
        invariant
            0 <= i <= notes@.len(),
            forall|k: int| 0 <= k < i ==> notes@[k] != n,
        decreases notes.len() - i,
    {
        if notes[i] == n {
            return true;
        }
        i = i + 1;
    }
    false
}

/// The sorted duplicate-free note set of a note list.
fn sorted_unique_notes(notes: &Vec<u8>) -> (r: Vec<u8>)
    ensures
        r@ == sorted_unique_of(notes@),
        sorted_unique(r@),
        r@.len() <= notes@.len(),
        forall|i: int|
            (forall|k: int| 0 <= k < notes@.len() ==> notes@[k] <= 127) && 0 <= i < r@.len()
                ==> r@[i] <= 127,
{
    let mut out: Vec<u8> = Vec::new();
    let mut i: usize = 0;
    proof {
        assert(notes@.take(0) =~= Seq::<u8>::empty());
    }
    while i < notes.len()
        invariant
            0 <= i <= notes@.len(),
            out@ == sorted_unique_of(notes@.take(i as int)),
            sorted_unique(out@),
            out@.len() <= i,
            forall|k: int|
                0 <= k < out@.len() ==> exists|l: int|
                    0 <= l < i && notes@[l] == #[trigger] out@[k],
        decreases notes.len() - i,
    {
        let n = notes[i];
        let mut pos: usize = 0;
        while pos < out.len() && out[pos] < n
            invariant
                0 <= pos <= out@.len(),
                forall|k: int| 0 <= k < pos ==> out@[k] < n,
            decreases out.len() - pos,
        {
            pos = pos + 1;
        }
        proof {
            assert(notes@.take(i as int + 1).drop_last() =~= notes@.take(i as int));
            assert(notes@.take(i as int + 1).last() == notes@[i as int]);
            lemma_insert_note_at(out@, n, pos as int);
        }
        if pos < out.len() && out[pos] == n {
            // already present
        } else {
            out.insert(pos, n);
        }
        i = i + 1;
    }
    proof {
        assert(notes@.take(notes@.len() as int) =~= notes@);
    }
    out
}

/// Insertion at the first position whose note is not smaller equals the
/// recursive insertion, and the result stays sorted and grows by at most
/// one.
#[verifier::rlimit(60)]
proof fn lemma_insert_note_at(s: Seq<u8>, n: u8, pos: int)
    requires
        sorted_unique(s),
        0 <= pos <= s.len(),
        forall|k: int| 0 <= k < pos ==> s[k] < n,
        pos < s.len() ==> s[pos] >= n,
    ensures
        pos < s.len() && s[pos] == n ==> insert_note_sorted(s, n) == s,
        !(pos < s.len() && s[pos] == n) ==> insert_note_sorted(s, n) == s.take(pos) + seq![n]
            + s.skip(pos),
        sorted_unique(insert_note_sorted(s, n)),
        s.len() <= insert_note_sorted(s, n).len() <= s.len() + 1,
        forall|k: int|
            0 <= k < insert_note_sorted(s, n).len() ==> s.contains(
                #[trigger] insert_note_sorted(s, n)[k],
            ) || insert_note_sorted(s, n)[k] == n,
    decreases s.len(),
{
    let r = insert_note_sorted(s, n);
    if s.len() == 0 {
        assert(r =~= s.take(0) + seq![n] + s.skip(0));
    } else if s[0] == n {
        assert(pos == 0 || s[pos - 1] < n);
        assert(forall|k: int| 0 <= k < s.len() ==> s.contains(#[trigger] s[k]));
    } else if s[0] > n {
        assert(pos == 0);
        assert(r =~= s.take(0) + seq![n] + s.skip(0));
        assert forall|k: int| 0 <= k < r.len() implies s.contains(#[trigger] r[k]) || r[k] == n by {
            if k > 0 {
                assert(r[k] == s[k - 1]);
            }
        }
    } else {
        assert(pos >= 1);
        let t = s.drop_first();
        assert(sorted_unique(t));
        lemma_insert_note_at(t, n, pos - 1);
        let rt = insert_note_sorted(t, n);
        assert(r == seq![s[0]] + rt);
        if pos < s.len() && s[pos] == n {
            assert(t[pos - 1] == n);
            assert(r =~= s);
        } else {
            assert(rt == t.take(pos - 1) + seq![n] + t.skip(pos - 1));
            assert(r =~= s.take(pos) + seq![n] + s.skip(pos));
        }
        assert forall|a: int, b: int| 0 <= a < b < r.len() implies r[a] < r[b] by {
            if a == 0 {
                assert(r[b] == rt[b - 1]);
                assert(t.contains(rt[b - 1]) || rt[b - 1] == n);
                if t.contains(rt[b - 1]) {
                    let w = choose|w: int| 0 <= w < t.len() && t[w] == rt[b - 1];
                    assert(s[0] < t[w]);
                }
            } else {
                assert(r[a] == rt[a - 1] && r[b] == rt[b - 1]);
            }
        }
        assert forall|k: int| 0 <= k < r.len() implies s.contains(#[trigger] r[k]) || r[k] == n by {
            if k == 0 {
                assert(s.contains(s[0]));
            } else {
                assert(r[k] == rt[k - 1]);
                if t.contains(rt[k - 1]) {
                    let w = choose|w: int| 0 <= w < t.len() && t[w] == rt[k - 1];
                    assert(s[w + 1] == t[w]);
                    assert(s.contains(s[w + 1]));
                }
            }
        }
    }
}

} // verus!
