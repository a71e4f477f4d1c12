//! Recording of emitted events and their serialization into a standard
//! timed-track binary file.
//!
//! The recorder accumulates `(timestamp, message)` pairs between an explicit
//! start and stop, and `save` renders them as a single-track file: a header
//! chunk, one track chunk opening with a tempo meta event, every recorded
//! message prefixed by its delta time in ticks, and an end-of-track marker.
//! Every byte of the output is specified exactly.

use vstd::prelude::*;
use crate::engine::MidiEvent;

verus! {

/// Ticks per quarter note written into the file header.
pub const DEFAULT_TICKS_PER_BEAT: u16 = 480;

/// Microseconds per quarter note of the fixed tempo (120 beats per minute).
pub const DEFAULT_TEMPO_MICROS: u32 = 500_000;

/// Why a recording could not be saved.
#[derive(Debug, Clone, Copy, PartialEq, Eq, Structural)]
pub enum RecorderError {
    /// `save` was called although no events had been recorded; no file
    /// content is produced.
    EmptyRecording,
}

/// A recorded channel message.
#[derive(Debug, Clone, Copy, PartialEq, Eq, Structural)]
pub enum RecordedMessage {
    NoteOn { note: u8, velocity: u8 },
    NoteOff { note: u8 },
}

/// A message with its timestamp in microseconds since the recording began.
#[derive(Debug, Clone, Copy, PartialEq, Eq, Structural)]
pub struct RecordedEvent {
    pub timestamp_us: u64,
    pub message: RecordedMessage,
}

/// Big-endian 16-bit encoding (the value taken modulo `2^16`).
pub open spec fn be16(x: int) -> Seq<u8> {
    seq![(x / 0x100 % 0x100) as u8, (x % 0x100) as u8]
}

/// Big-endian 24-bit encoding (the value taken modulo `2^24`).
pub open spec fn be24(x: int) -> Seq<u8> {
    seq![(x / 0x1_0000 % 0x100) as u8, (x / 0x100 % 0x100) as u8, (x % 0x100) as u8]
}

/// Big-endian 32-bit encoding (the value taken modulo `2^32`).
pub open spec fn be32(x: int) -> Seq<u8> {
    seq![
        (x / 0x100_0000 % 0x100) as u8,
        (x / 0x1_0000 % 0x100) as u8,
        (x / 0x100 % 0x100) as u8,
        (x % 0x100) as u8,
    ]
}

/// Variable-length-quantity encoding of a delta time below `2^28`: one to
/// four bytes of seven bits each, high bit set on all but the last.
pub open spec fn vlq(n: int) -> Seq<u8> {
    if n < 0x80 {
        seq![(n % 0x80) as u8]
    } else if n < 0x4000 {
        seq![(0x80 + n / 0x80) as u8, (n % 0x80) as u8]
    } else if n < 0x20_0000 {
        seq![(0x80 + n / 0x4000) as u8, (0x80 + n / 0x80 % 0x80) as u8, (n % 0x80) as u8]
    } else {
        seq![
            (0x80 + n / 0x20_0000 % 0x80) as u8,
            (0x80 + n / 0x4000 % 0x80) as u8,
            (0x80 + n / 0x80 % 0x80) as u8,
            (n % 0x80) as u8,
        ]
    }
}

/// The bytes of one recorded channel message, on channel 0.
pub open spec fn message_bytes(m: RecordedMessage) -> Seq<u8> {
    match m {
        RecordedMessage::NoteOn { note, velocity } => seq![0x90u8, note, velocity],
        RecordedMessage::NoteOff { note } => seq![0x80u8, note, 0u8],
    }
}

/// Delta microseconds converted to ticks: `micros * ticks_per_beat / tempo`,
/// saturating at the largest 32-bit value.
pub open spec fn spec_micros_to_ticks(micros: int, tpb: int, tempo: int) -> int {
    let t = micros * tpb / tempo;
    if t > 0xFFFF_FFFF {
        0xFFFF_FFFF
    } else {
        t
    }
}

/// The tick count as written: the saturated conversion further reduced to
/// the 28 bits a delta time can carry.
pub open spec fn spec_delta_field(micros: int, tpb: int, tempo: int) -> int {
    spec_micros_to_ticks(micros, tpb, tempo) % 0x1000_0000
}

/// The byte stream of the recorded events from index `i` on, each prefixed
/// by the delta time since the previous event's timestamp `last_ts`.
pub open spec fn events_bytes_from(
    evts: Seq<RecordedEvent>,
    i: int,
    last_ts: int,
    tpb: int,
    tempo: int,
) -> Seq<u8>
    decreases evts.len() - i,
{
    if i < 0 || i >= evts.len() {
        Seq::empty()
    } else {
        let ts = evts[i].timestamp_us as int;
        let delta = if ts >= last_ts {
            ts - last_ts
        } else {
            0
        };
        vlq(spec_delta_field(delta, tpb, tempo)) + message_bytes(evts[i].message)
            + events_bytes_from(evts, i + 1, ts, tpb, tempo)
    }
}

/// The body of the track chunk: the tempo meta event at time zero, the
/// recorded events with delta times, and the end-of-track meta event.
pub open spec fn track_body(evts: Seq<RecordedEvent>, tpb: int, tempo: int) -> Seq<u8> {
    seq![0x00u8, 0xFFu8, 0x51u8, 0x03u8] + be24(tempo) + events_bytes_from(evts, 0, 0, tpb, tempo)
        + seq![0x00u8, 0xFFu8, 0x2Fu8, 0x00u8]
}

/// The complete single-track file: the header chunk (format 0, one track,
/// metrical timing) followed by the track chunk.
pub open spec fn spec_smf_bytes(evts: Seq<RecordedEvent>, tpb: int, tempo: int) -> Seq<u8> {
    let body = track_body(evts, tpb, tempo);
    seq![0x4Du8, 0x54u8, 0x68u8, 0x64u8] + be32(6) + be16(0) + be16(1) + be16(tpb)
        + seq![0x4Du8, 0x54u8, 0x72u8, 0x6Bu8] + be32(body.len() as int) + body
}

/// Accumulates timestamped events during a session and serializes them to a
/// timed-track binary file on demand.
pub struct MidiRecorder {
    events: Vec<RecordedEvent>,
    start_us: u64,
    tempo_micros: u32,
    ticks_per_beat: u16,
    is_recording: bool,
}

impl MidiRecorder {
    /// The recorded events, in recording order.
    pub closed spec fn events_spec(self) -> Seq<RecordedEvent> {
        self.events@
    }

    /// When the recording began, microseconds on the session clock.
    pub closed spec fn start_spec(self) -> int {
        self.start_us as int
    }

    /// Tempo in microseconds per quarter note.
    pub closed spec fn tempo_spec(self) -> int {
        self.tempo_micros as int
    }

    /// Resolution in ticks per quarter note.
    pub closed spec fn ticks_per_beat_spec(self) -> int {
        self.ticks_per_beat as int
    }

    /// Whether events are currently being accumulated.
    pub closed spec fn recording_spec(self) -> bool {
        self.is_recording
    }

    /// Structural invariant: a positive tempo.
    pub open spec fn wf(self) -> bool {
        self.tempo_spec() >= 1
    }

    /// The fixed timing configuration never changes.
    pub open spec fn same_timing(self, other: MidiRecorder) -> bool {
        &&& self.tempo_spec() == other.tempo_spec()
        &&& self.ticks_per_beat_spec() == other.ticks_per_beat_spec()
    }

    /// Create an idle recorder at the default tempo and resolution.
    pub fn new() -> (r: MidiRecorder)
        ensures
            r.wf(),
            r.events_spec() =~= Seq::<RecordedEvent>::empty(),
            r.recording_spec() == false,
            r.tempo_spec() == DEFAULT_TEMPO_MICROS,
            r.ticks_per_beat_spec() == DEFAULT_TICKS_PER_BEAT,
            r.start_spec() == 0,
    {
        MidiRecorder {
            events: Vec::new(),
            start_us: 0,
            tempo_micros: 60_000_000 / 120,
            ticks_per_beat: DEFAULT_TICKS_PER_BEAT,
            is_recording: false,
        }
    }

    /// Begin recording: clear any prior events and timestamp from `now_us`.
    pub fn start(&mut self, now_us: u64)
        requires
            old(self).wf(),
        ensures
            final(self).wf(),
            final(self).same_timing(*old(self)),
            final(self).events_spec() =~= Seq::<RecordedEvent>::empty(),
            final(self).recording_spec() == true,
            final(self).start_spec() == now_us,
    {
        self.start_us = now_us;
        self.events.clear();
        self.is_recording = true;
    }

    /// End accumulation; the recorded events stay available for saving.
    pub fn stop(&mut self)
        requires
            old(self).wf(),
        ensures
            final(self).wf(),
            final(self).same_timing(*old(self)),
            final(self).events_spec() == old(self).events_spec(),
            final(self).start_spec() == old(self).start_spec(),
            final(self).recording_spec() == false,
    {
        self.is_recording = false;
    }

    /// Whether the recorder is currently accumulating events.
    pub fn is_recording(&self) -> (r: bool)
        ensures
            r == self.recording_spec(),
    {
        self.is_recording
    }

    /// Record a note-on at the given session clock reading, if recording;
    /// the stored timestamp is the time elapsed since the recording began.
    pub fn record_note_on(&mut self, note: u8, velocity: u8, now_us: u64)
        requires
            old(self).wf(),
        ensures
            final(self).wf(),
            final(self).same_timing(*old(self)),
            final(self).recording_spec() == old(self).recording_spec(),
            final(self).start_spec() == old(self).start_spec(),
            !old(self).recording_spec() ==> final(self).events_spec() == old(self).events_spec(),
            old(self).recording_spec() ==> final(self).events_spec() == old(self).events_spec().push(
                RecordedEvent {
                    timestamp_us: (if now_us >= old(self).start_spec() {
                        now_us - old(self).start_spec()
                    } else {
                        0
                    }) as u64,
                    message: RecordedMessage::NoteOn { note, velocity },
                },
            ),
    {
        if self.is_recording {
            let ts = if now_us >= self.start_us {
                now_us - self.start_us
            } else {
                0
            };
            self.events.push(
                RecordedEvent {
                    timestamp_us: ts,
                    message: RecordedMessage::NoteOn { note, velocity },
                },
            );
        }
    }

    /// Record a note-off at the given session clock reading, if recording.
    pub fn record_note_off(&mut self, note: u8, now_us: u64)
        requires
            old(self).wf(),
        ensures
            final(self).wf(),
            final(self).same_timing(*old(self)),
            final(self).recording_spec() == old(self).recording_spec(),
            final(self).start_spec() == old(self).start_spec(),
            !old(self).recording_spec() ==> final(self).events_spec() == old(self).events_spec(),
            old(self).recording_spec() ==> final(self).events_spec() == old(self).events_spec().push(
                RecordedEvent {
                    timestamp_us: (if now_us >= old(self).start_spec() {
                        now_us - old(self).start_spec()
                    } else {
                        0
                    }) as u64,
                    message: RecordedMessage::NoteOff { note },
                },
            ),
    {
        if self.is_recording {
            let ts = if now_us >= self.start_us {
                now_us - self.start_us
            } else {
                0
            };
            self.events.push(
                RecordedEvent { timestamp_us: ts, message: RecordedMessage::NoteOff { note } },
            );
        }
    }

    /// Route one engine event into the recording: note-on and note-off are
    /// recorded, pitch bend is not part of the track format used here.
    pub fn record_event(&mut self, event: &MidiEvent, now_us: u64)
        requires
            old(self).wf(),
        ensures
            final(self).wf(),
            final(self).same_timing(*old(self)),
            final(self).recording_spec() == old(self).recording_spec(),
            final(self).start_spec() == old(self).start_spec(),
            !old(self).recording_spec() ==> final(self).events_spec() == old(self).events_spec(),
            old(self).recording_spec() ==> final(self).events_spec() == (match *event {
                MidiEvent::NoteOn { note, velocity } => old(self).events_spec().push(
                    RecordedEvent {
                        timestamp_us: (if now_us >= old(self).start_spec() {
                            now_us - old(self).start_spec()
                        } else {
                            0
                        }) as u64,
                        message: RecordedMessage::NoteOn { note, velocity },
                    },
                ),
                MidiEvent::NoteOff { note } => old(self).events_spec().push(
                    RecordedEvent {
                        timestamp_us: (if now_us >= old(self).start_spec() {
                            now_us - old(self).start_spec()
                        } else {
                            0
                        }) as u64,
                        message: RecordedMessage::NoteOff { note },
                    },
                ),
                MidiEvent::PitchBend { .. } => old(self).events_spec(),
            }),
    {
        match event {
            MidiEvent::NoteOn { note, velocity } => {
                self.record_note_on(*note, *velocity, now_us);
            },
            MidiEvent::NoteOff { note } => {
                self.record_note_off(*note, now_us);
            },
            MidiEvent::PitchBend { .. } => {},
        }
    }

    /// Convert a duration in microseconds to ticks at the recorder's tempo
    /// and resolution, saturating at the largest 32-bit tick count.
    pub fn micros_to_ticks(&self, micros: u64) -> (r: u32)
        requires
            self.wf(),
        ensures
            r == spec_micros_to_ticks(micros as int, self.ticks_per_beat_spec(), self.tempo_spec()),
    {
        proof {
            assert((micros as int) * (self.ticks_per_beat as int) < 0x1_0000_0000_0000_0000_0000)
                by (nonlinear_arith)
                requires
                    0 <= (micros as int) < 0x1_0000_0000_0000_0000,
                    0 <= (self.ticks_per_beat as int) < 0x1_0000;
        }
        let t = (micros as u128) * (self.ticks_per_beat as u128) / (self.tempo_micros as u128);
        if t > 0xFFFF_FFFF {
            0xFFFF_FFFF
        } else {
            t as u32
        }
    }

    /// How many events have been recorded.
    pub fn event_count(&self) -> (r: usize)
        ensures
            r == self.events_spec().len(),
    {
        self.events.len()
    }

    /// Discard all recorded events.
    pub fn clear(&mut self)
        requires
            old(self).wf(),
        ensures
            final(self).wf(),
            final(self).same_timing(*old(self)),
            final(self).events_spec() =~= Seq::<RecordedEvent>::empty(),
            final(self).recording_spec() == old(self).recording_spec(),
            final(self).start_spec() == old(self).start_spec(),
    {
        self.events.clear();
    }

    /// Serialize the recording to the bytes of a single-track timed file.
    /// Fails, producing no content at all, exactly when nothing was
    /// recorded.
    pub fn save(&self) -> (r: Result<Vec<u8>, RecorderError>)
        requires
            self.wf(),
        ensures
            r is Err <==> self.events_spec().len() == 0,
            r is Err ==> r == Result::<Vec<u8>, RecorderError>::Err(RecorderError::EmptyRecording),
            r matches Ok(bytes) ==> bytes@ == spec_smf_bytes(
                self.events_spec(),
                self.ticks_per_beat_spec(),
                self.tempo_spec(),
            ),
    {
        if self.events.len() == 0 {
            return Err(RecorderError::EmptyRecording);
        }
        let ghost evts = self.events@;
        let tpb = self.ticks_per_beat;
        let tempo = self.tempo_micros;

        // track body: tempo meta event, the events, end of track
        let mut body: Vec<u8> = Vec::new();
        body.push(0x00);
        body.push(0xFF);
        body.push(0x51);
        body.push(0x03);
        push_be24(&mut body, tempo);
        let ghost head = body@;
        proof {
            assert(head =~= seq![0x00u8, 0xFFu8, 0x51u8, 0x03u8] + be24(tempo as int));
        }
        let mut i: usize = 0;
        let mut last_ts: u64 = 0;
        while i < self.events.len()
            invariant
                0 <= i <= self.events@.len(),
                self.events@ == evts,
                self.wf(),
                tpb == self.ticks_per_beat_spec(),
                tempo == self.tempo_spec(),
                i > 0 ==> last_ts == evts[i as int - 1].timestamp_us,
                i == 0 ==> last_ts == 0,
                head + events_bytes_from(evts, 0, 0, tpb as int, tempo as int) == body@
                    + events_bytes_from(evts, i as int, last_ts as int, tpb as int, tempo as int),
            decreases self.events.len() - i,
        {
            let ghost body_pre = body@;
            let ev = self.events[i];
            let delta_us = if ev.timestamp_us >= last_ts {
                ev.timestamp_us - last_ts
            } else {
                0
            };
            let ticks = self.micros_to_ticks(delta_us);
            let field = ticks % 0x1000_0000;
            push_vlq(&mut body, field);
            match ev.message {
                RecordedMessage::NoteOn { note, velocity } => {
                    body.push(0x90);
                    body.push(note);
                    body.push(velocity);
                },
                RecordedMessage::NoteOff { note } => {
                    body.push(0x80);
                    body.push(note);
                    body.push(0);
                },
            }
            proof {
                assert(field == spec_delta_field(delta_us as int, tpb as int, tempo as int));
                assert(body@ =~= body_pre + (vlq(field as int) + message_bytes(ev.message)));
                assert(events_bytes_from(evts, i as int, last_ts as int, tpb as int, tempo as int)
                    == vlq(field as int) + message_bytes(ev.message) + events_bytes_from(
                    evts,
                    i as int + 1,
                    ev.timestamp_us as int,
                    tpb as int,
                    tempo as int,
                ));
                assert(body_pre + (vlq(field as int) + message_bytes(ev.message))
                    + events_bytes_from(
                    evts,
                    i as int + 1,
                    ev.timestamp_us as int,
                    tpb as int,
                    tempo as int,
                ) =~= body_pre + events_bytes_from(
                    evts,
                    i as int,
                    last_ts as int,
                    tpb as int,
                    tempo as int,
                ));
            }
            last_ts = ev.timestamp_us;
            i = i + 1;
        }
        body.push(0x00);
        body.push(0xFF);
        body.push(0x2F);
        body.push(0x00);
        proof {
            assert(body@ =~= track_body(evts, tpb as int, tempo as int));
        }

        // header chunk and track chunk
        let mut out: Vec<u8> = Vec::new();
        out.push(0x4D);
        out.push(0x54);
        out.push(0x68);
        out.push(0x64);
        push_be32(&mut out, 6);
        push_be16(&mut out, 0);
        push_be16(&mut out, 1);
        push_be16(&mut out, tpb);
        out.push(0x4D);
        out.push(0x54);
        out.push(0x72);
        out.push(0x6B);
        push_be32_usize(&mut out, body.len());
        let ghost out_head = out@;
        let mut k: usize = 0;
        while k < body.len()
            invariant
                0 <= k <= body@.len(),
                out@ == out_head + body@.take(k as int),
            decreases body.len() - k,
        {
            out.push(body[k]);
            proof {
                assert(out@ =~= out_head + body@.take(k as int + 1));
            }
            k = k + 1;
        }
        proof {
            assert(body@.take(body@.len() as int) =~= body@);
            assert(out@ =~= spec_smf_bytes(evts, tpb as int, tempo as int));
        }
        Ok(out)
    }
}

/// Append a big-endian 16-bit value.
fn push_be16(out: &mut Vec<u8>, x: u16)
    ensures
        final(out)@ == old(out)@ + be16(x as int),
{
    out.push((x / 0x100) as u8);
    out.push((x % 0x100) as u8);
    proof {
        assert(out@ =~= old(out)@ + be16(x as int));
    }
}

/// Append a big-endian 24-bit value (the low 24 bits of the argument).
fn push_be24(out: &mut Vec<u8>, x: u32)
    ensures
        final(out)@ == old(out)@ + be24(x as int),
{
    out.push((x / 0x1_0000 % 0x100) as u8);
    out.push((x / 0x100 % 0x100) as u8);
    out.push((x % 0x100) as u8);
    proof {
        assert(out@ =~= old(out)@ + be24(x as int));
    }
}

/// Append a big-endian 32-bit value.
fn push_be32(out: &mut Vec<u8>, x: u32)
    ensures
        final(out)@ == old(out)@ + be32(x as int),
{
    out.push((x / 0x100_0000 % 0x100) as u8);
    out.push((x / 0x1_0000 % 0x100) as u8);
    out.push((x / 0x100 % 0x100) as u8);
    out.push((x % 0x100) as u8);
    proof {
        assert(out@ =~= old(out)@ + be32(x as int));
    }
}

/// Append a big-endian 32-bit length field (a longer length is reduced
/// modulo `2^32`, which an in-memory recording cannot reach).
fn push_be32_usize(out: &mut Vec<u8>, x: usize)
    ensures
        final(out)@ == old(out)@ + be32(x as int),
{
    out.push((x / 0x100_0000 % 0x100) as u8);
    out.push((x / 0x1_0000 % 0x100) as u8);
    out.push((x / 0x100 % 0x100) as u8);
    out.push((x % 0x100) as u8);
    proof {
        assert(out@ =~= old(out)@ + be32(x as int));
    }
}

/// Append the variable-length-quantity encoding of a value below `2^28`.
fn push_vlq(out: &mut Vec<u8>, n: u32)
    requires
        n < 0x1000_0000,
    ensures
        final(out)@ == old(out)@ + vlq(n as int),
{
    if n < 0x80 {
        out.push((n % 0x80) as u8);
    } else if n < 0x4000 {
        out.push((0x80 + n / 0x80) as u8);
        out.push((n % 0x80) as u8);
    } else if n < 0x20_0000 {
        out.push((0x80 + n / 0x4000) as u8);
        out.push((0x80 + n / 0x80 % 0x80) as u8);
        out.push((n % 0x80) as u8);
    } else {
        out.push((0x80 + n / 0x20_0000 % 0x80) as u8);
        out.push((0x80 + n / 0x4000 % 0x80) as u8);
        out.push((0x80 + n / 0x80 % 0x80) as u8);
        out.push((n % 0x80) as u8);
    }
    proof {
        assert(out@ =~= old(out)@ + vlq(n as int));
    }
}

impl Default for MidiRecorder {
    /// An idle recorder at the default tempo and resolution.
    fn default() -> (r: MidiRecorder)
        ensures
            r.wf(),
            r.events_spec() =~= Seq::<RecordedEvent>::empty(),
            r.recording_spec() == false,
            r.tempo_spec() == DEFAULT_TEMPO_MICROS,
            r.ticks_per_beat_spec() == DEFAULT_TICKS_PER_BEAT,
    {
        MidiRecorder::new()
    }
}

} // verus!
