//! Bounded-memory note learning and fuzzy resolution of low-confidence
//! detections.
//!
//! `NoteHistory` counts how often each note was detected clearly and keeps a
//! FIFO of the most recent clear notes. `FuzzyNoteResolver` passes confident
//! detections through unchanged and otherwise replaces the note by the
//! highest-scoring candidate under a small set of scoring rules; ties go to
//! the lowest note number.

use vstd::prelude::*;
use vstd::arithmetic::div_mod::{lemma_div_is_ordered, lemma_div_multiples_vanish};

verus! {

/// A monophonic detection: MIDI note, frequency in milli-hertz, and a
/// normalized confidence in per-mille (`0..=1000`).
#[derive(Debug, Clone, Copy, PartialEq, Eq, Structural)]
pub struct NoteDetection {
    pub note: u8,
    pub frequency_millihz: u64,
    pub confidence_millis: u32,
}

/// Sum of a sequence of counters.
pub open spec fn counts_sum(s: Seq<u64>) -> int
    decreases s.len(),
{
    if s.len() == 0 {
        0
    } else {
        counts_sum(s.drop_last()) + s.last()
    }
}

proof fn lemma_counts_sum_update(s: Seq<u64>, i: int, v: u64)
    requires
        0 <= i < s.len(),
    ensures
        counts_sum(s.update(i, v)) == counts_sum(s) - s[i] + v,
    decreases s.len(),
{
    if i == s.len() - 1 {
        assert(s.update(i, v).drop_last() =~= s.drop_last());
    } else {
        assert(s.update(i, v).drop_last() =~= s.drop_last().update(i, v));
        lemma_counts_sum_update(s.drop_last(), i, v);
    }
}

proof fn lemma_counts_sum_bounds_element(s: Seq<u64>, i: int)
    requires
        0 <= i < s.len(),
    ensures
        0 <= s[i] <= counts_sum(s),
    decreases s.len(),
{
    if i == s.len() - 1 {
        lemma_counts_sum_nonneg(s.drop_last());
    } else {
        lemma_counts_sum_bounds_element(s.drop_last(), i);
    }
}

proof fn lemma_counts_sum_nonneg(s: Seq<u64>)
    ensures
        counts_sum(s) >= 0,
    decreases s.len(),
{
    if s.len() > 0 {
        lemma_counts_sum_nonneg(s.drop_last());
    }
}

/// The recent FIFO after recording `n`: append, then evict the oldest entry
/// if the bound is exceeded.
pub open spec fn push_recent(s: Seq<u8>, n: u8, max: nat) -> Seq<u8> {
    let t = s.push(n);
    if t.len() > max {
        t.subrange(1, t.len() as int)
    } else {
        t
    }
}

/// Bounded-memory record of recently and frequently observed notes.
pub struct NoteHistory {
    /// Clear-detection count per MIDI note; index is the note number.
    note_counts: Vec<u64>,
    /// The last clear notes, oldest first, never more than `max_recent`.
    recent_notes: Vec<u8>,
    /// Bound on `recent_notes`.
    max_recent: usize,
    /// Confidence at or above which a detection counts as clear, per-mille.
    clear_threshold_millis: u32,
    /// Sum of all entries of `note_counts`.
    total_count: u64,
}

impl NoteHistory {
    /// Counter table view, one entry per MIDI note.
    pub closed spec fn counts(self) -> Seq<u64> {
        self.note_counts@
    }

    /// Recent clear notes, oldest first.
    pub closed spec fn recent(self) -> Seq<u8> {
        self.recent_notes@
    }

    /// Bound on the recent FIFO.
    pub closed spec fn max_recent_spec(self) -> nat {
        self.max_recent as nat
    }

    /// Clear-note confidence threshold, per-mille.
    pub closed spec fn clear_threshold_spec(self) -> int {
        self.clear_threshold_millis as int
    }

    /// Total number of clear detections recorded.
    pub closed spec fn total(self) -> int {
        self.total_count as int
    }

    /// Structural invariant: one counter per MIDI note, the cached total is
    /// the counter sum, the FIFO respects its bound and holds MIDI notes.
    pub open spec fn wf(self) -> bool {
        &&& self.counts().len() == 128
        &&& self.total() == counts_sum(self.counts())
        &&& self.recent().len() <= self.max_recent_spec()
        &&& forall|i: int| 0 <= i < self.recent().len() ==> self.recent()[i] <= 127
    }

    /// Unchanged observable state.
    pub open spec fn same_state(self, other: NoteHistory) -> bool {
        &&& self.counts() == other.counts()
        &&& self.recent() == other.recent()
        &&& self.max_recent_spec() == other.max_recent_spec()
        &&& self.clear_threshold_spec() == other.clear_threshold_spec()
        &&& self.total() == other.total()
    }

    /// Create an empty history with the given FIFO bound and clear threshold.
    pub fn new(max_recent: usize, clear_threshold_millis: u32) -> (h: NoteHistory)
        ensures
            h.wf(),
            h.counts() =~= Seq::<u64>::new(128, |i: int| 0u64),
            h.recent() =~= Seq::<u8>::empty(),
            h.max_recent_spec() == max_recent,
            h.clear_threshold_spec() == clear_threshold_millis,
            h.total() == 0,
    {
        let mut counts: Vec<u64> = Vec::new();
        let mut i: usize = 0;
        while i < 128
            invariant
                i <= 128,
                counts@.len() == i,
                counts@ =~= Seq::<u64>::new(i as nat, |j: int| 0u64),
            decreases 128 - i,
        {
            counts.push(0);
            i = i + 1;
        }
        proof {
            lemma_zero_seq_sum(counts@);
        }
        NoteHistory {
            note_counts: counts,
            recent_notes: Vec::new(),
            max_recent,
            clear_threshold_millis,
            total_count: 0,
        }
    }

    /// How `record` transforms the history: sub-threshold detections are
    /// no-ops, clear ones bump the note's counter and enter the recent FIFO,
    /// evicting its oldest entry when full. The counters stop once the total
    /// would no longer fit its machine word.
    pub open spec fn record_transition(pre: NoteHistory, post: NoteHistory, det: NoteDetection) -> bool {
        &&& post.max_recent_spec() == pre.max_recent_spec()
        &&& post.clear_threshold_spec() == pre.clear_threshold_spec()
        &&& det.confidence_millis < pre.clear_threshold_spec() ==> post.same_state(pre)
        &&& det.confidence_millis >= pre.clear_threshold_spec() && pre.total() < u64::MAX ==> {
            &&& post.counts() == pre.counts().update(
                det.note as int,
                (pre.counts()[det.note as int] + 1) as u64,
            )
            &&& post.recent() == push_recent(pre.recent(), det.note, pre.max_recent_spec())
            &&& post.total() == pre.total() + 1
        }
        &&& pre.total() == u64::MAX ==> post.same_state(pre)
    }

    /// Record a detection; see `record_transition` for the exact effect.
    /// In particular a detection whose confidence is below the clear
    /// threshold leaves counters and the recent FIFO unchanged.
    pub fn record(&mut self, detection: &NoteDetection)
        requires
            old(self).wf(),
            detection.note <= 127,
        ensures
            final(self).wf(),
            NoteHistory::record_transition(*old(self), *final(self), *detection),
    {
        if detection.confidence_millis >= self.clear_threshold_millis && self.total_count
            < u64::MAX {
            proof {
                lemma_counts_sum_bounds_element(self.note_counts@, detection.note as int);
            }
            let c = self.note_counts[detection.note as usize];
            self.note_counts[detection.note as usize] = c + 1;
            proof {
                lemma_counts_sum_update(
                    old(self).note_counts@,
                    detection.note as int,
                    (c + 1) as u64,
                );
            }
            self.total_count = self.total_count + 1;
            self.recent_notes.push(detection.note);
            if self.recent_notes.len() > self.max_recent {
                self.recent_notes.remove(0);
                proof {
                    assert(self.recent_notes@ =~= push_recent(
                        old(self).recent(),
                        detection.note,
                        old(self).max_recent_spec(),
                    ));
                }
            }
        }
    }

    /// Relative frequency of a note among all clear detections, per-mille;
    /// `0` while nothing has been recorded.
    pub open spec fn spec_note_frequency(self, note: int) -> int {
        if self.total() == 0 || !(0 <= note < 128) {
            0
        } else {
            self.counts()[note] * 1000 / self.total()
        }
    }

    /// How often `note` has been detected clearly, as a share of all clear
    /// detections, in per-mille.
    pub fn note_frequency(&self, note: u8) -> (r: u32)
        requires
            self.wf(),
        ensures
            r == self.spec_note_frequency(note as int),
            r <= 1000,
    {
        if note >= 128 || self.total_count == 0 {
            0
        } else {
            proof {
                lemma_counts_sum_bounds_element(self.note_counts@, note as int);
            }
            let count = self.note_counts[note as usize];
            let r128 = (count as u128) * 1000 / (self.total_count as u128);
            proof {
                lemma_div_is_ordered(
                    count as int * 1000,
                    self.total_count as int * 1000,
                    self.total_count as int,
                );
                lemma_div_multiples_vanish(1000, self.total_count as int);
            }
            r128 as u32
        }
    }

    /// Whether `note` occurs among the last `window` recent entries.
    pub open spec fn spec_is_recent(self, note: u8, window: int) -> bool {
        let start = if self.recent().len() >= window {
            self.recent().len() - window
        } else {
            0
        };
        exists|i: int| start <= i < self.recent().len() && self.recent()[i] == note
    }

    /// Whether `note` was seen among the last `window` clear detections.
    pub fn is_recent(&self, note: u8, window: usize) -> (r: bool)
        ensures
            r == self.spec_is_recent(note, window as int),
    {
        let len = self.recent_notes.len();
        let start = if len >= window {
            len - window
        } else {
            0
        };
        let mut i = start;
        while i < len
            invariant
                start <= i <= len,
                len == self.recent().len(),
                start == if len >= window {
                    len - window
                } else {
                    0
                },
                forall|j: int| start <= j < i ==> self.recent()[j] != note,
            decreases len - i,
        {
            if self.recent_notes[i] == note {
                return true;
            }
            i = i + 1;
        }
        false
    }

    /// The note `pick_most_common` settles on: the lowest note whose counter
    /// is maximal.
    pub open spec fn spec_most_common_from(self, n: int) -> int
        decreases n,
    {
        if n <= 0 {
            0
        } else {
            let b = self.spec_most_common_from(n - 1);
            if self.counts()[n] > self.counts()[b] {
                n
            } else {
                b
            }
        }
    }

    /// The most frequently recorded note, lowest note number on ties, or
    /// `None` if nothing has been recorded yet.
    pub fn most_common_note(&self) -> (r: Option<u8>)
        requires
            self.wf(),
        ensures
            self.total() == 0 <==> r is None,
            r matches Some(n) ==> n == self.spec_most_common_from(127),
    {
        if self.total_count == 0 {
            return None;
        }
        let mut best: u8 = 0;
        let mut n: usize = 1;
        while n < 128
            invariant
                1 <= n <= 128,
                best < 128,
                self.wf(),
                best == self.spec_most_common_from(n as int - 1),
            decreases 128 - n,
        {
            if self.note_counts[n] > self.note_counts[best as usize] {
                best = n as u8;
            }
            n = n + 1;
        }
        Some(best)
    }

    /// The five chromatic neighbours of the most recent clear note, the note
    /// itself included, clamped to the MIDI range.
    pub open spec fn neighbors_of(l: u8) -> Seq<u8> {
        seq![
            if l >= 2 { (l - 2) as u8 } else { 0u8 },
            if l >= 1 { (l - 1) as u8 } else { 0u8 },
            l,
            if l + 1 <= 127 { (l + 1) as u8 } else { 127u8 },
            if l + 2 <= 127 { (l + 2) as u8 } else { 127u8 },
        ]
    }

    /// Neighbour notes derived from the most recent entry; empty without any
    /// history.
    pub open spec fn spec_recent_neighbors(self) -> Seq<u8> {
        if self.recent().len() == 0 {
            Seq::empty()
        } else {
            NoteHistory::neighbors_of(self.recent().last())
        }
    }

    /// Notes within two semitones of the most recently recorded clear note
    /// (empty if no note has been recorded).
    pub fn get_recent_neighbors(&self) -> (r: Vec<u8>)
        requires
            self.wf(),
        ensures
            r@ == self.spec_recent_neighbors(),
            forall|i: int| 0 <= i < r@.len() ==> r@[i] <= 127,
    {
        let len = self.recent_notes.len();
        if len == 0 {
            let r: Vec<u8> = Vec::new();
            proof {
                assert(r@ =~= self.spec_recent_neighbors());
            }
            return r;
        }
        let l = self.recent_notes[len - 1];
        let mut r: Vec<u8> = Vec::new();
        r.push(if l >= 2 { l - 2 } else { 0 });
        r.push(if l >= 1 { l - 1 } else { 0 });
        r.push(l);
        r.push(if l < 127 { l + 1 } else { 127 });
        r.push(if l < 126 { l + 2 } else { 127 });
        proof {
            assert(self.recent().last() == l);
            assert(r@ =~= NoteHistory::neighbors_of(l));
        }
        r
    }

    /// How many clear detections have been recorded in total.
    pub fn total_detections(&self) -> (r: u64)
        ensures
            r == self.total(),
    {
        self.total_count
    }

    /// The clear-detection counter of one note.
    pub fn note_count(&self, note: u8) -> (r: u64)
        requires
            self.wf(),
            note <= 127,
        ensures
            r == self.counts()[note as int],
    {
        self.note_counts[note as usize]
    }

    /// How many notes the recent FIFO currently holds.
    pub fn recent_len(&self) -> (r: usize)
        ensures
            r == self.recent().len(),
    {
        self.recent_notes.len()
    }
}


/// Absolute distance between two notes, in semitones.
pub open spec fn dist(a: int, b: int) -> int {
    if a >= b {
        a - b
    } else {
        b - a
    }
}

/// Scoring denominator: the total number of clear detections, or 1 while the
/// history is empty (every frequency-weighted term is then zero anyway).
/// Scores are integers in units of `1/(1000 * score_denom)`.
pub open spec fn score_denom(h: NoteHistory) -> int {
    if h.total() == 0 {
        1
    } else {
        h.total()
    }
}

/// A note's clear-detection counter (0 outside the MIDI range).
pub open spec fn count_of(h: NoteHistory, note: int) -> int {
    if 0 <= note < 128 {
        h.counts()[note] as int
    } else {
        0
    }
}

/// Weight of the neighbour rule for `note`: every occurrence of `note`
/// among the recent neighbours that lies within two semitones of the detected
/// note adds `300 - 60 * distance`, a proximity of `0.3 - 0.06 * distance`
/// in the score's `1/1000` units.
pub open spec fn neighbor_weight(ns: Seq<u8>, det_note: int, note: int) -> int
    decreases ns.len(),
{
    if ns.len() == 0 {
        0
    } else {
        neighbor_weight(ns.drop_last(), det_note, note) + {
            let nb = ns.last() as int;
            if nb == note && dist(det_note, nb) <= 2 {
                300 - 60 * dist(det_note, nb)
            } else {
                0
            }
        }
    }
}

/// The alternative note one semitone below the detected note, clamped.
pub open spec fn alt_low(det_note: int) -> int {
    if det_note - 1 < 0 {
        0
    } else {
        det_note - 1
    }
}

/// The alternative note one semitone above the detected note, clamped.
pub open spec fn alt_high(det_note: int) -> int {
    if det_note + 1 > 127 {
        127
    } else {
        det_note + 1
    }
}

/// The alternative-note rule fires when the alternative holds more than a
/// tenth of all clear detections and occurs in the last ten recent entries.
pub open spec fn alt_qualifies(h: NoteHistory, alt: int) -> bool {
    &&& 10 * count_of(h, alt) > h.total()
    &&& 0 <= alt < 128
    &&& h.spec_is_recent(alt as u8, 10)
}

/// Fuzzy score of a candidate note for a detection, as an exact integer in
/// units of `1/(1000 * score_denom(h))`:
/// a base of 1.0 for the detected note itself, +0.5 if the detected note is
/// among the last five clear notes, the neighbour rule, +0.8 times the
/// detected note's historical frequency, and +0.6 times the historical
/// frequency of a qualifying alternative a semitone away.
pub open spec fn fuzzy_score(h: NoteHistory, det: NoteDetection, note: int) -> int {
    let d = score_denom(h);
    (if note == det.note {
        1000 * d
    } else {
        0
    }) + (if note == det.note && h.spec_is_recent(det.note, 5) {
        500 * d
    } else {
        0
    }) + neighbor_weight(h.spec_recent_neighbors(), det.note as int, note) * d + (if note
        == det.note {
        800 * count_of(h, note)
    } else {
        0
    }) + (if note == alt_low(det.note as int) && alt_qualifies(h, alt_low(det.note as int)) {
        600 * count_of(h, note)
    } else {
        0
    }) + (if note == alt_high(det.note as int) && alt_qualifies(h, alt_high(det.note as int)) {
        600 * count_of(h, note)
    } else {
        0
    })
}

/// The winning note among `0..=n`: the lowest note with the maximal score.
pub open spec fn fuzzy_pick_from(h: NoteHistory, det: NoteDetection, n: int) -> int
    decreases n,
{
    if n <= 0 {
        0
    } else {
        let b = fuzzy_pick_from(h, det, n - 1);
        if fuzzy_score(h, det, n) > fuzzy_score(h, det, b) {
            n
        } else {
            b
        }
    }
}

/// The note the fuzzy rules settle on for a detection.
pub open spec fn fuzzy_pick(h: NoteHistory, det: NoteDetection) -> int {
    fuzzy_pick_from(h, det, 127)
}

proof fn lemma_fuzzy_pick_from_argmax(h: NoteHistory, det: NoteDetection, n: int)
    requires
        0 <= n <= 127,
    ensures
        0 <= fuzzy_pick_from(h, det, n) <= n,
        forall|m: int|
            0 <= m <= n ==> #[trigger] fuzzy_score(h, det, m) <= fuzzy_score(h, det, fuzzy_pick_from(h, det, n)),
        forall|m: int|
            0 <= m < fuzzy_pick_from(h, det, n) ==> #[trigger] fuzzy_score(h, det, m)
                < fuzzy_score(h, det, fuzzy_pick_from(h, det, n)),
    decreases n,
{
    if n > 0 {
        lemma_fuzzy_pick_from_argmax(h, det, n - 1);
    }
}

/// The tie-break of the fuzzy rules is deterministic: the chosen note has
/// the maximal score, and every lower-numbered note scores strictly less —
/// among equal top scores the lowest note wins.
pub proof fn lemma_fuzzy_pick_lowest_argmax(h: NoteHistory, det: NoteDetection)
    ensures
        0 <= fuzzy_pick(h, det) <= 127,
        forall|m: int|
            0 <= m <= 127 ==> #[trigger] fuzzy_score(h, det, m) <= fuzzy_score(h, det, fuzzy_pick(h, det)),
        forall|m: int|
            0 <= m < fuzzy_pick(h, det) ==> #[trigger] fuzzy_score(h, det, m) < fuzzy_score(
                h,
                det,
                fuzzy_pick(h, det),
            ),
{
    lemma_fuzzy_pick_from_argmax(h, det, 127);
}

/// Fuzzy-logic resolver for ambiguous note detections.
pub struct FuzzyNoteResolver {
    history: NoteHistory,
    /// Confidence below which fuzzy logic is applied, per-mille.
    fuzzy_threshold_millis: u32,
}

impl FuzzyNoteResolver {
    /// The learning history the resolver maintains.
    pub closed spec fn history_spec(self) -> NoteHistory {
        self.history
    }

    /// Confidence threshold below which fuzzy logic is applied, per-mille.
    pub closed spec fn fuzzy_threshold_spec(self) -> int {
        self.fuzzy_threshold_millis as int
    }

    /// Structural invariant.
    pub open spec fn wf(self) -> bool {
        self.history_spec().wf()
    }

    /// Create a resolver over an empty history.
    pub fn new(max_recent: usize, clear_threshold_millis: u32, fuzzy_threshold_millis: u32) -> (r:
        FuzzyNoteResolver)
        ensures
            r.wf(),
            r.history_spec().total() == 0,
            r.history_spec().recent().len() == 0,
            r.history_spec().max_recent_spec() == max_recent,
            r.history_spec().clear_threshold_spec() == clear_threshold_millis,
            r.fuzzy_threshold_spec() == fuzzy_threshold_millis,
    {
        FuzzyNoteResolver {
            history: NoteHistory::new(max_recent, clear_threshold_millis),
            fuzzy_threshold_millis,
        }
    }

    /// Exact score of one candidate note, in units of
    /// `1/(1000 * score_denom)`.
    fn score_of(history: &NoteHistory, detection: &NoteDetection, note: u8) -> (r: u128)
        requires
            history.wf(),
            detection.note <= 127,
            note <= 127,
        ensures
            r == fuzzy_score(*history, *detection, note as int),
    {
        proof {
            lemma_counts_sum_bounds_element(history.counts(), note as int);
        }
        let d: u64 = if history.total_detections() == 0 {
            1
        } else {
            history.total_detections()
        };
        let d128 = d as u128;
        let mut score: u128 = 0;
        if note == detection.note {
            score = score + 1000 * d128;
        }
        if note == detection.note && history.is_recent(detection.note, 5) {
            score = score + 500 * d128;
        }
        // neighbour rule: accumulate the weight, then scale by the denominator
        let neighbors = history.get_recent_neighbors();
        let ghost ns = neighbors@;
        let mut w: u32 = 0;
        let mut j: usize = 0;
        while j < neighbors.len()
            invariant
                j <= neighbors.len() <= 5,
                neighbors@ == ns,
                detection.note <= 127,
                note <= 127,
                w == neighbor_weight(ns.subrange(0, j as int), detection.note as int, note as int),
                w <= 300 * j,
            decreases neighbors.len() - j,
        {
            let nb = neighbors[j];
            if nb == note {
                let diff: u8 = if detection.note >= nb {
                    detection.note - nb
                } else {
                    nb - detection.note
                };
                if diff <= 2 {
                    w = w + (300 - 60 * (diff as u32));
                }
            }
            proof {
                assert(ns.subrange(0, j + 1).drop_last() =~= ns.subrange(0, j as int));
                assert(ns.subrange(0, j + 1).last() == ns[j as int]);
            }
            j = j + 1;
        }
        proof {
            assert(ns.subrange(0, ns.len() as int) =~= ns);
            assert((w as int) * (d as int) <= 1500 * (d as int)) by (nonlinear_arith)
                requires
                    0 <= (w as int),
                    (w as int) <= 1500,
                    0 <= (d as int);
        }
        score = score + (w as u128) * d128;
        if note == detection.note {
            score = score + 800 * (history.note_count(note) as u128);
        }
        let lo: u8 = if detection.note >= 1 {
            detection.note - 1
        } else {
            0
        };
        let hi: u8 = if detection.note < 127 {
            detection.note + 1
        } else {
            127
        };
        if note == lo {
            let count = history.note_count(lo);
            if (count as u128) * 10 > history.total_detections() as u128 && history.is_recent(
                lo,
                10,
            ) {
                score = score + 600 * (count as u128);
            }
        }
        if note == hi {
            let count = history.note_count(hi);
            if (count as u128) * 10 > history.total_detections() as u128 && history.is_recent(
                hi,
                10,
            ) {
                score = score + 600 * (count as u128);
            }
        }
        score
    }

    /// Apply the fuzzy scoring rules and return the winning note: the lowest
    /// note number whose score is maximal.
    fn apply_fuzzy_logic(&self, detection: &NoteDetection) -> (r: u8)
        requires
            self.wf(),
            detection.note <= 127,
        ensures
            r == fuzzy_pick(self.history_spec(), *detection),
            r <= 127,
    {
        let mut best: u8 = 0;
        let mut best_score: u128 = FuzzyNoteResolver::score_of(&self.history, detection, 0);
        let mut n: usize = 1;
        while n < 128
            invariant
                1 <= n <= 128,
                best < 128,
                self.wf(),
                detection.note <= 127,
                best == fuzzy_pick_from(self.history_spec(), *detection, n as int - 1),
                best_score == fuzzy_score(self.history_spec(), *detection, best as int),
            decreases 128 - n,
        {
            let s = FuzzyNoteResolver::score_of(&self.history, detection, n as u8);
            if s > best_score {
                best = n as u8;
                best_score = s;
            }
            n = n + 1;
        }
        best
    }

    /// Resolve a detection. The detection is always recorded into the
    /// history first (so learning happens even for clear detections); a
    /// detection at or above the fuzzy threshold is returned unchanged, and
    /// anything below it has its note replaced by the fuzzy pick over the
    /// updated history.
    pub fn resolve(&mut self, detection: NoteDetection) -> (r: NoteDetection)
        requires
            old(self).wf(),
            detection.note <= 127,
        ensures
            final(self).wf(),
            final(self).fuzzy_threshold_spec() == old(self).fuzzy_threshold_spec(),
            NoteHistory::record_transition(
                old(self).history_spec(),
                final(self).history_spec(),
                detection,
            ),
            r.frequency_millihz == detection.frequency_millihz,
            r.confidence_millis == detection.confidence_millis,
            r.note <= 127,
            // confident detections pass through unchanged
            detection.confidence_millis >= old(self).fuzzy_threshold_spec() ==> r == detection,
            detection.confidence_millis < old(self).fuzzy_threshold_spec() ==> r.note
                == fuzzy_pick(final(self).history_spec(), detection),
    {
        self.history.record(&detection);
        if detection.confidence_millis >= self.fuzzy_threshold_millis {
            return detection;
        }
        let resolved_note = self.apply_fuzzy_logic(&detection);
        NoteDetection {
            note: resolved_note,
            frequency_millihz: detection.frequency_millihz,
            confidence_millis: detection.confidence_millis,
        }
    }

    /// The learning history, for inspection.
    pub fn history(&self) -> (r: &NoteHistory)
        ensures
            *r == self.history_spec(),
    {
        &self.history
    }
}

proof fn lemma_zero_seq_sum(s: Seq<u64>)
    requires
        forall|i: int| 0 <= i < s.len() ==> s[i] == 0,
    ensures
        counts_sum(s) == 0,
    decreases s.len(),
{
    if s.len() > 0 {
        lemma_zero_seq_sum(s.drop_last());
    }
}

} // verus!
