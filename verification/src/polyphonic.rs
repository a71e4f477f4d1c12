//! Polyphonic pitch estimation: spectral peak picking with harmonic
//! suppression.
//!
//! The spectral transform itself works on floating-point samples and is
//! performed by the surrounding application; this module holds the whole
//! decision pipeline over the resulting integer magnitude spectrum: peak
//! detection, conversion of bins to frequencies and notes, suppression of
//! harmonic overtones, ordering by magnitude, and the cap on simultaneous
//! notes.

use vstd::prelude::*;
use crate::notes::{
    frequency_to_midi_note, midi_note_name, spec_frequency_to_midi, spec_note_name,
    MAX_FREQ_MILLIHZ, MIN_FREQ_MILLIHZ,
};

verus! {

/// The most simultaneous notes ever reported: a playable string count.
pub const MAX_POLYPHONY: usize = 6;

/// A detected pitch with its relative spectral strength.
#[derive(Debug, Clone, Copy, PartialEq, Eq, Structural)]
pub struct PitchCandidate {
    /// Fundamental frequency, milli-hertz.
    pub frequency_millihz: u64,
    /// Relative spectral magnitude; not comparable across runs.
    pub magnitude: u64,
    /// Nearest MIDI note for the frequency.
    pub midi_note: u8,
}

/// A bin is a peak when it strictly exceeds both neighbours and the
/// magnitude floor.
pub open spec fn is_peak(m: Seq<u64>, i: int, min_mag: int) -> bool {
    &&& 0 < i < m.len() - 1
    &&& m[i] > m[i - 1]
    &&& m[i] > m[i + 1]
    &&& m[i] > min_mag
}

/// Peak bins with index below `n`, in increasing order.
pub open spec fn peaks_upto(m: Seq<u64>, min_mag: int, n: int) -> Seq<int>
    decreases n,
{
    if n <= 1 {
        Seq::empty()
    } else if is_peak(m, n - 1, min_mag) {
        peaks_upto(m, min_mag, n - 1).push(n - 1)
    } else {
        peaks_upto(m, min_mag, n - 1)
    }
}

/// Frequency of a spectral bin in milli-hertz.
pub open spec fn bin_freq_millihz(bin: int, rate: int, bufsize: int) -> int {
    bin * rate * 1000 / bufsize
}

/// The candidate a peak bin gives rise to.
pub open spec fn candidate_of_bin(m: Seq<u64>, bin: int, rate: int, bufsize: int) -> PitchCandidate {
    PitchCandidate {
        frequency_millihz: bin_freq_millihz(bin, rate, bufsize) as u64,
        magnitude: m[bin],
        midi_note: spec_frequency_to_midi(bin_freq_millihz(bin, rate, bufsize)) as u8,
    }
}

/// Candidates from a list of peak bins: each bin inside the supported
/// frequency range becomes a candidate, the others are dropped.
pub open spec fn candidates_of_peaks(m: Seq<u64>, peaks: Seq<int>, rate: int, bufsize: int) -> Seq<
    PitchCandidate,
>
    decreases peaks.len(),
{
    if peaks.len() == 0 {
        Seq::empty()
    } else {
        let rest = candidates_of_peaks(m, peaks.drop_last(), rate, bufsize);
        let f = bin_freq_millihz(peaks.last(), rate, bufsize);
        if MIN_FREQ_MILLIHZ <= f <= MAX_FREQ_MILLIHZ {
            rest.push(candidate_of_bin(m, peaks.last(), rate, bufsize))
        } else {
            rest
        }
    }
}

/// Stable insertion by ascending frequency: a candidate goes in front of the
/// first strictly higher frequency.
pub open spec fn insert_by_freq(s: Seq<PitchCandidate>, x: PitchCandidate) -> Seq<PitchCandidate>
    decreases s.len(),
{
    if s.len() == 0 {
        seq![x]
    } else if s[0].frequency_millihz > x.frequency_millihz {
        seq![x] + s
    } else {
        seq![s[0]] + insert_by_freq(s.drop_first(), x)
    }
}

/// Stable sort by ascending frequency.
pub open spec fn sort_by_freq(s: Seq<PitchCandidate>) -> Seq<PitchCandidate>
    decreases s.len(),
{
    if s.len() == 0 {
        Seq::empty()
    } else {
        insert_by_freq(sort_by_freq(s.drop_last()), s.last())
    }
}

/// Stable insertion by descending magnitude: a candidate goes in front of
/// the first strictly lower magnitude.
pub open spec fn insert_by_mag(s: Seq<PitchCandidate>, x: PitchCandidate) -> Seq<PitchCandidate>
    decreases s.len(),
{
    if s.len() == 0 {
        seq![x]
    } else if s[0].magnitude < x.magnitude {
        seq![x] + s
    } else {
        seq![s[0]] + insert_by_mag(s.drop_first(), x)
    }
}

/// Stable sort by descending magnitude.
pub open spec fn sort_by_mag(s: Seq<PitchCandidate>) -> Seq<PitchCandidate>
    decreases s.len(),
{
    if s.len() == 0 {
        Seq::empty()
    } else {
        insert_by_mag(sort_by_mag(s.drop_last()), s.last())
    }
}

/// Non-increasing magnitudes.
pub open spec fn sorted_by_mag_desc(s: Seq<PitchCandidate>) -> bool {
    forall|i: int, j: int| 0 <= i < j < s.len() ==> s[i].magnitude >= s[j].magnitude
}

/// Inserting into a magnitude-sorted sequence keeps it sorted, and the
/// largest magnitude stays at the front.
proof fn lemma_insert_by_mag_sorted(s: Seq<PitchCandidate>, x: PitchCandidate)
    requires
        sorted_by_mag_desc(s),
    ensures
        sorted_by_mag_desc(insert_by_mag(s, x)),
        forall|k: int|
            0 <= k < insert_by_mag(s, x).len() ==> #[trigger] insert_by_mag(s, x)[k].magnitude
                <= (if s.len() > 0 && s[0].magnitude >= x.magnitude {
                s[0].magnitude
            } else {
                x.magnitude
            }),
    decreases s.len(),
{
    let r = insert_by_mag(s, x);
    if s.len() == 0 {
        assert(r =~= seq![x]);
    } else if s[0].magnitude < x.magnitude {
        assert(r == seq![x] + s);
        assert forall|i: int, j: int| 0 <= i < j < r.len() implies r[i].magnitude
            >= r[j].magnitude by {
            if i == 0 {
                assert(r[j] == s[j - 1]);
                if j > 1 {
                    assert(s[0].magnitude >= s[j - 1].magnitude);
                }
            } else {
                assert(r[i] == s[i - 1] && r[j] == s[j - 1]);
            }
        }
        assert forall|k: int| 0 <= k < r.len() implies #[trigger] r[k].magnitude
            <= x.magnitude by {
            if k > 0 {
                assert(r[k] == s[k - 1]);
                if k > 1 {
                    assert(s[0].magnitude >= s[k - 1].magnitude);
                }
            }
        }
    } else {
        let t = s.drop_first();
        assert(sorted_by_mag_desc(t));
        lemma_insert_by_mag_sorted(t, x);
        let rt = insert_by_mag(t, x);
        assert(r == seq![s[0]] + rt);
        let head_bound = if t.len() > 0 && t[0].magnitude >= x.magnitude {
            t[0].magnitude
        } else {
            x.magnitude
        };
        assert(head_bound <= s[0].magnitude);
        assert forall|i: int, j: int| 0 <= i < j < r.len() implies r[i].magnitude
            >= r[j].magnitude by {
            if i == 0 {
                assert(r[j] == rt[j - 1]);
                assert(rt[j - 1].magnitude <= head_bound);
            } else {
                assert(r[i] == rt[i - 1] && r[j] == rt[j - 1]);
            }
        }
        assert forall|k: int| 0 <= k < r.len() implies #[trigger] r[k].magnitude
            <= s[0].magnitude by {
            if k > 0 {
                assert(r[k] == rt[k - 1]);
            }
        }
    }
}

/// The magnitude sort really sorts.
proof fn lemma_sort_by_mag_sorted(s: Seq<PitchCandidate>)
    ensures
        sorted_by_mag_desc(sort_by_mag(s)),
    decreases s.len(),
{
    if s.len() > 0 {
        lemma_sort_by_mag_sorted(s.drop_last());
        lemma_insert_by_mag_sorted(sort_by_mag(s.drop_last()), s.last());
    }
}

/// Absolute difference.
pub open spec fn abs_diff(a: int, b: int) -> int {
    if a >= b {
        a - b
    } else {
        b - a
    }
}

/// The integer ratio nearest to `f / g` (for positive `g`).
pub open spec fn harmonic_ratio(f: int, g: int) -> int {
    (2 * f + g) / (2 * g)
}

/// Whether `f` is within five percent of an integer multiple (at least
/// twice) of `g`: `|f/g - k| / k < 0.05`, stated exactly over integers.
pub open spec fn is_overtone(f: int, g: int) -> bool {
    let k = harmonic_ratio(f, g);
    k >= 2 && 20 * abs_diff(f, k * g) < k * g
}

/// Greedy harmonic suppression over frequency-sorted candidates: a candidate
/// is kept unless it is an overtone of one already kept.
pub open spec fn keep_fundamentals_rec(s: Seq<PitchCandidate>, acc: Seq<PitchCandidate>) -> Seq<
    PitchCandidate,
>
    decreases s.len(),
{
    if s.len() == 0 {
        acc
    } else if exists|j: int|
        0 <= j < acc.len() && is_overtone(
            s[0].frequency_millihz as int,
            acc[j].frequency_millihz as int,
        ) {
        keep_fundamentals_rec(s.drop_first(), acc)
    } else {
        keep_fundamentals_rec(s.drop_first(), acc.push(s[0]))
    }
}

/// Harmonic suppression of a candidate list: sort ascending by frequency,
/// then keep only fundamentals.
pub open spec fn spec_remove_harmonics(s: Seq<PitchCandidate>) -> Seq<PitchCandidate> {
    keep_fundamentals_rec(sort_by_freq(s), Seq::empty())
}

/// The first `MAX_POLYPHONY` entries.
pub open spec fn truncated(s: Seq<PitchCandidate>) -> Seq<PitchCandidate> {
    if s.len() > MAX_POLYPHONY {
        s.subrange(0, MAX_POLYPHONY as int)
    } else {
        s
    }
}

/// The whole decision pipeline over a magnitude spectrum.
pub open spec fn spec_candidates(m: Seq<u64>, rate: int, bufsize: int, min_mag: int) -> Seq<
    PitchCandidate,
> {
    let peaks = peaks_upto(m, min_mag, m.len() as int);
    let cands = candidates_of_peaks(m, peaks, rate, bufsize);
    truncated(sort_by_mag(spec_remove_harmonics(cands)))
}

/// Polyphonic pitch estimator configuration.
pub struct PolyphonicPitchDetector {
    sample_rate: u32,
    buffer_size: usize,
    min_peak_magnitude: u64,
}

impl PolyphonicPitchDetector {
    /// Sample rate in hertz.
    pub closed spec fn rate_spec(self) -> int {
        self.sample_rate as int
    }

    /// Window (and transform) length in samples.
    pub closed spec fn buffer_size_spec(self) -> int {
        self.buffer_size as int
    }

    /// Magnitude floor for peak detection.
    pub closed spec fn min_peak_magnitude_spec(self) -> int {
        self.min_peak_magnitude as int
    }

    /// Create an estimator for a sample rate, a transform length, and a
    /// minimum peak magnitude in integer spectral units.
    pub fn new(sample_rate: u32, buffer_size: usize, min_peak_magnitude: u64) -> (r:
        PolyphonicPitchDetector)
        ensures
            r.rate_spec() == sample_rate,
            r.buffer_size_spec() == buffer_size,
            r.min_peak_magnitude_spec() == min_peak_magnitude,
    {
        PolyphonicPitchDetector { sample_rate, buffer_size, min_peak_magnitude }
    }

    /// The configured sample rate in hertz.
    pub fn sample_rate(&self) -> (r: u32)
        ensures
            r == self.rate_spec(),
    {
        self.sample_rate
    }

    /// The configured transform length in samples.
    pub fn buffer_size(&self) -> (r: usize)
        ensures
            r == self.buffer_size_spec(),
    {
        self.buffer_size
    }

    /// The configured magnitude floor.
    pub fn min_peak_magnitude(&self) -> (r: u64)
        ensures
            r == self.min_peak_magnitude_spec(),
    {
        self.min_peak_magnitude
    }

    /// Find the spectral peaks of a magnitude spectrum: bins that strictly
    /// exceed both neighbours and the magnitude floor, in increasing order.
    fn find_spectral_peaks(&self, magnitudes: &[u64]) -> (r: Vec<usize>)
        ensures
            r@.map_values(|i: usize| i as int) == peaks_upto(
                magnitudes@,
                self.min_peak_magnitude_spec(),
                magnitudes@.len() as int,
            ),
            forall|k: int| 0 <= k < r@.len() ==> 0 < #[trigger] r@[k] < magnitudes@.len(),
    {
        let ghost m = magnitudes@;
        let ghost mm = self.min_peak_magnitude_spec();
        let mut r: Vec<usize> = Vec::new();
        if magnitudes.len() < 3 {
            proof {
                assert(peaks_upto(m, mm, 1int).len() == 0);
                if m.len() == 2 {
                    assert(!is_peak(m, 1, mm));
                    assert(peaks_upto(m, mm, 2int) == peaks_upto(m, mm, 1int));
                }
                assert(r@.map_values(|i: usize| i as int) =~= peaks_upto(m, mm, m.len() as int));
            }
            return r;
        }
        let mut i: usize = 1;
        while i < magnitudes.len() - 1
            invariant
                1 <= i <= magnitudes@.len() - 1,
                magnitudes@ == m,
                m.len() >= 3,
                r@.map_values(|j: usize| j as int) == peaks_upto(
                    m,
                    self.min_peak_magnitude_spec(),
                    i as int,
                ),
                forall|k: int| 0 <= k < r@.len() ==> 0 < #[trigger] r@[k] < m.len(),
            decreases magnitudes.len() - i,
        {
            let cur = magnitudes[i];
            if cur > magnitudes[i - 1] && cur > magnitudes[i + 1] && cur
                > self.min_peak_magnitude {
                r.push(i);
            }
            proof {
                assert(r@.map_values(|j: usize| j as int) =~= peaks_upto(
                    m,
                    self.min_peak_magnitude_spec(),
                    i as int + 1,
                ));
            }
            i = i + 1;
        }
        proof {
            assert(peaks_upto(m, self.min_peak_magnitude_spec(), m.len() as int) == peaks_upto(
                m,
                self.min_peak_magnitude_spec(),
                m.len() - 1,
            ));
        }
        r
    }

    /// Remove harmonic overtones from a candidate list, keeping only
    /// fundamentals: candidates are taken in ascending frequency order, and
    /// one within five percent of an integer multiple (at least double) of
    /// an already kept fundamental is dropped.
    pub fn remove_harmonics(&self, candidates: Vec<PitchCandidate>) -> (r: Vec<PitchCandidate>)
        requires
            forall|i: int|
                0 <= i < candidates@.len() ==> 1 <= #[trigger] candidates@[i].frequency_millihz
                    <= MAX_FREQ_MILLIHZ,
        ensures
            r@ == spec_remove_harmonics(candidates@),
    {
        let sorted = sort_candidates_by_freq(candidates);
        let mut out: Vec<PitchCandidate> = Vec::new();
        let mut i: usize = 0;
        proof {
            assert(sorted@.skip(0) =~= sorted@);
        }
        while i < sorted.len()
            invariant
                0 <= i <= sorted@.len(),
                forall|k: int|
                    0 <= k < sorted@.len() ==> 1 <= #[trigger] sorted@[k].frequency_millihz
                        <= MAX_FREQ_MILLIHZ,
                forall|k: int|
                    0 <= k < out@.len() ==> 1 <= #[trigger] out@[k].frequency_millihz
                        <= MAX_FREQ_MILLIHZ,
                keep_fundamentals_rec(sorted@.skip(i as int), out@) == keep_fundamentals_rec(
                    sorted@,
                    Seq::empty(),
                ),
            decreases sorted.len() - i,
        {
            let c = sorted[i];
            let mut is_harmonic = false;
            let mut j: usize = 0;
            while j < out.len()
                invariant
                    0 <= j <= out@.len(),
                    1 <= c.frequency_millihz <= MAX_FREQ_MILLIHZ,
                    forall|k: int|
                        0 <= k < out@.len() ==> 1 <= #[trigger] out@[k].frequency_millihz
                            <= MAX_FREQ_MILLIHZ,
                    is_harmonic == exists|k: int|
                        0 <= k < j && is_overtone(
                            c.frequency_millihz as int,
                            out@[k].frequency_millihz as int,
                        ),
                decreases out.len() - j,
            {
                let g = out[j].frequency_millihz;
                let k = (2 * c.frequency_millihz + g) / (2 * g);
                proof {
                    vstd::arithmetic::div_mod::lemma_div_pos_is_pos(
                        2 * c.frequency_millihz + g,
                        2 * g,
                    );
                    vstd::arithmetic::div_mod::lemma_fundamental_div_mod(
                        2 * c.frequency_millihz + g,
                        2 * g,
                    );
                    assert((k as int) * (g as int) <= c.frequency_millihz + g)
                        by (nonlinear_arith)
                        requires
                            (2 * (g as int)) * (k as int) <= 2 * (c.frequency_millihz as int) + g,
                            (g as int) >= 1,
                            (k as int) >= 0,
                    ;
                }
                if k >= 2 {
                    let kg = k * g;
                    let ad = if c.frequency_millihz >= kg {
                        c.frequency_millihz - kg
                    } else {
                        kg - c.frequency_millihz
                    };
                    if 20 * ad < kg {
                        is_harmonic = true;
                    }
                }
                j = j + 1;
            }
            proof {
                assert(sorted@.skip(i as int)[0] == c);
                assert(sorted@.skip(i as int).drop_first() =~= sorted@.skip(i as int + 1));
            }
            if !is_harmonic {
                out.push(c);
            }
            i = i + 1;
        }
        proof {
            assert(sorted@.skip(sorted@.len() as int) =~= Seq::<PitchCandidate>::empty());
        }
        out
    }

    /// Run the decision pipeline over a magnitude spectrum: peak picking,
    /// bin-to-frequency conversion with range filtering, harmonic
    /// suppression, ordering by descending magnitude, and the polyphony cap.
    /// Never returns more than `MAX_POLYPHONY` candidates.
    pub fn candidates_from_spectrum(&self, magnitudes: &[u64]) -> (r: Vec<PitchCandidate>)
        requires
            self.buffer_size_spec() >= 1,
        ensures
            r@ == spec_candidates(
                magnitudes@,
                self.rate_spec(),
                self.buffer_size_spec(),
                self.min_peak_magnitude_spec(),
            ),
            r@.len() <= MAX_POLYPHONY,
            sorted_by_mag_desc(r@),
    {
        let ghost m = magnitudes@;
        let peaks = self.find_spectral_peaks(magnitudes);
        let ghost peak_ints = peaks@.map_values(|i: usize| i as int);

        let mut cands: Vec<PitchCandidate> = Vec::new();
        let mut i: usize = 0;
        proof {
            assert(peak_ints.take(0) =~= Seq::<int>::empty());
        }
        while i < peaks.len()
            invariant
                0 <= i <= peaks@.len(),
                magnitudes@ == m,
                peak_ints == peaks@.map_values(|k: usize| k as int),
                peak_ints == peaks_upto(m, self.min_peak_magnitude_spec(), m.len() as int),
                forall|k: int| 0 <= k < peaks@.len() ==> 0 < #[trigger] peaks@[k] < m.len(),
                self.rate_spec() == self.sample_rate as int,
                self.rate_spec() <= 0xFFFF_FFFF,
                self.buffer_size_spec() == self.buffer_size as int,
                self.buffer_size_spec() >= 1,
                cands@ == candidates_of_peaks(
                    m,
                    peak_ints.take(i as int),
                    self.rate_spec(),
                    self.buffer_size_spec(),
                ),
            decreases peaks.len() - i,
        {
            let bin = peaks[i];
            proof {
                assert((bin as int) * self.rate_spec() <= 0xFFFF_FFFF_FFFF_FFFF * 0xFFFF_FFFF)
                    by (nonlinear_arith)
                    requires
                        0 <= (bin as int) <= 0xFFFF_FFFF_FFFF_FFFF,
                        0 <= self.rate_spec() <= 0xFFFF_FFFF,
                ;
            }
            let freq_wide = (bin as u128) * (self.sample_rate as u128) * 1000
                / (self.buffer_size as u128);
            proof {
                assert(peak_ints.take(i as int + 1).drop_last() =~= peak_ints.take(i as int));
            }
            if freq_wide >= MIN_FREQ_MILLIHZ as u128 && freq_wide <= MAX_FREQ_MILLIHZ as u128 {
                let f = freq_wide as u64;
                let note = frequency_to_midi_note(f);
                cands.push(
                    PitchCandidate { frequency_millihz: f, magnitude: magnitudes[bin], midi_note: note },
                );
            }
            i = i + 1;
        }
        proof {
            assert(peak_ints.take(peak_ints.len() as int) =~= peak_ints);
            lemma_candidates_in_range(
                m,
                peak_ints,
                self.rate_spec(),
                self.buffer_size_spec(),
            );
        }
        let fundamentals = self.remove_harmonics(cands);
        let sorted = sort_candidates_by_mag(fundamentals);
        proof {
            lemma_sort_by_mag_sorted(spec_remove_harmonics(fundamentals@));
            lemma_sort_by_mag_sorted(fundamentals@);
        }
        let mut out = sorted;
        if out.len() > MAX_POLYPHONY {
            out.truncate(MAX_POLYPHONY);
            proof {
                assert(out@ =~= truncated(sorted@));
            }
        }
        out
    }

    /// Nearest MIDI note for a frequency in milli-hertz.
    pub fn frequency_to_midi(frequency_millihz: u64) -> (note: u8)
        ensures
            note == spec_frequency_to_midi(frequency_millihz as int),
            note <= 127,
    {
        frequency_to_midi_note(frequency_millihz)
    }

    /// Chromatic name of a MIDI note, for example "A4" for note 69.
    pub fn midi_to_note_name(midi_note: u8) -> (r: String)
        requires
            midi_note <= 127,
        ensures
            r@ == spec_note_name(midi_note as int),
    {
        midi_note_name(midi_note)
    }
}

/// Every candidate a peak list yields has a frequency in the supported
/// range.
proof fn lemma_candidates_in_range(m: Seq<u64>, peaks: Seq<int>, rate: int, bufsize: int)
    ensures
        forall|i: int|
            0 <= i < candidates_of_peaks(m, peaks, rate, bufsize).len() ==> 1
                <= #[trigger] candidates_of_peaks(m, peaks, rate, bufsize)[i].frequency_millihz
                <= MAX_FREQ_MILLIHZ,
    decreases peaks.len(),
{
    if peaks.len() > 0 {
        lemma_candidates_in_range(m, peaks.drop_last(), rate, bufsize);
        let rest = candidates_of_peaks(m, peaks.drop_last(), rate, bufsize);
        let full = candidates_of_peaks(m, peaks, rate, bufsize);
        let f = bin_freq_millihz(peaks.last(), rate, bufsize);
        if MIN_FREQ_MILLIHZ <= f <= MAX_FREQ_MILLIHZ {
            assert(full == rest.push(candidate_of_bin(m, peaks.last(), rate, bufsize)));
            assert forall|i: int| 0 <= i < full.len() implies 1
                <= #[trigger] full[i].frequency_millihz <= MAX_FREQ_MILLIHZ by {
                if i < rest.len() {
                    assert(full[i] == rest[i]);
                } else {
                    assert(full[i] == candidate_of_bin(m, peaks.last(), rate, bufsize));
                }
            }
        } else {
            assert(full == rest);
        }
    }
}

/// Stable insertion sort by ascending frequency.
fn sort_candidates_by_freq(input: Vec<PitchCandidate>) -> (r: Vec<PitchCandidate>)
    ensures
        r@ == sort_by_freq(input@),
        (forall|k: int|
            0 <= k < input@.len() ==> 1 <= #[trigger] input@[k].frequency_millihz
                <= MAX_FREQ_MILLIHZ) ==> forall|i: int|
            0 <= i < r@.len() ==> 1 <= #[trigger] r@[i].frequency_millihz <= MAX_FREQ_MILLIHZ,
{
    let mut out: Vec<PitchCandidate> = Vec::new();
    let mut i: usize = 0;
    proof {
        assert(input@.take(0) =~= Seq::<PitchCandidate>::empty());
    }
    while i < input.len()
        invariant
            0 <= i <= input@.len(),
            out@ == sort_by_freq(input@.take(i as int)),
        decreases input.len() - i,
    {
        let x = input[i];
        let mut pos: usize = 0;
        while pos < out.len() && out[pos].frequency_millihz <= x.frequency_millihz
            invariant
                0 <= pos <= out@.len(),
                forall|k: int| 0 <= k < pos ==> out@[k].frequency_millihz <= x.frequency_millihz,
            decreases out.len() - pos,
        {
            pos = pos + 1;
        }
        proof {
            lemma_insert_by_freq_at(out@, x, pos as int);
            assert(input@.take(i as int + 1).drop_last() =~= input@.take(i as int));
        }
        out.insert(pos, x);
        i = i + 1;
    }
    proof {
        assert(input@.take(input@.len() as int) =~= input@);
        if forall|k: int|
            0 <= k < input@.len() ==> 1 <= #[trigger] input@[k].frequency_millihz
                <= MAX_FREQ_MILLIHZ {
            lemma_sort_by_freq_preserves(input@);
        }
    }
    out
}

/// Insertion before the first strictly larger frequency equals the
/// recursive insertion.
proof fn lemma_insert_by_freq_at(s: Seq<PitchCandidate>, x: PitchCandidate, pos: int)
    requires
        0 <= pos <= s.len(),
        forall|k: int| 0 <= k < pos ==> s[k].frequency_millihz <= x.frequency_millihz,
        pos < s.len() ==> s[pos].frequency_millihz > x.frequency_millihz,
    ensures
        insert_by_freq(s, x) == s.take(pos) + seq![x] + s.skip(pos),
    decreases s.len(),
{
    if s.len() == 0 {
        assert(insert_by_freq(s, x) =~= s.take(0) + seq![x] + s.skip(0));
    } else if s[0].frequency_millihz > x.frequency_millihz {
        assert(pos == 0);
        assert(insert_by_freq(s, x) =~= s.take(0) + seq![x] + s.skip(0));
    } else {
        lemma_insert_by_freq_at(s.drop_first(), x, pos - 1);
        assert(insert_by_freq(s, x) =~= s.take(pos) + seq![x] + s.skip(pos));
    }
}

/// Sorting by frequency keeps every element's frequency in range.
proof fn lemma_sort_by_freq_preserves(s: Seq<PitchCandidate>)
    requires
        forall|k: int|
            0 <= k < s.len() ==> 1 <= #[trigger] s[k].frequency_millihz <= MAX_FREQ_MILLIHZ,
    ensures
        forall|i: int|
            0 <= i < sort_by_freq(s).len() ==> 1 <= #[trigger] sort_by_freq(
                s,
            )[i].frequency_millihz <= MAX_FREQ_MILLIHZ,
    decreases s.len(),
{
    if s.len() > 0 {
        assert(forall|k: int|
            0 <= k < s.drop_last().len() ==> 1 <= #[trigger] s.drop_last()[k].frequency_millihz
                <= MAX_FREQ_MILLIHZ);
        lemma_sort_by_freq_preserves(s.drop_last());
        lemma_insert_preserves(sort_by_freq(s.drop_last()), s.last());
    }
}

/// Inserting an element with an in-range frequency keeps the property.
proof fn lemma_insert_preserves(s: Seq<PitchCandidate>, x: PitchCandidate)
    requires
        forall|k: int|
            0 <= k < s.len() ==> 1 <= #[trigger] s[k].frequency_millihz <= MAX_FREQ_MILLIHZ,
        1 <= x.frequency_millihz <= MAX_FREQ_MILLIHZ,
    ensures
        forall|i: int|
            0 <= i < insert_by_freq(s, x).len() ==> 1 <= #[trigger] insert_by_freq(
                s,
                x,
            )[i].frequency_millihz <= MAX_FREQ_MILLIHZ,
    decreases s.len(),
{
    let r = insert_by_freq(s, x);
    if s.len() == 0 {
        assert forall|i: int| 0 <= i < r.len() implies 1 <= #[trigger] r[i].frequency_millihz
            <= MAX_FREQ_MILLIHZ by {
            assert(r[i] == x);
        }
    } else if s[0].frequency_millihz > x.frequency_millihz {
        assert forall|i: int| 0 <= i < r.len() implies 1 <= #[trigger] r[i].frequency_millihz
            <= MAX_FREQ_MILLIHZ by {
            if i == 0 {
                assert(r[i] == x);
            } else {
                assert(r[i] == s[i - 1]);
            }
        }
    } else {
        assert(forall|k: int|
            0 <= k < s.drop_first().len() ==> 1 <= #[trigger] s.drop_first()[k].frequency_millihz
                <= MAX_FREQ_MILLIHZ);
        lemma_insert_preserves(s.drop_first(), x);
        let t = insert_by_freq(s.drop_first(), x);
        assert forall|i: int| 0 <= i < r.len() implies 1 <= #[trigger] r[i].frequency_millihz
            <= MAX_FREQ_MILLIHZ by {
            assert(r == seq![s[0]] + t);
            if i == 0 {
                assert(r[i] == s[0]);
            } else {
                assert(r[i] == t[i - 1]);
            }
        }
    }
}

/// Stable insertion sort by descending magnitude.
fn sort_candidates_by_mag(input: Vec<PitchCandidate>) -> (r: Vec<PitchCandidate>)
    ensures
        r@ == sort_by_mag(input@),
{
    let mut out: Vec<PitchCandidate> = Vec::new();
    let mut i: usize = 0;
    proof {
        assert(input@.take(0) =~= Seq::<PitchCandidate>::empty());
    }
    while i < input.len()
        invariant
            0 <= i <= input@.len(),
            out@ == sort_by_mag(input@.take(i as int)),
        decreases input.len() - i,
    {
        let x = input[i];
        let mut pos: usize = 0;
        while pos < out.len() && out[pos].magnitude >= x.magnitude
            invariant
                0 <= pos <= out@.len(),
                forall|k: int| 0 <= k < pos ==> out@[k].magnitude >= x.magnitude,
            decreases out.len() - pos,
        {
            pos = pos + 1;
        }
        proof {
            lemma_insert_by_mag_at(out@, x, pos as int);
            assert(input@.take(i as int + 1).drop_last() =~= input@.take(i as int));
        }
        out.insert(pos, x);
        i = i + 1;
    }
    proof {
        assert(input@.take(input@.len() as int) =~= input@);
    }
    out
}

/// Insertion before the first strictly smaller magnitude equals the
/// recursive insertion.
proof fn lemma_insert_by_mag_at(s: Seq<PitchCandidate>, x: PitchCandidate, pos: int)
    requires
        0 <= pos <= s.len(),
        forall|k: int| 0 <= k < pos ==> s[k].magnitude >= x.magnitude,
        pos < s.len() ==> s[pos].magnitude < x.magnitude,
    ensures
        insert_by_mag(s, x) == s.take(pos) + seq![x] + s.skip(pos),
    decreases s.len(),
{
    if s.len() == 0 {
        assert(insert_by_mag(s, x) =~= s.take(0) + seq![x] + s.skip(0));
    } else if s[0].magnitude < x.magnitude {
        assert(pos == 0);
        assert(insert_by_mag(s, x) =~= s.take(0) + seq![x] + s.skip(0));
    } else {
        lemma_insert_by_mag_at(s.drop_first(), x, pos - 1);
        assert(insert_by_mag(s, x) =~= s.take(pos) + seq![x] + s.skip(pos));
    }
}

} // verus!
