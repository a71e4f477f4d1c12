//! Monophonic pitch estimation with the time-domain difference method, and
//! pitch-bend computation.
//!
//! Samples are 16-bit PCM. Every intermediate quantity of the estimator is an
//! exact integer: difference sums, the cumulative-mean-normalized difference
//! scaled by `1_000_000`, and the parabolic refinement carried as a rational
//! before the final division into milli-hertz.

use vstd::prelude::*;
use vstd::arithmetic::div_mod::{
    lemma_div_is_ordered, lemma_div_multiples_vanish, lemma_multiply_divide_lt,
};
use crate::notes::{
    floor_note, floor_note_from, lemma_floor_note_from_correct, lemma_note_freq_monotone,
    midi_to_frequency_millihz, midi_note_name, frequency_to_midi_note, note_freq_millihz,
    spec_frequency_to_midi, spec_note_name, MAX_FREQ_MILLIHZ, MIN_FREQ_MILLIHZ,
};

verus! {

/// Scale of the cumulative-mean-normalized difference: `1_000_000` stands
/// for a normalized difference of `1.0`.
pub const CMND_SCALE: u64 = 1_000_000;

/// Sum of squared differences between the window and itself shifted by
/// `tau`, over the first `win` samples.
pub open spec fn sq_diff_sum(s: Seq<i16>, tau: int, win: int) -> int
    decreases win,
{
    if win <= 0 {
        0
    } else {
        sq_diff_sum(s, tau, win - 1) + (s[win - 1] - s[win - 1 + tau]) * (s[win - 1] - s[win - 1
            + tau])
    }
}

/// Running sum of the difference function over lags `1..=tau`.
pub open spec fn diff_prefix(s: Seq<i16>, win: int, tau: int) -> int
    decreases tau,
{
    if tau <= 0 {
        0
    } else {
        diff_prefix(s, win, tau - 1) + sq_diff_sum(s, tau, win)
    }
}

/// Cumulative-mean-normalized difference at lag `tau`, scaled by
/// `CMND_SCALE`; `1.0` at lag zero or while the running sum is zero.
pub open spec fn cmnd_scaled(s: Seq<i16>, win: int, tau: int) -> int {
    if tau <= 0 {
        CMND_SCALE as int
    } else if diff_prefix(s, win, tau) == 0 {
        CMND_SCALE as int
    } else {
        sq_diff_sum(s, tau, win) * tau * (CMND_SCALE as int) / diff_prefix(s, win, tau)
    }
}

/// First lag in `tau0..maxp` whose normalized difference is below the
/// threshold, or `maxp` when there is none.
pub open spec fn first_tau_below(s: Seq<i16>, win: int, thr: int, tau0: int, maxp: int) -> int
    decreases maxp - tau0,
{
    if tau0 >= maxp {
        maxp
    } else if cmnd_scaled(s, win, tau0) < thr {
        tau0
    } else {
        first_tau_below(s, win, thr, tau0 + 1, maxp)
    }
}

/// Walk down to the local minimum of the normalized difference, staying
/// below `maxp`.
pub open spec fn descend_to_min(s: Seq<i16>, win: int, tau: int, maxp: int) -> int
    decreases maxp - tau,
{
    if tau + 1 < maxp && cmnd_scaled(s, win, tau + 1) < cmnd_scaled(s, win, tau) {
        descend_to_min(s, win, tau + 1, maxp)
    } else {
        tau
    }
}

/// Frequency in milli-hertz after parabolic refinement of the lag: the
/// refined lag is `tau + (s0 - s2) / (2 * (s0 - 2*s1 + s2))` taken as an
/// exact rational, and the frequency is `rate * 1000` divided by it. Falls
/// back to the integer lag when the parabola is degenerate, and to zero
/// (out of range, hence no detection) when the refined lag is not positive.
pub open spec fn refined_freq_millihz(s: Seq<i16>, win: int, rate: int, tau: int) -> int {
    let s0 = cmnd_scaled(s, win, tau - 1);
    let s1 = cmnd_scaled(s, win, tau);
    let s2 = cmnd_scaled(s, win, tau + 1);
    let dd = s0 - 2 * s1 + s2;
    if dd == 0 {
        rate * 1000 / tau
    } else {
        let den = 2 * dd;
        let num = den * tau + (s0 - s2);
        let pn = if den < 0 {
            -num
        } else {
            num
        };
        let pd = if den < 0 {
            -den
        } else {
            den
        };
        if pn <= 0 {
            0
        } else {
            rate * 1000 * pd / pn
        }
    }
}

/// Confidence in per-mille: `1 - cmnd` at the chosen lag, clamped to
/// `0..=1000`.
pub open spec fn spec_confidence_millis(s: Seq<i16>, win: int, tau: int) -> int {
    let c = cmnd_scaled(s, win, tau);
    if c >= CMND_SCALE as int {
        0
    } else {
        ((CMND_SCALE as int) - c) * 1000 / (CMND_SCALE as int)
    }
}

/// Whether an estimator configuration is degenerate: the window must cover
/// the largest lag, the smallest lag must exist, and the window must be
/// small enough that every intermediate sum fits its machine word.
pub open spec fn config_degenerate(rate: int, bufsize: int) -> bool {
    ||| rate / 1320 < 1
    ||| bufsize <= rate / 80
    ||| bufsize > 65536
}

/// The estimate for one window: `Some((frequency_millihz,
/// confidence_millis))`, or `None` when the window is short, the
/// configuration degenerate, no lag falls below the threshold, or the
/// refined frequency leaves the supported range.
pub open spec fn spec_detect(rate: int, bufsize: int, thr_millis: int, s: Seq<i16>) -> Option<
    (int, int),
> {
    let minp = rate / 1320;
    let maxp = rate / 80;
    if s.len() < bufsize || config_degenerate(rate, bufsize) {
        None
    } else {
        let win = bufsize - maxp;
        let t0 = first_tau_below(s, win, thr_millis * 1000, minp, maxp);
        if t0 >= maxp {
            None
        } else {
            let t = descend_to_min(s, win, t0, maxp);
            let f = refined_freq_millihz(s, win, rate, t);
            if MIN_FREQ_MILLIHZ <= f <= MAX_FREQ_MILLIHZ {
                Some((f, spec_confidence_millis(s, win, t)))
            } else {
                None
            }
        }
    }
}

/// A squared sample difference is small and non-negative.
proof fn lemma_sq_diff_sum_bounds(s: Seq<i16>, tau: int, win: int)
    requires
        0 <= win,
        0 <= tau,
        win + tau <= s.len(),
    ensures
        0 <= sq_diff_sum(s, tau, win) <= win * 0x1_0000_0000,
    decreases win,
{
    if win > 0 {
        lemma_sq_diff_sum_bounds(s, tau, win - 1);
        let d = s[win - 1] - s[win - 1 + tau];
        assert(0 <= d * d <= 0x1_0000_0000) by (nonlinear_arith)
            requires
                -65536 < d < 65536;
    }
}

/// The running sum is non-negative and dominated by `tau` times the largest
/// difference sum.
proof fn lemma_diff_prefix_bounds(s: Seq<i16>, win: int, tau: int)
    requires
        0 <= win,
        0 <= tau,
        win + tau <= s.len(),
    ensures
        0 <= diff_prefix(s, win, tau) <= tau * win * 0x1_0000_0000,
    decreases tau,
{
    if tau > 0 {
        lemma_diff_prefix_bounds(s, win, tau - 1);
        lemma_sq_diff_sum_bounds(s, tau, win);
        assert((tau - 1) * win * 0x1_0000_0000 + win * 0x1_0000_0000 == tau * win
            * 0x1_0000_0000) by (nonlinear_arith);
    }
}

/// The scaled normalized difference never exceeds `tau * CMND_SCALE`.
proof fn lemma_cmnd_scaled_bounds(s: Seq<i16>, win: int, tau: int)
    requires
        0 <= win,
        0 <= tau,
        win + tau <= s.len(),
    ensures
        0 <= cmnd_scaled(s, win, tau) <= (if tau <= 0 { 1int } else { tau }) * (CMND_SCALE as int),
{
    if tau > 0 {
        let d = sq_diff_sum(s, tau, win);
        let p = diff_prefix(s, win, tau);
        lemma_sq_diff_sum_bounds(s, tau, win);
        lemma_diff_prefix_bounds(s, win, tau - 1);
        assert(p == diff_prefix(s, win, tau - 1) + d);
        if p != 0 {
            assert(d * tau * (CMND_SCALE as int) <= p * (tau * (CMND_SCALE as int)))
                by (nonlinear_arith)
                requires
                    0 <= d <= p,
                    0 < tau,
            ;
            lemma_div_is_ordered(
                d * tau * (CMND_SCALE as int),
                p * (tau * (CMND_SCALE as int)),
                p,
            );
            lemma_div_multiples_vanish(tau * (CMND_SCALE as int), p);
            vstd::arithmetic::div_mod::lemma_div_pos_is_pos(d * tau * (CMND_SCALE as int), p);
            assert(0 <= d * tau * (CMND_SCALE as int)) by (nonlinear_arith)
                requires
                    0 <= d,
                    0 < tau,
            ;
        }
    }
}

/// Monophonic pitch estimator over fixed-size windows of 16-bit samples.
pub struct PitchDetector {
    sample_rate: u32,
    buffer_size: usize,
    threshold_millis: u32,
}

impl PitchDetector {
    /// Sample rate in hertz.
    pub closed spec fn rate_spec(self) -> int {
        self.sample_rate as int
    }

    /// Window length in samples.
    pub closed spec fn buffer_size_spec(self) -> int {
        self.buffer_size as int
    }

    /// Detection threshold on the normalized difference, per-mille.
    pub closed spec fn threshold_spec(self) -> int {
        self.threshold_millis as int
    }

    /// Create an estimator for a sample rate, a window length, and a
    /// normalized-difference threshold in per-mille.
    pub fn new(sample_rate: u32, buffer_size: usize, threshold_millis: u32) -> (r: PitchDetector)
        ensures
            r.rate_spec() == sample_rate,
            r.buffer_size_spec() == buffer_size,
            r.threshold_spec() == threshold_millis,
    {
        PitchDetector { sample_rate, buffer_size, threshold_millis }
    }

    /// The configured sample rate in hertz.
    pub fn sample_rate(&self) -> (r: u32)
        ensures
            r == self.rate_spec(),
    {
        self.sample_rate
    }

    /// The configured window length in samples.
    pub fn buffer_size(&self) -> (r: usize)
        ensures
            r == self.buffer_size_spec(),
    {
        self.buffer_size
    }

    /// The configured threshold in per-mille.
    pub fn threshold_millis(&self) -> (r: u32)
        ensures
            r == self.threshold_spec(),
    {
        self.threshold_millis
    }

    /// Estimate the dominant fundamental frequency of a window, without the
    /// confidence.
    pub fn detect_pitch(&self, samples: &[i16]) -> (r: Option<u64>)
        ensures
            r is Some <==> spec_detect(
                self.rate_spec(),
                self.buffer_size_spec(),
                self.threshold_spec(),
                samples@,
            ) is Some,
            r matches Some(f) ==> spec_detect(
                self.rate_spec(),
                self.buffer_size_spec(),
                self.threshold_spec(),
                samples@,
            ) matches Some(p) && p.0 == f,
    {
        match self.detect_pitch_with_confidence(samples) {
            Some((f, _)) => Some(f),
            None => None,
        }
    }

    /// Estimate the dominant fundamental frequency of a window together with
    /// a confidence score. Returns `None` (a rest, not an error) for short
    /// windows, degenerate configurations, windows without a clear
    /// periodicity, and frequencies outside the supported range.
    pub fn detect_pitch_with_confidence(&self, samples: &[i16]) -> (r: Option<(u64, u32)>)
        ensures
            r is Some <==> spec_detect(
                self.rate_spec(),
                self.buffer_size_spec(),
                self.threshold_spec(),
                samples@,
            ) is Some,
            r matches Some(p) ==> spec_detect(
                self.rate_spec(),
                self.buffer_size_spec(),
                self.threshold_spec(),
                samples@,
            ) == Some((p.0 as int, p.1 as int)),
            r matches Some(p) ==> MIN_FREQ_MILLIHZ <= p.0 <= MAX_FREQ_MILLIHZ && p.1 <= 1000,
    {
        let ghost s = samples@;
        if samples.len() < self.buffer_size {
            return None;
        }
        let min_period = (self.sample_rate / 1320) as usize;
        let max_period = (self.sample_rate / 80) as usize;
        if min_period < 1 || self.buffer_size <= max_period || self.buffer_size > 65536 {
            return None;
        }
        let win = self.buffer_size - max_period;

        // difference function, lags 1..=max_period
        let mut diff: Vec<u64> = Vec::new();
        diff.push(0);
        let mut tau: usize = 1;
        while tau <= max_period
            invariant
                1 <= tau <= max_period + 1,
                diff@.len() == tau,
                win + max_period == self.buffer_size_spec() <= s.len(),
                win >= 1,
                win <= 65536,
                max_period <= 65536,
                s == samples@,
                forall|t: int| 1 <= t < tau ==> diff@[t] == sq_diff_sum(s, t, win as int),
                forall|t: int| 0 <= t < tau ==> diff@[t] <= win * 0x1_0000_0000,
            decreases max_period + 1 - tau,
        {
            let mut sum: u64 = 0;
            let mut i: usize = 0;
            while i < win
                invariant
                    0 <= i <= win,
                    1 <= tau <= max_period,
                    win + max_period == self.buffer_size_spec() <= s.len(),
                    win <= 65536,
                    s == samples@,
                    sum == sq_diff_sum(s, tau as int, i as int),
                    sum <= i * 0x1_0000_0000,
                decreases win - i,
            {
                let a = samples[i] as i32;
                let b = samples[i + tau] as i32;
                let d = a - b;
                proof {
                    assert(0 <= (d as int) * (d as int) <= 0x1_0000_0000) by (nonlinear_arith)
                        requires
                            -65536 < (d as int) < 65536;
                }
                sum = sum + ((d as i64 * d as i64) as u64);
                i = i + 1;
            }
            diff.push(sum);
            tau = tau + 1;
        }

        // cumulative-mean-normalized difference, scaled by CMND_SCALE
        let mut cmnd: Vec<u64> = Vec::new();
        cmnd.push(CMND_SCALE);
        let mut running: u128 = 0;
        let mut tau2: usize = 1;
        while tau2 <= max_period
            invariant
                1 <= tau2 <= max_period + 1,
                cmnd@.len() == tau2,
                diff@.len() == max_period + 1,
                win + max_period == self.buffer_size_spec() <= s.len(),
                1 <= win <= 65536,
                max_period <= 65536,
                s == samples@,
                forall|t: int| 1 <= t <= max_period ==> diff@[t] == sq_diff_sum(s, t, win as int),
                forall|t: int| 0 <= t <= max_period ==> diff@[t] <= win * 0x1_0000_0000,
                running == diff_prefix(s, win as int, tau2 as int - 1),
                running <= 0x1_0000_0000_0000_0000,
                forall|t: int| 0 <= t < tau2 ==> cmnd@[t] == cmnd_scaled(s, win as int, t),
                forall|t: int|
                    0 <= t < tau2 ==> cmnd@[t] <= (if t <= 0 { 1int } else { t }) * (CMND_SCALE
                        as int),
            decreases max_period + 1 - tau2,
        {
            let d = diff[tau2];
            proof {
                lemma_diff_prefix_bounds(s, win as int, tau2 as int);
                assert((tau2 as int) * win * 0x1_0000_0000 <= 65536 * 65536 * 0x1_0000_0000)
                    by (nonlinear_arith)
                    requires
                        0 <= (tau2 as int) <= 65536,
                        0 <= win <= 65536,
                ;
            }
            running = running + (d as u128);
            proof {
                lemma_cmnd_scaled_bounds(s, win as int, tau2 as int);
            }
            if running == 0 {
                cmnd.push(CMND_SCALE);
            } else {
                proof {
                    assert((d as int) * (tau2 as int) <= 65536 * 0x1_0000_0000 * 65536)
                        by (nonlinear_arith)
                        requires
                            0 <= (d as int) <= 65536 * 0x1_0000_0000,
                            0 <= (tau2 as int) <= 65536,
                    ;
                    assert((d as int) * (tau2 as int) * (CMND_SCALE as int) <= 65536
                        * 0x1_0000_0000 * 65536 * 1_000_000) by (nonlinear_arith)
                        requires
                            0 <= (d as int) * (tau2 as int) <= 65536 * 0x1_0000_0000 * 65536,
                    ;
                }
                let v128 = (d as u128) * (tau2 as u128) * (CMND_SCALE as u128) / running;
                proof {
                    assert(v128 == cmnd_scaled(s, win as int, tau2 as int));
                    assert(v128 <= (tau2 as int) * (CMND_SCALE as int));
                }
                cmnd.push(v128 as u64);
            }
            tau2 = tau2 + 1;
        }

        // first lag below the threshold
        let thr_scaled: u64 = (self.threshold_millis as u64) * 1000;
        let minp = min_period;
        let maxp = max_period;
        let ghost thr = thr_scaled as int;
        let mut t: usize = minp;
        while t < maxp && cmnd[t] >= thr_scaled
            invariant
                minp <= t <= maxp,
                cmnd@.len() == maxp + 1,
                thr == thr_scaled as int,
                forall|u: int| 0 <= u <= maxp ==> cmnd@[u] == cmnd_scaled(s, win as int, u),
                first_tau_below(s, win as int, thr, minp as int, maxp as int) == first_tau_below(
                    s,
                    win as int,
                    thr,
                    t as int,
                    maxp as int,
                ),
            decreases maxp - t,
        {
            proof {
                assert(first_tau_below(s, win as int, thr, t as int, maxp as int)
                    == first_tau_below(s, win as int, thr, t as int + 1, maxp as int));
            }
            t = t + 1;
        }
        if t >= maxp {
            return None;
        }
        proof {
            assert(first_tau_below(s, win as int, thr, t as int, maxp as int) == t as int);
        }

        // descend to the local minimum
        while t + 1 < maxp && cmnd[t + 1] < cmnd[t]
            invariant
                minp <= t < maxp,
                cmnd@.len() == maxp + 1,
                forall|u: int| 0 <= u <= maxp ==> cmnd@[u] == cmnd_scaled(s, win as int, u),
                descend_to_min(s, win as int, first_tau_below(s, win as int, thr, minp as int, maxp as int), maxp as int)
                    == descend_to_min(s, win as int, t as int, maxp as int),
            decreases maxp - t,
        {
            proof {
                assert(descend_to_min(s, win as int, t as int, maxp as int)
                    == descend_to_min(s, win as int, t as int + 1, maxp as int));
            }
            t = t + 1;
        }
        proof {
            assert(descend_to_min(s, win as int, t as int, maxp as int) == t as int);
        }

        // parabolic refinement and conversion to milli-hertz
        proof {
            lemma_cmnd_scaled_bounds(s, win as int, t as int - 1);
            lemma_cmnd_scaled_bounds(s, win as int, t as int);
            lemma_cmnd_scaled_bounds(s, win as int, t as int + 1);
        }
        let s0 = cmnd[t - 1] as i128;
        let s1 = cmnd[t] as i128;
        let s2 = cmnd[t + 1] as i128;
        proof {
            assert(s0 <= 0x1_0000_0000_0000 && s1 <= 0x1_0000_0000_0000 && s2
                <= 0x1_0000_0000_0000);
        }
        let dd = s0 - 2 * s1 + s2;
        let rate1000 = (self.sample_rate as i128) * 1000;
        let freq: i128 = if dd == 0 {
            rate1000 / (t as i128)
        } else {
            let den0 = 2 * dd;
            proof {
                assert(-0x100_0000_0000_0000_0000 <= den0 * (t as int)
                    <= 0x100_0000_0000_0000_0000) by (nonlinear_arith)
                    requires
                        -0x10_0000_0000_0000 <= den0 <= 0x10_0000_0000_0000,
                        0 <= (t as int) <= 65536,
                ;
            }
            let num0 = den0 * (t as i128) + (s0 - s2);
            let pn = if den0 < 0 {
                -num0
            } else {
                num0
            };
            let pd = if den0 < 0 {
                -den0
            } else {
                den0
            };
            if pn <= 0 {
                0
            } else {
                proof {
                    assert(rate1000 * pd <= 0x1_0000_0000_0000_0000_0000_0000_0000)
                        by (nonlinear_arith)
                        requires
                            0 <= rate1000 <= 0x7_0000_0000_0000,
                            0 <= pd <= 0x10_0000_0000_0000,
                    ;
                }
                rate1000 * pd / pn
            }
        };
        proof {
            assert(freq == refined_freq_millihz(s, win as int, self.rate_spec(), t as int));
            if freq > 0 {
                vstd::arithmetic::div_mod::lemma_div_pos_is_pos(rate1000 as int, t as int);
            }
        }
        if freq < MIN_FREQ_MILLIHZ as i128 || freq > MAX_FREQ_MILLIHZ as i128 {
            return None;
        }

        let cm = cmnd[t];
        let conf: u32 = if cm >= CMND_SCALE {
            0
        } else {
            (((CMND_SCALE - cm) * 1000) / CMND_SCALE) as u32
        };
        proof {
            if cm < CMND_SCALE {
                lemma_div_is_ordered(
                    ((CMND_SCALE - cm) as int) * 1000,
                    (CMND_SCALE as int) * 1000,
                    CMND_SCALE as int,
                );
                lemma_div_multiples_vanish(1000, CMND_SCALE as int);
            }
        }
        Some((freq as u64, conf))
    }
}

/// Exact pitch-bend amount in ten-thousandths of full scale, from the
/// detected frequency against the target note over a bend range in
/// semitones. The offset in cents is piecewise linear between adjacent
/// note frequencies, then divided by the range and clamped to one full
/// scale either way.
pub open spec fn spec_pitch_bend_units(f: int, target: int, range: int) -> int {
    let lo = floor_note_from(f, 127);
    let flo = note_freq_millihz(lo);
    let fhi = note_freq_millihz(lo + 1);
    let frac = (f - flo) * 100 / (fhi - flo);
    let cents = (lo - target) * 100 + frac;
    if cents >= 0 {
        let b = cents * 100 / range;
        if b > 10_000 {
            10_000
        } else {
            b
        }
    } else {
        let m = (0 - cents) * 100 / range;
        if m > 10_000 {
            -10_000
        } else {
            -m
        }
    }
}

impl PitchDetector {
    /// Nearest MIDI note for a frequency in milli-hertz.
    pub fn frequency_to_midi(frequency_millihz: u64) -> (note: u8)
        ensures
            note == spec_frequency_to_midi(frequency_millihz as int),
            note <= 127,
    {
        frequency_to_midi_note(frequency_millihz)
    }

    /// Equal-tempered frequency of a MIDI note, in milli-hertz.
    pub fn midi_to_frequency(midi_note: u8) -> (f: u64)
        requires
            midi_note <= 127,
        ensures
            f == note_freq_millihz(midi_note as int),
    {
        midi_to_frequency_millihz(midi_note)
    }

    /// Chromatic name of a MIDI note, for example "A4" for note 69.
    pub fn midi_to_note_name(midi_note: u8) -> (r: String)
        requires
            midi_note <= 127,
        ensures
            r@ == spec_note_name(midi_note as int),
    {
        midi_note_name(midi_note)
    }

    /// Pitch-bend amount in ten-thousandths of full scale (`10_000` is one
    /// full bend range up, `-10_000` one down), for a detected frequency
    /// against the target note.
    pub fn calculate_pitch_bend(
        detected_frequency_millihz: u64,
        target_note: u8,
        pitch_bend_range_semitones: u32,
    ) -> (r: i32)
        requires
            MIN_FREQ_MILLIHZ <= detected_frequency_millihz <= MAX_FREQ_MILLIHZ,
            target_note <= 127,
            pitch_bend_range_semitones >= 1,
        ensures
            r == spec_pitch_bend_units(
                detected_frequency_millihz as int,
                target_note as int,
                pitch_bend_range_semitones as int,
            ),
            -10_000 <= r <= 10_000,
    {
        let f = detected_frequency_millihz;
        let lo = floor_note(f);
        proof {
            lemma_floor_note_from_correct(f as int, 127);
            if lo == 0 {
                assert(note_freq_millihz(1) == 8_869_844int / 1024);
                assert(note_freq_millihz(1) > f);  // contradicts f >= 80_000
                assert(false);
            }
            if lo == 127 {
                assert(note_freq_millihz(127) == 12_543_854int / 1);
                assert(false);  // f <= 1_320_000 < the frequency of note 127
            }
            lemma_note_freq_monotone(lo as int, lo as int + 1);
        }
        let flo = midi_to_frequency_millihz(lo);
        let fhi = midi_to_frequency_millihz(lo + 1);
        let frac = (f - flo) * 100 / (fhi - flo);
        proof {
            lemma_multiply_divide_lt((f - flo) * 100, (fhi - flo) as int, 100);
        }
        let cents: i64 = (lo as i64 - target_note as i64) * 100 + frac as i64;
        if cents >= 0 {
            let b = (cents as u64) * 100 / (pitch_bend_range_semitones as u64);
            if b > 10_000 {
                10_000
            } else {
                b as i32
            }
        } else {
            let m = ((-cents) as u64) * 100 / (pitch_bend_range_semitones as u64);
            if m > 10_000 {
                -10_000
            } else {
                -(m as i32)
            }
        }
    }
}

/// At the target note's own frequency the pitch bend is exactly zero, for
/// every target note and every bend range.
pub proof fn lemma_pitch_bend_zero_at_target(t: int, range: int)
    requires
        0 <= t <= 127,
        range >= 1,
    ensures
        spec_pitch_bend_units(note_freq_millihz(t), t, range) == 0,
{
    let f = note_freq_millihz(t);
    lemma_floor_at_exact_note(t);
    assert((f - f) * 100 / (note_freq_millihz(t + 1) - f) == 0) by {
        vstd::arithmetic::div_mod::lemma_div_of0(note_freq_millihz(t + 1) - f);
    }
    assert(0int * 100 / range == 0) by {
        vstd::arithmetic::div_mod::lemma_div_of0(range);
    }
}

/// One equal-tempered semitone above the target with a two-semitone range
/// bends exactly half scale up.
pub proof fn lemma_pitch_bend_semitone_up(t: int)
    requires
        0 <= t < 127,
    ensures
        spec_pitch_bend_units(note_freq_millihz(t + 1), t, 2) == 5_000,
{
    let f = note_freq_millihz(t + 1);
    lemma_floor_at_exact_note(t + 1);
    assert((f - f) * 100 / (note_freq_millihz(t + 2) - f) == 0) by {
        vstd::arithmetic::div_mod::lemma_div_of0(note_freq_millihz(t + 2) - f);
    }
    assert(100int * 100 / 2 == 5_000);
}

/// One equal-tempered semitone below the target with a two-semitone range
/// bends exactly half scale down.
pub proof fn lemma_pitch_bend_semitone_down(t: int)
    requires
        1 <= t <= 127,
    ensures
        spec_pitch_bend_units(note_freq_millihz(t - 1), t, 2) == -5_000,
{
    let f = note_freq_millihz(t - 1);
    lemma_floor_at_exact_note(t - 1);
    assert((f - f) * 100 / (note_freq_millihz(t) - f) == 0) by {
        vstd::arithmetic::div_mod::lemma_div_of0(note_freq_millihz(t) - f);
    }
    assert(100int * 100 / 2 == 5_000);
}

/// Five semitones above the target with a two-semitone range clamps to full
/// scale.
pub proof fn lemma_pitch_bend_clamps(t: int)
    requires
        0 <= t,
        t + 5 <= 127,
    ensures
        spec_pitch_bend_units(note_freq_millihz(t + 5), t, 2) == 10_000,
{
    let f = note_freq_millihz(t + 5);
    lemma_floor_at_exact_note(t + 5);
    assert((f - f) * 100 / (note_freq_millihz(t + 6) - f) == 0) by {
        vstd::arithmetic::div_mod::lemma_div_of0(note_freq_millihz(t + 6) - f);
    }
    assert(500int * 100 / 2 == 25_000);
}

/// The floor scan lands exactly on a note when given that note's own
/// frequency.
proof fn lemma_floor_at_exact_note(n: int)
    requires
        0 <= n <= 127,
    ensures
        floor_note_from(note_freq_millihz(n), 127) == n,
        note_freq_millihz(n + 1) > note_freq_millihz(n),
{
    let f = note_freq_millihz(n);
    lemma_floor_note_from_correct(f, 127);
    assert forall|m: int| n < m <= 127 implies note_freq_millihz(m) > f by {
        lemma_note_freq_monotone(n, m);
    }
    let lo = floor_note_from(f, 127);
    if lo < n {
        assert(note_freq_millihz(n) > f);
        assert(false);
    }
    if n < 127 {
        lemma_note_freq_monotone(n, n + 1);
    } else {
        assert(note_freq_millihz(128) == 13_289_750int / 1);
        assert(note_freq_millihz(127) == 12_543_854int / 1);
    }
}

} // verus!
