//! Equal-tempered note arithmetic shared by both pitch estimators.
//!
//! Frequencies are exact integers in milli-hertz. A note's frequency is taken
//! from a reference table for the top octave (MIDI notes 120 to 131, where the
//! values are the correctly rounded milli-hertz of `440 * 2^((n-69)/12)`) and
//! scaled down by the appropriate power of two, so the A notes (multiples of
//! 440 Hz) come out exact.

use vstd::prelude::*;
use vstd::arithmetic::div_mod::{lemma_div_is_ordered, lemma_div_plus_one};
use vstd::string::StringExecFns;

verus! {

/// Lowest supported instrument frequency (low guitar E is 82.41 Hz).
pub const MIN_FREQ_MILLIHZ: u64 = 80_000;

/// Highest supported instrument frequency (high guitar E is 1319 Hz).
pub const MAX_FREQ_MILLIHZ: u64 = 1_320_000;

/// Milli-hertz of the reference octave, MIDI notes 120 to 131.
pub open spec fn ref_octave_millihz(c: int) -> int {
    if c == 0 {
        8_372_018
    } else if c == 1 {
        8_869_844
    } else if c == 2 {
        9_397_273
    } else if c == 3 {
        9_956_063
    } else if c == 4 {
        10_548_082
    } else if c == 5 {
        11_175_303
    } else if c == 6 {
        11_839_822
    } else if c == 7 {
        12_543_854
    } else if c == 8 {
        13_289_750
    } else if c == 9 {
        14_080_000
    } else if c == 10 {
        14_917_240
    } else {
        15_804_266
    }
}

/// `2^(10 - q)`: how far octave `q` sits below the reference octave.
pub open spec fn octave_shift(q: int) -> int {
    if q == 0 {
        1024
    } else if q == 1 {
        512
    } else if q == 2 {
        256
    } else if q == 3 {
        128
    } else if q == 4 {
        64
    } else if q == 5 {
        32
    } else if q == 6 {
        16
    } else if q == 7 {
        8
    } else if q == 8 {
        4
    } else if q == 9 {
        2
    } else {
        1
    }
}

/// Equal-tempered frequency of a MIDI note in milli-hertz,
/// `440 * 2^((n-69)/12) * 1000` rounded down to the table's precision.
pub open spec fn note_freq_millihz(n: int) -> int {
    ref_octave_millihz(n % 12) / octave_shift(n / 12)
}

/// Largest note in `0..=n` whose frequency is at most `f` (0 if none is).
pub open spec fn floor_note_from(f: int, n: int) -> int
    decreases n,
{
    if n <= 0 {
        0
    } else if note_freq_millihz(n) <= f {
        n
    } else {
        floor_note_from(f, n - 1)
    }
}

/// The MIDI note geometrically nearest to a frequency `f` in milli-hertz,
/// clamped to `0..=127`. Between two adjacent notes the boundary is the
/// geometric midpoint, compared exactly as `f^2` against the product of the
/// two note frequencies.
pub open spec fn spec_frequency_to_midi(f: int) -> int {
    let lo = floor_note_from(f, 127);
    if lo >= 127 {
        127
    } else if f * f >= note_freq_millihz(lo) * note_freq_millihz(lo + 1) {
        lo + 1
    } else {
        lo
    }
}

/// Frequency of a MIDI note in milli-hertz.
pub fn midi_to_frequency_millihz(note: u8) -> (f: u64)
    requires
        note <= 127,
    ensures
        f == note_freq_millihz(note as int),
        8175 <= f <= 12_543_854,
{
    let c: u8 = note % 12;
    let q: u8 = note / 12;
    let r: u64 = if c == 0 {
        8_372_018
    } else if c == 1 {
        8_869_844
    } else if c == 2 {
        9_397_273
    } else if c == 3 {
        9_956_063
    } else if c == 4 {
        10_548_082
    } else if c == 5 {
        11_175_303
    } else if c == 6 {
        11_839_822
    } else if c == 7 {
        12_543_854
    } else if c == 8 {
        13_289_750
    } else if c == 9 {
        14_080_000
    } else if c == 10 {
        14_917_240
    } else {
        15_804_266
    };
    let d: u64 = if q == 0 {
        1024
    } else if q == 1 {
        512
    } else if q == 2 {
        256
    } else if q == 3 {
        128
    } else if q == 4 {
        64
    } else if q == 5 {
        32
    } else if q == 6 {
        16
    } else if q == 7 {
        8
    } else if q == 8 {
        4
    } else if q == 9 {
        2
    } else {
        1
    };
    proof {
        assert(r == ref_octave_millihz(note as int % 12));
        assert(d == octave_shift(note as int / 12));
        lemma_div_is_ordered(8_372_018int, r as int, d as int);
        lemma_div_is_ordered(r as int, 15_804_266int, d as int);
        lemma_div_is_ordered(8_372_018int / (d as int), 8_372_018int, 1024int);
    }
    r / d
}

/// Adjacent notes are strictly ordered by frequency.
proof fn lemma_note_freq_step(n: int)
    requires
        0 <= n < 127,
    ensures
        note_freq_millihz(n) + 1 <= note_freq_millihz(n + 1),
{
    let c = n % 12;
    let q = n / 12;
    let a = ref_octave_millihz(c);
    let d = octave_shift(q);
    assert(0 <= c < 12 && 0 <= q <= 10 && 1 <= d <= 1024);
    if c < 11 {
        assert((n + 1) % 12 == c + 1 && (n + 1) / 12 == q);
        let b = ref_octave_millihz(c + 1);
        assert(a + 497_826 <= b);
        // a/d < b/d because b exceeds a by at least one whole divisor d
        lemma_div_plus_one(a, d);
        lemma_div_is_ordered(a + d, b, d);
    } else {
        assert((n + 1) % 12 == 0 && (n + 1) / 12 == q + 1);
        assert(a == 15_804_266);
        if q < 10 {
            let d2 = octave_shift(q + 1);
            assert(d == 2 * d2);
            // note n+1 is C of the next octave up: 2 * 8_372_018 > a + d
            lemma_div_plus_one(a, d);
            lemma_div_is_ordered(a + d, 8_372_018int * 2, d);
            assert(8_372_018int * 2 / d == 8_372_018int / d2) by {
                vstd::arithmetic::div_mod::lemma_div_denominator(8_372_018int * 2, 2int, d2);
                assert(8_372_018int * 2 / 2 == 8_372_018int);
            }
        } else {
            // n == 131 is outside the MIDI range
            assert(n == 12 * q + c);
            assert(false);
        }
    }
}

/// Note frequencies grow strictly with the note number.
pub proof fn lemma_note_freq_monotone(a: int, b: int)
    requires
        0 <= a < b <= 127,
    ensures
        note_freq_millihz(a) < note_freq_millihz(b),
    decreases b - a,
{
    lemma_note_freq_step(b - 1);
    if a < b - 1 {
        lemma_note_freq_monotone(a, b - 1);
    }
}

/// Every note frequency is positive and within the table's extremes.
pub proof fn lemma_note_freq_bounds(n: int)
    requires
        0 <= n <= 127,
    ensures
        8175 <= note_freq_millihz(n) <= 12_543_854,
{
    if n > 0 {
        lemma_note_freq_monotone(0, n);
    }
    if n < 127 {
        lemma_note_freq_monotone(n, 127);
    }
    assert(note_freq_millihz(0) == 8_372_018int / 1024);
    assert(note_freq_millihz(127) == 12_543_854int / 1);
}

/// The note below the floor scan is a true lower bound, and everything above
/// the scan result is too high.
pub proof fn lemma_floor_note_from_correct(f: int, n: int)
    requires
        0 <= n <= 127,
    ensures
        0 <= floor_note_from(f, n) <= n,
        floor_note_from(f, n) > 0 ==> note_freq_millihz(floor_note_from(f, n)) <= f,
        forall|m: int|
            floor_note_from(f, n) < m <= n ==> note_freq_millihz(m) > f,
    decreases n,
{
    if n > 0 && note_freq_millihz(n) > f {
        lemma_floor_note_from_correct(f, n - 1);
    }
}

/// Largest note whose frequency is at most `f` (0 if `f` is below the whole
/// table).
pub fn floor_note(f: u64) -> (n: u8)
    ensures
        n == floor_note_from(f as int, 127),
        n <= 127,
{
    let mut lo: u8 = 127;
    while lo > 0 && midi_to_frequency_millihz(lo) > f
        invariant
            lo <= 127,
            floor_note_from(f as int, 127) == floor_note_from(f as int, lo as int),
        decreases lo,
    {
        lo = lo - 1;
    }
    proof {
        assert(floor_note_from(f as int, lo as int) == lo as int);
    }
    lo
}

/// The MIDI note geometrically nearest to a frequency in milli-hertz,
/// clamped to `0..=127`.
pub fn frequency_to_midi_note(f: u64) -> (note: u8)
    ensures
        note == spec_frequency_to_midi(f as int),
        note <= 127,
{
    let lo = floor_note(f);
    if lo >= 127 {
        127
    } else {
        let flo = midi_to_frequency_millihz(lo);
        let fhi = midi_to_frequency_millihz(lo + 1);
        proof {
            lemma_floor_note_from_correct(f as int, 127);
            assert(note_freq_millihz(lo as int + 1) > f);
            assert((f as int) * (f as int) < 0x1_0000_0000_0000_0000int) by (nonlinear_arith)
                requires
                    0 <= (f as int),
                    (f as int) < 12_543_854;
            assert((flo as int) * (fhi as int) < 0x1_0000_0000_0000_0000int) by (nonlinear_arith)
                requires
                    0 <= (flo as int),
                    (flo as int) <= 12_543_854,
                    0 <= (fhi as int),
                    (fhi as int) <= 12_543_854;
        }
        if f * f >= flo * fhi {
            lo + 1
        } else {
            lo
        }
    }
}

/// The nearest-note map sends each note's own frequency back to that note:
/// converting a note to its frequency and back recovers the note exactly.
pub proof fn lemma_note_round_trip(n: int)
    requires
        0 <= n <= 127,
    ensures
        spec_frequency_to_midi(note_freq_millihz(n)) == n,
{
    let f = note_freq_millihz(n);
    lemma_floor_note_from_correct(f, 127);
    let lo = floor_note_from(f, 127);
    assert forall|m: int| n < m <= 127 implies note_freq_millihz(m) > f by {
        lemma_note_freq_monotone(n, m);
    }
    if lo < n {
        assert(note_freq_millihz(n) > f);  // from the floor scan, contradiction
        assert(false);
    }
    assert(lo == n);
    lemma_note_freq_bounds(n);
    if n < 127 {
        lemma_note_freq_monotone(n, n + 1);
        lemma_note_freq_bounds(n + 1);
        assert(f * f < note_freq_millihz(n) * note_freq_millihz(n + 1))
            by (nonlinear_arith)
            requires
                f == note_freq_millihz(n),
                0 < f < note_freq_millihz(n + 1),
        ;
    }
}

/// The nearest-note map really picks the geometrically nearest note: the
/// returned note's frequency brackets `f` between the geometric midpoints
/// toward its neighbours, so `f` is within half an equal-tempered semitone
/// of the note it maps to.
pub proof fn lemma_frequency_to_midi_nearest(f: int)
    requires
        note_freq_millihz(0) <= f <= note_freq_millihz(127),
    ensures
        0 <= spec_frequency_to_midi(f) <= 127,
        spec_frequency_to_midi(f) < 127 ==> f * f < note_freq_millihz(
            spec_frequency_to_midi(f),
        ) * note_freq_millihz(spec_frequency_to_midi(f) + 1),
        spec_frequency_to_midi(f) > 0 ==> f * f >= note_freq_millihz(
            spec_frequency_to_midi(f) - 1,
        ) * note_freq_millihz(spec_frequency_to_midi(f)),
{
    lemma_floor_note_from_correct(f, 127);
    let lo = floor_note_from(f, 127);
    assert(note_freq_millihz(0) <= f) by { lemma_note_freq_bounds(0) }
    if lo == 0 && note_freq_millihz(0) > f {
        assert(false);
    }
    assert(note_freq_millihz(lo) <= f);
    lemma_note_freq_bounds(lo);
    if lo >= 127 {
        lemma_note_freq_monotone(126, 127);
        lemma_note_freq_bounds(126);
        assert(f * f >= note_freq_millihz(126) * note_freq_millihz(127))
            by (nonlinear_arith)
            requires
                f >= note_freq_millihz(127),
                note_freq_millihz(127) > note_freq_millihz(126) > 0,
        ;
    } else {
        assert(note_freq_millihz(lo + 1) > f);
        lemma_note_freq_monotone(lo, lo + 1);
        lemma_note_freq_bounds(lo + 1);
        if f * f >= note_freq_millihz(lo) * note_freq_millihz(lo + 1) {
            if lo + 1 < 127 {
                lemma_note_freq_monotone(lo + 1, lo + 2);
                lemma_note_freq_bounds(lo + 2);
                assert(f * f < note_freq_millihz(lo + 1) * note_freq_millihz(lo + 2))
                    by (nonlinear_arith)
                    requires
                        0 <= f < note_freq_millihz(lo + 1),
                        note_freq_millihz(lo + 1) < note_freq_millihz(lo + 2),
                ;
            }
        } else {
            if lo > 0 {
                lemma_note_freq_monotone(lo - 1, lo);
                lemma_note_freq_bounds(lo - 1);
                assert(f * f >= note_freq_millihz(lo - 1) * note_freq_millihz(lo))
                    by (nonlinear_arith)
                    requires
                        f >= note_freq_millihz(lo),
                        note_freq_millihz(lo) > note_freq_millihz(lo - 1) > 0,
                ;
            }
        }
    }
}

/// Chromatic pitch-class name of a note.
pub open spec fn pitch_class_chars(c: int) -> Seq<char> {
    if c == 0 {
        "C"@
    } else if c == 1 {
        "C#"@
    } else if c == 2 {
        "D"@
    } else if c == 3 {
        "D#"@
    } else if c == 4 {
        "E"@
    } else if c == 5 {
        "F"@
    } else if c == 6 {
        "F#"@
    } else if c == 7 {
        "G"@
    } else if c == 8 {
        "G#"@
    } else if c == 9 {
        "A"@
    } else if c == 10 {
        "A#"@
    } else {
        "B"@
    }
}

/// Decimal text of the octave number `q - 1` for `q` in `0..=10`.
pub open spec fn octave_chars(q: int) -> Seq<char> {
    if q == 0 {
        "-1"@
    } else if q == 1 {
        "0"@
    } else if q == 2 {
        "1"@
    } else if q == 3 {
        "2"@
    } else if q == 4 {
        "3"@
    } else if q == 5 {
        "4"@
    } else if q == 6 {
        "5"@
    } else if q == 7 {
        "6"@
    } else if q == 8 {
        "7"@
    } else if q == 9 {
        "8"@
    } else {
        "9"@
    }
}

/// Note name in twelve-tone chromatic spelling with octave numbering where
/// note 69 is "A4".
pub open spec fn spec_note_name(n: int) -> Seq<char> {
    pitch_class_chars(n % 12) + octave_chars(n / 12)
}

/// Format a MIDI note number as its chromatic name, for example `69` to "A4".
pub fn midi_note_name(note: u8) -> (r: String)
    requires
        note <= 127,
    ensures
        r@ == spec_note_name(note as int),
{
    let c: u8 = note % 12;
    let q: u8 = note / 12;
    let name: &str = if c == 0 {
        "C"
    } else if c == 1 {
        "C#"
    } else if c == 2 {
        "D"
    } else if c == 3 {
        "D#"
    } else if c == 4 {
        "E"
    } else if c == 5 {
        "F"
    } else if c == 6 {
        "F#"
    } else if c == 7 {
        "G"
    } else if c == 8 {
        "G#"
    } else if c == 9 {
        "A"
    } else if c == 10 {
        "A#"
    } else {
        "B"
    };
    let octave: &str = if q == 0 {
        "-1"
    } else if q == 1 {
        "0"
    } else if q == 2 {
        "1"
    } else if q == 3 {
        "2"
    } else if q == 4 {
        "3"
    } else if q == 5 {
        "4"
    } else if q == 6 {
        "5"
    } else if q == 7 {
        "6"
    } else if q == 8 {
        "7"
    } else if q == 9 {
        "8"
    } else {
        "9"
    };
    let mut r = String::from_str(name);
    r.append(octave);
    r
}

} // verus!
