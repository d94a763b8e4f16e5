//! Frequency-to-pitch quantization and pitch names.
//!
//! Pitches are the 128 notes of the 12-tone equal-tempered scale, numbered
//! as MIDI does, with pitch 69 the A above middle C at 440 Hz. A frequency
//! `f` belongs to pitch `n` when `n` is the nearest integer to
//! `69 + 12 * log2(f / 440 Hz)`, i.e. when `f` lies between the boundaries
//! a half semitone below and above pitch `n`. Those boundaries,
//! `440 Hz * 2^((n - 69.5) / 12)`, are irrational, so they are tabulated
//! here as integers in units of microhertz/1024: `BOUNDARY_UNITS_PER_MHZ`
//! such units equal one millihertz, and moving up an octave doubles a
//! boundary exactly. A frequency in millihertz is compared against the
//! table after scaling by `BOUNDARY_UNITS_PER_MHZ`.

use vstd::prelude::*;

verus! {

/// Boundary-table units per millihertz of frequency.
pub const BOUNDARY_UNITS_PER_MHZ: u64 = 1024000;

/// Lower pitch boundary for the bottom octave: `base_boundary(r)` is
/// `440e6 * 2^((r - 69.5) / 12) * 1024` rounded, in microhertz/1024, the
/// lowest frequency that quantizes to pitch `r`, for `0 <= r < 12`.
pub open spec fn base_boundary(r: int) -> int {
    if r == 0 {
        8133682986
    } else if r == 1 {
        8617336945
    } else if r == 2 {
        9129750465
    } else if r == 3 {
        9672633678
    } else if r == 4 {
        10247798407
    } else if r == 5 {
        10857164211
    } else if r == 6 {
        11502764791
    } else if r == 7 {
        12186754779
    } else if r == 8 {
        12911416928
    } else if r == 9 {
        13679169731
    } else if r == 10 {
        14492575492
    } else {
        15354348876
    }
}

/// Lower boundary of pitch `n` in microhertz/1024: the bottom-octave
/// boundary of `n`'s pitch class, doubled once per octave. `boundary(128)`
/// is the upper edge of the highest pitch, 127.
pub open spec fn boundary(n: int) -> int {
    if n < 12 {
        base_boundary(n)
    } else if n < 24 {
        2 * base_boundary(n - 12)
    } else if n < 36 {
        4 * base_boundary(n - 24)
    } else if n < 48 {
        8 * base_boundary(n - 36)
    } else if n < 60 {
        16 * base_boundary(n - 48)
    } else if n < 72 {
        32 * base_boundary(n - 60)
    } else if n < 84 {
        64 * base_boundary(n - 72)
    } else if n < 96 {
        128 * base_boundary(n - 84)
    } else if n < 108 {
        256 * base_boundary(n - 96)
    } else if n < 120 {
        512 * base_boundary(n - 108)
    } else {
        1024 * base_boundary(n - 120)
    }
}

/// Pitch boundaries grow strictly from one pitch to the next.
#[verifier::rlimit(60)]
pub proof fn lemma_boundary_increasing(n: int)
    requires
        0 <= n < 128,
    ensures
        boundary(n) < boundary(n + 1),
{
    assert(forall|r: int| 0 <= r < 11 ==> #[trigger] base_boundary(r) < base_boundary(r + 1));
    assert(base_boundary(11) < 2 * base_boundary(0));
}

/// Pitch boundaries are monotone over the whole table.
pub proof fn lemma_boundary_mono(a: int, b: int)
    requires
        0 <= a <= b <= 128,
    ensures
        boundary(a) <= boundary(b),
    decreases b - a,
{
    if a < b {
        lemma_boundary_increasing(b - 1);
        lemma_boundary_mono(a, b - 1);
    }
}

/// First pitch at or above `n` whose boundary interval holds the scaled
/// frequency `v`, if any.
pub open spec fn scan_from(v: int, n: int) -> Option<u8>
    decreases 128 - n,
{
    if n < 0 || n >= 128 {
        None
    } else if boundary(n) <= v && v < boundary(n + 1) {
        Some(n as u8)
    } else {
        scan_from(v, n + 1)
    }
}

/// The pitch a frequency in millihertz quantizes to: the pitch whose
/// half-semitone interval contains the frequency, none when the frequency
/// is not positive or lies outside the 128-pitch range.
pub open spec fn pitch_of_freq(f_mhz: int) -> Option<u8> {
    if f_mhz <= 0 {
        None
    } else {
        scan_from(f_mhz * BOUNDARY_UNITS_PER_MHZ, 0)
    }
}

/// A scaled frequency below the boundary of pitch `n` matches no pitch at
/// or above `n`.
pub proof fn lemma_scan_none_low(v: int, n: int)
    requires
        0 <= n <= 128,
        v < boundary(n),
    ensures
        scan_from(v, n) == Option::<u8>::None,
    decreases 128 - n,
{
    if n < 128 {
        lemma_boundary_increasing(n);
        lemma_scan_none_low(v, n + 1);
    }
}

/// A scaled frequency at or above the top of the table matches no pitch.
pub proof fn lemma_scan_none_high(v: int, n: int)
    requires
        0 <= n <= 128,
        v >= boundary(128),
    ensures
        scan_from(v, n) == Option::<u8>::None,
    decreases 128 - n,
{
    if n < 128 {
        lemma_boundary_mono(n + 1, 128);
        lemma_scan_none_high(v, n + 1);
    }
}

/// Bottom-octave boundary of pitch class `r`.
fn base_boundary_at(r: usize) -> (b: u64)
    requires
        r < 12,
    ensures
        b == base_boundary(r as int),
        b <= 15354348876,
{
    if r == 0 {
        8133682986
    } else if r == 1 {
        8617336945
    } else if r == 2 {
        9129750465
    } else if r == 3 {
        9672633678
    } else if r == 4 {
        10247798407
    } else if r == 5 {
        10857164211
    } else if r == 6 {
        11502764791
    } else if r == 7 {
        12186754779
    } else if r == 8 {
        12911416928
    } else if r == 9 {
        13679169731
    } else if r == 10 {
        14492575492
    } else {
        15354348876
    }
}

/// Lower boundary of pitch `n` in microhertz/1024.
fn boundary_at(n: usize) -> (b: u64)
    requires
        n <= 128,
    ensures
        b == boundary(n as int),
{
    if n < 12 {
        base_boundary_at(n)
    } else if n < 24 {
        2 * base_boundary_at(n - 12)
    } else if n < 36 {
        4 * base_boundary_at(n - 24)
    } else if n < 48 {
        8 * base_boundary_at(n - 36)
    } else if n < 60 {
        16 * base_boundary_at(n - 48)
    } else if n < 72 {
        32 * base_boundary_at(n - 60)
    } else if n < 84 {
        64 * base_boundary_at(n - 72)
    } else if n < 96 {
        128 * base_boundary_at(n - 84)
    } else if n < 108 {
        256 * base_boundary_at(n - 96)
    } else if n < 120 {
        512 * base_boundary_at(n - 108)
    } else {
        1024 * base_boundary_at(n - 120)
    }
}

/// Nearest equal-tempered pitch to a frequency given in millihertz, if
/// the frequency is positive and the nearest pitch lies in `0 ..= 127`.
pub fn freq_to_midi_note(freq_mhz: i64) -> (r: Option<u8>)
    ensures
        r == pitch_of_freq(freq_mhz as int),
        freq_mhz <= 0 ==> r is None,
        r matches Some(p) ==> p < 128,
{
    if freq_mhz <= 0 {
        return None;
    }
    if freq_mhz > 20000000 {
        proof {
            lemma_scan_none_high(freq_mhz as int * BOUNDARY_UNITS_PER_MHZ, 0);
        }
        return None;
    }
    let v: u64 = (freq_mhz as u64) * BOUNDARY_UNITS_PER_MHZ;
    let b_low = boundary_at(0);
    if v < b_low {
        proof {
            lemma_scan_none_low(v as int, 0);
        }
        return None;
    }
    let b_high = boundary_at(128);
    if v >= b_high {
        proof {
            lemma_scan_none_high(v as int, 0);
        }
        return None;
    }
    let mut n: usize = 0;
    while n < 128
        invariant
            n <= 128,
            boundary(n as int) <= v,
            v < boundary(128),
            scan_from(v as int, 0) == scan_from(v as int, n as int),
            pitch_of_freq(freq_mhz as int) == scan_from(v as int, 0),
        decreases 128 - n,
    {
        let b_next = boundary_at(n + 1);
        if v < b_next {
            return Some(n as u8);
        }
        n += 1;
    }
    proof {
        assert(false);
    }
    None
}

/// Characters of the pitch-class name of pitch class `r`: one of the
/// twelve names C, C#, D, D#, E, F, F#, G, G#, A, A#, B.
pub open spec fn class_chars(r: int) -> Seq<char> {
    if r == 0 {
        seq!['C']
    } else if r == 1 {
        seq!['C', '#']
    } else if r == 2 {
        seq!['D']
    } else if r == 3 {
        seq!['D', '#']
    } else if r == 4 {
        seq!['E']
    } else if r == 5 {
        seq!['F']
    } else if r == 6 {
        seq!['F', '#']
    } else if r == 7 {
        seq!['G']
    } else if r == 8 {
        seq!['G', '#']
    } else if r == 9 {
        seq!['A']
    } else if r == 10 {
        seq!['A', '#']
    } else {
        seq!['B']
    }
}

/// Decimal digit character for an octave number in `0 ..= 9`.
pub open spec fn digit_char(o: int) -> char {
    if o == 0 {
        '0'
    } else if o == 1 {
        '1'
    } else if o == 2 {
        '2'
    } else if o == 3 {
        '3'
    } else if o == 4 {
        '4'
    } else if o == 5 {
        '5'
    } else if o == 6 {
        '6'
    } else if o == 7 {
        '7'
    } else if o == 8 {
        '8'
    } else {
        '9'
    }
}

/// Characters of the display name of a pitch: its pitch-class name
/// followed by its octave number, `pitch / 12 - 1` saturating at zero.
pub open spec fn note_name(note: int) -> Seq<char> {
    let oct = if note / 12 >= 1 {
        note / 12 - 1
    } else {
        0
    };
    class_chars(note % 12).push(digit_char(oct))
}

/// Display name of a pitch, e.g. `"A4"` for pitch 69.
pub fn midi_note_to_name(note: u8) -> (r: String)
    requires
        note <= 127,
    ensures
        r@ == note_name(note as int),
{
    let idx = note % 12;
    let cls: &str = if idx == 0 {
        "C"
    } else if idx == 1 {
        "C#"
    } else if idx == 2 {
        "D"
    } else if idx == 3 {
        "D#"
    } else if idx == 4 {
        "E"
    } else if idx == 5 {
        "F"
    } else if idx == 6 {
        "F#"
    } else if idx == 7 {
        "G"
    } else if idx == 8 {
        "G#"
    } else if idx == 9 {
        "A"
    } else if idx == 10 {
        "A#"
    } else {
        "B"
    };
    let o = note / 12;
    let oct: u8 = if o >= 1 {
        o - 1
    } else {
        0
    };
    let dig: &str = if oct == 0 {
        "0"
    } else if oct == 1 {
        "1"
    } else if oct == 2 {
        "2"
    } else if oct == 3 {
        "3"
    } else if oct == 4 {
        "4"
    } else if oct == 5 {
        "5"
    } else if oct == 6 {
        "6"
    } else if oct == 7 {
        "7"
    } else if oct == 8 {
        "8"
    } else {
        "9"
    };
    proof {
        reveal_strlit("C");
        reveal_strlit("C#");
        reveal_strlit("D");
        reveal_strlit("D#");
        reveal_strlit("E");
        reveal_strlit("F");
        reveal_strlit("F#");
        reveal_strlit("G");
        reveal_strlit("G#");
        reveal_strlit("A");
        reveal_strlit("A#");
        reveal_strlit("B");
        reveal_strlit("0");
        reveal_strlit("1");
        reveal_strlit("2");
        reveal_strlit("3");
        reveal_strlit("4");
        reveal_strlit("5");
        reveal_strlit("6");
        reveal_strlit("7");
        reveal_strlit("8");
        reveal_strlit("9");
        assert(cls@ =~= class_chars(idx as int));
        assert(dig@ =~= seq![digit_char(oct as int)]);
    }
    let name = String::from_str(cls).concat(dig);
    proof {
        assert(name@ =~= note_name(note as int));
    }
    name
}

} // verus!
