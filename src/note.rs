use vstd::prelude::*;
use vstd::arithmetic::div_mod::{lemma_fundamental_div_mod, lemma_fundamental_div_mod_converse};

verus! {

/// Units of pitch offset in one equal-tempered semitone (hundredths of a cent).
pub const UNITS_PER_SEMITONE: i64 = 10000;

/// Number of pitch classes in an octave.
pub const PITCH_CLASSES: i64 = 12;

/// Octave number of the reference note C4.
pub const REFERENCE_OCTAVE: i64 = 4;

/// Identity of a note: its pitch class (0 = C, ..., 11 = B) and its octave.
#[derive(Clone, Copy, Debug, PartialEq, Eq, Structural)]
pub struct NoteId {
    pub pitch_class: usize,
    pub octave: i64,
}

/// A note with its deviation from the equal-tempered pitch, in hundredths of a cent.
#[derive(Clone, Copy, Debug, PartialEq, Eq, Structural)]
pub struct Note {
    pub pitch_class: usize,
    pub octave: i64,
    pub cents: i64,
}

impl Note {
    /// A valid note: a pitch class in `0..12` and a deviation of at most half a semitone.
    pub open spec fn wf(&self) -> bool {
        &&& self.pitch_class < 12
        &&& -5000 <= self.cents <= 5000
    }

    /// The note without its deviation.
    pub open spec fn spec_id(&self) -> NoteId {
        NoteId { pitch_class: self.pitch_class, octave: self.octave }
    }

    /// The note without its deviation.
    pub fn id(&self) -> (r: NoteId)
        ensures
            r == self.spec_id(),
    {
        NoteId { pitch_class: self.pitch_class, octave: self.octave }
    }
}

/// `x / d` rounded to the nearest integer, halves away from zero.
pub open spec fn round_half_away(x: int, d: int) -> int {
    if x >= 0 {
        (2 * x + d) / (2 * d)
    } else {
        -((2 * (-x) + d) / (2 * d))
    }
}

/// The equal-tempered semitone nearest to a pitch offset.
pub open spec fn nearest_semitone(offset: int) -> int {
    round_half_away(offset, UNITS_PER_SEMITONE as int)
}

/// Pitch class of the semitone `n` steps from C4 (floor-based modulo, always in `0..12`).
pub open spec fn pitch_class_of(n: int) -> int {
    n % 12
}

/// Octave of the semitone `n` steps from C4 (true floor division).
pub open spec fn octave_of(n: int) -> int {
    REFERENCE_OCTAVE + n / 12
}

/// The note nearest to a pitch offset, with the signed remainder as its deviation.
pub open spec fn note_of(offset: int) -> (int, int, int) {
    let n = nearest_semitone(offset);
    (pitch_class_of(n), octave_of(n), offset - n * UNITS_PER_SEMITONE)
}

/// Name of a pitch class in the twelve-tone table, starting from C.
pub open spec fn pitch_name_of(pc: int) -> Seq<char> {
    if pc == 0 {
        "C"@
    } else if pc == 1 {
        "C#"@
    } else if pc == 2 {
        "D"@
    } else if pc == 3 {
        "D#"@
    } else if pc == 4 {
        "E"@
    } else if pc == 5 {
        "F"@
    } else if pc == 6 {
        "F#"@
    } else if pc == 7 {
        "G"@
    } else if pc == 8 {
        "G#"@
    } else if pc == 9 {
        "A"@
    } else if pc == 10 {
        "A#"@
    } else {
        "B"@
    }
}

/// Looks up the name of a pitch class.
pub fn pitch_name(pitch_class: usize) -> (r: &'static str)
    requires
        pitch_class < 12,
    ensures
        r@ == pitch_name_of(pitch_class as int),
{
    match pitch_class {
        0 => "C",
        1 => "C#",
        2 => "D",
        3 => "D#",
        4 => "E",
        5 => "F",
        6 => "F#",
        7 => "G",
        8 => "G#",
        9 => "A",
        10 => "A#",
        _ => "B",
    }
}

/// Floor quotient and remainder of a negative `a`, from those of `m = -(a + 1)`.
proof fn lemma_negative_div_mod(a: int, b: int, m: int)
    requires
        b > 0,
        a < 0,
        m == -(a + 1),
    ensures
        a / b == -(m / b) - 1,
        a % b == b - 1 - m % b,
{
    lemma_fundamental_div_mod(m, b);
    let q = m / b;
    let r = m % b;
    assert(0 <= r < b);
    assert(a == (-q - 1) * b + (b - 1 - r)) by (nonlinear_arith)
        requires
            m == b * q + r,
            m == -(a + 1),
    ;
    lemma_fundamental_div_mod_converse(a, b, -q - 1, b - 1 - r);
}

/// The note nearest to a pitch offset, as a value.
pub open spec fn nearest_note(offset: int) -> Note {
    Note {
        pitch_class: note_of(offset).0 as usize,
        octave: note_of(offset).1 as i64,
        cents: note_of(offset).2 as i64,
    }
}

/// Floor division by a positive divisor.
pub fn floor_div(a: i64, b: i64) -> (q: i64)
    requires
        b > 0,
    ensures
        q == a / b,
{
    if a >= 0 {
        a / b
    } else {
        let m: i64 = -(a + 1);
        let q = m / b;
        let r = m % b;
        proof {
            lemma_negative_div_mod(a as int, b as int, m as int);
        }
        -q - 1
    }
}

/// Remainder of floor division by a positive divisor: always in `0..b`.
pub fn non_neg_mod(a: i64, b: i64) -> (r: i64)
    requires
        b > 0,
    ensures
        r == a % b,
        0 <= r < b,
{
    if a >= 0 {
        a % b
    } else {
        let m: i64 = -(a + 1);
        let q = m / b;
        let r = m % b;
        proof {
            lemma_negative_div_mod(a as int, b as int, m as int);
        }
        b - 1 - r
    }
}

/// Rounding a non-negative `m` to the nearest multiple of `d`, halves up, from
/// its quotient and remainder.
proof fn lemma_round_non_negative(m: int, d: int)
    requires
        m >= 0,
        d > 0,
    ensures
        2 * (m % d) >= d ==> (2 * m + d) / (2 * d) == m / d + 1,
        2 * (m % d) < d ==> (2 * m + d) / (2 * d) == m / d,
{
    lemma_fundamental_div_mod(m, d);
    let q = m / d;
    let r = m % d;
    if 2 * r >= d {
        assert(2 * m + d == (q + 1) * (2 * d) + (2 * r - d)) by (nonlinear_arith)
            requires
                m == d * q + r,
        ;
        lemma_fundamental_div_mod_converse(2 * m + d, 2 * d, q + 1, 2 * r - d);
    } else {
        assert(2 * m + d == q * (2 * d) + (2 * r + d)) by (nonlinear_arith)
            requires
                m == d * q + r,
        ;
        lemma_fundamental_div_mod_converse(2 * m + d, 2 * d, q, 2 * r + d);
    }
}

/// Maps a pitch offset from C4, in hundredths of a cent, to the nearest note:
/// semitones are rounded half away from zero, the octave is taken by floor
/// division and the pitch class by the non-negative remainder.
pub fn note_from_offset(offset: i64) -> (r: Note)
    ensures
        r.wf(),
        r.pitch_class as int == note_of(offset as int).0,
        r.octave as int == note_of(offset as int).1,
        r.cents as int == note_of(offset as int).2,
        r == nearest_note(offset as int),
{
    let m: u64 = if offset >= 0 {
        offset as u64
    } else {
        (-(offset + 1)) as u64 + 1
    };
    let q: u64 = m / 10000;
    let rem: u64 = m % 10000;
    let up: bool = 2 * rem >= 10000;
    proof {
        lemma_round_non_negative(m as int, 10000);
        assert(q <= 922337203685478);
    }
    let steps: u64 = if up { q + 1 } else { q };
    let dev: i64 = if up { rem as i64 - 10000 } else { rem as i64 };
    let n: i64;
    let cents: i64;
    if offset >= 0 {
        n = steps as i64;
        cents = dev;
    } else {
        n = -(steps as i64);
        cents = -dev;
    }
    proof {
        lemma_fundamental_div_mod(m as int, 10000);
        assert(n == nearest_semitone(offset as int));
        assert(cents == offset - n * 10000);
    }
    let pitch_class = non_neg_mod(n, PITCH_CLASSES);
    let octave = floor_div(n, PITCH_CLASSES);
    Note { pitch_class: pitch_class as usize, octave: REFERENCE_OCTAVE + octave, cents }
}

/// An offset of exactly `k` semitones names the note `k` steps from C4 with no
/// deviation: pitch class `k mod 12` and octave `4 + floor(k / 12)`, for
/// negative `k` and exact octave multiples alike.
pub proof fn lemma_exact_semitone(k: int)
    ensures
        nearest_semitone(k * UNITS_PER_SEMITONE) == k,
        note_of(k * UNITS_PER_SEMITONE) == (k % 12, 4 + k / 12, 0int),
{
    let d = UNITS_PER_SEMITONE as int;
    if k >= 0 {
        assert(2 * (k * d) + d == k * (2 * d) + d) by (nonlinear_arith);
        lemma_fundamental_div_mod_converse(2 * (k * d) + d, 2 * d, k, d);
    } else {
        assert(2 * (-(k * d)) + d == (-k) * (2 * d) + d) by (nonlinear_arith);
        lemma_fundamental_div_mod_converse(2 * (-(k * d)) + d, 2 * d, -k, d);
    }
}

/// The pitch class of every offset lies in `0..12`, far below or far above C4.
pub proof fn lemma_pitch_class_in_range(offset: int)
    ensures
        0 <= note_of(offset).0 < 12,
{
}

} // verus!
