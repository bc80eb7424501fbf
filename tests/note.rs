use rtuner::note::{floor_div, non_neg_mod, note_from_offset, pitch_name, Note, NoteId};

const NAMES: [&str; 12] = ["C", "C#", "D", "D#", "E", "F", "F#", "G", "G#", "A", "A#", "B"];

/// Offset from C4 = 261.6 Hz in hundredths of a cent, as the application computes it.
fn offset_of(freq: f64) -> i64 {
    (120000.0 * (freq / 261.6).log2()).round() as i64
}

#[test]
fn exact_semitones_have_no_deviation() {
    for k in -60i64..=60 {
        let n = note_from_offset(k * 10000);
        assert_eq!(n.pitch_class as i64, k.rem_euclid(12), "k = {}", k);
        assert_eq!(n.octave, 4 + k.div_euclid(12), "k = {}", k);
        assert_eq!(n.cents, 0, "k = {}", k);
    }
}

#[test]
fn exact_octaves_below_reference_use_floor_division() {
    let one_below = note_from_offset(-120000);
    assert_eq!((one_below.pitch_class, one_below.octave, one_below.cents), (0, 3, 0));
    let two_below = note_from_offset(-240000);
    assert_eq!((two_below.pitch_class, two_below.octave, two_below.cents), (0, 2, 0));
    let just_below = note_from_offset(-10000);
    assert_eq!((just_below.pitch_class, just_below.octave), (11, 3));
}

#[test]
fn halves_round_away_from_zero() {
    let up = note_from_offset(5000);
    assert_eq!((up.pitch_class, up.octave, up.cents), (1, 4, -5000));
    let down = note_from_offset(-5000);
    assert_eq!((down.pitch_class, down.octave, down.cents), (11, 3, 5000));
    let under = note_from_offset(4999);
    assert_eq!((under.pitch_class, under.octave, under.cents), (0, 4, 4999));
    let over = note_from_offset(-4999);
    assert_eq!((over.pitch_class, over.octave, over.cents), (0, 4, -4999));
}

#[test]
fn pitch_class_stays_in_range() {
    for f in [20.0, 27.5, 55.0, 130.8, 1000.0, 5000.0, 18000.0] {
        let n = note_from_offset(offset_of(f));
        assert!(n.pitch_class < 12, "f = {}", f);
        assert!(-5000 <= n.cents && n.cents <= 5000, "f = {}", f);
    }
    for x in [i64::MIN, i64::MIN + 1, -1, 0, 1, i64::MAX] {
        let n = note_from_offset(x);
        assert!(n.pitch_class < 12);
        assert!(-5000 <= n.cents && n.cents <= 5000);
    }
}

#[test]
fn far_frequencies_name_the_right_notes() {
    let low = note_from_offset(offset_of(20.0));
    assert_eq!(pitch_name(low.pitch_class), "D#");
    assert_eq!(low.octave, 0);
    let high = note_from_offset(offset_of(5000.0));
    assert_eq!(pitch_name(high.pitch_class), "D#");
    assert_eq!(high.octave, 8);
}

#[test]
fn middle_c_concert_a_and_octave_below() {
    let c4 = note_from_offset(offset_of(261.6));
    assert_eq!((pitch_name(c4.pitch_class), c4.octave, c4.cents), ("C", 4, 0));
    let a4 = note_from_offset(offset_of(440.0));
    assert_eq!((pitch_name(a4.pitch_class), a4.octave), ("A", 4));
    assert!(a4.cents.abs() <= 100);
    let c3 = note_from_offset(offset_of(130.8));
    assert_eq!((pitch_name(c3.pitch_class), c3.octave, c3.cents), ("C", 3, 0));
}

#[test]
fn concert_a_deviation_is_exact() {
    // 1200 * log2(440 / 261.6) = 900.17 cents
    assert_eq!(offset_of(440.0), 90017);
    assert_eq!(note_from_offset(90017), Note { pitch_class: 9, octave: 4, cents: 17 });
}

#[test]
fn note_identity_drops_the_deviation() {
    let n = note_from_offset(90004);
    assert_eq!(n.id(), NoteId { pitch_class: 9, octave: 4 });
}

#[test]
fn names_follow_the_twelve_tone_table() {
    for (i, name) in NAMES.iter().enumerate() {
        assert_eq!(pitch_name(i), *name);
    }
}

#[test]
fn floor_division_and_non_negative_remainder() {
    assert_eq!(floor_div(13, 12), 1);
    assert_eq!(floor_div(12, 12), 1);
    assert_eq!(floor_div(0, 12), 0);
    assert_eq!(floor_div(-1, 12), -1);
    assert_eq!(floor_div(-12, 12), -1);
    assert_eq!(floor_div(-13, 12), -2);
    assert_eq!(floor_div(i64::MIN, 12), -768614336404564651);
    assert_eq!(non_neg_mod(13, 12), 1);
    assert_eq!(non_neg_mod(-1, 12), 11);
    assert_eq!(non_neg_mod(-12, 12), 0);
    assert_eq!(non_neg_mod(-13, 12), 11);
    assert_eq!(non_neg_mod(i64::MIN, 12), 4);
}
