use pitch_histogram::pitch::{freq_to_midi_note, midi_note_to_name};

#[test]
fn a440_quantizes_to_pitch_69() {
    assert_eq!(freq_to_midi_note(440_000), Some(69));
}

#[test]
fn a440_round_trip_names_a4() {
    let pitch = freq_to_midi_note(440_000).unwrap();
    assert_eq!(midi_note_to_name(pitch), "A4");
}

#[test]
fn middle_c_round_trip_names_c4() {
    // 261.63 Hz is middle C; quantization lands within a semitone of C4.
    let pitch = freq_to_midi_note(261_630).unwrap();
    assert!(59 <= pitch && pitch <= 61);
    assert_eq!(midi_note_to_name(60), "C4");
    assert_eq!(midi_note_to_name(pitch), "C4");
}

#[test]
fn nonpositive_frequency_has_no_pitch() {
    assert_eq!(freq_to_midi_note(0), None);
    assert_eq!(freq_to_midi_note(-1), None);
    assert_eq!(freq_to_midi_note(-440_000), None);
}

#[test]
fn out_of_range_frequencies_have_no_pitch() {
    // Below the lower edge of pitch 0 (about 7.94 Hz).
    assert_eq!(freq_to_midi_note(7_900), None);
    // Above the upper edge of pitch 127 (about 12.91 kHz).
    assert_eq!(freq_to_midi_note(12_920_000), None);
    assert_eq!(freq_to_midi_note(20_000_001), None);
}

#[test]
fn range_edges_quantize_to_extreme_pitches() {
    // Just above the lower edge of pitch 0.
    assert_eq!(freq_to_midi_note(7_944), Some(0));
    // Just below the upper edge of pitch 127.
    assert_eq!(freq_to_midi_note(12_911_000), Some(127));
}

#[test]
fn semitone_boundary_rounds_to_nearest() {
    // 466.16 Hz is A#4 (pitch 70); 452 Hz is still nearer to A4.
    assert_eq!(freq_to_midi_note(466_160), Some(70));
    assert_eq!(freq_to_midi_note(452_000), Some(69));
    assert_eq!(freq_to_midi_note(453_500), Some(70));
}

#[test]
fn note_names_cover_all_classes() {
    assert_eq!(midi_note_to_name(60), "C4");
    assert_eq!(midi_note_to_name(61), "C#4");
    assert_eq!(midi_note_to_name(62), "D4");
    assert_eq!(midi_note_to_name(63), "D#4");
    assert_eq!(midi_note_to_name(64), "E4");
    assert_eq!(midi_note_to_name(65), "F4");
    assert_eq!(midi_note_to_name(66), "F#4");
    assert_eq!(midi_note_to_name(67), "G4");
    assert_eq!(midi_note_to_name(68), "G#4");
    assert_eq!(midi_note_to_name(69), "A4");
    assert_eq!(midi_note_to_name(70), "A#4");
    assert_eq!(midi_note_to_name(71), "B4");
}

#[test]
fn octave_saturates_at_zero_for_lowest_pitches() {
    assert_eq!(midi_note_to_name(0), "C0");
    assert_eq!(midi_note_to_name(11), "B0");
    assert_eq!(midi_note_to_name(12), "C0");
    assert_eq!(midi_note_to_name(24), "C1");
    assert_eq!(midi_note_to_name(127), "G9");
}
