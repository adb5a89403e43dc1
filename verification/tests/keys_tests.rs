use piano_trainer::keys::{is_key_white, note_of, octave_of};

#[test]
fn middle_c_is_c_in_octave_four() {
    assert_eq!(note_of(60), 0);
    assert_eq!(octave_of(60), 4);
}

#[test]
fn lowest_keys_sit_in_octave_minus_one() {
    assert_eq!(octave_of(0), -1);
    assert_eq!(octave_of(11), -1);
    assert_eq!(octave_of(12), 0);
}

#[test]
fn white_and_black_keys_follow_the_pitch_classes() {
    let white = [0u8, 2, 4, 5, 7, 9, 11];
    for k in 0u8..=127 {
        assert_eq!(is_key_white(k), white.contains(&(k % 12)));
    }
}
