//! The plain model of a piano key.
//!
//! A key is its MIDI data byte (0..=127).  Its pitch class and octave are
//! derived from that byte: pitch class `key % 12` (0 = C .. 11 = B) and
//! octave `key / 12 - 1`, so that byte 60 is C in octave 4.

use vstd::prelude::*;

verus! {

/// How many distinct key bytes exist.
pub const KEY_COUNT: u8 = 128;

/// True of a byte that denotes a key.
pub open spec fn is_valid_key(key: u8) -> bool {
    key < KEY_COUNT
}

/// The pitch class of a key byte (0 = C .. 11 = B).
pub open spec fn spec_note_of(key: u8) -> u8 {
    key % 12
}

/// The octave of a key byte (-1 for bytes 0..=11, 4 for middle C's octave).
pub open spec fn spec_octave_of(key: u8) -> i8 {
    (key / 12 - 1) as i8
}

/// The pitch class of a key byte.
pub fn note_of(key: u8) -> (r: u8)
    ensures
        r == spec_note_of(key),
{
    key % 12
}

/// The octave of a key byte.
pub fn octave_of(key: u8) -> (r: i8)
    ensures
        r == spec_octave_of(key),
{
    (key / 12) as i8 - 1
}

/// True of the pitch classes drawn as white keys on a keyboard.
pub open spec fn spec_is_key_white(key: u8) -> bool {
    key % 12 == 0 || key % 12 == 2 || key % 12 == 4 || key % 12 == 5 || key % 12 == 7
        || key % 12 == 9 || key % 12 == 11
}

/// Whether a key is drawn as a white key.
pub fn is_key_white(key: u8) -> (r: bool)
    ensures
        r == spec_is_key_white(key),
{
    match key % 12 {
        0 | 2 | 4 | 5 | 7 | 9 | 11 => true,
        _ => false,
    }
}

} // verus!
