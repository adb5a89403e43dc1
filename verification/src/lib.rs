//! Core engine of an interactive piano-practice session.
//!
//! The library converts a decoded MIDI event stream into an immutable song
//! timeline of chord groups, answers windowed range queries over it, and
//! drives the practice state machine that pauses playback on exact chords
//! struck on a live keyboard.  Everything here is plain data and logic;
//! file access, MIDI decoding and rendering live outside the library and
//! talk to it through plain values.

pub mod bridge;
pub mod history;
pub mod keys;
pub mod keyset;
pub mod screen;
pub mod song;
