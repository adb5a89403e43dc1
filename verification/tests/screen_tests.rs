use piano_trainer::screen::{GameMode, PianoScreen};
use piano_trainer::song::{Song, SongEvent, TrackPayload, VoiceKind};

fn note_on(dt: u32, channel: u8, key: u8) -> SongEvent {
    SongEvent::TrackEvent {
        delta_ticks: dt,
        payload: TrackPayload::Voice { channel, kind: VoiceKind::NoteOn { key } },
    }
}

/// A song with a single chord group {C4, E4, G4} at the start.
fn c_major_song() -> Song {
    let events = vec![
        SongEvent::Header { ticks_per_quarter_note: Some(48) },
        note_on(0, 0, 60),
        note_on(0, 0, 64),
        note_on(0, 0, 67),
    ];
    Song::build(&events)
}

/// A session in blocking-learn mode already paused on the opening chord.
fn armed_session() -> PianoScreen {
    let mut s = PianoScreen::new(c_major_song());
    s.set_mode(GameMode::LearnBlocking);
    s.toggle_play();
    s.update(0, 0);
    assert!(s.awaiting_piano_input);
    s
}

#[test]
fn exact_chord_resumes_playback() {
    let mut s = armed_session();
    s.on_piano_key_down(60, 0);
    assert!(s.awaiting_piano_input);
    assert_eq!(s.paused_on_block_group, 0);
    s.on_piano_key_down(64, 0);
    assert!(s.awaiting_piano_input);
    s.on_piano_key_down(67, 0);
    assert!(!s.awaiting_piano_input);
    assert_eq!(s.paused_on_block_group, 1);
}

#[test]
fn subset_of_chord_does_not_release() {
    let mut s = armed_session();
    s.on_piano_key_down(60, 0);
    s.on_piano_key_down(64, 0);
    assert!(s.awaiting_piano_input);
    assert_eq!(s.paused_on_block_group, 0);
}

#[test]
fn superset_of_chord_does_not_release() {
    let mut s = armed_session();
    s.on_piano_key_down(60, 0);
    s.on_piano_key_down(64, 0);
    s.on_piano_key_down(71, 0);
    s.on_piano_key_down(67, 0);
    assert!(s.awaiting_piano_input);
    assert_eq!(s.paused_on_block_group, 0);
}

#[test]
fn released_key_can_complete_chord_again() {
    let mut s = armed_session();
    s.on_piano_key_down(60, 0);
    s.on_piano_key_down(71, 0);
    s.on_piano_key_up(71);
    s.on_piano_key_down(64, 0);
    s.on_piano_key_down(67, 0);
    assert!(!s.awaiting_piano_input);
    assert_eq!(s.paused_on_block_group, 1);
}

#[test]
fn matching_chord_clears_history_but_not_held_keys() {
    let mut s = armed_session();
    s.on_piano_key_down(60, 0);
    s.on_piano_key_down(64, 0);
    s.on_piano_key_down(67, 0);
    assert_eq!(s.active_piano_keys_history.len(), 0);
    assert_eq!(s.active_piano_keys.len(), 3);
    assert!(s.active_piano_keys.contains(60));
}

#[test]
fn blocking_learn_halts_the_clock_while_awaiting() {
    let mut s = armed_session();
    let before = s.time_offset;
    s.update(1_000, 0);
    assert_eq!(s.time_offset, before);
}

#[test]
fn play_mode_advances_past_a_due_chord() {
    let mut s = PianoScreen::new(c_major_song());
    s.toggle_play();
    s.update(1_000, 0);
    assert_eq!(s.time_offset, 1_000);
    s.update(500, 0);
    assert_eq!(s.time_offset, 1_500);
}

#[test]
fn clock_does_not_advance_before_toggle_play() {
    let mut s = PianoScreen::new(c_major_song());
    s.update(1_000, 0);
    assert_eq!(s.time_offset, 0);
}

#[test]
fn nothing_is_awaited_before_the_onset() {
    // One chord at 500_000 µs: at time zero nothing is due.
    let events = vec![
        SongEvent::Header { ticks_per_quarter_note: Some(48) },
        note_on(48, 0, 60),
    ];
    let mut s = PianoScreen::new(Song::build(&events));
    s.set_mode(GameMode::LearnBlocking);
    s.toggle_play();
    s.update(1_000, 0);
    assert!(!s.awaiting_piano_input);
    assert_eq!(s.time_offset, 1_000);
}

#[test]
fn next_group_is_awaited_only_after_match() {
    let events = vec![
        SongEvent::Header { ticks_per_quarter_note: Some(48) },
        note_on(0, 0, 60),
        note_on(10, 0, 62),
    ];
    let mut s = PianoScreen::new(Song::build(&events));
    s.set_mode(GameMode::LearnBlocking);
    s.toggle_play();
    s.update(0, 0);
    assert!(s.awaiting_piano_input);
    s.on_piano_key_down(60, 0);
    assert!(!s.awaiting_piano_input);
    assert_eq!(s.paused_on_block_group, 1);
    // The clock has not reached the second onset yet.
    s.update(1_000, 0);
    assert!(!s.awaiting_piano_input);
    // Past the second onset the session awaits input again.
    let mut t = s.time_offset;
    while t < 104_166 {
        s.update(100_000, 0);
        t = s.time_offset;
    }
    s.update(0, 0);
    assert!(s.awaiting_piano_input);
}

#[test]
fn terminal_cursor_runs_free() {
    let mut s = armed_session();
    s.on_piano_key_down(60, 0);
    s.on_piano_key_down(64, 0);
    s.on_piano_key_down(67, 0);
    assert_eq!(s.paused_on_block_group, 1);
    // No further group: blocking-learn now advances like free play.
    s.update(2_000, 0);
    assert_eq!(s.time_offset, 2_000);
}

#[test]
fn reset_zeroes_the_session_but_keeps_the_song() {
    let mut s = armed_session();
    s.on_piano_key_down(60, 0);
    s.reset();
    assert!(s.mode == GameMode::Play);
    assert_eq!(s.time_offset, 0);
    assert_eq!(s.paused_on_block_group, 0);
    assert!(!s.awaiting_piano_input);
    assert!(s.awaiting_keys.is_none());
    assert_eq!(s.active_piano_keys.len(), 0);
    assert_eq!(s.active_piano_keys_history.len(), 0);
    assert_eq!(s.song.len(), 1);
}

#[test]
fn key_up_removes_only_that_key() {
    let mut s = PianoScreen::new(c_major_song());
    s.on_piano_key_down(60, 0);
    s.on_piano_key_down(64, 0);
    s.on_piano_key_up(60);
    assert!(!s.active_piano_keys.contains(60));
    assert!(s.active_piano_keys.contains(64));
    assert_eq!(s.active_piano_keys.len(), 1);
}
