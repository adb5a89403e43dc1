use piano_trainer::bridge::{InputQueue, KeyEvent};
use piano_trainer::screen::{GameMode, PianoScreen};
use piano_trainer::song::{Song, SongEvent, TrackPayload, VoiceKind};

fn key_of(ev: &KeyEvent) -> (bool, u8) {
    match ev {
        KeyEvent::Down { key } => (true, *key),
        KeyEvent::Up { key } => (false, *key),
    }
}

#[test]
fn drain_returns_events_in_arrival_order() {
    let mut q = InputQueue::new(8);
    assert!(q.push(KeyEvent::Down { key: 60 }));
    assert!(q.push(KeyEvent::Down { key: 64 }));
    assert!(q.push(KeyEvent::Up { key: 60 }));
    let evs = q.drain();
    let got: Vec<(bool, u8)> = evs.iter().map(key_of).collect();
    assert_eq!(got, vec![(true, 60), (true, 64), (false, 60)]);
    assert_eq!(q.len(), 0);
}

#[test]
fn full_queue_drops_without_blocking() {
    let mut q = InputQueue::new(2);
    assert!(q.push(KeyEvent::Down { key: 60 }));
    assert!(q.push(KeyEvent::Down { key: 62 }));
    assert!(!q.push(KeyEvent::Down { key: 64 }));
    let evs = q.drain();
    assert_eq!(evs.len(), 2);
}

#[test]
fn push_after_close_is_a_no_op() {
    let mut q = InputQueue::new(8);
    assert!(q.push(KeyEvent::Down { key: 60 }));
    q.close();
    assert!(!q.push(KeyEvent::Down { key: 62 }));
    let evs = q.drain();
    assert_eq!(evs.len(), 1);
}

#[test]
fn drain_leaves_queue_usable() {
    let mut q = InputQueue::new(1);
    assert!(q.push(KeyEvent::Down { key: 60 }));
    assert!(!q.push(KeyEvent::Down { key: 62 }));
    q.drain();
    assert!(q.push(KeyEvent::Down { key: 62 }));
}

#[test]
fn drained_events_drive_the_session_in_order() {
    // What the session loop does once per tick: drain the queue and hand
    // each event to the state machine, in arrival order.
    let events = vec![
        SongEvent::Header { ticks_per_quarter_note: Some(48) },
        SongEvent::TrackEvent {
            delta_ticks: 0,
            payload: TrackPayload::Voice { channel: 0, kind: VoiceKind::NoteOn { key: 60 } },
        },
        SongEvent::TrackEvent {
            delta_ticks: 0,
            payload: TrackPayload::Voice { channel: 0, kind: VoiceKind::NoteOn { key: 64 } },
        },
    ];
    let mut s = PianoScreen::new(Song::build(&events));
    s.set_mode(GameMode::LearnBlocking);
    s.toggle_play();
    s.update(0, 0);
    assert!(s.awaiting_piano_input);

    let mut q = InputQueue::new(8);
    assert!(q.push(KeyEvent::Down { key: 60 }));
    assert!(q.push(KeyEvent::Down { key: 67 }));
    assert!(q.push(KeyEvent::Up { key: 67 }));
    assert!(q.push(KeyEvent::Down { key: 64 }));
    for ev in q.drain() {
        match ev {
            KeyEvent::Down { key } => s.on_piano_key_down(key, 0),
            KeyEvent::Up { key } => s.on_piano_key_up(key),
        }
    }
    // The stray key 67 came up before the chord completed, so the exact
    // match {60, 64} went through.
    assert!(!s.awaiting_piano_input);
    assert_eq!(s.paused_on_block_group, 1);
}
