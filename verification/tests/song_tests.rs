use piano_trainer::song::{Song, SongEvent, TrackPayload, VoiceKind};

fn header(tpqn: Option<u16>) -> SongEvent {
    SongEvent::Header { ticks_per_quarter_note: tpqn }
}

fn note_on(dt: u32, channel: u8, key: u8) -> SongEvent {
    SongEvent::TrackEvent {
        delta_ticks: dt,
        payload: TrackPayload::Voice { channel, kind: VoiceKind::NoteOn { key } },
    }
}

fn note_off(dt: u32, channel: u8, key: u8) -> SongEvent {
    SongEvent::TrackEvent {
        delta_ticks: dt,
        payload: TrackPayload::Voice { channel, kind: VoiceKind::NoteOff { key } },
    }
}

fn tempo(micros_per_quarter_note: u32) -> SongEvent {
    SongEvent::TrackEvent { delta_ticks: 0, payload: TrackPayload::Tempo { micros_per_quarter_note } }
}

#[test]
fn tick_times_accumulate_under_constant_tempo() {
    // dt × 500_000 / 48, truncated per event, cumulative per channel.
    let events = vec![header(Some(48)), note_on(10, 0, 60), note_on(10, 0, 64)];
    let song = Song::build(&events);
    assert_eq!(song.len(), 2);
    assert_eq!(song.group(0)[0].start_time, 104_166);
    assert_eq!(song.group(1)[0].start_time, 208_332);
}

#[test]
fn channels_accumulate_independently() {
    let events = vec![
        header(Some(48)),
        note_on(10, 0, 60),
        note_on(5, 1, 62),
        note_on(5, 1, 64),
    ];
    let song = Song::build(&events);
    // Channel 0 reached tick 10; channel 1 reached tick 5 then 10.
    assert_eq!(song.len(), 2);
    assert_eq!(song.group(0)[0].start_delta, 5);
    assert_eq!(song.group(0)[0].channel_number, 1);
    assert_eq!(song.group(1)[0].start_delta, 10);
    assert_eq!(song.group(1).len(), 2);
}

#[test]
fn tempo_event_rescales_later_ticks_only() {
    let events = vec![
        header(Some(100)),
        note_on(100, 0, 60),
        tempo(1_000_000),
        note_on(50, 0, 62),
    ];
    let song = Song::build(&events);
    // 100 ticks at the default tempo, then 50 ticks at the new one.
    assert_eq!(song.group(0)[0].start_time, 500_000);
    assert_eq!(song.group(1)[0].start_time, 500_000 + 500_000);
}

#[test]
fn zero_ticks_per_quarter_note_falls_back_to_default() {
    let events = vec![header(Some(0)), note_on(48, 0, 60)];
    let song = Song::build(&events);
    assert_eq!(song.group(0)[0].start_time, 500_000);
}

#[test]
fn missing_header_resolution_falls_back_to_default() {
    let events = vec![header(None), note_on(48, 0, 60)];
    let song = Song::build(&events);
    assert_eq!(song.group(0)[0].start_time, 500_000);
}

#[test]
fn stream_without_header_uses_defaults() {
    let events = vec![note_on(48, 0, 60)];
    let song = Song::build(&events);
    assert_eq!(song.group(0)[0].start_time, 500_000);
}

#[test]
fn stop_never_precedes_start() {
    let events = vec![
        header(Some(48)),
        note_on(0, 0, 60),
        note_on(7, 0, 64),
        note_off(3, 0, 60),
        note_off(11, 0, 64),
    ];
    let song = Song::build(&events);
    for i in 0..song.len() {
        let group = song.group(i);
        for b in group.iter() {
            if let Some(stop_delta) = b.stop_delta {
                assert!(b.start_delta <= stop_delta);
            }
            if let Some(stop_time) = b.stop_time {
                assert!(b.start_time <= stop_time);
            }
        }
    }
}

#[test]
fn repeated_pitch_pairs_lifo() {
    // The same pitch struck twice before either release: the first
    // note-off closes the second strike, the second closes the first.
    let events = vec![
        header(Some(48)),
        note_on(0, 0, 60),
        note_on(10, 0, 60),
        note_off(5, 0, 60),
        note_off(5, 0, 60),
    ];
    let song = Song::build(&events);
    assert_eq!(song.len(), 2);
    let first_strike = &song.group(0)[0];
    let second_strike = &song.group(1)[0];
    assert_eq!(first_strike.start_delta, 0);
    assert_eq!(first_strike.stop_delta, Some(20));
    assert_eq!(second_strike.start_delta, 10);
    assert_eq!(second_strike.stop_delta, Some(15));
}

#[test]
fn simultaneous_onsets_form_one_group() {
    let events = vec![
        header(Some(48)),
        note_on(0, 0, 60),
        note_on(0, 0, 64),
        note_on(0, 0, 67),
    ];
    let song = Song::build(&events);
    assert_eq!(song.len(), 1);
    assert_eq!(song.group(0).len(), 3);
    let keys: Vec<u8> = song.group(0).iter().map(|b| b.key).collect();
    assert_eq!(keys, vec![60, 64, 67]);
}

#[test]
fn grouping_keeps_every_block_once_and_keys_uniform() {
    let events = vec![
        header(Some(48)),
        note_on(4, 0, 60),
        note_on(0, 1, 62),
        note_on(2, 1, 64),
        note_on(2, 2, 66),
    ];
    let song = Song::build(&events);
    let mut total = 0;
    let mut last_key: Option<u64> = None;
    for i in 0..song.len() {
        let group = song.group(i);
        assert!(!group.is_empty());
        let onset = group[0].start_delta;
        for b in group.iter() {
            assert_eq!(b.start_delta, onset);
            total += 1;
        }
        if let Some(prev) = last_key {
            assert!(prev < onset);
        }
        last_key = Some(onset);
    }
    assert_eq!(total, 4);
}

#[test]
fn unmatched_note_off_is_dropped_silently() {
    let events = vec![header(Some(48)), note_off(5, 0, 60), note_on(5, 0, 60)];
    let song = Song::build(&events);
    assert_eq!(song.len(), 1);
    let b = &song.group(0)[0];
    assert_eq!(b.start_delta, 10);
    assert_eq!(b.stop_delta, None);
}

#[test]
fn hanging_note_keeps_open_stop() {
    let events = vec![header(Some(48)), note_on(0, 0, 60)];
    let song = Song::build(&events);
    let b = &song.group(0)[0];
    assert_eq!(b.stop_delta, None);
    assert_eq!(b.stop_time, None);
}

#[test]
fn note_off_on_other_channel_does_not_close() {
    let events = vec![header(Some(48)), note_on(0, 0, 60), note_off(5, 1, 60)];
    let song = Song::build(&events);
    assert_eq!(song.group(0)[0].stop_delta, None);
}

#[test]
fn block_carries_octave_and_pitch_class() {
    let events = vec![header(Some(48)), note_on(0, 3, 61)];
    let song = Song::build(&events);
    let b = &song.group(0)[0];
    assert_eq!(b.key, 61);
    assert_eq!(b.note, 1);
    assert_eq!(b.octave, 4);
    assert_eq!(b.channel_number, 3);
}

#[test]
fn empty_stream_builds_empty_timeline() {
    let events: Vec<SongEvent> = vec![];
    let song = Song::build(&events);
    assert_eq!(song.len(), 0);
}
