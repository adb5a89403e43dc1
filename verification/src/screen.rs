//! The practice state machine.
//!
//! A session either plays freely or, in blocking-learn mode, pauses on
//! each chord group until the player holds down exactly that group's keys.
//! The machine owns the playback clock (microseconds of session time, a
//! render clock independent of the MIDI tick clock), the set of keys
//! currently held, and the short-lived history of recent key-downs.

use vstd::prelude::*;
use vstd::seq_lib::group_seq_properties;
use vstd::set::group_set_axioms;
use crate::history::{ActiveKeysHistory, entry_live};
use crate::keyset::KeySet;
use crate::song::{NoteBlock, Song, group_onset_time, sat_add_u64};

verus! {

broadcast use group_set_axioms, group_seq_properties;

/// How a session treats the timeline.
#[derive(Clone, Copy, Debug, PartialEq, Eq, Structural)]
pub enum GameMode {
    /// The timeline advances continuously with elapsed time.
    Play,
    /// The timeline advances only while no chord is being awaited.
    LearnBlocking,
}

/// The keys a chord group asks for.
pub open spec fn group_keys(g: Seq<NoteBlock>) -> Set<u8> {
    g.map_values(|b: NoteBlock| b.key).to_set()
}

/// The practice session over one song.
pub struct PianoScreen {
    /// The immutable timeline under play.
    pub song: Song,
    /// Free play or blocking learn.
    pub mode: GameMode,
    /// Whether the operator has started playback.
    pub play: bool,
    /// Microseconds of session playback reached so far.
    pub time_offset: u64,
    /// Index of the next chord group playback will pause on; never
    /// decreases, and reaching the timeline's length means free running.
    pub paused_on_block_group: usize,
    /// Whether playback is paused waiting for input right now.
    pub awaiting_piano_input: bool,
    /// The chord being awaited, once one was ever due.
    pub awaiting_keys: Option<KeySet>,
    /// The keys currently held down.
    pub active_piano_keys: KeySet,
    /// Recent key-downs, for diagnostics and loose-timing queries.
    pub active_piano_keys_history: ActiveKeysHistory,
}

impl PianoScreen {
    /// What every session state satisfies: a well-formed song, the cursor
    /// within the timeline, and an awaiting session always knowing its
    /// chord, with a group still ahead of it.
    pub open spec fn wf(self) -> bool {
        &&& self.song.wf()
        &&& self.paused_on_block_group <= self.song@.len()
        &&& self.active_piano_keys.wf()
        &&& (self.awaiting_piano_input ==> self.paused_on_block_group < self.song@.len())
        &&& (self.awaiting_piano_input ==> self.awaiting_keys is Some)
        &&& match self.awaiting_keys {
            Option::Some(ks) => ks.wf(),
            Option::None => true,
        }
    }

    /// A fresh session on a song: stopped at the start, in free play,
    /// nothing awaited, no keys held.
    pub fn new(song: Song) -> (s: PianoScreen)
        requires
            song.wf(),
        ensures
            s.wf(),
            s.song == song,
            s.mode == GameMode::Play,
            !s.play,
            s.time_offset == 0,
            s.paused_on_block_group == 0,
            !s.awaiting_piano_input,
            s.awaiting_keys is None,
            s.active_piano_keys@ == Set::<u8>::empty(),
            s.active_piano_keys_history@ == Seq::<crate::history::KeyWithTimestamp>::empty(),
    {
        PianoScreen {
            song,
            mode: GameMode::Play,
            play: false,
            time_offset: 0,
            paused_on_block_group: 0,
            awaiting_piano_input: false,
            awaiting_keys: None,
            active_piano_keys: KeySet::new(),
            active_piano_keys_history: ActiveKeysHistory::new(),
        }
    }

    /// Back to the start: free play, clocks zeroed, awaited chord and key state
    /// cleared.  Whether playback runs is left as it was.
    pub fn reset(&mut self)
        requires
            old(self).wf(),
        ensures
            final(self).wf(),
            final(self).song == old(self).song,
            final(self).play == old(self).play,
            final(self).mode == GameMode::Play,
            final(self).time_offset == 0,
            final(self).paused_on_block_group == 0,
            !final(self).awaiting_piano_input,
            final(self).awaiting_keys is None,
            final(self).active_piano_keys@ == Set::<u8>::empty(),
            final(self).active_piano_keys_history@ == Seq::<
                crate::history::KeyWithTimestamp,
            >::empty(),
    {
        self.mode = GameMode::Play;
        self.time_offset = 0;
        self.paused_on_block_group = 0;
        self.awaiting_piano_input = false;
        self.awaiting_keys = None;
        self.active_piano_keys.clear();
        self.active_piano_keys_history.clear();
    }

    /// Start or stop playback.
    pub fn toggle_play(&mut self)
        requires
            old(self).wf(),
        ensures
            final(self).wf(),
            final(self).play == !old(self).play,
            final(self).song == old(self).song,
            final(self).mode == old(self).mode,
            final(self).time_offset == old(self).time_offset,
            final(self).paused_on_block_group == old(self).paused_on_block_group,
            final(self).awaiting_piano_input == old(self).awaiting_piano_input,
            final(self).awaiting_keys == old(self).awaiting_keys,
            final(self).active_piano_keys == old(self).active_piano_keys,
            final(self).active_piano_keys_history == old(self).active_piano_keys_history,
    {
        self.play = !self.play;
    }

    /// Switch between free play and blocking learn.
    pub fn set_mode(&mut self, mode: GameMode)
        requires
            old(self).wf(),
        ensures
            final(self).wf(),
            final(self).mode == mode,
            final(self).song == old(self).song,
            final(self).play == old(self).play,
            final(self).time_offset == old(self).time_offset,
            final(self).paused_on_block_group == old(self).paused_on_block_group,
            final(self).awaiting_piano_input == old(self).awaiting_piano_input,
            final(self).awaiting_keys == old(self).awaiting_keys,
            final(self).active_piano_keys == old(self).active_piano_keys,
            final(self).active_piano_keys_history == old(self).active_piano_keys_history,
    {
        self.mode = mode;
    }

    /// The keys of one chord group, collected into a set.
    fn collect_group_keys(g: &Vec<NoteBlock>) -> (r: KeySet)
        ensures
            r.wf(),
            r@ == group_keys(g@),
    {
        let n = g.len();
        let mut r = KeySet::new();
        proof {
            assert(g@.take(0) =~= Seq::<NoteBlock>::empty());
            assert(g@.take(0).map_values(|b: NoteBlock| b.key) =~= Seq::<u8>::empty());
            assert(group_keys(g@.take(0)) =~= Set::<u8>::empty());
        }
        let mut i: usize = 0;
        while i < n
            invariant
                i <= n,
                n == g@.len(),
                r.wf(),
                r@ == group_keys(g@.take(i as int)),
            decreases n - i,
        {
            r.insert(g[i].key);
            proof {
                let f = |b: NoteBlock| b.key;
                assert(g@.take(i + 1).map_values(f) =~= g@.take(i as int).map_values(f).push(
                    g@[i as int].key,
                ));
                g@.take(i as int).map_values(f).lemma_push_to_set_commute(g@[i as int].key);
            }
            i = i + 1;
        }
        proof {
            assert(g@.take(n as int) =~= g@);
        }
        r
    }

    /// Whether a pause becomes due on this tick: a group still ahead,
    /// the session clock at or past its onset, and input not already
    /// awaited (the paused state is entered at most once per group).
    pub open spec fn pause_due(self) -> bool {
        &&& !self.awaiting_piano_input
        &&& self.paused_on_block_group < self.song@.len()
        &&& self.time_offset >= group_onset_time(self.song@[self.paused_on_block_group as int])
    }

    /// Whether the session clock advances on this tick, judged after any
    /// pause came due: playback is on, and either the mode is free play
    /// or nothing is awaited.
    pub open spec fn advances(self, awaiting_after: bool) -> bool {
        self.play && (self.mode == GameMode::Play || (self.mode == GameMode::LearnBlocking
            && !awaiting_after))
    }

    /// One session tick of `frame_micros` elapsed playback time, at wall
    /// clock `now_micros`: expire old history entries, pause on the next
    /// chord group if it has come due, then advance the session clock
    /// unless the awaited chord holds it.
    pub fn update(&mut self, frame_micros: u64, now_micros: u64)
        requires
            old(self).wf(),
        ensures
            final(self).wf(),
            final(self).song == old(self).song,
            final(self).mode == old(self).mode,
            final(self).play == old(self).play,
            final(self).paused_on_block_group == old(self).paused_on_block_group,
            final(self).active_piano_keys == old(self).active_piano_keys,
            final(self).active_piano_keys_history@ == old(self).active_piano_keys_history@.filter(
                |e: crate::history::KeyWithTimestamp| entry_live(e, now_micros),
            ),
            old(self).pause_due() ==> {
                &&& final(self).awaiting_piano_input
                &&& match final(self).awaiting_keys {
                    Option::Some(ks) => ks@ == group_keys(
                        old(self).song@[old(self).paused_on_block_group as int],
                    ),
                    Option::None => false,
                }
            },
            !old(self).pause_due() ==> {
                &&& final(self).awaiting_piano_input == old(self).awaiting_piano_input
                &&& final(self).awaiting_keys == old(self).awaiting_keys
            },
            final(self).time_offset == if old(self).advances(final(self).awaiting_piano_input) {
                sat_add_u64(old(self).time_offset, frame_micros as int)
            } else {
                old(self).time_offset
            },
    {
        self.active_piano_keys_history.autoclean(now_micros);
        if !self.awaiting_piano_input && self.paused_on_block_group < self.song.len() {
            let next_group = self.song.group(self.paused_on_block_group);
            proof {
                assert(crate::song::group_wf(next_group@));
            }
            let next_group_start_time = Song::group_onset(next_group);
            if self.time_offset >= next_group_start_time {
                self.awaiting_piano_input = true;
                self.awaiting_keys = Some(Self::collect_group_keys(next_group));
            }
        }
        let advancing = self.play && (match self.mode {
            GameMode::Play => true,
            GameMode::LearnBlocking => !self.awaiting_piano_input,
        });
        if advancing {
            self.time_offset = if self.time_offset <= u64::MAX - frame_micros {
                self.time_offset + frame_micros
            } else {
                u64::MAX
            };
        }
    }

    /// A live key went down: hold it, record it, and if the held set now
    /// matches the awaited chord exactly, resume playback, move the
    /// cursor one group forward, and clear the history so stale presses
    /// do not pollute the next chord's window.  A superset or subset of
    /// the chord releases nothing.
    pub fn on_piano_key_down(&mut self, key: u8, now_micros: u64)
        requires
            old(self).wf(),
        ensures
            final(self).wf(),
            final(self).song == old(self).song,
            final(self).mode == old(self).mode,
            final(self).play == old(self).play,
            final(self).time_offset == old(self).time_offset,
            final(self).awaiting_keys == old(self).awaiting_keys,
            final(self).active_piano_keys@ == old(self).active_piano_keys@.insert(key),
            ({
                let matched = old(self).awaiting_piano_input && match old(self).awaiting_keys {
                    Option::Some(aw) => old(self).active_piano_keys@.insert(key) =~= aw@,
                    Option::None => false,
                };
                if matched {
                    &&& !final(self).awaiting_piano_input
                    &&& final(self).paused_on_block_group == old(self).paused_on_block_group + 1
                    &&& final(self).active_piano_keys_history@ == Seq::<
                        crate::history::KeyWithTimestamp,
                    >::empty()
                } else {
                    &&& final(self).awaiting_piano_input == old(self).awaiting_piano_input
                    &&& final(self).paused_on_block_group == old(self).paused_on_block_group
                    &&& final(self).active_piano_keys_history@ == old(
                        self,
                    ).active_piano_keys_history@.push(
                        crate::history::KeyWithTimestamp { key, timestamp: now_micros },
                    )
                }
            }),
    {
        self.active_piano_keys.insert(key);
        self.active_piano_keys_history.insert(key, now_micros);
        if self.awaiting_piano_input {
            let matched = match &self.awaiting_keys {
                Some(aw) => self.active_piano_keys.equals(aw),
                None => false,
            };
            if matched {
                let timeline_len = self.song.len();
                assert(self.paused_on_block_group < timeline_len);
                self.awaiting_piano_input = false;
                self.paused_on_block_group = self.paused_on_block_group + 1;
                self.active_piano_keys_history.clear();
            }
        }
    }

    /// A live key came up: release it; the awaited chord and the history keep
    /// whatever they held.
    pub fn on_piano_key_up(&mut self, key: u8)
        requires
            old(self).wf(),
        ensures
            final(self).wf(),
            final(self).song == old(self).song,
            final(self).mode == old(self).mode,
            final(self).play == old(self).play,
            final(self).time_offset == old(self).time_offset,
            final(self).paused_on_block_group == old(self).paused_on_block_group,
            final(self).awaiting_piano_input == old(self).awaiting_piano_input,
            final(self).awaiting_keys == old(self).awaiting_keys,
            final(self).active_piano_keys@ == old(self).active_piano_keys@.remove(key),
            final(self).active_piano_keys_history == old(self).active_piano_keys_history,
    {
        self.active_piano_keys.remove(key);
    }
}

} // verus!
